//! The command registry of the terminal interface: every command's key,
//! label and description, where it appears, when it is available, and how
//! the footer lays out its hints. The interface draws; this decides.
use vstd::prelude::*;
use crate::models::TimerPhase;
use crate::text::chars_of;
use vstd::string::StrSliceExecFns;

verus! {

/// What the interface asks after handling a key.
#[derive(Debug, Clone, Copy, PartialEq, Eq, Structural)]
pub enum UiOutcome {
    Continue,
    Quit,
}

/// The commands of the interface, in registry order.
#[derive(Debug, Clone, Copy, PartialEq, Eq, Structural)]
pub enum CommandId {
    SelectNext,
    SelectPrevious,
    Search,
    FocusSelected,
    StartTasklessFocus,
    ToggleDone,
    UndoCompletion,
    AppendTask,
    AddAfter,
    EditTask,
    EstimateTask,
    ToggleBlocked,
    MoveTaskDown,
    MoveTaskUp,
    IndentTask,
    OutdentTask,
    DeleteTask,
    StartPauseResume,
    ResetTimer,
    StopTimer,
    CycleFilter,
    CyclePreset,
    CycleWorkspace,
    CycleSource,
    OpenPalette,
    OpenHelp,
    Quit,
}

/// A key as the registry sees it.
#[derive(Debug, Clone, Copy, PartialEq, Eq, Structural)]
pub enum KeyInput {
    Char(char),
    Enter,
    Tab,
    Up,
    Down,
    Other,
}

/// One command's entry: key label, label, description, and whether it is
/// offered in the palette and in the footer.
#[derive(Debug, Clone, Copy)]
pub struct CommandSpec {
    pub id: CommandId,
    pub key_label: &'static str,
    pub label: &'static str,
    pub description: &'static str,
    pub palette: bool,
    pub footer: bool,
}

/// The registry entry of a command, as `(key label, label, description,
/// palette, footer)`.
pub open spec fn spec_command(id: CommandId) -> (Seq<char>, Seq<char>, Seq<char>, bool, bool) {
    match id {
        CommandId::SelectNext => ("j/↓"@, "Select next task"@, "Move selection to the next visible task"@, false, false),
        CommandId::SelectPrevious => ("k/↑"@, "Select previous task"@, "Move selection to the previous visible task"@, false, false),
        CommandId::Search => ("/"@, "Search tasks"@, "Filter tasks by text, heading, status, priority, or due date"@, true, true),
        CommandId::FocusSelected => ("enter"@, "Focus or queue selected"@, "Start focus, start a ready focus, or choose the next task"@, true, true),
        CommandId::StartTasklessFocus => ("t"@, "Start taskless focus"@, "Start an idle focus cycle without assigning a task"@, true, true),
        CommandId::ToggleDone => ("space"@, "Toggle completed"@, "Toggle the selected Markdown checkbox"@, true, true),
        CommandId::UndoCompletion => ("u"@, "Undo last completion"@, "Reopen the task most recently completed in this window"@, true, true),
        CommandId::AppendTask => ("n"@, "Append task"@, "Append a new task to the Markdown file"@, true, true),
        CommandId::AddAfter => ("a"@, "Add task after selection"@, "Insert a sibling after the selected subtree"@, true, true),
        CommandId::EditTask => ("e"@, "Edit task"@, "Edit task text while preserving metadata"@, true, true),
        CommandId::EstimateTask => ("E"@, "Set estimate"@, "Set or clear the Pomodoro estimate"@, true, true),
        CommandId::ToggleBlocked => ("b"@, "Toggle blocked"@, "Mark the task blocked or unblocked"@, true, true),
        CommandId::MoveTaskDown => ("J"@, "Move task down"@, "Move the selected subtree down within its heading"@, true, true),
        CommandId::MoveTaskUp => ("K"@, "Move task up"@, "Move the selected subtree up within its heading"@, true, true),
        CommandId::IndentTask => (">"@, "Indent task"@, "Indent the selected task and subtree"@, true, true),
        CommandId::OutdentTask => ("<"@, "Outdent task"@, "Outdent the selected task and subtree"@, true, true),
        CommandId::DeleteTask => ("d"@, "Delete task"@, "Delete the Markdown task after confirmation"@, true, true),
        CommandId::StartPauseResume => ("p"@, "Start, pause, or resume timer"@, "Start a ready phase or pause/resume its countdown"@, true, true),
        CommandId::ResetTimer => ("r"@, "Reset timer phase"@, "Restart the current focus or break countdown"@, true, true),
        CommandId::StopTimer => ("s"@, "Stop timer"@, "Stop the cycle and save partial focus time"@, true, false),
        CommandId::CycleFilter => ("tab"@, "Cycle task filter"@, "Cycle open, completed, and all tasks"@, true, true),
        CommandId::CyclePreset => ("P"@, "Cycle focus preset"@, "Choose the next configured preset while idle"@, true, true),
        CommandId::CycleWorkspace => ("W"@, "Switch workspace"@, "Switch to the next configured workspace"@, true, true),
        CommandId::CycleSource => ("F"@, "Switch source view"@, "Cycle the aggregate and individual Markdown file views"@, true, true),
        CommandId::OpenPalette => (":"@, "Command palette"@, "Search and execute an available command"@, false, true),
        CommandId::OpenHelp => ("?"@, "Help"@, "Show contextual keybindings and commands"@, false, true),
        CommandId::Quit => ("q"@, "Close Focus Pane"@, "Close the popup without stopping an active timer"@, true, false),
    }
}

pub fn command_spec(id: CommandId) -> (c: CommandSpec)
    ensures
        c.id == id,
        (c.key_label@, c.label@, c.description@, c.palette, c.footer) == spec_command(id),
{
    match id {
        CommandId::SelectNext => CommandSpec { id, key_label: "j/↓", label: "Select next task", description: "Move selection to the next visible task", palette: false, footer: false },
        CommandId::SelectPrevious => CommandSpec { id, key_label: "k/↑", label: "Select previous task", description: "Move selection to the previous visible task", palette: false, footer: false },
        CommandId::Search => CommandSpec { id, key_label: "/", label: "Search tasks", description: "Filter tasks by text, heading, status, priority, or due date", palette: true, footer: true },
        CommandId::FocusSelected => CommandSpec { id, key_label: "enter", label: "Focus or queue selected", description: "Start focus, start a ready focus, or choose the next task", palette: true, footer: true },
        CommandId::StartTasklessFocus => CommandSpec { id, key_label: "t", label: "Start taskless focus", description: "Start an idle focus cycle without assigning a task", palette: true, footer: true },
        CommandId::ToggleDone => CommandSpec { id, key_label: "space", label: "Toggle completed", description: "Toggle the selected Markdown checkbox", palette: true, footer: true },
        CommandId::UndoCompletion => CommandSpec { id, key_label: "u", label: "Undo last completion", description: "Reopen the task most recently completed in this window", palette: true, footer: true },
        CommandId::AppendTask => CommandSpec { id, key_label: "n", label: "Append task", description: "Append a new task to the Markdown file", palette: true, footer: true },
        CommandId::AddAfter => CommandSpec { id, key_label: "a", label: "Add task after selection", description: "Insert a sibling after the selected subtree", palette: true, footer: true },
        CommandId::EditTask => CommandSpec { id, key_label: "e", label: "Edit task", description: "Edit task text while preserving metadata", palette: true, footer: true },
        CommandId::EstimateTask => CommandSpec { id, key_label: "E", label: "Set estimate", description: "Set or clear the Pomodoro estimate", palette: true, footer: true },
        CommandId::ToggleBlocked => CommandSpec { id, key_label: "b", label: "Toggle blocked", description: "Mark the task blocked or unblocked", palette: true, footer: true },
        CommandId::MoveTaskDown => CommandSpec { id, key_label: "J", label: "Move task down", description: "Move the selected subtree down within its heading", palette: true, footer: true },
        CommandId::MoveTaskUp => CommandSpec { id, key_label: "K", label: "Move task up", description: "Move the selected subtree up within its heading", palette: true, footer: true },
        CommandId::IndentTask => CommandSpec { id, key_label: ">", label: "Indent task", description: "Indent the selected task and subtree", palette: true, footer: true },
        CommandId::OutdentTask => CommandSpec { id, key_label: "<", label: "Outdent task", description: "Outdent the selected task and subtree", palette: true, footer: true },
        CommandId::DeleteTask => CommandSpec { id, key_label: "d", label: "Delete task", description: "Delete the Markdown task after confirmation", palette: true, footer: true },
        CommandId::StartPauseResume => CommandSpec { id, key_label: "p", label: "Start, pause, or resume timer", description: "Start a ready phase or pause/resume its countdown", palette: true, footer: true },
        CommandId::ResetTimer => CommandSpec { id, key_label: "r", label: "Reset timer phase", description: "Restart the current focus or break countdown", palette: true, footer: true },
        CommandId::StopTimer => CommandSpec { id, key_label: "s", label: "Stop timer", description: "Stop the cycle and save partial focus time", palette: true, footer: false },
        CommandId::CycleFilter => CommandSpec { id, key_label: "tab", label: "Cycle task filter", description: "Cycle open, completed, and all tasks", palette: true, footer: true },
        CommandId::CyclePreset => CommandSpec { id, key_label: "P", label: "Cycle focus preset", description: "Choose the next configured preset while idle", palette: true, footer: true },
        CommandId::CycleWorkspace => CommandSpec { id, key_label: "W", label: "Switch workspace", description: "Switch to the next configured workspace", palette: true, footer: true },
        CommandId::CycleSource => CommandSpec { id, key_label: "F", label: "Switch source view", description: "Cycle the aggregate and individual Markdown file views", palette: true, footer: true },
        CommandId::OpenPalette => CommandSpec { id, key_label: ":", label: "Command palette", description: "Search and execute an available command", palette: false, footer: true },
        CommandId::OpenHelp => CommandSpec { id, key_label: "?", label: "Help", description: "Show contextual keybindings and commands", palette: false, footer: true },
        CommandId::Quit => CommandSpec { id, key_label: "q", label: "Close Focus Pane", description: "Close the popup without stopping an active timer", palette: true, footer: false },
    }
}

/// All commands, in registry order.
pub open spec fn spec_all_commands() -> Seq<CommandId> {
    seq![
        CommandId::SelectNext,
        CommandId::SelectPrevious,
        CommandId::Search,
        CommandId::FocusSelected,
        CommandId::StartTasklessFocus,
        CommandId::ToggleDone,
        CommandId::UndoCompletion,
        CommandId::AppendTask,
        CommandId::AddAfter,
        CommandId::EditTask,
        CommandId::EstimateTask,
        CommandId::ToggleBlocked,
        CommandId::MoveTaskDown,
        CommandId::MoveTaskUp,
        CommandId::IndentTask,
        CommandId::OutdentTask,
        CommandId::DeleteTask,
        CommandId::StartPauseResume,
        CommandId::ResetTimer,
        CommandId::StopTimer,
        CommandId::CycleFilter,
        CommandId::CyclePreset,
        CommandId::CycleWorkspace,
        CommandId::CycleSource,
        CommandId::OpenPalette,
        CommandId::OpenHelp,
        CommandId::Quit,
    ]
}

pub fn all_commands() -> (v: Vec<CommandId>)
    ensures
        v@ == spec_all_commands(),
{
    let v = vec![
        CommandId::SelectNext,
        CommandId::SelectPrevious,
        CommandId::Search,
        CommandId::FocusSelected,
        CommandId::StartTasklessFocus,
        CommandId::ToggleDone,
        CommandId::UndoCompletion,
        CommandId::AppendTask,
        CommandId::AddAfter,
        CommandId::EditTask,
        CommandId::EstimateTask,
        CommandId::ToggleBlocked,
        CommandId::MoveTaskDown,
        CommandId::MoveTaskUp,
        CommandId::IndentTask,
        CommandId::OutdentTask,
        CommandId::DeleteTask,
        CommandId::StartPauseResume,
        CommandId::ResetTimer,
        CommandId::StopTimer,
        CommandId::CycleFilter,
        CommandId::CyclePreset,
        CommandId::CycleWorkspace,
        CommandId::CycleSource,
        CommandId::OpenPalette,
        CommandId::OpenHelp,
        CommandId::Quit,
    ];
    assert(v@ =~= spec_all_commands());
    v
}

/// The command bound to a key; characters count only without Control or Alt.
pub open spec fn spec_command_for_input(key: KeyInput, ctrl_or_alt: bool) -> Option<CommandId> {
    match key {
        KeyInput::Char(c) => if ctrl_or_alt {
            None
        } else {
            if c == 'j' { Some(CommandId::SelectNext) }
            else if c == 'k' { Some(CommandId::SelectPrevious) }
            else if c == '/' { Some(CommandId::Search) }
            else if c == 't' { Some(CommandId::StartTasklessFocus) }
            else if c == ' ' { Some(CommandId::ToggleDone) }
            else if c == 'u' { Some(CommandId::UndoCompletion) }
            else if c == 'n' { Some(CommandId::AppendTask) }
            else if c == 'a' { Some(CommandId::AddAfter) }
            else if c == 'e' { Some(CommandId::EditTask) }
            else if c == 'E' { Some(CommandId::EstimateTask) }
            else if c == 'b' { Some(CommandId::ToggleBlocked) }
            else if c == 'J' { Some(CommandId::MoveTaskDown) }
            else if c == 'K' { Some(CommandId::MoveTaskUp) }
            else if c == '>' { Some(CommandId::IndentTask) }
            else if c == '<' { Some(CommandId::OutdentTask) }
            else if c == 'd' { Some(CommandId::DeleteTask) }
            else if c == 'p' { Some(CommandId::StartPauseResume) }
            else if c == 'r' { Some(CommandId::ResetTimer) }
            else if c == 's' { Some(CommandId::StopTimer) }
            else if c == 'P' { Some(CommandId::CyclePreset) }
            else if c == 'W' { Some(CommandId::CycleWorkspace) }
            else if c == 'F' { Some(CommandId::CycleSource) }
            else if c == ':' { Some(CommandId::OpenPalette) }
            else if c == '?' { Some(CommandId::OpenHelp) }
            else if c == 'q' { Some(CommandId::Quit) }
            else { None }
        },
        KeyInput::Enter => Some(CommandId::FocusSelected),
        KeyInput::Tab => Some(CommandId::CycleFilter),
        KeyInput::Up => Some(CommandId::SelectPrevious),
        KeyInput::Down => Some(CommandId::SelectNext),
        KeyInput::Other => None,
    }
}

pub fn command_for_input(key: KeyInput, ctrl_or_alt: bool) -> (r: Option<CommandId>)
    ensures
        r == spec_command_for_input(key, ctrl_or_alt),
{
    match key {
        KeyInput::Char(c) => {
            if ctrl_or_alt {
                return None;
            }
            if c == 'j' {
                return Some(CommandId::SelectNext);
            }
            if c == 'k' {
                return Some(CommandId::SelectPrevious);
            }
            if c == '/' {
                return Some(CommandId::Search);
            }
            if c == 't' {
                return Some(CommandId::StartTasklessFocus);
            }
            if c == ' ' {
                return Some(CommandId::ToggleDone);
            }
            if c == 'u' {
                return Some(CommandId::UndoCompletion);
            }
            if c == 'n' {
                return Some(CommandId::AppendTask);
            }
            if c == 'a' {
                return Some(CommandId::AddAfter);
            }
            if c == 'e' {
                return Some(CommandId::EditTask);
            }
            if c == 'E' {
                return Some(CommandId::EstimateTask);
            }
            if c == 'b' {
                return Some(CommandId::ToggleBlocked);
            }
            if c == 'J' {
                return Some(CommandId::MoveTaskDown);
            }
            if c == 'K' {
                return Some(CommandId::MoveTaskUp);
            }
            if c == '>' {
                return Some(CommandId::IndentTask);
            }
            if c == '<' {
                return Some(CommandId::OutdentTask);
            }
            if c == 'd' {
                return Some(CommandId::DeleteTask);
            }
            if c == 'p' {
                return Some(CommandId::StartPauseResume);
            }
            if c == 'r' {
                return Some(CommandId::ResetTimer);
            }
            if c == 's' {
                return Some(CommandId::StopTimer);
            }
            if c == 'P' {
                return Some(CommandId::CyclePreset);
            }
            if c == 'W' {
                return Some(CommandId::CycleWorkspace);
            }
            if c == 'F' {
                return Some(CommandId::CycleSource);
            }
            if c == ':' {
                return Some(CommandId::OpenPalette);
            }
            if c == '?' {
                return Some(CommandId::OpenHelp);
            }
            if c == 'q' {
                return Some(CommandId::Quit);
            }
            None
        },
        KeyInput::Enter => Some(CommandId::FocusSelected),
        KeyInput::Tab => Some(CommandId::CycleFilter),
        KeyInput::Up => Some(CommandId::SelectPrevious),
        KeyInput::Down => Some(CommandId::SelectNext),
        KeyInput::Other => None,
    }
}

/// The short label of a command in the footer.
pub open spec fn spec_footer_label(id: CommandId) -> Seq<char> {
    match id {
        CommandId::SelectNext => spec_command(id).1,
        CommandId::SelectPrevious => spec_command(id).1,
        CommandId::Search => "search"@,
        CommandId::FocusSelected => "focus/next"@,
        CommandId::StartTasklessFocus => "taskless"@,
        CommandId::ToggleDone => "done"@,
        CommandId::UndoCompletion => "undo"@,
        CommandId::AppendTask => "add"@,
        CommandId::AddAfter => "after"@,
        CommandId::EditTask => "edit"@,
        CommandId::EstimateTask => "estimate"@,
        CommandId::ToggleBlocked => "blocked"@,
        CommandId::MoveTaskDown => "reorder"@,
        CommandId::MoveTaskUp => "reorder"@,
        CommandId::IndentTask => "indent"@,
        CommandId::OutdentTask => "indent"@,
        CommandId::DeleteTask => "delete"@,
        CommandId::StartPauseResume => "timer"@,
        CommandId::ResetTimer => "reset"@,
        CommandId::StopTimer => spec_command(id).1,
        CommandId::CycleFilter => "states"@,
        CommandId::CyclePreset => "preset"@,
        CommandId::CycleWorkspace => "workspace"@,
        CommandId::CycleSource => "source"@,
        CommandId::OpenPalette => "commands"@,
        CommandId::OpenHelp => "help"@,
        CommandId::Quit => spec_command(id).1,
    }
}

pub fn footer_label(id: CommandId) -> (s: &'static str)
    ensures
        s@ == spec_footer_label(id),
{
    match id {
        CommandId::SelectNext => command_spec(id).label,
        CommandId::SelectPrevious => command_spec(id).label,
        CommandId::Search => "search",
        CommandId::FocusSelected => "focus/next",
        CommandId::StartTasklessFocus => "taskless",
        CommandId::ToggleDone => "done",
        CommandId::UndoCompletion => "undo",
        CommandId::AppendTask => "add",
        CommandId::AddAfter => "after",
        CommandId::EditTask => "edit",
        CommandId::EstimateTask => "estimate",
        CommandId::ToggleBlocked => "blocked",
        CommandId::MoveTaskDown => "reorder",
        CommandId::MoveTaskUp => "reorder",
        CommandId::IndentTask => "indent",
        CommandId::OutdentTask => "indent",
        CommandId::DeleteTask => "delete",
        CommandId::StartPauseResume => "timer",
        CommandId::ResetTimer => "reset",
        CommandId::StopTimer => command_spec(id).label,
        CommandId::CycleFilter => "states",
        CommandId::CyclePreset => "preset",
        CommandId::CycleWorkspace => "workspace",
        CommandId::CycleSource => "source",
        CommandId::OpenPalette => "commands",
        CommandId::OpenHelp => "help",
        CommandId::Quit => command_spec(id).label,
    }
}

/// The order of the footer hints.
pub open spec fn spec_footer_order() -> Seq<CommandId> {
    seq![
        CommandId::OpenPalette,
        CommandId::OpenHelp,
        CommandId::FocusSelected,
        CommandId::StartPauseResume,
        CommandId::ToggleDone,
        CommandId::UndoCompletion,
        CommandId::Search,
        CommandId::CycleWorkspace,
        CommandId::CycleSource,
        CommandId::AppendTask,
        CommandId::EditTask,
        CommandId::AddAfter,
        CommandId::EstimateTask,
        CommandId::ToggleBlocked,
        CommandId::CycleFilter,
        CommandId::CyclePreset,
        CommandId::ResetTimer,
        CommandId::DeleteTask,
        CommandId::MoveTaskDown,
        CommandId::MoveTaskUp,
        CommandId::IndentTask,
        CommandId::OutdentTask,
        CommandId::StartTasklessFocus,
    ]
}

pub fn footer_order() -> (v: Vec<CommandId>)
    ensures
        v@ == spec_footer_order(),
{
    let v = vec![
        CommandId::OpenPalette,
        CommandId::OpenHelp,
        CommandId::FocusSelected,
        CommandId::StartPauseResume,
        CommandId::ToggleDone,
        CommandId::UndoCompletion,
        CommandId::Search,
        CommandId::CycleWorkspace,
        CommandId::CycleSource,
        CommandId::AppendTask,
        CommandId::EditTask,
        CommandId::AddAfter,
        CommandId::EstimateTask,
        CommandId::ToggleBlocked,
        CommandId::CycleFilter,
        CommandId::CyclePreset,
        CommandId::ResetTimer,
        CommandId::DeleteTask,
        CommandId::MoveTaskDown,
        CommandId::MoveTaskUp,
        CommandId::IndentTask,
        CommandId::OutdentTask,
        CommandId::StartTasklessFocus,
    ];
    assert(v@ =~= spec_footer_order());
    v
}

/// `key` is the character `c`, pressed without Control or Alt.
pub open spec fn plain_key(key: KeyInput, ctrl_or_alt: bool, c: char) -> bool {
    key == KeyInput::Char(c) && !ctrl_or_alt
}

/// The registry's key bindings: whether the key runs the command.
pub open spec fn spec_binds(id: CommandId, key: KeyInput, ctrl_or_alt: bool) -> bool {
    match id {
        CommandId::SelectNext => plain_key(key, ctrl_or_alt, 'j') || key == KeyInput::Down,
        CommandId::SelectPrevious => plain_key(key, ctrl_or_alt, 'k') || key == KeyInput::Up,
        CommandId::Search => plain_key(key, ctrl_or_alt, '/'),
        CommandId::FocusSelected => key == KeyInput::Enter,
        CommandId::StartTasklessFocus => plain_key(key, ctrl_or_alt, 't'),
        CommandId::ToggleDone => plain_key(key, ctrl_or_alt, ' '),
        CommandId::UndoCompletion => plain_key(key, ctrl_or_alt, 'u'),
        CommandId::AppendTask => plain_key(key, ctrl_or_alt, 'n'),
        CommandId::AddAfter => plain_key(key, ctrl_or_alt, 'a'),
        CommandId::EditTask => plain_key(key, ctrl_or_alt, 'e'),
        CommandId::EstimateTask => plain_key(key, ctrl_or_alt, 'E'),
        CommandId::ToggleBlocked => plain_key(key, ctrl_or_alt, 'b'),
        CommandId::MoveTaskDown => plain_key(key, ctrl_or_alt, 'J'),
        CommandId::MoveTaskUp => plain_key(key, ctrl_or_alt, 'K'),
        CommandId::IndentTask => plain_key(key, ctrl_or_alt, '>'),
        CommandId::OutdentTask => plain_key(key, ctrl_or_alt, '<'),
        CommandId::DeleteTask => plain_key(key, ctrl_or_alt, 'd'),
        CommandId::StartPauseResume => plain_key(key, ctrl_or_alt, 'p'),
        CommandId::ResetTimer => plain_key(key, ctrl_or_alt, 'r'),
        CommandId::StopTimer => plain_key(key, ctrl_or_alt, 's'),
        CommandId::CycleFilter => key == KeyInput::Tab,
        CommandId::CyclePreset => plain_key(key, ctrl_or_alt, 'P'),
        CommandId::CycleWorkspace => plain_key(key, ctrl_or_alt, 'W'),
        CommandId::CycleSource => plain_key(key, ctrl_or_alt, 'F'),
        CommandId::OpenPalette => plain_key(key, ctrl_or_alt, ':'),
        CommandId::OpenHelp => plain_key(key, ctrl_or_alt, '?'),
        CommandId::Quit => plain_key(key, ctrl_or_alt, 'q'),
    }
}

/// The first command from the `i`-th on, in registry order, that the key runs.
pub open spec fn registry_dispatch(key: KeyInput, ctrl_or_alt: bool, i: int) -> Option<CommandId>
    decreases spec_all_commands().len() - i,
{
    if 0 <= i < spec_all_commands().len() {
        if spec_binds(spec_all_commands()[i], key, ctrl_or_alt) {
            Some(spec_all_commands()[i])
        } else {
            registry_dispatch(key, ctrl_or_alt, i + 1)
        }
    } else {
        None
    }
}

/// Key dispatch follows the registry: a key runs the first command in
/// registry order whose bindings hold it, and no other.
pub proof fn law_dispatch_follows_registry(key: KeyInput, ctrl_or_alt: bool)
    ensures
        spec_command_for_input(key, ctrl_or_alt) == registry_dispatch(key, ctrl_or_alt, 0),
{
    let a = spec_all_commands();
    assert(a.len() == 27);
    assert(a[0] == CommandId::SelectNext && a[1] == CommandId::SelectPrevious && a[2] == CommandId::Search
        && a[3] == CommandId::FocusSelected && a[4] == CommandId::StartTasklessFocus && a[5]
        == CommandId::ToggleDone && a[6] == CommandId::UndoCompletion && a[7] == CommandId::AppendTask
        && a[8] == CommandId::AddAfter && a[9] == CommandId::EditTask && a[10] == CommandId::EstimateTask
        && a[11] == CommandId::ToggleBlocked && a[12] == CommandId::MoveTaskDown && a[13]
        == CommandId::MoveTaskUp && a[14] == CommandId::IndentTask && a[15] == CommandId::OutdentTask
        && a[16] == CommandId::DeleteTask && a[17] == CommandId::StartPauseResume && a[18]
        == CommandId::ResetTimer && a[19] == CommandId::StopTimer && a[20] == CommandId::CycleFilter
        && a[21] == CommandId::CyclePreset && a[22] == CommandId::CycleWorkspace && a[23]
        == CommandId::CycleSource && a[24] == CommandId::OpenPalette && a[25] == CommandId::OpenHelp
        && a[26] == CommandId::Quit);
    reveal_with_fuel(registry_dispatch, 28);
}

} // verus!
