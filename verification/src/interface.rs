//! The decisions of the terminal interface that do not touch the terminal:
//! when each command is available, which commands the palette offers for a
//! query, how the footer wraps its hints, how the screen is classified and
//! where a dialog is centred, and how the selection and the views move.
use vstd::prelude::*;
use crate::commands::{
    all_commands, command_spec, footer_label, footer_order, spec_all_commands, spec_command,
    spec_footer_label, spec_footer_order, CommandId,
};
use crate::models::TimerPhase;
use crate::rows::Row;
use crate::search::{contains_chars, contains_text, lowercase, lowercased};
use crate::text::{chars_of, string_of};
use crate::models::Task;
use crate::numbers::{decimal, spec_decimal};
use crate::edits::append_chars;
use crate::search::same_text;

verus! {

/// What the interface knows when it decides whether a command is available:
/// the number of task rows shown, whether a task is selected, whether a
/// completion can be undone, whether a source is open for appending, and the
/// numbers of workspaces, sources in the current workspace, and presets.
#[derive(Debug, Clone, Copy, PartialEq, Eq, Structural)]
pub struct AvailabilityFacts {
    pub visible_tasks: usize,
    pub has_selection: bool,
    pub can_undo: bool,
    pub has_active_source: bool,
    pub workspaces: usize,
    pub sources: usize,
    pub presets: usize,
}

/// When a command is available; `phase` is the timer's phase, when it could
/// be read.
pub open spec fn spec_available(c: CommandId, f: AvailabilityFacts, phase: Option<TimerPhase>) -> bool {
    match c {
        CommandId::SelectNext | CommandId::SelectPrevious => f.visible_tasks > 0,
        CommandId::UndoCompletion => f.can_undo,
        CommandId::FocusSelected | CommandId::ToggleDone | CommandId::AddAfter | CommandId::EditTask
        | CommandId::EstimateTask | CommandId::ToggleBlocked | CommandId::MoveTaskDown
        | CommandId::MoveTaskUp | CommandId::IndentTask | CommandId::OutdentTask
        | CommandId::DeleteTask => f.has_selection,
        CommandId::AppendTask => f.has_active_source,
        CommandId::CycleWorkspace => f.workspaces > 1,
        CommandId::CycleSource => f.sources > 1,
        CommandId::StartTasklessFocus => phase == Some(TimerPhase::Idle),
        CommandId::StartPauseResume | CommandId::StopTimer => phase is Some && phase->0
            != TimerPhase::Idle,
        CommandId::ResetTimer => phase is Some && (phase->0.spec_is_running()
            || phase->0.spec_is_paused()),
        CommandId::CyclePreset => phase == Some(TimerPhase::Idle) && f.presets > 1,
        _ => true,
    }
}

pub fn command_available(c: CommandId, f: AvailabilityFacts, phase: Option<TimerPhase>) -> (b: bool)
    ensures
        b == spec_available(c, f, phase),
{
    match c {
        CommandId::SelectNext | CommandId::SelectPrevious => f.visible_tasks > 0,
        CommandId::UndoCompletion => f.can_undo,
        CommandId::FocusSelected | CommandId::ToggleDone | CommandId::AddAfter | CommandId::EditTask
        | CommandId::EstimateTask | CommandId::ToggleBlocked | CommandId::MoveTaskDown
        | CommandId::MoveTaskUp | CommandId::IndentTask | CommandId::OutdentTask
        | CommandId::DeleteTask => f.has_selection,
        CommandId::AppendTask => f.has_active_source,
        CommandId::CycleWorkspace => f.workspaces > 1,
        CommandId::CycleSource => f.sources > 1,
        CommandId::StartTasklessFocus => match phase {
            Some(TimerPhase::Idle) => true,
            _ => false,
        },
        CommandId::StartPauseResume | CommandId::StopTimer => match phase {
            Some(TimerPhase::Idle) => false,
            Some(_) => true,
            None => false,
        },
        CommandId::ResetTimer => match phase {
            Some(p) => p.is_running() || p.is_paused(),
            None => false,
        },
        CommandId::CyclePreset => match phase {
            Some(TimerPhase::Idle) => f.presets > 1,
            _ => false,
        },
        _ => true,
    }
}

/// Whether a lower-cased query finds a palette command, given the lower-cased
/// label, description and key label: an empty query finds every command.
pub open spec fn spec_palette_hit(label: Seq<char>, description: Seq<char>, key: Seq<char>, query: Seq<char>) -> bool {
    query.len() == 0 || contains_text(label, query) || contains_text(description, query)
        || contains_text(key, query)
}

pub fn palette_hit(label: &str, description: &str, key: &str, query: &str) -> (b: bool)
    ensures
        b == spec_palette_hit(label@, description@, key@, query@),
{
    let q = chars_of(query);
    q.len() == 0 || contains_chars(&chars_of(label), &q) || contains_chars(&chars_of(description), &q)
        || contains_chars(&chars_of(key), &q)
}

/// Whether the palette offers a command for the lower-cased query: it is a
/// palette command, it is available, and the query finds it.
pub open spec fn spec_offered(c: CommandId, f: AvailabilityFacts, phase: Option<TimerPhase>, query: Seq<char>) -> bool {
    let s = spec_command(c);
    s.3 && spec_available(c, f, phase) && spec_palette_hit(lowercased(s.1), lowercased(s.2), lowercased(s.0), query)
}

/// The offered commands among the first `n` of the registry, in order.
pub open spec fn offered_prefix(f: AvailabilityFacts, phase: Option<TimerPhase>, query: Seq<char>, n: int) -> Seq<CommandId>
    decreases n,
{
    if n <= 0 {
        Seq::empty()
    } else {
        let p = offered_prefix(f, phase, query, n - 1);
        let c = spec_all_commands()[n - 1];
        if spec_offered(c, f, phase, query) {
            p.push(c)
        } else {
            p
        }
    }
}

/// The commands the palette lists for a typed query, in registry order; the
/// query is compared in lower case.
pub open spec fn spec_palette(f: AvailabilityFacts, phase: Option<TimerPhase>, typed: Seq<char>) -> Seq<CommandId> {
    offered_prefix(f, phase, lowercased(typed), spec_all_commands().len() as int)
}

pub fn palette_commands(f: AvailabilityFacts, phase: Option<TimerPhase>, typed: &str) -> (v: Vec<CommandId>)
    ensures
        v@ == spec_palette(f, phase, typed@),
{
    let query = lowercase(typed);
    let all = all_commands();
    let mut v: Vec<CommandId> = Vec::new();
    let mut i: usize = 0;
    while i < all.len()
        invariant
            i <= all@.len(),
            all@ == spec_all_commands(),
            query@ == lowercased(typed@),
            v@ == offered_prefix(f, phase, query@, i as int),
        decreases all.len() - i,
    {
        let c = all[i];
        let s = command_spec(c);
        if s.palette && command_available(c, f, phase) {
            let label = lowercase(s.label);
            let description = lowercase(s.description);
            let key = lowercase(s.key_label);
            if palette_hit(label.as_str(), description.as_str(), key.as_str(), query.as_str()) {
                v.push(c);
            }
        }
        i += 1;
    }
    v
}

/// The first palette line shown when `height` lines fit and line
/// `selection` is selected: the selection is kept on screen.
pub open spec fn spec_scroll_start(selection: usize, height: usize) -> int {
    let past = if selection == usize::MAX { usize::MAX as int } else { selection + 1 };
    if past >= height {
        past - height
    } else {
        0
    }
}

pub fn scroll_start(selection: usize, height: usize) -> (s: usize)
    ensures
        s == spec_scroll_start(selection, height),
        height > 0 && selection < usize::MAX ==> s <= selection && selection < s + height,
{
    selection.saturating_add(1).saturating_sub(height)
}

/// The palette selection after the Down key, with `count` commands listed.
pub fn palette_down(selection: usize, count: usize) -> (s: usize)
    ensures
        count == 0 ==> s == selection,
        count > 0 ==> s == if selection + 1 < count { selection + 1 } else { count - 1 },
{
    if count > 0 {
        let next = if selection < count - 1 {
            selection + 1
        } else {
            count - 1
        };
        next
    } else {
        selection
    }
}

/// The help scroll position after moving down by one line; it stops at the
/// last command of the registry.
pub fn help_down(scroll: usize) -> (s: usize)
    ensures
        s == if scroll + 1 < spec_all_commands().len() { scroll + 1 } else { spec_all_commands().len() - 1 },
{
    let last: usize = 26;
    if scroll < last {
        scroll + 1
    } else {
        last
    }
}

/// The width of a footer hint: its key label, a space, and its label.
pub open spec fn hint_width(c: CommandId) -> int {
    spec_command(c).0.len() + 1 + spec_footer_label(c).len() as int
}

/// The footer hints offered now, in footer order.
pub open spec fn footer_candidates(f: AvailabilityFacts, phase: Option<TimerPhase>, n: int) -> Seq<CommandId>
    decreases n,
{
    if n <= 0 {
        Seq::empty()
    } else {
        let p = footer_candidates(f, phase, n - 1);
        let c = spec_footer_order()[n - 1];
        if spec_command(c).4 && spec_available(c, f, phase) {
            p.push(c)
        } else {
            p
        }
    }
}

/// The footer layout after the first `n` candidates: the finished lines, the
/// line being filled, its width, and whether the line limit was reached.
pub open spec fn footer_fold(cands: Seq<CommandId>, max_width: int, max_lines: int, n: int) -> (Seq<Seq<CommandId>>, Seq<CommandId>, int, bool)
    decreases n,
{
    if n <= 0 {
        (Seq::empty(), Seq::empty(), 0, false)
    } else {
        let (lines, cur, width, done) = footer_fold(cands, max_width, max_lines, n - 1);
        let c = cands[n - 1];
        if done {
            (lines, cur, width, done)
        } else if cur.len() > 0 && width + 3 + hint_width(c) > max_width {
            let lines2 = lines.push(cur);
            if lines2.len() >= max_lines {
                (lines2, Seq::empty(), 0, true)
            } else {
                (lines2, seq![c], hint_width(c), false)
            }
        } else if cur.len() > 0 {
            (lines, cur.push(c), width + 3 + hint_width(c), false)
        } else {
            (lines, seq![c], hint_width(c), false)
        }
    }
}

/// The footer's lines of hints: the offered hints in footer order, separated
/// by ` · `, each line filled while it fits `max_width`, and at most
/// `max_lines` lines (a hint wider than the footer still gets a line).
pub open spec fn spec_footer_lines(f: AvailabilityFacts, phase: Option<TimerPhase>, max_width: int, max_lines: int) -> Seq<Seq<CommandId>> {
    let cands = footer_candidates(f, phase, spec_footer_order().len() as int);
    let (lines, cur, width, done) = footer_fold(cands, max_width, max_lines, cands.len() as int);
    if cur.len() > 0 && lines.len() < max_lines {
        lines.push(cur)
    } else {
        lines
    }
}

/// The registry's key labels and footer labels are short.
pub proof fn lemma_hint_lengths(c: CommandId)
    ensures
        spec_command(c).0.len() < 16,
        spec_footer_label(c).len() < 64,
{
    match c {
        CommandId::SelectNext => {
            reveal_strlit("j/↓");
            reveal_strlit("Select next task");
        },
        CommandId::SelectPrevious => {
            reveal_strlit("k/↑");
            reveal_strlit("Select previous task");
        },
        CommandId::Search => {
            reveal_strlit("/");
            reveal_strlit("search");
        },
        CommandId::FocusSelected => {
            reveal_strlit("enter");
            reveal_strlit("focus/next");
        },
        CommandId::StartTasklessFocus => {
            reveal_strlit("t");
            reveal_strlit("taskless");
        },
        CommandId::ToggleDone => {
            reveal_strlit("space");
            reveal_strlit("done");
        },
        CommandId::UndoCompletion => {
            reveal_strlit("u");
            reveal_strlit("undo");
        },
        CommandId::AppendTask => {
            reveal_strlit("n");
            reveal_strlit("add");
        },
        CommandId::AddAfter => {
            reveal_strlit("a");
            reveal_strlit("after");
        },
        CommandId::EditTask => {
            reveal_strlit("e");
            reveal_strlit("edit");
        },
        CommandId::EstimateTask => {
            reveal_strlit("E");
            reveal_strlit("estimate");
        },
        CommandId::ToggleBlocked => {
            reveal_strlit("b");
            reveal_strlit("blocked");
        },
        CommandId::MoveTaskDown => {
            reveal_strlit("J");
            reveal_strlit("reorder");
        },
        CommandId::MoveTaskUp => {
            reveal_strlit("K");
            reveal_strlit("reorder");
        },
        CommandId::IndentTask => {
            reveal_strlit(">");
            reveal_strlit("indent");
        },
        CommandId::OutdentTask => {
            reveal_strlit("<");
            reveal_strlit("indent");
        },
        CommandId::DeleteTask => {
            reveal_strlit("d");
            reveal_strlit("delete");
        },
        CommandId::StartPauseResume => {
            reveal_strlit("p");
            reveal_strlit("timer");
        },
        CommandId::ResetTimer => {
            reveal_strlit("r");
            reveal_strlit("reset");
        },
        CommandId::StopTimer => {
            reveal_strlit("s");
            reveal_strlit("Stop timer");
        },
        CommandId::CycleFilter => {
            reveal_strlit("tab");
            reveal_strlit("states");
        },
        CommandId::CyclePreset => {
            reveal_strlit("P");
            reveal_strlit("preset");
        },
        CommandId::CycleWorkspace => {
            reveal_strlit("W");
            reveal_strlit("workspace");
        },
        CommandId::CycleSource => {
            reveal_strlit("F");
            reveal_strlit("source");
        },
        CommandId::OpenPalette => {
            reveal_strlit(":");
            reveal_strlit("commands");
        },
        CommandId::OpenHelp => {
            reveal_strlit("?");
            reveal_strlit("help");
        },
        CommandId::Quit => {
            reveal_strlit("q");
            reveal_strlit("Close Focus Pane");
        },
    }
}

fn hint_width_exec(c: CommandId) -> (w: usize)
    ensures
        w == hint_width(c),
{
    let s = command_spec(c);
    let key = chars_of(s.key_label);
    let label = chars_of(footer_label(c));
    proof {
        lemma_hint_lengths(c);
    }
    key.len() + 1 + label.len()
}


/// The footer's lines of hints for a footer `max_width` columns wide and
/// `max_lines` lines high.
pub fn footer_lines(f: AvailabilityFacts, phase: Option<TimerPhase>, max_width: usize, max_lines: usize) -> (lines: Vec<Vec<CommandId>>)
    ensures
        lines@.map_values(|l: Vec<CommandId>| l@) == spec_footer_lines(f, phase, max_width as int, max_lines as int),
{
    let order = footer_order();
    let mut cands: Vec<CommandId> = Vec::new();
    let mut i: usize = 0;
    while i < order.len()
        invariant
            i <= order@.len(),
            order@ == spec_footer_order(),
            cands@ == footer_candidates(f, phase, i as int),
        decreases order.len() - i,
    {
        let c = order[i];
        if command_spec(c).footer && command_available(c, f, phase) {
            cands.push(c);
        }
        i += 1;
    }
    let ghost mw = max_width as int;
    let ghost ml = max_lines as int;
    let mut lines: Vec<Vec<CommandId>> = Vec::new();
    let mut cur: Vec<CommandId> = Vec::new();
    let mut width: usize = 0;
    let mut done = false;
    let mut k: usize = 0;
    while k < cands.len()
        invariant
            k <= cands@.len(),
            mw == max_width as int,
            ml == max_lines as int,
            width <= max_width + 64 + 16,
            footer_fold(cands@, mw, ml, k as int) == (lines@.map_values(|l: Vec<CommandId>| l@), cur@, width as int, done),
        decreases cands.len() - k,
    {
        let c = cands[k];
        let ghost before = footer_fold(cands@, mw, ml, k as int);
        proof {
            lemma_hint_lengths(c);
        }
        if !done {
            let w = hint_width_exec(c);
            if cur.len() > 0 && width > max_width {
                proof {
                    assert(width + 3 + hint_width(c) > mw);
                }
                lines.push(cur);
                cur = Vec::new();
                width = 0;
                if lines.len() >= max_lines {
                    done = true;
                } else {
                    cur.push(c);
                    width = w;
                }
            } else if cur.len() > 0 && max_width - width < 3 + w {
                lines.push(cur);
                cur = Vec::new();
                width = 0;
                if lines.len() >= max_lines {
                    done = true;
                } else {
                    cur.push(c);
                    width = w;
                }
            } else if cur.len() > 0 {
                cur.push(c);
                width = width + 3 + w;
            } else {
                cur.push(c);
                width = w;
            }
        }
        proof {
            assert(lines@.map_values(|l: Vec<CommandId>| l@) =~= footer_fold(cands@, mw, ml, k + 1).0);
            assert(cur@ =~= footer_fold(cands@, mw, ml, k + 1).1);
        }
        k += 1;
    }
    if cur.len() > 0 && lines.len() < max_lines {
        lines.push(cur);
    }
    proof {
        assert(lines@.map_values(|l: Vec<CommandId>| l@) =~= spec_footer_lines(f, phase, mw, ml));
    }
    lines
}

/// How much room the interface has: compact below 72 columns or 18 lines,
/// wide from 110 columns.
#[derive(Debug, Clone, Copy, PartialEq, Eq, Structural)]
pub enum ViewportMode {
    Compact,
    Normal,
    Wide,
}

impl ViewportMode {
    pub open spec fn spec_for_area(width: u16, height: u16) -> ViewportMode {
        if width < 72 || height < 18 {
            ViewportMode::Compact
        } else if width < 110 {
            ViewportMode::Normal
        } else {
            ViewportMode::Wide
        }
    }

    pub fn for_area(width: u16, height: u16) -> (m: ViewportMode)
        ensures
            m == Self::spec_for_area(width, height),
    {
        if width < 72 || height < 18 {
            ViewportMode::Compact
        } else if width < 110 {
            ViewportMode::Normal
        } else {
            ViewportMode::Wide
        }
    }
}

/// A rectangle of terminal cells.
#[derive(Debug, Clone, Copy, PartialEq, Eq, Structural)]
pub struct Rect {
    pub x: u16,
    pub y: u16,
    pub width: u16,
    pub height: u16,
}

impl Rect {
    /// The rectangle lies within the 16-bit coordinate space.
    pub open spec fn fits(self) -> bool {
        self.x + self.width <= u16::MAX && self.y + self.height <= u16::MAX
    }

    pub open spec fn contains_rect(self, inner: Rect) -> bool {
        self.x <= inner.x && inner.x + inner.width <= self.x + self.width && self.y <= inner.y
            && inner.y + inner.height <= self.y + self.height
    }
}

/// One side of a centred dialog: two cells smaller than the room, at most
/// `max`, at least one cell, and never more than the room.
pub open spec fn modal_extent(room: u16, max: u16) -> int {
    let shrunk: int = if room >= 2 { room - 2 } else { 0 };
    let capped: int = if shrunk < max { shrunk } else { max as int };
    let at_least_one: int = if capped < 1 { 1 } else { capped };
    if at_least_one < room { at_least_one } else { room as int }
}

fn extent(room: u16, max: u16) -> (e: u16)
    ensures
        e == modal_extent(room, max),
        e <= room,
{
    let shrunk = room.saturating_sub(2);
    let capped = if shrunk < max { shrunk } else { max };
    let at_least_one = if capped < 1 { 1 } else { capped };
    if at_least_one < room { at_least_one } else { room }
}

/// A dialog of at most `max_width` by `max_height` cells centred in `area`.
pub fn centered_modal(area: Rect, max_width: u16, max_height: u16) -> (r: Rect)
    requires
        area.fits(),
    ensures
        r.width == modal_extent(area.width, max_width),
        r.height == modal_extent(area.height, max_height),
        r.x == area.x + (area.width - r.width) / 2,
        r.y == area.y + (area.height - r.height) / 2,
        area.contains_rect(r),
        r.fits(),
{
    let width = extent(area.width, max_width);
    let height = extent(area.height, max_height);
    Rect { x: area.x + (area.width - width) / 2, y: area.y + (area.height - height) / 2, width, height }
}

/// The nearest task row at or after `j`, scanning forward.
pub open spec fn entry_forward(rows: Seq<Row>, j: int) -> Option<int>
    decreases rows.len() - j,
{
    if j < 0 || j >= rows.len() {
        None
    } else if rows[j] is Entry {
        Some(j)
    } else {
        entry_forward(rows, j + 1)
    }
}

/// The nearest task row at or before `j`, scanning backward.
pub open spec fn entry_backward(rows: Seq<Row>, j: int) -> Option<int>
    decreases j + 1,
{
    if j < 0 || j >= rows.len() {
        None
    } else if rows[j] is Entry {
        Some(j)
    } else {
        entry_backward(rows, j - 1)
    }
}

/// The selection after moving one task down (or up): the nearest task row
/// past the selected row (the first row when none is selected); where there is
/// none the selection stays, and an empty list has no selection.
pub open spec fn spec_move_selection(rows: Seq<Row>, selected: Option<usize>, down: bool) -> Option<usize> {
    if rows.len() == 0 {
        None
    } else {
        let from: int = match selected {
            Some(i) => i as int,
            None => 0,
        };
        let found = if down { entry_forward(rows, from + 1) } else { entry_backward(rows, from - 1) };
        match found {
            Some(j) => Some(j as usize),
            None => selected,
        }
    }
}

pub fn move_selection(rows: &Vec<Row>, selected: Option<usize>, down: bool) -> (r: Option<usize>)
    ensures
        r == spec_move_selection(rows@, selected, down),
{
    if rows.len() == 0 {
        return None;
    }
    let from: usize = match selected {
        Some(i) => i,
        None => 0,
    };
    if down {
        if from >= rows.len() {
            return selected;
        }
        let mut j: usize = from + 1;
        while j < rows.len()
            invariant
                from < j <= rows@.len(),
                down,
                from as int == match selected { Some(i) => i as int, None => 0 },
                entry_forward(rows@, from + 1) == entry_forward(rows@, j as int),
            decreases rows.len() - j,
        {
            if let Row::Entry { .. } = rows[j] {
                proof {
                    assert(rows@[j as int] is Entry);
                    assert(entry_forward(rows@, j as int) == Some(j as int));
                }
                return Some(j);
            }
            j += 1;
        }
        selected
    } else {
        if from == 0 || from > rows.len() {
            return selected;
        }
        let mut j: usize = from;
        while j > 0
            invariant
                j <= from <= rows@.len(),
                0 < from,
                !down,
                from as int == match selected { Some(i) => i as int, None => 0 },
                entry_backward(rows@, from - 1) == entry_backward(rows@, j - 1),
            decreases j,
        {
            if let Row::Entry { .. } = rows[j - 1] {
                proof {
                    assert(rows@[j - 1] is Entry);
                    assert(entry_backward(rows@, j - 1) == Some(j - 1));
                }
                return Some(j - 1);
            }
            j -= 1;
        }
        selected
    }
}

/// The task of the selected row, if it shows one.
pub fn selected_task(rows: &Vec<Row>, selected: Option<usize>) -> (t: Option<usize>)
    ensures
        t == match selected {
            Some(i) => if i < rows@.len() && rows@[i as int] is Entry {
                Some(rows@[i as int]->task)
            } else {
                None
            },
            None => None,
        },
{
    match selected {
        Some(i) => if i < rows.len() {
            match rows[i] {
                Row::Entry { task, .. } => Some(task),
                _ => None,
            }
        } else {
            None
        },
        None => None,
    }
}

/// The number of task rows among the first `n` rows.
pub open spec fn entry_count(rows: Seq<Row>, n: int) -> nat
    decreases n,
{
    if n <= 0 {
        0
    } else {
        entry_count(rows, n - 1) + if rows[n - 1] is Entry { 1nat } else { 0nat }
    }
}

pub fn visible_task_count(rows: &Vec<Row>) -> (n: usize)
    ensures
        n == entry_count(rows@, rows@.len() as int),
{
    let mut n: usize = 0;
    let mut i: usize = 0;
    while i < rows.len()
        invariant
            i <= rows@.len(),
            n == entry_count(rows@, i as int),
            n <= i,
        decreases rows.len() - i,
    {
        if let Row::Entry { .. } = rows[i] {
            n += 1;
        }
        i += 1;
    }
    n
}

/// The source view after switching: all sources, then each source in turn,
/// then all sources again.
pub open spec fn spec_next_source_view(view: Option<usize>, sources: usize) -> Option<usize> {
    match view {
        None => Some(0),
        Some(i) => if i + 1 < sources {
            Some((i + 1) as usize)
        } else {
            None
        },
    }
}

pub fn next_source_view(view: Option<usize>, sources: usize) -> (v: Option<usize>)
    ensures
        v == spec_next_source_view(view, sources),
{
    match view {
        None => Some(0),
        Some(i) => if i < sources && i + 1 < sources {
            Some(i + 1)
        } else {
            None
        },
    }
}

/// The workspace after switching: the next one, wrapping round.
pub fn next_workspace(index: usize, count: usize) -> (n: usize)
    requires
        index < count,
    ensures
        n == (index + 1) % (count as int),
        n < count,
{
    (index + 1) % count
}


/// What the keyboard is driving.
#[derive(Debug, Clone, Copy, PartialEq, Eq, Structural)]
pub enum InputMode {
    Normal,
    Search,
    Add,
    AddAfter,
    Edit,
    Estimate,
    DeleteConfirm,
    CommandPalette,
    Help,
}

impl InputMode {
    /// The dialogs that outside changes must not disturb.
    pub open spec fn spec_is_dialog(self) -> bool {
        match self {
            InputMode::Add | InputMode::AddAfter | InputMode::Edit | InputMode::Estimate
            | InputMode::DeleteConfirm => true,
            _ => false,
        }
    }

    pub fn is_dialog(self) -> (b: bool)
        ensures
            b == self.spec_is_dialog(),
    {
        match self {
            InputMode::Add | InputMode::AddAfter | InputMode::Edit | InputMode::Estimate
            | InputMode::DeleteConfirm => true,
            _ => false,
        }
    }

    /// The title, placeholder and action word of a text dialog.
    pub open spec fn spec_dialog_texts(self) -> Option<(Seq<char>, Seq<char>, Seq<char>)> {
        match self {
            InputMode::Add => Some((" Add a Markdown task "@, "What needs to be done?"@, "add"@)),
            InputMode::AddAfter => Some((" Add after selected task "@, "New sibling task"@, "insert"@)),
            InputMode::Edit => Some((" Edit task "@, "Task text"@, "save"@)),
            InputMode::Estimate => Some((" Estimate task "@, "Pomodoros; empty or 0 clears"@, "save"@)),
            _ => None,
        }
    }

    pub fn dialog_texts(self) -> (r: Option<(&'static str, &'static str, &'static str)>)
        ensures
            match r {
                Some((a, b, c)) => self.spec_dialog_texts() == Some((a@, b@, c@)),
                None => self.spec_dialog_texts() is None,
            },
    {
        match self {
            InputMode::Add => Some((" Add a Markdown task ", "What needs to be done?", "add")),
            InputMode::AddAfter => Some((" Add after selected task ", "New sibling task", "insert")),
            InputMode::Edit => Some((" Edit task ", "Task text", "save")),
            InputMode::Estimate => Some((" Estimate task ", "Pomodoros; empty or 0 clears", "save")),
            _ => None,
        }
    }
}

/// The column of a text cursor: two cells after the field's left edge plus
/// the cursor's offset (as a 16-bit number), saturating, and at most the
/// field's last column.
pub open spec fn spec_cursor_column(x: u16, width: u16, offset: usize) -> int {
    let right: int = if x + width <= u16::MAX { x + width } else { u16::MAX as int };
    let last: int = if right >= 1 { right - 1 } else { 0 };
    let start: int = if x + 2 <= u16::MAX { x + 2 } else { u16::MAX as int };
    let col: int = if start + (offset as u16) <= u16::MAX { start + (offset as u16) } else { u16::MAX as int };
    if col < last { col } else { last }
}

pub fn cursor_column(x: u16, width: u16, offset: usize) -> (c: u16)
    ensures
        c == spec_cursor_column(x, width, offset),
{
    let right = x.saturating_add(width);
    let last = right.saturating_sub(1);
    let col = x.saturating_add(2).saturating_add(offset as u16);
    if col < last { col } else { last }
}

pub open spec fn no_matching_tasks() -> Seq<char> {
    "no matching tasks"@
}

/// The one-line status: the last message, or else the selected task with its
/// line number (and `blocked`), or else that no task matches.
pub open spec fn spec_compact_status(message: Seq<char>, task: Option<Task>) -> Seq<char> {
    if message.len() > 0 {
        message
    } else {
        match task {
            Some(t) => t.text@ + " · line "@ + spec_decimal(t.line_number as nat) + if t.metadata.blocked {
                " · blocked"@
            } else {
                Seq::empty()
            },
            None => no_matching_tasks(),
        }
    }
}

pub fn compact_status(message: &str, task: Option<&Task>) -> (s: String)
    ensures
        s@ == spec_compact_status(message@, match task { Some(t) => Some(*t), None => None }),
{
    let m = chars_of(message);
    if m.len() > 0 {
        return string_of(&m);
    }
    match task {
        Some(t) => {
            let mut v = chars_of(t.text.as_str());
            let sep = chars_of(" · line ");
            append_chars(&mut v, &sep);
            append_chars(&mut v, &decimal(t.line_number as u64));
            if t.metadata.blocked {
                append_chars(&mut v, &chars_of(" · blocked"));
            } else {
                proof {
                    assert(v@ + Seq::<char>::empty() =~= v@);
                }
            }
            string_of(&v)
        },
        None => {
            let s = "no matching tasks";
            string_of(&chars_of(s))
        },
    }
}

/// The first task at or after `j` whose key is `key`.
pub open spec fn key_position(tasks: Seq<Task>, key: Seq<char>, j: int) -> Option<int>
    decreases tasks.len() - j,
{
    if j < 0 || j >= tasks.len() {
        None
    } else if tasks[j].spec_key() == key {
        Some(j)
    } else {
        key_position(tasks, key, j + 1)
    }
}

/// The first open task at or after `from` and before `to`.
pub open spec fn open_between(tasks: Seq<Task>, from: int, to: int) -> Option<int>
    decreases to - from,
{
    if from < 0 || from >= to || from >= tasks.len() {
        None
    } else if !tasks[from].checked {
        Some(from)
    } else {
        open_between(tasks, from + 1, to)
    }
}

/// The next open task after the task with key `key`, wrapping round to the
/// tasks before it; none when no task has that key or no other task is open.
pub open spec fn spec_next_open_after(tasks: Seq<Task>, key: Seq<char>) -> Option<int> {
    match key_position(tasks, key, 0) {
        None => None,
        Some(p) => match open_between(tasks, p + 1, tasks.len() as int) {
            Some(j) => Some(j),
            None => open_between(tasks, 0, p),
        },
    }
}

fn first_open(tasks: &Vec<Task>, from: usize, to: usize) -> (r: Option<usize>)
    requires
        from <= to <= tasks@.len(),
    ensures
        match r {
            Some(j) => open_between(tasks@, from as int, to as int) == Some(j as int),
            None => open_between(tasks@, from as int, to as int) is None,
        },
{
    let mut j = from;
    while j < to
        invariant
            from <= j <= to <= tasks@.len(),
            open_between(tasks@, from as int, to as int) == open_between(tasks@, j as int, to as int),
        decreases to - j,
    {
        if !tasks[j].checked {
            return Some(j);
        }
        j += 1;
    }
    None
}

fn find_key(tasks: &Vec<Task>, key: &str) -> (r: Option<usize>)
    ensures
        match r {
            Some(p) => key_position(tasks@, key@, 0) == Some(p as int) && p < tasks@.len(),
            None => key_position(tasks@, key@, 0) is None,
        },
{
    let mut p: usize = 0;
    while p < tasks.len()
        invariant
            p <= tasks@.len(),
            key_position(tasks@, key@, 0) == key_position(tasks@, key@, p as int),
        decreases tasks.len() - p,
    {
        let k = tasks[p].key();
        if same_text(k.as_str(), key) {
            return Some(p);
        }
        p += 1;
    }
    None
}

pub fn next_open_after(tasks: &Vec<Task>, key: &str) -> (r: Option<usize>)
    ensures
        match r {
            Some(j) => spec_next_open_after(tasks@, key@) == Some(j as int),
            None => spec_next_open_after(tasks@, key@) is None,
        },
{
    let n = tasks.len();
    match find_key(tasks, key) {
        None => None,
        Some(p) => match first_open(tasks, p + 1, n) {
            Some(j) => Some(j),
            None => first_open(tasks, 0, p),
        },
    }
}


/// What follows toggling a task's checkbox.
#[derive(Debug, Clone, Copy, PartialEq, Eq, Structural)]
pub enum CompletionFollowUp {
    /// The task was reopened: nothing to undo any more.
    Reopened,
    /// The task was completed with the timer idle.
    CompletedIdle,
    /// The task was completed while a timer runs: the Pomodoro goes on, and
    /// the next open task (by its position in the list of tasks) is queued.
    QueueNext(usize),
    /// The task was completed while a timer runs and no open task is left:
    /// the queue is cleared.
    ClearQueue,
}

pub open spec fn spec_completion_follow_up(checked: bool, phase: TimerPhase, tasks: Seq<Task>, key: Seq<char>) -> CompletionFollowUp {
    if !checked {
        CompletionFollowUp::Reopened
    } else if phase == TimerPhase::Idle {
        CompletionFollowUp::CompletedIdle
    } else {
        match spec_next_open_after(tasks, key) {
            Some(j) => CompletionFollowUp::QueueNext(j as usize),
            None => CompletionFollowUp::ClearQueue,
        }
    }
}

/// Decides what follows toggling the task whose key is `key`, now `checked`,
/// when the timer was in `phase`; `tasks` are the tasks read back afterwards.
pub fn completion_follow_up(checked: bool, phase: TimerPhase, tasks: &Vec<Task>, key: &str) -> (r: CompletionFollowUp)
    ensures
        r == spec_completion_follow_up(checked, phase, tasks@, key@),
{
    if !checked {
        return CompletionFollowUp::Reopened;
    }
    if phase == TimerPhase::Idle {
        return CompletionFollowUp::CompletedIdle;
    }
    match next_open_after(tasks, key) {
        Some(j) => CompletionFollowUp::QueueNext(j),
        None => CompletionFollowUp::ClearQueue,
    }
}

/// The hints of the lines, one line after another.
pub open spec fn flatten(lines: Seq<Seq<CommandId>>) -> Seq<CommandId>
    decreases lines.len(),
{
    if lines.len() == 0 {
        Seq::empty()
    } else {
        flatten(lines.drop_last()) + lines.last()
    }
}

/// The width of a line of hints: their widths and a ` · ` between two.
pub open spec fn line_width(line: Seq<CommandId>) -> int
    decreases line.len(),
{
    if line.len() == 0 {
        0
    } else if line.len() == 1 {
        hint_width(line[0])
    } else {
        line_width(line.drop_last()) + 3 + hint_width(line.last())
    }
}

/// A well-made footer: every line holds a hint, and a line of several hints
/// fits the width.
pub open spec fn lines_fit_width(lines: Seq<Seq<CommandId>>, max_width: int) -> bool {
    forall|i: int|
        0 <= i < lines.len() ==> (#[trigger] lines[i]).len() >= 1 && (lines[i].len() >= 2 ==> line_width(lines[i])
            <= max_width)
}

pub open spec fn is_prefix_of(a: Seq<CommandId>, b: Seq<CommandId>) -> bool {
    a.len() <= b.len() && a == b.take(a.len() as int)
}

proof fn lemma_flatten_push(lines: Seq<Seq<CommandId>>, line: Seq<CommandId>)
    ensures
        flatten(lines.push(line)) == flatten(lines) + line,
{
    assert(lines.push(line).drop_last() =~= lines);
}

proof fn lemma_footer_fold(cands: Seq<CommandId>, max_width: int, max_lines: int, n: int)
    requires
        0 <= n <= cands.len(),
    ensures
        is_prefix_of(flatten(footer_fold(cands, max_width, max_lines, n).0) + footer_fold(cands, max_width, max_lines, n).1, cands.take(n)),
        !footer_fold(cands, max_width, max_lines, n).3 ==> flatten(footer_fold(cands, max_width, max_lines, n).0) + footer_fold(cands, max_width, max_lines, n).1 == cands.take(n),
        footer_fold(cands, max_width, max_lines, n).3 ==> footer_fold(cands, max_width, max_lines, n).1.len() == 0,
        footer_fold(cands, max_width, max_lines, n).2 == line_width(footer_fold(cands, max_width, max_lines, n).1),
        lines_fit_width(footer_fold(cands, max_width, max_lines, n).0, max_width),
        footer_fold(cands, max_width, max_lines, n).1.len() >= 2 ==> line_width(footer_fold(cands, max_width, max_lines, n).1) <= max_width,
        footer_fold(cands, max_width, max_lines, n).0.len() <= (if max_lines >= 1 { max_lines } else { 1 }),
        !footer_fold(cands, max_width, max_lines, n).3 ==> (footer_fold(cands, max_width, max_lines, n).0.len() == 0 || footer_fold(cands, max_width, max_lines, n).0.len() < max_lines),
    decreases n,
{
    if n > 0 {
        lemma_footer_fold(cands, max_width, max_lines, n - 1);
        let (lines, cur, width, done) = footer_fold(cands, max_width, max_lines, n - 1);
        let c = cands[n - 1];
        let prefix = cands.take(n - 1);
        assert(cands.take(n) =~= prefix.push(c));
        if done {
            let s = flatten(lines) + cur;
            assert(s.len() <= prefix.len());
            assert(prefix.take(s.len() as int) =~= cands.take(n).take(s.len() as int));
        } else if cur.len() > 0 && width + 3 + hint_width(c) > max_width {
            let lines2 = lines.push(cur);
            lemma_flatten_push(lines, cur);
            assert forall|i: int| 0 <= i < lines2.len() implies (#[trigger] lines2[i]).len() >= 1 && (
                lines2[i].len() >= 2 ==> line_width(lines2[i]) <= max_width) by {
                if i < lines.len() {
                    assert(lines2[i] == lines[i]);
                }
            }
            if lines2.len() >= max_lines {
                assert(flatten(lines2) + Seq::<CommandId>::empty() =~= flatten(lines2));
                assert(cands.take(n).take(prefix.len() as int) =~= prefix);
            } else {
                assert(flatten(lines2) + seq![c] =~= (flatten(lines) + cur).push(c));
                assert(line_width(seq![c]) == hint_width(c));
            }
        } else if cur.len() > 0 {
            let cur2 = cur.push(c);
            assert(cur2.drop_last() =~= cur);
            assert(flatten(lines) + cur2 =~= (flatten(lines) + cur).push(c));
        } else {
            assert(flatten(lines) + seq![c] =~= (flatten(lines) + cur).push(c));
            assert(line_width(seq![c]) == hint_width(c));
        }
        let r = footer_fold(cands, max_width, max_lines, n);
        if !r.3 {
            assert(cands.take(n).take(n) =~= cands.take(n));
        }
    } else {
        assert(flatten(Seq::<Seq<CommandId>>::empty()) + Seq::<CommandId>::empty() =~= cands.take(0));
        assert(cands.take(0).take(0) =~= cands.take(0));
    }
}

/// The footer shows hints in footer order without skipping one (only the
/// hints that no longer fit are left out), every line holds a hint, a line of
/// several hints fits the width, and there are at most `max_lines` lines (one
/// when no line is allowed, so that a hint still shows).
pub proof fn law_footer_keeps_order_and_fits(f: AvailabilityFacts, phase: Option<TimerPhase>, max_width: int, max_lines: int)
    ensures
        ({
            let lines = spec_footer_lines(f, phase, max_width, max_lines);
            &&& is_prefix_of(flatten(lines), footer_candidates(f, phase, spec_footer_order().len() as int))
            &&& lines_fit_width(lines, max_width)
            &&& lines.len() <= (if max_lines >= 1 { max_lines } else { 1 })
        }),
{
    let cands = footer_candidates(f, phase, spec_footer_order().len() as int);
    lemma_footer_fold(cands, max_width, max_lines, cands.len() as int);
    let (lines, cur, width, done) = footer_fold(cands, max_width, max_lines, cands.len() as int);
    assert(cands.take(cands.len() as int) =~= cands);
    if cur.len() > 0 && lines.len() < max_lines {
        let result = lines.push(cur);
        lemma_flatten_push(lines, cur);
        assert forall|i: int| 0 <= i < result.len() implies (#[trigger] result[i]).len() >= 1 && (
            result[i].len() >= 2 ==> line_width(result[i]) <= max_width) by {
            if i < lines.len() {
                assert(result[i] == lines[i]);
            }
        }
    } else {
        let fl = flatten(lines);
        let s = fl + cur;
        assert(s == cands.take(s.len() as int));
        assert(s.take(fl.len() as int) =~= fl);
        assert(cands.take(fl.len() as int) =~= cands.take(s.len() as int).take(fl.len() as int));
    }
}

} // verus!
