use vstd::prelude::*;

verus! {

/// Priority that a task may carry in its Focus metadata.
#[derive(Debug, Clone, Copy, PartialEq, Eq, Structural)]
pub enum TaskPriority {
    High,
    Medium,
    Low,
}

/// ASCII lower-casing of one character; other characters are kept.
pub open spec fn ascii_lower(c: char) -> char {
    if 'A' <= c && c <= 'Z' {
        ((c as u32) + 32) as char
    } else {
        c
    }
}

pub open spec fn ascii_lower_seq(s: Seq<char>) -> Seq<char> {
    s.map_values(|c: char| ascii_lower(c))
}

pub open spec fn word_high() -> Seq<char> { seq!['h', 'i', 'g', 'h'] }
pub open spec fn word_medium() -> Seq<char> { seq!['m', 'e', 'd', 'i', 'u', 'm'] }
pub open spec fn word_low() -> Seq<char> { seq!['l', 'o', 'w'] }

impl TaskPriority {
    pub open spec fn spec_name(self) -> Seq<char> {
        match self {
            TaskPriority::High => word_high(),
            TaskPriority::Medium => word_medium(),
            TaskPriority::Low => word_low(),
        }
    }

    /// The priority named by `value`, compared without regard to ASCII case.
    pub open spec fn spec_parse(value: Seq<char>) -> Option<TaskPriority> {
        let lower = ascii_lower_seq(value);
        if lower == word_high() {
            Some(TaskPriority::High)
        } else if lower == word_medium() {
            Some(TaskPriority::Medium)
        } else if lower == word_low() {
            Some(TaskPriority::Low)
        } else {
            None
        }
    }

    /// The priority named by `value`, in any ASCII case.
    pub fn parse(value: &str) -> (p: Option<TaskPriority>)
        ensures
            p == TaskPriority::spec_parse(value@),
    {
        crate::body::priority_of(&crate::text::chars_of(value))
    }

    pub fn as_str(self) -> (name: &'static str)
        ensures
            name@ == self.spec_name(),
    {
        match self {
            TaskPriority::High => {
                proof {
                    reveal_strlit("high");
                }
                "high"
            },
            TaskPriority::Medium => {
                proof {
                    reveal_strlit("medium");
                }
                "medium"
            },
            TaskPriority::Low => {
                proof {
                    reveal_strlit("low");
                }
                "low"
            },
        }
    }
}

} // verus!

verus! {

/// A calendar date from a task's `due=` metadata.
#[derive(Debug, Clone, Copy, PartialEq, Eq, Structural)]
pub struct DueDate {
    pub year: i32,
    pub month: u32,
    pub day: u32,
}

/// What a task's Focus metadata and hashtags say of it.
#[derive(Debug, Clone, Default, PartialEq, Eq)]
pub struct TaskMetadata {
    pub tags: Vec<String>,
    pub priority: Option<TaskPriority>,
    pub due_date: Option<DueDate>,
    pub estimate_pomodoros: Option<u32>,
    pub blocked: bool,
}

/// One Markdown task line of a source file.
#[derive(Debug, Clone, PartialEq, Eq)]
pub struct Task {
    pub source_path: String,
    pub line_number: usize,
    pub text: String,
    pub checked: bool,
    pub heading: Option<String>,
    pub task_id: Option<String>,
    pub indent: usize,
    pub metadata: TaskMetadata,
}

pub open spec fn strings_view(v: Seq<String>) -> Seq<Seq<char>> {
    v.map_values(|s: String| s@)
}

pub open spec fn opt_view(o: Option<String>) -> Option<Seq<char>> {
    match o {
        Some(s) => Some(s@),
        None => None,
    }
}

} // verus!

verus! {

/// The phases of the Pomodoro timer.
#[derive(Debug, Clone, Copy, PartialEq, Eq, Structural)]
pub enum TimerPhase {
    Idle,
    Focus,
    PausedFocus,
    Break,
    PausedBreak,
    ReadyForBreak,
    ReadyForFocus,
}

pub open spec fn phase_word(p: TimerPhase) -> Seq<char> {
    match p {
        TimerPhase::Idle => seq!['i', 'd', 'l', 'e'],
        TimerPhase::Focus => seq!['f', 'o', 'c', 'u', 's'],
        TimerPhase::PausedFocus => seq!['p', 'a', 'u', 's', 'e', 'd', '_', 'f', 'o', 'c', 'u', 's'],
        TimerPhase::Break => seq!['b', 'r', 'e', 'a', 'k'],
        TimerPhase::PausedBreak => seq!['p', 'a', 'u', 's', 'e', 'd', '_', 'b', 'r', 'e', 'a', 'k'],
        TimerPhase::ReadyForBreak => seq!['r', 'e', 'a', 'd', 'y', '_', 'f', 'o', 'r', '_', 'b', 'r', 'e', 'a', 'k'],
        TimerPhase::ReadyForFocus => seq!['r', 'e', 'a', 'd', 'y', '_', 'f', 'o', 'r', '_', 'f', 'o', 'c', 'u', 's'],
    }
}

impl TimerPhase {
    /// The name stored for the phase.
    pub open spec fn spec_name(self) -> Seq<char> {
        phase_word(self)
    }

    /// The phase stored under `value`; the legacy name `ready` reads as
    /// `ready_for_focus`.
    pub open spec fn spec_parse(value: Seq<char>) -> Option<TimerPhase> {
        if value == seq!['r', 'e', 'a', 'd', 'y'] {
            Some(TimerPhase::ReadyForFocus)
        } else if value == phase_word(TimerPhase::Idle) {
            Some(TimerPhase::Idle)
        } else if value == phase_word(TimerPhase::Focus) {
            Some(TimerPhase::Focus)
        } else if value == phase_word(TimerPhase::PausedFocus) {
            Some(TimerPhase::PausedFocus)
        } else if value == phase_word(TimerPhase::Break) {
            Some(TimerPhase::Break)
        } else if value == phase_word(TimerPhase::PausedBreak) {
            Some(TimerPhase::PausedBreak)
        } else if value == phase_word(TimerPhase::ReadyForBreak) {
            Some(TimerPhase::ReadyForBreak)
        } else if value == phase_word(TimerPhase::ReadyForFocus) {
            Some(TimerPhase::ReadyForFocus)
        } else {
            None
        }
    }

    pub open spec fn spec_is_running(self) -> bool {
        self == TimerPhase::Focus || self == TimerPhase::Break
    }

    pub open spec fn spec_is_paused(self) -> bool {
        self == TimerPhase::PausedFocus || self == TimerPhase::PausedBreak
    }

    pub fn as_str(self) -> (name: &'static str)
        ensures
            name@ == self.spec_name(),
    {
        match self {
            TimerPhase::Idle => {
                proof {
                    reveal_strlit("idle");
                }
                "idle"
            },
            TimerPhase::Focus => {
                proof {
                    reveal_strlit("focus");
                }
                "focus"
            },
            TimerPhase::PausedFocus => {
                proof {
                    reveal_strlit("paused_focus");
                }
                "paused_focus"
            },
            TimerPhase::Break => {
                proof {
                    reveal_strlit("break");
                }
                "break"
            },
            TimerPhase::PausedBreak => {
                proof {
                    reveal_strlit("paused_break");
                }
                "paused_break"
            },
            TimerPhase::ReadyForBreak => {
                proof {
                    reveal_strlit("ready_for_break");
                }
                "ready_for_break"
            },
            TimerPhase::ReadyForFocus => {
                proof {
                    reveal_strlit("ready_for_focus");
                }
                "ready_for_focus"
            },
        }
    }

    pub fn parse(value: &str) -> (p: Option<TimerPhase>)
        ensures
            p == TimerPhase::spec_parse(value@),
    {
        let v = crate::text::chars_of(value);
        if crate::body::is_word(&v, &vec!['r', 'e', 'a', 'd', 'y']) {
            return Some(TimerPhase::ReadyForFocus);
        }
        let phases = [
            TimerPhase::Idle,
            TimerPhase::Focus,
            TimerPhase::PausedFocus,
            TimerPhase::Break,
            TimerPhase::PausedBreak,
            TimerPhase::ReadyForBreak,
            TimerPhase::ReadyForFocus,
        ];
        if crate::body::is_word(&v, &crate::text::chars_of(phases[0].as_str())) {
            return Some(TimerPhase::Idle);
        }
        if crate::body::is_word(&v, &crate::text::chars_of(phases[1].as_str())) {
            return Some(TimerPhase::Focus);
        }
        if crate::body::is_word(&v, &crate::text::chars_of(phases[2].as_str())) {
            return Some(TimerPhase::PausedFocus);
        }
        if crate::body::is_word(&v, &crate::text::chars_of(phases[3].as_str())) {
            return Some(TimerPhase::Break);
        }
        if crate::body::is_word(&v, &crate::text::chars_of(phases[4].as_str())) {
            return Some(TimerPhase::PausedBreak);
        }
        if crate::body::is_word(&v, &crate::text::chars_of(phases[5].as_str())) {
            return Some(TimerPhase::ReadyForBreak);
        }
        if crate::body::is_word(&v, &crate::text::chars_of(phases[6].as_str())) {
            return Some(TimerPhase::ReadyForFocus);
        }
        None
    }

    /// A countdown is running.
    pub fn is_running(self) -> (b: bool)
        ensures
            b == self.spec_is_running(),
    {
        match self {
            TimerPhase::Focus | TimerPhase::Break => true,
            _ => false,
        }
    }

    /// A countdown was paused by hand.
    pub fn is_paused(self) -> (b: bool)
        ensures
            b == self.spec_is_paused(),
    {
        match self {
            TimerPhase::PausedFocus | TimerPhase::PausedBreak => true,
            _ => false,
        }
    }
}

/// Focus time recorded for a task, split by how each session ended.
#[derive(Debug, Clone, Copy, Default, PartialEq, Eq)]
pub struct TaskFocusSummary {
    pub total_seconds: u64,
    pub completed_seconds: u64,
    pub stopped_seconds: u64,
    pub completed_sessions: u32,
    pub stopped_sessions: u32,
}

} // verus!

verus! {

impl Task {
    /// The identity of a task in the interface: its source and stable id, or
    /// its source, line number and text when it has no id.
    pub open spec fn spec_key(self) -> Seq<char> {
        match self.task_id {
            Some(id) => self.source_path@ + seq!['\u{1f}'] + id@,
            None => self.source_path@ + seq![':'] + crate::numbers::spec_decimal(self.line_number as nat)
                + seq![':'] + self.text@,
        }
    }

    pub fn key(&self) -> (k: String)
        ensures
            k@ == self.spec_key(),
    {
        let mut v = crate::text::chars_of(self.source_path.as_str());
        match &self.task_id {
            Some(id) => {
                v.push('\u{1f}');
                crate::edits::append_chars(&mut v, &crate::text::chars_of(id.as_str()));
            },
            None => {
                v.push(':');
                crate::edits::append_chars(&mut v, &crate::numbers::decimal(self.line_number as u64));
                v.push(':');
                crate::edits::append_chars(&mut v, &crate::text::chars_of(self.text.as_str()));
            },
        }
        crate::text::string_of(&v)
    }

    /// The identity under which focus history is kept: the stable id and the
    /// source path; tasks without an id have no history.
    pub fn history_key(&self) -> (k: Option<(String, String)>)
        ensures
            match k {
                Some((id, path)) => self.task_id is Some && id@ == self.task_id->0@ && path@ == self.source_path@,
                None => self.task_id is None,
            },
    {
        match &self.task_id {
            Some(id) => Some((id.clone(), self.source_path.clone())),
            None => None,
        }
    }
}

} // verus!
