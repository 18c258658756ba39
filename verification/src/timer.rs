//! The decisions of the Pomodoro timer: which phase comes next, which
//! countdown it gets, and when focus time is recorded. Clock readings and the
//! stored state are the caller's; these functions decide on plain values.
use vstd::prelude::*;
use crate::models::TimerPhase;

verus! {

/// Durations and rules of the configuration, in whole seconds.
#[derive(Debug, Clone, Copy, PartialEq, Eq)]
pub struct TimerSettings {
    pub focus_seconds: u64,
    pub break_seconds: u64,
    pub long_break_seconds: u64,
    pub cycles_before_long_break: u32,
    pub auto_start_break: bool,
    pub auto_start_focus: bool,
}

/// The durations a cycle was started with; zero means "not recorded", and the
/// configuration's value applies.
#[derive(Debug, Clone, Copy, PartialEq, Eq)]
pub struct PresetSnapshot {
    pub focus_seconds: u64,
    pub break_seconds: u64,
    pub long_break_seconds: u64,
    pub cycles_before_long_break: u32,
}

pub open spec fn or_default(recorded: u64, configured: u64) -> u64 {
    if recorded > 0 {
        recorded
    } else {
        configured
    }
}

impl PresetSnapshot {
    pub open spec fn spec_focus(self, s: TimerSettings) -> u64 {
        or_default(self.focus_seconds, s.focus_seconds)
    }

    pub open spec fn spec_break(self, s: TimerSettings) -> u64 {
        or_default(self.break_seconds, s.break_seconds)
    }

    pub open spec fn spec_long_break(self, s: TimerSettings) -> u64 {
        or_default(self.long_break_seconds, s.long_break_seconds)
    }

    pub open spec fn spec_cycles(self, s: TimerSettings) -> u32 {
        if self.cycles_before_long_break > 0 {
            self.cycles_before_long_break
        } else {
            s.cycles_before_long_break
        }
    }

    /// The focus duration: the recorded one, or the configured one.
    pub fn focus(&self, s: &TimerSettings) -> (r: u64)
        ensures
            r == self.spec_focus(*s),
    {
        if self.focus_seconds > 0 {
            self.focus_seconds
        } else {
            s.focus_seconds
        }
    }

    pub fn short_break(&self, s: &TimerSettings) -> (r: u64)
        ensures
            r == self.spec_break(*s),
    {
        if self.break_seconds > 0 {
            self.break_seconds
        } else {
            s.break_seconds
        }
    }

    pub fn long_break(&self, s: &TimerSettings) -> (r: u64)
        ensures
            r == self.spec_long_break(*s),
    {
        if self.long_break_seconds > 0 {
            self.long_break_seconds
        } else {
            s.long_break_seconds
        }
    }

    pub fn cycles(&self, s: &TimerSettings) -> (r: u32)
        ensures
            r == self.spec_cycles(*s),
    {
        if self.cycles_before_long_break > 0 {
            self.cycles_before_long_break
        } else {
            s.cycles_before_long_break
        }
    }
}

/// A new focus cycle (with or without a task) starts only from idle or from a
/// focus that is ready to start.
pub fn can_start_focus(phase: TimerPhase) -> (b: bool)
    ensures
        b == (phase == TimerPhase::Idle || phase == TimerPhase::ReadyForFocus),
{
    match phase {
        TimerPhase::Idle | TimerPhase::ReadyForFocus => true,
        _ => false,
    }
}

/// The cycle counter of a newly started focus: a cycle started with a named
/// preset other than the recorded one starts counting from zero.
pub fn starting_cycle(current_cycle: u32, current_preset: &str, preset: Option<&str>) -> (c: u32)
    ensures
        c == match preset {
            Some(name) => if name@ != current_preset@ {
                0
            } else {
                current_cycle
            },
            None => current_cycle,
        },
{
    match preset {
        Some(name) => {
            let a = crate::text::chars_of(name);
            let b = crate::text::chars_of(current_preset);
            if crate::body::is_word(&a, &b) {
                current_cycle
            } else {
                0
            }
        },
        None => current_cycle,
    }
}

/// The task shown as "next" can be chosen once a cycle runs.
pub fn can_set_next_task(phase: TimerPhase) -> (b: bool)
    ensures
        b == (phase != TimerPhase::Idle),
{
    match phase {
        TimerPhase::Idle => false,
        _ => true,
    }
}

/// Another task can be queued only during a break or while one is ready.
pub fn can_queue_next_task(phase: TimerPhase) -> (b: bool)
    ensures
        b == (phase == TimerPhase::ReadyForBreak || phase == TimerPhase::Break || phase
            == TimerPhase::PausedBreak),
{
    match phase {
        TimerPhase::ReadyForBreak | TimerPhase::Break | TimerPhase::PausedBreak => true,
        _ => false,
    }
}

/// A preset can be selected only while the timer is idle.
pub fn can_select_preset(phase: TimerPhase) -> (b: bool)
    ensures
        b == (phase == TimerPhase::Idle),
{
    match phase {
        TimerPhase::Idle => true,
        _ => false,
    }
}

/// The focus of a ready cycle runs for the recorded focus duration, or for
/// the one asked for when none was recorded.
pub fn ready_focus_seconds(recorded: u64, requested: u64) -> (r: u64)
    ensures
        r == or_default(recorded, requested),
{
    if recorded > 0 {
        recorded
    } else {
        requested
    }
}

/// What a reset restarts: a focus (running or paused) restarts its focus
/// countdown; a break restarts as a long break when the cycle counter is back
/// at zero, else as a short one; nothing else is reset.
pub open spec fn spec_reset_plan(phase: TimerPhase, cycle: u32, p: PresetSnapshot, s: TimerSettings) -> Option<(TimerPhase, u64)> {
    match phase {
        TimerPhase::Focus | TimerPhase::PausedFocus => Some((TimerPhase::Focus, p.spec_focus(s))),
        TimerPhase::Break | TimerPhase::PausedBreak => Some(
            (TimerPhase::Break, if cycle == 0 {
                p.spec_long_break(s)
            } else {
                p.spec_break(s)
            }),
        ),
        _ => None,
    }
}

pub fn reset_plan(phase: TimerPhase, cycle: u32, p: &PresetSnapshot, s: &TimerSettings) -> (r: Option<(TimerPhase, u64)>)
    ensures
        r == spec_reset_plan(phase, cycle, *p, *s),
{
    match phase {
        TimerPhase::Focus | TimerPhase::PausedFocus => Some((TimerPhase::Focus, p.focus(s))),
        TimerPhase::Break | TimerPhase::PausedBreak => Some(
            (TimerPhase::Break, if cycle == 0 {
                p.long_break(s)
            } else {
                p.short_break(s)
            }),
        ),
        _ => None,
    }
}

/// The phase a running countdown pauses into.
pub open spec fn spec_paused_phase(phase: TimerPhase) -> Option<TimerPhase> {
    match phase {
        TimerPhase::Focus => Some(TimerPhase::PausedFocus),
        TimerPhase::Break => Some(TimerPhase::PausedBreak),
        _ => None,
    }
}

/// The phase a paused countdown resumes into.
pub open spec fn spec_resumed_phase(phase: TimerPhase) -> Option<TimerPhase> {
    match phase {
        TimerPhase::PausedFocus => Some(TimerPhase::Focus),
        TimerPhase::PausedBreak => Some(TimerPhase::Break),
        _ => None,
    }
}

pub fn paused_phase(phase: TimerPhase) -> (r: Option<TimerPhase>)
    ensures
        r == spec_paused_phase(phase),
{
    match phase {
        TimerPhase::Focus => Some(TimerPhase::PausedFocus),
        TimerPhase::Break => Some(TimerPhase::PausedBreak),
        _ => None,
    }
}

pub fn resumed_phase(phase: TimerPhase) -> (r: Option<TimerPhase>)
    ensures
        r == spec_resumed_phase(phase),
{
    match phase {
        TimerPhase::PausedFocus => Some(TimerPhase::Focus),
        TimerPhase::PausedBreak => Some(TimerPhase::Break),
        _ => None,
    }
}

/// Pausing counts the running stretch as focus time only during a focus.
pub fn pause_counts_focus_time(phase: TimerPhase) -> (b: bool)
    ensures
        b == (phase == TimerPhase::Focus),
{
    match phase {
        TimerPhase::Focus => true,
        _ => false,
    }
}

/// Stopping records a partial session only from a focus (running or paused);
/// a running focus adds its current stretch to the time counted so far.
pub fn stop_records_session(phase: TimerPhase) -> (r: (bool, bool))
    ensures
        r.0 == (phase == TimerPhase::Focus || phase == TimerPhase::PausedFocus),
        r.1 == (phase == TimerPhase::Focus),
{
    match phase {
        TimerPhase::Focus => (true, true),
        TimerPhase::PausedFocus => (true, false),
        _ => (false, false),
    }
}

/// A session is saved only when it lasted a whole second or more and a task
/// owns it (id, text and source are all known).
pub fn session_is_recorded(duration_seconds: u64, task_id: &Option<String>, task_text: &Option<String>, source_path: &Option<String>) -> (b: bool)
    ensures
        b == (duration_seconds > 0 && task_id is Some && task_text is Some && source_path is Some),
{
    duration_seconds > 0 && task_id.is_some() && task_text.is_some() && source_path.is_some()
}

/// What follows a completed focus.
#[derive(Debug, Clone, Copy, PartialEq, Eq)]
pub struct FocusCompletion {
    /// The cycle counter after the focus: back to zero after a long break.
    pub next_cycle: u32,
    pub long_break: bool,
    pub break_seconds: u64,
    /// `Break` when breaks start by themselves, else `ReadyForBreak`.
    pub break_phase: TimerPhase,
}

/// After the focus that completes cycle `cycle + 1`: a long break once that
/// number reaches the cycles before a long break, and the counter back at
/// zero; else a short break and the counter at that number.
pub open spec fn spec_focus_completion(cycle: u32, p: PresetSnapshot, s: TimerSettings) -> FocusCompletion {
    let completed = cycle + 1;
    let long_break = completed >= p.spec_cycles(s);
    FocusCompletion {
        next_cycle: if long_break {
            0
        } else {
            completed as u32
        },
        long_break,
        break_seconds: if long_break {
            p.spec_long_break(s)
        } else {
            p.spec_break(s)
        },
        break_phase: if s.auto_start_break {
            TimerPhase::Break
        } else {
            TimerPhase::ReadyForBreak
        },
    }
}

pub fn focus_completion(cycle: u32, p: &PresetSnapshot, s: &TimerSettings) -> (r: FocusCompletion)
    requires
        cycle < u32::MAX,
    ensures
        r == spec_focus_completion(cycle, *p, *s),
{
    let completed = cycle + 1;
    let long_break = completed >= p.cycles(s);
    FocusCompletion {
        next_cycle: if long_break {
            0
        } else {
            completed
        },
        long_break,
        break_seconds: if long_break {
            p.long_break(s)
        } else {
            p.short_break(s)
        },
        break_phase: if s.auto_start_break {
            TimerPhase::Break
        } else {
            TimerPhase::ReadyForBreak
        },
    }
}

/// The completion of a running phase whose deadline has passed: a focus
/// completes into a break; a break completes into a focus that is ready to
/// start, with the focus duration.
#[derive(Debug, Clone, Copy, PartialEq, Eq)]
pub enum Completion {
    FocusCompleted(FocusCompletion),
    BreakCompleted(u64),
}

/// A running phase can complete when it is the timer being waited on and its
/// deadline has passed; which of the two applies follows its phase.
pub fn completion_for(phase: TimerPhase, cycle: u32, p: &PresetSnapshot, s: &TimerSettings) -> (r: Option<Completion>)
    requires
        cycle < u32::MAX,
    ensures
        phase == TimerPhase::Focus ==> r == Some(Completion::FocusCompleted(spec_focus_completion(cycle, *p, *s))),
        phase == TimerPhase::Break ==> r == Some(Completion::BreakCompleted(p.spec_focus(*s))),
        !phase.spec_is_running() ==> r is None,
{
    match phase {
        TimerPhase::Focus => Some(Completion::FocusCompleted(focus_completion(cycle, p, s))),
        TimerPhase::Break => Some(Completion::BreakCompleted(p.focus(s))),
        _ => None,
    }
}

/// Whether the worker starts the next focus itself after a break: only when
/// the configuration says so.
pub fn worker_starts_focus(s: &TimerSettings) -> (b: bool)
    ensures
        b == s.auto_start_focus,
{
    s.auto_start_focus
}

/// A pause followed by a resume brings back the running phase, and a resume
/// only ever follows from a pause.
pub proof fn law_pause_then_resume(phase: TimerPhase)
    ensures
        phase.spec_is_running() ==> (spec_paused_phase(phase) matches Some(q) && spec_resumed_phase(q) == Some(phase)),
        spec_resumed_phase(phase) matches Some(q) ==> spec_paused_phase(q) == Some(phase),
        spec_paused_phase(phase) is Some <==> phase.spec_is_running(),
        spec_resumed_phase(phase) is Some <==> phase.spec_is_paused(),
{
}

/// The cycle counter stays below the cycles before a long break (when that
/// number is at least one), and a long break comes exactly on the cycle that
/// reaches it.
pub proof fn law_cycle_counter_bounded(cycle: u32, p: PresetSnapshot, s: TimerSettings)
    requires
        cycle < u32::MAX,
        p.spec_cycles(s) >= 1,
    ensures
        spec_focus_completion(cycle, p, s).next_cycle < p.spec_cycles(s),
        spec_focus_completion(cycle, p, s).long_break <==> cycle + 1 >= p.spec_cycles(s),
        cycle < p.spec_cycles(s) ==> (spec_focus_completion(cycle, p, s).long_break <==> cycle + 1 == p.spec_cycles(s)),
{
}

/// A reset keeps the kind of countdown (focus or break) and runs it.
pub proof fn law_reset_keeps_phase(phase: TimerPhase, cycle: u32, p: PresetSnapshot, s: TimerSettings)
    ensures
        spec_reset_plan(phase, cycle, p, s) matches Some((q, _)) ==> q.spec_is_running() && (
            (q == TimerPhase::Focus) == (phase == TimerPhase::Focus || phase == TimerPhase::PausedFocus)),
        spec_reset_plan(phase, cycle, p, s) is None <==> !(phase.spec_is_running() || phase.spec_is_paused()),
{
}


/// What the start/pause key does in a phase.
#[derive(Debug, Clone, Copy, PartialEq, Eq, Structural)]
pub enum TimerKeyAction {
    Pause,
    Resume,
    StartBreak,
    StartFocus,
    NothingToDo,
}

/// A running countdown pauses, a paused one resumes, and a ready break or
/// focus starts; an idle timer has nothing to start or pause.
pub open spec fn spec_timer_key_action(phase: TimerPhase) -> TimerKeyAction {
    if phase.spec_is_running() {
        TimerKeyAction::Pause
    } else if phase.spec_is_paused() {
        TimerKeyAction::Resume
    } else if phase == TimerPhase::ReadyForBreak {
        TimerKeyAction::StartBreak
    } else if phase == TimerPhase::ReadyForFocus {
        TimerKeyAction::StartFocus
    } else {
        TimerKeyAction::NothingToDo
    }
}

pub fn timer_key_action(phase: TimerPhase) -> (a: TimerKeyAction)
    ensures
        a == spec_timer_key_action(phase),
{
    if phase.is_running() {
        TimerKeyAction::Pause
    } else if phase.is_paused() {
        TimerKeyAction::Resume
    } else {
        match phase {
            TimerPhase::ReadyForBreak => TimerKeyAction::StartBreak,
            TimerPhase::ReadyForFocus => TimerKeyAction::StartFocus,
            _ => TimerKeyAction::NothingToDo,
        }
    }
}

/// What choosing a task for focus does.
#[derive(Debug, Clone, Copy, PartialEq, Eq, Structural)]
pub enum FocusChoice {
    /// A completed task cannot be focused.
    RefuseCompleted,
    /// An idle timer starts a focus cycle with the task as the next task.
    StartCycle,
    /// A focus that is ready starts now, with the task queued.
    StartReadyFocus,
    /// Otherwise the task is queued for the next focus.
    QueueNext,
}

pub open spec fn spec_focus_choice(phase: TimerPhase, checked: bool) -> FocusChoice {
    if checked {
        FocusChoice::RefuseCompleted
    } else {
        match phase {
            TimerPhase::Idle => FocusChoice::StartCycle,
            TimerPhase::ReadyForFocus => FocusChoice::StartReadyFocus,
            _ => FocusChoice::QueueNext,
        }
    }
}

pub fn focus_choice(phase: TimerPhase, checked: bool) -> (c: FocusChoice)
    ensures
        c == spec_focus_choice(phase, checked),
{
    if checked {
        FocusChoice::RefuseCompleted
    } else {
        match phase {
            TimerPhase::Idle => FocusChoice::StartCycle,
            TimerPhase::ReadyForFocus => FocusChoice::StartReadyFocus,
            _ => FocusChoice::QueueNext,
        }
    }
}

/// Undoing a completion puts the queued task back only while the same timer
/// cycle that was active at the completion is still active.
pub open spec fn spec_undo_restores_queue(completed_in: Option<Seq<char>>, phase: TimerPhase, timer_id: Seq<char>) -> bool {
    match completed_in {
        Some(id) => phase != TimerPhase::Idle && id == timer_id,
        None => false,
    }
}

pub fn undo_restores_queue(completed_in: &Option<String>, phase: TimerPhase, timer_id: &str) -> (b: bool)
    ensures
        b == spec_undo_restores_queue(crate::models::opt_view(*completed_in), phase, timer_id@),
{
    match completed_in {
        Some(id) => match phase {
            TimerPhase::Idle => false,
            _ => crate::search::same_text(id.as_str(), timer_id),
        },
        None => false,
    }
}

/// A reset left the timer in a phase with nothing to restart.
pub fn reset_had_no_cycle(phase: TimerPhase) -> (b: bool)
    ensures
        b == (phase == TimerPhase::Idle || phase == TimerPhase::ReadyForBreak || phase == TimerPhase::ReadyForFocus),
{
    match phase {
        TimerPhase::Idle | TimerPhase::ReadyForBreak | TimerPhase::ReadyForFocus => true,
        _ => false,
    }
}

/// A completed focus leads to a break whose kind and length follow the
/// durations recorded with the cycle, the configured ones standing in only
/// for what was not recorded (zero): a long break once the cycle count
/// reaches the cycles before a long break, and the counter back at zero; a
/// short break otherwise, with the counter one higher.
pub proof fn law_break_follows_the_recorded_preset(cycle: u32, p: PresetSnapshot, s: TimerSettings)
    requires
        cycle < u32::MAX,
    ensures
        ({
            let r = spec_focus_completion(cycle, p, s);
            let cycles = if p.cycles_before_long_break > 0 {
                p.cycles_before_long_break
            } else {
                s.cycles_before_long_break
            };
            &&& r.long_break == (cycle + 1 >= cycles)
            &&& r.long_break ==> r.next_cycle == 0 && r.break_seconds == if p.long_break_seconds > 0 {
                p.long_break_seconds
            } else {
                s.long_break_seconds
            }
            &&& !r.long_break ==> r.next_cycle == cycle + 1 && r.break_seconds == if p.break_seconds > 0 {
                p.break_seconds
            } else {
                s.break_seconds
            }
            &&& r.break_phase == if s.auto_start_break {
                TimerPhase::Break
            } else {
                TimerPhase::ReadyForBreak
            }
        }),
        p.spec_focus(s) == if p.focus_seconds > 0 {
            p.focus_seconds
        } else {
            s.focus_seconds
        },
        p.spec_break(s) == if p.break_seconds > 0 {
            p.break_seconds
        } else {
            s.break_seconds
        },
        p.spec_long_break(s) == if p.long_break_seconds > 0 {
            p.long_break_seconds
        } else {
            s.long_break_seconds
        },
{
}

/// Resetting a break, running or paused, restarts it with the length that
/// the completed focus gave it; resetting a focus restarts it with the
/// recorded focus length, or the configured one when none was recorded.
pub proof fn law_reset_restarts_the_same_countdown(cycle: u32, p: PresetSnapshot, s: TimerSettings, paused: bool)
    requires
        cycle < u32::MAX,
    ensures
        ({
            let done = spec_focus_completion(cycle, p, s);
            let phase = if paused {
                TimerPhase::PausedBreak
            } else {
                TimerPhase::Break
            };
            spec_reset_plan(phase, done.next_cycle, p, s) == Some((TimerPhase::Break, done.break_seconds))
        }),
        spec_reset_plan(
            if paused {
                TimerPhase::PausedFocus
            } else {
                TimerPhase::Focus
            },
            cycle,
            p,
            s,
        ) == Some(
            (
                TimerPhase::Focus,
                if p.focus_seconds > 0 {
                    p.focus_seconds
                } else {
                    s.focus_seconds
                },
            ),
        ),
{
}

} // verus!
