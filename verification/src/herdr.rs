//! What Focus Pane asks the Herdr terminal multiplexer to do: notifications
//! when a phase completes, and the timer text beside the originating pane.
//! The caller runs the commands.
use vstd::prelude::*;
use crate::edits::append_chars;
use crate::models::TimerPhase;
use crate::numbers::{decimal, spec_decimal};
use crate::text::{chars_of, string_of};

verus! {

/// The Herdr command line tool and whether Focus Pane runs inside Herdr.
#[derive(Debug, Clone)]
pub struct HerdrBridge {
    pub binary: String,
    pub available: bool,
}

pub open spec fn views(v: Seq<String>) -> Seq<Seq<char>> {
    v.map_values(|s: String| s@)
}

pub fn text(s: &str) -> (r: String)
    ensures
        r@ == s@,
{
    s.to_owned()
}

fn concat3(a: &str, b: &str, c: &str) -> (r: String)
    ensures
        r@ == a@ + b@ + c@,
{
    let mut v = chars_of(a);
    append_chars(&mut v, &chars_of(b));
    append_chars(&mut v, &chars_of(c));
    string_of(&v)
}

/// The arguments of `herdr notification show`.
pub open spec fn notification_args(title: Seq<char>, body: Seq<char>, sound: Seq<char>) -> Seq<Seq<char>> {
    seq!["notification"@, "show"@, title, "--body"@, body, "--position"@, "top-right"@, "--sound"@, sound]
}

/// The message when a focus completes: a break has begun, or is ready to be
/// started by hand.
pub open spec fn focus_complete_body(break_started: bool) -> Seq<char> {
    if break_started {
        "Focus complete. Drink some water, look away from the screen, and take a break."@
    } else {
        "Focus complete. Your break is ready; open Focus Pane and press p to begin."@
    }
}

/// The message when a break completes, naming the next task when there is one.
pub open spec fn break_complete_body(task_text: Option<Seq<char>>, focus_started: bool) -> Seq<char> {
    match task_text {
        Some(t) => if focus_started {
            "Break complete. Return to \""@ + t + "\" with one small step."@
        } else {
            "Break complete. \""@ + t + "\" is ready; open Focus Pane and press p to begin."@
        },
        None => if focus_started {
            "Break complete. Choose a task and start the next focus session."@
        } else {
            "Break complete. Your next focus is ready; open Focus Pane and press p to begin."@
        },
    }
}

pub open spec fn opt_str_view(o: Option<&str>) -> Option<Seq<char>> {
    match o {
        Some(s) => Some(s@),
        None => None,
    }
}

/// Two decimal digits at least (`{:02}`).
pub open spec fn two_digits(n: nat) -> Seq<char> {
    if n < 10 {
        seq!['0'] + spec_decimal(n)
    } else {
        spec_decimal(n)
    }
}

pub fn pad2(n: u64) -> (r: Vec<char>)
    ensures
        r@ == two_digits(n as nat),
{
    let d = decimal(n);
    if n < 10 {
        let mut r = vec!['0'];
        append_chars(&mut r, &d);
        r
    } else {
        d
    }
}

/// `MM:SS` for a number of seconds (minutes may take more digits).
pub open spec fn spec_countdown(seconds: u64) -> Seq<char> {
    two_digits((seconds / 60) as nat) + seq![':'] + two_digits((seconds % 60) as nat)
}

pub fn format_countdown(seconds: u64) -> (r: String)
    ensures
        r@ == spec_countdown(seconds),
{
    let mut v = pad2(seconds / 60);
    v.push(':');
    append_chars(&mut v, &pad2(seconds % 60));
    string_of(&v)
}

/// The sidebar text of a timer with `remaining` seconds left, or `None` for an
/// idle timer (whose sidebar text is cleared). An empty preset name reads
/// `legacy`.
pub open spec fn spec_sidebar_text(phase: TimerPhase, remaining: u64, preset_name: Seq<char>, task_text: Option<Seq<char>>) -> Option<Seq<char>> {
    let preset = if preset_name.len() == 0 { "legacy"@ } else { preset_name };
    let clock = spec_countdown(remaining);
    match phase {
        TimerPhase::Focus | TimerPhase::PausedFocus => Some(
            (if phase == TimerPhase::PausedFocus { "Ⅱ"@ } else { "●"@ }) + " focus "@ + clock + " ["@ + preset + "] · "@
                + match task_text { Some(t) => t, None => Seq::empty() },
        ),
        TimerPhase::Break | TimerPhase::PausedBreak => Some(
            (if phase == TimerPhase::PausedBreak { "Ⅱ"@ } else { "◇"@ }) + " break "@ + clock,
        ),
        TimerPhase::ReadyForBreak => Some("◇ break ready "@ + clock),
        TimerPhase::ReadyForFocus => Some("✓ focus ready "@ + clock),
        TimerPhase::Idle => None,
    }
}

pub fn sidebar_text(phase: TimerPhase, remaining: u64, preset_name: &str, task_text: Option<&str>) -> (r: Option<String>)
    ensures
        match r {
            Some(s) => spec_sidebar_text(phase, remaining, preset_name@, opt_str_view(task_text)) == Some(s@),
            None => spec_sidebar_text(phase, remaining, preset_name@, opt_str_view(task_text)) is None,
        },
{
    let clock = chars_of(format_countdown(remaining).as_str());
    let given = chars_of(preset_name);
    let preset = if given.len() == 0 {
        chars_of("legacy")
    } else {
        given
    };
    let mut v: Vec<char>;
    match phase {
        TimerPhase::Focus | TimerPhase::PausedFocus => {
            v = if phase == TimerPhase::PausedFocus {
                chars_of("Ⅱ")
            } else {
                chars_of("●")
            };
            append_chars(&mut v, &chars_of(" focus "));
            append_chars(&mut v, &clock);
            append_chars(&mut v, &chars_of(" ["));
            append_chars(&mut v, &preset);
            append_chars(&mut v, &chars_of("] · "));
            match task_text {
                Some(t) => append_chars(&mut v, &chars_of(t)),
                None => {},
            }
        },
        TimerPhase::Break | TimerPhase::PausedBreak => {
            v = if phase == TimerPhase::PausedBreak {
                chars_of("Ⅱ")
            } else {
                chars_of("◇")
            };
            append_chars(&mut v, &chars_of(" break "));
            append_chars(&mut v, &clock);
        },
        TimerPhase::ReadyForBreak => {
            v = chars_of("◇ break ready ");
            append_chars(&mut v, &clock);
        },
        TimerPhase::ReadyForFocus => {
            v = chars_of("✓ focus ready ");
            append_chars(&mut v, &clock);
        },
        TimerPhase::Idle => {
            return None;
        },
    }
    Some(string_of(&v))
}

impl HerdrBridge {
    /// The command to run for a notification, when Herdr is available.
    fn notify(&self, title: &str, body: &str, sound: &str) -> (r: Option<Vec<String>>)
        ensures
            match r {
                Some(a) => self.available && views(a@) == notification_args(title@, body@, sound@),
                None => !self.available,
            },
    {
        if !self.available {
            return None;
        }
        let mut a: Vec<String> = Vec::new();
        a.push(text("notification"));
        a.push(text("show"));
        a.push(text(title));
        a.push(text("--body"));
        a.push(text(body));
        a.push(text("--position"));
        a.push(text("top-right"));
        a.push(text("--sound"));
        a.push(text(sound));
        assert(views(a@) =~= notification_args(title@, body@, sound@));
        Some(a)
    }

    /// The notification that a focus completed, with the `done` sound.
    pub fn notify_focus_complete(&self, task_text: Option<&str>, break_started: bool) -> (r: Option<Vec<String>>)
        ensures
            match r {
                Some(a) => self.available && views(a@) == notification_args("Focus complete"@, focus_complete_body(break_started), "done"@),
                None => !self.available,
            },
    {
        let body = if break_started {
            "Focus complete. Drink some water, look away from the screen, and take a break."
        } else {
            "Focus complete. Your break is ready; open Focus Pane and press p to begin."
        };
        self.notify("Focus complete", body, "done")
    }

    /// The notification that a break completed, with the `request` sound.
    pub fn notify_break_complete(&self, task_text: Option<&str>, focus_started: bool) -> (r: Option<Vec<String>>)
        ensures
            match r {
                Some(a) => self.available && views(a@) == notification_args("Break complete"@, break_complete_body(opt_str_view(task_text), focus_started), "request"@),
                None => !self.available,
            },
    {
        let body = match task_text {
            Some(t) => if focus_started {
                concat3("Break complete. Return to \"", t, "\" with one small step.")
            } else {
                concat3("Break complete. \"", t, "\" is ready; open Focus Pane and press p to begin.")
            },
            None => if focus_started {
                text("Break complete. Choose a task and start the next focus session.")
            } else {
                text("Break complete. Your next focus is ready; open Focus Pane and press p to begin.")
            },
        };
        self.notify("Break complete", body.as_str(), "request")
    }

    /// The command that sets the sidebar text of a pane.
    pub fn sidebar_command(&self, pane_id: &str, sidebar: &str) -> (r: Option<Vec<String>>)
        ensures
            match r {
                Some(a) => self.available && views(a@) == seq!["pane"@, "report-metadata"@, pane_id@, "--source"@, "focus-pane"@, "--token"@, "focus="@ + sidebar@, "--ttl-ms"@, "90000"@],
                None => !self.available,
            },
    {
        if !self.available {
            return None;
        }
        let mut a: Vec<String> = Vec::new();
        a.push(text("pane"));
        a.push(text("report-metadata"));
        a.push(text(pane_id));
        a.push(text("--source"));
        a.push(text("focus-pane"));
        a.push(text("--token"));
        a.push(concat3("focus=", sidebar, ""));
        a.push(text("--ttl-ms"));
        a.push(text("90000"));
        proof {
            reveal_strlit("");
        }
        assert(views(a@) =~= seq!["pane"@, "report-metadata"@, pane_id@, "--source"@, "focus-pane"@, "--token"@, "focus="@ + sidebar@, "--ttl-ms"@, "90000"@]);
        Some(a)
    }

    /// The command that clears the sidebar text of a pane, if there is one.
    pub fn clear_sidebar(&self, pane_id: Option<&str>) -> (r: Option<Vec<String>>)
        ensures
            match r {
                Some(a) => self.available && pane_id is Some && views(a@) == seq!["pane"@, "report-metadata"@, pane_id->0@, "--source"@, "focus-pane"@, "--clear-token"@, "focus"@],
                None => !self.available || pane_id is None,
            },
    {
        let pane = match pane_id {
            Some(p) => p,
            None => {
                return None;
            },
        };
        if !self.available {
            return None;
        }
        let mut a: Vec<String> = Vec::new();
        a.push(text("pane"));
        a.push(text("report-metadata"));
        a.push(text(pane));
        a.push(text("--source"));
        a.push(text("focus-pane"));
        a.push(text("--clear-token"));
        a.push(text("focus"));
        assert(views(a@) =~= seq!["pane"@, "report-metadata"@, pane@, "--source"@, "focus-pane"@, "--clear-token"@, "focus"@]);
        Some(a)
    }
}

} // verus!
