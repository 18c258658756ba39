//! The focus history store as the library sees it: where its database lives,
//! and the totals it reports per task. Reading and writing the database is
//! the application's part.
use vstd::prelude::*;
use crate::models::{Task, TaskFocusSummary};

verus! {

/// The focus history database at a path.
#[derive(Debug, Clone)]
pub struct FocusStore {
    path: String,
}

impl FocusStore {
    pub closed spec fn spec_path(&self) -> Seq<char> {
        self.path@
    }

    /// The store whose database file is at `path`.
    pub fn at(path: String) -> (s: FocusStore)
        ensures
            s.spec_path() == path@,
    {
        FocusStore { path }
    }

    /// The database file's path.
    pub fn path(&self) -> (p: &str)
        ensures
            p@ == self.spec_path(),
    {
        self.path.as_str()
    }

    /// The total focus seconds of each task, from the summaries the database
    /// gave for them, in the same order.
    pub fn totals_for_tasks(&self, summaries: &Vec<(String, TaskFocusSummary)>) -> (totals: Vec<(String, u64)>)
        ensures
            totals@.len() == summaries@.len(),
            forall|i: int|
                0 <= i < summaries@.len() ==> (#[trigger] totals@[i]).0@ == summaries@[i].0@ && totals@[i].1
                    == summaries@[i].1.total_seconds,
    {
        let mut totals: Vec<(String, u64)> = Vec::new();
        let mut i: usize = 0;
        while i < summaries.len()
            invariant
                i <= summaries@.len(),
                totals@.len() == i,
                forall|j: int|
                    0 <= j < i ==> (#[trigger] totals@[j]).0@ == summaries@[j].0@ && totals@[j].1
                        == summaries@[j].1.total_seconds,
            decreases summaries.len() - i,
        {
            let id = crate::text::string_of(&crate::text::chars_of(summaries[i].0.as_str()));
            totals.push((id, summaries[i].1.total_seconds));
            i += 1;
        }
        totals
    }
}

/// How the focus time of a completed task compares with its estimate.
#[derive(Debug, Clone, Copy, PartialEq, Eq, Structural)]
pub enum EstimateVariance {
    /// More time than estimated, by this many seconds.
    Over(u64),
    /// Less time than estimated, by this many seconds.
    Under(u64),
    OnEstimate,
}

/// The estimated time: the estimate in Pomodoros of the focus length,
/// saturating at the largest `u64`.
pub open spec fn estimated_seconds(focus_seconds: u64, estimate: u32) -> int {
    if focus_seconds * estimate <= u64::MAX {
        focus_seconds * estimate
    } else {
        u64::MAX as int
    }
}

pub open spec fn spec_estimate_variance(total_seconds: u64, focus_seconds: u64, estimate: u32) -> EstimateVariance {
    let est = estimated_seconds(focus_seconds, estimate);
    if total_seconds > est {
        EstimateVariance::Over((total_seconds - est) as u64)
    } else if total_seconds < est {
        EstimateVariance::Under((est - total_seconds) as u64)
    } else {
        EstimateVariance::OnEstimate
    }
}

/// The variance of a completed task with an estimate: its total focus time
/// against the estimated time; a task that is open or has no estimate has none.
pub open spec fn spec_completion_variance(task: Task, summary: TaskFocusSummary, focus_seconds: u64) -> Option<EstimateVariance> {
    match task.metadata.estimate_pomodoros {
        Some(e) => if task.checked {
            Some(spec_estimate_variance(summary.total_seconds, focus_seconds, e))
        } else {
            None
        },
        None => None,
    }
}

pub fn completion_variance(task: &Task, summary: &TaskFocusSummary, focus_seconds: u64) -> (r: Option<EstimateVariance>)
    ensures
        r == spec_completion_variance(*task, *summary, focus_seconds),
{
    match task.metadata.estimate_pomodoros {
        Some(e) => {
            if !task.checked {
                return None;
            }
            let est: u64 = match focus_seconds.checked_mul(e as u64) {
                Some(v) => v,
                None => 18446744073709551615u64,
            };
            let total = summary.total_seconds;
            if total > est {
                Some(EstimateVariance::Over(total - est))
            } else if total < est {
                Some(EstimateVariance::Under(est - total))
            } else {
                Some(EstimateVariance::OnEstimate)
            }
        },
        None => None,
    }
}

} // verus!
