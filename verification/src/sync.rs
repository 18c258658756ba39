//! Noticing changes that others made to the Markdown sources while the
//! interface is open: which sources changed since they were last read, and
//! whether to reload now or keep an open dialog and remember the change.
use vstd::prelude::*;
use crate::models::opt_view;
use crate::revision::FileRevision;
use crate::search::same_text;

verus! {

/// What a look at a source found: its revision, or the error reading it.
#[derive(Debug, Clone, PartialEq, Eq)]
pub enum Observation {
    Revision(FileRevision),
    Failed(String),
}

/// What the interface remembers of a source: the revision it last read, the
/// error that made it unavailable, and the revision or error already reported
/// while a dialog was open.
#[derive(Debug, Clone, PartialEq, Eq)]
pub struct SourceWatch {
    pub known: Option<FileRevision>,
    pub error: Option<String>,
    pub pending_revision: Option<FileRevision>,
    pub pending_error: Option<String>,
}

/// A source changed when it was unavailable and can now be read, when its
/// revision differs from the one last read, or when it fails with another
/// error than before.
pub open spec fn spec_changed(w: SourceWatch, o: Observation) -> bool {
    match o {
        Observation::Revision(r) => w.error is Some || w.known != Some(r),
        Observation::Failed(e) => opt_view(w.error) != Some(e@),
    }
}

/// A change not yet reported while the dialog is open.
pub open spec fn spec_unreported(w: SourceWatch, o: Observation) -> bool {
    match o {
        Observation::Revision(r) => w.pending_revision != Some(r),
        Observation::Failed(e) => opt_view(w.pending_error) != Some(e@),
    }
}

/// The indices of the changed sources among the first `n`.
pub open spec fn changed_indices(ws: Seq<SourceWatch>, os: Seq<Observation>, n: int) -> Seq<usize>
    decreases n,
{
    if n <= 0 {
        Seq::empty()
    } else {
        let p = changed_indices(ws, os, n - 1);
        if spec_changed(ws[n - 1], os[n - 1]) {
            p.push((n - 1) as usize)
        } else {
            p
        }
    }
}

/// Whether any changed source among the first `n` is unreported.
pub open spec fn any_unreported(ws: Seq<SourceWatch>, os: Seq<Observation>, n: int) -> bool
    decreases n,
{
    if n <= 0 {
        false
    } else {
        any_unreported(ws, os, n - 1) || (spec_changed(ws[n - 1], os[n - 1]) && spec_unreported(
            ws[n - 1],
            os[n - 1],
        ))
    }
}

/// What to do about outside changes.
#[derive(Debug, Clone, Copy, PartialEq, Eq, Structural)]
pub enum SyncAction {
    /// Nothing changed.
    Nothing,
    /// Read the sources again.
    Reload,
    /// A dialog is open: keep it; `report` says whether a change is new and
    /// is to be reported and remembered.
    KeepDialog { report: bool },
}

/// The changed sources and what to do.
pub struct SyncDecision {
    pub changed: Vec<usize>,
    pub action: SyncAction,
}

pub open spec fn spec_sync_action(ws: Seq<SourceWatch>, os: Seq<Observation>, dialog_open: bool) -> SyncAction {
    if changed_indices(ws, os, ws.len() as int).len() == 0 {
        SyncAction::Nothing
    } else if dialog_open {
        SyncAction::KeepDialog { report: any_unreported(ws, os, ws.len() as int) }
    } else {
        SyncAction::Reload
    }
}

fn same_revision(a: &Option<FileRevision>, r: &FileRevision) -> (b: bool)
    ensures
        b == (*a == Some(*r)),
{
    match a {
        Some(k) => k.exists == r.exists && k.length == r.length && k.fingerprint == r.fingerprint,
        None => false,
    }
}

fn same_error(a: &Option<String>, e: &String) -> (b: bool)
    ensures
        b == (opt_view(*a) == Some(e@)),
{
    match a {
        Some(k) => same_text(k.as_str(), e.as_str()),
        None => false,
    }
}

fn changed(w: &SourceWatch, o: &Observation) -> (b: bool)
    ensures
        b == spec_changed(*w, *o),
{
    match o {
        Observation::Revision(r) => w.error.is_some() || !same_revision(&w.known, r),
        Observation::Failed(e) => !same_error(&w.error, e),
    }
}

fn unreported(w: &SourceWatch, o: &Observation) -> (b: bool)
    ensures
        b == spec_unreported(*w, *o),
{
    match o {
        Observation::Revision(r) => !same_revision(&w.pending_revision, r),
        Observation::Failed(e) => !same_error(&w.pending_error, e),
    }
}

/// Compares what was seen of each source with what is remembered of it.
/// `dialog_open` says whether an add, edit, estimate or delete dialog is open.
pub fn external_changes(ws: &Vec<SourceWatch>, os: &Vec<Observation>, dialog_open: bool) -> (d: SyncDecision)
    requires
        ws@.len() == os@.len(),
    ensures
        d.changed@ == changed_indices(ws@, os@, ws@.len() as int),
        d.action == spec_sync_action(ws@, os@, dialog_open),
{
    let mut changed_list: Vec<usize> = Vec::new();
    let mut fresh = false;
    let mut i: usize = 0;
    while i < ws.len()
        invariant
            i <= ws@.len(),
            ws@.len() == os@.len(),
            changed_list@ == changed_indices(ws@, os@, i as int),
            fresh == any_unreported(ws@, os@, i as int),
        decreases ws.len() - i,
    {
        if changed(&ws[i], &os[i]) {
            changed_list.push(i);
            if unreported(&ws[i], &os[i]) {
                fresh = true;
            }
        }
        i += 1;
    }
    let action = if changed_list.len() == 0 {
        SyncAction::Nothing
    } else if dialog_open {
        SyncAction::KeepDialog { report: fresh }
    } else {
        SyncAction::Reload
    };
    SyncDecision { changed: changed_list, action }
}

} // verus!
