//! The rows of the task list: which tasks show under the current filter and
//! search, grouped under their headings in order of first appearance, with a
//! marker for each task, after one row per workspace warning and per source
//! that could not be read; and which row is selected.
use vstd::prelude::*;
use crate::models::{opt_view, strings_view, Task, TimerPhase};
use crate::search::{lowercase, lowercased, same_text, spec_task_matches, task_matches};
use crate::text::{chars_of, string_of};
use crate::edits::append_chars;

verus! {

/// Which tasks the list shows by completion.
#[derive(Debug, Clone, Copy, PartialEq, Eq, Structural)]
pub enum TaskFilter {
    Open,
    Completed,
    All,
}

impl TaskFilter {
    pub open spec fn spec_accepts(self, checked: bool) -> bool {
        match self {
            TaskFilter::Open => !checked,
            TaskFilter::Completed => checked,
            TaskFilter::All => true,
        }
    }

    /// Whether a task with this completion state shows under the filter.
    pub fn accepts(self, checked: bool) -> (b: bool)
        ensures
            b == self.spec_accepts(checked),
    {
        match self {
            TaskFilter::Open => !checked,
            TaskFilter::Completed => checked,
            TaskFilter::All => true,
        }
    }

    /// Open, then completed, then all, then open again.
    pub open spec fn spec_next(self) -> TaskFilter {
        match self {
            TaskFilter::Open => TaskFilter::Completed,
            TaskFilter::Completed => TaskFilter::All,
            TaskFilter::All => TaskFilter::Open,
        }
    }

    pub fn next(self) -> (f: TaskFilter)
        ensures
            f == self.spec_next(),
    {
        match self {
            TaskFilter::Open => TaskFilter::Completed,
            TaskFilter::Completed => TaskFilter::All,
            TaskFilter::All => TaskFilter::Open,
        }
    }

    pub open spec fn spec_label(self) -> Seq<char> {
        match self {
            TaskFilter::Open => seq!['o', 'p', 'e', 'n'],
            TaskFilter::Completed => seq!['c', 'o', 'm', 'p', 'l', 'e', 't', 'e', 'd'],
            TaskFilter::All => seq!['a', 'l', 'l'],
        }
    }

    /// The filter's name in the title bar.
    pub fn label(self) -> (s: &'static str)
        ensures
            s@ == self.spec_label(),
    {
        match self {
            TaskFilter::Open => {
                proof {
                    reveal_strlit("open");
                }
                "open"
            },
            TaskFilter::Completed => {
                proof {
                    reveal_strlit("completed");
                }
                "completed"
            },
            TaskFilter::All => {
                proof {
                    reveal_strlit("all");
                }
                "all"
            },
        }
    }
}

/// Cycling the filter visits each of the three filters once and comes back.
pub proof fn law_filter_cycle(f: TaskFilter)
    ensures
        f.spec_next().spec_next().spec_next() == f,
        f.spec_next() != f,
        f.spec_next().spec_next() != f,
{
}

/// The mark before a task in the list.
#[derive(Debug, Clone, Copy, PartialEq, Eq, Structural)]
pub enum RowMarker {
    /// `!`: the task is blocked.
    Blocked,
    /// `▷`: the task is queued for the focus after the current break.
    Queued,
    /// `✓`: the task is completed.
    Done,
    /// `○`: any other task.
    Open,
}

/// The task is the one the timer has queued as its next task: same stable id
/// and same source.
pub open spec fn spec_is_next_task(t: Task, next_id: Option<Seq<char>>, next_path: Option<Seq<char>>) -> bool {
    t.task_id is Some && next_id == Some(t.task_id->0@) && next_path == Some(t.source_path@)
}

pub fn is_next_task(t: &Task, next_id: &Option<String>, next_path: &Option<String>) -> (b: bool)
    ensures
        b == spec_is_next_task(*t, opt_view(*next_id), opt_view(*next_path)),
{
    match (&t.task_id, next_id, next_path) {
        (Some(id), Some(nid), Some(npath)) => same_text(id.as_str(), nid.as_str()) && same_text(
            t.source_path.as_str(),
            npath.as_str(),
        ),
        _ => false,
    }
}

/// The marker of a task: blocked first; the queued next task reads as queued
/// outside focus (during focus the timer runs without a task, so it reads as
/// open), and as its completion state while idle; other tasks by completion.
pub open spec fn spec_marker(t: Task, is_next: bool, phase: TimerPhase) -> RowMarker {
    if t.metadata.blocked {
        RowMarker::Blocked
    } else if is_next {
        match phase {
            TimerPhase::Focus | TimerPhase::PausedFocus => RowMarker::Open,
            TimerPhase::ReadyForBreak | TimerPhase::Break | TimerPhase::PausedBreak
            | TimerPhase::ReadyForFocus => RowMarker::Queued,
            TimerPhase::Idle => if t.checked {
                RowMarker::Done
            } else {
                RowMarker::Open
            },
        }
    } else if t.checked {
        RowMarker::Done
    } else {
        RowMarker::Open
    }
}

pub fn row_marker(t: &Task, is_next: bool, phase: TimerPhase) -> (m: RowMarker)
    ensures
        m == spec_marker(*t, is_next, phase),
{
    if t.metadata.blocked {
        RowMarker::Blocked
    } else if is_next {
        match phase {
            TimerPhase::Focus | TimerPhase::PausedFocus => RowMarker::Open,
            TimerPhase::ReadyForBreak | TimerPhase::Break | TimerPhase::PausedBreak
            | TimerPhase::ReadyForFocus => RowMarker::Queued,
            TimerPhase::Idle => if t.checked {
                RowMarker::Done
            } else {
                RowMarker::Open
            },
        }
    } else if t.checked {
        RowMarker::Done
    } else {
        RowMarker::Open
    }
}

/// One row of the task list.
#[derive(Debug, Clone, Copy, PartialEq, Eq, Structural)]
pub enum Row {
    /// The workspace warning with this index.
    Warning(usize),
    /// The source with this index could not be read.
    SourceError(usize),
    /// The source with this index does not exist.
    SourceMissing(usize),
    /// A group heading: the group's first task and its number of tasks.
    Heading { first: usize, count: usize },
    /// A task, whether it is the last of its group, and its marker.
    Entry { task: usize, last: bool, marker: RowMarker },
}

/// What the list knows of a source file: whether reading it failed, and
/// whether it exists.
#[derive(Debug, Clone, Copy, PartialEq, Eq, Structural)]
pub struct SourceStatus {
    pub failed: bool,
    pub exists: bool,
}

/// The indices, in order, of the tasks among the first `n` that the filter
/// and the lower-cased query show.
pub open spec fn spec_visible(tasks: Seq<Task>, filter: TaskFilter, query: Seq<char>, n: int) -> Seq<usize>
    decreases n,
{
    if n <= 0 {
        Seq::empty()
    } else {
        let prev = spec_visible(tasks, filter, query, n - 1);
        if filter.spec_accepts(tasks[n - 1].checked) && spec_task_matches(tasks[n - 1], query) {
            prev.push((n - 1) as usize)
        } else {
            prev
        }
    }
}

pub proof fn lemma_visible_bounded(tasks: Seq<Task>, filter: TaskFilter, query: Seq<char>, n: int)
    requires
        0 <= n <= tasks.len(),
        tasks.len() <= usize::MAX,
    ensures
        forall|k: int|
            0 <= k < spec_visible(tasks, filter, query, n).len() ==> (#[trigger] spec_visible(
                tasks,
                filter,
                query,
                n,
            )[k]) < n,
    decreases n,
{
    if n > 0 {
        lemma_visible_bounded(tasks, filter, query, n - 1);
        let prev = spec_visible(tasks, filter, query, n - 1);
        let cur = spec_visible(tasks, filter, query, n);
        assert forall|k: int| 0 <= k < cur.len() implies cur[k] < n by {
            if k < prev.len() {
                assert(cur[k] == prev[k]);
            }
        }
    }
}

pub open spec fn tasks_word() -> Seq<char> {
    seq!['T', 'a', 's', 'k', 's']
}

pub open spec fn title_separator() -> Seq<char> {
    seq![' ', '›', ' ']
}

/// The title of the group a task shows under: its heading, or `Tasks`; in an
/// aggregate view of several sources, prefixed with the source's label.
pub open spec fn spec_group_title(t: Task, label: Seq<char>, aggregate: bool) -> Seq<char> {
    let h = match t.heading {
        Some(h) => h@,
        None => tasks_word(),
    };
    if aggregate {
        label + title_separator() + h
    } else {
        h
    }
}

pub fn group_title(t: &Task, label: &str, aggregate: bool) -> (s: String)
    ensures
        s@ == spec_group_title(*t, label@, aggregate),
{
    let h = match &t.heading {
        Some(h) => chars_of(h.as_str()),
        None => {
            let v = vec!['T', 'a', 's', 'k', 's'];
            assert(v@ =~= tasks_word());
            v
        },
    };
    if aggregate {
        let mut v = chars_of(label);
        v.push(' ');
        v.push('›');
        v.push(' ');
        append_chars(&mut v, &h);
        proof {
            assert(label@ + title_separator() =~= label@.push(' ').push('›').push(' '));
        }
        string_of(&v)
    } else {
        string_of(&h)
    }
}

/// The group titles of the shown tasks.
pub open spec fn spec_titles(tasks: Seq<Task>, labels: Seq<Seq<char>>, vis: Seq<usize>, aggregate: bool) -> Seq<Seq<char>> {
    Seq::new(vis.len(), |k: int| spec_group_title(tasks[vis[k] as int], labels[vis[k] as int], aggregate))
}

/// The distinct titles among the first `n`, in order of first appearance.
pub open spec fn first_seen(tv: Seq<Seq<char>>, n: int) -> Seq<Seq<char>>
    decreases n,
{
    if n <= 0 {
        Seq::empty()
    } else {
        let p = first_seen(tv, n - 1);
        if p.contains(tv[n - 1]) {
            p
        } else {
            p.push(tv[n - 1])
        }
    }
}

/// The shown tasks among the first `n` whose title is `h`, in order.
pub open spec fn members(tv: Seq<Seq<char>>, vis: Seq<usize>, h: Seq<char>, n: int) -> Seq<usize>
    decreases n,
{
    if n <= 0 {
        Seq::empty()
    } else {
        let p = members(tv, vis, h, n - 1);
        if tv[n - 1] == h {
            p.push(vis[n - 1])
        } else {
            p
        }
    }
}

pub proof fn lemma_members_bounded(tv: Seq<Seq<char>>, vis: Seq<usize>, h: Seq<char>, n: int, bound: int)
    requires
        0 <= n <= vis.len(),
        forall|k: int| 0 <= k < vis.len() ==> (#[trigger] vis[k]) < bound,
    ensures
        forall|j: int|
            0 <= j < members(tv, vis, h, n).len() ==> (#[trigger] members(tv, vis, h, n)[j]) < bound,
    decreases n,
{
    if n > 0 {
        lemma_members_bounded(tv, vis, h, n - 1, bound);
        let prev = members(tv, vis, h, n - 1);
        let cur = members(tv, vis, h, n);
        assert forall|j: int| 0 <= j < cur.len() implies cur[j] < bound by {
            if j < prev.len() {
                assert(cur[j] == prev[j]);
            } else {
                assert(vis[n - 1] < bound);
            }
        }
    }
}

/// The task rows of a group.
pub open spec fn entry_rows(
    m: Seq<usize>,
    tasks: Seq<Task>,
    next_id: Option<Seq<char>>,
    next_path: Option<Seq<char>>,
    phase: TimerPhase,
) -> Seq<Row> {
    Seq::new(
        m.len(),
        |j: int|
            Row::Entry {
                task: m[j],
                last: j + 1 == m.len(),
                marker: spec_marker(tasks[m[j] as int], spec_is_next_task(tasks[m[j] as int], next_id, next_path), phase),
            },
    )
}

/// A group: its heading row, then one row per task.
pub open spec fn block(
    h: Seq<char>,
    tv: Seq<Seq<char>>,
    vis: Seq<usize>,
    tasks: Seq<Task>,
    next_id: Option<Seq<char>>,
    next_path: Option<Seq<char>>,
    phase: TimerPhase,
) -> Seq<Row> {
    let m = members(tv, vis, h, tv.len() as int);
    seq![Row::Heading { first: if m.len() > 0 { m[0] } else { 0 }, count: m.len() as usize }]
        + entry_rows(m, tasks, next_id, next_path, phase)
}

pub open spec fn blocks(
    order: Seq<Seq<char>>,
    tv: Seq<Seq<char>>,
    vis: Seq<usize>,
    tasks: Seq<Task>,
    next_id: Option<Seq<char>>,
    next_path: Option<Seq<char>>,
    phase: TimerPhase,
) -> Seq<Row>
    decreases order.len(),
{
    if order.len() == 0 {
        Seq::empty()
    } else {
        blocks(order.drop_last(), tv, vis, tasks, next_id, next_path, phase) + block(
            order.last(),
            tv,
            vis,
            tasks,
            next_id,
            next_path,
            phase,
        )
    }
}

/// The rows for the first `n` sources: shown sources that failed to read,
/// then those missing, each in place.
pub open spec fn source_rows(sources: Seq<SourceStatus>, view: Option<usize>, n: int) -> Seq<Row>
    decreases n,
{
    if n <= 0 {
        Seq::empty()
    } else {
        let p = source_rows(sources, view, n - 1);
        let i = n - 1;
        if view is Some && view != Some(i as usize) {
            p
        } else if sources[i].failed {
            p.push(Row::SourceError(i as usize))
        } else if !sources[i].exists {
            p.push(Row::SourceMissing(i as usize))
        } else {
            p
        }
    }
}

/// The whole list: one row per workspace warning, the rows of unreadable or
/// missing sources, then the groups.
pub open spec fn spec_rows(
    tasks: Seq<Task>,
    labels: Seq<Seq<char>>,
    filter: TaskFilter,
    query: Seq<char>,
    warnings: nat,
    sources: Seq<SourceStatus>,
    view: Option<usize>,
    next_id: Option<Seq<char>>,
    next_path: Option<Seq<char>>,
    phase: TimerPhase,
) -> Seq<Row> {
    let vis = spec_visible(tasks, filter, query, tasks.len() as int);
    let aggregate = view is None && sources.len() > 1;
    let tv = spec_titles(tasks, labels, vis, aggregate);
    Seq::new(warnings, |i: int| Row::Warning(i as usize)) + source_rows(sources, view, sources.len() as int)
        + blocks(first_seen(tv, tv.len() as int), tv, vis, tasks, next_id, next_path, phase)
}

/// The last of the first `n` rows that shows the task with this key.
pub open spec fn keyed_row(rows: Seq<Row>, tasks: Seq<Task>, key: Seq<char>, n: int) -> Option<int>
    decreases n,
{
    if n <= 0 {
        None
    } else if (rows[n - 1] matches Row::Entry { task, .. } && task < tasks.len()
        && tasks[task as int].spec_key() == key) {
        Some(n - 1)
    } else {
        keyed_row(rows, tasks, key, n - 1)
    }
}

/// The first of the first `n` rows that shows a task.
pub open spec fn first_entry(rows: Seq<Row>, n: int) -> Option<int>
    decreases n,
{
    if n <= 0 {
        None
    } else {
        match first_entry(rows, n - 1) {
            Some(j) => Some(j),
            None => if rows[n - 1] is Entry {
                Some(n - 1)
            } else {
                None
            },
        }
    }
}

/// The selected row: the row of the task with the kept key, or else the first
/// task row, or none.
pub open spec fn spec_selection(rows: Seq<Row>, tasks: Seq<Task>, key: Option<Seq<char>>) -> Option<int> {
    let keyed = match key {
        Some(k) => keyed_row(rows, tasks, k, rows.len() as int),
        None => None,
    };
    match keyed {
        Some(j) => Some(j),
        None => first_entry(rows, rows.len() as int),
    }
}

/// The rows of the list and the selected row.
pub struct TaskList {
    pub rows: Vec<Row>,
    pub selected: Option<usize>,
}

fn visible_tasks(tasks: &Vec<Task>, filter: TaskFilter, query: &str) -> (vis: Vec<usize>)
    ensures
        vis@ == spec_visible(tasks@, filter, query@, tasks@.len() as int),
{
    let mut vis: Vec<usize> = Vec::new();
    let mut i: usize = 0;
    while i < tasks.len()
        invariant
            i <= tasks@.len(),
            vis@ == spec_visible(tasks@, filter, query@, i as int),
        decreases tasks.len() - i,
    {
        if filter.accepts(tasks[i].checked) && task_matches(&tasks[i], query) {
            vis.push(i);
        }
        i += 1;
    }
    vis
}

fn titles_of(tasks: &Vec<Task>, labels: &Vec<String>, vis: &Vec<usize>, aggregate: bool) -> (tv: Vec<String>)
    requires
        labels@.len() == tasks@.len(),
        forall|k: int| 0 <= k < vis@.len() ==> (#[trigger] vis@[k]) < tasks@.len(),
    ensures
        strings_view(tv@) == spec_titles(tasks@, strings_view(labels@), vis@, aggregate),
{
    let mut tv: Vec<String> = Vec::new();
    let mut k: usize = 0;
    while k < vis.len()
        invariant
            k <= vis@.len(),
            labels@.len() == tasks@.len(),
            forall|k: int| 0 <= k < vis@.len() ==> (#[trigger] vis@[k]) < tasks@.len(),
            tv@.len() == k,
            forall|j: int|
                0 <= j < k ==> (#[trigger] tv@[j])@ == spec_group_title(
                    tasks@[vis@[j] as int],
                    labels@[vis@[j] as int]@,
                    aggregate,
                ),
        decreases vis.len() - k,
    {
        let t = vis[k];
        let title = group_title(&tasks[t], labels[t].as_str(), aggregate);
        tv.push(title);
        k += 1;
    }
    assert(strings_view(tv@) =~= spec_titles(tasks@, strings_view(labels@), vis@, aggregate));
    tv
}

/// Positions in `tv` of the first appearance of each distinct title.
fn first_positions(tv: &Vec<String>) -> (order: Vec<usize>)
    ensures
        order@.len() == first_seen(strings_view(tv@), tv@.len() as int).len(),
        forall|j: int|
            0 <= j < order@.len() ==> (#[trigger] order@[j]) < tv@.len() && tv@[order@[j] as int]@
                == first_seen(strings_view(tv@), tv@.len() as int)[j],
{
    let ghost s = strings_view(tv@);
    let mut order: Vec<usize> = Vec::new();
    let mut k: usize = 0;
    while k < tv.len()
        invariant
            k <= tv@.len(),
            s == strings_view(tv@),
            order@.len() == first_seen(s, k as int).len(),
            forall|j: int|
                0 <= j < order@.len() ==> (#[trigger] order@[j]) < tv@.len() && tv@[order@[j] as int]@
                    == first_seen(s, k as int)[j],
        decreases tv.len() - k,
    {
        let ghost fs = first_seen(s, k as int);
        let mut seen = false;
        let mut j: usize = 0;
        while j < order.len()
            invariant
                j <= order@.len(),
                k < tv@.len(),
                s == strings_view(tv@),
                fs == first_seen(s, k as int),
                order@.len() == fs.len(),
                forall|j: int|
                    0 <= j < order@.len() ==> (#[trigger] order@[j]) < tv@.len() && tv@[order@[j] as int]@
                        == fs[j],
                seen == exists|i: int| 0 <= i < j && fs[i] == s[k as int],
            decreases order.len() - j,
        {
            if !seen && same_text(tv[order[j]].as_str(), tv[k].as_str()) {
                seen = true;
            }
            proof {
                if !seen {
                    assert forall|i: int| 0 <= i < j + 1 implies fs[i] != s[k as int] by {
                        if i == j {
                        }
                    }
                }
            }
            j += 1;
        }
        proof {
            assert(fs.contains(s[k as int]) == seen) by {
                if seen {
                    let i = choose|i: int| 0 <= i < j && fs[i] == s[k as int];
                    assert(fs[i] == s[k as int]);
                }
            }
        }
        if !seen {
            order.push(k);
        }
        k += 1;
    }
    order
}

fn members_of(tv: &Vec<String>, vis: &Vec<usize>, h: &str) -> (m: Vec<usize>)
    requires
        tv@.len() == vis@.len(),
    ensures
        m@ == members(strings_view(tv@), vis@, h@, tv@.len() as int),
{
    let ghost s = strings_view(tv@);
    let mut m: Vec<usize> = Vec::new();
    let mut k: usize = 0;
    while k < tv.len()
        invariant
            k <= tv@.len(),
            tv@.len() == vis@.len(),
            s == strings_view(tv@),
            m@ == members(s, vis@, h@, k as int),
        decreases tv.len() - k,
    {
        if same_text(tv[k].as_str(), h) {
            m.push(vis[k]);
        }
        k += 1;
    }
    m
}

fn push_source_rows(rows: &mut Vec<Row>, sources: &Vec<SourceStatus>, view: Option<usize>)
    ensures
        final(rows)@ == old(rows)@ + source_rows(sources@, view, sources@.len() as int),
{
    let ghost start = rows@;
    let mut i: usize = 0;
    while i < sources.len()
        invariant
            i <= sources@.len(),
            rows@ == start + source_rows(sources@, view, i as int),
        decreases sources.len() - i,
    {
        let skip = match view {
            Some(v) => v != i,
            None => false,
        };
        if !skip {
            if sources[i].failed {
                rows.push(Row::SourceError(i));
            } else if !sources[i].exists {
                rows.push(Row::SourceMissing(i));
            }
        }
        proof {
            let p = source_rows(sources@, view, i as int);
            if !skip && sources@[i as int].failed {
                assert(start + p.push(Row::SourceError(i)) =~= (start + p).push(Row::SourceError(i)));
            } else if !skip && !sources@[i as int].exists {
                assert(start + p.push(Row::SourceMissing(i)) =~= (start + p).push(Row::SourceMissing(i)));
            }
        }
        i += 1;
    }
}

fn push_entries(
    rows: &mut Vec<Row>,
    m: &Vec<usize>,
    tasks: &Vec<Task>,
    next_id: &Option<String>,
    next_path: &Option<String>,
    phase: TimerPhase,
)
    requires
        forall|j: int| 0 <= j < m@.len() ==> (#[trigger] m@[j]) < tasks@.len(),
    ensures
        final(rows)@ == old(rows)@ + entry_rows(m@, tasks@, opt_view(*next_id), opt_view(*next_path), phase),
{
    let ghost start = rows@;
    let ghost nid = opt_view(*next_id);
    let ghost npath = opt_view(*next_path);
    let mut j: usize = 0;
    while j < m.len()
        invariant
            j <= m@.len(),
            forall|j: int| 0 <= j < m@.len() ==> (#[trigger] m@[j]) < tasks@.len(),
            nid == opt_view(*next_id),
            npath == opt_view(*next_path),
            rows@ == start + entry_rows(m@, tasks@, nid, npath, phase).take(j as int),
        decreases m.len() - j,
    {
        let ti = m[j];
        let t = &tasks[ti];
        let next = is_next_task(t, next_id, next_path);
        let marker = row_marker(t, next, phase);
        let last = j + 1 == m.len();
        let row = Row::Entry { task: ti, last, marker };
        rows.push(row);
        proof {
            let e = entry_rows(m@, tasks@, nid, npath, phase);
            assert(*t == tasks@[m@[j as int] as int]);
            assert(marker == spec_marker(tasks@[m@[j as int] as int], spec_is_next_task(tasks@[m@[j as int] as int], nid, npath), phase));
            assert(last == (j + 1 == m@.len()));
            assert(e[j as int] == row);
            assert(e.take(j as int).push(row) =~= e.take(j + 1));
            assert(start + e.take(j as int).push(row) =~= (start + e.take(j as int)).push(row));
        }
        j += 1;
    }
    proof {
        let e = entry_rows(m@, tasks@, nid, npath, phase);
        assert(e.take(m@.len() as int) =~= e);
    }
}

/// The rows of the task list and the selected row. `labels` holds the label of
/// each task's source, `search` the search text (compared in lower case), `warnings` the
/// number of workspace warnings, `sources` what is known of each source,
/// `view` the single source shown (or all), `next_id`/`next_path` the task the
/// timer has queued, `phase` the timer's phase, and `selected_key` the key of
/// the task to keep selected.
pub fn build_task_list(
    tasks: &Vec<Task>,
    labels: &Vec<String>,
    filter: TaskFilter,
    search: &str,
    warnings: usize,
    sources: &Vec<SourceStatus>,
    view: Option<usize>,
    next_id: &Option<String>,
    next_path: &Option<String>,
    phase: TimerPhase,
    selected_key: &Option<String>,
) -> (list: TaskList)
    requires
        labels@.len() == tasks@.len(),
    ensures
        list.rows@ == spec_rows(
            tasks@,
            strings_view(labels@),
            filter,
            lowercased(search@),
            warnings as nat,
            sources@,
            view,
            opt_view(*next_id),
            opt_view(*next_path),
            phase,
        ),
        match list.selected {
            Some(j) => spec_selection(list.rows@, tasks@, opt_view(*selected_key)) == Some(j as int),
            None => spec_selection(list.rows@, tasks@, opt_view(*selected_key)) is None,
        },
{
    let ghost nid = opt_view(*next_id);
    let ghost npath = opt_view(*next_path);
    let lowered = lowercase(search);
    let query = lowered.as_str();
    let vis = visible_tasks(tasks, filter, query);
    let n_tasks = tasks.len();
    proof {
        lemma_visible_bounded(tasks@, filter, query@, tasks@.len() as int);
    }
    let aggregate = view.is_none() && sources.len() > 1;
    let tv = titles_of(tasks, labels, &vis, aggregate);
    let ghost s = strings_view(tv@);
    let order = first_positions(&tv);
    let ghost fs = first_seen(s, s.len() as int);

    let mut rows: Vec<Row> = Vec::new();
    let mut w: usize = 0;
    while w < warnings
        invariant
            w <= warnings,
            rows@ == Seq::new(w as nat, |i: int| Row::Warning(i as usize)),
        decreases warnings - w,
    {
        rows.push(Row::Warning(w));
        assert(rows@ =~= Seq::new((w + 1) as nat, |i: int| Row::Warning(i as usize)));
        w += 1;
    }
    push_source_rows(&mut rows, sources, view);
    let ghost head = rows@;
    let mut g: usize = 0;
    while g < order.len()
        invariant
            g <= order@.len(),
            s == strings_view(tv@),
            s.len() == vis@.len(),
            fs == first_seen(s, s.len() as int),
            order@.len() == fs.len(),
            forall|j: int|
                0 <= j < order@.len() ==> (#[trigger] order@[j]) < tv@.len() && tv@[order@[j] as int]@
                    == fs[j],
            forall|k: int| 0 <= k < vis@.len() ==> (#[trigger] vis@[k]) < tasks@.len(),
            nid == opt_view(*next_id),
            npath == opt_view(*next_path),
            rows@ == head + blocks(fs.take(g as int), s, vis@, tasks@, nid, npath, phase),
        decreases order.len() - g,
    {
        let h = &tv[order[g]];
        let m = members_of(&tv, &vis, h.as_str());
        proof {
            lemma_members_bounded(s, vis@, h@, s.len() as int, tasks@.len() as int);
        }
        let first = if m.len() > 0 {
            m[0]
        } else {
            0
        };
        let ghost before = rows@;
        let heading = Row::Heading { first, count: m.len() };
        rows.push(heading);
        let ghost with_heading = rows@;
        push_entries(&mut rows, &m, tasks, next_id, next_path, phase);
        proof {
            let b = block(fs[g as int], s, vis@, tasks@, nid, npath, phase);
            assert(h@ == fs[g as int]);
            let mm = members(s, vis@, fs[g as int], s.len() as int);
            assert(m@ == mm);
            assert(heading == Row::Heading { first: if mm.len() > 0 { mm[0] } else { 0 }, count: mm.len() as usize });
            let er = entry_rows(m@, tasks@, nid, npath, phase);
            assert(b =~= seq![heading] + er);
            assert(with_heading == before.push(heading));
            assert(rows@ == with_heading + er);
            assert(before + (seq![heading] + er) =~= before.push(heading) + er);
            assert(rows@ =~= before + b);
            assert(fs.take(g + 1).drop_last() =~= fs.take(g as int));
            assert(fs.take(g + 1).last() == fs[g as int]);
            assert(blocks(fs.take(g + 1), s, vis@, tasks@, nid, npath, phase) == blocks(
                fs.take(g as int),
                s,
                vis@,
                tasks@,
                nid,
                npath,
                phase,
            ) + b);
            assert(rows@ =~= head + blocks(fs.take(g + 1), s, vis@, tasks@, nid, npath, phase));
        }
        g += 1;
    }
    proof {
        assert(fs.take(order@.len() as int) =~= fs);
        assert(rows@ =~= spec_rows(
            tasks@,
            strings_view(labels@),
            filter,
            query@,
            warnings as nat,
            sources@,
            view,
            nid,
            npath,
            phase,
        ));
    }
    let selected = select_row(&rows, tasks, selected_key);
    TaskList { rows, selected }
}

/// The selected row of a list: the last row of the task with the kept key,
/// or else the first task row.
pub fn select_row(rows: &Vec<Row>, tasks: &Vec<Task>, selected_key: &Option<String>) -> (r: Option<usize>)
    ensures
        match r {
            Some(j) => spec_selection(rows@, tasks@, opt_view(*selected_key)) == Some(j as int),
            None => spec_selection(rows@, tasks@, opt_view(*selected_key)) is None,
        },
{
    let mut keyed: Option<usize> = None;
    let mut first: Option<usize> = None;
    let mut i: usize = 0;
    while i < rows.len()
        invariant
            i <= rows@.len(),
            match selected_key {
                Some(k) => match keyed {
                    Some(j) => keyed_row(rows@, tasks@, k@, i as int) == Some(j as int),
                    None => keyed_row(rows@, tasks@, k@, i as int) is None,
                },
                None => keyed is None,
            },
            match first {
                Some(j) => first_entry(rows@, i as int) == Some(j as int),
                None => first_entry(rows@, i as int) is None,
            },
        decreases rows.len() - i,
    {
        match rows[i] {
            Row::Entry { task, .. } => {
                if first.is_none() {
                    first = Some(i);
                }
                if let Some(k) = selected_key {
                    if task < tasks.len() {
                        let key = tasks[task].key();
                        if same_text(key.as_str(), k.as_str()) {
                            keyed = Some(i);
                        }
                    }
                }
            },
            _ => {},
        }
        i += 1;
    }
    match keyed {
        Some(j) => Some(j),
        None => first,
    }
}


/// A row of `rows` shows task `t`.
pub open spec fn shows_task(rows: Seq<Row>, t: usize) -> bool {
    exists|j: int| 0 <= j < rows.len() && (#[trigger] rows[j] matches Row::Entry { task, .. } && task == t)
}

proof fn lemma_shows_concat(a: Seq<Row>, b: Seq<Row>, t: usize)
    ensures
        shows_task(a + b, t) <==> shows_task(a, t) || shows_task(b, t),
{
    let c = a + b;
    if shows_task(c, t) {
        let j = choose|j: int| 0 <= j < c.len() && (#[trigger] c[j] matches Row::Entry { task, .. } && task == t);
        if j < a.len() {
            assert(c[j] == a[j]);
        } else {
            assert(c[j] == b[j - a.len()]);
        }
    }
    if shows_task(a, t) {
        let j = choose|j: int| 0 <= j < a.len() && (#[trigger] a[j] matches Row::Entry { task, .. } && task == t);
        assert(c[j] == a[j]);
    }
    if shows_task(b, t) {
        let j = choose|j: int| 0 <= j < b.len() && (#[trigger] b[j] matches Row::Entry { task, .. } && task == t);
        assert(c[j + a.len()] == b[j]);
    }
}

proof fn lemma_visible_holds(tasks: Seq<Task>, filter: TaskFilter, query: Seq<char>, n: int, i: int)
    requires
        0 <= i < n <= tasks.len(),
        tasks.len() <= usize::MAX,
    ensures
        spec_visible(tasks, filter, query, n).contains(i as usize) <==> (filter.spec_accepts(tasks[i].checked)
            && spec_task_matches(tasks[i], query)),
    decreases n,
{
    let prev = spec_visible(tasks, filter, query, n - 1);
    let cur = spec_visible(tasks, filter, query, n);
    lemma_visible_bounded(tasks, filter, query, n - 1);
    if i < n - 1 {
        lemma_visible_holds(tasks, filter, query, n - 1, i);
        if cur.contains(i as usize) {
            let k = choose|k: int| 0 <= k < cur.len() && cur[k] == i as usize;
            if k < prev.len() {
                assert(prev[k] == cur[k]);
            }
        }
        if prev.contains(i as usize) {
            let k = choose|k: int| 0 <= k < prev.len() && prev[k] == i as usize;
            assert(cur[k] == prev[k]);
        }
    } else {
        if prev.contains(i as usize) {
            let k = choose|k: int| 0 <= k < prev.len() && prev[k] == i as usize;
            assert(prev[k] < n - 1);
        }
        if filter.spec_accepts(tasks[i].checked) && spec_task_matches(tasks[i], query) {
            assert(cur[cur.len() - 1] == i as usize);
        } else if cur.contains(i as usize) {
            let k = choose|k: int| 0 <= k < cur.len() && cur[k] == i as usize;
            assert(prev[k] == cur[k]);
        }
    }
}

proof fn lemma_members_hold(tv: Seq<Seq<char>>, vis: Seq<usize>, h: Seq<char>, n: int, t: usize)
    requires
        0 <= n <= vis.len(),
        n <= tv.len(),
    ensures
        members(tv, vis, h, n).contains(t) <==> exists|k: int| 0 <= k < n && tv[k] == h && vis[k] == t,
    decreases n,
{
    if n > 0 {
        lemma_members_hold(tv, vis, h, n - 1, t);
        let prev = members(tv, vis, h, n - 1);
        let cur = members(tv, vis, h, n);
        if cur.contains(t) {
            let j = choose|j: int| 0 <= j < cur.len() && cur[j] == t;
            if j < prev.len() {
                assert(prev[j] == cur[j]);
            } else {
                assert(tv[n - 1] == h && vis[n - 1] == t);
            }
        }
        if exists|k: int| 0 <= k < n && tv[k] == h && vis[k] == t {
            let k = choose|k: int| 0 <= k < n && tv[k] == h && vis[k] == t;
            if k < n - 1 {
                let j = choose|j: int| 0 <= j < prev.len() && prev[j] == t;
                assert(cur[j] == prev[j]);
            } else {
                assert(cur[cur.len() - 1] == t);
            }
        }
    }
}

proof fn lemma_first_seen_holds(tv: Seq<Seq<char>>, n: int, h: Seq<char>)
    requires
        0 <= n <= tv.len(),
    ensures
        first_seen(tv, n).contains(h) <==> exists|k: int| 0 <= k < n && tv[k] == h,
    decreases n,
{
    if n > 0 {
        lemma_first_seen_holds(tv, n - 1, h);
        let prev = first_seen(tv, n - 1);
        let cur = first_seen(tv, n);
        if cur.contains(h) {
            let j = choose|j: int| 0 <= j < cur.len() && cur[j] == h;
            if j < prev.len() {
                assert(prev[j] == cur[j]);
            } else {
                assert(tv[n - 1] == h);
            }
        }
        if exists|k: int| 0 <= k < n && tv[k] == h {
            let k = choose|k: int| 0 <= k < n && tv[k] == h;
            if k < n - 1 {
                let j = choose|j: int| 0 <= j < prev.len() && prev[j] == h;
                assert(cur[j] == prev[j]) by {
                    if !prev.contains(tv[n - 1]) {
                        assert(cur == prev.push(tv[n - 1]));
                    }
                }
            } else if !prev.contains(h) {
                assert(cur[cur.len() - 1] == h);
            }
        }
    }
}

proof fn lemma_block_shows(h: Seq<char>, tv: Seq<Seq<char>>, vis: Seq<usize>, tasks: Seq<Task>, nid: Option<Seq<char>>, npath: Option<Seq<char>>, phase: TimerPhase, t: usize)
    ensures
        shows_task(block(h, tv, vis, tasks, nid, npath, phase), t) <==> members(tv, vis, h, tv.len() as int).contains(t),
{
    let m = members(tv, vis, h, tv.len() as int);
    let head = seq![Row::Heading { first: if m.len() > 0 { m[0] } else { 0 }, count: m.len() as usize }];
    let er = entry_rows(m, tasks, nid, npath, phase);
    lemma_shows_concat(head, er, t);
    assert(!shows_task(head, t));
    if shows_task(er, t) {
        let j = choose|j: int| 0 <= j < er.len() && (#[trigger] er[j] matches Row::Entry { task, .. } && task == t);
        assert(m[j] == t);
    }
    if m.contains(t) {
        let j = choose|j: int| 0 <= j < m.len() && m[j] == t;
        assert(er[j] matches Row::Entry { task, .. } && task == t);
    }
}

proof fn lemma_blocks_show(order: Seq<Seq<char>>, tv: Seq<Seq<char>>, vis: Seq<usize>, tasks: Seq<Task>, nid: Option<Seq<char>>, npath: Option<Seq<char>>, phase: TimerPhase, t: usize)
    ensures
        shows_task(blocks(order, tv, vis, tasks, nid, npath, phase), t) <==> exists|i: int|
            0 <= i < order.len() && #[trigger] members(tv, vis, order[i], tv.len() as int).contains(t),
    decreases order.len(),
{
    if order.len() > 0 {
        let rest = order.drop_last();
        lemma_blocks_show(rest, tv, vis, tasks, nid, npath, phase, t);
        lemma_shows_concat(blocks(rest, tv, vis, tasks, nid, npath, phase), block(order.last(), tv, vis, tasks, nid, npath, phase), t);
        lemma_block_shows(order.last(), tv, vis, tasks, nid, npath, phase, t);
        if exists|i: int| 0 <= i < order.len() && #[trigger] members(tv, vis, order[i], tv.len() as int).contains(t) {
            let i = choose|i: int| 0 <= i < order.len() && #[trigger] members(tv, vis, order[i], tv.len() as int).contains(t);
            if i < rest.len() {
                assert(rest[i] == order[i]);
            }
        }
        if exists|i: int| 0 <= i < rest.len() && #[trigger] members(tv, vis, rest[i], tv.len() as int).contains(t) {
            let i = choose|i: int| 0 <= i < rest.len() && #[trigger] members(tv, vis, rest[i], tv.len() as int).contains(t);
            assert(order[i] == rest[i]);
        }
    } else {
        assert(blocks(order, tv, vis, tasks, nid, npath, phase) =~= Seq::<Row>::empty());
    }
}

proof fn lemma_source_rows_no_tasks(sources: Seq<SourceStatus>, view: Option<usize>, n: int, t: usize)
    ensures
        !shows_task(source_rows(sources, view, n), t),
    decreases n,
{
    if n > 0 {
        lemma_source_rows_no_tasks(sources, view, n - 1, t);
        let p = source_rows(sources, view, n - 1);
        let c = source_rows(sources, view, n);
        if shows_task(c, t) {
            let j = choose|j: int| 0 <= j < c.len() && (#[trigger] c[j] matches Row::Entry { task, .. } && task == t);
            if j < p.len() {
                assert(c[j] == p[j]);
            }
        }
    }
}

/// The list shows a task exactly when the filter accepts it and the
/// lower-cased search finds it, whatever the view, the warnings and the
/// state of the sources.
pub proof fn law_list_shows_the_matching_tasks(
    tasks: Seq<Task>,
    labels: Seq<Seq<char>>,
    filter: TaskFilter,
    query: Seq<char>,
    warnings: nat,
    sources: Seq<SourceStatus>,
    view: Option<usize>,
    next_id: Option<Seq<char>>,
    next_path: Option<Seq<char>>,
    phase: TimerPhase,
    t: usize,
)
    requires
        tasks.len() <= usize::MAX,
        t < tasks.len(),
    ensures
        shows_task(spec_rows(tasks, labels, filter, query, warnings, sources, view, next_id, next_path, phase), t)
            <==> (filter.spec_accepts(tasks[t as int].checked) && spec_task_matches(tasks[t as int], query)),
{
    let vis = spec_visible(tasks, filter, query, tasks.len() as int);
    let aggregate = view is None && sources.len() > 1;
    let tv = spec_titles(tasks, labels, vis, aggregate);
    let order = first_seen(tv, tv.len() as int);
    let warn = Seq::new(warnings, |i: int| Row::Warning(i as usize));
    let srcs = source_rows(sources, view, sources.len() as int);
    let bl = blocks(order, tv, vis, tasks, next_id, next_path, phase);
    lemma_shows_concat(warn + srcs, bl, t);
    lemma_shows_concat(warn, srcs, t);
    lemma_source_rows_no_tasks(sources, view, sources.len() as int, t);
    assert(!shows_task(warn, t));
    lemma_blocks_show(order, tv, vis, tasks, next_id, next_path, phase, t);
    lemma_visible_holds(tasks, filter, query, tasks.len() as int, t as int);
    if vis.contains(t) {
        let k = choose|k: int| 0 <= k < vis.len() && vis[k] == t;
        lemma_first_seen_holds(tv, tv.len() as int, tv[k]);
        let i = choose|i: int| 0 <= i < order.len() && order[i] == tv[k];
        lemma_members_hold(tv, vis, order[i], tv.len() as int, t);
        assert(members(tv, vis, order[i], tv.len() as int).contains(t));
    }
    if exists|i: int| 0 <= i < order.len() && #[trigger] members(tv, vis, order[i], tv.len() as int).contains(t) {
        let i = choose|i: int| 0 <= i < order.len() && #[trigger] members(tv, vis, order[i], tv.len() as int).contains(t);
        lemma_members_hold(tv, vis, order[i], tv.len() as int, t);
        let k = choose|k: int| 0 <= k < tv.len() && tv[k] == order[i] && vis[k] == t;
        assert(vis.contains(t));
    }
}

} // verus!
