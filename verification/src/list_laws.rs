//! The task list shows every task at most once: each shown task belongs to
//! exactly one group, and a group lists its tasks once each.
use vstd::prelude::*;
use crate::models::{Task, TimerPhase};
use crate::rows::{
    blocks, entry_rows, first_seen, lemma_visible_bounded, members, source_rows, spec_rows, spec_titles,
    spec_visible, Row, SourceStatus, TaskFilter,
};

verus! {

/// The task a row shows, if it shows one.
pub open spec fn row_task(r: Row) -> Option<usize> {
    match r {
        Row::Entry { task, .. } => Some(task),
        _ => None,
    }
}

/// No task shows in two rows.
pub open spec fn each_task_once(rows: Seq<Row>) -> bool {
    forall|a: int, b: int|
        0 <= a < b < rows.len() && row_task(#[trigger] rows[a]) is Some ==> row_task(rows[a]) != row_task(
            #[trigger] rows[b],
        )
}

pub open spec fn increasing(v: Seq<usize>) -> bool {
    forall|a: int, b: int| 0 <= a < b < v.len() ==> #[trigger] v[a] < #[trigger] v[b]
}

proof fn lemma_visible_increasing(tasks: Seq<Task>, filter: TaskFilter, query: Seq<char>, n: int)
    requires
        0 <= n <= tasks.len(),
        tasks.len() <= usize::MAX,
    ensures
        increasing(spec_visible(tasks, filter, query, n)),
    decreases n,
{
    if n > 0 {
        lemma_visible_increasing(tasks, filter, query, n - 1);
        lemma_visible_bounded(tasks, filter, query, n - 1);
        let prev = spec_visible(tasks, filter, query, n - 1);
        let cur = spec_visible(tasks, filter, query, n);
        assert forall|a: int, b: int| 0 <= a < b < cur.len() implies #[trigger] cur[a] < #[trigger] cur[b] by {
            assert(cur[a] == prev[a]);
            if b < prev.len() {
                assert(cur[b] == prev[b]);
            } else {
                assert(cur[b] == (n - 1) as usize);
                assert(prev[a] < n - 1);
            }
        }
    }
}

/// The members of a group are shown tasks with the group's title, in
/// increasing order.
proof fn lemma_members(tv: Seq<Seq<char>>, vis: Seq<usize>, h: Seq<char>, n: int)
    requires
        0 <= n <= vis.len(),
        n <= tv.len(),
        increasing(vis),
    ensures
        increasing(members(tv, vis, h, n)),
        forall|j: int|
            0 <= j < members(tv, vis, h, n).len() ==> exists|k: int|
                0 <= k < n && vis[k] == #[trigger] members(tv, vis, h, n)[j] && tv[k] == h,
    decreases n,
{
    if n > 0 {
        lemma_members(tv, vis, h, n - 1);
        let p = members(tv, vis, h, n - 1);
        let m = members(tv, vis, h, n);
        if tv[n - 1] == h {
            assert(m == p.push(vis[n - 1]));
            assert forall|a: int, b: int| 0 <= a < b < m.len() implies #[trigger] m[a] < #[trigger] m[b] by {
                assert(m[a] == p[a]);
                if b < p.len() {
                    assert(m[b] == p[b]);
                } else {
                    let k = choose|k: int| 0 <= k < n - 1 && vis[k] == #[trigger] p[a] && tv[k] == h;
                    assert(vis[k] < vis[n - 1]);
                }
            }
            assert forall|j: int| 0 <= j < m.len() implies exists|k: int|
                0 <= k < n && vis[k] == #[trigger] m[j] && tv[k] == h by {
                if j < p.len() {
                    assert(m[j] == p[j]);
                    let k = choose|k: int| 0 <= k < n - 1 && vis[k] == #[trigger] p[j] && tv[k] == h;
                    assert(0 <= k < n && vis[k] == m[j] && tv[k] == h);
                } else {
                    assert(vis[n - 1] == m[j] && tv[n - 1] == h);
                }
            }
        } else {
            assert(m == p);
            assert forall|j: int| 0 <= j < m.len() implies exists|k: int|
                0 <= k < n && vis[k] == #[trigger] m[j] && tv[k] == h by {
                let k = choose|k: int| 0 <= k < n - 1 && vis[k] == #[trigger] p[j] && tv[k] == h;
                assert(0 <= k < n && vis[k] == m[j] && tv[k] == h);
            }
        }
    }
}

pub open spec fn distinct_titles(order: Seq<Seq<char>>) -> bool {
    forall|a: int, b: int| 0 <= a < b < order.len() ==> #[trigger] order[a] != #[trigger] order[b]
}

proof fn lemma_first_seen_distinct(tv: Seq<Seq<char>>, n: int)
    requires
        0 <= n <= tv.len(),
    ensures
        distinct_titles(first_seen(tv, n)),
    decreases n,
{
    if n > 0 {
        lemma_first_seen_distinct(tv, n - 1);
        let p = first_seen(tv, n - 1);
        let f = first_seen(tv, n);
        if !p.contains(tv[n - 1]) {
            assert(f == p.push(tv[n - 1]));
            assert forall|a: int, b: int| 0 <= a < b < f.len() implies #[trigger] f[a] != #[trigger] f[b] by {
                assert(f[a] == p[a]);
                if b < p.len() {
                    assert(f[b] == p[b]);
                } else if f[a] == f[b] {
                    assert(p.contains(tv[n - 1]));
                }
            }
        }
    }
}

/// The groups show each task at most once, and each task they show is a
/// shown task whose title is one of the groups'.
proof fn lemma_blocks_once(
    order: Seq<Seq<char>>,
    tv: Seq<Seq<char>>,
    vis: Seq<usize>,
    tasks: Seq<Task>,
    next_id: Option<Seq<char>>,
    next_path: Option<Seq<char>>,
    phase: TimerPhase,
)
    requires
        distinct_titles(order),
        increasing(vis),
        tv.len() == vis.len(),
    ensures
        ({
            let bs = blocks(order, tv, vis, tasks, next_id, next_path, phase);
            &&& each_task_once(bs)
            &&& forall|j: int|
                0 <= j < bs.len() && row_task(#[trigger] bs[j]) is Some ==> exists|k: int|
                    0 <= k < vis.len() && Some(vis[k]) == row_task(bs[j]) && order.contains(tv[k])
        }),
    decreases order.len(),
{
    let bs = blocks(order, tv, vis, tasks, next_id, next_path, phase);
    if order.len() == 0 {
        assert(bs =~= Seq::<Row>::empty());
    } else {
        let init = order.drop_last();
        let h = order.last();
        assert(distinct_titles(init)) by {
            assert forall|a: int, b: int| 0 <= a < b < init.len() implies #[trigger] init[a] != #[trigger] init[b] by {
                assert(init[a] == order[a] && init[b] == order[b]);
            }
        }
        assert(!init.contains(h)) by {
            if init.contains(h) {
                let a = choose|a: int| 0 <= a < init.len() && init[a] == h;
                assert(order[a] == init[a]);
                assert(order[order.len() - 1] == h);
            }
        }
        lemma_blocks_once(init, tv, vis, tasks, next_id, next_path, phase);
        let b0 = blocks(init, tv, vis, tasks, next_id, next_path, phase);
        let m = members(tv, vis, h, tv.len() as int);
        lemma_members(tv, vis, h, tv.len() as int);
        let er = entry_rows(m, tasks, next_id, next_path, phase);
        let hd = seq![Row::Heading { first: if m.len() > 0 { m[0] } else { 0 }, count: m.len() as usize }];
        let bl = hd + er;
        assert(bs == b0 + bl);
        assert forall|j: int| 0 <= j < bl.len() && row_task(#[trigger] bl[j]) is Some implies j >= 1 && row_task(
            bl[j],
        ) == Some(m[j - 1]) by {
            if j >= 1 {
                assert(bl[j] == er[j - 1]);
            }
        }
        assert forall|j: int| 0 <= j < init.len() implies order.contains(#[trigger] init[j]) by {
            assert(order[j] == init[j]);
        }
        assert(order.contains(h)) by {
            assert(order[order.len() - 1] == h);
        }
        assert forall|j: int|
            0 <= j < bs.len() && row_task(#[trigger] bs[j]) is Some implies exists|k: int|
                0 <= k < vis.len() && Some(vis[k]) == row_task(bs[j]) && order.contains(tv[k]) by {
            if j < b0.len() {
                assert(bs[j] == b0[j]);
                let k = choose|k: int|
                    0 <= k < vis.len() && Some(vis[k]) == row_task(b0[j]) && init.contains(tv[k]);
                let a = choose|a: int| 0 <= a < init.len() && init[a] == tv[k];
                assert(order.contains(init[a]));
            } else {
                assert(bs[j] == bl[j - b0.len()]);
                let q = j - b0.len() - 1;
                let k = choose|k: int| 0 <= k < tv.len() && vis[k] == #[trigger] m[q] && tv[k] == h;
                assert(Some(vis[k]) == row_task(bs[j]));
            }
        }
        assert forall|a: int, b: int|
            0 <= a < b < bs.len() && row_task(#[trigger] bs[a]) is Some implies row_task(bs[a]) != row_task(
                #[trigger] bs[b],
            ) by {
            if row_task(bs[a]) == row_task(bs[b]) {
                if b < b0.len() {
                    assert(bs[a] == b0[a] && bs[b] == b0[b]);
                } else if a >= b0.len() {
                    assert(bs[a] == bl[a - b0.len()] && bs[b] == bl[b - b0.len()]);
                    assert(m[a - b0.len() - 1] < m[b - b0.len() - 1]);
                } else {
                    assert(bs[a] == b0[a]);
                    assert(bs[b] == bl[b - b0.len()]);
                    let k1 = choose|k: int|
                        0 <= k < vis.len() && Some(vis[k]) == row_task(b0[a]) && init.contains(tv[k]);
                    let q = b - b0.len() - 1;
                    let k2 = choose|k: int| 0 <= k < tv.len() && vis[k] == #[trigger] m[q] && tv[k] == h;
                    assert(vis[k1] == vis[k2]);
                    if k1 < k2 {
                        assert(vis[k1] < vis[k2]);
                    } else if k2 < k1 {
                        assert(vis[k2] < vis[k1]);
                    }
                    assert(init.contains(h));
                }
            }
        }
    }
}

proof fn lemma_source_rows_no_task(sources: Seq<SourceStatus>, view: Option<usize>, n: int)
    requires
        n <= sources.len(),
    ensures
        forall|j: int| 0 <= j < source_rows(sources, view, n).len() ==> row_task(
            #[trigger] source_rows(sources, view, n)[j],
        ) is None,
    decreases n,
{
    if n > 0 {
        lemma_source_rows_no_task(sources, view, n - 1);
        let p = source_rows(sources, view, n - 1);
        let c = source_rows(sources, view, n);
        assert forall|j: int| 0 <= j < c.len() implies row_task(#[trigger] c[j]) is None by {
            if j < p.len() {
                assert(c[j] == p[j]);
            }
        }
    }
}

/// The list shows each task in at most one row, whatever the filter, the
/// search, the view, the warnings and the state of the sources.
pub proof fn law_list_shows_each_task_once(
    tasks: Seq<Task>,
    labels: Seq<Seq<char>>,
    filter: TaskFilter,
    query: Seq<char>,
    warnings: nat,
    sources: Seq<SourceStatus>,
    view: Option<usize>,
    next_id: Option<Seq<char>>,
    next_path: Option<Seq<char>>,
    phase: TimerPhase,
)
    requires
        tasks.len() <= usize::MAX,
    ensures
        each_task_once(spec_rows(tasks, labels, filter, query, warnings, sources, view, next_id, next_path, phase)),
{
    let vis = spec_visible(tasks, filter, query, tasks.len() as int);
    let aggregate = view is None && sources.len() > 1;
    let tv = spec_titles(tasks, labels, vis, aggregate);
    let order = first_seen(tv, tv.len() as int);
    let warn = Seq::new(warnings, |i: int| Row::Warning(i as usize));
    let srcs = source_rows(sources, view, sources.len() as int);
    let bs = blocks(order, tv, vis, tasks, next_id, next_path, phase);
    let rows = spec_rows(tasks, labels, filter, query, warnings, sources, view, next_id, next_path, phase);
    assert(rows == warn + srcs + bs);
    lemma_visible_increasing(tasks, filter, query, tasks.len() as int);
    lemma_first_seen_distinct(tv, tv.len() as int);
    lemma_blocks_once(order, tv, vis, tasks, next_id, next_path, phase);
    lemma_source_rows_no_task(sources, view, sources.len() as int);
    let pre = warn + srcs;
    assert forall|j: int| 0 <= j < pre.len() implies row_task(#[trigger] pre[j]) is None by {
        if j >= warn.len() {
            assert(pre[j] == srcs[j - warn.len()]);
        }
    }
    assert forall|a: int, b: int|
        0 <= a < b < rows.len() && row_task(#[trigger] rows[a]) is Some implies row_task(rows[a]) != row_task(
            #[trigger] rows[b],
        ) by {
        if a < pre.len() {
            assert(rows[a] == pre[a]);
        } else {
            assert(rows[a] == bs[a - pre.len()]);
            assert(rows[b] == bs[b - pre.len()]);
        }
    }
}

} // verus!
