//! The outline that task lines form: a task's subtree is the lines below it
//! up to the next heading or the next task indented no deeper.
use vstd::prelude::*;
use crate::grammar::{lemma_checkbox_bounds, match_checkbox, match_heading, spec_checkbox, spec_heading};
use crate::lines::{strip_eol, strip_eol_chars, lemma_strip_eol_chars_prefix};
use crate::models::strings_view;
use crate::repository::{indent_width, lemma_indent_width_bound};
use crate::text::chars_of;

verus! {

/// What a line of a Markdown file is, for the outline.
#[derive(Debug, Clone, Copy, PartialEq, Eq)]
pub enum LineKind {
    Heading,
    Task(usize),
    Other,
}

/// The kind of a line (with or without its line ending): a heading, a task of
/// the given indentation width, or anything else.
pub open spec fn spec_line_kind(l: Seq<char>) -> LineKind {
    let s = strip_eol_chars(l);
    if spec_heading(s) is Some {
        LineKind::Heading
    } else {
        match spec_checkbox(s) {
            Some(m) => LineKind::Task(indent_width(s.subrange(0, m.indent_end as int)) as usize),
            None => LineKind::Other,
        }
    }
}

/// Every line is short enough for its indentation width to fit in a `usize`.
pub open spec fn lines_fit(ls: Seq<Seq<char>>) -> bool {
    forall|j: int| 0 <= j < ls.len() ==> (#[trigger] ls[j]).len() <= usize::MAX / 4
}

pub fn indent_width_of(s: &[char], end: usize) -> (w: usize)
    requires
        end <= s@.len() <= usize::MAX / 4,
    ensures
        w == indent_width(s@.subrange(0, end as int)),
{
    let mut w: usize = 0;
    let mut k: usize = 0;
    while k < end
        invariant
            k <= end <= s@.len() <= usize::MAX / 4,
            w == indent_width(s@.subrange(0, k as int)),
        decreases end - k,
    {
        proof {
            assert(s@.subrange(0, k + 1).drop_last() =~= s@.subrange(0, k as int));
            lemma_indent_width_bound(s@.subrange(0, k as int));
        }
        w = w + if s[k] == '\t' {
            4
        } else {
            1
        };
        k += 1;
    }
    w
}

pub fn line_kind(line: &str) -> (k: LineKind)
    requires
        line@.len() <= usize::MAX / 4,
    ensures
        k == spec_line_kind(line@),
{
    let chars = chars_of(line);
    let s = strip_eol(&chars);
    proof {
        lemma_strip_eol_chars_prefix(line@);
    }
    if match_heading(&s).is_some() {
        return LineKind::Heading;
    }
    match match_checkbox(&s) {
        Some(m) => {
            proof {
                lemma_checkbox_bounds(s@);
                lemma_indent_width_bound(s@.subrange(0, m.indent_end as int));
            }
            LineKind::Task(indent_width_of(&s, m.indent_end))
        },
        None => LineKind::Other,
    }
}

/// A line that ends the subtree of a task of width `indent`.
pub open spec fn ends_subtree(k: LineKind, indent: int) -> bool {
    match k {
        LineKind::Heading => true,
        LineKind::Task(w) => w <= indent,
        LineKind::Other => false,
    }
}

/// The first line at or after `j` that ends a subtree of width `indent`, or
/// the number of lines.
pub open spec fn subtree_end_from(ls: Seq<Seq<char>>, j: int, indent: int) -> int
    decreases ls.len() - j,
{
    if 0 <= j < ls.len() {
        if ends_subtree(spec_line_kind(ls[j]), indent) {
            j
        } else {
            subtree_end_from(ls, j + 1, indent)
        }
    } else {
        ls.len() as int
    }
}

/// The end (exclusive) of the subtree of the task at line `start`.
pub open spec fn spec_subtree_end(ls: Seq<Seq<char>>, start: int, indent: int) -> int {
    subtree_end_from(ls, start + 1, indent)
}

pub proof fn lemma_subtree_end_from(ls: Seq<Seq<char>>, j: int, indent: int)
    requires
        0 <= j,
    ensures
        j <= subtree_end_from(ls, j, indent) || subtree_end_from(ls, j, indent) == ls.len(),
        subtree_end_from(ls, j, indent) <= ls.len() || j > ls.len(),
        j <= ls.len() ==> j <= subtree_end_from(ls, j, indent) <= ls.len(),
        forall|k: int|
            j <= k < subtree_end_from(ls, j, indent) ==> !ends_subtree(
                #[trigger] spec_line_kind(ls[k]),
                indent,
            ),
        subtree_end_from(ls, j, indent) < ls.len() ==> ends_subtree(
            spec_line_kind(ls[subtree_end_from(ls, j, indent)]),
            indent,
        ),
    decreases ls.len() - j,
{
    if j < ls.len() && !ends_subtree(spec_line_kind(ls[j]), indent) {
        lemma_subtree_end_from(ls, j + 1, indent);
    }
}

/// The end (exclusive) of the subtree of the task at line `start`.
pub fn subtree_end(lines: &Vec<String>, start: usize, indent: usize) -> (end: usize)
    requires
        start < lines.len(),
        lines_fit(strings_view(lines@)),
    ensures
        end == spec_subtree_end(strings_view(lines@), start as int, indent as int),
        start < end <= lines@.len(),
{
    let ghost ls = strings_view(lines@);
    let mut j = start + 1;
    while j < lines.len()
        invariant
            start < j <= lines@.len(),
            ls == strings_view(lines@),
            lines_fit(ls),
            spec_subtree_end(ls, start as int, indent as int) == subtree_end_from(ls, j as int, indent as int),
        decreases lines.len() - j,
    {
        assert(ls[j as int] == lines@[j as int]@);
        let k = line_kind(lines[j].as_str());
        let stop = match k {
            LineKind::Heading => true,
            LineKind::Task(w) => w <= indent,
            LineKind::Other => false,
        };
        if stop {
            return j;
        }
        j += 1;
    }
    j
}

/// Scanning up from line `i - 1`: the nearest task of width `indent`, unless a
/// heading or a shallower task comes first.
pub open spec fn prev_sibling_from(ls: Seq<Seq<char>>, i: int, indent: int) -> Option<int>
    decreases i,
{
    if 0 < i <= ls.len() {
        match spec_line_kind(ls[i - 1]) {
            LineKind::Heading => None,
            LineKind::Task(w) => if w < indent {
                None
            } else if w == indent {
                Some(i - 1)
            } else {
                prev_sibling_from(ls, i - 1, indent)
            },
            LineKind::Other => prev_sibling_from(ls, i - 1, indent),
        }
    } else {
        None
    }
}

pub proof fn lemma_prev_sibling_from(ls: Seq<Seq<char>>, i: int, indent: int)
    ensures
        prev_sibling_from(ls, i, indent) matches Some(p) ==> 0 <= p < i && p < ls.len()
            && spec_line_kind(ls[p]) == LineKind::Task(indent as usize),
    decreases i,
{
    if 0 < i <= ls.len() {
        lemma_prev_sibling_from(ls, i - 1, indent);
    }
}

/// The line of the previous sibling of the task at line `start`.
pub fn previous_sibling_index(lines: &Vec<String>, start: usize, indent: usize) -> (r: Option<usize>)
    requires
        start <= lines@.len(),
        lines_fit(strings_view(lines@)),
    ensures
        r matches Some(p) ==> prev_sibling_from(strings_view(lines@), start as int, indent as int) == Some(p as int),
        r is None ==> prev_sibling_from(strings_view(lines@), start as int, indent as int) is None,
{
    let ghost ls = strings_view(lines@);
    let mut i = start;
    while i > 0
        invariant
            i <= start <= lines@.len(),
            ls == strings_view(lines@),
            lines_fit(ls),
            prev_sibling_from(ls, start as int, indent as int) == prev_sibling_from(ls, i as int, indent as int),
        decreases i,
    {
        assert(ls[i - 1] == lines@[i - 1]@);
        match line_kind(lines[i - 1].as_str()) {
            LineKind::Heading => {
                return None;
            },
            LineKind::Task(w) => {
                if w < indent {
                    return None;
                }
                if w == indent {
                    return Some(i - 1);
                }
            },
            LineKind::Other => {},
        }
        i -= 1;
    }
    None
}

/// The subtree of the task at line `start` runs to the first later line that
/// is a heading or a task indented no deeper; no line before that ends it,
/// whatever else it is (blank lines and text included).
pub proof fn law_subtree_end(ls: Seq<Seq<char>>, start: int, indent: int)
    requires
        0 <= start < ls.len(),
    ensures
        start < spec_subtree_end(ls, start, indent) <= ls.len(),
        forall|k: int|
            start < k < spec_subtree_end(ls, start, indent) ==> !(#[trigger] spec_line_kind(ls[k]) is Heading)
                && !(spec_line_kind(ls[k]) matches LineKind::Task(w) && w <= indent),
        spec_subtree_end(ls, start, indent) < ls.len() ==> ({
            let k = spec_line_kind(ls[spec_subtree_end(ls, start, indent)]);
            k is Heading || (k matches LineKind::Task(w) && w <= indent)
        }),
{
    lemma_subtree_end_from(ls, start + 1, indent);
    let e = spec_subtree_end(ls, start, indent);
    assert forall|k: int| start < k < e implies !(#[trigger] spec_line_kind(ls[k]) is Heading)
        && !(spec_line_kind(ls[k]) matches LineKind::Task(w) && w <= indent) by {
        assert(!ends_subtree(spec_line_kind(ls[k]), indent));
    }
    if e < ls.len() {
        assert(ends_subtree(spec_line_kind(ls[e]), indent));
    }
}

/// Lines `(p, i)` lie inside a sibling's subtree: no heading, and only tasks
/// indented deeper than `indent`.
pub open spec fn only_deeper_between(ls: Seq<Seq<char>>, p: int, i: int, indent: int) -> bool {
    forall|q: int|
        p < q < i ==> !(#[trigger] spec_line_kind(ls[q]) is Heading) && (spec_line_kind(ls[q]) matches LineKind::Task(
            w,
        ) ==> w > indent)
}

proof fn lemma_prev_sibling_iff(ls: Seq<Seq<char>>, i: int, indent: int, p: int)
    requires
        0 <= p < i <= ls.len(),
    ensures
        prev_sibling_from(ls, i, indent) == Some(p) <==> (spec_line_kind(ls[p]) matches LineKind::Task(w) && w
            == indent && only_deeper_between(ls, p, i, indent)),
    decreases i,
{
    lemma_prev_sibling_from(ls, i - 1, indent);
    if p < i - 1 {
        lemma_prev_sibling_iff(ls, i - 1, indent, p);
        let k = spec_line_kind(ls[i - 1]);
        if only_deeper_between(ls, p, i, indent) {
            assert(!(k is Heading));
            assert forall|q: int| p < q < i - 1 implies !(#[trigger] spec_line_kind(ls[q]) is Heading) && (
            spec_line_kind(ls[q]) matches LineKind::Task(w) ==> w > indent) by {}
        } else if only_deeper_between(ls, p, i - 1, indent) {
            assert(k is Heading || (k matches LineKind::Task(w) && w <= indent)) by {
                if !(k is Heading || (k matches LineKind::Task(w) && w <= indent)) {
                    assert forall|q: int| p < q < i implies !(#[trigger] spec_line_kind(ls[q]) is Heading) && (
                    spec_line_kind(ls[q]) matches LineKind::Task(w) ==> w > indent) by {
                        if q == i - 1 {
                        }
                    }
                }
            }
        }
    }
}

/// The previous sibling of the task at line `start` is the nearest earlier
/// task of the same indentation with no heading and no task indented no
/// deeper between them; lines of any other kind between do not matter. With
/// no such line there is none.
pub proof fn law_previous_sibling(ls: Seq<Seq<char>>, start: int, indent: int)
    requires
        0 <= start <= ls.len(),
    ensures
        forall|p: int|
            0 <= p < start ==> (prev_sibling_from(ls, start, indent) == Some(p) <==> (#[trigger] spec_line_kind(
                ls[p],
            ) matches LineKind::Task(w) && w == indent && only_deeper_between(ls, p, start, indent))),
        prev_sibling_from(ls, start, indent) matches Some(p) ==> 0 <= p < start,
{
    lemma_prev_sibling_from(ls, start, indent);
    assert forall|p: int| 0 <= p < start implies (prev_sibling_from(ls, start, indent) == Some(p) <==> (
    #[trigger] spec_line_kind(ls[p]) matches LineKind::Task(w) && w == indent && only_deeper_between(
        ls,
        p,
        start,
        indent,
    ))) by {
        lemma_prev_sibling_iff(ls, start, indent, p);
    }
}

} // verus!
