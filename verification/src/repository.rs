//! Tasks of one Markdown source: reading them from its text and locating and
//! editing them in its lines.
use vstd::prelude::*;
use crate::body::{metadata_matches, parse_task_body, spec_body_task_id, spec_body_text};
use crate::grammar::{copy_range, match_checkbox, match_heading, spec_checkbox, spec_heading, lemma_checkbox_bounds};
use crate::lines::{segments, split_segments, strip_ending, strip_line_ending, text_lines};
use crate::models::{opt_view, Task};
use crate::text::{chars_of, string_of, trim, trim_bounds};

verus! {

/// The width of an indentation: a tab counts four columns, any other
/// character one.
pub open spec fn indent_width(s: Seq<char>) -> nat
    decreases s.len(),
{
    if s.len() == 0 {
        0
    } else {
        indent_width(s.drop_last()) + if s.last() == '\t' {
            4nat
        } else {
            1nat
        }
    }
}

pub proof fn lemma_indent_width_bound(s: Seq<char>)
    ensures
        s.len() <= indent_width(s) <= 4 * s.len(),
    decreases s.len(),
{
    if s.len() > 0 {
        lemma_indent_width_bound(s.drop_last());
    }
}

/// `t` is the task that the task line `line` (without line ending) describes.
pub open spec fn task_from_line(
    t: Task,
    path: Seq<char>,
    line: Seq<char>,
    n: int,
    heading: Option<Seq<char>>,
) -> bool {
    spec_checkbox(line) matches Some(m) && {
        let body = line.subrange(m.body_start as int, line.len() as int);
        &&& t.source_path@ == path
        &&& t.line_number == n
        &&& t.text@ == spec_body_text(body)
        &&& t.checked == (line[m.mark_pos()] == 'x' || line[m.mark_pos()] == 'X')
        &&& opt_view(t.heading) == heading
        &&& opt_view(t.task_id) == spec_body_task_id(body)
        &&& t.indent == indent_width(line.subrange(0, m.indent_end as int))
        &&& metadata_matches(t.metadata, body)
    }
}

/// The trimmed text of a heading line.
pub open spec fn heading_text(line: Seq<char>) -> Seq<char> {
    let span = spec_heading(line)->0;
    trim(line.subrange(span.0, span.1))
}

/// The heading in force at line `i`: that of the last heading line before it.
pub open spec fn heading_before(lines: Seq<Seq<char>>, i: int) -> Option<Seq<char>>
    decreases i,
{
    if i <= 0 || i > lines.len() {
        None
    } else if spec_heading(lines[i - 1]) is Some {
        Some(heading_text(lines[i - 1]))
    } else {
        heading_before(lines, i - 1)
    }
}

pub open spec fn is_task_line(line: Seq<char>) -> bool {
    spec_heading(line) is None && spec_checkbox(line) is Some
}

/// The indices of the task lines among the first `i` lines.
pub open spec fn task_indices(lines: Seq<Seq<char>>, i: int) -> Seq<int>
    decreases i,
{
    if i <= 0 || i > lines.len() {
        Seq::empty()
    } else if is_task_line(lines[i - 1]) {
        task_indices(lines, i - 1).push(i - 1)
    } else {
        task_indices(lines, i - 1)
    }
}

/// The tasks of a text: one per task line, in order, each with its 1-based
/// line number and the heading above it.
pub open spec fn tasks_of_text(tasks: Seq<Task>, path: Seq<char>, source: Seq<char>) -> bool {
    let ls = text_lines(source);
    let idx = task_indices(ls, ls.len() as int);
    &&& tasks.len() == idx.len()
    &&& forall|k: int|
        0 <= k < tasks.len() ==> task_from_line(
            #[trigger] tasks[k],
            path,
            ls[idx[k]],
            idx[k] + 1,
            heading_before(ls, idx[k]),
        )
}

/// The tasks of one Markdown file, read from and written to by the caller.
#[derive(Debug, Clone)]
pub struct MarkdownTaskRepository {
    path: String,
}

impl MarkdownTaskRepository {
    pub closed spec fn spec_path(&self) -> Seq<char> {
        self.path@
    }

    /// A repository for the file at `path`, which is already absolute.
    pub fn new(path: String) -> (r: Self)
        ensures
            r.spec_path() == path@,
    {
        MarkdownTaskRepository { path }
    }

    pub fn path(&self) -> (p: &str)
        ensures
            p@ == self.spec_path(),
    {
        self.path.as_str()
    }

    /// The task that a line describes, if it is a task line.
    pub fn parse_task_line_chars(&self, line: &[char], line_number: usize, heading: Option<String>) -> (r: Option<Task>)
        requires
            line@.len() <= usize::MAX / 4,
        ensures
            r is Some <==> spec_checkbox(line@) is Some,
            r matches Some(t) ==> task_from_line(t, self.spec_path(), line@, line_number as int, opt_view(heading)),
    {
        let m = match match_checkbox(line) {
            Some(m) => m,
            None => {
                return None;
            },
        };
        proof {
            lemma_checkbox_bounds(line@);
        }
        let mut indent: usize = 0;
        let mut k: usize = 0;
        while k < m.indent_end
            invariant
                k <= m.indent_end <= line@.len() <= usize::MAX / 4,
                indent == indent_width(line@.subrange(0, k as int)),
            decreases m.indent_end - k,
        {
            proof {
                assert(line@.subrange(0, k + 1).drop_last() =~= line@.subrange(0, k as int));
                lemma_indent_width_bound(line@.subrange(0, k as int));
            }
            indent = indent + if line[k] == '\t' {
                4
            } else {
                1
            };
            k += 1;
        }
        let body = copy_range(line, m.body_start, line.len());
        let (text, task_id, metadata) = parse_task_body(&body);
        let mark = line[m.gap_end + 1];
        Some(
            Task {
                source_path: string_of(&chars_of(self.path.as_str())),
                line_number,
                text,
                checked: mark == 'x' || mark == 'X',
                heading,
                task_id,
                indent,
                metadata,
            },
        )
    }

    /// The task that a line describes, if it is a task line.
    pub fn parse_task_line(&self, line: &str, line_number: usize, heading: Option<String>) -> (r: Option<Task>)
        requires
            line@.len() <= usize::MAX / 4,
        ensures
            r is Some <==> spec_checkbox(line@) is Some,
            r matches Some(t) ==> task_from_line(t, self.spec_path(), line@, line_number as int, opt_view(heading)),
    {
        let chars = chars_of(line);
        self.parse_task_line_chars(&chars, line_number, heading)
    }

    /// The tasks of a Markdown text, in order.
    pub fn parse_tasks(&self, source: &str) -> (tasks: Vec<Task>)
        requires
            source@.len() <= usize::MAX / 4,
        ensures
            tasks_of_text(tasks@, self.spec_path(), source@),
    {
        let chars = chars_of(source);
        let segs = split_segments(&chars);
        let ghost ls = text_lines(source@);
        let mut heading: Option<String> = None;
        let mut tasks: Vec<Task> = Vec::new();
        let mut i: usize = 0;
        proof {
            lemma_segments_total_len(source@);
        }
        while i < segs.len()
            invariant
                i <= segs@.len(),
                chars@ == source@,
                source@.len() <= usize::MAX / 4,
                ls == text_lines(source@),
                segs@.len() == segments(source@).len(),
                ls.len() == segs@.len(),
                forall|j: int| 0 <= j < segs@.len() ==> (#[trigger] segs@[j])@ == segments(source@)[j],
                forall|j: int| 0 <= j < segs@.len() ==> (#[trigger] segments(source@)[j]).len() <= source@.len(),
                opt_view(heading) == heading_before(ls, i as int),
                tasks@.len() == task_indices(ls, i as int).len(),
                forall|k: int|
                    0 <= k < tasks@.len() ==> task_from_line(
                        #[trigger] tasks@[k],
                        self.spec_path(),
                        ls[task_indices(ls, i as int)[k]],
                        task_indices(ls, i as int)[k] + 1,
                        heading_before(ls, task_indices(ls, i as int)[k]),
                    ),
                forall|k: int| 0 <= k < task_indices(ls, i as int).len() ==> 0 <= #[trigger] task_indices(ls, i as int)[k] < i,
            decreases segs.len() - i,
        {
            let line = strip_ending(&segs[i]);
            assert(line@ == ls[i as int]);
            proof {
                assert(line@.len() <= segs@[i as int]@.len());
            }
            let ghost prev_idx = task_indices(ls, i as int);
            match match_heading(&line) {
                Some((a, b)) => {
                    let (x, y) = trim_bounds(&line, a, b);
                    heading = Some(string_of(&copy_range(&line, x, y)));
                    assert(task_indices(ls, i + 1) == prev_idx);
                },
                None => {
                    let parsed = self.parse_task_line_chars(&line, i + 1, heading.clone());
                    match parsed {
                        Some(t) => {
                            assert(task_indices(ls, i + 1) == prev_idx.push(i as int));
                            tasks.push(t);
                        },
                        None => {
                            assert(task_indices(ls, i + 1) == prev_idx);
                        },
                    }
                    assert(heading_before(ls, i + 1) == heading_before(ls, i as int));
                },
            }
            i += 1;
        }
        tasks
    }
}

impl MarkdownTaskRepository {
    /// The task at a 1-based line number of a text, under the heading in force
    /// there, or `fallback_heading` when no heading comes before it.
    pub fn task_at(&self, source: &str, line_number: usize, fallback_heading: Option<String>) -> (r: Option<Task>)
        requires
            source@.len() <= usize::MAX / 4,
            line_number > 0,
        ensures
            ({
                let ls = text_lines(source@);
                let h = match heading_before(ls, line_number as int) {
                    Some(h) => Some(h),
                    None => opt_view(fallback_heading),
                };
                &&& r is Some <==> (line_number <= ls.len() && spec_checkbox(ls[line_number - 1]) is Some)
                &&& r matches Some(t) ==> task_from_line(t, self.spec_path(), ls[line_number - 1], line_number as int, h)
            }),
    {
        let chars = chars_of(source);
        let segs = split_segments(&chars);
        let ghost ls = text_lines(source@);
        proof {
            lemma_segments_total_len(source@);
        }
        let mut heading: Option<String> = None;
        let mut i: usize = 0;
        while i < segs.len() && i < line_number
            invariant
                i <= segs@.len(),
                i <= line_number,
                chars@ == source@,
                ls == text_lines(source@),
                segs@.len() == segments(source@).len(),
                ls.len() == segs@.len(),
                forall|j: int| 0 <= j < segs@.len() ==> (#[trigger] segs@[j])@ == segments(source@)[j],
                opt_view(heading) == heading_before(ls, i as int),
            decreases segs.len() - i,
        {
            let line = strip_ending(&segs[i]);
            assert(line@ == ls[i as int]);
            match match_heading(&line) {
                Some((a, b)) => {
                    let (x, y) = trim_bounds(&line, a, b);
                    heading = Some(string_of(&copy_range(&line, x, y)));
                },
                None => {},
            }
            i += 1;
        }
        if line_number > segs.len() {
            return None;
        }
        let line = strip_ending(&segs[line_number - 1]);
        assert(line@ == ls[line_number - 1]);
        proof {
            lemma_segments_total_len(source@);
            assert(segs@[line_number - 1]@.len() <= source@.len());
        }
        let h = match heading {
            Some(h) => Some(h),
            None => fallback_heading,
        };
        self.parse_task_line_chars(&line, line_number, h)
    }
}

pub proof fn lemma_segments_total_len(s: Seq<char>)
    ensures
        forall|j: int| 0 <= j < segments(s).len() ==> (#[trigger] segments(s)[j]).len() <= s.len(),
{
    lemma_segments_from_len(s, 0);
}

pub proof fn lemma_segments_from_len(s: Seq<char>, i: int)
    requires
        0 <= i,
    ensures
        forall|j: int| 0 <= j < crate::lines::segments_from(s, i).len() ==> (#[trigger] crate::lines::segments_from(s, i)[j]).len() <= s.len(),
    decreases s.len() - i,
{
    if 0 <= i < s.len() {
        let k = crate::lines::line_feed_from(s, i);
        crate::lines::lemma_line_feed_from(s, i);
        if k < s.len() {
            lemma_segments_from_len(s, k + 1);
            let rest = crate::lines::segments_from(s, k + 1);
            assert forall|j: int| 0 < j < crate::lines::segments_from(s, i).len() implies #[trigger] crate::lines::segments_from(s, i)[j] == rest[j - 1] by {}
        }
    }
}

} // verus!
