//! The changes Focus Pane makes to the lines of a Markdown file. Each one
//! first finds its task again and refuses when the task changed; each changes
//! only the lines it is about.
use vstd::prelude::*;
use crate::edits::{
    clean_task_text, edited_body, indent_line, remove_indent_columns, spec_clean_text,
    spec_edited_body, spec_indent_line, spec_remove_indent, spec_toggle_mark,
    spec_update_metadata, spec_with_id, splice, splice_chars, toggle_mark,
    update_focus_metadata, with_id_comment, append_chars, id_comment,
};
use crate::grammar::{copy_range, lemma_checkbox_bounds, match_checkbox, spec_checkbox};
use crate::ids::{is_stable_id, new_task_id};
use crate::lines::{lemma_strip_eol_chars_prefix, strip_eol, strip_eol_chars};
use crate::locate::{
    line_task, line_task_view, locate_unchanged_task, spec_locate_unchanged, ConflictReason,
    LineTask, MarkdownConflict,
};
use crate::models::{strings_view, Task};
use crate::numbers::{decimal, spec_decimal};
use crate::outline::{
    line_kind, lines_fit, prev_sibling_from, previous_sibling_index, spec_line_kind,
    spec_subtree_end, subtree_end, LineKind,
};
use crate::repository::MarkdownTaskRepository;
use crate::text::{chars_of, string_of};

verus! {

/// Why a change to a Markdown file was not made.
#[derive(Debug, Clone, PartialEq, Eq)]
pub enum MarkdownError {
    /// The new task text is empty once cleaned.
    EmptyText,
    /// An estimate of zero Pomodoros was asked for.
    ZeroEstimate,
    /// Moving or indenting needs a task with a stable id.
    MissingStableId,
    /// The task changed in its file.
    Conflict(MarkdownConflict),
}

#[derive(Debug, Clone, Copy, PartialEq, Eq)]
pub enum MoveDirection {
    Up,
    Down,
}

#[derive(Debug, Clone, Copy, PartialEq, Eq)]
pub enum IndentDirection {
    Increase,
    Decrease,
}

/// The error for a task that changed, with the reason.
pub open spec fn conflict_is(e: MarkdownError, reason: ConflictReason) -> bool {
    e matches MarkdownError::Conflict(c) && c.reason == reason
}

/// The body span of a task line (its body starts after the checkbox and ends
/// where the line ending starts).
pub open spec fn body_span(l: Seq<char>) -> (int, int) {
    let s = strip_eol_chars(l);
    (spec_checkbox(s)->0.body_start as int, s.len() as int)
}

/// The line with its task body rewritten by `f`.
pub open spec fn with_body(l: Seq<char>, new_body: Seq<char>) -> Seq<char> {
    let (a, b) = body_span(l);
    splice(l, a, b, new_body)
}

pub open spec fn body_of(l: Seq<char>) -> Seq<char> {
    let (a, b) = body_span(l);
    l.subrange(a, b)
}

/// The position of the checkbox mark of a task line.
pub open spec fn mark_of(l: Seq<char>) -> int {
    match line_task(l) {
        Some(t) => t.4,
        None => 0,
    }
}

pub open spec fn new_task_line(text: Seq<char>, id: Seq<char>) -> Seq<char> {
    seq!['-', ' ', '[', ' ', ']', ' '] + text + id_comment(id) + seq!['\n']
}

/// The lines after appending a task: a `# Tasks` heading and a blank line
/// first for a file that does not exist, a line ending added to an unfinished
/// last line, then the new task line.
pub open spec fn spec_added(ls: Seq<Seq<char>>, exists: bool, text: Seq<char>, id: Seq<char>) -> Seq<Seq<char>> {
    let base = if exists {
        ls
    } else {
        ls.push(seq!['#', ' ', 'T', 'a', 's', 'k', 's', '\n']).push(seq!['\n'])
    };
    let fixed = if base.len() > 0 && !(base.last().len() > 0 && base.last().last() == '\n') {
        base.update(base.len() - 1, base.last().push('\n'))
    } else {
        base
    };
    fixed.push(new_task_line(text, id))
}

/// `ls[..a] + ls[b..c] + ls[a..b] + ls[c..]`: the block `[a, b)` moved after
/// the block `[b, c)`.
pub open spec fn swap_blocks(ls: Seq<Seq<char>>, a: int, b: int, c: int) -> Seq<Seq<char>> {
    ls.subrange(0, a) + ls.subrange(b, c) + ls.subrange(a, b) + ls.subrange(c, ls.len() as int)
}

/// The lines `[from, to)` indented by two spaces, blank ones kept.
pub open spec fn indent_range(ls: Seq<Seq<char>>, from: int, to: int) -> Seq<Seq<char>> {
    Seq::new(ls.len(), |j: int| if from <= j < to { spec_indent_line(ls[j]) } else { ls[j] })
}

/// The lines `[from, to)` with `columns` columns of indentation removed.
pub open spec fn outdent_range(ls: Seq<Seq<char>>, from: int, to: int, columns: int) -> Seq<Seq<char>> {
    Seq::new(ls.len(), |j: int| if from <= j < to { spec_remove_indent(ls[j], columns) } else { ls[j] })
}

/// The line that `insert_after` adds: the indentation, bullet and spacing of
/// the task's line, an open checkbox, the text and a new id, and the line
/// ending of the task's line (`\n` when it has none).
pub open spec fn sibling_line(l: Seq<char>, text: Seq<char>, id: Seq<char>) -> Seq<char> {
    let s = strip_eol_chars(l);
    let m = spec_checkbox(s)->0;
    let nl = if l.len() >= 2 && l[l.len() - 2] == '\r' && l[l.len() - 1] == '\n' {
        seq!['\r', '\n']
    } else {
        seq!['\n']
    };
    s.subrange(0, m.gap_end as int) + seq!['[', ' ', ']'] + s.subrange(m.gap_end + 3, m.body_start as int)
        + text + id_comment(id) + nl
}

pub open spec fn ends_with_line_feed(l: Seq<char>) -> bool {
    l.len() > 0 && l.last() == '\n'
}

/// The lines after inserting `line` at `at`, with a line ending `nl` first
/// added to an unfinished line before it.
pub open spec fn spec_inserted(ls: Seq<Seq<char>>, at: int, line: Seq<char>, nl: Seq<char>) -> Seq<Seq<char>> {
    let fixed = if at > 0 && !ends_with_line_feed(ls[at - 1]) {
        ls.update(at - 1, ls[at - 1] + nl)
    } else {
        ls
    };
    fixed.insert(at, line)
}

pub open spec fn crlf_or_lf(l: Seq<char>) -> Seq<char> {
    if l.len() >= 2 && l[l.len() - 2] == '\r' && l[l.len() - 1] == '\n' {
        seq!['\r', '\n']
    } else {
        seq!['\n']
    }
}

fn string_chars(s: &String) -> (v: Vec<char>)
    ensures
        v@ == s@,
{
    chars_of(s.as_str())
}

fn ends_with_lf(s: &String) -> (b: bool)
    ensures
        b == ends_with_line_feed(s@),
{
    let v = string_chars(s);
    v.len() > 0 && v[v.len() - 1] == '\n'
}

fn copy_lines(lines: &Vec<String>, from: usize, to: usize, out: &mut Vec<String>)
    requires
        from <= to <= lines@.len(),
    ensures
        strings_view(final(out)@) == strings_view(old(out)@) + strings_view(lines@).subrange(from as int, to as int),
{
    let ghost start = strings_view(out@);
    let mut j = from;
    while j < to
        invariant
            from <= j <= to <= lines@.len(),
            strings_view(out@) == start + strings_view(lines@).subrange(from as int, j as int),
        decreases to - j,
    {
        let ghost before = strings_view(out@);
        out.push(lines[j].clone());
        proof {
            assert(strings_view(out@) =~= before.push(lines@[j as int]@));
            assert(start + strings_view(lines@).subrange(from as int, j + 1) =~= (start
                + strings_view(lines@).subrange(from as int, j as int)).push(lines@[j as int]@));
        }
        j += 1;
    }
}

impl MarkdownTaskRepository {
    fn conflict(&self, task: &Task, reason: ConflictReason) -> (e: MarkdownError)
        ensures
            conflict_is(e, reason),
    {
        MarkdownError::Conflict(
            MarkdownConflict {
                path: string_of(&chars_of(self.path())),
                task_text: task.text.clone(),
                reason,
            },
        )
    }

    fn locate(&self, lines: &Vec<String>, task: &Task) -> (r: Result<(usize, LineTask), MarkdownError>)
        requires
            lines_fit(strings_view(lines@)),
        ensures
            match r {
                Ok((i, t)) => spec_locate_unchanged(strings_view(lines@), *task) == Ok::<int, ConflictReason>(i as int)
                    && i < lines@.len()
                    && line_task(lines@[i as int]@) == Some(line_task_view(t))
                    && t.mark_pos < strip_eol_chars(lines@[i as int]@).len(),
                Err(e) => spec_locate_unchanged(strings_view(lines@), *task) matches Err(reason) && conflict_is(e, reason),
            },
    {
        match locate_unchanged_task(lines, task) {
            Ok(found) => Ok(found),
            Err(reason) => Err(self.conflict(task, reason)),
        }
    }

    /// Flips the checkbox of a task. The result is the task's line index.
    pub fn toggle(&self, lines: &mut Vec<String>, task: &Task) -> (r: Result<usize, MarkdownError>)
        requires
            lines_fit(strings_view(old(lines)@)),
        ensures
            match r {
                Ok(i) => spec_locate_unchanged(strings_view(old(lines)@), *task) == Ok::<int, ConflictReason>(i as int)
                    && strings_view(final(lines)@) == strings_view(old(lines)@).update(
                        i as int,
                        spec_toggle_mark(old(lines)@[i as int]@, mark_of(old(lines)@[i as int]@)),
                    ),
                Err(e) => spec_locate_unchanged(strings_view(old(lines)@), *task) matches Err(reason)
                    && conflict_is(e, reason) && final(lines)@ == old(lines)@,
            },
    {
        let (i, t) = self.locate(lines, task)?;
        let chars = string_chars(&lines[i]);
        proof {
            lemma_strip_eol_chars_prefix(chars@);
        }
        let flipped = toggle_mark(&chars, t.mark_pos);
        let ghost before = strings_view(lines@);
        lines.set(i, string_of(&flipped));
        proof {
            assert(strings_view(lines@) =~= before.update(i as int, flipped@));
        }
        Ok(i)
    }

    /// Removes the line of a task.
    pub fn delete(&self, lines: &mut Vec<String>, task: &Task) -> (r: Result<usize, MarkdownError>)
        requires
            lines_fit(strings_view(old(lines)@)),
        ensures
            match r {
                Ok(i) => spec_locate_unchanged(strings_view(old(lines)@), *task) == Ok::<int, ConflictReason>(i as int)
                    && strings_view(final(lines)@) == strings_view(old(lines)@).remove(i as int),
                Err(e) => spec_locate_unchanged(strings_view(old(lines)@), *task) matches Err(reason)
                    && conflict_is(e, reason) && final(lines)@ == old(lines)@,
            },
    {
        let (i, _t) = self.locate(lines, task)?;
        let ghost before = strings_view(lines@);
        lines.remove(i);
        proof {
            assert(strings_view(lines@) =~= before.remove(i as int));
        }
        Ok(i)
    }

    /// Gives a task without a stable id a new one, written at the end of its
    /// line. The result is the line index and the new id, if one was added.
    pub fn ensure_id(&self, lines: &mut Vec<String>, task: &Task) -> (r: Result<(usize, Option<String>), MarkdownError>)
        requires
            lines_fit(strings_view(old(lines)@)),
        ensures
            match r {
                Ok((i, added)) => spec_locate_unchanged(strings_view(old(lines)@), *task) == Ok::<int, ConflictReason>(i as int)
                    && match added {
                        Some(id) => task.task_id is None && is_stable_id(id@)
                            && strings_view(final(lines)@) == strings_view(old(lines)@).update(
                                i as int,
                                spec_with_id(old(lines)@[i as int]@, id@),
                            ),
                        None => task.task_id is Some && final(lines)@ == old(lines)@,
                    },
                Err(e) => spec_locate_unchanged(strings_view(old(lines)@), *task) matches Err(reason)
                    && conflict_is(e, reason) && final(lines)@ == old(lines)@,
            },
    {
        let (i, _t) = self.locate(lines, task)?;
        if task.task_id.is_some() {
            return Ok((i, None));
        }
        let id = new_task_id();
        let chars = string_chars(&lines[i]);
        let idc = chars_of(id.as_str());
        let line = with_id_comment(&chars, &idc);
        let ghost before = strings_view(lines@);
        lines.set(i, string_of(&line));
        proof {
            assert(strings_view(lines@) =~= before.update(i as int, line@));
        }
        Ok((i, Some(id)))
    }

    /// Appends a new task with a new stable id. `exists` tells whether the
    /// file exists. The result is the new id.
    pub fn add(&self, lines: &mut Vec<String>, exists: bool, text: &str) -> (r: Result<String, MarkdownError>)
        ensures
            match r {
                Ok(id) => spec_clean_text(text@).len() > 0 && is_stable_id(id@)
                    && strings_view(final(lines)@) == spec_added(strings_view(old(lines)@), exists, spec_clean_text(text@), id@),
                Err(e) => e == MarkdownError::EmptyText && spec_clean_text(text@).len() == 0
                    && final(lines)@ == old(lines)@,
            },
    {
        let clean = match clean_task_text(text) {
            Some(c) => c,
            None => {
                return Err(MarkdownError::EmptyText);
            },
        };
        let id = new_task_id();
        let ghost ls0 = strings_view(lines@);
        if !exists {
            let heading = string_of(&vec!['#', ' ', 'T', 'a', 's', 'k', 's', '\n']);
            let blank = string_of(&vec!['\n']);
            assert(heading@ =~= seq!['#', ' ', 'T', 'a', 's', 'k', 's', '\n']);
            assert(blank@ =~= seq!['\n']);
            lines.push(heading);
            lines.push(blank);
            assert(strings_view(lines@) =~= ls0.push(seq!['#', ' ', 'T', 'a', 's', 'k', 's', '\n']).push(seq!['\n']));
        } else {
            assert(strings_view(lines@) =~= ls0);
        }
        let ghost base = strings_view(lines@);
        let n = lines.len();
        if n > 0 && !ends_with_lf(&lines[n - 1]) {
            let mut last = string_chars(&lines[n - 1]);
            last.push('\n');
            lines.set(n - 1, string_of(&last));
            proof {
                assert(strings_view(lines@) =~= base.update(base.len() - 1, base.last().push('\n')));
            }
        }
        let mut line = vec!['-', ' ', '[', ' ', ']', ' '];
        append_chars(&mut line, &string_chars(&clean));
        let c = crate::edits::with_id_comment(&vec!['\n'], &chars_of(id.as_str()));
        assert(c@ =~= id_comment(id@) + seq!['\n']);
        append_chars(&mut line, &c);
        let ghost fixed = strings_view(lines@);
        lines.push(string_of(&line));
        proof {
            assert(line@ =~= new_task_line(clean@, id@));
            assert(strings_view(lines@) =~= fixed.push(line@));
        }
        Ok(id)
    }

    /// Replaces the body of a task's line.
    fn rewrite_body(&self, lines: &mut Vec<String>, i: usize, new_body: &[char])
        requires
            i < old(lines)@.len(),
            spec_checkbox(strip_eol_chars(old(lines)@[i as int]@)) is Some,
        ensures
            strings_view(final(lines)@) == strings_view(old(lines)@).update(i as int, with_body(old(lines)@[i as int]@, new_body@)),
    {
        let chars = string_chars(&lines[i]);
        let s = strip_eol(&chars);
        let n = s.len();
        proof {
            lemma_strip_eol_chars_prefix(chars@);
            assert(s@.len() == n);
            lemma_checkbox_bounds(s@);
        }
        let m = match_checkbox(&s).unwrap();
        let line = splice_chars(&chars, m.body_start, s.len(), new_body);
        let ghost before = strings_view(lines@);
        lines.set(i, string_of(&line));
        proof {
            assert(strings_view(lines@) =~= before.update(i as int, line@));
        }
    }

    /// The body of a task's line.
    fn body_at(&self, lines: &Vec<String>, i: usize) -> (b: Vec<char>)
        requires
            i < lines@.len(),
            spec_checkbox(strip_eol_chars(lines@[i as int]@)) is Some,
        ensures
            b@ == body_of(lines@[i as int]@),
    {
        let chars = string_chars(&lines[i]);
        let s = strip_eol(&chars);
        let n = s.len();
        proof {
            lemma_strip_eol_chars_prefix(chars@);
            assert(s@.len() == n);
            lemma_checkbox_bounds(s@);
        }
        let m = match_checkbox(&s).unwrap();
        let b = copy_range(&chars, m.body_start, s.len());
        proof {
            assert(b@ =~= s@.subrange(m.body_start as int, s@.len() as int));
        }
        b
    }

    /// Replaces the text of a task, keeping its checkbox and metadata.
    pub fn edit(&self, lines: &mut Vec<String>, task: &Task, text: &str) -> (r: Result<usize, MarkdownError>)
        requires
            lines_fit(strings_view(old(lines)@)),
        ensures
            match r {
                Ok(i) => spec_clean_text(text@).len() > 0
                    && spec_locate_unchanged(strings_view(old(lines)@), *task) == Ok::<int, ConflictReason>(i as int)
                    && strings_view(final(lines)@) == strings_view(old(lines)@).update(
                        i as int,
                        with_body(old(lines)@[i as int]@, spec_edited_body(body_of(old(lines)@[i as int]@), spec_clean_text(text@))),
                    ),
                Err(e) => final(lines)@ == old(lines)@ && if spec_clean_text(text@).len() == 0 {
                    e == MarkdownError::EmptyText
                } else {
                    spec_locate_unchanged(strings_view(old(lines)@), *task) matches Err(reason) && conflict_is(e, reason)
                },
            },
    {
        let clean = match clean_task_text(text) {
            Some(c) => c,
            None => {
                return Err(MarkdownError::EmptyText);
            },
        };
        let (i, _t) = self.locate(lines, task)?;
        let body = self.body_at(lines, i);
        let new_body = edited_body(&body, &string_chars(&clean));
        self.rewrite_body(lines, i, &new_body);
        Ok(i)
    }

    /// Sets the Focus metadata `key` of a task to `value`, or removes it.
    pub fn update_metadata(&self, lines: &mut Vec<String>, task: &Task, key: &[char], value: Option<&[char]>) -> (r: Result<usize, MarkdownError>)
        requires
            lines_fit(strings_view(old(lines)@)),
        ensures
            match r {
                Ok(i) => spec_locate_unchanged(strings_view(old(lines)@), *task) == Ok::<int, ConflictReason>(i as int)
                    && strings_view(final(lines)@) == strings_view(old(lines)@).update(
                        i as int,
                        with_body(old(lines)@[i as int]@, spec_update_metadata(body_of(old(lines)@[i as int]@), key@, match value { Some(v) => Some(v@), None => None })),
                    ),
                Err(e) => spec_locate_unchanged(strings_view(old(lines)@), *task) matches Err(reason)
                    && conflict_is(e, reason) && final(lines)@ == old(lines)@,
            },
    {
        let (i, _t) = self.locate(lines, task)?;
        let body = self.body_at(lines, i);
        let new_body = update_focus_metadata(&body, key, value);
        self.rewrite_body(lines, i, &new_body);
        Ok(i)
    }

    /// Sets or clears the Pomodoro estimate of a task (`estimate=`).
    pub fn set_estimate(&self, lines: &mut Vec<String>, task: &Task, estimate: Option<u32>) -> (r: Result<usize, MarkdownError>)
        requires
            lines_fit(strings_view(old(lines)@)),
        ensures
            estimate == Some(0u32) ==> r == Err::<usize, MarkdownError>(MarkdownError::ZeroEstimate) && final(lines)@ == old(lines)@,
            estimate != Some(0u32) ==> match r {
                Ok(i) => spec_locate_unchanged(strings_view(old(lines)@), *task) == Ok::<int, ConflictReason>(i as int)
                    && strings_view(final(lines)@) == strings_view(old(lines)@).update(
                        i as int,
                        with_body(old(lines)@[i as int]@, spec_update_metadata(
                            body_of(old(lines)@[i as int]@),
                            crate::body::word_estimate(),
                            match estimate { Some(n) => Some(spec_decimal(n as nat)), None => None },
                        )),
                    ),
                Err(e) => spec_locate_unchanged(strings_view(old(lines)@), *task) matches Err(reason)
                    && conflict_is(e, reason) && final(lines)@ == old(lines)@,
            },
    {
        let key = vec!['e', 's', 't', 'i', 'm', 'a', 't', 'e'];
        match estimate {
            Some(0) => Err(MarkdownError::ZeroEstimate),
            Some(n) => {
                let digits = decimal(n as u64);
                self.update_metadata(lines, task, &key, Some(digits.as_slice()))
            },
            None => self.update_metadata(lines, task, &key, None),
        }
    }

    /// Marks a task blocked (`status=blocked`) or, when it is blocked, removes
    /// its status.
    pub fn toggle_blocked(&self, lines: &mut Vec<String>, task: &Task) -> (r: Result<usize, MarkdownError>)
        requires
            lines_fit(strings_view(old(lines)@)),
        ensures
            match r {
                Ok(i) => spec_locate_unchanged(strings_view(old(lines)@), *task) == Ok::<int, ConflictReason>(i as int)
                    && strings_view(final(lines)@) == strings_view(old(lines)@).update(
                        i as int,
                        with_body(old(lines)@[i as int]@, spec_update_metadata(
                            body_of(old(lines)@[i as int]@),
                            crate::body::word_status(),
                            if task.metadata.blocked { None } else { Some(crate::body::word_blocked()) },
                        )),
                    ),
                Err(e) => spec_locate_unchanged(strings_view(old(lines)@), *task) matches Err(reason)
                    && conflict_is(e, reason) && final(lines)@ == old(lines)@,
            },
    {
        let key = vec!['s', 't', 'a', 't', 'u', 's'];
        if task.metadata.blocked {
            self.update_metadata(lines, task, &key, None)
        } else {
            let blocked = vec!['b', 'l', 'o', 'c', 'k', 'e', 'd'];
            self.update_metadata(lines, task, &key, Some(blocked.as_slice()))
        }
    }
}

impl MarkdownTaskRepository {
    /// Inserts a new sibling task after the subtree of `task`, with the
    /// indentation, bullet and spacing of `task`'s line and a new stable id.
    /// The result is the new line's index and its id.
    pub fn insert_after(&self, lines: &mut Vec<String>, task: &Task, text: &str) -> (r: Result<(usize, String), MarkdownError>)
        requires
            lines_fit(strings_view(old(lines)@)),
        ensures
            match r {
                Ok((at, id)) => spec_clean_text(text@).len() > 0 && is_stable_id(id@)
                    && (spec_locate_unchanged(strings_view(old(lines)@), *task) matches Ok(i)
                    && at == spec_subtree_end(strings_view(old(lines)@), i, task.indent as int)
                    && strings_view(final(lines)@) == spec_inserted(
                        strings_view(old(lines)@),
                        at as int,
                        sibling_line(old(lines)@[i]@, spec_clean_text(text@), id@),
                        crlf_or_lf(old(lines)@[i]@),
                    )),
                Err(e) => final(lines)@ == old(lines)@ && if spec_clean_text(text@).len() == 0 {
                    e == MarkdownError::EmptyText
                } else {
                    spec_locate_unchanged(strings_view(old(lines)@), *task) matches Err(reason) && conflict_is(e, reason)
                },
            },
    {
        let clean = match clean_task_text(text) {
            Some(c) => c,
            None => {
                return Err(MarkdownError::EmptyText);
            },
        };
        let (i, _t) = self.locate(lines, task)?;
        let at = subtree_end(lines, i, task.indent);
        let chars = string_chars(&lines[i]);
        let s = strip_eol(&chars);
        let n = s.len();
        proof {
            lemma_strip_eol_chars_prefix(chars@);
            assert(s@.len() == n);
            lemma_checkbox_bounds(s@);
        }
        let m = match_checkbox(&s).unwrap();
        let crlf = chars.len() >= 2 && chars[chars.len() - 2] == '\r' && chars[chars.len() - 1] == '\n';
        let nl: Vec<char> = if crlf {
            vec!['\r', '\n']
        } else {
            vec!['\n']
        };
        assert(nl@ == crlf_or_lf(chars@));
        let ghost ls0 = strings_view(lines@);
        if at > 0 && !ends_with_lf(&lines[at - 1]) {
            let mut prev = string_chars(&lines[at - 1]);
            append_chars(&mut prev, &nl);
            lines.set(at - 1, string_of(&prev));
            proof {
                assert(strings_view(lines@) =~= ls0.update(at - 1, ls0[at - 1] + nl@));
            }
        } else {
            assert(strings_view(lines@) =~= ls0);
        }
        let id = new_task_id();
        let mut line = copy_range(&s, 0, m.gap_end);
        let open_box = vec!['[', ' ', ']'];
        append_chars(&mut line, &open_box);
        let after = copy_range(&s, m.gap_end + 3, m.body_start);
        append_chars(&mut line, &after);
        append_chars(&mut line, &string_chars(&clean));
        let c = with_id_comment(&nl, &chars_of(id.as_str()));
        proof {
            if crlf {
                assert(c@ =~= id_comment(id@) + nl@);
            } else {
                assert(c@ =~= id_comment(id@) + nl@);
            }
        }
        append_chars(&mut line, &c);
        proof {
            assert(line@ =~= sibling_line(chars@, clean@, id@));
        }
        let ghost fixed = strings_view(lines@);
        lines.insert(at, string_of(&line));
        proof {
            assert(strings_view(lines@) =~= fixed.insert(at as int, line@));
        }
        Ok((at, id))
    }

    /// Moves a task with its subtree past the next sibling subtree (down) or
    /// before the previous sibling (up). The result says whether it moved; it
    /// does not move across a heading or out of its parent.
    pub fn move_subtree(&self, lines: &mut Vec<String>, task: &Task, direction: MoveDirection) -> (r: Result<bool, MarkdownError>)
        requires
            lines_fit(strings_view(old(lines)@)),
        ensures
            task.task_id is None ==> r == Err::<bool, MarkdownError>(MarkdownError::MissingStableId) && final(lines)@ == old(lines)@,
            task.task_id is Some ==> match r {
                Ok(moved) => spec_locate_unchanged(strings_view(old(lines)@), *task) matches Ok(start) && {
                    let ls = strings_view(old(lines)@);
                    let end = spec_subtree_end(ls, start, task.indent as int);
                    match direction {
                        MoveDirection::Down => if end < ls.len() && (line_task(ls[end]) matches Some(t) && t.3 == task.indent) {
                            moved && strings_view(final(lines)@) == swap_blocks(ls, start, end, spec_subtree_end(ls, end, task.indent as int))
                        } else {
                            !moved && final(lines)@ == old(lines)@
                        },
                        MoveDirection::Up => match prev_sibling_from(ls, start, task.indent as int) {
                            Some(p) => moved && strings_view(final(lines)@) == swap_blocks(ls, p, start, end),
                            None => !moved && final(lines)@ == old(lines)@,
                        },
                    }
                },
                Err(e) => spec_locate_unchanged(strings_view(old(lines)@), *task) matches Err(reason)
                    && conflict_is(e, reason) && final(lines)@ == old(lines)@,
            },
    {
        if task.task_id.is_none() {
            return Err(MarkdownError::MissingStableId);
        }
        let (start, _t) = self.locate(lines, task)?;
        let end = subtree_end(lines, start, task.indent);
        let ghost ls = strings_view(lines@);
        let (a, b, c) = match direction {
            MoveDirection::Down => {
                if end >= lines.len() {
                    return Ok(false);
                }
                assert(ls[end as int] == lines@[end as int]@);
                match crate::locate::line_task_of(lines[end].as_str()) {
                    Some(t) => {
                        if t.indent != task.indent {
                            return Ok(false);
                        }
                    },
                    None => {
                        return Ok(false);
                    },
                }
                let next_end = subtree_end(lines, end, task.indent);
                (start, end, next_end)
            },
            MoveDirection::Up => {
                match previous_sibling_index(lines, start, task.indent) {
                    Some(p) => {
                        proof {
                            crate::outline::lemma_prev_sibling_from(ls, start as int, task.indent as int);
                        }
                        (p, start, end)
                    },
                    None => {
                        return Ok(false);
                    },
                }
            },
        };
        let mut out: Vec<String> = Vec::new();
        copy_lines(lines, 0, a, &mut out);
        copy_lines(lines, b, c, &mut out);
        copy_lines(lines, a, b, &mut out);
        copy_lines(lines, c, lines.len(), &mut out);
        proof {
            assert(strings_view(out@) =~= swap_blocks(ls, a as int, b as int, c as int));
        }
        *lines = out;
        Ok(true)
    }

    /// Indents a task and its subtree by two spaces (when it has a previous
    /// sibling), or removes up to two columns of indentation (when it is
    /// indented). The result says whether anything changed.
    pub fn change_indent(&self, lines: &mut Vec<String>, task: &Task, direction: IndentDirection) -> (r: Result<bool, MarkdownError>)
        requires
            lines_fit(strings_view(old(lines)@)),
        ensures
            task.task_id is None ==> r == Err::<bool, MarkdownError>(MarkdownError::MissingStableId) && final(lines)@ == old(lines)@,
            task.task_id is Some ==> match r {
                Ok(changed) => spec_locate_unchanged(strings_view(old(lines)@), *task) matches Ok(start) && {
                    let ls = strings_view(old(lines)@);
                    let end = spec_subtree_end(ls, start, task.indent as int);
                    match direction {
                        IndentDirection::Increase => if prev_sibling_from(ls, start, task.indent as int) is Some {
                            changed && strings_view(final(lines)@) == indent_range(ls, start, end)
                        } else {
                            !changed && final(lines)@ == old(lines)@
                        },
                        IndentDirection::Decrease => if task.indent > 0 {
                            changed && strings_view(final(lines)@) == outdent_range(ls, start, end, if task.indent < 2 { task.indent as int } else { 2 })
                        } else {
                            !changed && final(lines)@ == old(lines)@
                        },
                    }
                },
                Err(e) => spec_locate_unchanged(strings_view(old(lines)@), *task) matches Err(reason)
                    && conflict_is(e, reason) && final(lines)@ == old(lines)@,
            },
    {
        if task.task_id.is_none() {
            return Err(MarkdownError::MissingStableId);
        }
        let (start, _t) = self.locate(lines, task)?;
        let end = subtree_end(lines, start, task.indent);
        let ghost ls = strings_view(lines@);
        let increase = match direction {
            IndentDirection::Increase => true,
            IndentDirection::Decrease => false,
        };
        if increase {
            if previous_sibling_index(lines, start, task.indent).is_none() {
                return Ok(false);
            }
        } else if task.indent == 0 {
            return Ok(false);
        }
        let columns: usize = if task.indent < 2 {
            task.indent
        } else {
            2
        };
        let mut j = start;
        while j < end
            invariant
                start <= j <= end <= lines@.len(),
                ls.len() == lines@.len(),
                forall|k: int| 0 <= k < ls.len() ==> (#[trigger] strings_view(lines@)[k]) == if start <= k < j {
                    if increase { spec_indent_line(ls[k]) } else { spec_remove_indent(ls[k], columns as int) }
                } else {
                    ls[k]
                },
            decreases end - j,
        {
            let chars = string_chars(&lines[j]);
            assert(strings_view(lines@)[j as int] == ls[j as int]);
            assert(chars@ == ls[j as int]);
            let changed = if increase {
                indent_line(&chars)
            } else {
                remove_indent_columns(&chars, columns)
            };
            let ghost before = strings_view(lines@);
            lines.set(j, string_of(&changed));
            proof {
                assert(strings_view(lines@) =~= before.update(j as int, changed@));
            }
            j += 1;
        }
        proof {
            if increase {
                assert(strings_view(lines@) =~= indent_range(ls, start as int, end as int));
            } else {
                assert(strings_view(lines@) =~= outdent_range(ls, start as int, end as int, columns as int));
            }
        }
        Ok(true)
    }
}

} // verus!
