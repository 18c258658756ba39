//! Finding the line of a task again before it is changed, and refusing when
//! that line no longer holds the same task.
use vstd::prelude::*;
use crate::body::{body_task_id, body_text, spec_body_task_id, spec_body_text};
use crate::grammar::{copy_range, lemma_checkbox_bounds, match_checkbox, spec_checkbox};
use crate::lines::{lemma_strip_eol_chars_prefix, strip_eol, strip_eol_chars};
use crate::models::{opt_view, strings_view, Task};
use crate::outline::{indent_width_of, lines_fit};
use crate::repository::{indent_width, lemma_indent_width_bound};
use crate::text::{chars_of, string_of};
use crate::body::is_word;

verus! {

/// Why a change to a Markdown task was refused.
#[derive(Debug, Clone, Copy, PartialEq, Eq)]
pub enum ConflictReason {
    /// The target line is no longer a task.
    NotATask,
    /// The selected task's content changed.
    ContentChanged,
    /// Its stable id no longer exists.
    IdMissing,
    /// Its stable id appears this many times.
    IdRepeated(usize),
    /// It could not be located unambiguously.
    Ambiguous,
    /// The file changed while a write was in progress.
    FileChanged,
}

/// A task that changed in its Markdown file since it was read.
#[derive(Debug, Clone, PartialEq, Eq)]
pub struct MarkdownConflict {
    pub path: String,
    pub task_text: String,
    pub reason: ConflictReason,
}

/// What a task line says, as `(text, id, checked, indentation width, mark
/// position)`, all taken from the line without its line ending.
pub open spec fn line_task(l: Seq<char>) -> Option<(Seq<char>, Option<Seq<char>>, bool, nat, int)> {
    let s = strip_eol_chars(l);
    match spec_checkbox(s) {
        Some(m) => {
            let body = s.subrange(m.body_start as int, s.len() as int);
            Some(
                (
                    spec_body_text(body),
                    spec_body_task_id(body),
                    s[m.mark_pos()] == 'x' || s[m.mark_pos()] == 'X',
                    indent_width(s.subrange(0, m.indent_end as int)),
                    m.mark_pos(),
                ),
            )
        },
        None => None,
    }
}

/// The indices among the first `n` lines of the task lines whose id is `id`.
pub open spec fn id_matches(ls: Seq<Seq<char>>, id: Seq<char>, n: int) -> Seq<int>
    decreases n,
{
    if n <= 0 || n > ls.len() {
        Seq::empty()
    } else if line_task(ls[n - 1]) matches Some(t) && t.1 == Some(id) {
        id_matches(ls, id, n - 1).push(n - 1)
    } else {
        id_matches(ls, id, n - 1)
    }
}

/// The indices among the first `n` lines of the task lines whose text is `text`.
pub open spec fn text_matches(ls: Seq<Seq<char>>, text: Seq<char>, n: int) -> Seq<int>
    decreases n,
{
    if n <= 0 || n > ls.len() {
        Seq::empty()
    } else if line_task(ls[n - 1]) matches Some(t) && t.0 == text {
        text_matches(ls, text, n - 1).push(n - 1)
    } else {
        text_matches(ls, text, n - 1)
    }
}

/// Where a task is now: by its stable id when it has one, which must occur
/// exactly once; otherwise at its recorded line when that line still holds a
/// task with its text, or else at the only task line with its text.
pub open spec fn spec_locate(ls: Seq<Seq<char>>, task: Task) -> Result<int, ConflictReason> {
    match task.task_id {
        Some(id) => {
            let m = id_matches(ls, id@, ls.len() as int);
            if m.len() == 1 {
                Ok(m[0])
            } else if m.len() == 0 {
                Err(ConflictReason::IdMissing)
            } else {
                Err(ConflictReason::IdRepeated(m.len() as usize))
            }
        },
        None => {
            let e = if task.line_number > 0 {
                task.line_number - 1
            } else {
                0
            };
            if e < ls.len() && (line_task(ls[e]) matches Some(t) && t.0 == task.text@) {
                Ok(e)
            } else {
                let m = text_matches(ls, task.text@, ls.len() as int);
                if m.len() == 1 {
                    Ok(m[0])
                } else {
                    Err(ConflictReason::Ambiguous)
                }
            }
        },
    }
}

/// Where a task is now, provided its line still says the same id, text,
/// checkbox state and indentation.
pub open spec fn spec_locate_unchanged(ls: Seq<Seq<char>>, task: Task) -> Result<int, ConflictReason> {
    match spec_locate(ls, task) {
        Ok(i) => match line_task(ls[i]) {
            Some(t) => if t.1 == opt_view(task.task_id) && t.0 == task.text@ && t.2 == task.checked
                && t.3 == task.indent {
                Ok(i)
            } else {
                Err(ConflictReason::ContentChanged)
            },
            None => Err(ConflictReason::NotATask),
        },
        Err(e) => Err(e),
    }
}

pub proof fn lemma_id_matches_bounds(ls: Seq<Seq<char>>, id: Seq<char>, n: int)
    ensures
        forall|k: int| 0 <= k < id_matches(ls, id, n).len() ==> 0 <= #[trigger] id_matches(ls, id, n)[k] < n && id_matches(ls, id, n)[k] < ls.len(),
    decreases n,
{
    if 0 < n <= ls.len() {
        lemma_id_matches_bounds(ls, id, n - 1);
        let prev = id_matches(ls, id, n - 1);
        let cur = id_matches(ls, id, n);
        assert(cur == prev || cur == prev.push(n - 1));
        assert forall|k: int| 0 <= k < cur.len() implies 0 <= #[trigger] cur[k] < n && cur[k] < ls.len() by {
            if k < prev.len() {
                assert(cur[k] == prev[k]);
            }
        }
    }
}

pub proof fn lemma_text_matches_bounds(ls: Seq<Seq<char>>, text: Seq<char>, n: int)
    ensures
        forall|k: int| 0 <= k < text_matches(ls, text, n).len() ==> 0 <= #[trigger] text_matches(ls, text, n)[k] < n && text_matches(ls, text, n)[k] < ls.len(),
    decreases n,
{
    if 0 < n <= ls.len() {
        lemma_text_matches_bounds(ls, text, n - 1);
        let prev = text_matches(ls, text, n - 1);
        let cur = text_matches(ls, text, n);
        assert(cur == prev || cur == prev.push(n - 1));
        assert forall|k: int| 0 <= k < cur.len() implies 0 <= #[trigger] cur[k] < n && cur[k] < ls.len() by {
            if k < prev.len() {
                assert(cur[k] == prev[k]);
            }
        }
    }
}

pub proof fn lemma_locate_bounds(ls: Seq<Seq<char>>, task: Task)
    ensures
        spec_locate(ls, task) matches Ok(i) ==> 0 <= i < ls.len() && line_task(ls[i]) is Some,
{
    lemma_id_matches_bounds(ls, opt_view(task.task_id)->0, ls.len() as int);
    lemma_text_matches_bounds(ls, task.text@, ls.len() as int);
    lemma_id_matches_task(ls, opt_view(task.task_id)->0, ls.len() as int);
    lemma_text_matches_task(ls, task.text@, ls.len() as int);
    if let Some(id) = task.task_id {
        assert(opt_view(task.task_id)->0 == id@);
    }
}

pub proof fn lemma_id_matches_task(ls: Seq<Seq<char>>, id: Seq<char>, n: int)
    ensures
        forall|k: int| 0 <= k < id_matches(ls, id, n).len() ==> line_task(ls[#[trigger] id_matches(ls, id, n)[k]]) is Some,
    decreases n,
{
    if 0 < n <= ls.len() {
        lemma_id_matches_task(ls, id, n - 1);
        let prev = id_matches(ls, id, n - 1);
        let cur = id_matches(ls, id, n);
        assert(cur == prev || cur == prev.push(n - 1));
        assert forall|k: int| 0 <= k < cur.len() implies line_task(ls[#[trigger] cur[k]]) is Some by {
            if k < prev.len() {
                assert(cur[k] == prev[k]);
            }
        }
    }
}

pub proof fn lemma_text_matches_task(ls: Seq<Seq<char>>, text: Seq<char>, n: int)
    ensures
        forall|k: int| 0 <= k < text_matches(ls, text, n).len() ==> line_task(ls[#[trigger] text_matches(ls, text, n)[k]]) is Some,
    decreases n,
{
    if 0 < n <= ls.len() {
        lemma_text_matches_task(ls, text, n - 1);
        let prev = text_matches(ls, text, n - 1);
        let cur = text_matches(ls, text, n);
        assert(cur == prev || cur == prev.push(n - 1));
        assert forall|k: int| 0 <= k < cur.len() implies line_task(ls[#[trigger] cur[k]]) is Some by {
            if k < prev.len() {
                assert(cur[k] == prev[k]);
            }
        }
    }
}

/// What a task line says.
pub struct LineTask {
    pub text: Vec<char>,
    pub task_id: Option<Vec<char>>,
    pub checked: bool,
    pub indent: usize,
    pub mark_pos: usize,
}

pub fn line_task_of(line: &str) -> (r: Option<LineTask>)
    requires
        line@.len() <= usize::MAX / 4,
    ensures
        match r {
            Some(t) => line_task(line@) == Some((t.text@, match t.task_id { Some(v) => Some(v@), None => None }, t.checked, t.indent as nat, t.mark_pos as int))
                && t.mark_pos < strip_eol_chars(line@).len(),
            None => line_task(line@) is None,
        },
{
    let chars = chars_of(line);
    let s = strip_eol(&chars);
    proof {
        lemma_strip_eol_chars_prefix(line@);
    }
    match match_checkbox(&s) {
        Some(m) => {
            proof {
                lemma_checkbox_bounds(s@);
            }
            let body = copy_range(&s, m.body_start, s.len());
            let text = body_text(&body);
            let task_id = body_task_id(&body);
            let mark = s[m.gap_end + 1];
            let indent = indent_width_of(&s, m.indent_end);
            Some(LineTask { text, task_id, checked: mark == 'x' || mark == 'X', indent, mark_pos: m.gap_end + 1 })
        },
        None => None,
    }
}

fn same_id(a: &Option<Vec<char>>, b: &Option<String>) -> (r: bool)
    ensures
        r == ((match a { Some(v) => Some(v@), None => None }) == opt_view(*b)),
{
    match (a, b) {
        (Some(x), Some(y)) => {
            let yc = chars_of(y.as_str());
            is_word(x, &yc)
        },
        (None, None) => true,
        _ => false,
    }
}

/// Where a task is now in the lines of its file.
pub fn locate_task(lines: &Vec<String>, task: &Task) -> (r: Result<usize, ConflictReason>)
    requires
        lines_fit(strings_view(lines@)),
    ensures
        match r {
            Ok(i) => spec_locate(strings_view(lines@), *task) == Ok::<int, ConflictReason>(i as int),
            Err(e) => spec_locate(strings_view(lines@), *task) == Err::<int, ConflictReason>(e),
        },
{
    let ghost ls = strings_view(lines@);
    match &task.task_id {
        Some(id) => {
            let idc = chars_of(id.as_str());
            let mut found: Option<usize> = None;
            let mut count: usize = 0;
            let mut i: usize = 0;
            while i < lines.len()
                invariant
                    i <= lines@.len(),
                    ls == strings_view(lines@),
                    lines_fit(ls),
                    idc@ == id@,
                    count == id_matches(ls, id@, i as int).len(),
                    count <= i,
                    count > 0 ==> found == Some(id_matches(ls, id@, i as int)[0] as usize),
                    count > 0 ==> found.is_some(),
                decreases lines.len() - i,
            {
                assert(ls[i as int] == lines@[i as int]@);
                match line_task_of(lines[i].as_str()) {
                    Some(t) => {
                        let hit = match &t.task_id {
                            Some(v) => is_word(v, &idc),
                            None => false,
                        };
                        if hit {
                            if count == 0 {
                                found = Some(i);
                            }
                            count += 1;
                        }
                    },
                    None => {},
                }
                proof {
                    let prev = id_matches(ls, id@, i as int);
                    if prev.len() > 0 {
                        assert(id_matches(ls, id@, i + 1)[0] == prev[0]);
                    }
                }
                i += 1;
            }
            proof {
                assert(task.task_id == Some(*id));
                lemma_id_matches_bounds(ls, id@, ls.len() as int);
            }
            if count == 1 {
                Ok(found.unwrap())
            } else if count == 0 {
                Err(ConflictReason::IdMissing)
            } else {
                Err(ConflictReason::IdRepeated(count))
            }
        },
        None => {
            let text = chars_of(task.text.as_str());
            let e: usize = if task.line_number > 0 {
                task.line_number - 1
            } else {
                0
            };
            if e < lines.len() {
                assert(ls[e as int] == lines@[e as int]@);
                match line_task_of(lines[e].as_str()) {
                    Some(t) => {
                        if is_word(&t.text, &text) {
                            return Ok(e);
                        }
                    },
                    None => {},
                }
            }
            let mut found: Option<usize> = None;
            let mut count: usize = 0;
            let mut i: usize = 0;
            while i < lines.len()
                invariant
                    i <= lines@.len(),
                    ls == strings_view(lines@),
                    lines_fit(ls),
                    text@ == task.text@,
                    count == text_matches(ls, task.text@, i as int).len(),
                    count <= i,
                    count > 0 ==> found == Some(text_matches(ls, task.text@, i as int)[0] as usize),
                decreases lines.len() - i,
            {
                assert(ls[i as int] == lines@[i as int]@);
                match line_task_of(lines[i].as_str()) {
                    Some(t) => {
                        if is_word(&t.text, &text) {
                            if count == 0 {
                                found = Some(i);
                            }
                            count += 1;
                        }
                    },
                    None => {},
                }
                proof {
                    let prev = text_matches(ls, task.text@, i as int);
                    if prev.len() > 0 {
                        assert(text_matches(ls, task.text@, i + 1)[0] == prev[0]);
                    }
                }
                i += 1;
            }
            proof {
                lemma_text_matches_bounds(ls, task.text@, ls.len() as int);
            }
            if count == 1 {
                Ok(found.unwrap())
            } else {
                Err(ConflictReason::Ambiguous)
            }
        },
    }
}

pub open spec fn line_task_view(t: LineTask) -> (Seq<char>, Option<Seq<char>>, bool, nat, int) {
    (t.text@, match t.task_id { Some(v) => Some(v@), None => None }, t.checked, t.indent as nat, t.mark_pos as int)
}

/// Where a task is now, if its line still holds the same task; with what
/// that line says.
pub fn locate_unchanged_task(lines: &Vec<String>, task: &Task) -> (r: Result<(usize, LineTask), ConflictReason>)
    requires
        lines_fit(strings_view(lines@)),
    ensures
        match r {
            Ok((i, t)) => spec_locate_unchanged(strings_view(lines@), *task) == Ok::<int, ConflictReason>(i as int)
                && i < lines@.len()
                && line_task(lines@[i as int]@) == Some(line_task_view(t))
                && t.mark_pos < strip_eol_chars(lines@[i as int]@).len(),
            Err(e) => spec_locate_unchanged(strings_view(lines@), *task) == Err::<int, ConflictReason>(e),
        },
{
    let ghost ls = strings_view(lines@);
    let i = match locate_task(lines, task) {
        Ok(i) => i,
        Err(e) => {
            return Err(e);
        },
    };
    proof {
        lemma_locate_bounds(ls, *task);
    }
    assert(ls[i as int] == lines@[i as int]@);
    let t = match line_task_of(lines[i].as_str()) {
        Some(t) => t,
        None => {
            return Err(ConflictReason::NotATask);
        },
    };
    let text = chars_of(task.text.as_str());
    if same_id(&t.task_id, &task.task_id) && is_word(&t.text, &text) && t.checked == task.checked
        && t.indent == task.indent {
        Ok((i, t))
    } else {
        Err(ConflictReason::ContentChanged)
    }
}

/// The task line at index `j` has the given text.
pub open spec fn has_text(ls: Seq<Seq<char>>, j: int, text: Seq<char>) -> bool {
    0 <= j < ls.len() && (line_task(ls[j]) matches Some(t) && t.0 == text)
}

/// The task line at index `j` has the given stable id.
pub open spec fn has_id(ls: Seq<Seq<char>>, j: int, id: Seq<char>) -> bool {
    0 <= j < ls.len() && (line_task(ls[j]) matches Some(t) && t.1 == Some(id))
}

proof fn lemma_text_matches(ls: Seq<Seq<char>>, text: Seq<char>, n: int)
    requires
        0 <= n <= ls.len(),
    ensures
        forall|k: int| 0 <= k < text_matches(ls, text, n).len() ==> {
            let j = #[trigger] text_matches(ls, text, n)[k];
            0 <= j < n && has_text(ls, j, text)
        },
        forall|j: int| 0 <= j < n && has_text(ls, j, text) ==> text_matches(ls, text, n).contains(j),
        forall|a: int, b: int| 0 <= a < b < text_matches(ls, text, n).len() ==> #[trigger] text_matches(ls, text, n)[a]
            < #[trigger] text_matches(ls, text, n)[b],
    decreases n,
{
    if n > 0 {
        lemma_text_matches(ls, text, n - 1);
        let p = text_matches(ls, text, n - 1);
        let m = text_matches(ls, text, n);
        if has_text(ls, n - 1, text) {
            assert(m == p.push(n - 1));
            assert forall|j: int| 0 <= j < n && has_text(ls, j, text) implies m.contains(j) by {
                if j < n - 1 {
                    let k = choose|k: int| 0 <= k < p.len() && p[k] == j;
                    assert(m[k] == j);
                } else {
                    assert(m[m.len() - 1] == j);
                }
            }
            assert forall|a: int, b: int| 0 <= a < b < m.len() implies #[trigger] m[a] < #[trigger] m[b] by {
                assert(m[a] == p[a]);
                if b < p.len() {
                    assert(m[b] == p[b]);
                }
            }
        } else {
            assert(m == p);
        }
    }
}

proof fn lemma_id_matches(ls: Seq<Seq<char>>, id: Seq<char>, n: int)
    requires
        0 <= n <= ls.len(),
    ensures
        forall|k: int| 0 <= k < id_matches(ls, id, n).len() ==> {
            let j = #[trigger] id_matches(ls, id, n)[k];
            0 <= j < n && has_id(ls, j, id)
        },
        forall|j: int| 0 <= j < n && has_id(ls, j, id) ==> id_matches(ls, id, n).contains(j),
        forall|a: int, b: int| 0 <= a < b < id_matches(ls, id, n).len() ==> #[trigger] id_matches(ls, id, n)[a]
            < #[trigger] id_matches(ls, id, n)[b],
    decreases n,
{
    if n > 0 {
        lemma_id_matches(ls, id, n - 1);
        let p = id_matches(ls, id, n - 1);
        let m = id_matches(ls, id, n);
        if has_id(ls, n - 1, id) {
            assert(m == p.push(n - 1));
            assert forall|j: int| 0 <= j < n && has_id(ls, j, id) implies m.contains(j) by {
                if j < n - 1 {
                    let k = choose|k: int| 0 <= k < p.len() && p[k] == j;
                    assert(m[k] == j);
                } else {
                    assert(m[m.len() - 1] == j);
                }
            }
            assert forall|a: int, b: int| 0 <= a < b < m.len() implies #[trigger] m[a] < #[trigger] m[b] by {
                assert(m[a] == p[a]);
                if b < p.len() {
                    assert(m[b] == p[b]);
                }
            }
        } else {
            assert(m == p);
        }
    }
}

/// A task without a stable id is found at its recorded line when that line
/// still holds a task with its text; otherwise only at the one task line with
/// its text, and nowhere when none or several lines have it. A task with an id
/// is found only at the one task line with that id; none missing, and several
/// refused.
pub proof fn law_locate_finds_the_same_task(ls: Seq<Seq<char>>, task: Task)
    ensures
        spec_locate(ls, task) matches Ok(i) ==> has_text(ls, i, task.text@) || (task.task_id matches Some(id)
            && has_id(ls, i, id@)),
        task.task_id is None ==> ({
            let e = if task.line_number > 0 {
                task.line_number - 1
            } else {
                0
            };
            &&& has_text(ls, e, task.text@) ==> spec_locate(ls, task) == Ok::<int, ConflictReason>(e)
            &&& spec_locate(ls, task) matches Ok(i) ==> has_text(ls, i, task.text@)
            &&& spec_locate(ls, task) matches Ok(i) ==> (i != e ==> forall|j: int|
                #[trigger] has_text(ls, j, task.text@) ==> j == i)
            &&& forall|i: int|
                has_text(ls, i, task.text@) && (forall|j: int| #[trigger] has_text(ls, j, task.text@) ==> j == i)
                    ==> spec_locate(ls, task) == Ok::<int, ConflictReason>(i)
            &&& spec_locate(ls, task) is Err ==> spec_locate(ls, task) == Err::<int, ConflictReason>(
                ConflictReason::Ambiguous,
            )
        }),
        task.task_id matches Some(id) ==> {
            &&& spec_locate(ls, task) matches Ok(i) ==> has_id(ls, i, id@) && forall|j: int|
                #[trigger] has_id(ls, j, id@) ==> j == i
            &&& forall|i: int|
                has_id(ls, i, id@) && (forall|j: int| #[trigger] has_id(ls, j, id@) ==> j == i) ==> spec_locate(
                    ls,
                    task,
                ) == Ok::<int, ConflictReason>(i)
            &&& spec_locate(ls, task) == Err::<int, ConflictReason>(ConflictReason::IdMissing) <==> forall|j: int|
                !#[trigger] has_id(ls, j, id@)
        },
{
    let n = ls.len() as int;
    match task.task_id {
        Some(id) => {
            lemma_id_matches(ls, id@, n);
            let m = id_matches(ls, id@, n);
            if m.len() >= 1 {
                assert(has_id(ls, m[0], id@));
            }
            if m.len() == 1 {
                assert forall|j: int| #[trigger] has_id(ls, j, id@) implies j == m[0] by {
                    assert(m.contains(j));
                }
            }
            if m.len() >= 2 {
                assert(m[0] < m[1]);
                assert(has_id(ls, m[1], id@));
            }
            assert forall|i: int|
                has_id(ls, i, id@) && (forall|j: int| #[trigger] has_id(ls, j, id@) ==> j == i) implies spec_locate(
                ls,
                task,
            ) == Ok::<int, ConflictReason>(i) by {
                assert(m.contains(i));
                if m.len() >= 2 {
                    assert(has_id(ls, m[0], id@) && has_id(ls, m[1], id@) && m[0] < m[1]);
                }
            }
            if m.len() == 0 {
                assert forall|j: int| !#[trigger] has_id(ls, j, id@) by {
                    if has_id(ls, j, id@) {
                        assert(m.contains(j));
                    }
                }
            }
        },
        None => {
            lemma_text_matches(ls, task.text@, n);
            let m = text_matches(ls, task.text@, n);
            if m.len() >= 1 {
                assert(has_text(ls, m[0], task.text@));
            }
            if m.len() == 1 {
                assert forall|j: int| #[trigger] has_text(ls, j, task.text@) implies j == m[0] by {
                    assert(m.contains(j));
                }
            }
            assert forall|i: int|
                has_text(ls, i, task.text@) && (forall|j: int| #[trigger] has_text(ls, j, task.text@) ==> j == i)
                    implies spec_locate(ls, task) == Ok::<int, ConflictReason>(i) by {
                let e: int = if task.line_number > 0 {
                    task.line_number - 1
                } else {
                    0
                };
                if has_text(ls, e, task.text@) {
                    assert(e == i);
                }
                assert(m.contains(i));
                if m.len() >= 2 {
                    assert(has_text(ls, m[0], task.text@) && has_text(ls, m[1], task.text@) && m[0] < m[1]);
                }
            }
        },
    }
}

} // verus!
