//! Searching the task list: which tasks a query finds. A query finds a task
//! when its text, heading, blocked state, priority or due date contains it,
//! compared in lower case.
use vstd::prelude::*;
use crate::models::{ascii_lower_seq, DueDate, Task};
use crate::numbers::{decimal, spec_decimal};
use crate::herdr::{pad2, two_digits};
use crate::edits::append_chars;
use crate::text::{chars_of, string_of};

verus! {

/// What `str::to_lowercase` gives for a string.
pub uninterp spec fn lowercased(s: Seq<char>) -> Seq<char>;

pub open spec fn is_ascii_text(s: Seq<char>) -> bool {
    forall|i: int| 0 <= i < s.len() ==> (s[i] as u32) < 128
}

/// Lower-cases a string with `str::to_lowercase`. Claimed: the result is
/// `lowercased` of the input, and an ASCII string has exactly its letters
/// `A`..`Z` turned into `a`..`z`, as Unicode's lower-case mapping does for
/// ASCII. What other characters become is left to the name.
#[verifier::external_body]
pub(crate) fn lowercase(s: &str) -> (r: String)
    ensures
        r@ == lowercased(s@),
        is_ascii_text(s@) ==> r@ == ascii_lower_seq(s@),
{
    s.to_lowercase()
}

/// `needle` occurs in `hay` starting at `i`.
pub open spec fn occurs_at(hay: Seq<char>, needle: Seq<char>, i: int) -> bool {
    0 <= i && i + needle.len() <= hay.len() && hay.subrange(i, i + needle.len()) == needle
}

/// `needle` occurs somewhere in `hay` (the empty text occurs everywhere).
pub open spec fn contains_text(hay: Seq<char>, needle: Seq<char>) -> bool {
    exists|i: int| occurs_at(hay, needle, i)
}

fn occurs_at_exec(hay: &[char], needle: &[char], i: usize) -> (b: bool)
    requires
        i + needle.len() <= hay.len(),
    ensures
        b == occurs_at(hay@, needle@, i as int),
{
    let mut k: usize = 0;
    while k < needle.len()
        invariant
            i + needle.len() <= hay.len(),
            k <= needle@.len(),
            forall|j: int| 0 <= j < k ==> hay@[i + j] == needle@[j],
        decreases needle.len() - k,
    {
        if hay[i + k] != needle[k] {
            proof {
                assert(hay@.subrange(i as int, i + needle@.len())[k as int] != needle@[k as int]);
            }
            return false;
        }
        k += 1;
    }
    proof {
        assert(hay@.subrange(i as int, i + needle@.len()) =~= needle@);
    }
    true
}

/// Whether `needle` occurs in `hay`, as `str::contains` answers.
pub fn contains_chars(hay: &[char], needle: &[char]) -> (b: bool)
    ensures
        b == contains_text(hay@, needle@),
{
    if needle.len() > hay.len() {
        return false;
    }
    let last = hay.len() - needle.len();
    let mut i: usize = 0;
    while i < last
        invariant
            last + needle.len() == hay.len(),
            i <= last,
            forall|j: int| 0 <= j < i ==> !occurs_at(hay@, needle@, j),
        decreases last - i,
    {
        if occurs_at_exec(hay, needle, i) {
            return true;
        }
        i += 1;
    }
    if occurs_at_exec(hay, needle, last) {
        return true;
    }
    proof {
        assert forall|j: int| !occurs_at(hay@, needle@, j) by {
            if 0 <= j < i {
            } else if j == last {
            }
        }
    }
    false
}

/// At least four digits: the decimal digits of `n`, zero-padded on the left.
pub open spec fn four_digits(n: nat) -> Seq<char> {
    if n < 10 {
        seq!['0', '0', '0'] + spec_decimal(n)
    } else if n < 100 {
        seq!['0', '0'] + spec_decimal(n)
    } else if n < 1000 {
        seq!['0'] + spec_decimal(n)
    } else {
        spec_decimal(n)
    }
}

fn pad4(n: u64) -> (r: Vec<char>)
    ensures
        r@ == four_digits(n as nat),
{
    let d = decimal(n);
    let mut r: Vec<char> = Vec::new();
    if n < 10 {
        r.push('0');
        r.push('0');
        r.push('0');
    } else if n < 100 {
        r.push('0');
        r.push('0');
    } else if n < 1000 {
        r.push('0');
    }
    append_chars(&mut r, &d);
    proof {
        if n < 10 {
            assert(seq!['0', '0', '0'] =~= seq!['0'].push('0').push('0'));
        } else if n < 100 {
            assert(seq!['0', '0'] =~= seq!['0'].push('0'));
        }
    }
    r
}

/// A due date as it reads in the interface: `YYYY-MM-DD`, the year written
/// with a sign and at least four digits when it lies outside 0..=9999.
pub open spec fn spec_due_text(d: DueDate) -> Seq<char> {
    let y = d.year as int;
    let year = if 0 <= y <= 9999 {
        four_digits(y as nat)
    } else if y < 0 {
        seq!['-'] + four_digits((-y) as nat)
    } else {
        seq!['+'] + four_digits(y as nat)
    };
    year + seq!['-'] + two_digits(d.month as nat) + seq!['-'] + two_digits(d.day as nat)
}

/// The text of a due date, as `chrono` displays a date.
pub fn due_text(d: DueDate) -> (s: String)
    ensures
        s@ == spec_due_text(d),
{
    let mut v: Vec<char> = Vec::new();
    if 0 <= d.year && d.year <= 9999 {
        append_chars(&mut v, &pad4(d.year as u64));
    } else if d.year < 0 {
        v.push('-');
        let magnitude: i64 = -(d.year as i64);
        append_chars(&mut v, &pad4(magnitude as u64));
    } else {
        v.push('+');
        append_chars(&mut v, &pad4(d.year as u64));
    }
    v.push('-');
    append_chars(&mut v, &pad2(d.month as u64));
    v.push('-');
    append_chars(&mut v, &pad2(d.day as u64));
    proof {
        let y = d.year as int;
        if 0 <= y <= 9999 {
        } else if y < 0 {
            assert(seq!['-'] + four_digits((-y) as nat) =~= Seq::<char>::empty().push('-') + four_digits((-y) as nat));
        } else {
            assert(seq!['+'] + four_digits(y as nat) =~= Seq::<char>::empty().push('+') + four_digits(y as nat));
        }
    }
    string_of(&v)
}

pub open spec fn blocked_word() -> Seq<char> {
    seq!['b', 'l', 'o', 'c', 'k', 'e', 'd']
}

/// Whether a lower-cased query finds a task, given the lower-cased task text
/// and heading: an empty query finds every task; otherwise the text, the
/// heading, the word `blocked` of a blocked task, the priority's name or the
/// due date must contain it.
pub open spec fn spec_query_hits(text_lower: Seq<char>, heading_lower: Seq<char>, task: Task, query: Seq<char>) -> bool {
    ||| query.len() == 0
    ||| contains_text(text_lower, query)
    ||| contains_text(heading_lower, query)
    ||| (task.metadata.blocked && contains_text(blocked_word(), query))
    ||| (match task.metadata.priority {
        Some(p) => contains_text(p.spec_name(), query),
        None => false,
    })
    ||| (match task.metadata.due_date {
        Some(d) => contains_text(spec_due_text(d), query),
        None => false,
    })
}

pub fn query_hits(text_lower: &str, heading_lower: &str, task: &Task, query: &str) -> (b: bool)
    ensures
        b == spec_query_hits(text_lower@, heading_lower@, *task, query@),
{
    let q = chars_of(query);
    if q.len() == 0 {
        return true;
    }
    if contains_chars(&chars_of(text_lower), &q) {
        return true;
    }
    if contains_chars(&chars_of(heading_lower), &q) {
        return true;
    }
    if task.metadata.blocked {
        let w = vec!['b', 'l', 'o', 'c', 'k', 'e', 'd'];
        assert(w@ =~= blocked_word());
        if contains_chars(&w, &q) {
            return true;
        }
    }
    if let Some(p) = task.metadata.priority {
        if contains_chars(&chars_of(p.as_str()), &q) {
            return true;
        }
    }
    if let Some(d) = task.metadata.due_date {
        let t = due_text(d);
        if contains_chars(&chars_of(t.as_str()), &q) {
            return true;
        }
    }
    false
}

pub open spec fn heading_or_empty(task: Task) -> Seq<char> {
    match task.heading {
        Some(h) => h@,
        None => Seq::empty(),
    }
}

/// Whether the lower-cased query finds the task.
pub open spec fn spec_task_matches(task: Task, query: Seq<char>) -> bool {
    spec_query_hits(lowercased(task.text@), lowercased(heading_or_empty(task)), task, query)
}

pub fn task_matches(task: &Task, query: &str) -> (b: bool)
    ensures
        b == spec_task_matches(*task, query@),
{
    let text_lower = lowercase(task.text.as_str());
    let heading_lower = match &task.heading {
        Some(h) => lowercase(h.as_str()),
        None => {
            let empty = String::new();
            lowercase(empty.as_str())
        },
    };
    proof {
        if task.heading is None {
            assert(heading_or_empty(*task) =~= Seq::<char>::empty());
        }
    }
    query_hits(text_lower.as_str(), heading_lower.as_str(), task, query)
}

} // verus!

verus! {

/// Whether two strings hold the same characters.
pub fn same_text(a: &str, b: &str) -> (r: bool)
    ensures
        r == (a@ == b@),
{
    crate::body::is_word(&chars_of(a), &chars_of(b))
}

} // verus!
