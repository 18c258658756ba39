//! The body of a task line: visible text with hashtags, then trailing Focus
//! metadata comments whose `key=value` tokens say the task's id, estimate,
//! status, priority and due date.
use vstd::prelude::*;
use crate::dates::{parse_ymd_date, parsed_ymd_date};
use crate::grammar::{
    comment_at, comment_spans, comment_spans_from, copy_range, focus_metadata_start,
    lemma_comment_at, lemma_token_at, spec_metadata_start, tags_from, tags_of, token_at,
    token_spans, token_spans_of,
};
use crate::models::{
    ascii_lower, ascii_lower_seq, strings_view, DueDate, TaskMetadata, TaskPriority,
};
use crate::numbers::{parse_u32, spec_parse_u32};
use crate::text::{lemma_ws_run_end, string_of, trim, trim_bounds, ws_run_end};

verus! {

pub open spec fn word_id() -> Seq<char> { seq!['i', 'd'] }
pub open spec fn word_estimate() -> Seq<char> { seq!['e', 's', 't', 'i', 'm', 'a', 't', 'e'] }
pub open spec fn word_status() -> Seq<char> { seq!['s', 't', 'a', 't', 'u', 's'] }
pub open spec fn word_priority() -> Seq<char> { seq!['p', 'r', 'i', 'o', 'r', 'i', 't', 'y'] }
pub open spec fn word_due() -> Seq<char> { seq!['d', 'u', 'e'] }
pub open spec fn word_blocked() -> Seq<char> { seq!['b', 'l', 'o', 'c', 'k', 'e', 'd'] }

/// The `(key, value)` tokens of one comment's values.
pub open spec fn value_tokens(v: Seq<char>) -> Seq<(Seq<char>, Seq<char>)> {
    token_spans(v, 0).map_values(
        |t: (int, int, int)| (v.subrange(t.0, t.1), v.subrange(t.1 + 1, t.2)),
    )
}

/// The tokens of the given comments of `s`, in order.
pub open spec fn tokens_of_comments(s: Seq<char>, spans: Seq<(int, int, int, int)>) -> Seq<
    (Seq<char>, Seq<char>),
>
    decreases spans.len(),
{
    if spans.len() == 0 {
        Seq::empty()
    } else {
        tokens_of_comments(s, spans.drop_last()) + value_tokens(
            s.subrange(spans.last().1, spans.last().2),
        )
    }
}

/// All `(key, value)` tokens of a body's trailing metadata, in order.
pub open spec fn body_tokens(body: Seq<char>) -> Seq<(Seq<char>, Seq<char>)> {
    tokens_of_comments(body, comment_spans(body, spec_metadata_start(body)))
}

/// The value of the last token with the given key.
pub open spec fn last_value(tokens: Seq<(Seq<char>, Seq<char>)>, key: Seq<char>) -> Option<
    Seq<char>,
>
    decreases tokens.len(),
{
    if tokens.len() == 0 {
        None
    } else if tokens.last().0 == key {
        Some(tokens.last().1)
    } else {
        last_value(tokens.drop_last(), key)
    }
}

/// The visible text: the body before its metadata, trimmed.
pub open spec fn spec_body_text(body: Seq<char>) -> Seq<char> {
    trim(body.subrange(0, spec_metadata_start(body)))
}

pub open spec fn spec_body_task_id(body: Seq<char>) -> Option<Seq<char>> {
    last_value(body_tokens(body), word_id())
}

/// A positive whole number of Pomodoros from the last `estimate=`.
pub open spec fn spec_body_estimate(body: Seq<char>) -> Option<u32> {
    match last_value(body_tokens(body), word_estimate()) {
        Some(v) => match spec_parse_u32(v) {
            Some(n) => if n > 0 {
                Some(n)
            } else {
                None
            },
            None => None,
        },
        None => None,
    }
}

/// The last `status=` is `blocked`, in any ASCII case.
pub open spec fn spec_body_blocked(body: Seq<char>) -> bool {
    match last_value(body_tokens(body), word_status()) {
        Some(v) => ascii_lower_seq(v) == word_blocked(),
        None => false,
    }
}

pub open spec fn spec_body_priority(body: Seq<char>) -> Option<TaskPriority> {
    match last_value(body_tokens(body), word_priority()) {
        Some(v) => TaskPriority::spec_parse(v),
        None => None,
    }
}

pub open spec fn spec_body_due(body: Seq<char>) -> Option<DueDate> {
    match last_value(body_tokens(body), word_due()) {
        Some(v) => match parsed_ymd_date(v) {
            Some((y, m, d)) => Some(DueDate { year: y, month: m, day: d }),
            None => None,
        },
        None => None,
    }
}

/// The hashtags of the visible text.
pub open spec fn spec_body_tags(body: Seq<char>) -> Seq<Seq<char>> {
    tags_from(spec_body_text(body), 0)
}

/// The metadata of a body, as `parse_task_body` gives it.
pub open spec fn metadata_matches(m: TaskMetadata, body: Seq<char>) -> bool {
    &&& strings_view(m.tags@) == spec_body_tags(body)
    &&& m.priority == spec_body_priority(body)
    &&& m.due_date == spec_body_due(body)
    &&& m.estimate_pomodoros == spec_body_estimate(body)
    &&& m.blocked == spec_body_blocked(body)
}

pub proof fn lemma_comment_spans_bounds(s: Seq<char>, i: int)
    requires
        0 <= i <= s.len(),
    ensures
        forall|k: int|
            0 <= k < comment_spans(s, i).len() ==> {
                let t = #[trigger] comment_spans(s, i)[k];
                &&& i <= t.0
                &&& t.0 + 10 <= t.1 <= t.2
                &&& t.2 + 3 == t.3 <= s.len()
            },
    decreases s.len() - i,
{
    let a = ws_run_end(s, i);
    lemma_ws_run_end(s, i);
    match comment_at(s, a) {
        None => {},
        Some((c, d, e)) => {
            lemma_comment_at(s, a);
            let b = ws_run_end(s, e);
            lemma_ws_run_end(s, e);
            if b < s.len() {
                lemma_comment_spans_bounds(s, b);
                let rest = comment_spans(s, b);
                assert(comment_spans(s, i) == seq![(a, c, d, e)] + rest);
                assert forall|k: int| 0 < k < comment_spans(s, i).len() implies #[trigger] comment_spans(
                    s,
                    i,
                )[k] == rest[k - 1] by {}
            }
        },
    }
}

pub proof fn lemma_token_spans_bounds(s: Seq<char>, i: int)
    requires
        0 <= i <= s.len(),
    ensures
        forall|k: int|
            0 <= k < token_spans(s, i).len() ==> {
                let t = #[trigger] token_spans(s, i)[k];
                &&& i <= t.0 < t.1
                &&& t.1 + 1 < t.2 <= s.len()
            },
    decreases s.len() - i,
{
    if i < s.len() {
        lemma_token_at(s, i);
        match token_at(s, i) {
            Some((k, e)) => {
                lemma_token_spans_bounds(s, e);
                let rest = token_spans(s, e);
                assert(token_spans(s, i) == seq![(i, k, e)] + rest);
                assert forall|j: int| 0 < j < token_spans(s, i).len() implies #[trigger] token_spans(
                    s,
                    i,
                )[j] == rest[j - 1] by {}
            },
            None => {
                lemma_token_spans_bounds(s, i + 1);
                assert(token_spans(s, i) == token_spans(s, i + 1));
            },
        }
    }
}

fn value_tokens_of(v: &[char]) -> (r: Vec<(Vec<char>, Vec<char>)>)
    ensures
        r@.len() == value_tokens(v@).len(),
        forall|k: int|
            0 <= k < r@.len() ==> ((#[trigger] r@[k]).0@, r@[k].1@) == value_tokens(v@)[k],
{
    let spans = token_spans_of(v);
    proof {
        lemma_token_spans_bounds(v@, 0);
    }
    let mut r: Vec<(Vec<char>, Vec<char>)> = Vec::new();
    let mut k: usize = 0;
    while k < spans.len()
        invariant
            k <= spans@.len(),
            spans@.len() == token_spans(v@, 0).len(),
            forall|j: int|
                0 <= j < spans@.len() ==> {
                    let t = #[trigger] spans@[j];
                    token_spans(v@, 0)[j] == (t.0 as int, t.1 as int, t.2 as int)
                },
            forall|j: int|
                0 <= j < token_spans(v@, 0).len() ==> {
                    let t = #[trigger] token_spans(v@, 0)[j];
                    &&& 0 <= t.0 < t.1
                    &&& t.1 + 1 < t.2 <= v@.len()
                },
            r@.len() == k,
            forall|j: int|
                0 <= j < k ==> ((#[trigger] r@[j]).0@, r@[j].1@) == value_tokens(v@)[j],
        decreases spans.len() - k,
    {
        let (a, eq, e) = spans[k];
        assert(token_spans(v@, 0)[k as int] == (a as int, eq as int, e as int));
        let key = copy_range(v, a, eq);
        let value = copy_range(v, eq + 1, e);
        r.push((key, value));
        k += 1;
    }
    r
}

/// All `(key, value)` tokens of the metadata that starts at `ms`.
fn metadata_tokens(body: &[char], ms: usize) -> (r: Vec<(Vec<char>, Vec<char>)>)
    requires
        ms == spec_metadata_start(body@),
        ms <= body@.len(),
    ensures
        r@.len() == body_tokens(body@).len(),
        forall|k: int|
            0 <= k < r@.len() ==> ((#[trigger] r@[k]).0@, r@[k].1@) == body_tokens(body@)[k],
{
    let spans = comment_spans_from(body, ms);
    let ghost all = comment_spans(body@, ms as int);
    proof {
        lemma_comment_spans_bounds(body@, ms as int);
    }
    let mut r: Vec<(Vec<char>, Vec<char>)> = Vec::new();
    let mut ci: usize = 0;
    while ci < spans.len()
        invariant
            ci <= spans@.len(),
            all == comment_spans(body@, ms as int),
            spans@.len() == all.len(),
            forall|j: int|
                0 <= j < spans@.len() ==> {
                    let t = #[trigger] spans@[j];
                    all[j] == (t.0 as int, t.1 as int, t.2 as int, t.3 as int)
                },
            forall|j: int|
                0 <= j < all.len() ==> {
                    let t = #[trigger] all[j];
                    &&& t.1 <= t.2
                    &&& t.3 <= body@.len()
                    &&& t.2 + 3 == t.3
                },
            r@.len() == tokens_of_comments(body@, all.take(ci as int)).len(),
            forall|j: int|
                0 <= j < r@.len() ==> ((#[trigger] r@[j]).0@, r@[j].1@) == tokens_of_comments(
                    body@,
                    all.take(ci as int),
                )[j],
        decreases spans.len() - ci,
    {
        let (_a, c, d, _e) = spans[ci];
        assert(all[ci as int] == (_a as int, c as int, d as int, _e as int));
        let values = copy_range(body, c, d);
        let toks = value_tokens_of(&values);
        let ghost before = tokens_of_comments(body@, all.take(ci as int));
        proof {
            assert(all.take(ci + 1).drop_last() =~= all.take(ci as int));
            assert(all.take(ci + 1).last() == all[ci as int]);
        }
        let ghost after = tokens_of_comments(body@, all.take(ci + 1));
        assert(after == before + value_tokens(values@));
        let mut k: usize = 0;
        while k < toks.len()
            invariant
                k <= toks@.len(),
                toks@.len() == value_tokens(values@).len(),
                forall|j: int|
                    0 <= j < toks@.len() ==> ((#[trigger] toks@[j]).0@, toks@[j].1@)
                        == value_tokens(values@)[j],
                after == before + value_tokens(values@),
                r@.len() == before.len() + k,
                forall|j: int|
                    0 <= j < r@.len() ==> ((#[trigger] r@[j]).0@, r@[j].1@) == after[j],
            decreases toks.len() - k,
        {
            let key = copy_range(&toks[k].0, 0, toks[k].0.len());
            let value = copy_range(&toks[k].1, 0, toks[k].1.len());
            proof {
                assert(key@ =~= toks@[k as int].0@);
                assert(value@ =~= toks@[k as int].1@);
            }
            r.push((key, value));
            k += 1;
        }
        ci += 1;
    }
    proof {
        assert(all.take(ci as int) =~= all);
    }
    r
}

pub fn is_word(v: &[char], w: &[char]) -> (b: bool)
    ensures
        b == (v@ == w@),
{
    if v.len() != w.len() {
        return false;
    }
    let mut i: usize = 0;
    while i < v.len()
        invariant
            v@.len() == w@.len(),
            i <= v@.len(),
            forall|j: int| 0 <= j < i ==> v@[j] == w@[j],
        decreases v.len() - i,
    {
        if v[i] != w[i] {
            return false;
        }
        i += 1;
    }
    proof {
        assert(v@ =~= w@);
    }
    true
}

/// Lower-cases the ASCII letters of `v`.
pub fn to_ascii_lower(v: &[char]) -> (r: Vec<char>)
    ensures
        r@ == ascii_lower_seq(v@),
{
    let mut r: Vec<char> = Vec::new();
    let mut i: usize = 0;
    while i < v.len()
        invariant
            i <= v@.len(),
            r@ == ascii_lower_seq(v@.take(i as int)),
        decreases v.len() - i,
    {
        let c = v[i];
        let l = if 'A' <= c && c <= 'Z' {
            ((c as u8) + 32) as char
        } else {
            c
        };
        proof {
            assert(l == ascii_lower(c));
            assert(ascii_lower_seq(v@.take(i + 1)) =~= ascii_lower_seq(v@.take(i as int)).push(l));
        }
        r.push(l);
        i += 1;
    }
    proof {
        assert(v@.take(i as int) =~= v@);
    }
    r
}

pub fn priority_of(value: &[char]) -> (p: Option<TaskPriority>)
    ensures
        p == TaskPriority::spec_parse(value@),
{
    let lower = to_ascii_lower(value);
    if is_word(&lower, &vec!['h', 'i', 'g', 'h']) {
        Some(TaskPriority::High)
    } else if is_word(&lower, &vec!['m', 'e', 'd', 'i', 'u', 'm']) {
        Some(TaskPriority::Medium)
    } else if is_word(&lower, &vec!['l', 'o', 'w']) {
        Some(TaskPriority::Low)
    } else {
        None
    }
}

pub proof fn lemma_last_value_push(
    tokens: Seq<(Seq<char>, Seq<char>)>,
    t: (Seq<char>, Seq<char>),
    key: Seq<char>,
)
    ensures
        last_value(tokens.push(t), key) == if t.0 == key {
            Some(t.1)
        } else {
            last_value(tokens, key)
        },
{
    assert(tokens.push(t).drop_last() =~= tokens);
}

/// Parses a task body.
pub fn parse_task_body(body: &[char]) -> (r: (String, Option<String>, TaskMetadata))
    ensures
        r.0@ == spec_body_text(body@),
        crate::models::opt_view(r.1) == spec_body_task_id(body@),
        metadata_matches(r.2, body@),
{
    let ms = focus_metadata_start(body);
    let (a, b) = trim_bounds(body, 0, ms);
    let text_chars = copy_range(body, a, b);
    let text = string_of(&text_chars);
    let tag_chars = tags_of(&text_chars);
    let mut tags: Vec<String> = Vec::new();
    let mut t: usize = 0;
    while t < tag_chars.len()
        invariant
            t <= tag_chars@.len(),
            tags@.len() == t,
            forall|j: int| 0 <= j < t ==> (#[trigger] tags@[j])@ == tag_chars@[j]@,
        decreases tag_chars.len() - t,
    {
        tags.push(string_of(&tag_chars[t]));
        t += 1;
    }
    proof {
        assert(strings_view(tags@) =~= tags_from(text_chars@, 0));
    }
    let tokens = metadata_tokens(body, ms);
    let ghost all = body_tokens(body@);
    let mut task_id: Option<Vec<char>> = None;
    let mut estimate: Option<u32> = None;
    let mut blocked = false;
    let mut priority: Option<TaskPriority> = None;
    let mut due_date: Option<DueDate> = None;
    let id_word = vec!['i', 'd'];
    let estimate_word = vec!['e', 's', 't', 'i', 'm', 'a', 't', 'e'];
    let status_word = vec!['s', 't', 'a', 't', 'u', 's'];
    let priority_word = vec!['p', 'r', 'i', 'o', 'r', 'i', 't', 'y'];
    let due_word = vec!['d', 'u', 'e'];
    let blocked_word = vec!['b', 'l', 'o', 'c', 'k', 'e', 'd'];
    let mut k: usize = 0;
    while k < tokens.len()
        invariant
            k <= tokens@.len(),
            all == body_tokens(body@),
            tokens@.len() == all.len(),
            forall|j: int|
                0 <= j < tokens@.len() ==> ((#[trigger] tokens@[j]).0@, tokens@[j].1@) == all[j],
            id_word@ == word_id(),
            estimate_word@ == word_estimate(),
            status_word@ == word_status(),
            priority_word@ == word_priority(),
            due_word@ == word_due(),
            blocked_word@ == word_blocked(),
            match task_id {
                Some(v) => last_value(all.take(k as int), word_id()) == Some(v@),
                None => last_value(all.take(k as int), word_id()) is None,
            },
            estimate == match last_value(all.take(k as int), word_estimate()) {
                Some(v) => match spec_parse_u32(v) {
                    Some(n) => if n > 0 {
                        Some(n)
                    } else {
                        None
                    },
                    None => None,
                },
                None => None,
            },
            blocked == match last_value(all.take(k as int), word_status()) {
                Some(v) => ascii_lower_seq(v) == word_blocked(),
                None => false,
            },
            priority == match last_value(all.take(k as int), word_priority()) {
                Some(v) => TaskPriority::spec_parse(v),
                None => None,
            },
            due_date == match last_value(all.take(k as int), word_due()) {
                Some(v) => match parsed_ymd_date(v) {
                    Some((y, m, d)) => Some(DueDate { year: y, month: m, day: d }),
                    None => None,
                },
                None => None,
            },
        decreases tokens.len() - k,
    {
        let key = &tokens[k].0;
        let value = &tokens[k].1;
        proof {
            assert(all.take(k + 1) =~= all.take(k as int).push(all[k as int]));
            lemma_last_value_push(all.take(k as int), all[k as int], word_id());
            lemma_last_value_push(all.take(k as int), all[k as int], word_estimate());
            lemma_last_value_push(all.take(k as int), all[k as int], word_status());
            lemma_last_value_push(all.take(k as int), all[k as int], word_priority());
            lemma_last_value_push(all.take(k as int), all[k as int], word_due());
        }
        if is_word(key, &id_word) {
            task_id = Some(copy_range(value, 0, value.len()));
            proof {
                assert(value@.subrange(0, value@.len() as int) =~= value@);
            }
        } else if is_word(key, &estimate_word) {
            estimate = match parse_u32(value) {
                Some(n) => if n > 0 {
                    Some(n)
                } else {
                    None
                },
                None => None,
            };
        } else if is_word(key, &status_word) {
            let lower = to_ascii_lower(value);
            blocked = is_word(&lower, &blocked_word);
        } else if is_word(key, &priority_word) {
            priority = priority_of(value);
        } else if is_word(key, &due_word) {
            let text_value = string_of(value);
            due_date = match parse_ymd_date(text_value.as_str()) {
                Some((y, m, d)) => Some(DueDate { year: y, month: m, day: d }),
                None => None,
            };
        }
        k += 1;
    }
    proof {
        assert(all.take(k as int) =~= all);
    }
    let id = match task_id {
        Some(v) => Some(string_of(&v)),
        None => None,
    };
    (
        text,
        id,
        TaskMetadata { tags, priority, due_date, estimate_pomodoros: estimate, blocked },
    )
}

/// The visible text of a body.
pub fn body_text(body: &[char]) -> (r: Vec<char>)
    ensures
        r@ == spec_body_text(body@),
{
    let ms = focus_metadata_start(body);
    let (a, b) = trim_bounds(body, 0, ms);
    copy_range(body, a, b)
}

/// The stable id of a body: the value of its last `id=` token.
pub fn body_task_id(body: &[char]) -> (r: Option<Vec<char>>)
    ensures
        match r {
            Some(v) => spec_body_task_id(body@) == Some(v@),
            None => spec_body_task_id(body@) is None,
        },
{
    let ms = focus_metadata_start(body);
    let tokens = metadata_tokens(body, ms);
    let ghost all = body_tokens(body@);
    let id_word = vec!['i', 'd'];
    let mut found: Option<Vec<char>> = None;
    let mut k: usize = 0;
    while k < tokens.len()
        invariant
            k <= tokens@.len(),
            all == body_tokens(body@),
            tokens@.len() == all.len(),
            forall|j: int|
                0 <= j < tokens@.len() ==> ((#[trigger] tokens@[j]).0@, tokens@[j].1@) == all[j],
            id_word@ == word_id(),
            match found {
                Some(v) => last_value(all.take(k as int), word_id()) == Some(v@),
                None => last_value(all.take(k as int), word_id()) is None,
            },
        decreases tokens.len() - k,
    {
        proof {
            assert(all.take(k + 1) =~= all.take(k as int).push(all[k as int]));
            lemma_last_value_push(all.take(k as int), all[k as int], word_id());
        }
        if is_word(&tokens[k].0, &id_word) {
            let v = copy_range(&tokens[k].1, 0, tokens[k].1.len());
            proof {
                assert(v@ =~= tokens@[k as int].1@);
            }
            found = Some(v);
        }
        k += 1;
    }
    proof {
        assert(all.take(k as int) =~= all);
    }
    found
}

} // verus!
