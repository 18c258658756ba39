//! What setting or clearing one Focus metadata key promises: the key reads
//! back the value that was written (or none once cleared), while the visible
//! text and the stable id stay as they were.
use vstd::prelude::*;
use crate::body::{
    body_tokens, spec_body_blocked, spec_body_estimate, spec_body_task_id, spec_body_text, word_blocked,
    word_estimate, word_status, word_id, last_value, lemma_comment_spans_bounds, tokens_of_comments, value_tokens};
use crate::edits::{comment_after_update, spec_update_metadata, updated_comments, focus_comment, has_key, join_with, spaced, token_key, without_key, words_from};
use crate::markdown_laws::{
    lemma_join_no_lf, lemma_suffix_start, no_comment_opening,
    lemma_comment_at_shift, lemma_comments_to_end_shift, lemma_tokens_shift, lemma_ws_shift, shift_spans,
};
use crate::grammar::{
    comment_at, comment_spans, comments_to_end, gt_from, open_marker_at, spec_metadata_start,
    suffix_start_from, is_key_char, lemma_comment_at, lemma_gt_from, key_run_end, lemma_key_run_end, lemma_non_ws_run_end, non_ws_run_end, token_at,
    token_spans,
};
use crate::grammar::{lemma_checkbox_bounds, spec_checkbox};
use crate::lines::{lemma_strip_eol_chars_prefix, strip_eol_chars};
use crate::locate::line_task;
use crate::models::ascii_lower_seq;
use crate::mutations::{body_of, body_span, with_body};
use crate::numbers::{all_digits, digit_value, digits_value, is_digit, spec_decimal, spec_parse_u32};
use crate::text::{
    is_ws, lemma_ws_back_start, lemma_ws_run_end, lemma_ws_run_end_sub, trim, trim_end, ws_back_start,
    ws_run_end,
};

verus! {

/// The `(key, value)` tokens of `s[i..]`.
pub open spec fn tokens_from(s: Seq<char>, i: int) -> Seq<(Seq<char>, Seq<char>)> {
    token_spans(s, i).map_values(
        |t: (int, int, int)| (s.subrange(t.0, t.1), s.subrange(t.1 + 1, t.2)),
    )
}

/// The tokens of a list of words, word by word.
pub open spec fn word_tokens(ws: Seq<Seq<char>>) -> Seq<(Seq<char>, Seq<char>)>
    decreases ws.len(),
{
    if ws.len() == 0 {
        Seq::empty()
    } else {
        word_tokens(ws.drop_last()) + value_tokens(ws.last())
    }
}

pub proof fn lemma_word_tokens_concat(a: Seq<Seq<char>>, b: Seq<Seq<char>>)
    ensures
        word_tokens(a + b) == word_tokens(a) + word_tokens(b),
    decreases b.len(),
{
    if b.len() == 0 {
        assert(a + b =~= a);
        assert(word_tokens(b) =~= Seq::<(Seq<char>, Seq<char>)>::empty());
        assert(word_tokens(a) + word_tokens(b) =~= word_tokens(a));
    } else {
        assert((a + b).drop_last() =~= a + b.drop_last());
        assert((a + b).last() == b.last());
        lemma_word_tokens_concat(a, b.drop_last());
        assert(word_tokens(a) + word_tokens(b) =~= word_tokens(a) + word_tokens(b.drop_last())
            + value_tokens(b.last()));
    }
}

proof fn lemma_tokens_step(s: Seq<char>, i: int)
    requires
        0 <= i < s.len(),
    ensures
        tokens_from(s, i) == match token_at(s, i) {
            Some((k, e)) => seq![(s.subrange(i, k), s.subrange(k + 1, e))] + tokens_from(s, e),
            None => tokens_from(s, i + 1),
        },
{
    crate::grammar::lemma_token_at(s, i);
    match token_at(s, i) {
        Some((k, e)) => {
            assert(token_spans(s, i) == seq![(i, k, e)] + token_spans(s, e));
            assert(tokens_from(s, i) =~= seq![(s.subrange(i, k), s.subrange(k + 1, e))]
                + tokens_from(s, e));
        },
        None => {
            assert(tokens_from(s, i) =~= tokens_from(s, i + 1));
        },
    }
}

proof fn lemma_tokens_ws(s: Seq<char>, i: int, a: int)
    requires
        0 <= i <= a <= s.len(),
        forall|k: int| i <= k < a ==> is_ws(#[trigger] s[k]),
    ensures
        tokens_from(s, i) == tokens_from(s, a),
    decreases a - i,
{
    if i < a {
        lemma_tokens_step(s, i);
        assert(token_at(s, i) is None);
        lemma_tokens_ws(s, i + 1, a);
    }
}

/// Key runs inside a window agree with those of the whole sequence, cut at
/// the window's end.
proof fn lemma_key_run_sub(s: Seq<char>, from: int, to: int, i: int)
    requires
        0 <= from <= i <= to <= s.len(),
    ensures
        key_run_end(s.subrange(from, to), i - from) + from == if key_run_end(s, i) < to {
            key_run_end(s, i)
        } else {
            to
        },
    decreases to - i,
{
    let t = s.subrange(from, to);
    lemma_key_run_end(s, i);
    if i < to {
        assert(t[i - from] == s[i]);
        if is_key_char(s[i]) {
            lemma_key_run_sub(s, from, to, i + 1);
        }
    }
}

proof fn lemma_non_ws_run_sub(s: Seq<char>, from: int, to: int, i: int)
    requires
        0 <= from <= i <= to <= s.len(),
    ensures
        non_ws_run_end(s.subrange(from, to), i - from) + from == if non_ws_run_end(s, i) < to {
            non_ws_run_end(s, i)
        } else {
            to
        },
    decreases to - i,
{
    let t = s.subrange(from, to);
    lemma_non_ws_run_end(s, i);
    if i < to {
        assert(t[i - from] == s[i]);
        if !is_ws(s[i]) {
            lemma_non_ws_run_sub(s, from, to, i + 1);
        }
    }
}

/// Inside a run of non-whitespace, the run ends where it ends from its start.
proof fn lemma_non_ws_run_inside(s: Seq<char>, a: int, j: int)
    requires
        0 <= a <= j <= non_ws_run_end(s, a),
        a <= s.len(),
    ensures
        non_ws_run_end(s, j) == non_ws_run_end(s, a),
    decreases j - a,
{
    lemma_non_ws_run_end(s, a);
    if a < j {
        assert(!is_ws(s[a]));
        lemma_non_ws_run_inside(s, a + 1, j);
    }
}

/// The tokens that start inside a word are those of the word alone: a token
/// never crosses whitespace, and one that starts in a word ends with it.
#[verifier::spinoff_prover]
proof fn lemma_tokens_word(s: Seq<char>, a: int, p: int)
    requires
        0 <= a <= p <= non_ws_run_end(s, a),
        a <= s.len(),
    ensures
        ({
            let b = non_ws_run_end(s, a);
            tokens_from(s, p) == tokens_from(s.subrange(a, b), p - a) + tokens_from(s, b)
        }),
    decreases non_ws_run_end(s, a) - p,
{
    lemma_non_ws_run_end(s, a);
    let b = non_ws_run_end(s, a);
    let w = s.subrange(a, b);
    if p == b {
        assert(tokens_from(w, p - a) =~= Seq::<(Seq<char>, Seq<char>)>::empty());
        assert(tokens_from(w, p - a) + tokens_from(s, b) =~= tokens_from(s, b));
    } else {
        lemma_tokens_step(s, p);
        lemma_tokens_step(w, p - a);
        assert(w[p - a] == s[p]);
        lemma_tokens_word(s, a, p + 1);
        if crate::grammar::is_ascii_alpha(s[p]) {
            lemma_key_run_end(s, p + 1);
            lemma_key_run_sub(s, a, b, p + 1);
            let k = key_run_end(s, p + 1);
            if k < b {
                assert(!is_ws(s[k]));
                assert(w[k - a] == s[k]);
                if s[k] == '=' {
                    lemma_non_ws_run_inside(s, a, k + 1);
                    lemma_non_ws_run_sub(s, a, b, k + 1);
                    assert(non_ws_run_end(s, k + 1) == b);
                    if b > k + 1 {
                        assert(token_at(s, p) == Some((k, b)));
                        assert(token_at(w, p - a) == Some((k - a, b - a)));
                        assert(tokens_from(w, b - a) =~= Seq::<(Seq<char>, Seq<char>)>::empty());
                        assert(w.subrange(p - a, k - a) =~= s.subrange(p, k));
                        assert(w.subrange(k - a + 1, b - a) =~= s.subrange(k + 1, b));
                        assert(tokens_from(w, p - a) =~= seq![(s.subrange(p, k), s.subrange(k + 1, b))]);
                    }
                }
            } else {
                assert(key_run_end(w, p + 1 - a) == b - a);
                assert(k >= b);
                assert(k == b) by {
                    if k > b {
                        assert(is_key_char(s[b]));
                        assert(is_ws(s[b]));
                    }
                }
                assert(token_at(w, p - a) is None);
                assert(token_at(s, p) is None) by {
                    if k < s.len() {
                        assert(is_ws(s[k]));
                    }
                }
            }
        }
    }
}

/// The tokens of `s[i..]` are those of its whitespace-separated words, word by word.
pub proof fn lemma_tokens_words(s: Seq<char>, i: int)
    requires
        0 <= i <= s.len(),
    ensures
        tokens_from(s, i) == word_tokens(words_from(s, i)),
    decreases s.len() - i,
{
    lemma_ws_run_end(s, i);
    let a = ws_run_end(s, i);
    lemma_tokens_ws(s, i, a);
    if a >= s.len() {
        assert(token_spans(s, a) == Seq::<(int, int, int)>::empty());
        assert(tokens_from(s, a) =~= Seq::<(Seq<char>, Seq<char>)>::empty());
    } else {
        lemma_non_ws_run_end(s, a);
        let b = non_ws_run_end(s, a);
        let w = s.subrange(a, b);
        lemma_tokens_word(s, a, a);
        lemma_tokens_words(s, b);
        let rest = words_from(s, b);
        assert(words_from(s, i) == seq![w] + rest);
        lemma_word_tokens_concat(seq![w], rest);
        assert(seq![w].drop_last() =~= Seq::<Seq<char>>::empty());
        assert(seq![w].last() == w);
        assert(word_tokens(Seq::<Seq<char>>::empty()) =~= Seq::<(Seq<char>, Seq<char>)>::empty());
        assert(word_tokens(seq![w]) =~= value_tokens(w));
        assert(value_tokens(w) =~= tokens_from(w, 0));
    }
}

pub proof fn lemma_join_first(parts: Seq<Seq<char>>, sep: Seq<char>)
    requires
        parts.len() >= 2,
    ensures
        join_with(parts, sep) == parts[0] + sep + join_with(parts.drop_first(), sep),
    decreases parts.len(),
{
    let rest = parts.drop_first();
    assert(rest.last() == parts.last());
    if parts.len() == 2 {
        assert(parts.drop_last() =~= seq![parts[0]]);
        assert(rest =~= seq![parts[1]]);
        assert(join_with(seq![parts[0]], sep) == parts[0]);
        assert(join_with(seq![parts[1]], sep) == parts[1]);
    } else {
        lemma_join_first(parts.drop_last(), sep);
        assert(parts.drop_last().drop_first() =~= rest.drop_last());
        assert(parts.drop_last()[0] == parts[0]);
        assert(join_with(parts, sep) =~= parts[0] + sep + join_with(rest, sep));
    }
}

proof fn lemma_non_ws_shift(p: Seq<char>, s: Seq<char>, i: int)
    requires
        0 <= i <= s.len(),
    ensures
        non_ws_run_end(p + s, p.len() + i) == p.len() + non_ws_run_end(s, i),
    decreases s.len() - i,
{
    let ps = p + s;
    assert(i < s.len() ==> ps[p.len() + i] == s[i]);
    if i < s.len() && !is_ws(s[i]) {
        lemma_non_ws_shift(p, s, i + 1);
    }
}

proof fn lemma_words_shift(p: Seq<char>, s: Seq<char>, i: int)
    requires
        0 <= i <= s.len(),
    ensures
        words_from(p + s, p.len() + i) == words_from(s, i),
    decreases s.len() - i,
{
    let ps = p + s;
    let n = p.len() as int;
    lemma_ws_shift(p, s, i);
    lemma_ws_run_end(s, i);
    let a = ws_run_end(s, i);
    if a < s.len() {
        lemma_non_ws_shift(p, s, a);
        lemma_non_ws_run_end(s, a);
        let b = non_ws_run_end(s, a);
        assert(ps.subrange(n + a, n + b) =~= s.subrange(a, b));
        lemma_words_shift(p, s, b);
    }
}

/// A word, a space, and more text: the word comes first, then the words of the rest.
proof fn lemma_words_cons(w: Seq<char>, r: Seq<char>)
    requires
        w.len() > 0,
        forall|k: int| 0 <= k < w.len() ==> !is_ws(#[trigger] w[k]),
    ensures
        words_from(w + seq![' '] + r, 0) == seq![w] + words_from(r, 0),
{
    let s = w + seq![' '] + r;
    let n = w.len() as int;
    assert forall|k: int| 0 <= k < n implies s[k] == w[k] by {}
    assert(s[n] == ' ');
    assert(ws_run_end(s, 0) == 0);
    assert forall|k: int| 0 <= k <= n implies non_ws_run_end(s, k) == n by {
        lemma_non_ws_down(s, k, n);
    }
    assert(s.subrange(0, n) =~= w);
    assert(ws_run_end(s, n) == ws_run_end(s, n + 1));
    assert(words_from(s, n) == words_from(s, n + 1));
    assert(s =~= (w + seq![' ']) + r);
    lemma_words_shift(w + seq![' '], r, 0);
}

proof fn lemma_non_ws_down(s: Seq<char>, k: int, n: int)
    requires
        0 <= k <= n < s.len(),
        is_ws(s[n]),
        forall|j: int| k <= j < n ==> !is_ws(#[trigger] s[j]),
    ensures
        non_ws_run_end(s, k) == n,
    decreases n - k,
{
    if k < n {
        lemma_non_ws_down(s, k + 1, n);
    }
}

/// The words of words joined by spaces, with a space after, are those words.
pub proof fn lemma_words_of_join(ws: Seq<Seq<char>>)
    requires
        ws.len() > 0,
        forall|j: int| 0 <= j < ws.len() ==> (#[trigger] ws[j]).len() > 0,
        forall|j: int, k: int| 0 <= j < ws.len() && 0 <= k < ws[j].len() ==> !is_ws(#[trigger] ws[j][k]),
    ensures
        words_from(join_with(ws, seq![' ']) + seq![' '], 0) == ws,
    decreases ws.len(),
{
    let w = ws[0];
    assert forall|k: int| 0 <= k < w.len() implies !is_ws(#[trigger] w[k]) by {
        assert(!is_ws(ws[0][k]));
    }
    if ws.len() == 1 {
        assert(join_with(ws, seq![' ']) == w);
        lemma_words_cons(w, Seq::empty());
        assert(w + seq![' '] + Seq::<char>::empty() =~= w + seq![' ']);
        assert(words_from(Seq::<char>::empty(), 0) == Seq::<Seq<char>>::empty());
        assert(seq![w] + Seq::<Seq<char>>::empty() =~= ws);
    } else {
        let rest = ws.drop_first();
        lemma_join_first(ws, seq![' ']);
        assert forall|j: int| 0 <= j < rest.len() implies (#[trigger] rest[j]).len() > 0 by {
            assert(rest[j] == ws[j + 1]);
        }
        assert forall|j: int, k: int| 0 <= j < rest.len() && 0 <= k < rest[j].len() implies !is_ws(#[trigger] rest[j][k]) by {
            assert(rest[j] == ws[j + 1]);
            assert(!is_ws(ws[j + 1][k]));
        }
        lemma_words_of_join(rest);
        let r = join_with(rest, seq![' ']) + seq![' '];
        assert(join_with(ws, seq![' ']) + seq![' '] =~= w + seq![' '] + r);
        lemma_words_cons(w, r);
        assert(seq![w] + rest =~= ws);
    }
}

/// `s` and `t` agree on their first `n` characters.
pub open spec fn agree(s: Seq<char>, t: Seq<char>, n: int) -> bool {
    &&& 0 <= n <= s.len()
    &&& n <= t.len()
    &&& forall|k: int| 0 <= k < n ==> s[k] == t[k]
}

proof fn lemma_ws_agree(s: Seq<char>, t: Seq<char>, n: int, j: int)
    requires
        agree(s, t, n),
        0 <= j < n,
        ws_run_end(s, j) < n,
    ensures
        ws_run_end(t, j) == ws_run_end(s, j),
    decreases n - j,
{
    assert(s[j] == t[j]);
    if is_ws(s[j]) {
        assert(ws_run_end(s, j) == ws_run_end(s, j + 1));
        lemma_ws_run_end(s, j + 1);
        lemma_ws_agree(s, t, n, j + 1);
    }
}

proof fn lemma_gt_agree(s: Seq<char>, t: Seq<char>, n: int, j: int)
    requires
        agree(s, t, n),
        0 <= j < n,
        gt_from(s, j) < n,
    ensures
        gt_from(t, j) == gt_from(s, j),
    decreases n - j,
{
    assert(s[j] == t[j]);
    if s[j] != '>' {
        assert(gt_from(s, j) == gt_from(s, j + 1));
        lemma_gt_from(s, j + 1);
        lemma_gt_agree(s, t, n, j + 1);
    }
}

/// A comment is read from its characters alone.
proof fn lemma_comment_agree(s: Seq<char>, t: Seq<char>, n: int, i: int)
    requires
        agree(s, t, n),
        comment_at(s, i) matches Some((_, _, e)) && e <= n,
    ensures
        comment_at(t, i) == comment_at(s, i),
{
    lemma_comment_at(s, i);
    let f = ws_run_end(s, i + 4);
    lemma_ws_run_end(s, i + 4);
    assert(s[i] == t[i] && s[i + 1] == t[i + 1] && s[i + 2] == t[i + 2] && s[i + 3] == t[i + 3]);
    lemma_ws_agree(s, t, n, i + 4);
    assert(s[f] == t[f] && s[f + 1] == t[f + 1] && s[f + 2] == t[f + 2] && s[f + 3] == t[f + 3]
        && s[f + 4] == t[f + 4] && s[f + 5] == t[f + 5]);
    let c = f + 6;
    let q = gt_from(s, c);
    lemma_gt_from(s, c);
    lemma_gt_agree(s, t, n, c);
    assert(s[q - 2] == t[q - 2] && s[q - 1] == t[q - 1]);
}

/// `c` is exactly one Focus comment.
pub open spec fn is_whole_comment(c: Seq<char>) -> bool {
    comment_at(c, 0) matches Some((_, _, e)) && e == c.len()
}

/// The values of a comment: what stands between `focus:` and `-->`.
pub open spec fn comment_values(c: Seq<char>) -> Seq<char> {
    match comment_at(c, 0) {
        Some((x, y, _)) => c.subrange(x, y),
        None => Seq::empty(),
    }
}

/// The tokens of comments, one after the other.
pub open spec fn parts_tokens(parts: Seq<Seq<char>>) -> Seq<(Seq<char>, Seq<char>)>
    decreases parts.len(),
{
    if parts.len() == 0 {
        Seq::empty()
    } else {
        parts_tokens(parts.drop_last()) + value_tokens(comment_values(parts.last()))
    }
}

pub proof fn lemma_parts_tokens_concat(a: Seq<Seq<char>>, b: Seq<Seq<char>>)
    ensures
        parts_tokens(a + b) == parts_tokens(a) + parts_tokens(b),
    decreases b.len(),
{
    if b.len() == 0 {
        assert(a + b =~= a);
        assert(parts_tokens(a) + parts_tokens(b) =~= parts_tokens(a));
    } else {
        assert((a + b).drop_last() =~= a + b.drop_last());
        assert((a + b).last() == b.last());
        lemma_parts_tokens_concat(a, b.drop_last());
        assert(parts_tokens(a) + parts_tokens(b) =~= parts_tokens(a) + parts_tokens(b.drop_last())
            + value_tokens(comment_values(b.last())));
    }
}

pub proof fn lemma_tokens_of_comments_concat(
    s: Seq<char>,
    a: Seq<(int, int, int, int)>,
    b: Seq<(int, int, int, int)>,
)
    ensures
        tokens_of_comments(s, a + b) == tokens_of_comments(s, a) + tokens_of_comments(s, b),
    decreases b.len(),
{
    if b.len() == 0 {
        assert(a + b =~= a);
        assert(tokens_of_comments(s, a) + tokens_of_comments(s, b) =~= tokens_of_comments(s, a));
    } else {
        assert((a + b).drop_last() =~= a + b.drop_last());
        assert((a + b).last() == b.last());
        lemma_tokens_of_comments_concat(s, a, b.drop_last());
        assert(tokens_of_comments(s, a) + tokens_of_comments(s, b) =~= tokens_of_comments(s, a)
            + tokens_of_comments(s, b.drop_last()) + value_tokens(
            s.subrange(b.last().1, b.last().2),
        ));
    }
}

/// Each comment of trailing metadata is read where it starts.
pub proof fn lemma_comment_spans_at(s: Seq<char>, i: int)
    requires
        0 <= i <= s.len(),
    ensures
        forall|k: int|
            0 <= k < comment_spans(s, i).len() ==> {
                let t = #[trigger] comment_spans(s, i)[k];
                comment_at(s, t.0) == Some((t.1, t.2, t.3))
            },
    decreases s.len() - i,
{
    let a = ws_run_end(s, i);
    lemma_ws_run_end(s, i);
    match comment_at(s, a) {
        None => {},
        Some((c, d, e)) => {
            lemma_comment_at(s, a);
            let b = ws_run_end(s, e);
            lemma_ws_run_end(s, e);
            if b < s.len() {
                lemma_comment_spans_at(s, b);
                let rest = comment_spans(s, b);
                assert(comment_spans(s, i) == seq![(a, c, d, e)] + rest);
                assert forall|k: int| 0 < k < comment_spans(s, i).len() implies #[trigger] comment_spans(
                    s,
                    i,
                )[k] == rest[k - 1] by {}
            }
        },
    }
}

/// A comment of a body, copied out, is one whole comment with the same values.
#[verifier::spinoff_prover]
pub proof fn lemma_raw_comment(s: Seq<char>, a: int)
    requires
        comment_at(s, a) is Some,
    ensures
        ({
            let (c, d, e) = comment_at(s, a)->0;
            &&& is_whole_comment(s.subrange(a, e))
            &&& comment_values(s.subrange(a, e)) == s.subrange(c, d)
        }),
{
    lemma_comment_at(s, a);
    let (c, d, e) = comment_at(s, a)->0;
    let pre = s.subrange(0, a);
    let post = s.subrange(a, s.len() as int);
    assert(pre + post =~= s);
    lemma_comment_at_shift(pre, post, 0);
    assert(comment_at(post, 0) == Some((c - a, d - a, e - a)));
    let raw = s.subrange(a, e);
    assert(agree(post, raw, e - a));
    lemma_comment_agree(post, raw, e - a, 0);
    assert(raw.subrange(c - a, d - a) =~= s.subrange(c, d));
}

proof fn lemma_gt_down(s: Seq<char>, k: int, q: int)
    requires
        0 <= k <= q < s.len(),
        s[q] == '>',
        forall|j: int| k <= j < q ==> #[trigger] s[j] != '>',
    ensures
        gt_from(s, k) == q,
    decreases q - k,
{
    if k < q {
        lemma_gt_down(s, k + 1, q);
    }
}

/// A comment written out from words is one whole comment whose values are
/// the words joined by spaces, then a space; provided no word holds `>`.
#[verifier::spinoff_prover]
pub proof fn lemma_focus_comment(ws: Seq<Seq<char>>)
    requires
        !join_with(ws, seq![' ']).contains('>'),
    ensures
        is_whole_comment(focus_comment(ws)),
        comment_values(focus_comment(ws)) == join_with(ws, seq![' ']) + seq![' '],
        focus_comment(ws)[0] == '<',
{
    let j = join_with(ws, seq![' ']);
    let c = focus_comment(ws);
    let n = j.len() as int;
    assert(c.len() == n + 15);
    assert(c[4] == ' ' && c[5] == 'f');
    assert(ws_run_end(c, 5) == 5);
    assert(ws_run_end(c, 4) == 5);
    assert(crate::grammar::focus_word_at(c, 5));
    assert forall|k: int| 11 <= k < n + 14 implies #[trigger] c[k] != '>' by {
        if k < n + 11 {
            assert(c[k] == j[k - 11]);
            if j[k - 11] == '>' {
                assert(j.contains('>'));
            }
        }
    }
    lemma_gt_down(c, 11, n + 14);
    assert(comment_at(c, 0) == Some((11int, n + 12, n + 15)));
    assert(c.subrange(11, n + 12) =~= j + seq![' ']);
}

/// One whole comment is trailing metadata with its own tokens.
proof fn lemma_one_comment(p0: Seq<char>)
    requires
        is_whole_comment(p0),
    ensures
        p0.len() > 0,
        p0[0] == '<',
        comments_to_end(p0, 0),
        tokens_of_comments(p0, comment_spans(p0, 0)) == value_tokens(comment_values(p0)),
{
    lemma_comment_at(p0, 0);
    let (x, y, e) = comment_at(p0, 0)->0;
    assert(ws_run_end(p0, 0) == 0);
    assert(ws_run_end(p0, e) == e);
    assert(comment_spans(p0, 0) == seq![(0int, x, y, e)]);
    assert(seq![(0int, x, y, e)].drop_last() =~= Seq::<(int, int, int, int)>::empty());
    assert(seq![(0int, x, y, e)].last() == (0int, x, y, e));
    assert(tokens_of_comments(p0, Seq::<(int, int, int, int)>::empty()) =~= Seq::<(Seq<char>, Seq<char>)>::empty());
    assert(comment_values(p0) == p0.subrange(x, y));
    assert(tokens_of_comments(p0, seq![(0int, x, y, e)]) =~= value_tokens(p0.subrange(x, y)));
}

/// A whole comment, a space, then trailing metadata that starts with a
/// comment: the comment's tokens come first.
#[verifier::spinoff_prover]
proof fn lemma_cons_comment(p0: Seq<char>, r: Seq<char>)
    requires
        is_whole_comment(p0),
        r.len() > 0,
        r[0] == '<',
        comments_to_end(r, 0),
    ensures
        ({
            let jn = p0 + seq![' '] + r;
            &&& comments_to_end(jn, 0)
            &&& tokens_of_comments(jn, comment_spans(jn, 0)) == value_tokens(comment_values(p0))
                + tokens_of_comments(r, comment_spans(r, 0))
        }),
{
    lemma_comment_at(p0, 0);
    let (x, y, e) = comment_at(p0, 0)->0;
    let pre = p0 + seq![' '];
    let jn = p0 + seq![' '] + r;
    assert(jn =~= pre + r);
    assert(agree(p0, jn, e));
    lemma_comment_agree(p0, jn, e, 0);
    assert(ws_run_end(jn, 0) == 0);
    assert(jn[e] == ' ');
    assert(jn[e + 1] == r[0]);
    assert(ws_run_end(jn, e + 1) == e + 1);
    assert(ws_run_end(jn, e) == e + 1);
    lemma_comments_to_end_shift(pre, r, 0);
    assert(comments_to_end(jn, 0) == comments_to_end(jn, e + 1));
    let rs = comment_spans(r, 0);
    assert(comment_spans(jn, 0) == seq![(0int, x, y, e)] + shift_spans(e + 1, rs));
    lemma_tokens_of_comments_concat(jn, seq![(0int, x, y, e)], shift_spans(e + 1, rs));
    assert(seq![(0int, x, y, e)].drop_last() =~= Seq::<(int, int, int, int)>::empty());
    assert(seq![(0int, x, y, e)].last() == (0int, x, y, e));
    assert(tokens_of_comments(jn, Seq::<(int, int, int, int)>::empty()) =~= Seq::<(Seq<char>, Seq<char>)>::empty());
    assert(jn.subrange(x, y) =~= p0.subrange(x, y));
    assert(comment_values(p0) == p0.subrange(x, y));
    assert(tokens_of_comments(jn, seq![(0int, x, y, e)]) =~= value_tokens(p0.subrange(x, y)));
    lemma_comment_spans_bounds(r, 0);
    lemma_tokens_shift(pre, r, rs);
}

/// Whole comments joined by spaces are trailing metadata from their start,
/// and their tokens are those of each comment in turn.
#[verifier::spinoff_prover]
pub proof fn lemma_join_comments(parts: Seq<Seq<char>>)
    requires
        parts.len() > 0,
        forall|j: int| 0 <= j < parts.len() ==> is_whole_comment(#[trigger] parts[j]),
    ensures
        ({
            let jn = join_with(parts, seq![' ']);
            &&& jn.len() > 0
            &&& jn[0] == '<'
            &&& comments_to_end(jn, 0)
            &&& tokens_of_comments(jn, comment_spans(jn, 0)) == parts_tokens(parts)
        }),
    decreases parts.len(),
{
    let p0 = parts[0];
    assert(is_whole_comment(p0));
    lemma_one_comment(p0);
    lemma_parts_tokens_concat(seq![p0], parts.drop_first());
    assert(seq![p0] + parts.drop_first() =~= parts);
    assert(seq![p0].drop_last() =~= Seq::<Seq<char>>::empty());
    assert(seq![p0].last() == p0);
    assert(parts_tokens(Seq::<Seq<char>>::empty()) =~= Seq::<(Seq<char>, Seq<char>)>::empty());
    assert(parts_tokens(seq![p0]) =~= value_tokens(comment_values(p0)));
    if parts.len() == 1 {
        assert(join_with(parts, seq![' ']) == p0);
        assert(parts.drop_first() =~= Seq::<Seq<char>>::empty());
    } else {
        let rest = parts.drop_first();
        assert forall|j: int| 0 <= j < rest.len() implies is_whole_comment(#[trigger] rest[j]) by {
            assert(rest[j] == parts[j + 1]);
        }
        lemma_join_comments(rest);
        lemma_join_first(parts, seq![' ']);
        lemma_cons_comment(p0, join_with(rest, seq![' ']));
    }
}

proof fn lemma_join_nonempty(parts: Seq<Seq<char>>)
    requires
        parts.len() > 0,
        forall|j: int| 0 <= j < parts.len() ==> (#[trigger] parts[j]).len() > 0,
    ensures
        join_with(parts, seq![' ']).len() > 0,
{
    if parts.len() > 1 {
        assert(parts.last() == parts[parts.len() - 1]);
    } else {
        assert(parts[0].len() > 0);
    }
}

/// Text followed by non-empty parts, spaced: the parts joined by spaces,
/// after the text and a space when there is any text.
pub proof fn lemma_spaced(start: Seq<char>, parts: Seq<Seq<char>>)
    requires
        forall|j: int| 0 <= j < parts.len() ==> (#[trigger] parts[j]).len() > 0,
    ensures
        spaced(start, parts) == if parts.len() == 0 {
            start
        } else if start.len() == 0 {
            join_with(parts, seq![' '])
        } else {
            start + seq![' '] + join_with(parts, seq![' '])
        },
    decreases parts.len(),
{
    if parts.len() > 0 {
        let init = parts.drop_last();
        assert forall|j: int| 0 <= j < init.len() implies (#[trigger] init[j]).len() > 0 by {
            assert(init[j] == parts[j]);
        }
        lemma_spaced(start, init);
        assert(parts.last() == parts[parts.len() - 1]);
        if parts.len() == 1 {
            assert(join_with(parts, seq![' ']) == parts[0]);
        } else {
            lemma_join_nonempty(init);
            if start.len() > 0 {
                assert(spaced(start, parts) =~= start + seq![' '] + join_with(parts, seq![' ']));
            }
        }
    }
}

/// Trimming what was trimmed at its end is trimming.
pub proof fn lemma_trim_trim_end(x: Seq<char>)
    ensures
        trim(trim_end(x)) == trim(x),
{
    let n = x.len() as int;
    lemma_ws_run_end(x, 0);
    lemma_ws_back_start(x, n);
    let a = ws_run_end(x, 0);
    let bk = ws_back_start(x, n);
    let y = trim_end(x);
    if a == n {
        assert(bk == 0) by {
            if bk > 0 {
                assert(!is_ws(x[bk - 1]));
            }
        }
        assert(y.len() == 0);
        assert(ws_run_end(y, 0) == 0);
    } else {
        assert(!is_ws(x[a]));
        assert(a < bk) by {
            if bk <= a {
                assert(is_ws(x[a]));
            }
        }
        lemma_ws_run_end_sub(x, 0, bk, 0);
        assert(x.subrange(0, bk) == y);
        assert(ws_run_end(y, 0) == a);
        assert(y[bk - 1] == x[bk - 1]);
        assert(ws_back_start(y, bk) == bk);
        assert(y.subrange(a, bk) =~= x.subrange(a, bk));
    }
}

/// Where the text holds no `<!--`, neither does it with its leading whitespace.
pub proof fn lemma_no_opening_trim_end(x: Seq<char>)
    requires
        no_comment_opening(trim(x)),
    ensures
        no_comment_opening(trim_end(x)),
{
    let n = x.len() as int;
    lemma_ws_run_end(x, 0);
    lemma_ws_back_start(x, n);
    let a = ws_run_end(x, 0);
    let bk = ws_back_start(x, n);
    let y = trim_end(x);
    assert forall|i: int| !open_marker_at(y, i) by {
        if open_marker_at(y, i) {
            assert(y[i] == x[i]);
            assert(!is_ws(x[i]));
            assert(a <= i) by {
                if i < a {
                    assert(is_ws(x[i]));
                }
            }
            assert(a < n);
            let t = trim(x);
            assert(t == x.subrange(a, bk));
            assert(t[i - a] == y[i] && t[i - a + 1] == y[i + 1] && t[i - a + 2] == y[i + 2] && t[i - a + 3]
                == y[i + 3]);
            assert(open_marker_at(t, i - a));
        }
    }
}

/// Every word is non-empty and holds no whitespace, and no `>` where the
/// text holds none.
#[verifier::spinoff_prover]
pub proof fn lemma_words_shape(s: Seq<char>, i: int)
    requires
        0 <= i <= s.len(),
    ensures
        forall|j: int|
            0 <= j < words_from(s, i).len() ==> {
                &&& (#[trigger] words_from(s, i)[j]).len() > 0
                &&& forall|k: int| 0 <= k < words_from(s, i)[j].len() ==> !is_ws(#[trigger] words_from(s, i)[j][k])
                &&& !s.contains('>') ==> !words_from(s, i)[j].contains('>')
            },
    decreases s.len() - i,
{
    lemma_ws_run_end(s, i);
    let a = ws_run_end(s, i);
    if a < s.len() {
        lemma_non_ws_run_end(s, a);
        let b = non_ws_run_end(s, a);
        let w = s.subrange(a, b);
        lemma_words_shape(s, b);
        let rest = words_from(s, b);
        assert(words_from(s, i) == seq![w] + rest);
        assert forall|j: int| 0 <= j < words_from(s, i).len() implies {
            &&& (#[trigger] words_from(s, i)[j]).len() > 0
            &&& forall|k: int| 0 <= k < words_from(s, i)[j].len() ==> !is_ws(#[trigger] words_from(s, i)[j][k])
            &&& !s.contains('>') ==> !words_from(s, i)[j].contains('>')
        } by {
            if j == 0 {
                assert(words_from(s, i)[0] == w);
                assert forall|k: int| 0 <= k < w.len() implies !is_ws(#[trigger] w[k]) by {
                    assert(w[k] == s[a + k]);
                }
                if !s.contains('>') && w.contains('>') {
                    let x = choose|x: int| 0 <= x < w.len() && w[x] == '>';
                    assert(s[a + x] == '>');
                }
            } else {
                assert(words_from(s, i)[j] == rest[j - 1]);
            }
        }
    }
}

/// What holds of every word holds of every word kept; none of those has the key.
pub proof fn lemma_without_key_keeps(ws: Seq<Seq<char>>, key: Seq<char>, p: spec_fn(Seq<char>) -> bool)
    requires
        forall|j: int| 0 <= j < ws.len() ==> p(#[trigger] ws[j]),
    ensures
        forall|j: int| 0 <= j < without_key(ws, key).len() ==> p(#[trigger] without_key(ws, key)[j]),
        forall|j: int| 0 <= j < without_key(ws, key).len() ==> token_key(#[trigger] without_key(ws, key)[j]) != key,
        without_key(ws, key).len() <= ws.len(),
    decreases ws.len(),
{
    if ws.len() > 0 {
        let init = ws.drop_last();
        assert forall|j: int| 0 <= j < init.len() implies p(#[trigger] init[j]) by {
            assert(init[j] == ws[j]);
        }
        lemma_without_key_keeps(init, key, p);
        assert(p(ws.last())) by {
            assert(ws.last() == ws[ws.len() - 1]);
        }
    }
}

/// Without the key there is nothing to take away.
pub proof fn lemma_without_absent_key(ws: Seq<Seq<char>>, key: Seq<char>)
    requires
        !has_key(ws, key),
    ensures
        without_key(ws, key) == ws,
    decreases ws.len(),
{
    if ws.len() > 0 {
        let init = ws.drop_last();
        assert(!has_key(init, key)) by {
            if has_key(init, key) {
                let j = choose|j: int| 0 <= j < init.len() && token_key(#[trigger] init[j]) == key;
                assert(ws[j] == init[j]);
            }
        }
        lemma_without_absent_key(init, key);
        assert(token_key(ws[ws.len() - 1]) != key);
        assert(init.push(ws.last()) =~= ws);
    }
}

/// The values of the tokens with the given key, in order.
pub open spec fn keyed(t: Seq<(Seq<char>, Seq<char>)>, key: Seq<char>) -> Seq<Seq<char>>
    decreases t.len(),
{
    if t.len() == 0 {
        Seq::empty()
    } else if t.last().0 == key {
        keyed(t.drop_last(), key).push(t.last().1)
    } else {
        keyed(t.drop_last(), key)
    }
}

/// The last value of a key is the last of its values.
pub proof fn lemma_last_value_keyed(t: Seq<(Seq<char>, Seq<char>)>, key: Seq<char>)
    ensures
        last_value(t, key) == if keyed(t, key).len() > 0 {
            Some(keyed(t, key).last())
        } else {
            None::<Seq<char>>
        },
    decreases t.len(),
{
    if t.len() > 0 {
        lemma_last_value_keyed(t.drop_last(), key);
    }
}

pub proof fn lemma_keyed_concat(a: Seq<(Seq<char>, Seq<char>)>, b: Seq<(Seq<char>, Seq<char>)>, key: Seq<char>)
    ensures
        keyed(a + b, key) == keyed(a, key) + keyed(b, key),
    decreases b.len(),
{
    if b.len() == 0 {
        assert(a + b =~= a);
        assert(keyed(a, key) + keyed(b, key) =~= keyed(a, key));
    } else {
        assert((a + b).drop_last() =~= a + b.drop_last());
        assert((a + b).last() == b.last());
        lemma_keyed_concat(a, b.drop_last(), key);
        if b.last().0 == key {
            assert(keyed(a, key) + keyed(b, key) =~= (keyed(a, key) + keyed(b.drop_last(), key)).push(b.last().1));
        }
    }
}

pub proof fn lemma_keyed_none(t: Seq<(Seq<char>, Seq<char>)>, key: Seq<char>)
    requires
        forall|j: int| 0 <= j < t.len() ==> (#[trigger] t[j]).0 != key,
    ensures
        keyed(t, key) == Seq::<Seq<char>>::empty(),
    decreases t.len(),
{
    if t.len() > 0 {
        let init = t.drop_last();
        assert forall|j: int| 0 <= j < init.len() implies (#[trigger] init[j]).0 != key by {
            assert(init[j] == t[j]);
        }
        lemma_keyed_none(init, key);
        assert(t.last() == t[t.len() - 1]);
    }
}

/// Each token of the word is the word's own `key=value`, if it has one.
pub open spec fn plain_word(w: Seq<char>) -> bool {
    forall|j: int| 0 <= j < value_tokens(w).len() ==> (#[trigger] value_tokens(w)[j]).0 == token_key(w)
}

pub open spec fn all_plain(ws: Seq<Seq<char>>) -> bool {
    forall|j: int| 0 <= j < ws.len() ==> plain_word(#[trigger] ws[j])
}

/// Taking away the words of one key leaves the values of every other key.
#[verifier::spinoff_prover]
pub proof fn lemma_keyed_without(ws: Seq<Seq<char>>, gone: Seq<char>, key: Seq<char>)
    requires
        all_plain(ws),
    ensures
        gone != key ==> keyed(word_tokens(without_key(ws, gone)), key) == keyed(word_tokens(ws), key),
        keyed(word_tokens(without_key(ws, gone)), gone) == Seq::<Seq<char>>::empty(),
        !has_key(ws, key) ==> keyed(word_tokens(ws), key) == Seq::<Seq<char>>::empty(),
    decreases ws.len(),
{
    if ws.len() > 0 {
        let init = ws.drop_last();
        let w = ws.last();
        assert(w == ws[ws.len() - 1]);
        assert(all_plain(init)) by {
            assert forall|j: int| 0 <= j < init.len() implies plain_word(#[trigger] init[j]) by {
                assert(init[j] == ws[j]);
            }
        }
        assert(plain_word(w));
        lemma_keyed_without(init, gone, key);
        let wk = without_key(ws, gone);
        let ik = without_key(init, gone);
        lemma_keyed_concat(word_tokens(init), value_tokens(w), key);
        lemma_keyed_concat(word_tokens(init), value_tokens(w), gone);
        if token_key(w) == gone {
            assert(wk == ik);
            if gone != key {
                lemma_keyed_none(value_tokens(w), key);
                assert(keyed(word_tokens(ws), key) =~= keyed(word_tokens(init), key));
            }
        } else {
            assert(wk == ik.push(w));
            assert(wk.drop_last() == ik);
            assert(wk.last() == w);
            lemma_keyed_concat(word_tokens(ik), value_tokens(w), key);
            lemma_keyed_concat(word_tokens(ik), value_tokens(w), gone);
            lemma_keyed_none(value_tokens(w), gone);
        }
        if !has_key(ws, key) {
            assert(!has_key(init, key)) by {
                if has_key(init, key) {
                    let j = choose|j: int| 0 <= j < init.len() && token_key(#[trigger] init[j]) == key;
                    assert(ws[j] == init[j]);
                }
            }
            assert(token_key(ws[ws.len() - 1]) != key);
            lemma_keyed_none(value_tokens(w), key);
        }
    }
}

/// Words without `>`, joined by spaces, hold no `>`.
proof fn lemma_join_no_gt(parts: Seq<Seq<char>>)
    requires
        forall|j: int| 0 <= j < parts.len() ==> !(#[trigger] parts[j]).contains('>'),
    ensures
        !join_with(parts, seq![' ']).contains('>'),
    decreases parts.len(),
{
    if parts.len() > 1 {
        let init = parts.drop_last();
        assert forall|j: int| 0 <= j < init.len() implies !(#[trigger] init[j]).contains('>') by {
            assert(init[j] == parts[j]);
        }
        lemma_join_no_gt(init);
        let a = join_with(init, seq![' ']);
        let whole = a + seq![' '] + parts.last();
        assert(!parts.last().contains('>')) by {
            assert(parts.last() == parts[parts.len() - 1]);
        }
        if whole.contains('>') {
            let x = choose|x: int| 0 <= x < whole.len() && whole[x] == '>';
            if x < a.len() {
                assert(a[x] == '>');
            } else if x > a.len() {
                assert(parts.last()[x - a.len() - 1] == '>');
            }
        }
    } else if parts.len() == 1 {
        assert(!parts[0].contains('>'));
    }
}

/// The words of one comment of a body.
pub open spec fn span_words(body: Seq<char>, t: (int, int, int, int)) -> Seq<Seq<char>> {
    words_from(body.subrange(t.1, t.2), 0)
}

pub open spec fn word_shape(w: Seq<char>) -> bool {
    &&& w.len() > 0
    &&& forall|k: int| 0 <= k < w.len() ==> !is_ws(#[trigger] w[k])
    &&& !w.contains('>')
}

/// One comment of a body before and after an update of `key`: its tokens are
/// those of its words, and what is written in its place, if anything, is one
/// whole comment with the tokens of the words kept.
#[verifier::spinoff_prover]
pub proof fn lemma_updated_comment(body: Seq<char>, t: (int, int, int, int), key: Seq<char>)
    requires
        comment_at(body, t.0) == Some((t.1, t.2, t.3)),
    ensures
        value_tokens(body.subrange(t.1, t.2)) == word_tokens(span_words(body, t)),
        forall|j: int| 0 <= j < without_key(span_words(body, t), key).len() ==> word_shape(#[trigger] without_key(span_words(body, t), key)[j]),
        match comment_after_update(body, t, key) {
            Some((text, f)) => {
                &&& is_whole_comment(text)
                &&& text.len() > 0
                &&& value_tokens(comment_values(text)) == word_tokens(without_key(span_words(body, t), key))
                &&& f == has_key(without_key(span_words(body, t), key), seq!['i', 'd'])
            },
            None => without_key(span_words(body, t), key).len() == 0,
        },
        !body.contains('\n') ==> (comment_after_update(body, t, key) matches Some((text, _)) ==> !text.contains('\n')),
{
    lemma_comment_at(body, t.0);
    let v = body.subrange(t.1, t.2);
    assert(!v.contains('>')) by {
        if v.contains('>') {
            let x = choose|x: int| 0 <= x < v.len() && v[x] == '>';
            assert(body[t.1 + x] == '>');
        }
    }
    let words = span_words(body, t);
    lemma_words_shape(v, 0);
    lemma_tokens_words(v, 0);
    assert(value_tokens(v) =~= tokens_from(v, 0));
    assert forall|j: int| 0 <= j < words.len() implies word_shape(#[trigger] words[j]) by {
        assert(words[j] == words_from(v, 0)[j]);
    }
    let kept = without_key(words, key);
    lemma_without_key_keeps(words, key, |w: Seq<char>| word_shape(w));
    if kept.len() > 0 {
        if has_key(words, key) {
            assert forall|j: int| 0 <= j < kept.len() implies !(#[trigger] kept[j]).contains('>') by {
                assert(word_shape(kept[j]));
            }
            lemma_join_no_gt(kept);
            lemma_focus_comment(kept);
            let c = focus_comment(kept);
            lemma_comment_at(c, 0);
            let jv = join_with(kept, seq![' ']) + seq![' '];
            assert forall|j: int| 0 <= j < kept.len() implies (#[trigger] kept[j]).len() > 0 by {
                assert(word_shape(kept[j]));
            }
            assert forall|j: int, k: int| 0 <= j < kept.len() && 0 <= k < kept[j].len() implies !is_ws(#[trigger] kept[j][k]) by {
                assert(word_shape(kept[j]));
            }
            lemma_words_of_join(kept);
            lemma_tokens_words(jv, 0);
            assert(value_tokens(jv) =~= tokens_from(jv, 0));
            assert forall|j: int| 0 <= j < kept.len() implies !(#[trigger] kept[j]).contains('\n') by {
                assert(word_shape(kept[j]));
                if kept[j].contains('\n') {
                    let x = choose|x: int| 0 <= x < kept[j].len() && kept[j][x] == '\n';
                    assert(!is_ws(kept[j][x]));
                }
            }
            lemma_join_no_lf(kept);
            let jn = join_with(kept, seq![' ']);
            assert(!c.contains('\n')) by {
                if c.contains('\n') {
                    let x = choose|x: int| 0 <= x < c.len() && c[x] == '\n';
                    if 11 <= x < 11 + jn.len() {
                        assert(jn[x - 11] == '\n');
                    }
                }
            }
        } else {
            lemma_raw_comment(body, t.0);
            lemma_without_absent_key(words, key);
            let raw = body.subrange(t.0, t.3);
            lemma_comment_at(raw, 0);
            if !body.contains('\n') {
                assert(!raw.contains('\n')) by {
                    if raw.contains('\n') {
                        let x = choose|x: int| 0 <= x < raw.len() && raw[x] == '\n';
                        assert(body[t.0 + x] == '\n');
                    }
                }
            }
        }
    }
}

/// Every comment is read where it starts and its words are plain.
pub open spec fn spans_plain(body: Seq<char>, spans: Seq<(int, int, int, int)>) -> bool {
    forall|k: int|
        0 <= k < spans.len() ==> {
            &&& comment_at(body, (#[trigger] spans[k]).0) == Some((spans[k].1, spans[k].2, spans[k].3))
            &&& all_plain(span_words(body, spans[k]))
        }
}

/// The comments written back by an update of `key` are whole comments; none
/// holds the key; those without an id word hold no id; and those with one
/// hold the ids of the old comments, in order, when the key is not `id`.
#[verifier::spinoff_prover]
pub proof fn lemma_updated_all(body: Seq<char>, spans: Seq<(int, int, int, int)>, key: Seq<char>, flag: bool)
    requires
        spans_plain(body, spans),
    ensures
        forall|j: int|
            0 <= j < updated_comments(body, spans, key, flag).len() ==> is_whole_comment(
                #[trigger] updated_comments(body, spans, key, flag)[j],
            ) && updated_comments(body, spans, key, flag)[j].len() > 0,
        keyed(parts_tokens(updated_comments(body, spans, key, flag)), key) == Seq::<Seq<char>>::empty(),
        !flag ==> keyed(parts_tokens(updated_comments(body, spans, key, flag)), word_id())
            == Seq::<Seq<char>>::empty(),
        flag && key != word_id() ==> keyed(parts_tokens(updated_comments(body, spans, key, flag)), word_id())
            == keyed(tokens_of_comments(body, spans), word_id()),
        !body.contains('\n') ==> forall|j: int|
            0 <= j < updated_comments(body, spans, key, flag).len() ==> !(
            #[trigger] updated_comments(body, spans, key, flag)[j]).contains('\n'),
    decreases spans.len(),
{
    let up = updated_comments(body, spans, key, flag);
    if spans.len() == 0 {
        assert(up =~= Seq::<Seq<char>>::empty());
        assert(parts_tokens(up) =~= Seq::<(Seq<char>, Seq<char>)>::empty());
        assert(tokens_of_comments(body, spans) =~= Seq::<(Seq<char>, Seq<char>)>::empty());
    } else {
        let init = spans.drop_last();
        let t = spans.last();
        assert(t == spans[spans.len() - 1]);
        assert(spans_plain(body, init)) by {
            assert forall|k: int| 0 <= k < init.len() implies {
                &&& comment_at(body, (#[trigger] init[k]).0) == Some((init[k].1, init[k].2, init[k].3))
                &&& all_plain(span_words(body, init[k]))
            } by {
                assert(init[k] == spans[k]);
            }
        }
        lemma_updated_all(body, init, key, flag);
        let rest = updated_comments(body, init, key, flag);
        lemma_updated_comment(body, t, key);
        let words = span_words(body, t);
        let kept = without_key(words, key);
        assert(all_plain(words));
        lemma_without_key_keeps(words, key, |w: Seq<char>| plain_word(w));
        assert(all_plain(kept));
        lemma_keyed_without(words, key, word_id());
        lemma_keyed_without(kept, key, word_id());
        let old_tokens = tokens_of_comments(body, spans);
        assert(old_tokens == tokens_of_comments(body, init) + value_tokens(body.subrange(t.1, t.2)));
        lemma_keyed_concat(tokens_of_comments(body, init), value_tokens(body.subrange(t.1, t.2)), word_id());
        assert(without_key(kept, key) == kept) by {
            assert(!has_key(kept, key)) by {
                if has_key(kept, key) {
                    let j = choose|j: int| 0 <= j < kept.len() && token_key(#[trigger] kept[j]) == key;
                }
            }
            lemma_without_absent_key(kept, key);
        }
        match comment_after_update(body, t, key) {
            Some((text, f)) => {
                if f == flag {
                    assert(up == rest.push(text));
                    assert(up.drop_last() =~= rest);
                    assert(up.last() == text);
                    assert(parts_tokens(up) == parts_tokens(rest) + value_tokens(comment_values(text)));
                    lemma_keyed_concat(parts_tokens(rest), value_tokens(comment_values(text)), key);
                    lemma_keyed_concat(parts_tokens(rest), value_tokens(comment_values(text)), word_id());
                    assert forall|j: int| 0 <= j < up.len() implies is_whole_comment(#[trigger] up[j]) && up[j].len() > 0 by {
                        if j < rest.len() {
                            assert(up[j] == rest[j]);
                        }
                    }
                    if !body.contains('\n') {
                        assert forall|j: int| 0 <= j < up.len() implies !(#[trigger] up[j]).contains('\n') by {
                            if j < rest.len() {
                                assert(up[j] == rest[j]);
                            }
                        }
                    }
                } else {
                    assert(up == rest);
                }
            },
            None => {
                assert(up == rest);
                assert(kept =~= Seq::<Seq<char>>::empty());
                assert(word_tokens(kept) =~= Seq::<(Seq<char>, Seq<char>)>::empty());
                assert(keyed(word_tokens(kept), word_id()) =~= Seq::<Seq<char>>::empty());
            },
        }
    }
}

proof fn lemma_key_down(s: Seq<char>, k: int, n: int)
    requires
        0 <= k <= n < s.len(),
        !is_key_char(s[n]),
        forall|j: int| k <= j < n ==> is_key_char(#[trigger] s[j]),
    ensures
        key_run_end(s, k) == n,
    decreases n - k,
{
    if k < n {
        lemma_key_down(s, k + 1, n);
    }
}

/// A metadata key as the token grammar reads it: a letter, then letters,
/// digits, `_` or `-`.
pub open spec fn is_metadata_key(key: Seq<char>) -> bool {
    &&& key.len() > 0
    &&& crate::grammar::is_ascii_alpha(key[0])
    &&& forall|k: int| 0 <= k < key.len() ==> is_key_char(#[trigger] key[k])
}

/// A value that can be written into a comment: non-empty, with no
/// whitespace and no `>`.
pub open spec fn is_metadata_value(v: Seq<char>) -> bool {
    &&& v.len() > 0
    &&& forall|k: int| 0 <= k < v.len() ==> !is_ws(#[trigger] v[k]) && v[k] != '>'
}

/// The comment `<!-- focus:key=value -->`.
pub open spec fn new_comment(key: Seq<char>, v: Seq<char>) -> Seq<char> {
    focus_comment(seq![key + seq!['='] + v])
}

/// The comment written for `key=value` is one whole comment holding exactly
/// that token.
#[verifier::spinoff_prover]
pub proof fn lemma_new_comment(key: Seq<char>, v: Seq<char>)
    requires
        is_metadata_key(key),
        is_metadata_value(v),
    ensures
        is_whole_comment(new_comment(key, v)),
        new_comment(key, v).len() > 0,
        value_tokens(comment_values(new_comment(key, v))) == seq![(key, v)],
{
    let w = key + seq!['='] + v;
    let n = key.len() as int;
    assert(join_with(seq![w], seq![' ']) == w);
    assert(!w.contains('>')) by {
        if w.contains('>') {
            let x = choose|x: int| 0 <= x < w.len() && w[x] == '>';
            if x < n {
                assert(is_key_char(key[x]));
            } else if x > n {
                assert(w[x] == v[x - n - 1]);
            }
        }
    }
    lemma_focus_comment(seq![w]);
    let c = new_comment(key, v);
    lemma_comment_at(c, 0);
    let s = w + seq![' '];
    let m = s.len() as int;
    assert(m == n + 1 + v.len() + 1);
    assert forall|j: int| 1 <= j < n implies is_key_char(#[trigger] s[j]) by {
        assert(s[j] == key[j]);
    }
    assert(s[n] == '=');
    lemma_key_down(s, 1, n);
    assert forall|j: int| n + 1 <= j < m - 1 implies !is_ws(#[trigger] s[j]) by {
        assert(s[j] == v[j - n - 1]);
    }
    assert(is_ws(s[m - 1]));
    lemma_non_ws_down(s, n + 1, m - 1);
    assert(s[0] == key[0]);
    assert(token_at(s, 0) == Some((n, m - 1)));
    lemma_tokens_step(s, 0);
    lemma_tokens_step(s, m - 1);
    assert(token_at(s, m - 1) is None);
    assert(token_spans(s, m) == Seq::<(int, int, int)>::empty());
    assert(tokens_from(s, m) =~= Seq::<(Seq<char>, Seq<char>)>::empty());
    assert(s.subrange(0, n) =~= key);
    assert(s.subrange(n + 1, m - 1) =~= v);
    assert(value_tokens(s) =~= tokens_from(s, 0));
    assert(value_tokens(s) =~= seq![(key, v)]);
}

/// Every word of the body's metadata is a plain `key=value` token or holds
/// none: no word hides a token after other characters.
pub open spec fn plain_metadata(body: Seq<char>) -> bool {
    let spans = comment_spans(body, spec_metadata_start(body));
    forall|k: int| 0 <= k < spans.len() ==> all_plain(span_words(body, #[trigger] spans[k]))
}

/// The comments that an update of `key` writes after the visible text.
pub open spec fn update_parts(body: Seq<char>, key: Seq<char>, value: Option<Seq<char>>) -> Seq<Seq<char>> {
    let spans = comment_spans(body, spec_metadata_start(body));
    let regular = updated_comments(body, spans, key, false);
    let with_new = match value {
        Some(v) => regular.push(focus_comment(seq![key + seq!['='] + v])),
        None => regular,
    };
    with_new + updated_comments(body, spans, key, true)
}

/// An updated body keeps the visible text, and its metadata is the comments
/// written back.
#[verifier::spinoff_prover]
pub proof fn lemma_updated_body(body: Seq<char>, key: Seq<char>, value: Option<Seq<char>>)
    requires
        is_metadata_key(key),
        value matches Some(v) ==> is_metadata_value(v),
        no_comment_opening(spec_body_text(body)),
        plain_metadata(body),
    ensures
        spec_body_text(spec_update_metadata(body, key, value)) == spec_body_text(body),
        body_tokens(spec_update_metadata(body, key, value)) == parts_tokens(update_parts(body, key, value)),
        forall|j: int|
            0 <= j < update_parts(body, key, value).len() ==> is_whole_comment(
                #[trigger] update_parts(body, key, value)[j],
            ),
{
    let ms = spec_metadata_start(body);
    lemma_suffix_start(body, 0);
    let pre = body.subrange(0, ms);
    let visible = trim_end(pre);
    let spans = comment_spans(body, ms);
    lemma_comment_spans_at(body, ms);
    assert(spans_plain(body, spans));
    lemma_updated_all(body, spans, key, false);
    lemma_updated_all(body, spans, key, true);
    let regular = updated_comments(body, spans, key, false);
    let ids = updated_comments(body, spans, key, true);
    let with_new = match value {
        Some(v) => regular.push(focus_comment(seq![key + seq!['='] + v])),
        None => regular,
    };
    let parts = with_new + ids;
    assert(parts == update_parts(body, key, value));
    if let Some(v) = value {
        lemma_new_comment(key, v);
    }
    assert forall|j: int| 0 <= j < parts.len() implies is_whole_comment(#[trigger] parts[j]) && parts[j].len() > 0 by {
        if j < regular.len() {
            assert(parts[j] == regular[j]);
        } else if j < with_new.len() {
            assert(parts[j] == new_comment(key, value->0));
        } else {
            assert(parts[j] == ids[j - with_new.len()]);
        }
    }
    lemma_spaced(visible, parts);
    let b2 = spec_update_metadata(body, key, value);
    assert(b2 == spaced(visible, parts));
    lemma_no_opening_trim_end(pre);
    lemma_trim_trim_end(pre);
    lemma_ws_back_start(pre, pre.len() as int);
    if parts.len() == 0 {
        assert(b2 == visible);
        crate::markdown_laws::lemma_no_comments(visible, 0);
        crate::markdown_laws::lemma_no_comments(visible, visible.len() as int);
        assert(visible.subrange(0, visible.len() as int) =~= visible);
        assert(parts_tokens(parts) =~= Seq::<(Seq<char>, Seq<char>)>::empty());
        assert(tokens_of_comments(visible, Seq::<(int, int, int, int)>::empty()) =~= Seq::<(Seq<char>, Seq<char>)>::empty());
    } else {
        lemma_join_comments(parts);
        let jn = join_with(parts, seq![' ']);
        if visible.len() == 0 {
            assert(b2 == jn);
            assert(suffix_start_from(jn, 0) == 0);
            assert(jn.subrange(0, 0) =~= visible);
        } else {
            assert(b2 == visible + seq![' '] + jn);
            assert(!is_ws(visible.last()));
            crate::markdown_laws::lemma_edited_with_suffix(visible, seq![' '], jn);
            lemma_comment_spans_bounds(jn, 0);
            lemma_tokens_shift(visible + seq![' '], jn, comment_spans(jn, 0));
            assert((visible + seq![' ']) + jn == b2);
            assert(b2.subrange(0, visible.len() as int) =~= visible);
        }
    }
}

/// Setting a metadata key and reading the body back gives the value written,
/// and clearing it gives none; the visible text stays as it was, and so does
/// the stable id when the key is another one. This holds where the text does
/// not open an HTML comment and every word of the metadata is a plain
/// `key=value` token or holds none.
#[verifier::spinoff_prover]
pub proof fn law_metadata_update_reads_back(body: Seq<char>, key: Seq<char>, value: Option<Seq<char>>)
    requires
        is_metadata_key(key),
        value matches Some(v) ==> is_metadata_value(v),
        no_comment_opening(spec_body_text(body)),
        plain_metadata(body),
    ensures
        spec_body_text(spec_update_metadata(body, key, value)) == spec_body_text(body),
        last_value(body_tokens(spec_update_metadata(body, key, value)), key) == value,
        key != word_id() ==> spec_body_task_id(spec_update_metadata(body, key, value))
            == spec_body_task_id(body),
{
    lemma_updated_body(body, key, value);
    let ms = spec_metadata_start(body);
    lemma_suffix_start(body, 0);
    let spans = comment_spans(body, ms);
    lemma_comment_spans_at(body, ms);
    assert(spans_plain(body, spans));
    lemma_updated_all(body, spans, key, false);
    lemma_updated_all(body, spans, key, true);
    let regular = updated_comments(body, spans, key, false);
    let ids = updated_comments(body, spans, key, true);
    let b2 = spec_update_metadata(body, key, value);
    let id = word_id();
    let newc: Seq<Seq<char>> = match value {
        Some(v) => seq![new_comment(key, v)],
        None => Seq::empty(),
    };
    let with_new = match value {
        Some(v) => regular.push(focus_comment(seq![key + seq!['='] + v])),
        None => regular,
    };
    assert(with_new == regular + newc);
    assert(update_parts(body, key, value) == regular + newc + ids);
    lemma_parts_tokens_concat(regular + newc, ids);
    lemma_parts_tokens_concat(regular, newc);
    let t_new = parts_tokens(newc);
    match value {
        Some(v) => {
            lemma_new_comment(key, v);
            assert(newc.drop_last() =~= Seq::<Seq<char>>::empty());
            assert(newc.last() == new_comment(key, v));
            assert(parts_tokens(Seq::<Seq<char>>::empty()) =~= Seq::<(Seq<char>, Seq<char>)>::empty());
            assert(t_new =~= seq![(key, v)]);
            assert(seq![(key, v)].drop_last() =~= Seq::<(Seq<char>, Seq<char>)>::empty());
            assert(seq![(key, v)].last() == (key, v));
            assert(keyed(Seq::<(Seq<char>, Seq<char>)>::empty(), key) =~= Seq::<Seq<char>>::empty());
            assert(keyed(Seq::<(Seq<char>, Seq<char>)>::empty(), id) =~= Seq::<Seq<char>>::empty());
            assert(keyed(t_new, key) =~= seq![v]);
            if key != id {
                assert(keyed(t_new, id) =~= Seq::<Seq<char>>::empty());
            }
        },
        None => {
            assert(t_new =~= Seq::<(Seq<char>, Seq<char>)>::empty());
            assert(keyed(t_new, key) =~= Seq::<Seq<char>>::empty());
            assert(keyed(t_new, id) =~= Seq::<Seq<char>>::empty());
        },
    }
    let all = parts_tokens(regular) + t_new + parts_tokens(ids);
    assert(body_tokens(b2) == all);
    lemma_keyed_concat(parts_tokens(regular) + t_new, parts_tokens(ids), key);
    lemma_keyed_concat(parts_tokens(regular), t_new, key);
    lemma_keyed_concat(parts_tokens(regular) + t_new, parts_tokens(ids), id);
    lemma_keyed_concat(parts_tokens(regular), t_new, id);
    lemma_last_value_keyed(all, key);
    match value {
        Some(v) => {
            assert(keyed(all, key) =~= seq![v]);
        },
        None => {
            assert(keyed(all, key) =~= Seq::<Seq<char>>::empty());
        },
    }
    if key != id {
        assert(keyed(all, id) =~= keyed(body_tokens(body), id));
        lemma_last_value_keyed(all, id);
        lemma_last_value_keyed(body_tokens(body), id);
    }
}

/// The decimal digits of a number read back as that number.
#[verifier::spinoff_prover]
pub proof fn lemma_decimal_reads_back(n: nat)
    requires
        n <= u32::MAX,
    ensures
        spec_decimal(n).len() > 0,
        all_digits(spec_decimal(n)),
        digits_value(spec_decimal(n)) == n,
        spec_parse_u32(spec_decimal(n)) == Some(n as u32),
        is_metadata_value(spec_decimal(n)),
    decreases n,
{
    let d = spec_decimal(n);
    if n < 10 {
        let c = (('0' as u32) + n) as char;
        assert(d == seq![c]);
        assert(digit_value(c) == n);
        assert(d.drop_last() =~= Seq::<char>::empty());
        assert(d.last() == c);
        assert(digits_value(Seq::<char>::empty()) == 0);
        assert(digits_value(d) == n);
    } else {
        lemma_decimal_reads_back(n / 10);
        let c = (('0' as u32) + (n % 10)) as char;
        let e = spec_decimal(n / 10);
        assert(d == e.push(c));
        assert(d.drop_last() =~= e);
        assert(d.last() == c);
        assert(digit_value(c) == n % 10);
        assert(digits_value(d) == digits_value(e) * 10 + n % 10);
        assert((n / 10) * 10 + n % 10 == n) by (nonlinear_arith);
        assert forall|i: int| 0 <= i < d.len() implies is_digit(#[trigger] d[i]) by {
            if i < e.len() {
                assert(d[i] == e[i]);
            }
        }
    }
    assert(is_digit(d[0]));
    assert(d[0] != '+');
    assert forall|k: int| 0 <= k < d.len() implies !is_ws(#[trigger] d[k]) && d[k] != '>' by {
        assert(is_digit(d[k]));
    }
}

/// Setting a task's estimate to `n` Pomodoros reads back `n`, and clearing
/// it reads back none, with the visible text and the stable id unchanged;
/// on the bodies `law_metadata_update_reads_back` speaks of.
#[verifier::spinoff_prover]
pub proof fn law_estimate_reads_back(body: Seq<char>, estimate: Option<u32>)
    requires
        estimate != Some(0u32),
        no_comment_opening(spec_body_text(body)),
        plain_metadata(body),
    ensures
        ({
            let b2 = spec_update_metadata(
                body,
                word_estimate(),
                match estimate {
                    Some(n) => Some(spec_decimal(n as nat)),
                    None => None,
                },
            );
            &&& spec_body_estimate(b2) == estimate
            &&& spec_body_text(b2) == spec_body_text(body)
            &&& spec_body_task_id(b2) == spec_body_task_id(body)
        }),
{
    let value = match estimate {
        Some(n) => Some(spec_decimal(n as nat)),
        None => None,
    };
    assert(is_metadata_key(word_estimate()));
    if let Some(n) = estimate {
        lemma_decimal_reads_back(n as nat);
    }
    law_metadata_update_reads_back(body, word_estimate(), value);
    assert(word_estimate() != word_id()) by {
        assert(word_estimate().len() != word_id().len());
    }
}

/// Toggling whether a task is blocked makes it read back the other way, with
/// the visible text and the stable id unchanged; on the bodies
/// `law_metadata_update_reads_back` speaks of.
#[verifier::spinoff_prover]
pub proof fn law_blocked_toggles(body: Seq<char>, blocked: bool)
    requires
        no_comment_opening(spec_body_text(body)),
        plain_metadata(body),
    ensures
        ({
            let b2 = spec_update_metadata(
                body,
                word_status(),
                if blocked {
                    None
                } else {
                    Some(word_blocked())
                },
            );
            &&& spec_body_blocked(b2) == !blocked
            &&& spec_body_text(b2) == spec_body_text(body)
            &&& spec_body_task_id(b2) == spec_body_task_id(body)
        }),
{
    let value = if blocked {
        None
    } else {
        Some(word_blocked())
    };
    assert(is_metadata_key(word_status()));
    assert(is_metadata_value(word_blocked()));
    law_metadata_update_reads_back(body, word_status(), value);
    assert(word_status() != word_id()) by {
        assert(word_status().len() != word_id().len());
    }
    lemma_blocked_is_lower();
}

proof fn lemma_blocked_is_lower()
    ensures
        ascii_lower_seq(word_blocked()) == word_blocked(),
{
    assert(ascii_lower_seq(word_blocked()) =~= word_blocked());
}

/// Taking away the words of another key keeps whether an id word is there.
#[verifier::spinoff_prover]
proof fn lemma_has_id_without(ws: Seq<Seq<char>>, gone: Seq<char>)
    requires
        gone != word_id(),
    ensures
        has_key(without_key(ws, gone), word_id()) == has_key(ws, word_id()),
    decreases ws.len(),
{
    if ws.len() > 0 {
        let init = ws.drop_last();
        let w = ws.last();
        lemma_has_id_without(init, gone);
        let ik = without_key(init, gone);
        let wk = without_key(ws, gone);
        assert(has_key(ws, word_id()) == (has_key(init, word_id()) || token_key(w) == word_id())) by {
            if has_key(ws, word_id()) {
                let j = choose|j: int| 0 <= j < ws.len() && token_key(#[trigger] ws[j]) == word_id();
                if j < init.len() {
                    assert(init[j] == ws[j]);
                }
            }
            if has_key(init, word_id()) {
                let j = choose|j: int| 0 <= j < init.len() && token_key(#[trigger] init[j]) == word_id();
                assert(ws[j] == init[j]);
            }
            if token_key(w) == word_id() {
                assert(ws[ws.len() - 1] == w);
            }
        }
        if token_key(w) == gone {
            assert(wk == ik);
        } else {
            assert(wk == ik.push(w));
            assert(has_key(wk, word_id()) == (has_key(ik, word_id()) || token_key(w) == word_id())) by {
                if has_key(wk, word_id()) {
                    let j = choose|j: int| 0 <= j < wk.len() && token_key(#[trigger] wk[j]) == word_id();
                    if j < ik.len() {
                        assert(ik[j] == wk[j]);
                    }
                }
                if has_key(ik, word_id()) {
                    let j = choose|j: int| 0 <= j < ik.len() && token_key(#[trigger] ik[j]) == word_id();
                    assert(wk[j] == ik[j]);
                }
                if token_key(w) == word_id() {
                    assert(wk[wk.len() - 1] == w);
                }
            }
        }
    }
}

/// The comment holds an `id` word.
pub open spec fn id_class(body: Seq<char>, t: (int, int, int, int)) -> bool {
    has_key(span_words(body, t), word_id())
}

/// No comment without an `id` word follows one with it.
pub open spec fn ids_after_others(body: Seq<char>, spans: Seq<(int, int, int, int)>) -> bool {
    forall|i: int, j: int|
        0 <= i < j < spans.len() && id_class(body, #[trigger] spans[i]) ==> id_class(body, #[trigger] spans[j])
}

/// The id comments of a body come last in its metadata.
pub open spec fn ids_last(body: Seq<char>) -> bool {
    ids_after_others(body, comment_spans(body, spec_metadata_start(body)))
}

/// When no comment is written back with an id word, none is among the id comments.
#[verifier::spinoff_prover]
proof fn lemma_no_id_comments(body: Seq<char>, spans: Seq<(int, int, int, int)>, key: Seq<char>)
    requires
        spans_plain(body, spans),
        key == word_id() || forall|k: int| 0 <= k < spans.len() ==> !id_class(body, #[trigger] spans[k]),
    ensures
        updated_comments(body, spans, key, true) == Seq::<Seq<char>>::empty(),
    decreases spans.len(),
{
    if spans.len() > 0 {
        let init = spans.drop_last();
        let t = spans.last();
        assert(t == spans[spans.len() - 1]);
        assert(spans_plain(body, init)) by {
            assert forall|k: int| 0 <= k < init.len() implies {
                &&& comment_at(body, (#[trigger] init[k]).0) == Some((init[k].1, init[k].2, init[k].3))
                &&& all_plain(span_words(body, init[k]))
            } by {
                assert(init[k] == spans[k]);
            }
        }
        assert(key == word_id() || forall|k: int| 0 <= k < init.len() ==> !id_class(body, #[trigger] init[k])) by {
            if key != word_id() {
                assert forall|k: int| 0 <= k < init.len() implies !id_class(body, #[trigger] init[k]) by {
                    assert(init[k] == spans[k]);
                }
            }
        }
        lemma_no_id_comments(body, init, key);
        lemma_updated_comment(body, t, key);
        let words = span_words(body, t);
        let kept = without_key(words, key);
        lemma_without_key_keeps(words, key, |w: Seq<char>| true);
        if key == word_id() {
            assert(!has_key(kept, word_id())) by {
                if has_key(kept, word_id()) {
                    let j = choose|j: int| 0 <= j < kept.len() && token_key(#[trigger] kept[j]) == word_id();
                }
            }
        } else {
            lemma_has_id_without(words, key);
            assert(!id_class(body, t));
        }
    }
}

/// The values of any other key are, in order, those of the comments without
/// an id word and then those of the comments with one.
#[verifier::spinoff_prover]
proof fn lemma_other_keys(body: Seq<char>, spans: Seq<(int, int, int, int)>, key: Seq<char>, other: Seq<char>)
    requires
        spans_plain(body, spans),
        other != key,
        key != word_id() ==> ids_after_others(body, spans),
    ensures
        keyed(parts_tokens(updated_comments(body, spans, key, false)), other) + keyed(
            parts_tokens(updated_comments(body, spans, key, true)),
            other,
        ) == keyed(tokens_of_comments(body, spans), other),
    decreases spans.len(),
{
    let reg = updated_comments(body, spans, key, false);
    let ids = updated_comments(body, spans, key, true);
    if spans.len() == 0 {
        assert(reg =~= Seq::<Seq<char>>::empty());
        assert(ids =~= Seq::<Seq<char>>::empty());
        assert(parts_tokens(reg) =~= Seq::<(Seq<char>, Seq<char>)>::empty());
        assert(tokens_of_comments(body, spans) =~= Seq::<(Seq<char>, Seq<char>)>::empty());
        assert(keyed(Seq::<(Seq<char>, Seq<char>)>::empty(), other) =~= Seq::<Seq<char>>::empty());
        assert(Seq::<Seq<char>>::empty() + Seq::<Seq<char>>::empty() =~= Seq::<Seq<char>>::empty());
    } else {
        let init = spans.drop_last();
        let t = spans.last();
        assert(t == spans[spans.len() - 1]);
        assert(spans_plain(body, init)) by {
            assert forall|k: int| 0 <= k < init.len() implies {
                &&& comment_at(body, (#[trigger] init[k]).0) == Some((init[k].1, init[k].2, init[k].3))
                &&& all_plain(span_words(body, init[k]))
            } by {
                assert(init[k] == spans[k]);
            }
        }
        assert(key != word_id() ==> ids_after_others(body, init)) by {
            if key != word_id() {
                assert forall|i: int, j: int| 0 <= i < j < init.len() && id_class(body, #[trigger] init[i]) implies id_class(body, #[trigger] init[j]) by {
                    assert(init[i] == spans[i]);
                    assert(init[j] == spans[j]);
                }
            }
        }
        lemma_other_keys(body, init, key, other);
        let r0 = updated_comments(body, init, key, false);
        let i0 = updated_comments(body, init, key, true);
        lemma_updated_comment(body, t, key);
        let words = span_words(body, t);
        let kept = without_key(words, key);
        assert(all_plain(words));
        lemma_keyed_without(words, key, other);
        let kt = keyed(value_tokens(body.subrange(t.1, t.2)), other);
        assert(tokens_of_comments(body, spans) == tokens_of_comments(body, init) + value_tokens(body.subrange(t.1, t.2)));
        lemma_keyed_concat(tokens_of_comments(body, init), value_tokens(body.subrange(t.1, t.2)), other);
        match comment_after_update(body, t, key) {
            Some((text, f)) => {
                let kn = keyed(value_tokens(comment_values(text)), other);
                assert(kn == kt);
                if f {
                    assert(reg == r0);
                    assert(ids == i0.push(text));
                    assert(ids.drop_last() =~= i0);
                    assert(ids.last() == text);
                    lemma_keyed_concat(parts_tokens(i0), value_tokens(comment_values(text)), other);
                    assert(keyed(parts_tokens(reg), other) + keyed(parts_tokens(ids), other) =~= keyed(parts_tokens(r0), other)
                        + keyed(parts_tokens(i0), other) + kn);
                } else {
                    assert(ids == i0);
                    assert(reg == r0.push(text));
                    assert(reg.drop_last() =~= r0);
                    assert(reg.last() == text);
                    lemma_keyed_concat(parts_tokens(r0), value_tokens(comment_values(text)), other);
                    // no id comment precedes this one
                    if key != word_id() {
                        lemma_has_id_without(words, key);
                        assert(!id_class(body, t));
                        assert forall|k: int| 0 <= k < init.len() implies !id_class(body, #[trigger] init[k]) by {
                            assert(init[k] == spans[k]);
                            if id_class(body, spans[k]) {
                                assert(id_class(body, spans[spans.len() - 1]));
                            }
                        }
                    }
                    lemma_no_id_comments(body, init, key);
                    assert(i0 =~= Seq::<Seq<char>>::empty());
                    assert(parts_tokens(i0) =~= Seq::<(Seq<char>, Seq<char>)>::empty());
                    assert(keyed(Seq::<(Seq<char>, Seq<char>)>::empty(), other) =~= Seq::<Seq<char>>::empty());
                    assert(keyed(parts_tokens(reg), other) + keyed(parts_tokens(ids), other) =~= keyed(parts_tokens(r0), other)
                        + kn);
                    assert(keyed(parts_tokens(r0), other) + keyed(parts_tokens(i0), other) =~= keyed(parts_tokens(r0), other));
                }
            },
            None => {
                assert(reg == r0);
                assert(ids == i0);
                assert(kept =~= Seq::<Seq<char>>::empty());
                assert(word_tokens(kept) =~= Seq::<(Seq<char>, Seq<char>)>::empty());
                assert(keyed(word_tokens(kept), other) =~= Seq::<Seq<char>>::empty());
                assert(keyed(tokens_of_comments(body, spans), other) =~= keyed(tokens_of_comments(body, init), other));
            },
        }
    }
}

/// Setting or clearing one metadata key keeps the value of every other key,
/// unknown ones included; on the bodies `law_metadata_update_reads_back`
/// speaks of whose id comments come last (as every update writes them).
#[verifier::spinoff_prover]
pub proof fn law_update_keeps_other_keys(
    body: Seq<char>,
    key: Seq<char>,
    value: Option<Seq<char>>,
    other: Seq<char>,
)
    requires
        is_metadata_key(key),
        value matches Some(v) ==> is_metadata_value(v),
        no_comment_opening(spec_body_text(body)),
        plain_metadata(body),
        key != word_id() ==> ids_last(body),
        other != key,
    ensures
        last_value(body_tokens(spec_update_metadata(body, key, value)), other) == last_value(
            body_tokens(body),
            other,
        ),
{
    lemma_updated_body(body, key, value);
    let ms = spec_metadata_start(body);
    lemma_suffix_start(body, 0);
    let spans = comment_spans(body, ms);
    lemma_comment_spans_at(body, ms);
    assert(spans_plain(body, spans));
    lemma_other_keys(body, spans, key, other);
    let regular = updated_comments(body, spans, key, false);
    let ids = updated_comments(body, spans, key, true);
    let b2 = spec_update_metadata(body, key, value);
    let newc: Seq<Seq<char>> = match value {
        Some(v) => seq![new_comment(key, v)],
        None => Seq::empty(),
    };
    let with_new = match value {
        Some(v) => regular.push(focus_comment(seq![key + seq!['='] + v])),
        None => regular,
    };
    assert(with_new == regular + newc);
    assert(update_parts(body, key, value) == regular + newc + ids);
    lemma_parts_tokens_concat(regular + newc, ids);
    lemma_parts_tokens_concat(regular, newc);
    let t_new = parts_tokens(newc);
    match value {
        Some(v) => {
            lemma_new_comment(key, v);
            assert(newc.drop_last() =~= Seq::<Seq<char>>::empty());
            assert(newc.last() == new_comment(key, v));
            assert(parts_tokens(Seq::<Seq<char>>::empty()) =~= Seq::<(Seq<char>, Seq<char>)>::empty());
            assert(t_new =~= seq![(key, v)]);
            assert(seq![(key, v)].drop_last() =~= Seq::<(Seq<char>, Seq<char>)>::empty());
            assert(seq![(key, v)].last() == (key, v));
        },
        None => {
            assert(t_new =~= Seq::<(Seq<char>, Seq<char>)>::empty());
        },
    }
    assert(keyed(Seq::<(Seq<char>, Seq<char>)>::empty(), other) =~= Seq::<Seq<char>>::empty());
    assert(keyed(t_new, other) =~= Seq::<Seq<char>>::empty());
    let all = parts_tokens(regular) + t_new + parts_tokens(ids);
    assert(body_tokens(b2) == all);
    lemma_keyed_concat(parts_tokens(regular) + t_new, parts_tokens(ids), other);
    lemma_keyed_concat(parts_tokens(regular), t_new, other);
    assert(keyed(all, other) =~= keyed(body_tokens(body), other));
    lemma_last_value_keyed(all, other);
    lemma_last_value_keyed(body_tokens(body), other);
}

proof fn lemma_join_ends(parts: Seq<Seq<char>>)
    requires
        parts.len() > 0,
        forall|j: int| 0 <= j < parts.len() ==> (#[trigger] parts[j]).len() > 0,
    ensures
        join_with(parts, seq![' ']).len() > 0,
        join_with(parts, seq![' '])[0] == parts[0][0],
        join_with(parts, seq![' ']).last() == parts.last().last(),
{
    lemma_join_nonempty(parts);
    assert(parts.last() == parts[parts.len() - 1]);
    if parts.len() >= 2 {
        lemma_join_first(parts, seq![' ']);
    }
}

/// The comments an update writes back hold no line feed where the body held
/// none, and each starts with `<` and ends with `>`.
#[verifier::spinoff_prover]
proof fn lemma_update_parts_shape(body: Seq<char>, key: Seq<char>, value: Option<Seq<char>>)
    requires
        is_metadata_key(key),
        value matches Some(v) ==> is_metadata_value(v),
        no_comment_opening(spec_body_text(body)),
        plain_metadata(body),
        !body.contains('\n'),
    ensures
        forall|j: int|
            0 <= j < update_parts(body, key, value).len() ==> {
                let p = #[trigger] update_parts(body, key, value)[j];
                &&& !p.contains('\n')
                &&& p.len() > 0
                &&& p[0] == '<'
                &&& p.last() == '>'
            },
{
    lemma_updated_body(body, key, value);
    let ms = spec_metadata_start(body);
    lemma_suffix_start(body, 0);
    let spans = comment_spans(body, ms);
    lemma_comment_spans_at(body, ms);
    assert(spans_plain(body, spans));
    lemma_updated_all(body, spans, key, false);
    lemma_updated_all(body, spans, key, true);
    let regular = updated_comments(body, spans, key, false);
    let ids = updated_comments(body, spans, key, true);
    let parts = update_parts(body, key, value);
    let with_new = match value {
        Some(v) => regular.push(focus_comment(seq![key + seq!['='] + v])),
        None => regular,
    };
    assert(parts == with_new + ids);
    if let Some(v) = value {
        lemma_new_comment(key, v);
        lemma_new_comment_no_lf(key, v);
    }
    assert forall|j: int| 0 <= j < parts.len() implies {
        let p = #[trigger] parts[j];
        &&& !p.contains('\n')
        &&& p.len() > 0
        &&& p[0] == '<'
        &&& p.last() == '>'
    } by {
        if j < regular.len() {
            assert(parts[j] == regular[j]);
        } else if j < with_new.len() {
            assert(parts[j] == new_comment(key, value->0));
        } else {
            assert(parts[j] == ids[j - with_new.len()]);
        }
        assert(is_whole_comment(parts[j]));
        lemma_comment_at(parts[j], 0);
    }
}

proof fn lemma_new_comment_no_lf(key: Seq<char>, v: Seq<char>)
    requires
        is_metadata_key(key),
        is_metadata_value(v),
    ensures
        !new_comment(key, v).contains('\n'),
{
    let nc = new_comment(key, v);
    let w = key + seq!['='] + v;
    assert(join_with(seq![w], seq![' ']) == w);
    if nc.contains('\n') {
        let x = choose|x: int| 0 <= x < nc.len() && nc[x] == '\n';
        if 11 <= x < 11 + w.len() {
            assert(w[x - 11] == '\n');
            if x - 11 < key.len() {
                assert(is_key_char(key[x - 11]));
            } else if x - 11 > key.len() {
                assert(v[x - 12 - key.len()] == '\n');
            }
        }
    }
}

/// An updated body has no line feed where the old one had none, and starts
/// and ends with something other than whitespace.
#[verifier::spinoff_prover]
pub proof fn lemma_updated_shape(body: Seq<char>, key: Seq<char>, value: Option<Seq<char>>)
    requires
        is_metadata_key(key),
        value matches Some(v) ==> is_metadata_value(v),
        no_comment_opening(spec_body_text(body)),
        plain_metadata(body),
        !body.contains('\n'),
        body.len() > 0 ==> !is_ws(body[0]),
    ensures
        !spec_update_metadata(body, key, value).contains('\n'),
        spec_update_metadata(body, key, value).len() > 0 ==> !is_ws(spec_update_metadata(body, key, value)[0])
            && !is_ws(spec_update_metadata(body, key, value).last()),
{
    lemma_update_parts_shape(body, key, value);
    let ms = spec_metadata_start(body);
    lemma_suffix_start(body, 0);
    let pre = body.subrange(0, ms);
    let visible = trim_end(pre);
    let parts = update_parts(body, key, value);
    assert forall|j: int| 0 <= j < parts.len() implies (#[trigger] parts[j]).len() > 0 by {}
    lemma_spaced(visible, parts);
    let b2 = spec_update_metadata(body, key, value);
    assert(b2 == spaced(visible, parts));
    lemma_ws_back_start(pre, pre.len() as int);
    assert(!visible.contains('\n')) by {
        if visible.contains('\n') {
            let x = choose|x: int| 0 <= x < visible.len() && visible[x] == '\n';
            assert(body[x] == '\n');
        }
    }
    if visible.len() > 0 {
        assert(visible[0] == body[0]);
        assert(!is_ws(visible.last()));
    }
    if parts.len() > 0 {
        lemma_join_ends(parts);
        assert forall|j: int| 0 <= j < parts.len() implies !(#[trigger] parts[j]).contains('\n') by {}
        lemma_join_no_lf(parts);
        let jn = join_with(parts, seq![' ']);
        assert(parts[0][0] == '<');
        assert(parts.last() == parts[parts.len() - 1]);
        assert(jn.last() == '>');
        if visible.len() > 0 {
            let whole = visible + seq![' '] + jn;
            assert(b2 == whole);
            assert(whole[0] == visible[0]);
            assert(whole.last() == jn.last());
            assert(!whole.contains('\n')) by {
                if whole.contains('\n') {
                    let x = choose|x: int| 0 <= x < whole.len() && whole[x] == '\n';
                    if x < visible.len() {
                        assert(visible[x] == '\n');
                    } else if x > visible.len() {
                        assert(jn[x - visible.len() - 1] == '\n');
                    }
                }
            }
        }
    }
}

/// What comes after the line without its ending is line-ending characters.
proof fn lemma_strip_tail(l: Seq<char>)
    ensures
        forall|k: int| strip_eol_chars(l).len() <= k < l.len() ==> #[trigger] l[k] == '\r' || l[k] == '\n',
    decreases l.len(),
{
    if l.len() > 0 && (l.last() == '\r' || l.last() == '\n') {
        lemma_strip_tail(l.drop_last());
        assert forall|k: int| strip_eol_chars(l).len() <= k < l.len() implies #[trigger] l[k] == '\r' || l[k] == '\n' by {
            if k < l.len() - 1 {
                assert(l.drop_last()[k] == l[k]);
            }
        }
    }
}

/// Line-ending characters after a text that does not end with one are what
/// stripping the line ending takes away.
#[verifier::spinoff_prover]
proof fn lemma_strip_append(x: Seq<char>, t: Seq<char>)
    requires
        x.len() > 0,
        x.last() != '\r' && x.last() != '\n',
        forall|k: int| 0 <= k < t.len() ==> #[trigger] t[k] == '\r' || t[k] == '\n',
    ensures
        strip_eol_chars(x + t) == x,
    decreases t.len(),
{
    if t.len() == 0 {
        assert(x + t =~= x);
    } else {
        assert((x + t).drop_last() =~= x + t.drop_last());
        assert((x + t).last() == t[t.len() - 1]);
        assert forall|k: int| 0 <= k < t.drop_last().len() implies #[trigger] t.drop_last()[k] == '\r'
            || t.drop_last()[k] == '\n' by {
            assert(t.drop_last()[k] == t[k]);
        }
        lemma_strip_append(x, t.drop_last());
    }
}

proof fn lemma_ws_down(s: Seq<char>, k: int, n: int)
    requires
        0 <= k <= n <= s.len(),
        n < s.len() ==> !is_ws(s[n]),
        forall|j: int| k <= j < n ==> is_ws(#[trigger] s[j]),
    ensures
        ws_run_end(s, k) == n,
    decreases n - k,
{
    if k < n {
        lemma_ws_down(s, k + 1, n);
    }
}

/// A new body keeps a task line a task line: it is non-empty, or the
/// spacing before it does not end with a line-ending character.
pub open spec fn keeps_task_line(l: Seq<char>, b: Seq<char>) -> bool {
    b.len() > 0 || {
        let s = strip_eol_chars(l);
        let bs = body_span(l).0;
        s[bs - 1] != '\r' && s[bs - 1] != '\n'
    }
}

/// Writing a body into a task line keeps its checkbox, mark and indentation,
/// and the line then has that body.
#[verifier::spinoff_prover]
pub proof fn lemma_with_body(l: Seq<char>, b: Seq<char>)
    requires
        spec_checkbox(strip_eol_chars(l)) is Some,
        l.len() <= usize::MAX,
        keeps_task_line(l, b),
        b.len() > 0 ==> !is_ws(b[0]) && !is_ws(b.last()) && !b.contains('\n'),
    ensures
        body_of(with_body(l, b)) == b,
        ({
            let t = line_task(l)->0;
            line_task(with_body(l, b)) == Some((spec_body_text(b), spec_body_task_id(b), t.2, t.3, t.4))
        }),
        body_of(l) == strip_eol_chars(l).subrange(body_span(l).0, strip_eol_chars(l).len() as int),
{
    let s = strip_eol_chars(l);
    lemma_strip_eol_chars_prefix(l);
    lemma_strip_tail(l);
    lemma_checkbox_bounds(s);
    let m = spec_checkbox(s)->0;
    let bs = m.body_start as int;
    let n = s.len() as int;
    let x = s.subrange(0, bs) + b;
    let tail = l.subrange(n, l.len() as int);
    let l2 = with_body(l, b);
    assert(l.subrange(0, bs) =~= s.subrange(0, bs));
    assert(l2 =~= x + tail);
    assert forall|k: int| 0 <= k < tail.len() implies #[trigger] tail[k] == '\r' || tail[k] == '\n' by {
        assert(tail[k] == l[n + k]);
    }
    assert(x.len() > 0);
    if b.len() > 0 {
        assert(x.last() == b.last());
    } else {
        assert(x.last() == s[bs - 1]);
    }
    lemma_strip_append(x, tail);
    assert(strip_eol_chars(l2) == x);
    // the checkbox reads the same
    assert(agree(s, x, bs));
    let a = m.indent_end as int;
    let g = m.gap_end as int;
    lemma_ws_run_end(s, 0);
    lemma_ws_run_end(s, a + 1);
    lemma_ws_agree(s, x, bs, 0);
    lemma_ws_agree(s, x, bs, a + 1);
    assert(x[a] == s[a] && x[g] == s[g] && x[g + 1] == s[g + 1] && x[g + 2] == s[g + 2]);
    assert forall|j: int| g + 3 <= j < bs implies is_ws(#[trigger] x[j]) by {
        assert(x[j] == s[j]);
    }
    if b.len() > 0 {
        assert(x[bs] == b[0]);
    }
    lemma_ws_down(x, g + 3, bs);
    assert(x.subrange(bs, x.len() as int) =~= b);
    assert(!x.subrange(bs, x.len() as int).contains('\n'));
    assert(spec_checkbox(x) == Some(m));
    assert(body_span(l2) == (bs, x.len() as int));
    assert(l2.subrange(bs, x.len() as int) =~= b);
    assert(x.subrange(0, a) =~= s.subrange(0, a));
    assert(x[m.mark_pos()] == s[m.mark_pos()]);
    assert(l.subrange(bs, n) =~= s.subrange(bs, n));
}

/// After the estimate of a task is set or cleared, its line still reads as
/// the same task (text, stable id, checkbox, indentation), and its body
/// reads back the estimate written; on the bodies
/// `law_metadata_update_reads_back` speaks of, where the line keeps a body
/// or its spacing does not end with a line-ending character.
#[verifier::spinoff_prover]
pub proof fn law_estimate_line_reads_back(l: Seq<char>, estimate: Option<u32>)
    requires
        line_task(l) is Some,
        l.len() <= usize::MAX,
        estimate != Some(0u32),
        no_comment_opening(spec_body_text(body_of(l))),
        plain_metadata(body_of(l)),
        keeps_task_line(
            l,
            spec_update_metadata(
                body_of(l),
                word_estimate(),
                match estimate {
                    Some(n) => Some(spec_decimal(n as nat)),
                    None => None,
                },
            ),
        ),
    ensures
        ({
            let l2 = with_body(
                l,
                spec_update_metadata(
                    body_of(l),
                    word_estimate(),
                    match estimate {
                        Some(n) => Some(spec_decimal(n as nat)),
                        None => None,
                    },
                ),
            );
            &&& line_task(l2) == line_task(l)
            &&& spec_body_estimate(body_of(l2)) == estimate
        }),
{
    let value = match estimate {
        Some(n) => Some(spec_decimal(n as nat)),
        None => None,
    };
    let body = body_of(l);
    law_estimate_reads_back(body, estimate);
    lemma_body_of_shape(l);
    assert(is_metadata_key(word_estimate()));
    if let Some(n) = estimate {
        lemma_decimal_reads_back(n as nat);
    }
    lemma_updated_shape(body, word_estimate(), value);
    lemma_with_body(l, spec_update_metadata(body, word_estimate(), value));
}

/// After a task is blocked or unblocked, its line still reads as the same
/// task and its body reads back the other way; on the bodies
/// `law_metadata_update_reads_back` speaks of, where the line keeps a body
/// or its spacing does not end with a line-ending character.
#[verifier::spinoff_prover]
pub proof fn law_blocked_line_toggles(l: Seq<char>, blocked: bool)
    requires
        line_task(l) is Some,
        l.len() <= usize::MAX,
        no_comment_opening(spec_body_text(body_of(l))),
        plain_metadata(body_of(l)),
        keeps_task_line(
            l,
            spec_update_metadata(
                body_of(l),
                word_status(),
                if blocked {
                    None
                } else {
                    Some(word_blocked())
                },
            ),
        ),
    ensures
        ({
            let l2 = with_body(
                l,
                spec_update_metadata(
                    body_of(l),
                    word_status(),
                    if blocked {
                        None
                    } else {
                        Some(word_blocked())
                    },
                ),
            );
            &&& line_task(l2) == line_task(l)
            &&& spec_body_blocked(body_of(l2)) == !blocked
        }),
{
    let value = if blocked {
        None
    } else {
        Some(word_blocked())
    };
    let body = body_of(l);
    law_blocked_toggles(body, blocked);
    lemma_body_of_shape(l);
    assert(is_metadata_key(word_status()));
    assert(is_metadata_value(word_blocked()));
    lemma_updated_shape(body, word_status(), value);
    lemma_with_body(l, spec_update_metadata(body, word_status(), value));
}

/// The body of a task line has no line feed and does not start with whitespace.
#[verifier::spinoff_prover]
proof fn lemma_body_of_shape(l: Seq<char>)
    requires
        line_task(l) is Some,
        l.len() <= usize::MAX,
    ensures
        !body_of(l).contains('\n'),
        body_of(l).len() > 0 ==> !is_ws(body_of(l)[0]),
        body_of(l) == strip_eol_chars(l).subrange(body_span(l).0, strip_eol_chars(l).len() as int),
{
    let s = strip_eol_chars(l);
    lemma_strip_eol_chars_prefix(l);
    lemma_checkbox_bounds(s);
    let bs = body_span(l).0;
    let n = s.len() as int;
    assert(l.subrange(bs, n) =~= s.subrange(bs, n));
    let b = body_of(l);
    if b.contains('\n') {
        let x = choose|x: int| 0 <= x < b.len() && b[x] == '\n';
        assert(s[bs + x] == '\n');
    }
    if b.len() > 0 {
        assert(b[0] == s[bs]);
    }
}

} // verus!
