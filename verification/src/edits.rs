//! Edits of a single task line that keep everything they do not change:
//! the checkbox, the text before the metadata, and the metadata comments.
use vstd::prelude::*;
use crate::grammar::{
    comment_spans, comment_spans_from, copy_range, focus_metadata_start, lemma_non_ws_run_end,
    non_ws_run_end, spec_metadata_start,
};
use crate::body::{lemma_comment_spans_bounds, is_word};
use crate::lines::{text_lines, segments, split_segments, strip_ending};
use crate::text::{is_ws, is_whitespace, lemma_ws_run_end, skip_ws, skip_ws_back, trim, trim_end, ws_back_start, ws_run_end, chars_of, string_of, lemma_ws_back_start};

verus! {

/// `lines` joined with single spaces.
pub open spec fn join_with(parts: Seq<Seq<char>>, sep: Seq<char>) -> Seq<char>
    decreases parts.len(),
{
    if parts.len() == 0 {
        Seq::empty()
    } else if parts.len() == 1 {
        parts[0]
    } else {
        join_with(parts.drop_last(), sep) + sep + parts.last()
    }
}

/// The text of a new or edited task: its lines joined with spaces, trimmed.
pub open spec fn spec_clean_text(text: Seq<char>) -> Seq<char> {
    trim(join_with(text_lines(text), seq![' ']))
}

pub fn append_chars(dst: &mut Vec<char>, src: &[char])
    ensures
        final(dst)@ == old(dst)@ + src@,
{
    let mut i: usize = 0;
    let ghost start = dst@;
    while i < src.len()
        invariant
            i <= src@.len(),
            dst@ == start + src@.take(i as int),
        decreases src.len() - i,
    {
        dst.push(src[i]);
        proof {
            assert(start + src@.take(i + 1) =~= (start + src@.take(i as int)).push(src@[i as int]));
        }
        i += 1;
    }
    proof {
        assert(src@.take(i as int) =~= src@);
    }
}

/// The cleaned task text, or `None` where nothing but whitespace is left.
pub fn clean_task_text(text: &str) -> (r: Option<String>)
    ensures
        r matches Some(t) ==> t@ == spec_clean_text(text@) && t@.len() > 0,
        r is None ==> spec_clean_text(text@).len() == 0,
{
    let chars = chars_of(text);
    let segs = split_segments(&chars);
    let ghost ls = text_lines(text@);
    let mut joined: Vec<char> = Vec::new();
    let mut i: usize = 0;
    while i < segs.len()
        invariant
            i <= segs@.len(),
            chars@ == text@,
            ls == text_lines(text@),
            segs@.len() == segments(text@).len(),
            ls.len() == segs@.len(),
            forall|j: int| 0 <= j < segs@.len() ==> (#[trigger] segs@[j])@ == segments(text@)[j],
            joined@ == join_with(ls.take(i as int), seq![' ']),
        decreases segs.len() - i,
    {
        let line = strip_ending(&segs[i]);
        assert(line@ == ls[i as int]);
        proof {
            assert(ls.take(i + 1).drop_last() =~= ls.take(i as int));
        }
        if i > 0 {
            joined.push(' ');
        } else {
            assert(ls.take(0) =~= Seq::<Seq<char>>::empty());
        }
        append_chars(&mut joined, &line);
        proof {
            if i == 0 {
                assert(ls.take(1) =~= seq![ls[0]]);
                assert(joined@ =~= ls[0]);
            } else {
                assert(joined@ =~= join_with(ls.take(i as int), seq![' ']) + seq![' '] + ls[i as int]);
            }
        }
        i += 1;
    }
    proof {
        assert(ls.take(i as int) =~= ls);
    }
    let (a, b) = crate::text::trim_bounds(&joined, 0, joined.len());
    proof {
        assert(joined@.subrange(0, joined@.len() as int) =~= joined@);
    }
    if a == b {
        return None;
    }
    Some(string_of(&copy_range(&joined, a, b)))
}

// ---------------------------------------------------------------------------
// Metadata comments
// ---------------------------------------------------------------------------

/// The whitespace-separated words of `s[i..]` (`str::split_whitespace`).
pub open spec fn words_from(s: Seq<char>, i: int) -> Seq<Seq<char>>
    decreases s.len() - i,
{
    if 0 <= i <= s.len() {
        let a = ws_run_end(s, i);
        if a >= s.len() {
            Seq::empty()
        } else {
            proof {
                lemma_ws_run_end(s, i);
                lemma_non_ws_run_end(s, a);
            }
            seq![s.subrange(a, non_ws_run_end(s, a))] + words_from(s, non_ws_run_end(s, a))
        }
    } else {
        Seq::empty()
    }
}

/// Index of the first `=` at or after `i`, or the length.
pub open spec fn eq_from(s: Seq<char>, i: int) -> int
    decreases s.len() - i,
{
    if 0 <= i < s.len() && s[i] != '=' {
        eq_from(s, i + 1)
    } else {
        i
    }
}

/// The key of a metadata word: what comes before its first `=`, or the whole word.
pub open spec fn token_key(w: Seq<char>) -> Seq<char> {
    w.subrange(0, eq_from(w, 0))
}

pub proof fn lemma_eq_from(s: Seq<char>, i: int)
    requires
        0 <= i <= s.len(),
    ensures
        i <= eq_from(s, i) <= s.len(),
    decreases s.len() - i,
{
    if i < s.len() && s[i] != '=' {
        lemma_eq_from(s, i + 1);
    }
}

/// The words whose key differs from `key`, in order.
pub open spec fn without_key(ws: Seq<Seq<char>>, key: Seq<char>) -> Seq<Seq<char>>
    decreases ws.len(),
{
    if ws.len() == 0 {
        Seq::empty()
    } else if token_key(ws.last()) == key {
        without_key(ws.drop_last(), key)
    } else {
        without_key(ws.drop_last(), key).push(ws.last())
    }
}

pub open spec fn has_key(ws: Seq<Seq<char>>, key: Seq<char>) -> bool {
    exists|j: int| 0 <= j < ws.len() && token_key(#[trigger] ws[j]) == key
}

pub open spec fn open_focus_text() -> Seq<char> {
    seq!['<', '!', '-', '-', ' ', 'f', 'o', 'c', 'u', 's', ':']
}

pub open spec fn close_comment_text() -> Seq<char> {
    seq![' ', '-', '-', '>']
}

/// `<!-- focus:` words joined by spaces ` -->`.
pub open spec fn focus_comment(words: Seq<Seq<char>>) -> Seq<char> {
    open_focus_text() + join_with(words, seq![' ']) + close_comment_text()
}

/// What becomes of one comment when `key` is updated: dropped when no other
/// word is left; rewritten without the key's words when it held any; kept
/// verbatim otherwise. The flag tells whether it holds an `id` word.
pub open spec fn comment_after_update(body: Seq<char>, span: (int, int, int, int), key: Seq<char>) -> Option<(Seq<char>, bool)> {
    let words = words_from(body.subrange(span.1, span.2), 0);
    let kept = without_key(words, key);
    if kept.len() == 0 {
        None
    } else {
        let text = if has_key(words, key) {
            focus_comment(kept)
        } else {
            body.subrange(span.0, span.3)
        };
        Some((text, has_key(kept, seq!['i', 'd'])))
    }
}

/// The updated comments that do (`ids`) or do not hold an `id` word, in order.
pub open spec fn updated_comments(body: Seq<char>, spans: Seq<(int, int, int, int)>, key: Seq<char>, ids: bool) -> Seq<Seq<char>>
    decreases spans.len(),
{
    if spans.len() == 0 {
        Seq::empty()
    } else {
        let rest = updated_comments(body, spans.drop_last(), key, ids);
        match comment_after_update(body, spans.last(), key) {
            Some((text, is_id)) => if is_id == ids {
                rest.push(text)
            } else {
                rest
            },
            None => rest,
        }
    }
}

/// Text followed by parts, each after a space when anything precedes it.
pub open spec fn spaced(start: Seq<char>, parts: Seq<Seq<char>>) -> Seq<char>
    decreases parts.len(),
{
    if parts.len() == 0 {
        start
    } else {
        let before = spaced(start, parts.drop_last());
        if before.len() == 0 {
            parts.last()
        } else {
            before + seq![' '] + parts.last()
        }
    }
}

/// The body with `key` set to `value`, or removed when `value` is `None`: the
/// visible text without trailing whitespace, then the comments without the
/// key, then `<!-- focus:key=value -->`, then the comments holding the id.
pub open spec fn spec_update_metadata(body: Seq<char>, key: Seq<char>, value: Option<Seq<char>>) -> Seq<char> {
    let ms = spec_metadata_start(body);
    let visible = trim_end(body.subrange(0, ms));
    let spans = comment_spans(body, ms);
    let regular = updated_comments(body, spans, key, false);
    let with_new = match value {
        Some(v) => regular.push(focus_comment(seq![key + seq!['='] + v])),
        None => regular,
    };
    spaced(visible, with_new + updated_comments(body, spans, key, true))
}

fn words_of(s: &[char]) -> (r: Vec<Vec<char>>)
    ensures
        r@.len() == words_from(s@, 0).len(),
        forall|k: int| 0 <= k < r@.len() ==> (#[trigger] r@[k])@ == words_from(s@, 0)[k],
{
    let mut r: Vec<Vec<char>> = Vec::new();
    let ghost mut acc: Seq<Seq<char>> = Seq::empty();
    let mut i: usize = 0;
    loop
        invariant
            i <= s@.len(),
            words_from(s@, 0) == acc + words_from(s@, i as int),
            r@.len() == acc.len(),
            forall|k: int| 0 <= k < r@.len() ==> (#[trigger] r@[k])@ == acc[k],
        decreases s.len() - i,
    {
        let a = skip_ws(s, i);
        if a >= s.len() {
            proof {
                assert(acc + words_from(s@, i as int) =~= acc);
            }
            return r;
        }
        proof {
            lemma_ws_run_end(s@, i as int);
            lemma_non_ws_run_end(s@, a as int);
        }
        let mut b = a;
        while b < s.len() && !is_whitespace(s[b])
            invariant
                a <= b <= s@.len(),
                non_ws_run_end(s@, a as int) == non_ws_run_end(s@, b as int),
            decreases s.len() - b,
        {
            b += 1;
        }
        let w = copy_range(s, a, b);
        proof {
            assert(acc + words_from(s@, i as int) =~= acc.push(w@) + words_from(s@, b as int));
            acc = acc.push(w@);
        }
        r.push(w);
        i = b;
    }
}

fn key_of(w: &[char]) -> (k: Vec<char>)
    ensures
        k@ == token_key(w@),
{
    let mut e: usize = 0;
    while e < w.len() && w[e] != '='
        invariant
            e <= w@.len(),
            eq_from(w@, 0) == eq_from(w@, e as int),
        decreases w.len() - e,
    {
        e += 1;
    }
    copy_range(w, 0, e)
}

pub proof fn lemma_without_key_push(ws: Seq<Seq<char>>, w: Seq<char>, key: Seq<char>)
    ensures
        without_key(ws.push(w), key) == if token_key(w) == key {
            without_key(ws, key)
        } else {
            without_key(ws, key).push(w)
        },
{
    assert(ws.push(w).drop_last() =~= ws);
}

fn join_words(words: &Vec<Vec<char>>) -> (r: Vec<char>)
    ensures
        r@ == join_with(words@.map_values(|w: Vec<char>| w@), seq![' ']),
{
    let ghost ws = words@.map_values(|w: Vec<char>| w@);
    let mut r: Vec<char> = Vec::new();
    let mut i: usize = 0;
    while i < words.len()
        invariant
            i <= words@.len(),
            ws == words@.map_values(|w: Vec<char>| w@),
            r@ == join_with(ws.take(i as int), seq![' ']),
        decreases words.len() - i,
    {
        proof {
            assert(ws.take(i + 1).drop_last() =~= ws.take(i as int));
        }
        if i > 0 {
            r.push(' ');
        } else {
            assert(ws.take(0) =~= Seq::<Seq<char>>::empty());
        }
        append_chars(&mut r, &words[i]);
        proof {
            if i == 0 {
                assert(ws.take(1) =~= seq![ws[0]]);
                assert(r@ =~= ws[0]);
            } else {
                assert(r@ =~= join_with(ws.take(i as int), seq![' ']) + seq![' '] + ws[i as int]);
            }
        }
        i += 1;
    }
    proof {
        assert(ws.take(i as int) =~= ws);
    }
    r
}

fn focus_comment_of(words: &Vec<Vec<char>>) -> (r: Vec<char>)
    ensures
        r@ == focus_comment(words@.map_values(|w: Vec<char>| w@)),
{
    let mut r = vec!['<', '!', '-', '-', ' ', 'f', 'o', 'c', 'u', 's', ':'];
    let joined = join_words(words);
    append_chars(&mut r, &joined);
    let close = vec![' ', '-', '-', '>'];
    append_chars(&mut r, &close);
    r
}

/// What becomes of one comment when `key` is updated.
fn update_comment(body: &[char], span: (usize, usize, usize, usize), key: &[char]) -> (r: Option<(Vec<char>, bool)>)
    requires
        span.0 <= span.1 <= span.2 <= span.3 <= body@.len(),
    ensures
        match r {
            Some((t, b)) => comment_after_update(body@, (span.0 as int, span.1 as int, span.2 as int, span.3 as int), key@) == Some((t@, b)),
            None => comment_after_update(body@, (span.0 as int, span.1 as int, span.2 as int, span.3 as int), key@) is None,
        },
{
    let values = copy_range(body, span.1, span.2);
    let words = words_of(&values);
    let ghost ws = words_from(values@, 0);
    let mut kept: Vec<Vec<char>> = Vec::new();
    let mut had_key = false;
    let mut has_id = false;
    let id_word = vec!['i', 'd'];
    let mut i: usize = 0;
    while i < words.len()
        invariant
            i <= words@.len(),
            ws == words_from(values@, 0),
            words@.len() == ws.len(),
            forall|k: int| 0 <= k < words@.len() ==> (#[trigger] words@[k])@ == ws[k],
            id_word@ == seq!['i', 'd'],
            kept@.map_values(|w: Vec<char>| w@) == without_key(ws.take(i as int), key@),
            had_key == has_key(ws.take(i as int), key@),
            has_id == has_key(without_key(ws.take(i as int), key@), seq!['i', 'd']),
        decreases words.len() - i,
    {
        let k = key_of(&words[i]);
        let ghost prev = ws.take(i as int);
        proof {
            assert(ws.take(i + 1) =~= prev.push(ws[i as int]));
            lemma_without_key_push(prev, ws[i as int], key@);
        }
        if is_word(&k, key) {
            had_key = true;
            proof {
                assert(token_key(ws.take(i + 1)[i as int]) == key@);
                assert forall|j: int| 0 <= j < prev.len() && token_key(#[trigger] prev[j]) == key@ implies 0 <= j < ws.take(i + 1).len() && token_key(ws.take(i + 1)[j]) == key@ by {
                    assert(ws.take(i + 1)[j] == prev[j]);
                }
            }
        } else {
            let w = copy_range(&words[i], 0, words[i].len());
            proof {
                assert(w@ =~= ws[i as int]);
            }
            if is_word(&k, &id_word) {
                has_id = true;
            }
            let ghost kept_before = without_key(prev, key@);
            kept.push(w);
            proof {
                assert(kept@.map_values(|w: Vec<char>| w@) =~= kept_before.push(ws[i as int]));
                let nk = kept_before.push(ws[i as int]);
                if token_key(ws[i as int]) == seq!['i', 'd'] {
                    assert(token_key(nk[nk.len() - 1]) == seq!['i', 'd']);
                } else {
                    assert forall|j: int| 0 <= j < nk.len() && token_key(#[trigger] nk[j]) == seq!['i', 'd'] implies 0 <= j < kept_before.len() && token_key(kept_before[j]) == seq!['i', 'd'] by {}
                    assert forall|j: int| 0 <= j < kept_before.len() && token_key(#[trigger] kept_before[j]) == seq!['i', 'd'] implies 0 <= j < nk.len() && token_key(nk[j]) == seq!['i', 'd'] by {
                        assert(nk[j] == kept_before[j]);
                    }
                }
            }
            proof {
                assert forall|j: int| 0 <= j < ws.take(i + 1).len() && token_key(#[trigger] ws.take(i + 1)[j]) == key@ implies 0 <= j < prev.len() && token_key(prev[j]) == key@ by {
                    if j < i {
                        assert(ws.take(i + 1)[j] == prev[j]);
                    }
                }
                assert forall|j: int| 0 <= j < prev.len() && token_key(#[trigger] prev[j]) == key@ implies 0 <= j < ws.take(i + 1).len() && token_key(ws.take(i + 1)[j]) == key@ by {
                    assert(ws.take(i + 1)[j] == prev[j]);
                }
            }
        }
        i += 1;
    }
    proof {
        assert(ws.take(i as int) =~= ws);
    }
    if kept.len() == 0 {
        return None;
    }
    let text = if had_key {
        focus_comment_of(&kept)
    } else {
        copy_range(body, span.0, span.3)
    };
    Some((text, has_id))
}

/// The body with the Focus metadata `key` set to `value`, or removed.
pub fn update_focus_metadata(body: &[char], key: &[char], value: Option<&[char]>) -> (r: Vec<char>)
    ensures
        r@ == spec_update_metadata(body@, key@, match value { Some(v) => Some(v@), None => None }),
{
    let ms = focus_metadata_start(body);
    let end = skip_ws_back(body, ms);
    proof {
        crate::text::lemma_ws_back_start_sub(body@, 0, ms as int, ms as int);
        lemma_ws_back_start(body@, ms as int);
        assert(trim_end(body@.subrange(0, ms as int)) =~= body@.subrange(0, end as int));
    }
    let visible = copy_range(body, 0, end);
    let spans = comment_spans_from(body, ms);
    let ghost all = comment_spans(body@, ms as int);
    proof {
        lemma_comment_spans_bounds(body@, ms as int);
    }
    let mut regular: Vec<Vec<char>> = Vec::new();
    let mut ids: Vec<Vec<char>> = Vec::new();
    let mut ci: usize = 0;
    while ci < spans.len()
        invariant
            ci <= spans@.len(),
            all == comment_spans(body@, ms as int),
            spans@.len() == all.len(),
            forall|j: int|
                0 <= j < spans@.len() ==> {
                    let t = #[trigger] spans@[j];
                    all[j] == (t.0 as int, t.1 as int, t.2 as int, t.3 as int)
                },
            forall|j: int|
                0 <= j < all.len() ==> {
                    let t = #[trigger] all[j];
                    &&& 0 <= t.0 <= t.1 <= t.2 <= t.3 <= body@.len()
                },
            regular@.map_values(|w: Vec<char>| w@) == updated_comments(body@, all.take(ci as int), key@, false),
            ids@.map_values(|w: Vec<char>| w@) == updated_comments(body@, all.take(ci as int), key@, true),
        decreases spans.len() - ci,
    {
        let span = spans[ci];
        assert(all[ci as int] == (span.0 as int, span.1 as int, span.2 as int, span.3 as int));
        proof {
            assert(all.take(ci + 1).drop_last() =~= all.take(ci as int));
            assert(all.take(ci + 1).last() == all[ci as int]);
        }
        match update_comment(body, span, key) {
            Some((text, is_id)) => {
                let ghost r0 = regular@.map_values(|w: Vec<char>| w@);
                let ghost i0 = ids@.map_values(|w: Vec<char>| w@);
                if is_id {
                    ids.push(text);
                    assert(ids@.map_values(|w: Vec<char>| w@) =~= i0.push(text@));
                } else {
                    regular.push(text);
                    assert(regular@.map_values(|w: Vec<char>| w@) =~= r0.push(text@));
                }
            },
            None => {},
        }
        ci += 1;
    }
    proof {
        assert(all.take(ci as int) =~= all);
    }
    match value {
        Some(v) => {
            let mut token: Vec<char> = Vec::new();
            append_chars(&mut token, key);
            token.push('=');
            append_chars(&mut token, v);
            assert(token@ =~= key@ + seq!['='] + v@);
            let mut one: Vec<Vec<char>> = Vec::new();
            one.push(token);
            let ghost r0 = regular@.map_values(|w: Vec<char>| w@);
            proof {
                assert(one@.map_values(|w: Vec<char>| w@) =~= seq![key@ + seq!['='] + v@]);
            }
            let c = focus_comment_of(&one);
            regular.push(c);
            assert(regular@.map_values(|w: Vec<char>| w@) =~= r0.push(focus_comment(seq![key@ + seq!['='] + v@])));
        },
        None => {},
    }
    let ghost parts0 = regular@.map_values(|w: Vec<char>| w@);
    let ghost ids0 = ids@.map_values(|w: Vec<char>| w@);
    let mut k: usize = 0;
    while k < ids.len()
        invariant
            k <= ids@.len(),
            ids0 == ids@.map_values(|w: Vec<char>| w@),
            regular@.map_values(|w: Vec<char>| w@) == parts0 + ids0.take(k as int),
        decreases ids.len() - k,
    {
        let c = copy_range(&ids[k], 0, ids[k].len());
        let ghost before = regular@.map_values(|w: Vec<char>| w@);
        regular.push(c);
        proof {
            assert(c@ =~= ids0[k as int]);
            assert(regular@.map_values(|w: Vec<char>| w@) =~= before.push(ids0[k as int]));
            assert(parts0 + ids0.take(k + 1) =~= (parts0 + ids0.take(k as int)).push(ids0[k as int]));
        }
        k += 1;
    }
    proof {
        assert(ids0.take(k as int) =~= ids0);
    }
    let ghost parts = regular@.map_values(|w: Vec<char>| w@);
    let mut out = visible;
    let mut j: usize = 0;
    while j < regular.len()
        invariant
            j <= regular@.len(),
            parts == regular@.map_values(|w: Vec<char>| w@),
            end <= body@.len(),
            out@ == spaced(body@.subrange(0, end as int), parts.take(j as int)),
        decreases regular.len() - j,
    {
        proof {
            assert(parts.take(j + 1).drop_last() =~= parts.take(j as int));
        }
        let ghost before = out@;
        if out.len() > 0 {
            out.push(' ');
            append_chars(&mut out, &regular[j]);
            assert(out@ =~= before + seq![' '] + parts[j as int]);
        } else {
            append_chars(&mut out, &regular[j]);
            assert(out@ =~= parts[j as int]);
        }
        j += 1;
    }
    proof {
        assert(parts.take(j as int) =~= parts);
    }
    out
}

// ---------------------------------------------------------------------------
// Whole-line edits
// ---------------------------------------------------------------------------

pub open spec fn spaces(n: nat) -> Seq<char> {
    Seq::new(n, |i: int| ' ')
}

/// Scanning the indentation to remove `remaining` columns from `s[i..]`:
/// where the removed prefix ends, and how many spaces replace a tab that is
/// only partly removed.
pub open spec fn outdent_scan(s: Seq<char>, i: int, remaining: int) -> (int, nat)
    decreases s.len() - i,
{
    if remaining <= 0 || i < 0 || i >= s.len() {
        (i, 0)
    } else if s[i] == ' ' {
        outdent_scan(s, i + 1, remaining - 1)
    } else if s[i] == '\t' {
        if remaining >= 4 {
            outdent_scan(s, i + 1, remaining - 4)
        } else {
            (i + 1, (4 - remaining) as nat)
        }
    } else {
        (i, 0)
    }
}

pub proof fn lemma_outdent_scan(s: Seq<char>, i: int, remaining: int)
    requires
        0 <= i <= s.len(),
    ensures
        i <= outdent_scan(s, i, remaining).0 <= s.len(),
        outdent_scan(s, i, remaining).1 < 4,
    decreases s.len() - i,
{
    if remaining > 0 && i < s.len() {
        if s[i] == ' ' {
            lemma_outdent_scan(s, i + 1, remaining - 1);
        } else if s[i] == '\t' && remaining >= 4 {
            lemma_outdent_scan(s, i + 1, remaining - 4);
        }
    }
}

/// The line with `columns` columns of indentation removed: spaces count one
/// column and tabs four; a tab that is only partly removed becomes spaces for
/// the columns that remain; removal stops at the first other character.
pub open spec fn spec_remove_indent(s: Seq<char>, columns: int) -> Seq<char> {
    let (e, sp) = outdent_scan(s, 0, columns);
    spaces(sp) + s.subrange(e, s.len() as int)
}

pub fn remove_indent_columns(line: &[char], columns: usize) -> (r: Vec<char>)
    ensures
        r@ == spec_remove_indent(line@, columns as int),
{
    let mut remaining = columns;
    let mut byte_end: usize = 0;
    let mut replacement_spaces: usize = 0;
    proof {
        lemma_outdent_scan(line@, 0, columns as int);
    }
    loop
        invariant_except_break
            byte_end <= line@.len(),
            replacement_spaces == 0,
            outdent_scan(line@, 0, columns as int) == outdent_scan(line@, byte_end as int, remaining as int),
        ensures
            byte_end <= line@.len(),
            outdent_scan(line@, 0, columns as int) == (byte_end as int, replacement_spaces as nat),
        decreases line.len() - byte_end,
    {
        if byte_end >= line.len() || remaining == 0 {
            break;
        }
        let c = line[byte_end];
        if c == ' ' {
            remaining -= 1;
            byte_end += 1;
        } else if c == '\t' {
            if remaining >= 4 {
                remaining -= 4;
                byte_end += 1;
            } else {
                replacement_spaces = 4 - remaining;
                byte_end += 1;
                break;
            }
        } else {
            break;
        }
    }
    let mut r: Vec<char> = Vec::new();
    let mut k: usize = 0;
    while k < replacement_spaces
        invariant
            k <= replacement_spaces,
            r@ == spaces(k as nat),
        decreases replacement_spaces - k,
    {
        r.push(' ');
        proof {
            assert(spaces(k as nat).push(' ') =~= spaces((k + 1) as nat));
        }
        k += 1;
    }
    let rest = copy_range(line, byte_end, line.len());
    append_chars(&mut r, &rest);
    r
}

/// The line indented by two spaces, unless it is blank.
pub open spec fn spec_indent_line(s: Seq<char>) -> Seq<char> {
    if trim(s).len() == 0 {
        s
    } else {
        seq![' ', ' '] + s
    }
}

pub fn indent_line(line: &[char]) -> (r: Vec<char>)
    ensures
        r@ == spec_indent_line(line@),
{
    let (a, b) = crate::text::trim_bounds(line, 0, line.len());
    proof {
        assert(line@.subrange(0, line@.len() as int) =~= line@);
    }
    if a == b {
        return copy_range(line, 0, line.len());
    }
    let mut r = vec![' ', ' '];
    append_chars(&mut r, line);
    r
}

/// The line ending of a line: `\r\n`, `\n`, or nothing.
pub open spec fn line_ending(s: Seq<char>) -> Seq<char> {
    if s.len() >= 2 && s[s.len() - 2] == '\r' && s[s.len() - 1] == '\n' {
        seq!['\r', '\n']
    } else if s.len() >= 1 && s[s.len() - 1] == '\n' {
        seq!['\n']
    } else {
        Seq::empty()
    }
}

pub open spec fn id_comment(id: Seq<char>) -> Seq<char> {
    seq![' ', '<', '!', '-', '-', ' ', 'f', 'o', 'c', 'u', 's', ':', 'i', 'd', '='] + id + seq![' ', '-', '-', '>']
}

/// The line with ` <!-- focus:id=ID -->` added before its line ending.
pub open spec fn spec_with_id(s: Seq<char>, id: Seq<char>) -> Seq<char> {
    let nl = line_ending(s);
    s.subrange(0, s.len() - nl.len()) + id_comment(id) + nl
}

fn id_comment_of(id: &[char]) -> (r: Vec<char>)
    ensures
        r@ == id_comment(id@),
{
    let mut r = vec![' ', '<', '!', '-', '-', ' ', 'f', 'o', 'c', 'u', 's', ':', 'i', 'd', '='];
    append_chars(&mut r, id);
    let close = vec![' ', '-', '-', '>'];
    append_chars(&mut r, &close);
    r
}

fn ending_len(s: &[char]) -> (n: usize)
    ensures
        n == line_ending(s@).len(),
        n <= s@.len(),
{
    if s.len() >= 2 && s[s.len() - 2] == '\r' && s[s.len() - 1] == '\n' {
        2
    } else if s.len() >= 1 && s[s.len() - 1] == '\n' {
        1
    } else {
        0
    }
}

pub fn with_id_comment(line: &[char], id: &[char]) -> (r: Vec<char>)
    ensures
        r@ == spec_with_id(line@, id@),
{
    let n = ending_len(line);
    let mut r = copy_range(line, 0, line.len() - n);
    let c = id_comment_of(id);
    append_chars(&mut r, &c);
    let nl = copy_range(line, line.len() - n, line.len());
    append_chars(&mut r, &nl);
    proof {
        let s = line@;
        if n == 2 {
            assert(nl@ =~= seq!['\r', '\n']);
        } else if n == 1 {
            assert(nl@ =~= seq!['\n']);
        } else {
            assert(nl@ =~= Seq::<char>::empty());
        }
    }
    r
}

/// The line with the mark at `pos` flipped: a checked mark becomes a space,
/// anything else becomes `x`.
pub open spec fn spec_toggle_mark(s: Seq<char>, pos: int) -> Seq<char> {
    s.update(pos, if s[pos] == 'x' || s[pos] == 'X' { ' ' } else { 'x' })
}

pub fn toggle_mark(line: &[char], pos: usize) -> (r: Vec<char>)
    requires
        pos < line@.len(),
    ensures
        r@ == spec_toggle_mark(line@, pos as int),
{
    let mut r = copy_range(line, 0, line.len());
    proof {
        assert(r@ =~= line@);
    }
    let c = if line[pos] == 'x' || line[pos] == 'X' {
        ' '
    } else {
        'x'
    };
    r.set(pos, c);
    r
}

/// The body of an edited task: the new text, then the metadata suffix of the
/// old body, after a space unless the suffix is empty or starts with whitespace.
pub open spec fn spec_edited_body(body: Seq<char>, text: Seq<char>) -> Seq<char> {
    let suffix = body.subrange(spec_metadata_start(body), body.len() as int);
    let sep = if suffix.len() == 0 || is_ws(suffix[0]) {
        Seq::empty()
    } else {
        seq![' ']
    };
    text + sep + suffix
}

pub fn edited_body(body: &[char], text: &[char]) -> (r: Vec<char>)
    ensures
        r@ == spec_edited_body(body@, text@),
{
    let ms = focus_metadata_start(body);
    let suffix = copy_range(body, ms, body.len());
    let mut r = copy_range(text, 0, text.len());
    proof {
        assert(r@ =~= text@);
    }
    if !(suffix.len() == 0 || is_whitespace(suffix[0])) {
        r.push(' ');
    }
    append_chars(&mut r, &suffix);
    r
}

/// `s` with `s[from..to]` replaced by `mid`.
pub open spec fn splice(s: Seq<char>, from: int, to: int, mid: Seq<char>) -> Seq<char> {
    s.subrange(0, from) + mid + s.subrange(to, s.len() as int)
}

pub fn splice_chars(s: &[char], from: usize, to: usize, mid: &[char]) -> (r: Vec<char>)
    requires
        from <= to <= s@.len(),
    ensures
        r@ == splice(s@, from as int, to as int, mid@),
{
    let mut r = copy_range(s, 0, from);
    append_chars(&mut r, mid);
    let rest = copy_range(s, to, s.len());
    append_chars(&mut r, &rest);
    r
}

} // verus!
