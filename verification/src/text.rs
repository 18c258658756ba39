use vstd::prelude::*;

verus! {

broadcast use vstd::string::group_string_axioms;

/// Unicode `White_Space`: the characters that `char::is_whitespace`, `str::trim`
/// and the `\s` class of Unicode regular expressions accept.
pub open spec fn is_ws(c: char) -> bool {
    ||| ('\u{9}' <= c && c <= '\u{d}')
    ||| c == ' '
    ||| c == '\u{85}'
    ||| c == '\u{a0}'
    ||| c == '\u{1680}'
    ||| ('\u{2000}' <= c && c <= '\u{200a}')
    ||| c == '\u{2028}'
    ||| c == '\u{2029}'
    ||| c == '\u{202f}'
    ||| c == '\u{205f}'
    ||| c == '\u{3000}'
}

pub fn is_whitespace(c: char) -> (b: bool)
    ensures
        b == is_ws(c),
{
    ('\u{9}' <= c && c <= '\u{d}') || c == ' ' || c == '\u{85}' || c == '\u{a0}' || c
        == '\u{1680}' || ('\u{2000}' <= c && c <= '\u{200a}') || c == '\u{2028}' || c
        == '\u{2029}' || c == '\u{202f}' || c == '\u{205f}' || c == '\u{3000}'
}

/// End of the maximal run of whitespace that starts at `i`.
pub open spec fn ws_run_end(s: Seq<char>, i: int) -> int
    decreases s.len() - i,
{
    if 0 <= i < s.len() && is_ws(s[i]) {
        ws_run_end(s, i + 1)
    } else {
        i
    }
}

pub proof fn lemma_ws_run_end(s: Seq<char>, i: int)
    requires
        0 <= i <= s.len(),
    ensures
        i <= ws_run_end(s, i) <= s.len(),
        forall|k: int| i <= k < ws_run_end(s, i) ==> is_ws(#[trigger] s[k]),
        ws_run_end(s, i) < s.len() ==> !is_ws(s[ws_run_end(s, i)]),
    decreases s.len() - i,
{
    if i < s.len() && is_ws(s[i]) {
        lemma_ws_run_end(s, i + 1);
    }
}

pub fn skip_ws(s: &[char], i: usize) -> (j: usize)
    requires
        i <= s@.len(),
    ensures
        j == ws_run_end(s@, i as int),
        i <= j <= s@.len(),
{
    let mut j = i;
    while j < s.len() && is_whitespace(s[j])
        invariant
            i <= j <= s@.len(),
            ws_run_end(s@, i as int) == ws_run_end(s@, j as int),
        decreases s.len() - j,
    {
        j += 1;
    }
    j
}

/// Start of the maximal run of whitespace that ends at `i`.
pub open spec fn ws_back_start(s: Seq<char>, i: int) -> int
    decreases i,
{
    if 0 < i <= s.len() && is_ws(s[i - 1]) {
        ws_back_start(s, i - 1)
    } else {
        i
    }
}

pub proof fn lemma_ws_back_start(s: Seq<char>, i: int)
    requires
        0 <= i <= s.len(),
    ensures
        0 <= ws_back_start(s, i) <= i,
        forall|k: int| ws_back_start(s, i) <= k < i ==> is_ws(#[trigger] s[k]),
        ws_back_start(s, i) > 0 ==> !is_ws(s[ws_back_start(s, i) - 1]),
    decreases i,
{
    if 0 < i && is_ws(s[i - 1]) {
        lemma_ws_back_start(s, i - 1);
    }
}

/// `s` without its trailing whitespace (`str::trim_end`).
pub open spec fn trim_end(s: Seq<char>) -> Seq<char> {
    s.subrange(0, ws_back_start(s, s.len() as int))
}

/// `s` without its leading and trailing whitespace (`str::trim`).
pub open spec fn trim(s: Seq<char>) -> Seq<char> {
    let a = ws_run_end(s, 0);
    if a == s.len() {
        Seq::empty()
    } else {
        s.subrange(a, ws_back_start(s, s.len() as int))
    }
}

pub fn skip_ws_back(s: &[char], i: usize) -> (j: usize)
    requires
        i <= s@.len(),
    ensures
        j == ws_back_start(s@, i as int),
        j <= i,
{
    let mut j = i;
    while j > 0 && is_whitespace(s[j - 1])
        invariant
            j <= i <= s@.len(),
            ws_back_start(s@, i as int) == ws_back_start(s@, j as int),
        decreases j,
    {
        j -= 1;
    }
    j
}

/// The bounds of `s[from..to]` without its leading and trailing whitespace.
pub fn trim_bounds(s: &[char], from: usize, to: usize) -> (r: (usize, usize))
    requires
        from <= to <= s@.len(),
    ensures
        r.0 <= r.1 <= to,
        from <= r.0,
        s@.subrange(r.0 as int, r.1 as int) == trim(s@.subrange(from as int, to as int)),
{
    let ghost t = s@.subrange(from as int, to as int);
    let a = skip_ws(s, from);
    proof {
        lemma_ws_run_end(s@, from as int);
        lemma_ws_run_end(t, 0);
        lemma_ws_run_end_sub(s@, from as int, to as int, from as int);
    }
    if a >= to {
        proof {
            assert(ws_run_end(t, 0) == t.len());
        }
        return (to, to);
    }
    let b = skip_ws_back(s, to);
    proof {
        lemma_ws_back_start(s@, to as int);
        lemma_ws_back_start(t, t.len() as int);
        lemma_ws_back_start_sub(s@, from as int, to as int, to as int);
        assert(!is_ws(s@[a as int]));
        assert(b > a);
        assert(s@.subrange(a as int, b as int) =~= t.subrange(a - from, b - from));
    }
    (a, b)
}

/// Whitespace runs inside a window agree with those of the whole sequence,
/// cut at the window's end.
pub proof fn lemma_ws_run_end_sub(s: Seq<char>, from: int, to: int, i: int)
    requires
        0 <= from <= i <= to <= s.len(),
    ensures
        ws_run_end(s.subrange(from, to), i - from) + from == if ws_run_end(s, i) < to {
            ws_run_end(s, i)
        } else {
            to
        },
    decreases to - i,
{
    let t = s.subrange(from, to);
    lemma_ws_run_end(s, i);
    if i < to && is_ws(s[i]) {
        assert(t[i - from] == s[i]);
        lemma_ws_run_end_sub(s, from, to, i + 1);
    } else if i < to {
        assert(t[i - from] == s[i]);
    }
}

pub proof fn lemma_ws_back_start_sub(s: Seq<char>, from: int, to: int, i: int)
    requires
        0 <= from <= i <= to <= s.len(),
    ensures
        ws_back_start(s.subrange(from, to), i - from) + from == if ws_back_start(s, i) > from {
            ws_back_start(s, i)
        } else {
            from
        },
    decreases i - from,
{
    let t = s.subrange(from, to);
    lemma_ws_back_start(s, i);
    if i > from && is_ws(s[i - 1]) {
        assert(t[i - 1 - from] == s[i - 1]);
        lemma_ws_back_start_sub(s, from, to, i - 1);
    } else if i > from {
        assert(t[i - 1 - from] == s[i - 1]);
    }
}

/// The characters of a string slice, in order.
pub fn chars_of(s: &str) -> (v: Vec<char>)
    ensures
        v@ == s@,
{
    let mut v: Vec<char> = Vec::new();
    for c in it: s.chars()
        invariant
            it.seq() == s@,
            v@ == it.seq().take(it.index() as int),
    {
        v.push(c);
    }
    v
}

/// Appends one character to a string.
#[verifier::external_body]
pub(crate) fn push_char(s: &mut String, c: char)
    ensures
        final(s)@ == old(s)@.push(c),
{
    s.push(c);
}

/// A string holding exactly the given characters.
pub fn string_of(v: &[char]) -> (s: String)
    ensures
        s@ == v@,
{
    let mut s = String::new();
    let mut i: usize = 0;
    while i < v.len()
        invariant
            i <= v.len(),
            s@ == v@.take(i as int),
        decreases v.len() - i,
    {
        push_char(&mut s, v[i]);
        proof {
            assert(v@.take(i as int).push(v@[i as int]) =~= v@.take(i + 1));
        }
        i += 1;
    }
    proof {
        assert(v@.take(v.len() as int) =~= v@);
    }
    s
}

} // verus!
