//! Splitting text into lines as `str::split_inclusive('\n')` and `str::lines`
//! do, and joining them back.
use vstd::prelude::*;
use crate::text::{push_char, string_of};

verus! {

/// Index of the first line feed at or after `i`, or the length.
pub open spec fn line_feed_from(s: Seq<char>, i: int) -> int
    decreases s.len() - i,
{
    if 0 <= i < s.len() && s[i] != '\n' {
        line_feed_from(s, i + 1)
    } else {
        i
    }
}

pub proof fn lemma_line_feed_from(s: Seq<char>, i: int)
    requires
        0 <= i <= s.len(),
    ensures
        i <= line_feed_from(s, i) <= s.len(),
        forall|k: int| i <= k < line_feed_from(s, i) ==> #[trigger] s[k] != '\n',
        line_feed_from(s, i) < s.len() ==> s[line_feed_from(s, i)] == '\n',
    decreases s.len() - i,
{
    if i < s.len() && s[i] != '\n' {
        lemma_line_feed_from(s, i + 1);
    }
}

/// The pieces of `s[i..]` that `split_inclusive('\n')` gives: each ends with
/// its line feed, except a last piece without one; there is no empty piece.
pub open spec fn segments_from(s: Seq<char>, i: int) -> Seq<Seq<char>>
    decreases s.len() - i,
{
    if 0 <= i < s.len() {
        let k = line_feed_from(s, i);
        if k >= s.len() {
            seq![s.subrange(i, s.len() as int)]
        } else {
            proof {
                lemma_line_feed_from(s, i);
            }
            seq![s.subrange(i, k + 1)] + segments_from(s, k + 1)
        }
    } else {
        Seq::empty()
    }
}

pub open spec fn segments(s: Seq<char>) -> Seq<Seq<char>> {
    segments_from(s, 0)
}

/// A piece without its line ending (`\n` or `\r\n`), as `str::lines` gives it.
pub open spec fn strip_line_ending(seg: Seq<char>) -> Seq<char> {
    if seg.len() > 0 && seg.last() == '\n' {
        let t = seg.drop_last();
        if t.len() > 0 && t.last() == '\r' {
            t.drop_last()
        } else {
            t
        }
    } else {
        seg
    }
}

/// `str::lines`.
pub open spec fn text_lines(s: Seq<char>) -> Seq<Seq<char>> {
    segments(s).map_values(|seg: Seq<char>| strip_line_ending(seg))
}

/// `trim_end_matches(['\r', '\n'])`: the line without all of its trailing
/// carriage returns and line feeds.
pub open spec fn strip_eol_chars(s: Seq<char>) -> Seq<char>
    decreases s.len(),
{
    if s.len() > 0 && (s.last() == '\r' || s.last() == '\n') {
        strip_eol_chars(s.drop_last())
    } else {
        s
    }
}

pub proof fn lemma_strip_eol_chars_prefix(s: Seq<char>)
    ensures
        strip_eol_chars(s).len() <= s.len(),
        strip_eol_chars(s) == s.subrange(0, strip_eol_chars(s).len() as int),
    decreases s.len(),
{
    if s.len() > 0 && (s.last() == '\r' || s.last() == '\n') {
        lemma_strip_eol_chars_prefix(s.drop_last());
        assert(s.drop_last().subrange(0, strip_eol_chars(s).len() as int) =~= s.subrange(
            0,
            strip_eol_chars(s).len() as int,
        ));
    } else {
        assert(s.subrange(0, s.len() as int) =~= s);
    }
}

/// The pieces of `s`, as `split_inclusive('\n')` gives them.
pub fn split_segments(s: &[char]) -> (v: Vec<Vec<char>>)
    ensures
        v@.len() == segments(s@).len(),
        forall|k: int| 0 <= k < v@.len() ==> (#[trigger] v@[k])@ == segments(s@)[k],
{
    let mut v: Vec<Vec<char>> = Vec::new();
    let ghost mut acc: Seq<Seq<char>> = Seq::empty();
    let mut i: usize = 0;
    while i < s.len()
        invariant
            i <= s@.len(),
            segments(s@) == acc + segments_from(s@, i as int),
            v@.len() == acc.len(),
            forall|k: int| 0 <= k < v@.len() ==> (#[trigger] v@[k])@ == acc[k],
        decreases s.len() - i,
    {
        let mut seg: Vec<char> = Vec::new();
        let mut k = i;
        while k < s.len() && s[k] != '\n'
            invariant
                i <= k <= s@.len(),
                line_feed_from(s@, i as int) == line_feed_from(s@, k as int),
                seg@ == s@.subrange(i as int, k as int),
            decreases s.len() - k,
        {
            seg.push(s[k]);
            proof {
                assert(s@.subrange(i as int, k as int).push(s@[k as int]) =~= s@.subrange(
                    i as int,
                    k + 1,
                ));
            }
            k += 1;
        }
        if k < s.len() {
            seg.push('\n');
            proof {
                assert(s@.subrange(i as int, k as int).push(s@[k as int]) =~= s@.subrange(
                    i as int,
                    k + 1,
                ));
                assert(segments_from(s@, i as int) == seq![seg@] + segments_from(s@, k + 1));
                assert(acc + segments_from(s@, i as int) =~= acc.push(seg@) + segments_from(
                    s@,
                    k + 1,
                ));
                acc = acc.push(seg@);
            }
            v.push(seg);
            i = k + 1;
        } else {
            proof {
                assert(segments_from(s@, i as int) == seq![seg@]);
                assert(segments_from(s@, s@.len() as int) =~= Seq::<Seq<char>>::empty());
                assert(acc + segments_from(s@, i as int) =~= acc.push(seg@) + segments_from(
                    s@,
                    k as int,
                ));
                acc = acc.push(seg@);
            }
            v.push(seg);
            i = k;
        }
    }
    proof {
        assert(acc + segments_from(s@, i as int) =~= acc);
    }
    v
}

/// A piece without its line ending.
pub fn strip_ending(seg: &[char]) -> (r: Vec<char>)
    ensures
        r@ == strip_line_ending(seg@),
{
    let mut end = seg.len();
    if end > 0 && seg[end - 1] == '\n' {
        end -= 1;
        if end > 0 && seg[end - 1] == '\r' {
            end -= 1;
        }
    }
    let mut r: Vec<char> = Vec::new();
    let mut k: usize = 0;
    while k < end
        invariant
            k <= end <= seg@.len(),
            r@ == seg@.subrange(0, k as int),
        decreases end - k,
    {
        r.push(seg[k]);
        proof {
            assert(seg@.subrange(0, k as int).push(seg@[k as int]) =~= seg@.subrange(0, k + 1));
        }
        k += 1;
    }
    proof {
        if seg@.len() > 0 && seg@.last() == '\n' {
            let t = seg@.drop_last();
            if t.len() > 0 && t.last() == '\r' {
                assert(r@ =~= t.drop_last());
            } else {
                assert(r@ =~= t);
            }
        } else {
            assert(r@ =~= seg@);
        }
    }
    r
}

/// The line without its trailing carriage returns and line feeds.
pub fn strip_eol(line: &[char]) -> (r: Vec<char>)
    ensures
        r@ == strip_eol_chars(line@),
{
    let mut end = line.len();
    assert(line@.subrange(0, end as int) =~= line@);
    while end > 0 && (line[end - 1] == '\r' || line[end - 1] == '\n')
        invariant
            end <= line@.len(),
            strip_eol_chars(line@) == strip_eol_chars(line@.subrange(0, end as int)),
        decreases end,
    {
        proof {
            assert(line@.subrange(0, end as int).drop_last() =~= line@.subrange(0, end - 1));
        }
        end -= 1;
    }
    let mut r: Vec<char> = Vec::new();
    let mut k: usize = 0;
    while k < end
        invariant
            k <= end <= line@.len(),
            r@ == line@.subrange(0, k as int),
        decreases end - k,
    {
        r.push(line[k]);
        proof {
            assert(line@.subrange(0, k as int).push(line@[k as int]) =~= line@.subrange(0, k + 1));
        }
        k += 1;
    }
    r
}

/// The pieces of a source text, each a string (`split_inclusive('\n')`).
pub fn split_lines_inclusive(source: &str) -> (v: Vec<String>)
    ensures
        v@.len() == segments(source@).len(),
        forall|k: int| 0 <= k < v@.len() ==> (#[trigger] v@[k])@ == segments(source@)[k],
{
    let chars = crate::text::chars_of(source);
    let segs = split_segments(&chars);
    let mut v: Vec<String> = Vec::new();
    let mut k: usize = 0;
    while k < segs.len()
        invariant
            k <= segs@.len(),
            chars@ == source@,
            segs@.len() == segments(source@).len(),
            forall|j: int| 0 <= j < segs@.len() ==> (#[trigger] segs@[j])@ == segments(source@)[j],
            v@.len() == k,
            forall|j: int| 0 <= j < k ==> (#[trigger] v@[j])@ == segments(source@)[j],
        decreases segs.len() - k,
    {
        v.push(string_of(&segs[k]));
        k += 1;
    }
    v
}

pub open spec fn concat_all(lines: Seq<Seq<char>>) -> Seq<char>
    decreases lines.len(),
{
    if lines.len() == 0 {
        Seq::empty()
    } else {
        concat_all(lines.drop_last()) + lines.last()
    }
}

/// All lines written one after the other.
pub fn join_lines(lines: &Vec<String>) -> (s: String)
    ensures
        s@ == concat_all(crate::models::strings_view(lines@)),
{
    let ghost all = crate::models::strings_view(lines@);
    let mut s = String::new();
    let mut k: usize = 0;
    while k < lines.len()
        invariant
            k <= lines@.len(),
            all == crate::models::strings_view(lines@),
            s@ == concat_all(all.take(k as int)),
        decreases lines.len() - k,
    {
        let chars = crate::text::chars_of(lines[k].as_str());
        let mut j: usize = 0;
        let ghost before = s@;
        while j < chars.len()
            invariant
                j <= chars@.len(),
                s@ == before + chars@.take(j as int),
            decreases chars.len() - j,
        {
            push_char(&mut s, chars[j]);
            proof {
                assert(before + chars@.take(j + 1) =~= (before + chars@.take(j as int)).push(
                    chars@[j as int],
                ));
            }
            j += 1;
        }
        proof {
            assert(chars@.take(j as int) =~= chars@);
            assert(all.take(k + 1).drop_last() =~= all.take(k as int));
            assert(all[k as int] == lines@[k as int]@);
        }
        k += 1;
    }
    proof {
        assert(all.take(k as int) =~= all);
    }
    s
}

} // verus!
