//! The line grammar of Focus Pane Markdown: task lines with a checkbox,
//! ATX headings, and the trailing `<!-- focus:... -->` metadata comments.
use vstd::prelude::*;
use crate::unicode::{letter_or_number, is_letter_or_number};
use crate::text::{is_ws, is_whitespace, ws_run_end, lemma_ws_run_end, skip_ws};

verus! {

/// End of the maximal run of `#` characters that starts at `i`.
pub open spec fn hash_run_end(s: Seq<char>, i: int) -> int
    decreases s.len() - i,
{
    if 0 <= i < s.len() && s[i] == '#' {
        hash_run_end(s, i + 1)
    } else {
        i
    }
}

pub proof fn lemma_hash_run_end(s: Seq<char>, i: int)
    requires
        0 <= i <= s.len(),
    ensures
        i <= hash_run_end(s, i) <= s.len(),
        forall|k: int| i <= k < hash_run_end(s, i) ==> #[trigger] s[k] == '#',
        hash_run_end(s, i) < s.len() ==> s[hash_run_end(s, i)] != '#',
    decreases s.len() - i,
{
    if i < s.len() && s[i] == '#' {
        lemma_hash_run_end(s, i + 1);
    }
}

pub fn skip_hashes(s: &[char], i: usize) -> (j: usize)
    requires
        i <= s@.len(),
    ensures
        j == hash_run_end(s@, i as int),
        i <= j <= s@.len(),
{
    let mut j = i;
    while j < s.len() && s[j] == '#'
        invariant
            i <= j <= s@.len(),
            hash_run_end(s@, i as int) == hash_run_end(s@, j as int),
        decreases s.len() - j,
    {
        j += 1;
    }
    j
}

// ---------------------------------------------------------------------------
// Task lines: `^(\s*)([-*+])(\s+)\[([ xX])\](\s+)(.*)$`
// ---------------------------------------------------------------------------

pub open spec fn is_bullet(c: char) -> bool {
    c == '-' || c == '*' || c == '+'
}

pub open spec fn is_mark(c: char) -> bool {
    c == ' ' || c == 'x' || c == 'X'
}

/// Where the parts of a task line start and end, as character positions:
/// indentation `[0, indent_end)`, the bullet at `indent_end`, the gap up to
/// `gap_end`, `[` at `gap_end`, the mark at `gap_end + 1`, `]` at `gap_end + 2`,
/// the spacing up to `body_start`, and the body from there to the end.
#[derive(Debug, Clone, Copy, PartialEq, Eq)]
pub struct CheckboxMatch {
    pub indent_end: usize,
    pub gap_end: usize,
    pub body_start: usize,
}

impl CheckboxMatch {
    pub open spec fn mark_pos(self) -> int {
        self.gap_end + 1
    }
}

/// The task-line match of `s`: the indentation is the whole leading whitespace,
/// the gap and the spacing after `]` are whole whitespace runs of at least one
/// character, and the body is the rest, which holds no line feed.
pub open spec fn spec_checkbox(s: Seq<char>) -> Option<CheckboxMatch> {
    let a = ws_run_end(s, 0);
    if a < s.len() && is_bullet(s[a]) {
        let g = ws_run_end(s, a + 1);
        if g > a + 1 && g + 2 < s.len() && s[g] == '[' && is_mark(s[g + 1]) && s[g + 2] == ']' {
            let e = ws_run_end(s, g + 3);
            if e > g + 3 && !s.subrange(e, s.len() as int).contains('\n') {
                Some(CheckboxMatch { indent_end: a as usize, gap_end: g as usize, body_start: e as usize })
            } else {
                None
            }
        } else {
            None
        }
    } else {
        None
    }
}

pub proof fn lemma_checkbox_bounds(s: Seq<char>)
    requires
        spec_checkbox(s) is Some,
        s.len() <= usize::MAX,
    ensures
        ({
            let m = spec_checkbox(s)->0;
            &&& m.indent_end < m.gap_end
            &&& m.gap_end + 3 <= m.body_start <= s.len()
            &&& is_bullet(s[m.indent_end as int])
            &&& s[m.gap_end as int] == '['
            &&& is_mark(s[m.gap_end + 1])
            &&& s[m.gap_end + 2] == ']'
            &&& forall|k: int| 0 <= k < m.indent_end ==> is_ws(#[trigger] s[k])
            &&& forall|k: int| m.indent_end < k < m.gap_end ==> is_ws(#[trigger] s[k])
            &&& forall|k: int| m.gap_end + 3 <= k < m.body_start ==> is_ws(#[trigger] s[k])
            &&& m.body_start < s.len() ==> !is_ws(s[m.body_start as int])
            &&& forall|k: int| m.body_start <= k < s.len() ==> #[trigger] s[k] != '\n'
        }),
{
    let a = ws_run_end(s, 0);
    lemma_ws_run_end(s, 0);
    lemma_ws_run_end(s, a + 1);
    let g = ws_run_end(s, a + 1);
    lemma_ws_run_end(s, g + 3);
    let e = ws_run_end(s, g + 3);
    assert forall|k: int| e <= k < s.len() implies #[trigger] s[k] != '\n' by {
        if s[k] == '\n' {
            assert(s.subrange(e, s.len() as int)[k - e] == '\n');
        }
    }
}

proof fn lemma_ws_run_to(s: Seq<char>, k: int, n: int)
    requires
        0 <= k <= n <= s.len(),
        forall|j: int| k <= j < n ==> is_ws(#[trigger] s[j]),
        n < s.len() ==> !is_ws(s[n]),
    ensures
        ws_run_end(s, k) == n,
    decreases n - k,
{
    if k < n {
        lemma_ws_run_to(s, k + 1, n);
    }
}

/// A line made of whitespace, a bullet, whitespace, `[`, a mark, `]`,
/// whitespace and a body without line feeds that does not start with
/// whitespace is a task line with exactly those parts.
pub proof fn law_task_line_parts(
    indent: Seq<char>,
    bullet: char,
    gap: Seq<char>,
    mark: char,
    spacing: Seq<char>,
    body: Seq<char>,
)
    requires
        forall|j: int| 0 <= j < indent.len() ==> is_ws(#[trigger] indent[j]),
        is_bullet(bullet),
        gap.len() > 0,
        forall|j: int| 0 <= j < gap.len() ==> is_ws(#[trigger] gap[j]),
        is_mark(mark),
        spacing.len() > 0,
        forall|j: int| 0 <= j < spacing.len() ==> is_ws(#[trigger] spacing[j]),
        !body.contains('\n'),
        body.len() > 0 ==> !is_ws(body[0]),
    ensures
        ({
            let s = indent + seq![bullet] + gap + seq!['[', mark, ']'] + spacing + body;
            let g = indent.len() + 1 + gap.len();
            spec_checkbox(s) == Some(
                CheckboxMatch {
                    indent_end: indent.len() as usize,
                    gap_end: g as usize,
                    body_start: (g + 3 + spacing.len()) as usize,
                },
            )
        }),
{
    let s = indent + seq![bullet] + gap + seq!['[', mark, ']'] + spacing + body;
    let a = indent.len() as int;
    let g = a + 1 + gap.len();
    let e = g + 3 + spacing.len();
    assert forall|j: int| 0 <= j < a implies is_ws(#[trigger] s[j]) by {
        assert(s[j] == indent[j]);
    }
    assert(s[a] == bullet);
    lemma_ws_run_to(s, 0, a);
    assert forall|j: int| a + 1 <= j < g implies is_ws(#[trigger] s[j]) by {
        assert(s[j] == gap[j - a - 1]);
    }
    assert(s[g] == '[' && s[g + 1] == mark && s[g + 2] == ']');
    lemma_ws_run_to(s, a + 1, g);
    assert forall|j: int| g + 3 <= j < e implies is_ws(#[trigger] s[j]) by {
        assert(s[j] == spacing[j - g - 3]);
    }
    if e < s.len() {
        assert(s[e] == body[0]);
    }
    lemma_ws_run_to(s, g + 3, e);
    assert(s.subrange(e, s.len() as int) =~= body);
}

fn has_line_feed_from(s: &[char], i: usize) -> (b: bool)
    requires
        i <= s@.len(),
    ensures
        b == s@.subrange(i as int, s@.len() as int).contains('\n'),
{
    let mut j = i;
    while j < s.len()
        invariant
            i <= j <= s@.len(),
            forall|k: int| i <= k < j ==> s@[k] != '\n',
        decreases s.len() - j,
    {
        if s[j] == '\n' {
            proof {
                assert(s@.subrange(i as int, s@.len() as int)[j - i] == '\n');
            }
            return true;
        }
        j += 1;
    }
    proof {
        let t = s@.subrange(i as int, s@.len() as int);
        assert forall|k: int| 0 <= k < t.len() implies t[k] != '\n' by {
            assert(t[k] == s@[i + k]);
        }
    }
    false
}

/// Matches a task line.
pub fn match_checkbox(s: &[char]) -> (m: Option<CheckboxMatch>)
    ensures
        m == spec_checkbox(s@),
{
    let a = skip_ws(s, 0);
    if a < s.len() && (s[a] == '-' || s[a] == '*' || s[a] == '+') {
        let g = skip_ws(s, a + 1);
        if g > a + 1 && g < s.len() && s.len() - g > 2 && s[g] == '[' && (s[g + 1] == ' '
            || s[g + 1] == 'x' || s[g + 1] == 'X') && s[g + 2] == ']' {
            let e = skip_ws(s, g + 3);
            if e > g + 3 && !has_line_feed_from(s, e) {
                return Some(CheckboxMatch { indent_end: a, gap_end: g, body_start: e });
            }
        }
    }
    None
}

// ---------------------------------------------------------------------------
// Headings: `^\s{0,3}#{1,6}\s+(?P<heading>.+?)\s*#*\s*$`
// ---------------------------------------------------------------------------

/// `s[e..]` is whitespace, then `#`s, then whitespace.
pub open spec fn closing_ok(s: Seq<char>, e: int) -> bool {
    ws_run_end(s, hash_run_end(s, ws_run_end(s, e))) == s.len()
}

/// The least end `e' >= e` of a heading text that starts at `e - 1`: the text
/// holds no line feed and what follows it is a valid closing.
pub open spec fn heading_end_from(s: Seq<char>, e: int) -> Option<int>
    decreases s.len() + 1 - e,
{
    if e < 1 || e > s.len() {
        None
    } else if s[e - 1] == '\n' {
        None
    } else if closing_ok(s, e) {
        Some(e)
    } else {
        heading_end_from(s, e + 1)
    }
}

/// The heading text starts where the whitespace after the `#`s ends, or, where
/// no text can start there, one whitespace character earlier, and so on back
/// to the first character after the `#`s; its end is the least valid one.
pub open spec fn heading_from(s: Seq<char>, j: int, lo: int) -> Option<(int, int)>
    decreases j - lo,
{
    if j <= lo {
        None
    } else {
        match heading_end_from(s, j + 1) {
            Some(e) => Some((j, e)),
            None => heading_from(s, j - 1, lo),
        }
    }
}

/// The span of the heading text of `s`, if `s` is a heading line: at most
/// three leading whitespace characters, one to six `#`, at least one
/// whitespace character, then the text.
pub open spec fn spec_heading(s: Seq<char>) -> Option<(int, int)> {
    let k = ws_run_end(s, 0);
    let h = hash_run_end(s, k);
    let w = ws_run_end(s, h);
    if k <= 3 && 1 <= h - k <= 6 && w > h {
        heading_from(s, w, h)
    } else {
        None
    }
}

pub proof fn lemma_heading_end_from(s: Seq<char>, e: int)
    ensures
        heading_end_from(s, e) matches Some(x) ==> e <= x <= s.len(),
    decreases s.len() + 1 - e,
{
    if 1 <= e <= s.len() && s[e - 1] != '\n' && !closing_ok(s, e) {
        lemma_heading_end_from(s, e + 1);
    }
}

pub proof fn lemma_heading_from(s: Seq<char>, j: int, lo: int)
    requires
        0 <= lo,
    ensures
        heading_from(s, j, lo) matches Some((a, b)) ==> lo < a < b <= s.len() && a <= j,
    decreases j - lo,
{
    if j > lo {
        lemma_heading_end_from(s, j + 1);
        if heading_end_from(s, j + 1) is None {
            lemma_heading_from(s, j - 1, lo);
        }
    }
}

pub proof fn lemma_heading_bounds(s: Seq<char>)
    ensures
        spec_heading(s) matches Some((a, b)) ==> 0 < a < b <= s.len(),
{
    let k = ws_run_end(s, 0);
    let h = hash_run_end(s, k);
    if k >= 0 && h >= 0 {
        lemma_heading_from(s, ws_run_end(s, h), h);
    }
}

proof fn lemma_hash_run_to(s: Seq<char>, k: int, n: int)
    requires
        0 <= k <= n <= s.len(),
        forall|j: int| k <= j < n ==> #[trigger] s[j] == '#',
        n < s.len() ==> s[n] != '#',
    ensures
        hash_run_end(s, k) == n,
    decreases n - k,
{
    if k < n {
        lemma_hash_run_to(s, k + 1, n);
    }
}

/// A closing that reaches the end from inside the text needs the last
/// character to be whitespace or `#`.
proof fn lemma_closing_needs(s: Seq<char>, e: int)
    requires
        0 <= e < s.len(),
        closing_ok(s, e),
    ensures
        is_ws(s.last()) || s.last() == '#',
{
    let x = ws_run_end(s, e);
    lemma_ws_run_end(s, e);
    let y = hash_run_end(s, x);
    lemma_hash_run_end(s, x);
    lemma_ws_run_end(s, y);
    let n = s.len() - 1;
    if y <= n {
        assert(is_ws(s[n]));
    } else if x <= n {
        assert(s[n] == '#');
    } else {
        assert(is_ws(s[n]));
    }
}

proof fn lemma_heading_end_is_len(s: Seq<char>, e: int)
    requires
        1 <= e <= s.len(),
        forall|j: int| e - 1 <= j < s.len() ==> #[trigger] s[j] != '\n',
        !is_ws(s.last()),
        s.last() != '#',
    ensures
        heading_end_from(s, e) == Some(s.len() as int),
    decreases s.len() - e,
{
    if e < s.len() {
        if closing_ok(s, e) {
            lemma_closing_needs(s, e);
        }
        lemma_heading_end_is_len(s, e + 1);
    } else {
        assert(ws_run_end(s, e) == e);
        assert(hash_run_end(s, e) == e);
    }
}

/// A line of at most three whitespace characters, one to six `#`, whitespace,
/// then a text without line feeds that starts and ends with something other
/// than whitespace and does not end with `#`, is a heading of exactly that
/// text.
pub proof fn law_heading_parts(lead: Seq<char>, hashes: nat, gap: Seq<char>, text: Seq<char>)
    requires
        lead.len() <= 3,
        forall|j: int| 0 <= j < lead.len() ==> is_ws(#[trigger] lead[j]),
        1 <= hashes <= 6,
        gap.len() > 0,
        forall|j: int| 0 <= j < gap.len() ==> is_ws(#[trigger] gap[j]),
        text.len() > 0,
        !is_ws(text[0]),
        !is_ws(text.last()),
        text.last() != '#',
        !text.contains('\n'),
    ensures
        ({
            let s = lead + Seq::new(hashes, |i: int| '#') + gap + text;
            spec_heading(s) == Some(((lead.len() + hashes + gap.len()) as int, s.len() as int))
        }),
{
    let hs = Seq::new(hashes, |i: int| '#');
    let s = lead + hs + gap + text;
    let k = lead.len() as int;
    let h = k + hashes;
    let w = h + gap.len();
    assert forall|j: int| 0 <= j < k implies is_ws(#[trigger] s[j]) by {
        assert(s[j] == lead[j]);
    }
    assert(s[k] == '#');
    lemma_ws_run_to(s, 0, k);
    assert forall|j: int| k <= j < h implies #[trigger] s[j] == '#' by {
        assert(s[j] == hs[j - k]);
    }
    assert(is_ws(s[h]));
    lemma_hash_run_to(s, k, h);
    assert forall|j: int| h <= j < w implies is_ws(#[trigger] s[j]) by {
        assert(s[j] == gap[j - h]);
    }
    assert(s[w] == text[0]);
    lemma_ws_run_to(s, h, w);
    assert forall|j: int| w <= j < s.len() implies #[trigger] s[j] != '\n' by {
        assert(s[j] == text[j - w]);
        if text[j - w] == '\n' {
            assert(text.contains('\n'));
        }
    }
    assert(s.last() == text.last());
    lemma_heading_end_is_len(s, w + 1);
    assert(heading_from(s, w, h) == Some((w, s.len() as int)));
}

fn closing_at(s: &[char], e: usize) -> (b: bool)
    requires
        e <= s@.len(),
    ensures
        b == closing_ok(s@, e as int),
{
    let a = skip_ws(s, e);
    let b = skip_hashes(s, a);
    skip_ws(s, b) == s.len()
}

fn heading_end(s: &[char], start: usize) -> (r: Option<usize>)
    requires
        start < s@.len(),
    ensures
        r matches Some(e) ==> heading_end_from(s@, start + 1) == Some(e as int),
        r is None ==> heading_end_from(s@, start + 1) is None,
{
    let mut i = start;
    while i < s.len()
        invariant
            start <= i <= s@.len(),
            heading_end_from(s@, start + 1) == heading_end_from(s@, i + 1),
        decreases s.len() - i,
    {
        if s[i] == '\n' {
            return None;
        }
        if closing_at(s, i + 1) {
            return Some(i + 1);
        }
        i += 1;
    }
    None
}

/// Matches a heading line; the result is the span of the heading text.
pub fn match_heading(s: &[char]) -> (r: Option<(usize, usize)>)
    ensures
        r matches Some(p) ==> spec_heading(s@) == Some((p.0 as int, p.1 as int)),
        r is None ==> spec_heading(s@) is None,
        r matches Some(p) ==> p.0 < p.1 <= s@.len(),
{
    proof {
        lemma_heading_bounds(s@);
    }
    let k = skip_ws(s, 0);
    let h = skip_hashes(s, k);
    let w = skip_ws(s, h);
    if k > 3 || h - k < 1 || h - k > 6 || w <= h {
        return None;
    }
    let mut j = w;
    while j > h
        invariant
            h <= j <= w <= s@.len(),
            w > h,
            k <= 3 && 1 <= h - k <= 6,
            k == ws_run_end(s@, 0),
            h == hash_run_end(s@, k as int),
            w == ws_run_end(s@, h as int),
            spec_heading(s@) == heading_from(s@, j as int, h as int),
        decreases j,
    {
        if j < s.len() {
            match heading_end(s, j) {
                Some(e) => {
                    proof {
                        lemma_heading_end_from(s@, j + 1);
                    }
                    return Some((j, e));
                },
                None => {},
            }
        } else {
            assert(heading_end_from(s@, j + 1) is None);
        }
        j -= 1;
    }
    None
}

/// Whether `s` is a heading line.
pub fn is_heading(s: &[char]) -> (b: bool)
    ensures
        b == spec_heading(s@) is Some,
{
    match_heading(s).is_some()
}

// ---------------------------------------------------------------------------
// Trailing metadata: `(?:\s*<!--\s*focus:[^>]*-->\s*)+$`
// ---------------------------------------------------------------------------

/// Index of the first `>` at or after `i`, or the length.
pub open spec fn gt_from(s: Seq<char>, i: int) -> int
    decreases s.len() - i,
{
    if 0 <= i < s.len() && s[i] != '>' {
        gt_from(s, i + 1)
    } else {
        i
    }
}

pub proof fn lemma_gt_from(s: Seq<char>, i: int)
    requires
        0 <= i <= s.len(),
    ensures
        i <= gt_from(s, i) <= s.len(),
        forall|k: int| i <= k < gt_from(s, i) ==> #[trigger] s[k] != '>',
        gt_from(s, i) < s.len() ==> s[gt_from(s, i)] == '>',
    decreases s.len() - i,
{
    if i < s.len() && s[i] != '>' {
        lemma_gt_from(s, i + 1);
    }
}

/// `<!--` starts at `i`.
pub open spec fn open_marker_at(s: Seq<char>, i: int) -> bool {
    0 <= i && i + 4 <= s.len() && s[i] == '<' && s[i + 1] == '!' && s[i + 2] == '-' && s[i + 3]
        == '-'
}

/// `focus:` starts at `i`.
pub open spec fn focus_word_at(s: Seq<char>, i: int) -> bool {
    0 <= i && i + 6 <= s.len() && s[i] == 'f' && s[i + 1] == 'o' && s[i + 2] == 'c' && s[i + 3]
        == 'u' && s[i + 4] == 's' && s[i + 5] == ':'
}

/// A Focus comment `<!--` whitespace `focus:` values `-->` that starts at `i`:
/// the values start after `focus:` and end two characters before the first
/// `>`, which must close `-->`. The result is `(values_start, values_end, end)`.
pub open spec fn comment_at(s: Seq<char>, i: int) -> Option<(int, int, int)> {
    if open_marker_at(s, i) {
        let f = ws_run_end(s, i + 4);
        if focus_word_at(s, f) {
            let c = f + 6;
            let q = gt_from(s, c);
            if q < s.len() && q >= c + 2 && s[q - 2] == '-' && s[q - 1] == '-' {
                Some((c, q - 2, q + 1))
            } else {
                None
            }
        } else {
            None
        }
    } else {
        None
    }
}

pub proof fn lemma_comment_at(s: Seq<char>, i: int)
    requires
        comment_at(s, i) is Some,
    ensures
        ({
            let (c, d, e) = comment_at(s, i)->0;
            &&& i + 10 <= c <= d
            &&& d + 3 == e <= s.len()
            &&& s[i] == '<'
            &&& s[e - 1] == '>'
            &&& forall|k: int| c <= k < d ==> #[trigger] s[k] != '>'
        }),
{
    lemma_ws_run_end(s, i + 4);
    let f = ws_run_end(s, i + 4);
    lemma_gt_from(s, f + 6);
}

/// `s[i..]` is a non-empty sequence of Focus comments separated and surrounded
/// by whitespace.
pub open spec fn comments_to_end(s: Seq<char>, i: int) -> bool
    decreases s.len() - i,
{
    if 0 <= i <= s.len() {
        let a = ws_run_end(s, i);
        match comment_at(s, a) {
            None => false,
            Some((_, _, e)) => {
                let b = ws_run_end(s, e);
                if b >= s.len() {
                    true
                } else {
                    proof {
                        lemma_ws_run_end(s, i);
                        lemma_comment_at(s, a);
                        lemma_ws_run_end(s, e);
                    }
                    comments_to_end(s, b)
                }
            },
        }
    } else {
        false
    }
}

/// The least `k >= i` from which `s[k..]` is trailing metadata, or the length.
pub open spec fn suffix_start_from(s: Seq<char>, i: int) -> int
    decreases s.len() - i,
{
    if 0 <= i < s.len() {
        if comments_to_end(s, i) {
            i
        } else {
            suffix_start_from(s, i + 1)
        }
    } else {
        s.len() as int
    }
}

/// Where the trailing Focus metadata of a task body starts: the least position
/// from which the rest of the body consists of Focus comments and whitespace,
/// or the body's length when there is none.
pub open spec fn spec_metadata_start(s: Seq<char>) -> int {
    suffix_start_from(s, 0)
}

/// The comments of trailing metadata that starts at `i`, in order, each as
/// `(start, values_start, values_end, end)`.
pub open spec fn comment_spans(s: Seq<char>, i: int) -> Seq<(int, int, int, int)>
    decreases s.len() - i,
{
    if 0 <= i <= s.len() {
        let a = ws_run_end(s, i);
        match comment_at(s, a) {
            None => Seq::empty(),
            Some((c, d, e)) => {
                let b = ws_run_end(s, e);
                if b >= s.len() {
                    seq![(a, c, d, e)]
                } else {
                    proof {
                        lemma_ws_run_end(s, i);
                        lemma_comment_at(s, a);
                        lemma_ws_run_end(s, e);
                    }
                    seq![(a, c, d, e)] + comment_spans(s, b)
                }
            },
        }
    } else {
        Seq::empty()
    }
}

fn gt_index(s: &[char], i: usize) -> (q: usize)
    requires
        i <= s@.len(),
    ensures
        q == gt_from(s@, i as int),
{
    let mut q = i;
    while q < s.len() && s[q] != '>'
        invariant
            i <= q <= s@.len(),
            gt_from(s@, i as int) == gt_from(s@, q as int),
        decreases s.len() - q,
    {
        q += 1;
    }
    q
}

/// Matches a Focus comment at `i`.
pub fn match_comment(s: &[char], i: usize) -> (r: Option<(usize, usize, usize)>)
    requires
        i <= s@.len(),
    ensures
        r matches Some(t) ==> comment_at(s@, i as int) == Some((t.0 as int, t.1 as int, t.2 as int)),
        r is None ==> comment_at(s@, i as int) is None,
{
    if s.len() - i >= 4 && s[i] == '<' && s[i + 1] == '!' && s[i + 2] == '-' && s[i + 3] == '-' {
        let f = skip_ws(s, i + 4);
        if s.len() - f >= 6 && s[f] == 'f' && s[f + 1] == 'o' && s[f + 2] == 'c' && s[f + 3] == 'u'
            && s[f + 4] == 's' && s[f + 5] == ':' {
            let c = f + 6;
            let q = gt_index(s, c);
            proof {
                lemma_gt_from(s@, c as int);
            }
            if q < s.len() && q - c >= 2 && s[q - 2] == '-' && s[q - 1] == '-' {
                return Some((c, q - 2, q + 1));
            }
        }
    }
    None
}

fn comments_reach_end(s: &[char], i: usize) -> (b: bool)
    requires
        i <= s@.len(),
    ensures
        b == comments_to_end(s@, i as int),
{
    let mut cur = i;
    loop
        invariant
            cur <= s@.len(),
            comments_to_end(s@, i as int) == comments_to_end(s@, cur as int),
        decreases s.len() - cur,
    {
        let a = skip_ws(s, cur);
        match match_comment(s, a) {
            None => {
                return false;
            },
            Some((_c, _d, e)) => {
                proof {
                    lemma_comment_at(s@, a as int);
                }
                let b = skip_ws(s, e);
                if b >= s.len() {
                    return true;
                }
                cur = b;
            },
        }
    }
}

/// Where the trailing Focus metadata of a task body starts.
pub fn focus_metadata_start(s: &[char]) -> (k: usize)
    ensures
        k == spec_metadata_start(s@),
        k <= s@.len(),
{
    let mut i: usize = 0;
    while i < s.len()
        invariant
            i <= s@.len(),
            spec_metadata_start(s@) == suffix_start_from(s@, i as int),
        decreases s.len() - i,
    {
        if comments_reach_end(s, i) {
            return i;
        }
        i += 1;
    }
    s.len()
}

/// The comments of trailing metadata that starts at `i`.
pub fn comment_spans_from(s: &[char], i: usize) -> (v: Vec<(usize, usize, usize, usize)>)
    requires
        i <= s@.len(),
    ensures
        v@.len() == comment_spans(s@, i as int).len(),
        forall|k: int|
            0 <= k < v@.len() ==> {
                let t = #[trigger] v@[k];
                comment_spans(s@, i as int)[k] == (t.0 as int, t.1 as int, t.2 as int, t.3 as int)
            },
{
    let mut v: Vec<(usize, usize, usize, usize)> = Vec::new();
    let mut cur = i;
    let ghost mut acc: Seq<(int, int, int, int)> = Seq::empty();
    loop
        invariant
            cur <= s@.len(),
            comment_spans(s@, i as int) == acc + comment_spans(s@, cur as int),
            v@.len() == acc.len(),
            forall|k: int|
                0 <= k < v@.len() ==> {
                    let t = #[trigger] v@[k];
                    acc[k] == (t.0 as int, t.1 as int, t.2 as int, t.3 as int)
                },
        decreases s.len() - cur,
    {
        let a = skip_ws(s, cur);
        match match_comment(s, a) {
            None => {
                assert(comment_spans(s@, cur as int) =~= Seq::empty());
                assert(acc + comment_spans(s@, cur as int) =~= acc);
                return v;
            },
            Some((c, d, e)) => {
                proof {
                    lemma_comment_at(s@, a as int);
                }
                v.push((a, c, d, e));
                let b = skip_ws(s, e);
                if b >= s.len() {
                    proof {
                        assert(acc + comment_spans(s@, cur as int) =~= acc.push((a as int, c as int, d as int, e as int)));
                        acc = acc.push((a as int, c as int, d as int, e as int));
                    }
                    return v;
                }
                proof {
                    assert(acc + comment_spans(s@, cur as int) =~= acc.push((a as int, c as int, d as int, e as int)) + comment_spans(s@, b as int));
                    acc = acc.push((a as int, c as int, d as int, e as int));
                }
                cur = b;
            },
        }
    }
}

// ---------------------------------------------------------------------------
// Metadata tokens: `(?P<key>[A-Za-z][A-Za-z0-9_-]*)=(?P<value>[^\s]+)`
// ---------------------------------------------------------------------------

pub open spec fn is_ascii_alpha(c: char) -> bool {
    ('a' <= c && c <= 'z') || ('A' <= c && c <= 'Z')
}

pub open spec fn is_key_char(c: char) -> bool {
    is_ascii_alpha(c) || ('0' <= c && c <= '9') || c == '_' || c == '-'
}

pub open spec fn key_run_end(s: Seq<char>, i: int) -> int
    decreases s.len() - i,
{
    if 0 <= i < s.len() && is_key_char(s[i]) {
        key_run_end(s, i + 1)
    } else {
        i
    }
}

pub open spec fn non_ws_run_end(s: Seq<char>, i: int) -> int
    decreases s.len() - i,
{
    if 0 <= i < s.len() && !is_ws(s[i]) {
        non_ws_run_end(s, i + 1)
    } else {
        i
    }
}

pub proof fn lemma_key_run_end(s: Seq<char>, i: int)
    requires
        0 <= i <= s.len(),
    ensures
        i <= key_run_end(s, i) <= s.len(),
        forall|k: int| i <= k < key_run_end(s, i) ==> is_key_char(#[trigger] s[k]),
        key_run_end(s, i) < s.len() ==> !is_key_char(s[key_run_end(s, i)]),
    decreases s.len() - i,
{
    if i < s.len() && is_key_char(s[i]) {
        lemma_key_run_end(s, i + 1);
    }
}

pub proof fn lemma_non_ws_run_end(s: Seq<char>, i: int)
    requires
        0 <= i <= s.len(),
    ensures
        i <= non_ws_run_end(s, i) <= s.len(),
        forall|k: int| i <= k < non_ws_run_end(s, i) ==> !is_ws(#[trigger] s[k]),
        non_ws_run_end(s, i) < s.len() ==> is_ws(s[non_ws_run_end(s, i)]),
    decreases s.len() - i,
{
    if i < s.len() && !is_ws(s[i]) {
        lemma_non_ws_run_end(s, i + 1);
    }
}

/// A `key=value` token starting at `i`: the key is a letter then the whole run
/// of key characters, and the value is the whole non-empty run of
/// non-whitespace after `=`. The result is `(position of =, end of value)`.
pub open spec fn token_at(s: Seq<char>, i: int) -> Option<(int, int)> {
    if 0 <= i < s.len() && is_ascii_alpha(s[i]) {
        let k = key_run_end(s, i + 1);
        if k < s.len() && s[k] == '=' {
            let e = non_ws_run_end(s, k + 1);
            if e > k + 1 {
                Some((k, e))
            } else {
                None
            }
        } else {
            None
        }
    } else {
        None
    }
}

pub proof fn lemma_token_at(s: Seq<char>, i: int)
    ensures
        token_at(s, i) matches Some((k, e)) ==> i < k && k + 1 < e <= s.len() && s[k] == '=',
{
    if 0 <= i < s.len() && is_ascii_alpha(s[i]) {
        lemma_key_run_end(s, i + 1);
        let k = key_run_end(s, i + 1);
        if k < s.len() && s[k] == '=' {
            lemma_non_ws_run_end(s, k + 1);
        }
    }
}

/// The tokens of `s[i..]`, leftmost first and not overlapping, each as
/// `(key start, position of =, value end)`.
pub open spec fn token_spans(s: Seq<char>, i: int) -> Seq<(int, int, int)>
    decreases s.len() - i,
{
    if 0 <= i < s.len() {
        match token_at(s, i) {
            Some((k, e)) => {
                proof {
                    lemma_token_at(s, i);
                }
                seq![(i, k, e)] + token_spans(s, e)
            },
            None => token_spans(s, i + 1),
        }
    } else {
        Seq::empty()
    }
}

fn key_end(s: &[char], i: usize) -> (k: usize)
    requires
        i <= s@.len(),
    ensures
        k == key_run_end(s@, i as int),
        i <= k <= s@.len(),
{
    let mut k = i;
    while k < s.len() && (('a' <= s[k] && s[k] <= 'z') || ('A' <= s[k] && s[k] <= 'Z') || ('0'
        <= s[k] && s[k] <= '9') || s[k] == '_' || s[k] == '-')
        invariant
            i <= k <= s@.len(),
            key_run_end(s@, i as int) == key_run_end(s@, k as int),
        decreases s.len() - k,
    {
        k += 1;
    }
    k
}

fn non_ws_end(s: &[char], i: usize) -> (k: usize)
    requires
        i <= s@.len(),
    ensures
        k == non_ws_run_end(s@, i as int),
        i <= k <= s@.len(),
{
    let mut k = i;
    while k < s.len() && !is_whitespace(s[k])
        invariant
            i <= k <= s@.len(),
            non_ws_run_end(s@, i as int) == non_ws_run_end(s@, k as int),
        decreases s.len() - k,
    {
        k += 1;
    }
    k
}

fn match_token(s: &[char], i: usize) -> (r: Option<(usize, usize)>)
    requires
        i < s@.len(),
    ensures
        r matches Some(t) ==> token_at(s@, i as int) == Some((t.0 as int, t.1 as int)),
        r is None ==> token_at(s@, i as int) is None,
        r matches Some(t) ==> i < t.0 && t.0 + 1 < t.1 <= s@.len(),
{
    proof {
        lemma_token_at(s@, i as int);
    }
    if ('a' <= s[i] && s[i] <= 'z') || ('A' <= s[i] && s[i] <= 'Z') {
        let k = key_end(s, i + 1);
        if k < s.len() && s[k] == '=' {
            let e = non_ws_end(s, k + 1);
            if e > k + 1 {
                return Some((k, e));
            }
        }
    }
    None
}

/// The `key=value` tokens of `s`.
pub fn token_spans_of(s: &[char]) -> (v: Vec<(usize, usize, usize)>)
    ensures
        v@.len() == token_spans(s@, 0).len(),
        forall|k: int|
            0 <= k < v@.len() ==> {
                let t = #[trigger] v@[k];
                token_spans(s@, 0)[k] == (t.0 as int, t.1 as int, t.2 as int)
            },
{
    let mut v: Vec<(usize, usize, usize)> = Vec::new();
    let mut i: usize = 0;
    let ghost mut acc: Seq<(int, int, int)> = Seq::empty();
    while i < s.len()
        invariant
            i <= s@.len(),
            token_spans(s@, 0) == acc + token_spans(s@, i as int),
            v@.len() == acc.len(),
            forall|k: int|
                0 <= k < v@.len() ==> {
                    let t = #[trigger] v@[k];
                    acc[k] == (t.0 as int, t.1 as int, t.2 as int)
                },
        decreases s.len() - i,
    {
        match match_token(s, i) {
            Some((k, e)) => {
                proof {
                    lemma_key_run_end(s@, i + 1);
                    assert(acc + token_spans(s@, i as int) =~= acc.push((i as int, k as int, e as int))
                        + token_spans(s@, e as int));
                    acc = acc.push((i as int, k as int, e as int));
                }
                v.push((i, k, e));
                i = e;
            },
            None => {
                i += 1;
            },
        }
    }
    proof {
        assert(acc + token_spans(s@, i as int) =~= acc);
    }
    v
}

// ---------------------------------------------------------------------------
// Tags: `(?:^|\s)#(?P<tag>[\p{L}\p{N}_/-]+)`
// ---------------------------------------------------------------------------

pub open spec fn is_tag_char(c: char) -> bool {
    letter_or_number(c) || c == '_' || c == '/' || c == '-'
}

pub open spec fn tag_run_end(s: Seq<char>, i: int) -> int
    decreases s.len() - i,
{
    if 0 <= i < s.len() && is_tag_char(s[i]) {
        tag_run_end(s, i + 1)
    } else {
        i
    }
}

pub proof fn lemma_tag_run_end(s: Seq<char>, i: int)
    requires
        0 <= i <= s.len(),
    ensures
        i <= tag_run_end(s, i) <= s.len(),
    decreases s.len() - i,
{
    if i < s.len() && is_tag_char(s[i]) {
        lemma_tag_run_end(s, i + 1);
    }
}

/// A tag whose match starts at `i`: `#` at the very start of the text, or a
/// whitespace character followed by `#`, then the whole non-empty run of tag
/// characters. The result is the span of the tag name.
pub open spec fn tag_at(s: Seq<char>, i: int) -> Option<(int, int)> {
    if i == 0 && s.len() > 0 && s[0] == '#' {
        let e = tag_run_end(s, 1);
        if e > 1 {
            Some((1, e))
        } else {
            None
        }
    } else if 0 <= i && i + 1 < s.len() && is_ws(s[i]) && s[i + 1] == '#' {
        let e = tag_run_end(s, i + 2);
        if e > i + 2 {
            Some((i + 2, e))
        } else {
            None
        }
    } else {
        None
    }
}

pub proof fn lemma_tag_at(s: Seq<char>, i: int)
    ensures
        tag_at(s, i) matches Some((a, e)) ==> i < a < e <= s.len(),
{
    if i == 0 && s.len() > 0 && s[0] == '#' {
        lemma_tag_run_end(s, 1);
    } else if 0 <= i && i + 1 < s.len() && is_ws(s[i]) && s[i + 1] == '#' {
        lemma_tag_run_end(s, i + 2);
    }
}

/// The tag names of `s[i..]`, leftmost first and not overlapping.
pub open spec fn tags_from(s: Seq<char>, i: int) -> Seq<Seq<char>>
    decreases s.len() - i,
{
    if 0 <= i < s.len() {
        match tag_at(s, i) {
            Some((a, e)) => {
                proof {
                    lemma_tag_at(s, i);
                }
                seq![s.subrange(a, e)] + tags_from(s, e)
            },
            None => tags_from(s, i + 1),
        }
    } else {
        Seq::empty()
    }
}

proof fn lemma_tag_run_stops(s: Seq<char>, a: int, k: int)
    requires
        0 <= a <= k < s.len(),
        !is_tag_char(s[k]),
    ensures
        tag_run_end(s, a) <= k,
    decreases k - a,
{
    if a < k && is_tag_char(s[a]) {
        lemma_tag_run_stops(s, a + 1, k);
    }
}

proof fn lemma_tag_run_whole(s: Seq<char>, a: int, e: int)
    requires
        0 <= a <= e <= s.len(),
        forall|j: int| a <= j < e ==> is_tag_char(#[trigger] s[j]),
        e < s.len() ==> !is_tag_char(s[e]),
    ensures
        tag_run_end(s, a) == e,
    decreases e - a,
{
    if a < e {
        lemma_tag_run_whole(s, a + 1, e);
    }
}

/// Tag characters: letters, numbers, `_`, `/` and `-`.
pub open spec fn all_tag_chars(t: Seq<char>) -> bool {
    forall|j: int| 0 <= j < t.len() ==> is_tag_char(#[trigger] t[j])
}

/// A text that starts with `#` and a run of tag characters has that run as
/// its first tag.
pub proof fn law_leading_tag(t: Seq<char>, rest: Seq<char>)
    requires
        t.len() > 0,
        all_tag_chars(t),
        rest.len() > 0 ==> !is_tag_char(rest[0]),
    ensures
        tags_from(seq!['#'] + t + rest, 0).len() > 0,
        tags_from(seq!['#'] + t + rest, 0)[0] == t,
{
    let s = seq!['#'] + t + rest;
    let e: int = 1 + t.len() as int;
    assert forall|j: int| 1 <= j < e implies is_tag_char(#[trigger] s[j]) by {
        assert(s[j] == t[j - 1]);
    }
    if e < s.len() {
        assert(s[e] == rest[0]);
    }
    lemma_tag_run_whole(s, 1, e);
    assert(tag_at(s, 0) == Some((1int, e)));
    assert(s.subrange(1, e) =~= t);
}

proof fn lemma_tags_reach(s: Seq<char>, i: int, k: int, x: Seq<char>)
    requires
        0 <= i <= k < s.len(),
        !is_tag_char(s[k]),
        s[k] != '#',
        tags_from(s, k).contains(x),
    ensures
        tags_from(s, i).contains(x),
    decreases k - i,
{
    if i < k {
        match tag_at(s, i) {
            Some((a, e)) => {
                lemma_tag_at(s, i);
                if i + 1 == k {
                    assert(!(is_ws(s[i]) && s[i + 1] == '#'));
                }
                assert(a <= k);
                lemma_tag_run_stops(s, a, k);
                lemma_tags_reach(s, e, k, x);
                let rest = tags_from(s, e);
                assert(tags_from(s, i) == seq![s.subrange(a, e)] + rest);
                let j = choose|j: int| 0 <= j < rest.len() && rest[j] == x;
                assert(tags_from(s, i)[j + 1] == x);
            },
            None => {
                lemma_tags_reach(s, i + 1, k, x);
            },
        }
    }
}

/// A `#` after a whitespace character, followed by a run of tag characters,
/// gives that run as a tag of the text, whatever comes before.
pub proof fn law_tag_after_space(w: Seq<char>, c: char, t: Seq<char>, rest: Seq<char>)
    requires
        is_ws(c),
        !is_tag_char(c),
        t.len() > 0,
        all_tag_chars(t),
        rest.len() > 0 ==> !is_tag_char(rest[0]),
    ensures
        tags_from(w + seq![c] + seq!['#'] + t + rest, 0).contains(t),
{
    let s = w + seq![c] + seq!['#'] + t + rest;
    let k = w.len() as int;
    let e: int = k + 2 + t.len();
    assert(s[k] == c);
    assert(s[k + 1] == '#');
    assert forall|j: int| k + 2 <= j < e implies is_tag_char(#[trigger] s[j]) by {
        assert(s[j] == t[j - k - 2]);
    }
    if e < s.len() {
        assert(s[e] == rest[0]);
    }
    lemma_tag_run_whole(s, k + 2, e);
    assert(c != '#');
    assert(tag_at(s, k) == Some((k + 2, e)));
    assert(s.subrange(k + 2, e) =~= t);
    let tk = tags_from(s, k);
    assert(tk[0] == t);
    lemma_tags_reach(s, 0, k, t);
}

fn tag_end(s: &[char], i: usize) -> (e: usize)
    requires
        i <= s@.len(),
    ensures
        e == tag_run_end(s@, i as int),
        i <= e <= s@.len(),
{
    let mut e = i;
    while e < s.len() && (is_letter_or_number(s[e]) || s[e] == '_' || s[e] == '/' || s[e] == '-')
        invariant
            i <= e <= s@.len(),
            tag_run_end(s@, i as int) == tag_run_end(s@, e as int),
        decreases s.len() - e,
    {
        e += 1;
    }
    e
}

fn match_tag(s: &[char], i: usize) -> (r: Option<(usize, usize)>)
    requires
        i < s@.len(),
    ensures
        r matches Some(t) ==> tag_at(s@, i as int) == Some((t.0 as int, t.1 as int)),
        r is None ==> tag_at(s@, i as int) is None,
        r matches Some(t) ==> i < t.0 < t.1 <= s@.len(),
{
    proof {
        lemma_tag_at(s@, i as int);
    }
    if i == 0 && s[0] == '#' {
        let e = tag_end(s, 1);
        if e > 1 {
            return Some((1, e));
        }
        return None;
    }
    if i < s.len() - 1 && is_whitespace(s[i]) && s[i + 1] == '#' {
        let e = tag_end(s, i + 2);
        if e > i + 2 {
            return Some((i + 2, e));
        }
    }
    None
}

/// The characters `s[from..to]`.
pub fn copy_range(s: &[char], from: usize, to: usize) -> (v: Vec<char>)
    requires
        from <= to <= s@.len(),
    ensures
        v@ == s@.subrange(from as int, to as int),
{
    let mut v: Vec<char> = Vec::new();
    let mut k = from;
    while k < to
        invariant
            from <= k <= to <= s@.len(),
            v@ == s@.subrange(from as int, k as int),
        decreases to - k,
    {
        v.push(s[k]);
        proof {
            assert(s@.subrange(from as int, k as int).push(s@[k as int]) =~= s@.subrange(
                from as int,
                k + 1,
            ));
        }
        k += 1;
    }
    v
}

/// The tag names of `s`.
pub fn tags_of(s: &[char]) -> (v: Vec<Vec<char>>)
    ensures
        v@.len() == tags_from(s@, 0).len(),
        forall|k: int| 0 <= k < v@.len() ==> (#[trigger] v@[k])@ == tags_from(s@, 0)[k],
{
    let mut v: Vec<Vec<char>> = Vec::new();
    let mut i: usize = 0;
    let ghost mut acc: Seq<Seq<char>> = Seq::empty();
    while i < s.len()
        invariant
            i <= s@.len(),
            tags_from(s@, 0) == acc + tags_from(s@, i as int),
            v@.len() == acc.len(),
            forall|k: int| 0 <= k < v@.len() ==> (#[trigger] v@[k])@ == acc[k],
        decreases s.len() - i,
    {
        match match_tag(s, i) {
            Some((a, e)) => {
                let name = copy_range(s, a, e);
                proof {
                    assert(acc + tags_from(s@, i as int) =~= acc.push(s@.subrange(a as int, e as int))
                        + tags_from(s@, e as int));
                    acc = acc.push(s@.subrange(a as int, e as int));
                }
                v.push(name);
                i = e;
            },
            None => {
                i += 1;
            },
        }
    }
    proof {
        assert(acc + tags_from(s@, i as int) =~= acc);
    }
    v
}

} // verus!
