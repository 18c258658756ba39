//! What the Markdown edits promise beyond each single call: completing a
//! task changes only its checkbox, outdenting undoes indenting, and moving a
//! subtree back undoes moving it.
use vstd::prelude::*;
use crate::edits::{spec_indent_line, spec_remove_indent, spec_toggle_mark, outdent_scan, spaces};
use crate::grammar::{is_mark, spec_checkbox, CheckboxMatch};
use crate::lines::{lemma_strip_eol_chars_prefix, strip_eol_chars};
use crate::locate::line_task;
use crate::mutations::{indent_range, mark_of, outdent_range, swap_blocks};
use crate::text::{is_ws, lemma_ws_back_start, lemma_ws_run_end, trim, ws_back_start, ws_run_end};
use crate::body::{
    body_tokens, last_value, spec_body_task_id, spec_body_text, tokens_of_comments, value_tokens, word_id,
};
use crate::edits::{id_comment, join_with, spec_clean_text, spec_edited_body};
use crate::grammar::{
    comment_at, comment_spans, comments_to_end, gt_from, key_run_end, lemma_gt_from, non_ws_run_end,
    open_marker_at, spec_metadata_start, suffix_start_from, token_at, token_spans,
};
use crate::ids::{is_lower_hex, is_stable_id};
use crate::lines::{line_feed_from, lemma_line_feed_from, segments_from, strip_line_ending, text_lines};
use crate::mutations::{new_task_line, spec_added};
use crate::repository::indent_width;

verus! {

/// Changing a character outside a whitespace run (before its start or after
/// its end) leaves where the run ends unchanged.
pub proof fn lemma_ws_run_end_update(s: Seq<char>, i: int, p: int, c: char)
    requires
        0 <= i <= s.len(),
        0 <= p < s.len(),
        p < i || p > ws_run_end(s, i),
    ensures
        ws_run_end(s.update(p, c), i) == ws_run_end(s, i),
    decreases s.len() - i,
{
    lemma_ws_run_end(s, i);
    if i < s.len() && is_ws(s[i]) {
        lemma_ws_run_end(s, i + 1);
        lemma_ws_run_end_update(s, i + 1, p, c);
    }
}

/// Changing a character before the line ending to one that is not a line
/// ending changes the stripped line in the same place.
pub proof fn lemma_strip_eol_update(s: Seq<char>, p: int, c: char)
    requires
        0 <= p < strip_eol_chars(s).len(),
        c != '\r',
        c != '\n',
    ensures
        strip_eol_chars(s.update(p, c)) == strip_eol_chars(s).update(p, c),
    decreases s.len(),
{
    lemma_strip_eol_chars_prefix(s);
    if s.len() > 0 && (s.last() == '\r' || s.last() == '\n') {
        lemma_strip_eol_chars_prefix(s.drop_last());
        assert(s.update(p, c).drop_last() =~= s.drop_last().update(p, c));
        lemma_strip_eol_update(s.drop_last(), p, c);
        assert(s.update(p, c).last() == s.last());
    } else {
        assert(strip_eol_chars(s) == s);
        let u = s.update(p, c);
        assert(!(u.len() > 0 && (u.last() == '\r' || u.last() == '\n')));
    }
}

/// Replacing the checkbox mark by another mark keeps the task-line match.
pub proof fn lemma_checkbox_mark_update(s: Seq<char>, c: char)
    requires
        spec_checkbox(s) is Some,
        is_mark(c),
        s.len() <= usize::MAX,
    ensures
        spec_checkbox(s.update(spec_checkbox(s)->0.mark_pos(), c)) == spec_checkbox(s),
{
    let m = spec_checkbox(s)->0;
    let p = m.mark_pos();
    let u = s.update(p, c);
    let a = ws_run_end(s, 0);
    lemma_ws_run_end(s, 0);
    let g = ws_run_end(s, a + 1);
    lemma_ws_run_end(s, a + 1);
    let e = ws_run_end(s, g + 3);
    lemma_ws_run_end(s, g + 3);
    assert(p == g + 1);
    lemma_ws_run_end_update(s, 0, p, c);
    lemma_ws_run_end_update(s, a + 1, p, c);
    lemma_ws_run_end_update(s, g + 3, p, c);
    assert(u.subrange(e, u.len() as int) =~= s.subrange(e, s.len() as int));
}

/// Completing or reopening a task flips whether it is checked and keeps its
/// text, stable id, indentation and mark position.
pub proof fn law_toggle_flips_only_the_mark(l: Seq<char>)
    requires
        line_task(l) is Some,
        l.len() <= usize::MAX,
    ensures
        ({
            let t = line_task(l)->0;
            line_task(spec_toggle_mark(l, mark_of(l))) == Some((t.0, t.1, !t.2, t.3, t.4))
        }),
{
    let t = line_task(l)->0;
    let s = strip_eol_chars(l);
    let m = spec_checkbox(s)->0;
    let p = m.mark_pos();
    lemma_strip_eol_chars_prefix(l);
    assert(p == t.4);
    assert(p < s.len()) by {
        let a = ws_run_end(s, 0);
        lemma_ws_run_end(s, 0);
        lemma_ws_run_end(s, a + 1);
    }
    assert(s[p] == l[p]);
    let c = if l[p] == 'x' || l[p] == 'X' { ' ' } else { 'x' };
    assert(spec_toggle_mark(l, p) == l.update(p, c));
    lemma_strip_eol_update(l, p, c);
    lemma_checkbox_mark_update(s, c);
    let s2 = s.update(p, c);
    assert(strip_eol_chars(l.update(p, c)) == s2);
    assert(s2.subrange(m.body_start as int, s2.len() as int) =~= s.subrange(m.body_start as int, s.len() as int)) by {
        let a = ws_run_end(s, 0);
        lemma_ws_run_end(s, 0);
        lemma_ws_run_end(s, a + 1);
        lemma_ws_run_end(s, m.gap_end + 3);
    }
    assert(s2.subrange(0, m.indent_end as int) =~= s.subrange(0, m.indent_end as int));
}

/// Completing a task and reopening it gives back its line, unless its mark
/// was an upper-case `X`, which comes back as `x`.
pub proof fn law_toggle_twice_restores(l: Seq<char>)
    requires
        line_task(l) is Some,
        l.len() <= usize::MAX,
        0 <= mark_of(l) < l.len() && l[mark_of(l)] != 'X',
    ensures
        ({
            let once = spec_toggle_mark(l, mark_of(l));
            spec_toggle_mark(once, mark_of(once)) == l
        }),
{
    law_toggle_flips_only_the_mark(l);
    let p = mark_of(l);
    let s = strip_eol_chars(l);
    lemma_strip_eol_chars_prefix(l);
    crate::grammar::lemma_checkbox_bounds(s);
    assert(s[p] == l[p]);
    assert(is_mark(l[p]));
    let once = spec_toggle_mark(l, p);
    assert(mark_of(once) == p);
    assert(spec_toggle_mark(once, p) =~= l);
}

/// Indenting a range of lines and outdenting it by two columns gives the lines
/// back, provided no blank line in the range starts with a space or a tab
/// (indenting keeps blank lines, and outdenting would trim them).
pub proof fn law_outdent_undoes_indent(ls: Seq<Seq<char>>, from: int, to: int)
    requires
        0 <= from <= to <= ls.len(),
        forall|j: int|
            from <= j < to && trim(#[trigger] ls[j]).len() == 0 && ls[j].len() > 0 ==> ls[j][0] != ' '
                && ls[j][0] != '\t',
    ensures
        outdent_range(indent_range(ls, from, to), from, to, 2) == ls,
{
    let ind = indent_range(ls, from, to);
    let out = outdent_range(ind, from, to, 2);
    assert forall|j: int| 0 <= j < ls.len() implies out[j] == ls[j] by {
        if from <= j < to {
            let s = ls[j];
            if trim(s).len() == 0 {
                assert(spec_indent_line(s) == s);
                assert(outdent_scan(s, 0, 2) == (0int, 0nat));
                assert(spaces(0) + s.subrange(0, s.len() as int) =~= s);
            } else {
                let t = seq![' ', ' '] + s;
                assert(spec_indent_line(s) == t);
                assert(t[0] == ' ' && t[1] == ' ');
                assert(outdent_scan(t, 2, 0) == (2int, 0nat));
                assert(outdent_scan(t, 1, 1) == outdent_scan(t, 2, 0));
                assert(outdent_scan(t, 0, 2) == outdent_scan(t, 1, 1));
                assert(spaces(0) + t.subrange(2, t.len() as int) =~= s);
            }
        }
    }
    assert(out =~= ls);
}

/// Moving the block `[a, b)` below the block `[b, c)` and then moving it back
/// above that block gives the lines back.
pub proof fn law_moving_back_restores(ls: Seq<Seq<char>>, a: int, b: int, c: int)
    requires
        0 <= a <= b <= c <= ls.len(),
    ensures
        swap_blocks(ls, a, b, c).len() == ls.len(),
        swap_blocks(swap_blocks(ls, a, b, c), a, a + (c - b), c) == ls,
{
    let m = swap_blocks(ls, a, b, c);
    assert(m.len() == ls.len());
    let k = a + (c - b);
    assert(m.subrange(0, a) =~= ls.subrange(0, a));
    assert(m.subrange(a, k) =~= ls.subrange(b, c));
    assert(m.subrange(k, c) =~= ls.subrange(a, b));
    assert(m.subrange(c, m.len() as int) =~= ls.subrange(c, ls.len() as int));
    assert(swap_blocks(m, a, k, c) =~= ls);
}


/// A text with no whitespace at either end is its own trim.
pub proof fn lemma_trimmed(s: Seq<char>)
    requires
        s.len() > 0,
        !is_ws(s[0]),
        !is_ws(s.last()),
    ensures
        trim(s) == s,
{
    assert(ws_run_end(s, 0) == 0);
    assert(ws_back_start(s, s.len() as int) == s.len());
    assert(s.subrange(0, s.len() as int) =~= s);
}

/// A trimmed text is a piece of the text with no whitespace at either end.
pub proof fn lemma_trim_shape(s: Seq<char>)
    ensures
        trim(s).len() > 0 ==> !is_ws(trim(s)[0]) && !is_ws(trim(s).last()),
        forall|k: int| 0 <= k < trim(s).len() ==> s.contains(#[trigger] trim(s)[k]),
{
    lemma_ws_run_end(s, 0);
    lemma_ws_back_start(s, s.len() as int);
    let a = ws_run_end(s, 0);
    let b = ws_back_start(s, s.len() as int);
    if a < s.len() {
        assert(!is_ws(s[a]));
        assert(a < b) by {
            if b <= a {
                assert(is_ws(s[a]));
            }
        }
        assert forall|k: int| 0 <= k < trim(s).len() implies s.contains(#[trigger] trim(s)[k]) by {
            assert(trim(s)[k] == s[a + k]);
        }
    }
}

/// No line of a text holds a line feed.
pub proof fn lemma_segment_lines_no_lf(s: Seq<char>, i: int)
    requires
        0 <= i <= s.len(),
    ensures
        forall|j: int|
            0 <= j < segments_from(s, i).len() ==> !(#[trigger] strip_line_ending(segments_from(s, i)[j])).contains(
                '\n',
            ),
    decreases s.len() - i,
{
    if i < s.len() {
        let k = line_feed_from(s, i);
        lemma_line_feed_from(s, i);
        if k >= s.len() {
            let seg = s.subrange(i, s.len() as int);
            assert(!seg.contains('\n')) by {
                if seg.contains('\n') {
                    let x = choose|x: int| 0 <= x < seg.len() && seg[x] == '\n';
                    assert(s[i + x] == '\n');
                }
            }
            assert(segments_from(s, i) == seq![seg]);
        } else {
            lemma_segment_lines_no_lf(s, k + 1);
            let seg = s.subrange(i, k + 1);
            let rest = segments_from(s, k + 1);
            assert(segments_from(s, i) == seq![seg] + rest);
            assert(!strip_line_ending(seg).contains('\n')) by {
                let t = seg.drop_last();
                assert(seg.last() == '\n');
                assert(!t.contains('\n')) by {
                    if t.contains('\n') {
                        let x = choose|x: int| 0 <= x < t.len() && t[x] == '\n';
                        assert(s[i + x] == '\n');
                    }
                }
                if t.len() > 0 && t.last() == '\r' {
                    let u = t.drop_last();
                    assert(!u.contains('\n')) by {
                        if u.contains('\n') {
                            let x = choose|x: int| 0 <= x < u.len() && u[x] == '\n';
                            assert(t[x] == '\n');
                        }
                    }
                }
            }
            assert forall|j: int| 0 <= j < segments_from(s, i).len() implies !(#[trigger] strip_line_ending(
                segments_from(s, i)[j],
            )).contains('\n') by {
                if j > 0 {
                    assert(segments_from(s, i)[j] == rest[j - 1]);
                }
            }
        }
    }
}

/// Lines without line feeds joined with a space hold no line feed.
pub proof fn lemma_join_no_lf(parts: Seq<Seq<char>>)
    requires
        forall|j: int| 0 <= j < parts.len() ==> !(#[trigger] parts[j]).contains('\n'),
    ensures
        !join_with(parts, seq![' ']).contains('\n'),
    decreases parts.len(),
{
    if parts.len() > 1 {
        lemma_join_no_lf(parts.drop_last());
        let a = join_with(parts.drop_last(), seq![' ']);
        let whole = a + seq![' '] + parts.last();
        assert(!parts.last().contains('\n')) by {
            assert(parts.last() == parts[parts.len() - 1]);
        }
        if whole.contains('\n') {
            let x = choose|x: int| 0 <= x < whole.len() && whole[x] == '\n';
            if x < a.len() {
                assert(a[x] == '\n');
            } else if x > a.len() {
                assert(parts.last()[x - a.len() - 1] == '\n');
            }
        }
    } else if parts.len() == 1 {
        assert(!parts[0].contains('\n'));
    }
}

/// The text of a new task has no line feed and no whitespace at either end.
pub proof fn lemma_clean_text_shape(input: Seq<char>)
    ensures
        !spec_clean_text(input).contains('\n'),
        spec_clean_text(input).len() > 0 ==> !is_ws(spec_clean_text(input)[0]) && !is_ws(
            spec_clean_text(input).last(),
        ),
{
    lemma_segment_lines_no_lf(input, 0);
    let ls = text_lines(input);
    assert forall|j: int| 0 <= j < ls.len() implies !(#[trigger] ls[j]).contains('\n') by {
        assert(ls[j] == strip_line_ending(segments_from(input, 0)[j]));
    }
    lemma_join_no_lf(ls);
    let joined = join_with(ls, seq![' ']);
    lemma_trim_shape(joined);
    let c = spec_clean_text(input);
    if c.contains('\n') {
        let x = choose|x: int| 0 <= x < c.len() && c[x] == '\n';
        assert(joined.contains(c[x]));
    }
}

/// `<!--` occurs nowhere in the text.
pub open spec fn no_comment_opening(text: Seq<char>) -> bool {
    forall|i: int| !open_marker_at(text, i)
}

pub open spec fn new_task_prefix() -> Seq<char> {
    seq!['-', ' ', '[', ' ', ']', ' ']
}

/// Where the metadata of a new task's body starts, and what its comments hold.
proof fn lemma_new_body(text: Seq<char>, id: Seq<char>)
    requires
        text.len() > 0,
        !is_ws(text[0]),
        !is_ws(text.last()),
        no_comment_opening(text),
        is_stable_id(id),
    ensures
        ({
            let body = text + id_comment(id);
            &&& spec_metadata_start(body) == text.len()
            &&& comment_spans(body, text.len() as int) == seq![
                (text.len() + 1int, text.len() + 12int, body.len() - 3int, body.len() as int),
            ]
        }),
{
    let body = text + id_comment(id);
    let n = text.len() as int;
    let len = body.len() as int;
    assert(len == n + 51);
    assert(body[n] == ' ');
    assert(body[len - 1] == '>');
    assert forall|k: int| 0 <= k < n implies body[k] == text[k] by {}
    // no position before the text's end starts the metadata
    assert forall|i: int| 0 <= i < n implies !comments_to_end(body, i) by {
        lemma_ws_run_end(body, i);
        let a = ws_run_end(body, i);
        assert(a < n) by {
            if a >= n {
                assert(is_ws(body[n - 1]));
            }
        }
        assert(!open_marker_at(body, a)) by {
            if a + 4 <= n {
                assert(!open_marker_at(text, a));
                assert(body[a] == text[a] && body[a + 1] == text[a + 1] && body[a + 2] == text[a + 2]
                    && body[a + 3] == text[a + 3]);
            } else {
                assert(a <= n && n < a + 4);
                assert(body[n] == ' ');
            }
        }
        assert(comment_at(body, a) is None);
    }
    // the comment after the text
    assert(ws_run_end(body, n + 1) == n + 1);
    assert(ws_run_end(body, n) == n + 1);
    assert(open_marker_at(body, n + 1));
    assert(ws_run_end(body, n + 6) == n + 6);
    assert(ws_run_end(body, n + 5) == n + 6);
    assert(crate::grammar::focus_word_at(body, n + 6));
    let c = n + 12;
    lemma_gt_from(body, c);
    let q = gt_from(body, c);
    assert forall|k: int| c <= k < len - 1 implies body[k] != '>' by {
        if k < n + 15 {
        } else if k < n + 47 {
            assert(body[k] == id[k - n - 15]);
            assert(is_lower_hex(id[k - n - 15]));
        }
    }
    assert(q == len - 1) by {
        if q < len - 1 {
            assert(body[q] == '>');
        } else if q == len {
            assert(body[len - 1] != '>');
        }
    }
    assert(body[q - 2] == '-' && body[q - 1] == '-');
    assert(comment_at(body, n + 1) == Some((c, q - 2, q + 1)));
    assert(ws_run_end(body, len) == len);
    assert(comments_to_end(body, n));
    // the metadata starts at the text's end
    assert forall|i: int| 0 <= i <= n implies suffix_start_from(body, i) == n by {
        lemma_suffix_from(body, i, n);
    }
    assert(comment_spans(body, n) == seq![(n + 1, c, q - 2, q + 1)]);
}

pub proof fn lemma_suffix_from(body: Seq<char>, i: int, n: int)
    requires
        0 <= i <= n < body.len(),
        forall|j: int| 0 <= j < n ==> !comments_to_end(body, j),
        comments_to_end(body, n),
    ensures
        suffix_start_from(body, i) == n,
    decreases n - i,
{
    if i < n {
        lemma_suffix_from(body, i + 1, n);
    }
}

/// The values `id=ID ` of a new task's comment hold exactly the token `id`.
proof fn lemma_id_values(id: Seq<char>)
    requires
        is_stable_id(id),
    ensures
        value_tokens(seq!['i', 'd', '='] + id + seq![' ']) == seq![(word_id(), id)],
{
    let v = seq!['i', 'd', '='] + id + seq![' '];
    assert(v.len() == 36);
    assert(key_run_end(v, 2) == 2);
    assert(key_run_end(v, 1) == 2);
    assert forall|k: int| 3 <= k < 35 implies !is_ws(#[trigger] v[k]) by {
        assert(v[k] == id[k - 3]);
        assert(is_lower_hex(id[k - 3]));
    }
    lemma_non_ws_run(v, 3, 35);
    assert(token_at(v, 0) == Some((2int, 35int)));
    assert(token_at(v, 35) is None);
    assert(token_spans(v, 36) == Seq::<(int, int, int)>::empty());
    assert(token_spans(v, 35) == token_spans(v, 36));
    assert(token_spans(v, 0) == seq![(0int, 2int, 35int)] + token_spans(v, 35));
    assert(v.subrange(0, 2) =~= word_id());
    assert(v.subrange(3, 35) =~= id);
    assert(value_tokens(v) =~= seq![(word_id(), id)]);
}

proof fn lemma_non_ws_run(v: Seq<char>, i: int, j: int)
    requires
        0 <= i <= j < v.len(),
        forall|k: int| i <= k < j ==> !is_ws(#[trigger] v[k]),
        is_ws(v[j]),
    ensures
        non_ws_run_end(v, i) == j,
    decreases j - i,
{
    if i < j {
        lemma_non_ws_run(v, i + 1, j);
    }
}

proof fn lemma_new_line_shape(text: Seq<char>, id: Seq<char>)
    requires
        text.len() > 0,
        !is_ws(text[0]),
        !text.contains('\n'),
        is_stable_id(id),
        text.len() <= usize::MAX - 64,
    ensures
        ({
            let s = new_task_prefix() + (text + id_comment(id));
            &&& strip_eol_chars(new_task_line(text, id)) == s
            &&& spec_checkbox(s) == Some(CheckboxMatch { indent_end: 0, gap_end: 2, body_start: 6 })
            &&& s.subrange(6, s.len() as int) == text + id_comment(id)
            &&& s[3] == ' '
        }),
{
    let body = text + id_comment(id);
    let s = new_task_prefix() + body;
    let l = new_task_line(text, id);
    assert(l =~= s.push('\n'));
    assert(s.last() == '>');
    assert(l.drop_last() =~= s);
    assert(strip_eol_chars(s) == s);
    assert(strip_eol_chars(l) == s);
    assert(ws_run_end(s, 0) == 0);
    assert(ws_run_end(s, 2) == 2);
    assert(ws_run_end(s, 1) == 2);
    assert(s[6] == text[0]);
    assert(ws_run_end(s, 6) == 6);
    assert(ws_run_end(s, 5) == 6);
    assert(s.subrange(6, s.len() as int) =~= body);
    assert(!body.contains('\n')) by {
        if body.contains('\n') {
            let x = choose|x: int| 0 <= x < body.len() && body[x] == '\n';
            if x < text.len() {
                assert(text[x] == '\n');
            } else if text.len() + 15 <= x < text.len() + 47 {
                assert(is_lower_hex(id[x - text.len() - 15]));
            }
        }
    }
    assert(!s.subrange(6, s.len() as int).contains('\n'));
}

proof fn lemma_new_body_reads(text: Seq<char>, id: Seq<char>)
    requires
        text.len() > 0,
        !is_ws(text[0]),
        !is_ws(text.last()),
        no_comment_opening(text),
        is_stable_id(id),
    ensures
        spec_body_text(text + id_comment(id)) == text,
        spec_body_task_id(text + id_comment(id)) == Some(id),
{
    let body = text + id_comment(id);
    lemma_new_body(text, id);
    lemma_trimmed(text);
    assert(body.subrange(0, text.len() as int) =~= text);
    let n = text.len() as int;
    let vs = body.subrange(n + 12, body.len() - 3);
    assert(vs =~= seq!['i', 'd', '='] + id + seq![' ']);
    lemma_id_values(id);
    let spans = comment_spans(body, spec_metadata_start(body));
    assert(spec_metadata_start(body) == n);
    assert(spans == seq![(n + 1, n + 12, body.len() - 3, body.len() as int)]);
    assert(spans.last().1 == n + 12 && spans.last().2 == body.len() - 3);
    assert(spans.drop_last() =~= Seq::<(int, int, int, int)>::empty());
    assert(value_tokens(vs) == seq![(word_id(), id)]);
    assert(tokens_of_comments(body, spans.drop_last()) == Seq::<(Seq<char>, Seq<char>)>::empty());
    assert(tokens_of_comments(body, spans) == tokens_of_comments(body, spans.drop_last()) + value_tokens(vs));
    assert(tokens_of_comments(body, spans) =~= seq![(word_id(), id)]);
    assert(last_value(seq![(word_id(), id)], word_id()) == Some(id));
}

/// The line written for a new task reads back as an open task at the top
/// level with exactly that text and id, provided the text does not itself
/// open an HTML comment.
pub proof fn law_new_task_line_reads_back(text: Seq<char>, id: Seq<char>)
    requires
        text.len() > 0,
        !is_ws(text[0]),
        !is_ws(text.last()),
        !text.contains('\n'),
        no_comment_opening(text),
        is_stable_id(id),
        text.len() <= usize::MAX - 64,
    ensures
        line_task(new_task_line(text, id)) == Some((text, Some(id), false, 0nat, 3int)),
{
    let s = new_task_prefix() + (text + id_comment(id));
    lemma_new_line_shape(text, id);
    lemma_new_body_reads(text, id);
    assert(s.subrange(0, 0) =~= Seq::<char>::empty());
    assert(indent_width(Seq::<char>::empty()) == 0);
}

/// Adding a task keeps every line of the file (an unfinished last line only
/// gains its line feed) and appends a line that reads back as the new open
/// task with the given text, cleaned, and the new id; unless the text opens an
/// HTML comment.
pub proof fn law_added_task_reads_back(ls: Seq<Seq<char>>, input: Seq<char>, id: Seq<char>)
    requires
        spec_clean_text(input).len() > 0,
        spec_clean_text(input).len() <= usize::MAX - 64,
        no_comment_opening(spec_clean_text(input)),
        is_stable_id(id),
    ensures
        ({
            let r = spec_added(ls, true, spec_clean_text(input), id);
            &&& r.len() == ls.len() + 1
            &&& forall|j: int| 0 <= j < ls.len() - 1 ==> r[j] == ls[j]
            &&& ls.len() > 0 ==> (r[ls.len() - 1] == ls.last() || r[ls.len() - 1] == ls.last().push('\n'))
            &&& line_task(r.last()) == Some((spec_clean_text(input), Some(id), false, 0nat, 3int))
        }),
{
    let text = spec_clean_text(input);
    lemma_clean_text_shape(input);
    law_new_task_line_reads_back(text, id);
}


/// Where the metadata of a body starts lies within the body, and there the
/// rest of the body is Focus comments.
pub proof fn lemma_suffix_start(s: Seq<char>, i: int)
    requires
        0 <= i <= s.len(),
    ensures
        i <= suffix_start_from(s, i) <= s.len(),
        suffix_start_from(s, i) < s.len() ==> comments_to_end(s, suffix_start_from(s, i)),
    decreases s.len() - i,
{
    if i < s.len() && !comments_to_end(s, i) {
        lemma_suffix_start(s, i + 1);
    }
}

pub proof fn lemma_ws_shift(p: Seq<char>, s: Seq<char>, i: int)
    requires
        0 <= i <= s.len(),
    ensures
        ws_run_end(p + s, p.len() + i) == p.len() + ws_run_end(s, i),
    decreases s.len() - i,
{
    let ps = p + s;
    assert(i < s.len() ==> ps[p.len() + i] == s[i]);
    if i < s.len() && is_ws(s[i]) {
        lemma_ws_shift(p, s, i + 1);
    }
}

pub proof fn lemma_gt_shift(p: Seq<char>, s: Seq<char>, i: int)
    requires
        0 <= i <= s.len(),
    ensures
        gt_from(p + s, p.len() + i) == p.len() + gt_from(s, i),
    decreases s.len() - i,
{
    let ps = p + s;
    assert(i < s.len() ==> ps[p.len() + i] == s[i]);
    if i < s.len() && s[i] != '>' {
        lemma_gt_shift(p, s, i + 1);
    }
}

pub open spec fn shift3(k: int, o: Option<(int, int, int)>) -> Option<(int, int, int)> {
    match o {
        Some((a, b, c)) => Some((a + k, b + k, c + k)),
        None => None,
    }
}

pub open spec fn shift_spans(k: int, spans: Seq<(int, int, int, int)>) -> Seq<(int, int, int, int)> {
    spans.map_values(|t: (int, int, int, int)| (t.0 + k, t.1 + k, t.2 + k, t.3 + k))
}

pub proof fn lemma_comment_at_shift(p: Seq<char>, s: Seq<char>, i: int)
    requires
        0 <= i <= s.len(),
    ensures
        comment_at(p + s, p.len() + i) == shift3(p.len() as int, comment_at(s, i)),
{
    let ps = p + s;
    let n = p.len() as int;
    assert forall|k: int| 0 <= k < s.len() implies ps[n + k] == s[k] by {}
    if open_marker_at(s, i) {
        assert(open_marker_at(ps, n + i));
        lemma_ws_shift(p, s, i + 4);
        let f = ws_run_end(s, i + 4);
        lemma_ws_run_end(s, i + 4);
        if crate::grammar::focus_word_at(s, f) {
            assert(crate::grammar::focus_word_at(ps, n + f));
            let c = f + 6;
            lemma_gt_shift(p, s, c);
            lemma_gt_from(s, c);
        } else {
            assert(!crate::grammar::focus_word_at(ps, n + f)) by {
                if crate::grammar::focus_word_at(ps, n + f) {
                    if f + 6 <= s.len() {
                        assert(ps[n + f] == s[f] && ps[n + f + 1] == s[f + 1] && ps[n + f + 2] == s[f + 2]
                            && ps[n + f + 3] == s[f + 3] && ps[n + f + 4] == s[f + 4] && ps[n + f + 5] == s[f + 5]);
                    }
                }
            }
        }
    } else {
        assert(!open_marker_at(ps, n + i)) by {
            if open_marker_at(ps, n + i) {
                assert(ps[n + i] == s[i] && ps[n + i + 1] == s[i + 1] && ps[n + i + 2] == s[i + 2] && ps[n + i
                    + 3] == s[i + 3]);
            }
        }
    }
}

pub proof fn lemma_comments_to_end_shift(p: Seq<char>, s: Seq<char>, i: int)
    requires
        0 <= i <= s.len(),
    ensures
        comments_to_end(p + s, p.len() + i) == comments_to_end(s, i),
        comment_spans(p + s, p.len() + i) == shift_spans(p.len() as int, comment_spans(s, i)),
    decreases s.len() - i,
{
    let ps = p + s;
    let n = p.len() as int;
    lemma_ws_shift(p, s, i);
    lemma_ws_run_end(s, i);
    let a = ws_run_end(s, i);
    lemma_comment_at_shift(p, s, a);
    match comment_at(s, a) {
        None => {
            assert(shift_spans(n, Seq::<(int, int, int, int)>::empty()) =~= Seq::<(int, int, int, int)>::empty());
        },
        Some((c, d, e)) => {
            crate::grammar::lemma_comment_at(s, a);
            lemma_ws_shift(p, s, e);
            lemma_ws_run_end(s, e);
            let b = ws_run_end(s, e);
            if b >= s.len() {
                assert(shift_spans(n, seq![(a, c, d, e)]) =~= seq![(a + n, c + n, d + n, e + n)]);
            } else {
                lemma_comments_to_end_shift(p, s, b);
                assert(shift_spans(n, seq![(a, c, d, e)] + comment_spans(s, b)) =~= seq![
                    (a + n, c + n, d + n, e + n),
                ] + shift_spans(n, comment_spans(s, b)));
            }
        },
    }
}

pub proof fn lemma_tokens_shift(p: Seq<char>, s: Seq<char>, spans: Seq<(int, int, int, int)>)
    requires
        forall|k: int| 0 <= k < spans.len() ==> 0 <= (#[trigger] spans[k]).1 <= spans[k].2 <= s.len(),
    ensures
        tokens_of_comments(p + s, shift_spans(p.len() as int, spans)) == tokens_of_comments(s, spans),
    decreases spans.len(),
{
    if spans.len() > 0 {
        let n = p.len() as int;
        let sh = shift_spans(n, spans);
        assert(sh.drop_last() =~= shift_spans(n, spans.drop_last()));
        lemma_tokens_shift(p, s, spans.drop_last());
        let l = spans.last();
        assert(l == spans[spans.len() - 1]);
        assert((p + s).subrange(l.1 + n, l.2 + n) =~= s.subrange(l.1, l.2));
    }
}

/// The comments of a body's metadata, read from the metadata on.
proof fn lemma_body_tokens_of_suffix(body: Seq<char>)
    ensures
        ({
            let ms = spec_metadata_start(body);
            let suffix = body.subrange(ms, body.len() as int);
            body_tokens(body) == tokens_of_comments(suffix, comment_spans(suffix, 0))
        }),
{
    let ms = spec_metadata_start(body);
    lemma_suffix_start(body, 0);
    let pre = body.subrange(0, ms);
    let suffix = body.subrange(ms, body.len() as int);
    assert(pre + suffix =~= body);
    lemma_comments_to_end_shift(pre, suffix, 0);
    crate::body::lemma_comment_spans_bounds(suffix, 0);
    lemma_tokens_shift(pre, suffix, comment_spans(suffix, 0));
}

/// A text without `<!--` has no Focus metadata of its own.
pub proof fn lemma_no_comments(t: Seq<char>, i: int)
    requires
        no_comment_opening(t),
        0 <= i <= t.len(),
    ensures
        suffix_start_from(t, i) == t.len(),
        comment_spans(t, i) == Seq::<(int, int, int, int)>::empty(),
    decreases t.len() - i,
{
    lemma_ws_run_end(t, i);
    assert(!open_marker_at(t, ws_run_end(t, i)));
    if i < t.len() {
        lemma_no_comments(t, i + 1);
    }
}

/// In an edited body, no position inside the new text starts metadata: the
/// text holds no `<!--`, and what follows it is whitespace or a space.
pub proof fn lemma_edited_prefix(text: Seq<char>, rest: Seq<char>)
    requires
        text.len() > 0,
        !is_ws(text.last()),
        no_comment_opening(text),
        rest.len() > 0 ==> is_ws(rest[0]),
    ensures
        forall|i: int| 0 <= i < text.len() ==> !comments_to_end(text + rest, i),
{
    let e = text + rest;
    let n = text.len() as int;
    assert forall|k: int| 0 <= k < n implies e[k] == text[k] by {}
    assert forall|i: int| 0 <= i < n implies !comments_to_end(e, i) by {
        lemma_ws_run_end(e, i);
        let a = ws_run_end(e, i);
        assert(a < n) by {
            if a >= n {
                assert(is_ws(e[n - 1]));
            }
        }
        assert(!open_marker_at(e, a)) by {
            if a + 4 <= n {
                assert(!open_marker_at(text, a));
                assert(e[a] == text[a] && e[a + 1] == text[a + 1] && e[a + 2] == text[a + 2] && e[a + 3]
                    == text[a + 3]);
            } else if open_marker_at(e, a) {
                assert(a <= n && n < a + 4);
                assert(e[n] == rest[0]);
            }
        }
    }
}

/// An edited body with metadata: it starts right after the new text, and its
/// comments are those of the old metadata.
pub proof fn lemma_edited_with_suffix(text: Seq<char>, sep: Seq<char>, suffix: Seq<char>)
    requires
        text.len() > 0,
        !is_ws(text.last()),
        no_comment_opening(text),
        suffix.len() > 0,
        comments_to_end(suffix, 0),
        sep.len() == 0 ==> is_ws(suffix[0]),
        sep.len() > 0 ==> sep == seq![' '],
    ensures
        spec_metadata_start(text + sep + suffix) == text.len(),
        comment_spans(text + sep + suffix, text.len() as int) == shift_spans((text + sep).len() as int, comment_spans(suffix, 0)),
{
    let head = text + sep;
    let e = head + suffix;
    assert(text + sep + suffix == e);
    let n = text.len() as int;
    let h = head.len() as int;
    let rest = sep + suffix;
    assert(text + rest =~= e);
    assert(rest.len() > 0 && is_ws(rest[0]));
    lemma_edited_prefix(text, rest);
    lemma_comments_to_end_shift(head, suffix, 0);
    lemma_ws_shift(head, suffix, 0);
    assert(ws_run_end(e, n) == ws_run_end(e, h)) by {
        if h == n + 1 {
            assert(e[n] == ' ');
        }
    }
    assert(comments_to_end(e, n) == comments_to_end(e, h));
    assert(comment_spans(e, n) == comment_spans(e, h));
    assert forall|i: int| 0 <= i <= n implies suffix_start_from(e, i) == n by {
        lemma_suffix_from(e, i, n);
    }
}

/// Editing a task's text keeps every Focus comment of its metadata, and the
/// body reads back with exactly the new text; unless the new text opens an
/// HTML comment.
pub proof fn law_edit_keeps_metadata(body: Seq<char>, text: Seq<char>)
    requires
        text.len() > 0,
        !is_ws(text[0]),
        !is_ws(text.last()),
        no_comment_opening(text),
    ensures
        spec_body_text(spec_edited_body(body, text)) == text,
        body_tokens(spec_edited_body(body, text)) == body_tokens(body),
        spec_body_task_id(spec_edited_body(body, text)) == spec_body_task_id(body),
        crate::body::spec_body_estimate(spec_edited_body(body, text)) == crate::body::spec_body_estimate(body),
        crate::body::spec_body_blocked(spec_edited_body(body, text)) == crate::body::spec_body_blocked(body),
        crate::body::spec_body_priority(spec_edited_body(body, text)) == crate::body::spec_body_priority(body),
        crate::body::spec_body_due(spec_edited_body(body, text)) == crate::body::spec_body_due(body),
{
    let ms = spec_metadata_start(body);
    lemma_suffix_start(body, 0);
    let suffix = body.subrange(ms, body.len() as int);
    let sep: Seq<char> = if suffix.len() == 0 || is_ws(suffix[0]) { Seq::empty() } else { seq![' '] };
    let e = spec_edited_body(body, text);
    let n = text.len() as int;
    lemma_body_tokens_of_suffix(body);
    lemma_trimmed(text);
    if suffix.len() == 0 {
        assert(e =~= text);
        lemma_no_comments(text, 0);
        lemma_no_comments(text, n);
        assert(text.subrange(0, n) =~= text);
        assert(comment_spans(suffix, 0) == Seq::<(int, int, int, int)>::empty());
    } else {
        assert(body.subrange(0, ms) + suffix =~= body);
        lemma_comments_to_end_shift(body.subrange(0, ms), suffix, 0);
        lemma_edited_with_suffix(text, sep, suffix);
        assert(e == text + sep + suffix);
        assert(e.subrange(0, n) =~= text);
        crate::body::lemma_comment_spans_bounds(suffix, 0);
        lemma_tokens_shift(text + sep, suffix, comment_spans(suffix, 0));
        assert((text + sep) + suffix == e);
    }
}

/// Moving the block `[a, b)` below the block `[b, c)` puts the second block
/// first and the first after it, and leaves every other line where it was.
pub proof fn law_move_swaps_blocks(ls: Seq<Seq<char>>, a: int, b: int, c: int)
    requires
        0 <= a <= b <= c <= ls.len(),
    ensures
        swap_blocks(ls, a, b, c).len() == ls.len(),
        forall|j: int| 0 <= j < a ==> #[trigger] swap_blocks(ls, a, b, c)[j] == ls[j],
        forall|j: int| a <= j < a + (c - b) ==> #[trigger] swap_blocks(ls, a, b, c)[j] == ls[b + (j - a)],
        forall|j: int| a + (c - b) <= j < c ==> #[trigger] swap_blocks(ls, a, b, c)[j] == ls[a + (j - a - (c - b))],
        forall|j: int| c <= j < ls.len() ==> #[trigger] swap_blocks(ls, a, b, c)[j] == ls[j],
{
    let r = swap_blocks(ls, a, b, c);
    assert(r.len() == ls.len());
    assert forall|j: int| 0 <= j < a implies #[trigger] swap_blocks(ls, a, b, c)[j] == ls[j] by {}
    assert forall|j: int| a <= j < a + (c - b) implies #[trigger] swap_blocks(ls, a, b, c)[j] == ls[b + (j - a)] by {}
    assert forall|j: int| a + (c - b) <= j < c implies #[trigger] swap_blocks(ls, a, b, c)[j] == ls[a + (j - a - (
    c - b))] by {}
    assert forall|j: int| c <= j < ls.len() implies #[trigger] swap_blocks(ls, a, b, c)[j] == ls[j] by {}
}

proof fn lemma_strip_eol_prefix_kept(p: Seq<char>, x: Seq<char>)
    requires
        p.len() > 0,
        p.last() != '\r' && p.last() != '\n',
    ensures
        strip_eol_chars(p + x) == p + strip_eol_chars(x),
    decreases x.len(),
{
    if x.len() > 0 && (x.last() == '\r' || x.last() == '\n') {
        assert((p + x).drop_last() =~= p + x.drop_last());
        assert((p + x).last() == x.last());
        lemma_strip_eol_prefix_kept(p, x.drop_last());
    } else if x.len() > 0 {
        assert((p + x).last() == x.last());
    } else {
        assert(p + x =~= p);
        assert((p + x).last() == p.last());
    }
}

proof fn lemma_indent_width_concat(p: Seq<char>, x: Seq<char>)
    ensures
        indent_width(p + x) == indent_width(p) + indent_width(x),
    decreases x.len(),
{
    if x.len() == 0 {
        assert(p + x =~= p);
    } else {
        assert((p + x).drop_last() =~= p + x.drop_last());
        assert((p + x).last() == x.last());
        lemma_indent_width_concat(p, x.drop_last());
    }
}

/// Two spaces before a task line shift its task-line match by two.
#[verifier::spinoff_prover]
proof fn lemma_checkbox_after_spaces(s: Seq<char>)
    requires
        spec_checkbox(s) is Some,
        s.len() <= usize::MAX - 2,
    ensures
        ({
            let m = spec_checkbox(s)->0;
            spec_checkbox(seq![' ', ' '] + s) == Some(
                CheckboxMatch {
                    indent_end: (m.indent_end + 2) as usize,
                    gap_end: (m.gap_end + 2) as usize,
                    body_start: (m.body_start + 2) as usize,
                },
            )
        }),
{
    crate::grammar::lemma_checkbox_bounds(s);
    let m = spec_checkbox(s)->0;
    let p = seq![' ', ' '];
    let ps = p + s;
    let a = m.indent_end as int;
    let g = m.gap_end as int;
    let e = m.body_start as int;
    lemma_ws_shift(p, s, 0);
    lemma_ws_shift(p, s, a + 1);
    lemma_ws_shift(p, s, g + 3);
    assert(ps[0] == ' ' && ps[1] == ' ');
    assert(ws_run_end(ps, 1) == ws_run_end(ps, 2));
    assert(ws_run_end(ps, 0) == ws_run_end(ps, 1));
    assert(ps[2 + a] == s[a] && ps[2 + g] == s[g] && ps[3 + g] == s[g + 1] && ps[4 + g] == s[g + 2]);
    assert(ps.subrange(2 + e, ps.len() as int) =~= s.subrange(e, s.len() as int));
    assert(ws_run_end(s, 0) == a);
    assert(ws_run_end(s, a + 1) == g);
    lemma_ws_run_end(s, g + 3);
    assert(ws_run_end(s, g + 3) == e);
    assert(ws_run_end(ps, 0) == 2 + a);
    assert(ws_run_end(ps, 2 + a + 1) == 2 + g);
    assert(ws_run_end(ps, 2 + g + 3) == 2 + e);
    assert(!s.subrange(e, s.len() as int).contains('\n'));
    assert(!ps.subrange(2 + e, ps.len() as int).contains('\n'));
}

/// Indenting a task line deepens its indentation by two columns and moves
/// its mark by two; its text, stable id and completion stay as they were.
#[verifier::spinoff_prover]
#[verifier::rlimit(50)]
pub proof fn law_indent_deepens_a_task(l: Seq<char>)
    requires
        line_task(l) is Some,
        l.len() <= usize::MAX - 2,
    ensures
        ({
            let t = line_task(l)->0;
            line_task(spec_indent_line(l)) == Some((t.0, t.1, t.2, t.3 + 2, t.4 + 2))
        }),
{
    let s = strip_eol_chars(l);
    lemma_strip_eol_chars_prefix(l);
    crate::grammar::lemma_checkbox_bounds(s);
    let m = spec_checkbox(s)->0;
    let a = m.indent_end as int;
    lemma_not_blank(l, s, a);
    let p = seq![' ', ' '];
    assert(spec_indent_line(l) == p + l);
    lemma_strip_eol_prefix_kept(p, l);
    let ps = p + s;
    lemma_checkbox_after_spaces(s);
    let m2 = spec_checkbox(ps)->0;
    let body = s.subrange(m.body_start as int, s.len() as int);
    let body2 = ps.subrange(m2.body_start as int, ps.len() as int);
    assert(body2 =~= body);
    assert(ps.subrange(0, a + 2) =~= p + s.subrange(0, a));
    lemma_indent_width_concat(p, s.subrange(0, a));
    assert(indent_width(p) == 2) by {
        let one = seq![' '];
        assert(one.drop_last() =~= Seq::<char>::empty());
        assert(one.last() == ' ');
        assert(indent_width(Seq::<char>::empty()) == 0);
        assert(indent_width(one) == 1);
        assert(p.drop_last() =~= one);
        assert(p.last() == ' ');
    }
    assert(ps[m2.mark_pos()] == s[m.mark_pos()]);
    lemma_line_task_parts(p + l, ps, m2);
    lemma_line_task_parts(l, s, m);
}

proof fn lemma_line_task_parts(l: Seq<char>, s: Seq<char>, m: CheckboxMatch)
    requires
        strip_eol_chars(l) == s,
        spec_checkbox(s) == Some(m),
    ensures
        line_task(l) == Some(
            (
                spec_body_text(s.subrange(m.body_start as int, s.len() as int)),
                spec_body_task_id(s.subrange(m.body_start as int, s.len() as int)),
                s[m.mark_pos()] == 'x' || s[m.mark_pos()] == 'X',
                indent_width(s.subrange(0, m.indent_end as int)),
                m.mark_pos(),
            ),
        ),
{
}

/// A line whose stripped form has a non-whitespace character at `a`, after
/// only whitespace, is not blank.
proof fn lemma_not_blank(l: Seq<char>, s: Seq<char>, a: int)
    requires
        s == l.subrange(0, s.len() as int),
        s.len() <= l.len(),
        0 <= a < s.len(),
        !is_ws(s[a]),
        forall|j: int| 0 <= j < a ==> is_ws(#[trigger] s[j]),
    ensures
        trim(l).len() > 0,
{
    assert forall|j: int| 0 <= j <= a implies l[j] == s[j] by {}
    lemma_ws_run_end(l, 0);
    assert(ws_run_end(l, 0) == a) by {
        let x = ws_run_end(l, 0);
        if x < a {
            assert(is_ws(s[x]));
        } else if x > a {
            assert(is_ws(l[a]));
        }
    }
    lemma_ws_back_start(l, l.len() as int);
    assert(ws_back_start(l, l.len() as int) > a) by {
        if ws_back_start(l, l.len() as int) <= a {
            assert(is_ws(l[a]));
        }
    }
}

} // verus!
