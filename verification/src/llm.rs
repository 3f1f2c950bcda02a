//! Post-processing of generated question banks: checks that questions came
//! back, drops a code fence around them and marks every heading `[AI]`.

use vstd::prelude::*;
use crate::qb::{
    count_headings, heading_level, ParseState, QuestionDraft, ai_marker, flushed, heading_marker, no_keywords, parse_step, slugify,
    spec_heading, spec_slugify,
};
use crate::text::{
    chars_of, contains, find_char, join_lines, spec_contains, spec_find, spec_join_lines,
    spec_lines, spec_starts_with, spec_trim, spec_trim_start, split_lines, starts_with, string_of,
    trim, views, push_chars, push_char, push_decimal, push_str, spec_decimal, find_from, digit_char,
    lemma_find_from, lemma_trim_end_shape, lemma_trim_start_shape, spec_is_whitespace, spec_parse_u8, spec_trim_end, no_newline,
    spec_strip_cr, strip_all, lemma_lines_join, lemma_lines_no_newline, lemma_lines_prefix, lines_upto,
};

verus! {

pub open spec fn fence() -> Seq<char> {
    seq!['`', '`', '`']
}

pub open spec fn ai_tag() -> Seq<char> {
    seq!['[', 'A', 'I', ']']
}

/// `s` with every trailing "```" removed (`trim_end_matches("```")`).
pub open spec fn spec_trim_end_fences(s: Seq<char>) -> Seq<char>
    decreases s.len(),
{
    if s.len() >= 3 && s.skip(s.len() - 3) == fence() {
        spec_trim_end_fences(s.take(s.len() - 3))
    } else {
        s
    }
}

/// Output wrapped in a code fence loses its first line and the closing
/// fence, and is trimmed again.
pub open spec fn spec_unfence(c: Seq<char>) -> Seq<char> {
    if spec_starts_with(c, fence()) {
        let ls = spec_lines(c);
        spec_trim(spec_trim_end_fences(spec_join_lines(if ls.len() > 0 { ls.skip(1) } else { ls })))
    } else {
        c
    }
}

/// A heading `## [N] text` becomes `## [N] [AI] text` unless the text
/// already starts with `[AI]`; other lines stay as they are.
pub open spec fn spec_mark_line(line: Seq<char>) -> Seq<char> {
    let t = spec_trim_start(line);
    if spec_starts_with(t, heading_marker()) {
        let rest = t.skip(4);
        match spec_find(rest, ']') {
            Some(e) => {
                let after = spec_trim(rest.skip(e + 1));
                if !spec_starts_with(after, ai_tag()) {
                    heading_marker() + rest.take(e) + seq![']', ' '] + ai_tag() + seq![' '] + after
                } else {
                    line
                }
            },
            None => line,
        }
    } else {
        line
    }
}

proof fn lemma_find_at(s: Seq<char>, c: char, k: int, i: int)
    requires
        0 <= i <= k < s.len(),
        s[k] == c,
        forall|j: int| 0 <= j < k ==> s[j] != c,
    ensures
        find_from(s, c, i) == k,
    decreases k - i,
{
    if i < k {
        lemma_find_at(s, c, k, i + 1);
    }
}

/// Marking is done once: a marked heading is left as it is when marked
/// again.
pub proof fn law_mark_once(line: Seq<char>)
    ensures
        spec_mark_line(spec_mark_line(line)) == spec_mark_line(line),
{
    let m = spec_mark_line(line);
    if m != line {
        let t = spec_trim_start(line);
        let rest = t.skip(4);
        let e = spec_find(rest, ']')->0;
        let after = spec_trim(rest.skip(e + 1));
        lemma_find_from(rest, ']', 0);
        let p = rest.take(e);
        let tail = seq![']', ' '] + ai_tag() + seq![' '] + after;
        assert(m == heading_marker() + p + tail);
        // The marked line starts with its heading marker.
        assert(!spec_is_whitespace(m[0]));
        assert(spec_trim_start(m) == m);
        assert(m.take(4) =~= heading_marker());
        let rest2 = m.skip(4);
        assert(rest2 =~= p + tail);
        // Its first `]` is the one after the level.
        assert forall|j: int| 0 <= j < e implies rest2[j] != ']' by {
            assert(rest2[j] == rest[j]);
        }
        assert(rest2[e] == ']');
        lemma_find_at(rest2, ']', e, 0);
        assert(spec_find(rest2, ']') == Some(e));
        // What follows it, trimmed, starts with the tag.
        let x = ai_tag() + seq![' '] + after;
        assert(rest2.skip(e + 1) =~= seq![' '] + x);
        assert(spec_is_whitespace(' '));
        assert((seq![' '] + x).drop_first() =~= x);
        assert(!spec_is_whitespace(x[0]));
        assert(spec_trim_start(seq![' '] + x) == spec_trim_start(x));
        assert(spec_trim_start(x) == x);
        lemma_trim_end_shape(x);
        let y = spec_trim_end(x);
        assert(!spec_is_whitespace(x[3]));
        assert(y.len() >= 4);
        assert(y.take(4) =~= ai_tag()) by {
            assert forall|j: int| 0 <= j < 4 implies y[j] == x[j] by {
                assert(y == x.subrange(0, y.len() as int));
            }
        }
        assert(spec_starts_with(spec_trim(rest2.skip(e + 1)), ai_tag()));
    }
}

proof fn lemma_trim_end_ws_suffix(x: Seq<char>, w: Seq<char>)
    requires
        forall|i: int| 0 <= i < w.len() ==> spec_is_whitespace(#[trigger] w[i]),
    ensures
        spec_trim_end(x + w) == spec_trim_end(x),
    decreases w.len(),
{
    if w.len() > 0 {
        assert((x + w).drop_last() =~= x + w.drop_last());
        assert((x + w).last() == w.last());
        lemma_trim_end_ws_suffix(x, w.drop_last());
    } else {
        assert(x + w =~= x);
    }
}

proof fn lemma_trim_start_ws_suffix(x: Seq<char>, w: Seq<char>, k: int)
    requires
        0 <= k < x.len(),
        !spec_is_whitespace(x[k]),
    ensures
        spec_trim_start(x + w) == spec_trim_start(x) + w,
    decreases x.len(),
{
    if spec_is_whitespace(x[0]) {
        assert((x + w).drop_first() =~= x.drop_first() + w);
        lemma_trim_start_ws_suffix(x.drop_first(), w, k - 1);
    }
}

/// The level's text of a heading body (up to its first `]`), when it has one.
spec fn level_part(rest: Seq<char>) -> Seq<char> {
    rest.take(spec_find(rest, ']')->0)
}

proof fn lemma_marked_shape(line: Seq<char>)
    requires
        spec_starts_with(spec_trim(line), heading_marker()),
        spec_heading(spec_trim(line).skip(4)) matches Some(d) && !d.ai && !spec_starts_with(
            d.text,
            ai_tag(),
        ),
    ensures
        ({
            let d = spec_heading(spec_trim(line).skip(4))->0;
            let rest_p = spec_trim(line).skip(4);
            spec_mark_line(line) == heading_marker() + level_part(rest_p) + seq![']', ' '] + ai_tag()
                + seq![' '] + spec_trim(rest_p.skip(spec_find(rest_p, ']')->0 + 1))
        }),
{
    let t0 = spec_trim_start(line);
    let t = spec_trim_end(t0);
    lemma_trim_end_shape(t0);
    let w = t0.skip(t.len() as int);
    assert(t0 =~= t + w);
    assert forall|i: int| 0 <= i < w.len() implies spec_is_whitespace(#[trigger] w[i]) by {
        assert(w[i] == t0[t.len() + i]);
    }
    assert(t0.take(4) =~= t.take(4));
    let rest_p = t.skip(4);
    let rest = t0.skip(4);
    assert(rest =~= rest_p + w);
    let be = spec_find(rest_p, ']')->0;
    lemma_find_from(rest_p, ']', 0);
    assert forall|j: int| 0 <= j < be implies rest[j] != ']' by {
        assert(rest[j] == rest_p[j]);
    }
    assert(rest[be] == rest_p[be]);
    lemma_find_at(rest, ']', be, 0);
    let x = rest_p.skip(be + 1);
    let after = spec_trim(x);
    lemma_trim_start_shape(x);
    let k = x.len() - spec_trim_start(x).len();
    lemma_trim_end_shape(spec_trim_start(x));
    assert(!spec_is_whitespace(x[k])) by {
        assert(spec_trim_start(x) == x.subrange(k, x.len() as int));
        assert(spec_trim_start(x)[0] == x[k]);
    }
    assert(rest.skip(be + 1) =~= x + w);
    lemma_trim_start_ws_suffix(x, w, k);
    lemma_trim_end_ws_suffix(spec_trim_start(x), w);
    assert(spec_trim(rest.skip(be + 1)) == after);
    assert(spec_starts_with(t0, heading_marker()));
    assert(spec_find(rest, ']') == Some(be));
    assert(!spec_starts_with(after, ai_tag()));
    assert(rest.take(be) =~= rest_p.take(be));
}

proof fn lemma_parse_marked(st: ParseState, p: Seq<char>, text: Seq<char>)
    requires
        forall|j: int| 0 <= j < p.len() ==> p[j] != ']',
        text.len() > 0,
        !spec_is_whitespace(text.last()),
    ensures
        ({
            let m = heading_marker() + p + seq![']', ' '] + ai_tag() + seq![' '] + text;
            parse_step(st, m) == ParseState {
                done: flushed(st),
                current: match spec_parse_u8(p) {
                    Some(l) => if 1 <= l <= 4 {
                        Some(QuestionDraft { level: l, text: text, ai: true, keywords: no_keywords() })
                    } else {
                        None
                    },
                    None => None,
                },
            }
        }),
{
    let tag_tail = ai_tag() + seq![' '] + text;
    let m = heading_marker() + p + seq![']', ' '] + ai_tag() + seq![' '] + text;
    assert(m =~= heading_marker() + p + seq![']', ' '] + tag_tail);
    assert(!spec_is_whitespace(m[0]));
    assert(spec_trim_start(m) == m);
    assert(m.last() == text.last());
    assert(spec_trim_end(m) == m);
    assert(m.take(4) =~= heading_marker());
    let rest2 = m.skip(4);
    let be = p.len() as int;
    assert(rest2 =~= p + seq![']', ' '] + tag_tail);
    assert forall|j: int| 0 <= j < be implies rest2[j] != ']' by {
        assert(rest2[j] == p[j]);
    }
    assert(rest2[be] == ']');
    lemma_find_at(rest2, ']', be, 0);
    assert(rest2.skip(be + 1) =~= seq![' '] + tag_tail);
    assert((seq![' '] + tag_tail).drop_first() =~= tag_tail);
    assert(spec_is_whitespace(' '));
    assert(!spec_is_whitespace(tag_tail[0]));
    assert(spec_trim_start(seq![' '] + tag_tail) == spec_trim_start(tag_tail));
    assert(spec_trim_start(tag_tail) == tag_tail);
    assert(tag_tail.last() == text.last());
    assert(spec_trim_end(tag_tail) == tag_tail);
    assert(tag_tail.take(5) =~= ai_marker());
    assert(tag_tail.skip(5) =~= text);
    assert(rest2.take(be) =~= p);
}

/// A line that opens a written question (text not starting with `[AI]`)
/// opens the same question, marked as generated, once it is marked.
pub proof fn law_marked_heading_is_generated(st: ParseState, line: Seq<char>)
    requires
        spec_starts_with(spec_trim(line), heading_marker()),
        spec_heading(spec_trim(line).skip(4)) matches Some(d) && !d.ai && !spec_starts_with(
            d.text,
            ai_tag(),
        ),
    ensures
        parse_step(st, spec_mark_line(line)) == (ParseState {
            done: flushed(st),
            current: Some(QuestionDraft { ai: true, ..spec_heading(spec_trim(line).skip(4))->0 }),
        }),
{
    let rest_p = spec_trim(line).skip(4);
    let d = spec_heading(rest_p)->0;
    let be = spec_find(rest_p, ']')->0;
    let after = spec_trim(rest_p.skip(be + 1));
    lemma_marked_shape(line);
    lemma_find_from(rest_p, ']', 0);
    let p = level_part(rest_p);
    assert forall|j: int| 0 <= j < p.len() implies p[j] != ']' by {
        assert(p[j] == rest_p[j]);
    }
    assert(after == d.text);
    let x = rest_p.skip(be + 1);
    lemma_trim_end_shape(spec_trim_start(x));
    lemma_parse_marked(st, p, after);
}

/// A heading line of the saved bank carries the `[AI]` tag after its level:
/// when `l`, start trimmed, begins with `## [` and has a `]`, the text after
/// that first `]`, trimmed, begins with `[AI]`.
pub open spec fn tagged_if_heading(l: Seq<char>) -> bool {
    let t = spec_trim_start(l);
    let rest = t.skip(4);
    (spec_starts_with(t, heading_marker()) && spec_find(rest, ']') is Some) ==> spec_starts_with(
        spec_trim(rest.skip(spec_find(rest, ']')->0 + 1)),
        ai_tag(),
    )
}

proof fn lemma_all_ws_trim_start(y: Seq<char>)
    requires
        forall|i: int| 0 <= i < y.len() ==> spec_is_whitespace(#[trigger] y[i]),
    ensures
        spec_trim_start(y).len() == 0,
{
    lemma_trim_start_shape(y);
    if spec_trim_start(y).len() > 0 {
        let k = y.len() - spec_trim_start(y).len();
        assert(spec_trim_start(y)[0] == y[k]);
    }
}

proof fn lemma_trim_start_drop_ws(y: Seq<char>, k: int)
    requires
        0 <= k < y.len(),
        !spec_is_whitespace(y[k]),
        spec_is_whitespace(y.last()),
    ensures
        spec_trim_start(y.drop_last()) == spec_trim_start(y).drop_last(),
        spec_trim_start(y).len() > 0,
        spec_trim_start(y).last() == y.last(),
    decreases y.len(),
{
    if spec_is_whitespace(y[0]) {
        assert(y.drop_first().drop_last() =~= y.drop_last().drop_first());
        lemma_trim_start_drop_ws(y.drop_first(), k - 1);
        assert(y.drop_last().len() > 0 && spec_is_whitespace(y.drop_last()[0]));
    } else {
        assert(y.len() >= 2);
    }
}

proof fn lemma_trim_drop_ws(y: Seq<char>)
    requires
        y.len() > 0,
        spec_is_whitespace(y.last()),
    ensures
        spec_trim(y.drop_last()) == spec_trim(y),
{
    if exists|k: int| 0 <= k < y.len() && !spec_is_whitespace(#[trigger] y[k]) {
        let k = choose|k: int| 0 <= k < y.len() && !spec_is_whitespace(#[trigger] y[k]);
        lemma_trim_start_drop_ws(y, k);
    } else {
        lemma_all_ws_trim_start(y);
        assert forall|i: int| 0 <= i < y.drop_last().len() implies spec_is_whitespace(
            #[trigger] y.drop_last()[i],
        ) by {
            assert(y.drop_last()[i] == y[i]);
        }
        lemma_all_ws_trim_start(y.drop_last());
    }
}

proof fn lemma_tagged_strip_cr(x: Seq<char>)
    requires
        tagged_if_heading(x),
    ensures
        tagged_if_heading(spec_strip_cr(x)),
{
    if x.len() > 0 && x.last() == '\r' {
        let x2 = x.drop_last();
        assert(spec_is_whitespace('\r'));
        if exists|k: int| 0 <= k < x.len() && !spec_is_whitespace(#[trigger] x[k]) {
            let k = choose|k: int| 0 <= k < x.len() && !spec_is_whitespace(#[trigger] x[k]);
            lemma_trim_start_drop_ws(x, k);
            let t = spec_trim_start(x);
            let t2 = spec_trim_start(x2);
            if spec_starts_with(t2, heading_marker()) && spec_find(t2.skip(4), ']') is Some {
                assert(t2 =~= t.drop_last());
                assert(t.take(4) =~= t2.take(4));
                let rest = t.skip(4);
                let rest2 = t2.skip(4);
                assert(rest2 =~= rest.drop_last());
                let e = spec_find(rest2, ']')->0;
                lemma_find_from(rest2, ']', 0);
                assert forall|j: int| 0 <= j < e implies rest[j] != ']' by {
                    assert(rest[j] == rest2[j]);
                }
                assert(rest[e] == rest2[e]);
                lemma_find_at(rest, ']', e, 0);
                let y = rest.skip(e + 1);
                assert(rest2.skip(e + 1) =~= y.drop_last());
                assert(y.last() == x.last());
                lemma_trim_drop_ws(y);
            }
        } else {
            assert forall|i: int| 0 <= i < x2.len() implies spec_is_whitespace(#[trigger] x2[i]) by {
                assert(x2[i] == x[i]);
            }
            lemma_all_ws_trim_start(x2);
        }
    }
}

proof fn lemma_mark_tags(l: Seq<char>)
    ensures
        tagged_if_heading(spec_mark_line(l)),
{
    let t0 = spec_trim_start(l);
    let rest = t0.skip(4);
    if spec_starts_with(t0, heading_marker()) && spec_find(rest, ']') is Some && !spec_starts_with(
        spec_trim(rest.skip(spec_find(rest, ']')->0 + 1)),
        ai_tag(),
    ) {
        let m = spec_mark_line(l);
        let e = spec_find(rest, ']')->0;
        let after = spec_trim(rest.skip(e + 1));
        lemma_find_from(rest, ']', 0);
        let p = rest.take(e);
        let tail = seq![']', ' '] + ai_tag() + seq![' '] + after;
        assert(m == heading_marker() + p + tail);
        assert(!spec_is_whitespace(m[0]));
        assert(spec_trim_start(m) == m);
        assert(m.take(4) =~= heading_marker());
        let rest2 = m.skip(4);
        assert(rest2 =~= p + tail);
        assert forall|j: int| 0 <= j < e implies rest2[j] != ']' by {
            assert(rest2[j] == rest[j]);
        }
        assert(rest2[e] == ']');
        lemma_find_at(rest2, ']', e, 0);
        let x = ai_tag() + seq![' '] + after;
        assert(rest2.skip(e + 1) =~= seq![' '] + x);
        assert(spec_is_whitespace(' '));
        assert((seq![' '] + x).drop_first() =~= x);
        assert(!spec_is_whitespace(x[0]));
        assert(spec_trim_start(seq![' '] + x) == spec_trim_start(x));
        assert(spec_trim_start(x) == x);
        lemma_trim_end_shape(x);
        let y = spec_trim_end(x);
        assert(!spec_is_whitespace(x[3]));
        assert(y.take(4) =~= ai_tag()) by {
            assert forall|j: int| 0 <= j < 4 implies y[j] == x[j] by {
                assert(y == x.subrange(0, y.len() as int));
            }
        }
    }
}

proof fn lemma_sub_no_newline(s: Seq<char>, a: int, b: int)
    requires
        no_newline(s),
        0 <= a <= b <= s.len(),
    ensures
        no_newline(s.subrange(a, b)),
{
    assert forall|i: int| 0 <= i < s.subrange(a, b).len() implies s.subrange(a, b)[i] != '\n' by {
        assert(s.subrange(a, b)[i] == s[a + i]);
    }
}

proof fn lemma_trim_no_newline(s: Seq<char>)
    requires
        no_newline(s),
    ensures
        no_newline(spec_trim_start(s)),
        no_newline(spec_trim(s)),
{
    lemma_trim_start_shape(s);
    lemma_sub_no_newline(s, s.len() - spec_trim_start(s).len(), s.len() as int);
    lemma_trim_end_shape(spec_trim_start(s));
    lemma_sub_no_newline(spec_trim_start(s), 0, spec_trim(s).len() as int);
}

proof fn lemma_mark_no_newline(l: Seq<char>)
    requires
        no_newline(l),
    ensures
        no_newline(spec_mark_line(l)),
{
    let t0 = spec_trim_start(l);
    lemma_trim_no_newline(l);
    let m = spec_mark_line(l);
    if m != l {
        let rest = t0.skip(4);
        let e = spec_find(rest, ']')->0;
        lemma_find_from(rest, ']', 0);
        assert(rest =~= t0.subrange(4, t0.len() as int));
        lemma_sub_no_newline(t0, 4, t0.len() as int);
        assert(rest.take(e) =~= rest.subrange(0, e));
        lemma_sub_no_newline(rest, 0, e);
        assert(rest.skip(e + 1) =~= rest.subrange(e + 1, rest.len() as int));
        lemma_sub_no_newline(rest, e + 1, rest.len() as int);
        let after = spec_trim(rest.skip(e + 1));
        lemma_trim_no_newline(rest.skip(e + 1));
        let parts = heading_marker() + rest.take(e) + seq![']', ' '] + ai_tag() + seq![' '] + after;
        assert(m == parts);
        assert forall|i: int| 0 <= i < m.len() implies m[i] != '\n' by {
            let a = 4 + e;
            if i < 4 {
            } else if i < a {
                assert(m[i] == rest.take(e)[i - 4]);
            } else if i < a + 7 {
            } else {
                assert(m[i] == after[i - a - 7]);
            }
        }
    }
}

proof fn lemma_mark_all(ls: Seq<Seq<char>>)
    requires
        forall|i: int| 0 <= i < ls.len() ==> no_newline(#[trigger] ls[i]),
    ensures
        mark_all(ls).len() == ls.len(),
        forall|i: int| 0 <= i < ls.len() ==> #[trigger] mark_all(ls)[i] == spec_mark_line(ls[i]),
        forall|i: int| 0 <= i < ls.len() ==> no_newline(#[trigger] mark_all(ls)[i]),
    decreases ls.len(),
{
    if ls.len() > 0 {
        let p = ls.drop_last();
        assert forall|i: int| 0 <= i < p.len() implies no_newline(#[trigger] p[i]) by {
            assert(p[i] == ls[i]);
        }
        lemma_mark_all(p);
        lemma_mark_no_newline(ls.last());
        assert forall|i: int| 0 <= i < ls.len() implies #[trigger] mark_all(ls)[i] == spec_mark_line(ls[i]) by {
            if i < p.len() {
                assert(ls[i] == p[i]);
            }
        }
    }
}

proof fn lemma_strip_all(ms: Seq<Seq<char>>)
    ensures
        strip_all(ms).len() == ms.len(),
        forall|i: int| 0 <= i < ms.len() ==> #[trigger] strip_all(ms)[i] == spec_strip_cr(ms[i]),
    decreases ms.len(),
{
    if ms.len() > 0 {
        lemma_strip_all(ms.drop_last());
        assert forall|i: int| 0 <= i < ms.len() implies #[trigger] strip_all(ms)[i] == spec_strip_cr(ms[i]) by {
            if i < ms.len() - 1 {
                assert(ms.drop_last()[i] == ms[i]);
            }
        }
    }
}

/// Every question heading of a saved generated bank carries the `[AI]` tag
/// after its level.
pub proof fn law_generated_headings_tagged(raw: Seq<char>)
    ensures
        spec_finish_generated(raw) matches Some(r) ==> forall|i: int|
            0 <= i < spec_lines(r).len() ==> tagged_if_heading(#[trigger] spec_lines(r)[i]),
{
    let c = spec_trim(raw);
    if spec_contains(c, heading_marker()) {
        let ls = spec_lines(spec_unfence(c));
        lemma_lines_no_newline(spec_unfence(c));
        lemma_mark_all(ls);
        let ms = mark_all(ls);
        lemma_lines_join(ms);
        let r = spec_join_lines(ms);
        assert forall|i: int| 0 <= i < spec_lines(r).len() implies tagged_if_heading(#[trigger] spec_lines(r)[i]) by {
            if ms.len() > 0 {
                lemma_strip_all(ms.drop_last());
                if i < ms.len() - 1 {
                    assert(spec_lines(r)[i] == spec_strip_cr(ms.drop_last()[i]));
                    assert(ms.drop_last()[i] == ms[i]);
                    lemma_mark_tags(ls[i]);
                    lemma_tagged_strip_cr(ms[i]);
                } else {
                    assert(spec_lines(r)[i] == ms.last());
                    lemma_mark_tags(ls[ms.len() - 1]);
                }
            }
        }
    }
}

proof fn lemma_trim_end_keeps(y: Seq<char>, j: int)
    requires
        0 <= j < y.len(),
        !spec_is_whitespace(y[j]),
    ensures
        j < spec_trim_end(y).len() <= y.len(),
        forall|i: int| 0 <= i < spec_trim_end(y).len() ==> #[trigger] spec_trim_end(y)[i] == y[i],
{
    lemma_trim_end_shape(y);
    assert forall|i: int| 0 <= i < spec_trim_end(y).len() implies #[trigger] spec_trim_end(y)[i] == y[i] by {
        assert(spec_trim_end(y) == y.subrange(0, spec_trim_end(y).len() as int));
    }
}

proof fn lemma_mark_keeps_level(l: Seq<char>)
    ensures
        heading_level(spec_mark_line(l)) == heading_level(l),
{
    let t0 = spec_trim_start(l);
    let rest0 = t0.skip(4);
    let m = spec_mark_line(l);
    if m != l {
        let e = spec_find(rest0, ']')->0;
        lemma_find_from(rest0, ']', 0);
        let p = rest0.take(e);
        let after = spec_trim(rest0.skip(e + 1));
        // The level of the line.
        let t = spec_trim(l);
        assert(rest0[e] == t0[4 + e]);
        assert(!spec_is_whitespace(']'));
        lemma_trim_end_keeps(t0, 4 + e);
        assert(t == spec_trim_end(t0));
        assert(t.len() > 4 + e);
        assert(t.take(4) =~= t0.take(4));
        let rt = t.skip(4);
        assert forall|j: int| 0 <= j < e implies rt[j] != ']' by {
            assert(rt[j] == rest0[j]);
        }
        assert(rt[e] == ']');
        lemma_find_at(rt, ']', e, 0);
        assert(rt.take(e) =~= p);
        // The level of the marked line.
        let tail = seq![']', ' '] + ai_tag() + seq![' '] + after;
        assert(m == heading_marker() + p + tail);
        assert(!spec_is_whitespace(m[0]));
        assert(spec_trim_start(m) == m);
        assert(m[4 + e] == ']');
        lemma_trim_end_keeps(m, 4 + e);
        let tm = spec_trim(m);
        assert(tm == spec_trim_end(m));
        assert(tm.take(4) =~= heading_marker());
        let rm = tm.skip(4);
        assert forall|j: int| 0 <= j < e implies rm[j] != ']' by {
            assert(rm[j] == m[4 + j]);
            assert(m[4 + j] == p[j]);
            assert(p[j] == rest0[j]);
        }
        assert(rm[e] == ']');
        lemma_find_at(rm, ']', e, 0);
        assert forall|j: int| 0 <= j < e implies rm.take(e)[j] == p[j] by {
            assert(m[4 + j] == p[j]);
        }
        assert(rm.take(e) =~= p);
    }
}

proof fn lemma_count_same(a: Seq<Seq<char>>, b: Seq<Seq<char>>, level: u8)
    requires
        a.len() == b.len(),
        forall|i: int| 0 <= i < a.len() ==> heading_level(#[trigger] a[i]) == heading_level(b[i]),
    ensures
        count_headings(a, level) == count_headings(b, level),
    decreases a.len(),
{
    if a.len() > 0 {
        assert forall|i: int| 0 <= i < a.drop_last().len() implies heading_level(#[trigger] a.drop_last()[i])
            == heading_level(b.drop_last()[i]) by {
            assert(a.drop_last()[i] == a[i]);
            assert(b.drop_last()[i] == b[i]);
        }
        lemma_count_same(a.drop_last(), b.drop_last(), level);
        assert(heading_level(a[a.len() - 1]) == heading_level(b[b.len() - 1]));
    }
}

/// Marking keeps the headings of every level: the saved bank has, level by
/// level, as many headings as the reply once trimmed and taken out of its
/// code fence.
pub proof fn law_marking_keeps_levels(raw: Seq<char>, level: u8)
    ensures
        spec_finish_generated(raw) matches Some(r) ==> count_headings(spec_lines(r), level) == count_headings(
            spec_lines(spec_unfence(spec_trim(raw))),
            level,
        ),
{
    let c = spec_trim(raw);
    if spec_contains(c, heading_marker()) {
        let ls = spec_lines(spec_unfence(c));
        lemma_lines_no_newline(spec_unfence(c));
        lemma_mark_all(ls);
        let ms = mark_all(ls);
        lemma_lines_join(ms);
        let r = spec_join_lines(ms);
        if ms.len() > 0 {
            let n = ms.len() - 1;
            lemma_strip_all(ms.drop_last());
            let a = strip_all(ms.drop_last());
            assert forall|i: int| 0 <= i < a.len() implies heading_level(#[trigger] a[i]) == heading_level(
                ls.drop_last()[i],
            ) by {
                assert(ms.drop_last()[i] == ms[i]);
                assert(ls.drop_last()[i] == ls[i]);
                lemma_mark_keeps_level(ls[i]);
                if ms[i].len() > 0 && ms[i].last() == '\r' {
                    assert(spec_is_whitespace('\r'));
                    lemma_trim_drop_ws(ms[i]);
                }
            }
            lemma_count_same(a, ls.drop_last(), level);
            lemma_mark_keeps_level(ls[n]);
            assert(ls.drop_last().push(ls[n]) =~= ls);
            if ms.last().len() > 0 {
                assert(a.push(ms.last()).drop_last() =~= a);
            } else {
                assert(spec_trim(ms.last()).len() == 0);
                assert(heading_level(ms.last()) is None);
            }
        }
    }
}

// ── Heading counts through trimming and unfencing ────────────────────────────

/// Characters that can be trimmed or stripped from the end of a reply.
spec fn filler(c: char) -> bool {
    spec_is_whitespace(c) || c == '`'
}

proof fn lemma_count_push(d: Seq<Seq<char>>, x: Seq<char>, level: u8)
    ensures
        count_headings(d.push(x), level) == count_headings(d, level) + if heading_level(x) == Some(level) {
            1nat
        } else {
            0nat
        },
{
    assert(d.push(x).drop_last() =~= d);
}

proof fn lemma_count_front(x: Seq<char>, d: Seq<Seq<char>>, level: u8)
    ensures
        count_headings(seq![x] + d, level) == count_headings(d, level) + if heading_level(x) == Some(level) {
            1nat
        } else {
            0nat
        },
    decreases d.len(),
{
    let e = seq![x] + d;
    if d.len() > 0 {
        lemma_count_front(x, d.drop_last(), level);
        assert(e.drop_last() =~= seq![x] + d.drop_last());
        assert(e.last() == d.last());
        assert(count_headings(e, level) == count_headings(e.drop_last(), level) + if heading_level(e.last()) == Some(level) {
            1nat
        } else {
            0nat
        });
        assert(count_headings(d, level) == count_headings(d.drop_last(), level) + if heading_level(d.last()) == Some(level) {
            1nat
        } else {
            0nat
        });
    } else {
        assert(e =~= seq![x]);
        assert(e.drop_last() =~= Seq::<Seq<char>>::empty());
        assert(e.last() == x);
        assert(count_headings(Seq::<Seq<char>>::empty(), level) == 0);
        assert(count_headings(d, level) == 0);
    }
}

proof fn lemma_short_not_heading(x: Seq<char>)
    requires
        spec_trim(x).len() < 4,
    ensures
        heading_level(x) is None,
{
}

proof fn lemma_level_push(x: Seq<char>, ch: char)
    requires
        filler(ch),
    ensures
        heading_level(x.push(ch)) == heading_level(x),
{
    let y = x.push(ch);
    if exists|k: int| 0 <= k < x.len() && !spec_is_whitespace(#[trigger] x[k]) {
        let k = choose|k: int| 0 <= k < x.len() && !spec_is_whitespace(#[trigger] x[k]);
        assert(y =~= x + seq![ch]);
        lemma_trim_start_ws_suffix(x, seq![ch], k);
        let t0 = spec_trim_start(x);
        let t0y = spec_trim_start(y);
        assert(t0y == t0.push(ch));
        if spec_is_whitespace(ch) {
            assert(t0.push(ch).drop_last() =~= t0);
            assert(spec_trim(y) == spec_trim(x));
        } else {
            lemma_trim_start_shape(x);
            assert(t0.len() > 0);
            lemma_trim_end_shape(t0);
            let t = spec_trim_end(t0);
            assert(t0y.last() == '`');
            assert(spec_trim_end(t0y) == t0y);
            let ty = t0y;
            assert forall|j: int| 0 <= j < t.len() implies t[j] == t0[j] && ty[j] == t0[j] by {
                assert(t == t0.subrange(0, t.len() as int));
            }
            if t.len() >= 4 {
                assert(t.take(4) =~= ty.take(4));
                if spec_starts_with(t, heading_marker()) {
                    let rt = t.skip(4);
                    let ry = ty.skip(4);
                    lemma_find_from(rt, ']', 0);
                    match spec_find(rt, ']') {
                        Some(e) => {
                            assert forall|j: int| 0 <= j < e implies ry[j] != ']' by {
                                assert(ry[j] == rt[j]);
                            }
                            assert(ry[e] == rt[e]);
                            lemma_find_at(ry, ']', e, 0);
                            assert(ry.take(e) =~= rt.take(e));
                        },
                        None => {
                            lemma_find_from(ry, ']', 0);
                            let f = find_from(ry, ']', 0);
                            if f < ry.len() {
                                if f < rt.len() {
                                    assert(ry[f] == rt[f]);
                                } else if 4 + f < t0.len() {
                                    assert(ry[f] == t0[4 + f]);
                                    assert(spec_is_whitespace(t0[4 + f]));
                                } else {
                                    assert(ry[f] == '`');
                                }
                            }
                        },
                    }
                }
            } else {
                if ty.len() >= 4 {
                    if 3 < t0.len() {
                        assert(ty[3] == t0[3]);
                        assert(spec_is_whitespace(t0[3]));
                    } else {
                        assert(ty[3] == '`');
                    }
                    assert(ty.take(4)[3] == ty[3]);
                }
            }
        }
    } else {
        lemma_all_ws_trim_start(x);
        if spec_is_whitespace(ch) {
            assert forall|i: int| 0 <= i < y.len() implies spec_is_whitespace(#[trigger] y[i]) by {
                if i < x.len() {
                    assert(y[i] == x[i]);
                }
            }
            lemma_all_ws_trim_start(y);
        } else {
            lemma_trim_start_shape(y);
            lemma_trim_end_shape(spec_trim_start(y));
            assert(spec_trim_start(y).len() <= 1) by {
                if spec_trim_start(y).len() > 1 {
                    let k = y.len() - spec_trim_start(y).len();
                    assert(spec_trim_start(y)[0] == y[k]);
                    assert(y[k] == x[k]);
                }
            }
            lemma_short_not_heading(y);
        }
    }
}

proof fn lemma_level_ws_front(ch: char, x: Seq<char>)
    requires
        spec_is_whitespace(ch),
    ensures
        heading_level(seq![ch] + x) == heading_level(x),
{
    assert((seq![ch] + x).drop_first() =~= x);
}

proof fn lemma_level_strip_cr(x: Seq<char>)
    ensures
        heading_level(spec_strip_cr(x)) == heading_level(x),
{
    if x.len() > 0 && x.last() == '\r' {
        assert(spec_is_whitespace('\r'));
        lemma_trim_drop_ws(x);
    }
}

proof fn lemma_lines_push(t: Seq<char>, ch: char, level: u8)
    requires
        filler(ch),
    ensures
        count_headings(spec_lines(t.push(ch)), level) == count_headings(spec_lines(t), level),
{
    let u = t.push(ch);
    let n = t.len() as int;
    lemma_lines_prefix(t, u, n);
    let (d, c) = lines_upto(t, n);
    assert(u[n] == ch);
    if ch == '\n' {
        lemma_count_push(d, spec_strip_cr(c), level);
        lemma_level_strip_cr(c);
        if c.len() > 0 {
            lemma_count_push(d, c, level);
        } else {
            assert(spec_strip_cr(c) == c);
            lemma_short_not_heading(c);
        }
    } else {
        lemma_count_push(d, c.push(ch), level);
        lemma_level_push(c, ch);
        if c.len() > 0 {
            lemma_count_push(d, c, level);
        } else {
            assert(c.push(ch).len() == 1);
            lemma_trim_start_shape(c.push(ch));
            lemma_trim_end_shape(spec_trim_start(c.push(ch)));
            lemma_short_not_heading(c.push(ch));
        }
    }
}

proof fn lemma_lines_append(s: Seq<char>, w: Seq<char>, level: u8)
    requires
        forall|i: int| 0 <= i < w.len() ==> filler(#[trigger] w[i]),
    ensures
        count_headings(spec_lines(s + w), level) == count_headings(spec_lines(s), level),
    decreases w.len(),
{
    if w.len() > 0 {
        let w2 = w.drop_last();
        assert forall|i: int| 0 <= i < w2.len() implies filler(#[trigger] w2[i]) by {
            assert(w2[i] == w[i]);
        }
        lemma_lines_append(s, w2, level);
        assert(s + w =~= (s + w2).push(w.last()));
        assert(filler(w[w.len() - 1]));
        lemma_lines_push(s + w2, w.last(), level);
    } else {
        assert(s + w =~= s);
    }
}

proof fn lemma_prepend_upto(ch: char, t: Seq<char>, i: int)
    requires
        spec_is_whitespace(ch),
        0 <= i <= t.len(),
    ensures
        ({
            let (d1, c1) = lines_upto(seq![ch] + t, i + 1);
            let (d2, c2) = lines_upto(t, i);
            &&& ch == '\n' ==> d1 == seq![Seq::<char>::empty()] + d2 && c1 == c2
            &&& ch != '\n' ==> {
                &&& d1.len() == d2.len()
                &&& forall|j: int| 0 <= j < d1.len() ==> heading_level(#[trigger] d1[j]) == heading_level(d2[j])
                &&& d2.len() == 0 ==> c1 == seq![ch] + c2
                &&& d2.len() > 0 ==> c1 == c2
            }
        }),
    decreases i,
{
    let u = seq![ch] + t;
    if i == 0 {
        assert(u[0] == ch);
        assert(lines_upto(u, 0) == (Seq::<Seq<char>>::empty(), Seq::<char>::empty()));
        assert(lines_upto(t, 0) == (Seq::<Seq<char>>::empty(), Seq::<char>::empty()));
        if ch == '\n' {
            assert(seq![Seq::<char>::empty()] + Seq::<Seq<char>>::empty() =~= seq![Seq::<char>::empty()]);
        } else {
            assert(Seq::<char>::empty().push(ch) =~= seq![ch] + Seq::<char>::empty());
        }
    } else {
        lemma_prepend_upto(ch, t, i - 1);
        let (d1, c1) = lines_upto(u, i);
        let (d2, c2) = lines_upto(t, i - 1);
        let x = t[i - 1];
        assert(u[i] == x);
        assert(lines_upto(u, i + 1) == if x == '\n' {
            (d1.push(spec_strip_cr(c1)), Seq::<char>::empty())
        } else {
            (d1, c1.push(x))
        });
        assert(lines_upto(t, i) == if x == '\n' {
            (d2.push(spec_strip_cr(c2)), Seq::<char>::empty())
        } else {
            (d2, c2.push(x))
        });
        if ch == '\n' {
            if x == '\n' {
                assert((seq![Seq::<char>::empty()] + d2).push(spec_strip_cr(c2)) =~= seq![Seq::<char>::empty()]
                    + d2.push(spec_strip_cr(c2)));
            }
        } else {
            if x == '\n' {
                let e1 = d1.push(spec_strip_cr(c1));
                let e2 = d2.push(spec_strip_cr(c2));
                if d2.len() == 0 {
                    if c2.len() > 0 {
                        assert(spec_strip_cr(seq![ch] + c2) =~= seq![ch] + spec_strip_cr(c2));
                        lemma_level_ws_front(ch, spec_strip_cr(c2));
                    } else {
                        assert(seq![ch] + c2 =~= seq![ch]);
                        lemma_trim_start_shape(spec_strip_cr(seq![ch]));
                        lemma_trim_end_shape(spec_trim_start(spec_strip_cr(seq![ch])));
                        lemma_short_not_heading(spec_strip_cr(seq![ch]));
                        lemma_short_not_heading(spec_strip_cr(c2));
                    }
                }
                assert forall|j: int| 0 <= j < e1.len() implies heading_level(#[trigger] e1[j]) == heading_level(e2[j]) by {
                    if j < d1.len() {
                        assert(e1[j] == d1[j]);
                        assert(e2[j] == d2[j]);
                    }
                }
            } else {
                if d2.len() == 0 {
                    assert((seq![ch] + c2).push(x) =~= seq![ch] + c2.push(x));
                }
            }
        }
    }
}

proof fn lemma_lines_prepend(ch: char, t: Seq<char>, level: u8)
    requires
        spec_is_whitespace(ch),
    ensures
        count_headings(spec_lines(seq![ch] + t), level) == count_headings(spec_lines(t), level),
{
    let u = seq![ch] + t;
    lemma_prepend_upto(ch, t, t.len() as int);
    assert(u.len() == t.len() + 1);
    let (d1, c1) = lines_upto(u, u.len() as int);
    let (d2, c2) = lines_upto(t, t.len() as int);
    if ch == '\n' {
        lemma_short_not_heading(Seq::<char>::empty());
        if c2.len() > 0 {
            assert(seq![Seq::<char>::empty()] + d2.push(c2) =~= (seq![Seq::<char>::empty()] + d2).push(c2));
            lemma_count_front(Seq::<char>::empty(), d2.push(c2), level);
        } else {
            lemma_count_front(Seq::<char>::empty(), d2, level);
        }
    } else {
        if d2.len() == 0 {
            lemma_count_same(d1, d2, level);
            lemma_count_push(d1, c1, level);
            if c2.len() > 0 {
                lemma_count_push(d2, c2, level);
                lemma_level_ws_front(ch, c2);
            } else {
                assert(c1 =~= seq![ch]);
                lemma_trim_start_shape(c1);
                lemma_trim_end_shape(spec_trim_start(c1));
                lemma_short_not_heading(c1);
            }
        } else {
            lemma_count_same(d1, d2, level);
            if c2.len() > 0 {
                lemma_count_push(d1, c1, level);
                lemma_count_push(d2, c2, level);
            }
        }
    }
}

proof fn lemma_lines_prepend_ws(w: Seq<char>, s: Seq<char>, level: u8)
    requires
        forall|i: int| 0 <= i < w.len() ==> spec_is_whitespace(#[trigger] w[i]),
    ensures
        count_headings(spec_lines(w + s), level) == count_headings(spec_lines(s), level),
    decreases w.len(),
{
    if w.len() > 0 {
        let w2 = w.drop_first();
        assert forall|i: int| 0 <= i < w2.len() implies spec_is_whitespace(#[trigger] w2[i]) by {
            assert(w2[i] == w[i + 1]);
        }
        lemma_lines_prepend_ws(w2, s, level);
        assert(w + s =~= seq![w[0]] + (w2 + s));
        lemma_lines_prepend(w[0], w2 + s, level);
    } else {
        assert(w + s =~= s);
    }
}

proof fn lemma_lines_trim(s: Seq<char>, level: u8)
    ensures
        count_headings(spec_lines(spec_trim(s)), level) == count_headings(spec_lines(s), level),
{
    let ts = spec_trim_start(s);
    lemma_trim_start_shape(s);
    let w = s.take(s.len() - ts.len());
    assert(s =~= w + ts);
    assert forall|i: int| 0 <= i < w.len() implies spec_is_whitespace(#[trigger] w[i]) by {
        assert(w[i] == s[i]);
    }
    lemma_lines_prepend_ws(w, ts, level);
    lemma_trim_end_shape(ts);
    let te = spec_trim_end(ts);
    let w2 = ts.skip(te.len() as int);
    assert(ts =~= te + w2);
    assert forall|i: int| 0 <= i < w2.len() implies filler(#[trigger] w2[i]) by {
        assert(w2[i] == ts[te.len() + i]);
    }
    lemma_lines_append(te, w2, level);
}

proof fn lemma_fences_suffix(s: Seq<char>)
    ensures
        spec_trim_end_fences(s).len() <= s.len(),
        s == spec_trim_end_fences(s) + s.skip(spec_trim_end_fences(s).len() as int),
        forall|i: int|
            spec_trim_end_fences(s).len() <= i < s.len() ==> #[trigger] s[i] == '`',
    decreases s.len(),
{
    if s.len() >= 3 && s.skip(s.len() - 3) == fence() {
        let p = s.take(s.len() - 3);
        lemma_fences_suffix(p);
        assert forall|i: int| spec_trim_end_fences(s).len() <= i < s.len() implies #[trigger] s[i] == '`' by {
            if i < p.len() {
                assert(s[i] == p[i]);
            } else {
                let f3 = s.skip(s.len() - 3);
                assert(f3 == fence());
                assert(f3[i - (s.len() - 3)] == s[i]);
            }
        }
        let t = spec_trim_end_fences(s);
        assert(t == spec_trim_end_fences(p));
        let k = t.len() as int;
        assert(s =~= p + s.skip(s.len() - 3));
        assert(s.skip(k) =~= p.skip(k) + s.skip(s.len() - 3));
        assert(s =~= t + s.skip(k));
    } else {
        assert(s.skip(s.len() as int) =~= Seq::<char>::empty());
        assert(s =~= s + Seq::<char>::empty());
    }
}

proof fn lemma_lines_fences(s: Seq<char>, level: u8)
    ensures
        count_headings(spec_lines(spec_trim_end_fences(s)), level) == count_headings(spec_lines(s), level),
{
    lemma_fences_suffix(s);
    let f = spec_trim_end_fences(s);
    let w = s.skip(f.len() as int);
    assert forall|i: int| 0 <= i < w.len() implies filler(#[trigger] w[i]) by {
        assert(w[i] == s[f.len() + i]);
    }
    lemma_lines_append(f, w, level);
}

proof fn lemma_first_line_start(s: Seq<char>, n: int)
    requires
        1 <= n <= s.len(),
        s[0] != '\n',
        s[0] != '\r',
    ensures
        ({
            let (d, c) = lines_upto(s, n);
            &&& d.len() > 0 ==> d[0].len() > 0 && d[0][0] == s[0]
            &&& d.len() == 0 ==> c.len() > 0 && c[0] == s[0]
        }),
    decreases n,
{
    if n == 1 {
        assert(lines_upto(s, 0) == (Seq::<Seq<char>>::empty(), Seq::<char>::empty()));
    } else {
        lemma_first_line_start(s, n - 1);
        let (d, c) = lines_upto(s, n - 1);
        if s[n - 1] == '\n' {
            if d.len() == 0 {
                assert(d.push(spec_strip_cr(c))[0] == spec_strip_cr(c));
                assert(spec_strip_cr(c)[0] == c[0]);
            } else {
                assert(d.push(spec_strip_cr(c))[0] == d[0]);
            }
        } else if d.len() == 0 {
            assert(c.push(s[n - 1])[0] == c[0]);
        }
    }
}

proof fn lemma_lines_drop_first(c: Seq<char>, level: u8)
    requires
        c.len() > 0,
        c[0] == '`',
    ensures
        ({
            let ls = spec_lines(c);
            ls.len() > 0 && count_headings(ls, level) == count_headings(ls.skip(1), level)
        }),
{
    lemma_first_line_start(c, c.len() as int);
    let ls = spec_lines(c);
    let first = ls[0];
    assert(first.len() > 0 && first[0] == '`');
    assert(!spec_is_whitespace('`'));
    assert(spec_trim_start(first) == first);
    lemma_trim_end_keeps(first, 0);
    assert(spec_trim(first)[0] == '`');
    assert(heading_level(first) is None) by {
        if spec_trim(first).len() >= 4 {
            assert(spec_trim(first).take(4)[0] == '`');
        }
    }
    assert(ls =~= seq![first] + ls.skip(1));
    lemma_count_front(first, ls.skip(1), level);
}

proof fn lemma_lines_rejoin(ms: Seq<Seq<char>>, level: u8)
    requires
        forall|i: int| 0 <= i < ms.len() ==> no_newline(#[trigger] ms[i]),
    ensures
        count_headings(spec_lines(spec_join_lines(ms)), level) == count_headings(ms, level),
{
    lemma_lines_join(ms);
    if ms.len() > 0 {
        lemma_strip_all(ms.drop_last());
        let a = strip_all(ms.drop_last());
        assert forall|i: int| 0 <= i < a.len() implies heading_level(#[trigger] a[i]) == heading_level(
            ms.drop_last()[i],
        ) by {
            lemma_level_strip_cr(ms.drop_last()[i]);
        }
        lemma_count_same(a, ms.drop_last(), level);
        assert(ms.drop_last().push(ms.last()) =~= ms);
        lemma_count_push(ms.drop_last(), ms.last(), level);
        if ms.last().len() > 0 {
            lemma_count_push(a, ms.last(), level);
        } else {
            lemma_short_not_heading(ms.last());
        }
    }
}

/// Trimming the reply and taking it out of a code fence keeps its headings
/// of every level.
proof fn lemma_unfence_keeps_levels(raw: Seq<char>, level: u8)
    ensures
        count_headings(spec_lines(spec_unfence(spec_trim(raw))), level) == count_headings(spec_lines(raw), level),
{
    let c = spec_trim(raw);
    lemma_lines_trim(raw, level);
    if spec_starts_with(c, fence()) {
        let ls = spec_lines(c);
        assert(c[0] == c.take(3)[0]);
        lemma_lines_drop_first(c, level);
        let rest = ls.skip(1);
        lemma_lines_no_newline(c);
        assert forall|i: int| 0 <= i < rest.len() implies no_newline(#[trigger] rest[i]) by {
            assert(rest[i] == ls[i + 1]);
        }
        lemma_lines_rejoin(rest, level);
        let j = spec_join_lines(rest);
        lemma_lines_fences(j, level);
        lemma_lines_trim(spec_trim_end_fences(j), level);
    }
}

/// A saved generated bank has, level by level, as many question headings
/// as the reply it was made from.
pub proof fn law_generated_keeps_levels(raw: Seq<char>, level: u8)
    ensures
        spec_finish_generated(raw) matches Some(r) ==> count_headings(spec_lines(r), level) == count_headings(
            spec_lines(raw),
            level,
        ),
{
    law_marking_keeps_levels(raw, level);
    lemma_unfence_keeps_levels(raw, level);
}

/// The generated bank as saved, or `None` when the reply holds no question
/// heading.
pub open spec fn spec_finish_generated(raw: Seq<char>) -> Option<Seq<char>> {
    let c = spec_trim(raw);
    if !spec_contains(c, heading_marker()) {
        None
    } else {
        Some(spec_join_lines(mark_all(spec_lines(spec_unfence(c)))))
    }
}

/// Every line marked.
pub open spec fn mark_all(ls: Seq<Seq<char>>) -> Seq<Seq<char>>
    decreases ls.len(),
{
    if ls.len() == 0 {
        seq![]
    } else {
        mark_all(ls.drop_last()).push(spec_mark_line(ls.last()))
    }
}

/// Why a generated reply was refused.
#[derive(Debug)]
pub enum GenError {
    /// The reply holds no `## [` heading.
    NoQuestions,
}

fn trim_end_fences(s: Vec<char>) -> (r: Vec<char>)
    ensures
        r@ == spec_trim_end_fences(s@),
    decreases s@.len(),
{
    let n = s.len();
    if n >= 3 && s[n - 3] == '`' && s[n - 2] == '`' && s[n - 1] == '`' {
        assert(s@.skip(n - 3) =~= fence());
        let mut t = s;
        t.truncate(n - 3);
        assert(t@ =~= s@.take(n - 3));
        trim_end_fences(t)
    } else {
        proof {
            if n >= 3 && s@.skip(n - 3) == fence() {
                assert(s@.skip(n - 3)[0] == s@[n - 3]);
                assert(s@.skip(n - 3)[1] == s@[n - 2]);
                assert(s@.skip(n - 3)[2] == s@[n - 1]);
            }
        }
        s
    }
}

fn trim_start(s: &[char]) -> (r: Vec<char>)
    ensures
        r@ == spec_trim_start(s@),
{
    let n = s.len();
    let mut i: usize = 0;
    assert(s@.subrange(0, n as int) =~= s@);
    while i < n && crate::text::is_whitespace(s[i])
        invariant
            i <= n,
            n == s@.len(),
            spec_trim_start(s@) == spec_trim_start(s@.subrange(i as int, n as int)),
        decreases n - i,
    {
        assert(s@.subrange(i as int, n as int).drop_first() =~= s@.subrange(i + 1, n as int));
        i = i + 1;
    }
    vstd::slice::slice_to_vec(&s[i..n])
}

fn mark_line(line: &[char], heading: &[char], tag: &[char]) -> (r: Vec<char>)
    requires
        heading@ == heading_marker(),
        tag@ == ai_tag(),
    ensures
        r@ == spec_mark_line(line@),
{
    let t = trim_start(line);
    if starts_with(t.as_slice(), heading) {
        let n = t.len();
        let rest = &t.as_slice()[4..n];
        assert(rest@ =~= t@.skip(4));
        match find_char(rest, ']') {
            Some(e) => {
                let m = rest.len();
                assert(rest@.skip(e + 1) =~= rest@.subrange(e + 1, m as int));
                let after = trim(&rest[e + 1..m]);
                if !starts_with(after.as_slice(), tag) {
                    let mut s = String::new();
                    push_chars(&mut s, heading);
                    push_chars(&mut s, &rest[0..e]);
                    push_char(&mut s, ']');
                    push_char(&mut s, ' ');
                    push_chars(&mut s, tag);
                    push_char(&mut s, ' ');
                    push_chars(&mut s, after.as_slice());
                    assert(rest@.subrange(0, e as int) =~= rest@.take(e as int));
                    let out = chars_of(s.as_str());
                    assert(out@ =~= spec_mark_line(line@));
                    out
                } else {
                    vstd::slice::slice_to_vec(line)
                }
            },
            None => vstd::slice::slice_to_vec(line),
        }
    } else {
        vstd::slice::slice_to_vec(line)
    }
}

/// Checks a generated reply and prepares it for saving: trims it, removes a
/// code fence around it and marks each question heading as generated.
pub fn finish_generated(raw: &str) -> (r: Result<String, GenError>)
    ensures
        r matches Ok(s) ==> spec_finish_generated(raw@) == Some(s@),
        r is Err <==> spec_finish_generated(raw@) is None,
{
    let c = trim(chars_of(raw).as_slice());
    let heading = chars_of("## [");
    let tag = chars_of("[AI]");
    let fence_chars = chars_of("```");
    proof {
        reveal_strlit("## [");
        reveal_strlit("[AI]");
        reveal_strlit("```");
        assert(heading@ =~= heading_marker());
        assert(tag@ =~= ai_tag());
        assert(fence_chars@ =~= fence());
    }
    if !contains(c.as_slice(), heading.as_slice()) {
        return Err(GenError::NoQuestions);
    }
    let body: Vec<char> = if starts_with(c.as_slice(), fence_chars.as_slice()) {
        let mut ls = split_lines(c.as_slice());
        let ghost all = views(ls@);
        let rest = if ls.len() > 0 {
            let r = ls.split_off(1);
            assert(views(r@) =~= all.skip(1));
            r
        } else {
            ls
        };
        let joined = join_lines(rest.as_slice());
        let stripped = trim_end_fences(chars_of(joined.as_str()));
        trim(stripped.as_slice())
    } else {
        c
    };
    assert(body@ == spec_unfence(spec_trim(raw@)));
    let lines = split_lines(body.as_slice());
    let ghost ls = views(lines@);
    let mut marked: Vec<Vec<char>> = Vec::new();
    let mut i: usize = 0;
    while i < lines.len()
        invariant
            ls == views(lines@),
            heading@ == heading_marker(),
            tag@ == ai_tag(),
            i <= lines@.len(),
            views(marked@) == mark_all(ls.take(i as int)),
        decreases lines@.len() - i,
    {
        assert(ls[i as int] == lines@[i as int]@);
        let m = mark_line(lines[i].as_slice(), heading.as_slice(), tag.as_slice());
        let ghost before = views(marked@);
        let ghost mv = m@;
        marked.push(m);
        assert(views(marked@) =~= before.push(mv));
        assert(ls.take(i + 1).drop_last() =~= ls.take(i as int));
        i = i + 1;
    }
    assert(ls.take(lines@.len() as int) =~= ls);
    Ok(join_lines(marked.as_slice()))
}

} // verus!

verus! {

// ── Prompts ──────────────────────────────────────────────────────────────────

/// The system message of a generation request.
pub const SYSTEM_PROMPT: &'static str = "You are an expert technical interviewer generating structured question banks. Output ONLY valid markdown in the exact format specified. No preamble, no explanation, no markdown code fences.";

/// The start of the request, before the topic.
pub const PROMPT_ASK: &'static str = "Generate interview questions for the topic: ";

/// Between the topic and the level-1 count.
pub const PROMPT_EXACTLY: &'static str = "\n\nGenerate exactly:\n- ";

/// After the level-1 count.
pub const PROMPT_LEVEL1: &'static str = " level-1 questions (basic, foundational knowledge)\n- ";

/// After the level-2 count.
pub const PROMPT_LEVEL2: &'static str = " level-2 questions (intermediate, applied understanding)\n- ";

/// After the level-3 count.
pub const PROMPT_LEVEL3: &'static str = " level-3 questions (advanced, deep understanding)\n- ";

/// After the level-4 count, up to the slug of the format example.
pub const PROMPT_LEVEL4: &'static str = " level-4 questions (expert, research/architecture level)\n\nOutput ONLY in this exact format (no code fences, no preamble):\n\n# ";

/// The rest of the format example after its title.
pub const PROMPT_EXAMPLE: &'static str = "\n\n## [1] Question text?\n\n- 1: basic keyword or short phrase\n- 2: intermediate keyword\n\n## [2] Question text?\n\n- 1: basic keyword\n- 2: intermediate keyword\n- 3: advanced keyword";

/// The rules of the format.
pub const PROMPT_RULES: &'static str = "Rules:\n- Each heading '## [N] text?' defines a question at level N (1=basic, 4=expert)\n- Each bullet '- N: text' is an answer keyword for depth N\n- Only include keyword levels that are relevant to the question\n- Keywords are SHORT (under 10 words each); comma-separate multiple concepts\n- Questions must be specific and testable, not vague\n- Output ONLY the markdown. No extra text before or after.";

/// The user message asking for `counts[k]` questions of level `k + 1` on
/// `topic`, with a format example titled by the topic's slug and the rules.
pub open spec fn spec_user_prompt(topic: Seq<char>, counts: Seq<u8>) -> Seq<char> {
    PROMPT_ASK@ + topic + PROMPT_EXACTLY@ + spec_decimal(counts[0] as nat) + PROMPT_LEVEL1@
        + spec_decimal(counts[1] as nat) + PROMPT_LEVEL2@ + spec_decimal(counts[2] as nat)
        + PROMPT_LEVEL3@ + spec_decimal(counts[3] as nat) + PROMPT_LEVEL4@ + spec_slugify(topic)
        + PROMPT_EXAMPLE@ + seq!['\n', '\n'] + PROMPT_RULES@
}

/// The request for questions of one level: `- N level-K questions`, on a
/// line of its own.
pub open spec fn level_request(level: char, n: nat) -> Seq<char> {
    seq!['\n', '-', ' '] + spec_decimal(n) + " level-"@ + seq![level] + " questions"@
}

proof fn lemma_between(pre: Seq<char>, d: Seq<char>, post: Seq<char>, a: Seq<char>, b: Seq<char>)
    requires
        pre.len() >= a.len(),
        pre.subrange(pre.len() - a.len(), pre.len() as int) == a,
        post.len() >= b.len(),
        post.take(b.len() as int) == b,
    ensures
        spec_contains(pre + d + post, a + d + b),
{
    let s = pre + d + post;
    let pat = a + d + b;
    let i = pre.len() - a.len();
    assert forall|j: int| 0 <= j < pat.len() implies #[trigger] s.subrange(i, i + pat.len())[j] == pat[j] by {
        if j < a.len() {
            assert(s[i + j] == pre[i + j]);
            assert(pre.subrange(pre.len() - a.len(), pre.len() as int)[j] == pre[i + j]);
        } else if j < a.len() + d.len() {
            assert(s[i + j] == d[j - a.len()]);
        } else {
            assert(s[i + j] == post[j - a.len() - d.len()]);
            assert(post.take(b.len() as int)[j - a.len() - d.len()] == post[j - a.len() - d.len()]);
        }
    }
    assert(s.subrange(i, i + pat.len()) =~= pat);
}

proof fn lemma_request_at(pre: Seq<char>, d: Seq<char>, post: Seq<char>, level: char)
    requires
        pre.len() >= 3,
        pre.subrange(pre.len() - 3, pre.len() as int) == seq!['\n', '-', ' '],
        post.len() >= 18,
        post.take(18) == " level-"@ + seq![level] + " questions"@,
    ensures
        spec_contains(pre + d + post, seq!['\n', '-', ' '] + d + " level-"@ + seq![level] + " questions"@),
{
    reveal_strlit(" level-");
    reveal_strlit(" questions");
    let b = " level-"@ + seq![level] + " questions"@;
    lemma_between(pre, d, post, seq!['\n', '-', ' '], b);
    assert(seq!['\n', '-', ' '] + d + b =~= seq!['\n', '-', ' '] + d + " level-"@ + seq![level] + " questions"@);
}

/// The prompt opens by naming the topic as given, and shows the expected
/// output under a title line `# slug` with the topic's slug.
pub proof fn law_prompt_names_topic(topic: Seq<char>, counts: Seq<u8>)
    requires
        counts.len() == 4,
    ensures
        spec_starts_with(spec_user_prompt(topic, counts), "Generate interview questions for the topic: "@ + topic),
        spec_contains(
            spec_user_prompt(topic, counts),
            seq!['\n', '#', ' '] + spec_slugify(topic) + seq!['\n', '\n', '#', '#', ' ', '['],
        ),
{
    reveal_strlit(" level-4 questions (expert, research/architecture level)\n\nOutput ONLY in this exact format (no code fences, no preamble):\n\n# ");
    reveal_strlit("\n\n## [1] Question text?\n\n- 1: basic keyword or short phrase\n- 2: intermediate keyword\n\n## [2] Question text?\n\n- 1: basic keyword\n- 2: intermediate keyword\n- 3: advanced keyword");
    let p = spec_user_prompt(topic, counts);
    let head = "Generate interview questions for the topic: "@ + topic;
    let pre = PROMPT_ASK@ + topic + PROMPT_EXACTLY@ + spec_decimal(counts[0] as nat) + PROMPT_LEVEL1@
        + spec_decimal(counts[1] as nat) + PROMPT_LEVEL2@ + spec_decimal(counts[2] as nat)
        + PROMPT_LEVEL3@ + spec_decimal(counts[3] as nat) + PROMPT_LEVEL4@;
    let post = PROMPT_EXAMPLE@ + seq!['\n', '\n'] + PROMPT_RULES@;
    assert(p =~= head + (PROMPT_EXACTLY@ + spec_decimal(counts[0] as nat) + PROMPT_LEVEL1@
        + spec_decimal(counts[1] as nat) + PROMPT_LEVEL2@ + spec_decimal(counts[2] as nat)
        + PROMPT_LEVEL3@ + spec_decimal(counts[3] as nat) + PROMPT_LEVEL4@ + spec_slugify(topic) + post));
    assert(p.take(head.len() as int) =~= head);
    assert(p =~= pre + spec_slugify(topic) + post);
    assert(pre.subrange(pre.len() - 3, pre.len() as int) =~= seq!['\n', '#', ' ']);
    assert(post.take(6) =~= seq!['\n', '\n', '#', '#', ' ', '[']);
    lemma_between(pre, spec_slugify(topic), post, seq!['\n', '#', ' '], seq!['\n', '\n', '#', '#', ' ', '[']);
}

/// The prompt asks, level by level, for exactly the number of questions
/// given for that level: for each level `K` from 1 to 4 it holds the line
/// `- N level-K questions` with `N` the count given for level `K`.
pub proof fn law_prompt_asks_counts(topic: Seq<char>, counts: Seq<u8>)
    requires
        counts.len() == 4,
    ensures
        forall|k: int|
            0 <= k < 4 ==> spec_contains(
                #[trigger] spec_user_prompt(topic, counts),
                level_request(digit_char((k + 1) as nat), counts[k] as nat),
            ),
        spec_contains(spec_user_prompt(topic, counts), level_request('1', counts[0] as nat)),
        spec_contains(spec_user_prompt(topic, counts), level_request('2', counts[1] as nat)),
        spec_contains(spec_user_prompt(topic, counts), level_request('3', counts[2] as nat)),
        spec_contains(spec_user_prompt(topic, counts), level_request('4', counts[3] as nat)),
{
    reveal_strlit("Generate interview questions for the topic: ");
    reveal_strlit("\n\nGenerate exactly:\n- ");
    reveal_strlit(" level-1 questions (basic, foundational knowledge)\n- ");
    reveal_strlit(" level-2 questions (intermediate, applied understanding)\n- ");
    reveal_strlit(" level-3 questions (advanced, deep understanding)\n- ");
    reveal_strlit(" level-4 questions (expert, research/architecture level)\n\nOutput ONLY in this exact format (no code fences, no preamble):\n\n# ");
    reveal_strlit(" level-");
    reveal_strlit(" questions");
    let d0 = spec_decimal(counts[0] as nat);
    let d1 = spec_decimal(counts[1] as nat);
    let d2 = spec_decimal(counts[2] as nat);
    let d3 = spec_decimal(counts[3] as nat);
    let tail = spec_slugify(topic) + PROMPT_EXAMPLE@ + seq!['\n', '\n'] + PROMPT_RULES@;
    let a0 = PROMPT_ASK@ + topic + PROMPT_EXACTLY@;
    let a1 = a0 + d0 + PROMPT_LEVEL1@;
    let a2 = a1 + d1 + PROMPT_LEVEL2@;
    let a3 = a2 + d2 + PROMPT_LEVEL3@;
    let p = spec_user_prompt(topic, counts);
    assert(p =~= a0 + d0 + (PROMPT_LEVEL1@ + d1 + PROMPT_LEVEL2@ + d2 + PROMPT_LEVEL3@ + d3 + PROMPT_LEVEL4@ + tail));
    assert(p =~= a1 + d1 + (PROMPT_LEVEL2@ + d2 + PROMPT_LEVEL3@ + d3 + PROMPT_LEVEL4@ + tail));
    assert(p =~= a2 + d2 + (PROMPT_LEVEL3@ + d3 + PROMPT_LEVEL4@ + tail));
    assert(p =~= a3 + d3 + (PROMPT_LEVEL4@ + tail));
    assert(a0.subrange(a0.len() - 3, a0.len() as int) =~= seq!['\n', '-', ' ']);
    assert(a1.subrange(a1.len() - 3, a1.len() as int) =~= seq!['\n', '-', ' ']);
    assert(a2.subrange(a2.len() - 3, a2.len() as int) =~= seq!['\n', '-', ' ']);
    assert(a3.subrange(a3.len() - 3, a3.len() as int) =~= seq!['\n', '-', ' ']);
    let r1 = PROMPT_LEVEL1@ + d1 + PROMPT_LEVEL2@ + d2 + PROMPT_LEVEL3@ + d3 + PROMPT_LEVEL4@ + tail;
    let r2 = PROMPT_LEVEL2@ + d2 + PROMPT_LEVEL3@ + d3 + PROMPT_LEVEL4@ + tail;
    let r3 = PROMPT_LEVEL3@ + d3 + PROMPT_LEVEL4@ + tail;
    let r4 = PROMPT_LEVEL4@ + tail;
    assert(r1.take(18) =~= " level-"@ + seq!['1'] + " questions"@);
    assert(r2.take(18) =~= " level-"@ + seq!['2'] + " questions"@);
    assert(r3.take(18) =~= " level-"@ + seq!['3'] + " questions"@);
    assert(r4.take(18) =~= " level-"@ + seq!['4'] + " questions"@);
    lemma_request_at(a0, d0, r1, '1');
    lemma_request_at(a1, d1, r2, '2');
    lemma_request_at(a2, d2, r3, '3');
    lemma_request_at(a3, d3, r4, '4');
    assert(digit_char(1) == '1' && digit_char(2) == '2' && digit_char(3) == '3' && digit_char(4) == '4');
}

/// The user message of a generation request.
pub fn user_prompt(topic: &str, counts: [u8; 4]) -> (p: String)
    ensures
        p@ == spec_user_prompt(topic@, counts@),
{
    let mut p = String::new();
    push_str(&mut p, PROMPT_ASK);
    push_str(&mut p, topic);
    push_str(&mut p, PROMPT_EXACTLY);
    push_decimal(&mut p, counts[0] as u64);
    push_str(&mut p, PROMPT_LEVEL1);
    push_decimal(&mut p, counts[1] as u64);
    push_str(&mut p, PROMPT_LEVEL2);
    push_decimal(&mut p, counts[2] as u64);
    push_str(&mut p, PROMPT_LEVEL3);
    push_decimal(&mut p, counts[3] as u64);
    push_str(&mut p, PROMPT_LEVEL4);
    let slug = slugify(topic);
    push_str(&mut p, slug.as_str());
    push_str(&mut p, PROMPT_EXAMPLE);
    push_char(&mut p, '\n');
    push_char(&mut p, '\n');
    push_str(&mut p, PROMPT_RULES);
    assert(p@ =~= spec_user_prompt(topic@, counts@));
    p
}

} // verus!
