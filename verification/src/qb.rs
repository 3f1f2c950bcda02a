//! Question bank files: parsing, level counting, slugs and file names.
//!
//! A bank is markdown: `## [N] text` opens a question of level `N` (1–4),
//! `## [N] [AI] text` one that was generated, and `- K: keyword` lines under
//! it list answer keywords for depth `K` (1–4).

use vstd::prelude::*;
use vstd::utf8::encode_utf8;
use crate::digest::{hex_encode, is_hex_lower, lemma_hex_shape, sha256, spec_hex, spec_sha256};
use crate::models::Question;
use crate::text::{
    chars_of, find_char, parse_u8, spec_find, spec_parse_u8, spec_starts_with, spec_trim, split_lines,
    spec_lines, starts_with, string_of, trim, views, to_lowercase, is_alphanumeric,
    spec_lowercase, spec_is_alphanumeric, push_char, push_chars, join_lines, spec_join_lines,
    lemma_trim_end_shape, spec_trim_start, is_ascii_text, is_ascii_char, is_ascii_alnum, is_ascii_upper,
    ascii_lower, ascii_lowered, digits_value, digit_value, unsigned_digits, all_digits, find_from, spec_trim_end,
    spec_is_whitespace, lemma_trim_start_shape,
};

verus! {

/// A question as read from a bank, before it is given its id and topic.
pub struct QuestionDraft {
    pub level: u8,
    pub text: Seq<char>,
    pub ai: bool,
    /// Four lists of keywords, for depths 1 to 4.
    pub keywords: Seq<Seq<Seq<char>>>,
}

/// The parser's state between lines.
pub struct ParseState {
    pub done: Seq<QuestionDraft>,
    pub current: Option<QuestionDraft>,
}

pub open spec fn heading_marker() -> Seq<char> {
    seq!['#', '#', ' ', '[']
}

pub open spec fn ai_marker() -> Seq<char> {
    seq!['[', 'A', 'I', ']', ' ']
}

pub open spec fn bullet_marker() -> Seq<char> {
    seq!['-', ' ']
}

pub open spec fn no_keywords() -> Seq<Seq<Seq<char>>> {
    seq![seq![], seq![], seq![], seq![]]
}

/// The character contents of a list of strings.
pub open spec fn string_views(v: Seq<String>) -> Seq<Seq<char>> {
    v.map_values(|s: String| s@)
}

/// Reads the part of a heading after `## [`: `N] text` or `N] [AI] text`.
/// A heading whose level is not 1–4 or whose text is empty opens no question.
pub open spec fn spec_heading(rest: Seq<char>) -> Option<QuestionDraft> {
    match spec_find(rest, ']') {
        None => None,
        Some(be) => {
            let after = spec_trim(rest.skip(be + 1));
            let ai = spec_starts_with(after, ai_marker());
            let text = if ai { after.skip(5) } else { after };
            match spec_parse_u8(rest.take(be)) {
                Some(l) => if 1 <= l <= 4 && text.len() > 0 {
                    Some(QuestionDraft { level: l, text: text, ai: ai, keywords: no_keywords() })
                } else {
                    None
                },
                None => None,
            }
        },
    }
}

/// Reads the part of a keyword line after `- `: `K: keyword`, giving the
/// keyword's list index (`K - 1`) and the trimmed keyword.
pub open spec fn spec_keyword(rest: Seq<char>) -> Option<(int, Seq<char>)> {
    match spec_find(rest, ':') {
        None => None,
        Some(c) => {
            let kw = spec_trim(rest.skip(c + 1));
            match spec_parse_u8(spec_trim(rest.take(c))) {
                Some(l) => if 1 <= l <= 4 && kw.len() > 0 {
                    Some((l - 1, kw))
                } else {
                    None
                },
                None => None,
            }
        },
    }
}

/// The finished questions, with the open one closed.
pub open spec fn flushed(st: ParseState) -> Seq<QuestionDraft> {
    match st.current {
        Some(d) => st.done.push(d),
        None => st.done,
    }
}

/// The effect of one line on the parser's state.
pub open spec fn parse_step(st: ParseState, raw: Seq<char>) -> ParseState {
    let line = spec_trim(raw);
    if spec_starts_with(line, heading_marker()) {
        ParseState { done: flushed(st), current: spec_heading(line.skip(4)) }
    } else if spec_starts_with(line, bullet_marker()) && st.current is Some {
        match spec_keyword(line.skip(2)) {
            Some((k, kw)) => {
                let d = st.current->0;
                ParseState {
                    done: st.done,
                    current: Some(
                        QuestionDraft { keywords: d.keywords.update(k, d.keywords[k].push(kw)), ..d },
                    ),
                }
            },
            None => st,
        }
    } else {
        st
    }
}

proof fn lemma_trimmed_ends(t: Seq<char>)
    requires
        spec_trim(t) == t,
        t.len() > 0,
    ensures
        !spec_is_whitespace(t[0]),
        !spec_is_whitespace(t.last()),
{
    lemma_trim_start_shape(t);
    let a = spec_trim_start(t);
    lemma_trim_end_shape(a);
    assert(a.len() == t.len());
    assert(a =~= t);
}

proof fn lemma_trim_space_front(x: Seq<char>)
    requires
        x.len() > 0,
        !spec_is_whitespace(x[0]),
        !spec_is_whitespace(x.last()),
    ensures
        spec_trim(seq![' '] + x) == x,
{
    let y = seq![' '] + x;
    assert(y.drop_first() =~= x);
    assert(spec_trim_start(y) == spec_trim_start(x));
    assert(spec_trim_start(x) == x);
    assert(spec_trim_end(x) == x);
}

proof fn lemma_level_digit(digit: char)
    requires
        '1' <= digit <= '4',
    ensures
        spec_parse_u8(spec_trim(seq![digit])) == Some((digit as int - '0' as int) as u8),
        spec_parse_u8(seq![digit]) == Some((digit as int - '0' as int) as u8),
{
    let ds = seq![digit];
    assert(!spec_is_whitespace(digit));
    assert(spec_trim_start(ds) == ds);
    assert(spec_trim_end(ds) == ds);
    assert(ds.drop_last() =~= Seq::<char>::empty());
    assert(digits_value(Seq::<char>::empty()) == 0);
    assert(ds.last() == digit);
    assert(digits_value(ds) == digits_value(ds.drop_last()) * 10 + digit_value(ds.last()));
    assert(unsigned_digits(ds) == ds);
    assert(all_digits(ds));
}

/// A heading line `## [K] text`, or `## [K] [AI] text` for a generated
/// question, with `K` a digit `1`–`4` and `text` with no whitespace around
/// it, closes the open question, if any, after the finished ones, and opens
/// a question of level `K` with that text, marked as generated exactly when
/// the heading carries `[AI]`, and with no keywords yet.
pub proof fn law_heading_line_opens(st: ParseState, raw: Seq<char>, digit: char, ai: bool, text: Seq<char>)
    requires
        '1' <= digit <= '4',
        text.len() > 0,
        spec_trim(text) == text,
        !ai ==> !spec_starts_with(text, ai_marker()),
        spec_trim(raw) == seq!['#', '#', ' ', '[', digit, ']', ' '] + (if ai {
            seq!['[', 'A', 'I', ']', ' ']
        } else {
            Seq::<char>::empty()
        }) + text,
    ensures
        ({
            let n = parse_step(st, raw);
            &&& n.done == match st.current {
                Some(d) => st.done.push(d),
                None => st.done,
            }
            &&& n.current == Some(
                QuestionDraft {
                    level: (digit as int - '0' as int) as u8,
                    text: text,
                    ai: ai,
                    keywords: seq![seq![], seq![], seq![], seq![]],
                },
            )
        }),
{
    let m = if ai {
        seq!['[', 'A', 'I', ']', ' ']
    } else {
        Seq::<char>::empty()
    };
    let line = seq!['#', '#', ' ', '[', digit, ']', ' '] + m + text;
    assert(line.take(4) =~= heading_marker());
    let rest = line.skip(4);
    let x = m + text;
    assert(rest =~= seq![digit, ']'] + (seq![' '] + x));
    assert(rest[0] == digit && rest[1] == ']');
    assert(find_from(rest, ']', 1) == 1);
    assert(find_from(rest, ']', 0) == 1);
    assert(rest.take(1) =~= seq![digit]);
    lemma_level_digit(digit);
    lemma_trimmed_ends(text);
    assert(rest.skip(2) =~= seq![' '] + x);
    assert(x.last() == text.last());
    if ai {
        assert(x[0] == '[');
    } else {
        assert(x =~= text);
    }
    lemma_trim_space_front(x);
    let after = spec_trim(rest.skip(2));
    assert(after == x);
    if ai {
        assert(after.take(5) =~= ai_marker());
        assert(after.skip(5) =~= text);
    }
}

/// A line that, once trimmed, starts with neither `#` nor `-` (prose, a
/// blank line, a title) changes nothing in what is being read; nor does a
/// keyword line before any question.
pub proof fn law_other_lines_ignored(st: ParseState, raw: Seq<char>)
    ensures
        (spec_trim(raw).len() == 0 || (spec_trim(raw)[0] != '#' && spec_trim(raw)[0] != '-')) ==> parse_step(st, raw)
            == st,
        (st.current is None && spec_trim(raw).len() > 0 && spec_trim(raw)[0] == '-') ==> parse_step(st, raw) == st,
{
    let line = spec_trim(raw);
    if line.len() > 0 {
        if line.len() >= 4 {
            assert(line.take(4)[0] == line[0]);
        }
        if line.len() >= 2 {
            assert(line.take(2)[0] == line[0]);
        }
        if line[0] == '-' {
            assert(!spec_starts_with(line, heading_marker()));
        }
    }
}

/// A keyword line `- K: kw`, with `K` a digit `1`–`4` and `kw` a keyword
/// with no whitespace around it, under an open question adds `kw` at the
/// end of that question's depth-`K` keywords and keeps every keyword read
/// before it; the question's other keyword lists, its level, text and mark,
/// and the finished questions stay as they were.
pub proof fn law_keyword_line_appends(st: ParseState, raw: Seq<char>, digit: char, kw: Seq<char>)
    requires
        st.current is Some,
        st.current->0.keywords.len() == 4,
        '1' <= digit <= '4',
        kw.len() > 0,
        spec_trim(kw) == kw,
        spec_trim(raw) == seq!['-', ' ', digit, ':', ' '] + kw,
    ensures
        ({
            let d = st.current->0;
            let k = digit as int - '1' as int;
            let n = parse_step(st, raw);
            &&& n.done == st.done
            &&& n.current is Some
            &&& n.current->0.level == d.level
            &&& n.current->0.text == d.text
            &&& n.current->0.ai == d.ai
            &&& n.current->0.keywords.len() == 4
            &&& n.current->0.keywords[k].len() == d.keywords[k].len() + 1
            &&& n.current->0.keywords[k].take(d.keywords[k].len() as int) == d.keywords[k]
            &&& n.current->0.keywords[k].last() == kw
            &&& forall|j: int| 0 <= j < 4 && j != k ==> #[trigger] n.current->0.keywords[j] == d.keywords[j]
        }),
{
    let line = seq!['-', ' ', digit, ':', ' '] + kw;
    assert(line[0] == '-');
    assert(!spec_starts_with(line, heading_marker()));
    assert(line.take(2) =~= bullet_marker());
    let rest = line.skip(2);
    assert(rest =~= seq![digit, ':', ' '] + kw);
    assert(rest[0] == digit && rest[1] == ':');
    assert(find_from(rest, ':', 1) == 1);
    assert(find_from(rest, ':', 0) == 1);
    assert(spec_find(rest, ':') == Some(1int));
    assert(rest.take(1) =~= seq![digit]);
    lemma_level_digit(digit);
    lemma_trimmed_ends(kw);
    assert(rest.skip(2) =~= seq![' '] + kw);
    lemma_trim_space_front(kw);
    assert(spec_keyword(rest) == Some((digit as int - '1' as int, kw)));
}

/// The parser's state after the given lines.
pub open spec fn parse_lines(lines: Seq<Seq<char>>) -> ParseState
    decreases lines.len(),
{
    if lines.len() == 0 {
        ParseState { done: seq![], current: None }
    } else {
        parse_step(parse_lines(lines.drop_last()), lines.last())
    }
}

/// The questions of a bank file, in file order.
pub open spec fn spec_parse_topic(content: Seq<char>) -> Seq<QuestionDraft> {
    flushed(parse_lines(spec_lines(content)))
}

/// The id of a question: lower-case hex of the first eight bytes of the
/// SHA-256 digest of the UTF-8 bytes of `topic + "::" + text`.
pub open spec fn spec_question_id(topic: Seq<char>, text: Seq<char>) -> Seq<char> {
    spec_hex(spec_sha256(encode_utf8(topic) + seq![58u8, 58u8] + encode_utf8(text)).take(8))
}

/// The draft a question was built from.
pub open spec fn draft_of(q: Question) -> QuestionDraft {
    QuestionDraft {
        level: q.level,
        text: q.text@,
        ai: q.ai_generated,
        keywords: seq![
            string_views(q.keywords@[0]@),
            string_views(q.keywords@[1]@),
            string_views(q.keywords@[2]@),
            string_views(q.keywords@[3]@),
        ],
    }
}

/// `q` belongs to `topic` and carries the id derived from its text: sixteen
/// lower-case hex digits.
pub open spec fn identified(q: Question, topic: Seq<char>) -> bool {
    &&& q.topic@ == topic
    &&& q.id@ == spec_question_id(topic, q.text@)
    &&& q.id@.len() == 16
    &&& forall|i: int| 0 <= i < q.id@.len() ==> is_hex_lower(#[trigger] q.id@[i])
}

/// Question ids depend on the content alone: two questions of a topic with
/// the same text have the same id, whatever their level, keywords or marker;
/// an id is sixteen lower-case hex digits.
pub proof fn law_id_from_content(q1: Question, q2: Question, topic: Seq<char>)
    requires
        identified(q1, topic),
        identified(q2, topic),
        q1.text@ == q2.text@,
    ensures
        q1.id@ == q2.id@,
        q1.id@.len() == 16,
{
}

/// Builds a question with its content-derived id.
pub fn make_question(
    topic: &str,
    level: u8,
    text: &str,
    keywords: [Vec<String>; 4],
    ai_generated: bool,
) -> (q: Question)
    ensures
        identified(q, topic@),
        q.level == level,
        q.text@ == text@,
        q.keywords == keywords,
        q.ai_generated == ai_generated,
{
    let mut data: Vec<u8> = vstd::slice::slice_to_vec(topic.as_bytes());
    data.push(58u8);
    data.push(58u8);
    let tb = text.as_bytes();
    let mut i: usize = 0;
    let ghost start = data@;
    while i < tb.len()
        invariant
            i <= tb@.len(),
            data@ == start + tb@.take(i as int),
        decreases tb@.len() - i,
    {
        data.push(tb[i]);
        assert(data@ =~= start + tb@.take(i + 1));
        i = i + 1;
    }
    assert(tb@.take(tb@.len() as int) =~= tb@);
    assert(data@ =~= encode_utf8(topic@) + seq![58u8, 58u8] + encode_utf8(text@));
    let hash = sha256(data.as_slice());
    let id = hex_encode(&hash.as_slice()[0..8]);
    assert(hash@.subrange(0, 8) =~= hash@.take(8));
    proof {
        lemma_hex_shape(hash@.take(8));
    }
    Question {
        id,
        topic: String::from_str(topic),
        level,
        text: String::from_str(text),
        keywords,
        ai_generated,
    }
}

} // verus!

verus! {

/// A question being read, with its keyword lists so far.
struct Pending {
    level: u8,
    text: Vec<char>,
    ai: bool,
    kw0: Vec<String>,
    kw1: Vec<String>,
    kw2: Vec<String>,
    kw3: Vec<String>,
}

spec fn pending_view(p: Pending) -> QuestionDraft {
    QuestionDraft {
        level: p.level,
        text: p.text@,
        ai: p.ai,
        keywords: seq![
            string_views(p.kw0@),
            string_views(p.kw1@),
            string_views(p.kw2@),
            string_views(p.kw3@),
        ],
    }
}

spec fn pending_opt_view(p: Option<Pending>) -> Option<QuestionDraft> {
    match p {
        Some(p) => Some(pending_view(p)),
        None => None,
    }
}

fn parse_heading(rest: &[char]) -> (r: Option<Pending>)
    ensures
        pending_opt_view(r) == spec_heading(rest@),
{
    let n = rest.len();
    match find_char(rest, ']') {
        None => None,
        Some(be) => {
            assert(rest@.skip(be + 1) =~= rest@.subrange(be + 1, rest@.len() as int));
            assert(rest@.take(be as int) =~= rest@.subrange(0, be as int));
            let after = trim(&rest[be + 1..n]);
            let marker = chars_of("[AI] ");
            proof {
                reveal_strlit("[AI] ");
                assert(marker@ =~= ai_marker());
            }
            let ai = starts_with(after.as_slice(), marker.as_slice());
            let text: Vec<char> = if ai {
                assert(after@.skip(5) =~= after@.subrange(5, after@.len() as int));
                vstd::slice::slice_to_vec(&after.as_slice()[5..after.len()])
            } else {
                after
            };
            match parse_u8(&rest[0..be]) {
                Some(l) => {
                    if 1 <= l && l <= 4 && text.len() > 0 {
                        let p = Pending {
                            level: l,
                            text,
                            ai,
                            kw0: Vec::new(),
                            kw1: Vec::new(),
                            kw2: Vec::new(),
                            kw3: Vec::new(),
                        };
                        assert(string_views(p.kw0@) =~= Seq::<Seq<char>>::empty());
                        assert(string_views(p.kw1@) =~= Seq::<Seq<char>>::empty());
                        assert(string_views(p.kw2@) =~= Seq::<Seq<char>>::empty());
                        assert(string_views(p.kw3@) =~= Seq::<Seq<char>>::empty());
                        assert(pending_view(p).keywords =~= no_keywords());
                        Some(p)
                    } else {
                        None
                    }
                },
                None => None,
            }
        },
    }
}

fn parse_keyword(rest: &[char]) -> (r: Option<(usize, Vec<char>)>)
    ensures
        r matches Some((k, kw)) ==> spec_keyword(rest@) == Some((k as int, kw@)),
        r is None ==> spec_keyword(rest@) is None,
{
    let n = rest.len();
    match find_char(rest, ':') {
        None => None,
        Some(c) => {
            assert(rest@.skip(c + 1) =~= rest@.subrange(c + 1, rest@.len() as int));
            assert(rest@.take(c as int) =~= rest@.subrange(0, c as int));
            let kw = trim(&rest[c + 1..n]);
            let lvl = trim(&rest[0..c]);
            match parse_u8(lvl.as_slice()) {
                Some(l) => {
                    if 1 <= l && l <= 4 && kw.len() > 0 {
                        Some(((l - 1) as usize, kw))
                    } else {
                        None
                    }
                },
                None => None,
            }
        },
    }
}

fn finish(slug: &str, p: Pending) -> (q: Question)
    ensures
        identified(q, slug@),
        draft_of(q) == pending_view(p),
{
    let text = string_of(p.text.as_slice());
    let ghost pv = pending_view(p);
    let q = make_question(slug, p.level, text.as_str(), [p.kw0, p.kw1, p.kw2, p.kw3], p.ai);
    assert(draft_of(q).keywords =~= pv.keywords);
    q
}

proof fn lemma_parse_lines_step(lines: Seq<Seq<char>>, i: int)
    requires
        0 <= i < lines.len(),
    ensures
        parse_lines(lines.take(i + 1)) == parse_step(parse_lines(lines.take(i)), lines[i]),
{
    assert(lines.take(i + 1).drop_last() =~= lines.take(i));
}

/// Parses a question bank file into its questions, in file order.
pub fn parse_topic_file(slug: &str, content: &str) -> (r: Vec<Question>)
    ensures
        r@.map_values(|q: Question| draft_of(q)) == spec_parse_topic(content@),
        forall|i: int| 0 <= i < r@.len() ==> identified(#[trigger] r@[i], slug@),
{
    let chars = chars_of(content);
    let lines = split_lines(chars.as_slice());
    let heading = chars_of("## [");
    let bullet = chars_of("- ");
    proof {
        reveal_strlit("## [");
        reveal_strlit("- ");
        assert(heading@ =~= heading_marker());
        assert(bullet@ =~= bullet_marker());
    }
    let ghost all = views(lines@);
    let mut done: Vec<Question> = Vec::new();
    let mut cur: Option<Pending> = None;
    let mut i: usize = 0;
    while i < lines.len()
        invariant
            all == views(lines@),
            all == spec_lines(content@),
            heading@ == heading_marker(),
            bullet@ == bullet_marker(),
            i <= lines@.len(),
            done@.map_values(|q: Question| draft_of(q)) == parse_lines(all.take(i as int)).done,
            pending_opt_view(cur) == parse_lines(all.take(i as int)).current,
            forall|j: int| 0 <= j < done@.len() ==> identified(#[trigger] done@[j], slug@),
        decreases lines@.len() - i,
    {
        proof {
            lemma_parse_lines_step(all, i as int);
        }
        let ghost st = parse_lines(all.take(i as int));
        let line = trim(lines[i].as_slice());
        assert(all[i as int] == lines@[i as int]@);
        if starts_with(line.as_slice(), heading.as_slice()) {
            let mut prev: Option<Pending> = None;
            std::mem::swap(&mut prev, &mut cur);
            match prev {
                Some(p) => {
                    let q = finish(slug, p);
                    let ghost before = done@;
                    done.push(q);
                    assert(done@.map_values(|q: Question| draft_of(q)) =~= before.map_values(
                        |q: Question| draft_of(q),
                    ).push(draft_of(q)));
                },
                None => {},
            }
            assert(line@.skip(4) =~= line@.subrange(4, line@.len() as int));
            cur = parse_heading(&line.as_slice()[4..line.len()]);
        } else if starts_with(line.as_slice(), bullet.as_slice()) && cur.is_some() {
            assert(line@.skip(2) =~= line@.subrange(2, line@.len() as int));
            match parse_keyword(&line.as_slice()[2..line.len()]) {
                Some((k, kw)) => {
                    let mut prev: Option<Pending> = None;
                    std::mem::swap(&mut prev, &mut cur);
                    let mut p = prev.unwrap();
                    let ghost d = pending_view(p);
                    let s = string_of(kw.as_slice());
                    if k == 0 {
                        p.kw0.push(s);
                    } else if k == 1 {
                        p.kw1.push(s);
                    } else if k == 2 {
                        p.kw2.push(s);
                    } else {
                        p.kw3.push(s);
                    }
                    proof {
                        let nd = QuestionDraft {
                            keywords: d.keywords.update(k as int, d.keywords[k as int].push(kw@)),
                            ..d
                        };
                        assert(string_views(p.kw0@) =~= nd.keywords[0]);
                        assert(string_views(p.kw1@) =~= nd.keywords[1]);
                        assert(string_views(p.kw2@) =~= nd.keywords[2]);
                        assert(string_views(p.kw3@) =~= nd.keywords[3]);
                        assert(pending_view(p).keywords =~= nd.keywords);
                    }
                    cur = Some(p);
                },
                None => {},
            }
        }
        i = i + 1;
    }
    assert(all.take(lines@.len() as int) =~= all);
    match cur {
        Some(p) => {
            let q = finish(slug, p);
            let ghost before = done@;
            done.push(q);
            assert(done@.map_values(|q: Question| draft_of(q)) =~= before.map_values(
                |q: Question| draft_of(q),
            ).push(draft_of(q)));
        },
        None => {},
    }
    done
}

} // verus!

verus! {

// ── Counting headings ────────────────────────────────────────────────────────

/// The level of a `## [N]` heading line, when `N` parses as a `u8`.
pub open spec fn heading_level(raw: Seq<char>) -> Option<u8> {
    let line = spec_trim(raw);
    if spec_starts_with(line, heading_marker()) {
        let rest = line.skip(4);
        match spec_find(rest, ']') {
            Some(be) => spec_parse_u8(rest.take(be)),
            None => None,
        }
    } else {
        None
    }
}

/// How many of the lines are headings of level `level`.
pub open spec fn count_headings(lines: Seq<Seq<char>>, level: u8) -> nat
    decreases lines.len(),
{
    if lines.len() == 0 {
        0
    } else {
        count_headings(lines.drop_last(), level) + if heading_level(lines.last()) == Some(level) {
            1nat
        } else {
            0nat
        }
    }
}

fn heading_level_of(raw: &[char], heading: &[char]) -> (r: Option<u8>)
    requires
        heading@ == heading_marker(),
    ensures
        r == heading_level(raw@),
{
    let line = trim(raw);
    if starts_with(line.as_slice(), heading) {
        let n = line.len();
        let rest = &line.as_slice()[4..n];
        assert(rest@ =~= line@.skip(4));
        match find_char(rest, ']') {
            Some(be) => {
                assert(rest@.take(be as int) =~= rest@.subrange(0, be as int));
                parse_u8(&rest[0..be])
            },
            None => None,
        }
    } else {
        None
    }
}

/// Counts the question headings of each level 1–4 in generated markdown;
/// entry `k` is the count for level `k + 1`.
pub fn count_levels(content: &str) -> (r: [usize; 4])
    ensures
        forall|k: int| 0 <= k < 4 ==> #[trigger] r@[k] == count_headings(spec_lines(content@), (k + 1) as u8),
{
    let chars = chars_of(content);
    let lines = split_lines(chars.as_slice());
    let heading = chars_of("## [");
    proof {
        reveal_strlit("## [");
        assert(heading@ =~= heading_marker());
    }
    let ghost all = views(lines@);
    let mut c1: usize = 0;
    let mut c2: usize = 0;
    let mut c3: usize = 0;
    let mut c4: usize = 0;
    let mut i: usize = 0;
    while i < lines.len()
        invariant
            all == views(lines@),
            heading@ == heading_marker(),
            i <= lines@.len(),
            c1 == count_headings(all.take(i as int), 1),
            c2 == count_headings(all.take(i as int), 2),
            c3 == count_headings(all.take(i as int), 3),
            c4 == count_headings(all.take(i as int), 4),
            c1 <= i && c2 <= i && c3 <= i && c4 <= i,
        decreases lines@.len() - i,
    {
        assert(all.take(i + 1).drop_last() =~= all.take(i as int));
        assert(all[i as int] == lines@[i as int]@);
        match heading_level_of(lines[i].as_slice(), heading.as_slice()) {
            Some(l) => {
                if l == 1 {
                    c1 = c1 + 1;
                } else if l == 2 {
                    c2 = c2 + 1;
                } else if l == 3 {
                    c3 = c3 + 1;
                } else if l == 4 {
                    c4 = c4 + 1;
                }
            },
            None => {},
        }
        i = i + 1;
    }
    assert(all.take(lines@.len() as int) =~= all);
    let r = [c1, c2, c3, c4];
    assert(r@[0] == c1 && r@[1] == c2 && r@[2] == c3 && r@[3] == c4);
    r
}

/// The number of drafts of the given level.
pub open spec fn count_drafts(ds: Seq<QuestionDraft>, level: u8) -> nat
    decreases ds.len(),
{
    if ds.len() == 0 {
        0
    } else {
        count_drafts(ds.drop_last(), level) + if ds.last().level == level {
            1nat
        } else {
            0nat
        }
    }
}

proof fn lemma_count_drafts_push(ds: Seq<QuestionDraft>, d: QuestionDraft, level: u8)
    ensures
        count_drafts(ds.push(d), level) == count_drafts(ds, level) + if d.level == level {
            1nat
        } else {
            0nat
        },
{
    assert(ds.push(d).drop_last() =~= ds);
}

proof fn lemma_parsed_within_headings(lines: Seq<Seq<char>>, level: u8)
    ensures
        count_drafts(flushed(parse_lines(lines)), level) <= count_headings(lines, level),
    decreases lines.len(),
{
    if lines.len() > 0 {
        let prev = lines.drop_last();
        lemma_parsed_within_headings(prev, level);
        let st = parse_lines(prev);
        let raw = lines.last();
        let line = spec_trim(raw);
        let next = parse_step(st, raw);
        if spec_starts_with(line, heading_marker()) {
            match spec_heading(line.skip(4)) {
                Some(d) => {
                    lemma_count_drafts_push(flushed(st), d, level);
                    assert(heading_level(raw) == Some(d.level));
                },
                None => {},
            }
        } else {
            match st.current {
                Some(d) => {
                    lemma_count_drafts_push(st.done, d, level);
                    lemma_count_drafts_push(next.done, next.current->0, level);
                },
                None => {},
            }
        }
    }
}

/// Every question that `parse_topic_file` reads opens with a heading that
/// `count_levels` counts, so for each level the questions read never
/// outnumber the headings counted.
pub proof fn law_parsed_within_counted(content: Seq<char>, level: u8)
    ensures
        count_drafts(spec_parse_topic(content), level) <= count_headings(spec_lines(content), level),
{
    lemma_parsed_within_headings(spec_lines(content), level);
}

/// Every heading line whose level bracket is closed has text after it.
pub open spec fn headings_have_text(lines: Seq<Seq<char>>) -> bool {
    forall|i: int|
        0 <= i < lines.len() ==> {
            let t = spec_trim(#[trigger] lines[i]);
            (spec_starts_with(t, heading_marker()) && spec_find(t.skip(4), ']') is Some) ==> spec_trim(
                t.skip(4).skip(spec_find(t.skip(4), ']')->0 + 1),
            ).len() > 0
        }
}

proof fn lemma_heading_opens(raw: Seq<char>, level: u8)
    requires
        1 <= level <= 4,
        heading_level(raw) == Some(level),
        ({
            let t = spec_trim(raw);
            spec_trim(t.skip(4).skip(spec_find(t.skip(4), ']')->0 + 1)).len() > 0
        }),
    ensures
        spec_heading(spec_trim(raw).skip(4)) matches Some(d) && d.level == level,
{
    let rest = spec_trim(raw).skip(4);
    let be = spec_find(rest, ']')->0;
    let after = spec_trim(rest.skip(be + 1));
    if spec_starts_with(after, ai_marker()) {
        lemma_trim_end_shape(spec_trim_start(rest.skip(be + 1)));
        assert(after[4] == ' ');
        assert(after.len() > 5);
    }
}

proof fn lemma_parsed_equals_headings(lines: Seq<Seq<char>>, level: u8)
    requires
        1 <= level <= 4,
        headings_have_text(lines),
    ensures
        count_drafts(flushed(parse_lines(lines)), level) == count_headings(lines, level),
    decreases lines.len(),
{
    if lines.len() > 0 {
        let prev = lines.drop_last();
        assert forall|i: int| 0 <= i < prev.len() implies {
            let t = spec_trim(#[trigger] prev[i]);
            (spec_starts_with(t, heading_marker()) && spec_find(t.skip(4), ']') is Some) ==> spec_trim(
                t.skip(4).skip(spec_find(t.skip(4), ']')->0 + 1),
            ).len() > 0
        } by {
            assert(prev[i] == lines[i]);
        }
        lemma_parsed_equals_headings(prev, level);
        let st = parse_lines(prev);
        let raw = lines.last();
        assert(raw == lines[lines.len() - 1]);
        let line = spec_trim(raw);
        let next = parse_step(st, raw);
        if spec_starts_with(line, heading_marker()) {
            match spec_heading(line.skip(4)) {
                Some(d) => {
                    lemma_count_drafts_push(flushed(st), d, level);
                    assert(heading_level(raw) == Some(d.level));
                },
                None => {
                    if heading_level(raw) == Some(level) {
                        lemma_heading_opens(raw, level);
                    }
                },
            }
        } else {
            match st.current {
                Some(d) => {
                    lemma_count_drafts_push(st.done, d, level);
                    lemma_count_drafts_push(next.done, next.current->0, level);
                },
                None => {},
            }
        }
    }
}

/// When every heading line has text after its level, `count_levels` counts
/// exactly the questions `parse_topic_file` reads, level by level.
pub proof fn law_counted_equals_parsed(content: Seq<char>, level: u8)
    requires
        1 <= level <= 4,
        headings_have_text(spec_lines(content)),
    ensures
        count_drafts(spec_parse_topic(content), level) == count_headings(spec_lines(content), level),
{
    lemma_parsed_equals_headings(spec_lines(content), level);
}

} // verus!

verus! {

// ── Slugs and paths ──────────────────────────────────────────────────────────

/// Spaces and underscores become hyphens.
pub open spec fn hyphenate(c: char) -> char {
    if c == ' ' || c == '_' {
        '-'
    } else {
        c
    }
}

/// The characters a slug keeps.
pub open spec fn slug_char(c: char) -> bool {
    spec_is_alphanumeric(c) || c == '-'
}

/// The slug of lower-cased text: spaces and underscores turned into
/// hyphens, then everything but alphanumerics and hyphens dropped.
pub open spec fn spec_slug_of_lower(l: Seq<char>) -> Seq<char> {
    l.map_values(|c: char| hyphenate(c)).filter(|c: char| slug_char(c))
}

/// The slug of a name: the slug of its lower-cased text.
pub open spec fn spec_slugify(s: Seq<char>) -> Seq<char> {
    spec_slug_of_lower(spec_lowercase(s))
}

/// The characters a slug of ASCII text keeps.
pub open spec fn ascii_slug_char(c: char) -> bool {
    is_ascii_alnum(c) || c == '-'
}

/// The slug of lower-cased ASCII text.
pub open spec fn spec_ascii_slug(l: Seq<char>) -> Seq<char> {
    l.map_values(|c: char| hyphenate(c)).filter(|c: char| ascii_slug_char(c))
}

/// Turns a topic or role name into a file-name slug, e.g. `Data Science`
/// into `data-science`.
pub fn slugify(s: &str) -> (r: String)
    ensures
        r@ == spec_slugify(s@),
        is_ascii_text(s@) ==> r@ == spec_ascii_slug(ascii_lowered(s@)),
{
    let lower = to_lowercase(s);
    proof {
        if is_ascii_text(s@) {
            lemma_ascii_lowered(s@);
        }
    }
    slug_of_lower(lower.as_str())
}

/// The slug of text that is already lower-cased, e.g. `c++ & rust!` into
/// `c--rust`.
pub fn slug_of_lower(lower: &str) -> (r: String)
    ensures
        r@ == spec_slug_of_lower(lower@),
        is_ascii_text(lower@) ==> r@ == spec_ascii_slug(lower@),
{
    let cs = chars_of(lower);
    let ghost mapped = cs@.map_values(|c: char| hyphenate(c));
    let ghost pred = |c: char| slug_char(c);
    let mut out = String::new();
    let mut i: usize = 0;
    while i < cs.len()
        invariant
            i <= cs@.len(),
            mapped == cs@.map_values(|c: char| hyphenate(c)),
            pred == (|c: char| slug_char(c)),
            out@ == mapped.take(i as int).filter(pred),
            cs@ == lower@,
            is_ascii_text(lower@) ==> forall|k: int|
                0 <= k < i ==> spec_is_alphanumeric(#[trigger] mapped[k]) == is_ascii_alnum(mapped[k]),
        decreases cs@.len() - i,
    {
        let c = cs[i];
        let h = if c == ' ' || c == '_' {
            '-'
        } else {
            c
        };
        proof {
            reveal(Seq::filter);
            assert(mapped.take(i + 1).drop_last() =~= mapped.take(i as int));
            assert(mapped.take(i + 1).last() == h);
        }
        proof {
            if is_ascii_text(lower@) {
                assert(is_ascii_char(lower@[i as int]));
                assert(mapped[i as int] == h);
            }
        }
        if is_alphanumeric(h) || h == '-' {
            push_char(&mut out, h);
        }
        i = i + 1;
    }
    assert(mapped.take(cs@.len() as int) =~= mapped);
    proof {
        if is_ascii_text(lower@) {
            lemma_filter_agree(mapped, pred, |c: char| ascii_slug_char(c));
        }
    }
    out
}

proof fn lemma_filter_agree(s: Seq<char>, p1: spec_fn(char) -> bool, p2: spec_fn(char) -> bool)
    requires
        forall|k: int| 0 <= k < s.len() ==> p1(#[trigger] s[k]) == p2(s[k]),
    ensures
        s.filter(p1) == s.filter(p2),
    decreases s.len(),
{
    reveal(Seq::filter);
    if s.len() > 0 {
        let d = s.drop_last();
        assert forall|k: int| 0 <= k < d.len() implies p1(#[trigger] d[k]) == p2(d[k]) by {
            assert(d[k] == s[k]);
        }
        lemma_filter_agree(d, p1, p2);
        assert(p1(s[s.len() - 1]) == p2(s[s.len() - 1]));
    }
}

proof fn lemma_ascii_lowered(s: Seq<char>)
    requires
        is_ascii_text(s),
    ensures
        is_ascii_text(ascii_lowered(s)),
        forall|i: int| 0 <= i < s.len() ==> !is_ascii_upper(#[trigger] ascii_lowered(s)[i]),
{
    assert forall|i: int| 0 <= i < s.len() implies is_ascii_char(#[trigger] ascii_lowered(s)[i])
        && !is_ascii_upper(ascii_lowered(s)[i]) by {
        assert(is_ascii_char(s[i]));
        assert(ascii_lowered(s)[i] == ascii_lower(s[i]));
    }
}

proof fn lemma_filter_from(s: Seq<char>, pred: spec_fn(char) -> bool)
    ensures
        forall|i: int|
            0 <= i < s.filter(pred).len() ==> s.contains(#[trigger] s.filter(pred)[i]),
    decreases s.len(),
{
    reveal(Seq::filter);
    if s.len() > 0 {
        lemma_filter_from(s.drop_last(), pred);
        assert forall|i: int| 0 <= i < s.filter(pred).len() implies s.contains(
            #[trigger] s.filter(pred)[i],
        ) by {
            let sub = s.drop_last().filter(pred);
            if i < sub.len() {
                let x = sub[i];
                assert(s.drop_last().contains(x));
                let j = choose|j: int| 0 <= j < s.drop_last().len() && s.drop_last()[j] == x;
                assert(s[j] == x);
            } else {
                assert(s[s.len() - 1] == s.filter(pred)[i]);
            }
        }
    }
}

/// A slug holds only alphanumerics and hyphens, and never a space or an
/// underscore.
pub proof fn law_slug_charset(s: Seq<char>)
    ensures
        forall|i: int|
            0 <= i < spec_slugify(s).len() ==> slug_char(#[trigger] spec_slugify(s)[i])
                && spec_slugify(s)[i] != ' ' && spec_slugify(s)[i] != '_',
{
    let mapped = spec_lowercase(s).map_values(|c: char| hyphenate(c));
    let pred = |c: char| slug_char(c);
    broadcast use vstd::seq_lib::group_filter_ensures;
    assert forall|i: int| 0 <= i < spec_slugify(s).len() implies slug_char(
        #[trigger] spec_slugify(s)[i],
    ) && spec_slugify(s)[i] != ' ' && spec_slugify(s)[i] != '_' by {
        let x = spec_slugify(s)[i];
        lemma_filter_from(mapped, pred);
        assert(mapped.contains(x));
        let j = choose|j: int| 0 <= j < mapped.len() && mapped[j] == x;
        assert(mapped[j] == hyphenate(spec_lowercase(s)[j]));
    }
}

/// Text made of slug characters only, with no space or underscore.
pub open spec fn is_slug_text(l: Seq<char>) -> bool {
    forall|i: int| 0 <= i < l.len() ==> slug_char(#[trigger] l[i]) && l[i] != ' ' && l[i] != '_'
}

proof fn lemma_slug_text_fixed(l: Seq<char>)
    requires
        is_slug_text(l),
    ensures
        spec_slug_of_lower(l) == l,
    decreases l.len(),
{
    reveal(Seq::filter);
    let m = l.map_values(|c: char| hyphenate(c));
    assert(m =~= l);
    if l.len() > 0 {
        let d = l.drop_last();
        lemma_slug_text_fixed(d);
        assert(d.map_values(|c: char| hyphenate(c)) =~= d);
        assert(l.drop_last() =~= d);
        assert(slug_char(l.last()));
        assert(l.filter(|c: char| slug_char(c)) =~= d.filter(|c: char| slug_char(c)).push(l.last()));
        assert(d.push(l.last()) =~= l);
    } else {
        assert(l.filter(|c: char| slug_char(c)) =~= l);
    }
}

proof fn lemma_slug_of_lower_text(l: Seq<char>)
    ensures
        is_slug_text(spec_slug_of_lower(l)),
{
    let mapped = l.map_values(|c: char| hyphenate(c));
    let pred = |c: char| slug_char(c);
    broadcast use vstd::seq_lib::group_filter_ensures;
    let r = spec_slug_of_lower(l);
    assert forall|i: int| 0 <= i < r.len() implies slug_char(#[trigger] r[i]) && r[i] != ' ' && r[i]
        != '_' by {
        lemma_filter_from(mapped, pred);
        assert(mapped.contains(r[i]));
        let j = choose|j: int| 0 <= j < mapped.len() && mapped[j] == r[i];
        assert(mapped[j] == hyphenate(l[j]));
    }
}

/// Taking the slug of lower-cased text twice gives the same as once.
pub proof fn law_slug_of_lower_idempotent(l: Seq<char>)
    ensures
        spec_slug_of_lower(spec_slug_of_lower(l)) == spec_slug_of_lower(l),
{
    lemma_slug_of_lower_text(l);
    lemma_slug_text_fixed(spec_slug_of_lower(l));
}

/// A slug is its own slug wherever lower-casing leaves it as it is.
pub proof fn law_slugify_stable(s: Seq<char>)
    requires
        spec_lowercase(spec_slugify(s)) == spec_slugify(s),
    ensures
        spec_slugify(spec_slugify(s)) == spec_slugify(s),
{
    law_slug_of_lower_idempotent(spec_lowercase(s));
}

proof fn lemma_filter_all(s: Seq<char>, p: spec_fn(char) -> bool)
    requires
        forall|k: int| 0 <= k < s.len() ==> p(#[trigger] s[k]),
    ensures
        s.filter(p) == s,
    decreases s.len(),
{
    reveal(Seq::filter);
    if s.len() > 0 {
        let d = s.drop_last();
        assert forall|k: int| 0 <= k < d.len() implies p(#[trigger] d[k]) by {
            assert(d[k] == s[k]);
        }
        lemma_filter_all(d, p);
        assert(p(s[s.len() - 1]));
        assert(d.push(s.last()) =~= s);
    } else {
        assert(s.filter(p) =~= s);
    }
}

/// The slug of ASCII text is ASCII, holds only letters, digits and
/// hyphens and no upper-case letter, and is its own slug.
pub proof fn law_ascii_slug_stable(s: Seq<char>)
    requires
        is_ascii_text(s),
    ensures
        ({
            let t = spec_ascii_slug(ascii_lowered(s));
            &&& is_ascii_text(t)
            &&& forall|i: int| 0 <= i < t.len() ==> ascii_slug_char(#[trigger] t[i]) && !is_ascii_upper(t[i])
            &&& spec_ascii_slug(ascii_lowered(t)) == t
        }),
{
    let l = ascii_lowered(s);
    lemma_ascii_lowered(s);
    let mapped = l.map_values(|c: char| hyphenate(c));
    let pred = |c: char| ascii_slug_char(c);
    let t = spec_ascii_slug(l);
    broadcast use vstd::seq_lib::group_filter_ensures;
    assert forall|i: int| 0 <= i < t.len() implies is_ascii_char(#[trigger] t[i]) && ascii_slug_char(t[i])
        && !is_ascii_upper(t[i]) && t[i] != ' ' && t[i] != '_' by {
        lemma_filter_from(mapped, pred);
        assert(mapped.contains(t[i]));
        let j = choose|j: int| 0 <= j < mapped.len() && mapped[j] == t[i];
        assert(mapped[j] == hyphenate(l[j]));
        assert(is_ascii_char(l[j]));
    }
    let lt = ascii_lowered(t);
    assert forall|i: int| 0 <= i < t.len() implies #[trigger] lt[i] == t[i] by {
        assert(!is_ascii_upper(t[i]));
    }
    assert(lt =~= t);
    let m2 = t.map_values(|c: char| hyphenate(c));
    assert forall|i: int| 0 <= i < t.len() implies #[trigger] m2[i] == t[i] by {
        assert(t[i] != ' ' && t[i] != '_');
    }
    assert(m2 =~= t);
    lemma_filter_all(t, pred);
}

/// `dir` joined with `name` the way `Path::join` does on Unix: an absolute
/// `name` replaces `dir`, and a separator is added unless `dir` is empty or
/// already ends with one.
pub open spec fn spec_join(dir: Seq<char>, name: Seq<char>) -> Seq<char> {
    if name.len() > 0 && name[0] == '/' {
        name
    } else if dir.len() == 0 || dir.last() == '/' {
        dir + name
    } else {
        dir.push('/') + name
    }
}

/// The bank file of a topic: `<slug>.md` inside the question bank directory.
pub fn topic_path(qb_dir: &str, slug: &str) -> (r: String)
    ensures
        r@ == spec_join(qb_dir@, slug@ + seq!['.', 'm', 'd']),
{
    let dir = chars_of(qb_dir);
    let mut name = String::from_str(slug);
    push_char(&mut name, '.');
    push_char(&mut name, 'm');
    push_char(&mut name, 'd');
    let nm = chars_of(name.as_str());
    assert(nm@ =~= slug@ + seq!['.', 'm', 'd']);
    if nm.len() > 0 && nm[0] == '/' {
        return name;
    }
    let mut out = String::from_str(qb_dir);
    if !(dir.len() == 0 || dir[dir.len() - 1] == '/') {
        push_char(&mut out, '/');
    }
    push_chars(&mut out, nm.as_slice());
    out
}

} // verus!

verus! {

// ── Appending to a bank ──────────────────────────────────────────────────────

/// A title line (starting with `#` once trimmed) or a blank line.
pub open spec fn is_preamble(l: Seq<char>) -> bool {
    let t = spec_trim(l);
    t.len() == 0 || t[0] == '#'
}

/// The index of the first line at or after `i` that is not preamble.
pub open spec fn body_start(ls: Seq<Seq<char>>, i: int) -> int
    decreases ls.len() - i,
{
    if i >= ls.len() {
        ls.len() as int
    } else if is_preamble(ls[i]) {
        body_start(ls, i + 1)
    } else {
        i
    }
}

/// What is appended to an existing bank: the generated markdown without its
/// leading lines that are blank or start with `#` (the title, and so also a
/// question heading that follows it directly), lines joined with `\n`.
pub open spec fn spec_append_body(content: Seq<char>) -> Seq<char> {
    let ls = spec_lines(content);
    spec_join_lines(ls.skip(body_start(ls, 0)))
}

proof fn lemma_body_start(ls: Seq<Seq<char>>, i: int)
    requires
        0 <= i <= ls.len(),
    ensures
        i <= body_start(ls, i) <= ls.len(),
    decreases ls.len() - i,
{
    if i < ls.len() && is_preamble(ls[i]) {
        lemma_body_start(ls, i + 1);
    }
}

fn is_preamble_line(l: &[char]) -> (r: bool)
    ensures
        r == is_preamble(l@),
{
    let t = trim(l);
    t.len() == 0 || t[0] == '#'
}

/// Whether the answer to "append or abort" for an existing bank is `a`,
/// around any whitespace; every other answer aborts.
pub fn confirms_append(answer: &str) -> (r: bool)
    ensures
        r == (spec_trim(answer@) == seq!['a']),
{
    let t = trim(chars_of(answer).as_slice());
    if t.len() == 1 && t[0] == 'a' {
        assert(t@ =~= seq!['a']);
        true
    } else {
        false
    }
}

/// The part of generated markdown that is appended to an existing bank.
pub fn append_body(content: &str) -> (r: String)
    ensures
        r@ == spec_append_body(content@),
{
    let chars = chars_of(content);
    let mut lines = split_lines(chars.as_slice());
    let ghost ls = views(lines@);
    let mut i: usize = 0;
    while i < lines.len() && is_preamble_line(lines[i].as_slice())
        invariant
            ls == views(lines@),
            i <= lines@.len(),
            body_start(ls, 0) == body_start(ls, i as int),
        decreases lines@.len() - i,
    {
        assert(ls[i as int] == lines@[i as int]@);
        i = i + 1;
    }
    if i < lines.len() {
        assert(ls[i as int] == lines@[i as int]@);
    }
    proof {
        lemma_body_start(ls, i as int);
    }
    let rest = lines.split_off(i);
    assert(views(rest@) =~= ls.skip(i as int));
    join_lines(rest.as_slice())
}

} // verus!
