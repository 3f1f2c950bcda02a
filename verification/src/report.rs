//! What the reports compute: titles, level and response names, percentages,
//! the best topics, the answered questions by level, and HTML escaping.

use vstd::prelude::*;
use crate::lexical::{lemma_seq_lt_asymmetric, lemma_seq_lt_total, lemma_seq_lt_transitive, seq_lt, str_lt};
use crate::models::{
    Question, Responses, TopicData, spec_answered, spec_max_score, spec_score, spec_total_answered,
    spec_total_max, spec_total_questions, spec_total_score, total_answered, total_max,
    total_questions, total_score,
};
use crate::text::{
    char_lower, char_upper, chars_of, push_char, push_chars, push_decimal, push_str, spec_decimal, spec_char_lower, spec_char_upper,
    spec_is_whitespace, is_whitespace, is_ascii_text, is_ascii_char, ascii_upper, ascii_lower, ascii_lowered,
};

verus! {

// ── Titles ───────────────────────────────────────────────────────────────────

/// Word separators of a slug: hyphens, underscores and whitespace.
pub open spec fn is_separator(c: char) -> bool {
    c == '-' || c == '_' || spec_is_whitespace(c)
}

pub open spec fn is_ascii_lower(c: char) -> bool {
    'a' <= c && c <= 'z'
}

/// The characters of `s` mapped through `f` and concatenated.
pub open spec fn flat_map_chars(s: Seq<char>, f: spec_fn(char) -> Seq<char>) -> Seq<char>
    decreases s.len(),
{
    if s.len() == 0 {
        seq![]
    } else {
        flat_map_chars(s.drop_last(), f) + f(s.last())
    }
}

/// A word of a title: short all-lower-case ASCII words (acronyms such as
/// `nlp`, `ml`, `api`) in capitals, others with the first character upper
/// case and the rest lower case.
pub open spec fn spec_title_word(w: Seq<char>) -> Seq<char> {
    if w.len() <= 3 && forall|i: int| 0 <= i < w.len() ==> is_ascii_lower(#[trigger] w[i]) {
        w.map_values(|c: char| ((c as u32 - 32) as u8) as char)
    } else if w.len() == 0 {
        seq![]
    } else {
        spec_char_upper(w[0]) + flat_map_chars(w.drop_first(), |c: char| spec_char_lower(c))
    }
}

/// A word of a title made of ASCII characters: short all-lower-case words
/// in capitals, others with the first letter upper case and the rest lower
/// case.
pub open spec fn spec_ascii_title_word(w: Seq<char>) -> Seq<char> {
    if w.len() <= 3 && forall|i: int| 0 <= i < w.len() ==> is_ascii_lower(#[trigger] w[i]) {
        w.map_values(|c: char| ((c as u32 - 32) as u8) as char)
    } else if w.len() == 0 {
        seq![]
    } else {
        seq![ascii_upper(w[0])] + ascii_lowered(w.drop_first())
    }
}

/// The non-empty words of `s` among its first `n` characters, and the word
/// being read.
pub open spec fn words_upto(s: Seq<char>, n: int) -> (Seq<Seq<char>>, Seq<char>)
    decreases n,
{
    if n <= 0 {
        (seq![], seq![])
    } else {
        let (done, cur) = words_upto(s, n - 1);
        if is_separator(s[n - 1]) {
            if cur.len() > 0 {
                (done.push(cur), seq![])
            } else {
                (done, seq![])
            }
        } else {
            (done, cur.push(s[n - 1]))
        }
    }
}

/// The non-empty words of `s`.
pub open spec fn spec_words(s: Seq<char>) -> Seq<Seq<char>> {
    let (done, cur) = words_upto(s, s.len() as int);
    if cur.len() > 0 {
        done.push(cur)
    } else {
        done
    }
}

/// A slug made of ASCII characters as a title.
pub open spec fn spec_ascii_title_case(s: Seq<char>) -> Seq<char> {
    crate::text::spec_join_with(spec_words(s).map_values(|w: Seq<char>| spec_ascii_title_word(w)), seq![' '])
}

proof fn lemma_words_ascii(s: Seq<char>, n: int)
    requires
        is_ascii_text(s),
        0 <= n <= s.len(),
    ensures
        forall|k: int| 0 <= k < words_upto(s, n).0.len() ==> is_ascii_text(#[trigger] words_upto(s, n).0[k]),
        is_ascii_text(words_upto(s, n).1),
    decreases n,
{
    if n > 0 {
        lemma_words_ascii(s, n - 1);
        let (done, cur) = words_upto(s, n - 1);
        assert(is_ascii_char(s[n - 1]));
        if !is_separator(s[n - 1]) {
            let c2 = cur.push(s[n - 1]);
            assert forall|i: int| 0 <= i < c2.len() implies is_ascii_char(#[trigger] c2[i]) by {
                if i < cur.len() {
                    assert(c2[i] == cur[i]);
                }
            }
        } else if cur.len() > 0 {
            let d2 = done.push(cur);
            assert forall|k: int| 0 <= k < d2.len() implies is_ascii_text(#[trigger] d2[k]) by {
                if k < done.len() {
                    assert(d2[k] == done[k]);
                }
            }
        }
    }
}

/// The words of ASCII text are ASCII.
proof fn lemma_spec_words_ascii(s: Seq<char>)
    requires
        is_ascii_text(s),
    ensures
        forall|k: int| 0 <= k < spec_words(s).len() ==> is_ascii_text(#[trigger] spec_words(s)[k]),
{
    lemma_words_ascii(s, s.len() as int);
    let (done, cur) = words_upto(s, s.len() as int);
    if cur.len() > 0 {
        let d2 = done.push(cur);
        assert forall|k: int| 0 <= k < d2.len() implies is_ascii_text(#[trigger] d2[k]) by {
            if k < done.len() {
                assert(d2[k] == done[k]);
            }
        }
    }
}

/// A slug as a title: its words, each styled, joined by single spaces.
pub open spec fn spec_title_case(s: Seq<char>) -> Seq<char> {
    crate::text::spec_join_with(spec_words(s).map_values(|w: Seq<char>| spec_title_word(w)), seq![' '])
}

/// The characters of `parts`, concatenated.
pub open spec fn concat_chars(parts: Seq<Seq<char>>) -> Seq<char>
    decreases parts.len(),
{
    if parts.len() == 0 {
        seq![]
    } else {
        concat_chars(parts.drop_last()) + parts.last()
    }
}

/// A word of a title, given the upper case of its first character and the
/// lower case of each later one.
pub open spec fn spec_styled_word(w: Seq<char>, upper: Seq<char>, lowers: Seq<Seq<char>>) -> Seq<char> {
    if w.len() <= 3 && forall|i: int| 0 <= i < w.len() ==> is_ascii_lower(#[trigger] w[i]) {
        w.map_values(|c: char| ((c as u32 - 32) as u8) as char)
    } else if w.len() == 0 {
        seq![]
    } else {
        upper + concat_chars(lowers)
    }
}

/// A word of a title, given the upper case of its first character and the
/// lower case of each later one: short all-lower-case ASCII words in
/// capitals, others as that upper case followed by those lower cases.
pub fn styled_word(w: &Vec<char>, upper: &Vec<char>, lowers: &Vec<Vec<char>>) -> (r: Vec<char>)
    ensures
        r@ == spec_styled_word(w@, upper@, crate::text::views(lowers@)),
{
    let ghost lv = crate::text::views(lowers@);
    let n = w.len();
    let mut all_lower = n <= 3;
    let mut i: usize = 0;
    while i < n && all_lower
        invariant
            n == w@.len(),
            i <= n,
            all_lower ==> n <= 3 && forall|k: int| 0 <= k < i ==> is_ascii_lower(#[trigger] w@[k]),
            !all_lower ==> !(n <= 3 && forall|k: int| 0 <= k < n ==> is_ascii_lower(#[trigger] w@[k])),
        decreases n - i,
    {
        if !('a' <= w[i] && w[i] <= 'z') {
            all_lower = false;
        }
        i = i + 1;
    }
    if all_lower {
        let mut out: Vec<char> = Vec::new();
        let mut j: usize = 0;
        while j < n
            invariant
                n == w@.len(),
                j <= n,
                forall|k: int| 0 <= k < n ==> is_ascii_lower(#[trigger] w@[k]),
                out@ == w@.take(j as int).map_values(|c: char| ((c as u32 - 32) as u8) as char),
            decreases n - j,
        {
            let c = w[j];
            let u = ((c as u32 - 32) as u8) as char;
            out.push(u);
            assert(out@ =~= w@.take(j + 1).map_values(|c: char| ((c as u32 - 32) as u8) as char));
            j = j + 1;
        }
        assert(w@.take(n as int) =~= w@);
        return out;
    }
    if n == 0 {
        return Vec::new();
    }
    let mut out = upper.clone();
    let mut j: usize = 0;
    while j < lowers.len()
        invariant
            lv == crate::text::views(lowers@),
            j <= lowers@.len(),
            out@ == upper@ + concat_chars(lv.take(j as int)),
        decreases lowers@.len() - j,
    {
        let low = &lowers[j];
        let ghost before = out@;
        let mut k: usize = 0;
        while k < low.len()
            invariant
                k <= low@.len(),
                out@ == before + low@.take(k as int),
            decreases low@.len() - k,
        {
            out.push(low[k]);
            assert(out@ =~= before + low@.take(k + 1));
            k = k + 1;
        }
        assert(low@.take(low@.len() as int) =~= low@);
        assert(lv.take(j + 1).drop_last() =~= lv.take(j as int));
        assert(lv.take(j + 1).last() == low@);
        assert(out@ =~= upper@ + concat_chars(lv.take(j + 1)));
        j = j + 1;
    }
    assert(lv.take(lv.len() as int) =~= lv);
    out
}

proof fn lemma_concat_lowers(t: Seq<char>, lv: Seq<Seq<char>>)
    requires
        lv.len() == t.len(),
        forall|i: int| 0 <= i < t.len() ==> #[trigger] lv[i] == spec_char_lower(t[i]),
    ensures
        concat_chars(lv) == flat_map_chars(t, |c: char| spec_char_lower(c)),
    decreases t.len(),
{
    if t.len() > 0 {
        lemma_concat_lowers(t.drop_last(), lv.drop_last());
    }
}

proof fn lemma_concat_ascii_lowers(t: Seq<char>, lv: Seq<Seq<char>>)
    requires
        lv.len() == t.len(),
        forall|i: int| 0 <= i < t.len() ==> #[trigger] lv[i] == seq![ascii_lower(t[i])],
    ensures
        concat_chars(lv) == ascii_lowered(t),
    decreases t.len(),
{
    if t.len() > 0 {
        lemma_concat_ascii_lowers(t.drop_last(), lv.drop_last());
        assert(ascii_lowered(t) =~= ascii_lowered(t.drop_last()) + seq![ascii_lower(t.last())]);
    } else {
        assert(ascii_lowered(t) =~= Seq::<char>::empty());
    }
}

fn title_word(w: &Vec<char>) -> (r: Vec<char>)
    ensures
        r@ == spec_title_word(w@),
        is_ascii_text(w@) ==> r@ == spec_ascii_title_word(w@),
{
    let n = w.len();
    let upper = if n > 0 {
        char_upper(w[0])
    } else {
        Vec::new()
    };
    let mut lowers: Vec<Vec<char>> = Vec::new();
    let mut j: usize = 1;
    while j < n
        invariant
            n == w@.len(),
            1 <= j <= n || n == 0,
            lowers@.len() == if n == 0 { 0 } else { j - 1 },
            forall|i: int| 0 <= i < lowers@.len() ==> (#[trigger] lowers@[i])@ == spec_char_lower(w@[i + 1]),
            is_ascii_text(w@) ==> forall|i: int|
                0 <= i < lowers@.len() ==> (#[trigger] lowers@[i])@ == seq![ascii_lower(w@[i + 1])],
        decreases n - j,
    {
        lowers.push(char_lower(w[j]));
        j = j + 1;
    }
    let r = styled_word(w, &upper, &lowers);
    proof {
        if n > 0 {
            let lv = crate::text::views(lowers@);
            assert forall|i: int| 0 <= i < w@.drop_first().len() implies #[trigger] lv[i] == spec_char_lower(
                w@.drop_first()[i],
            ) by {
                assert(lv[i] == lowers@[i]@);
            }
            lemma_concat_lowers(w@.drop_first(), lv);
            if is_ascii_text(w@) {
                assert forall|i: int| 0 <= i < w@.drop_first().len() implies #[trigger] lv[i] == seq![
                    ascii_lower(w@.drop_first()[i]),
                ] by {
                    assert(lv[i] == lowers@[i]@);
                }
                lemma_concat_ascii_lowers(w@.drop_first(), lv);
                assert(is_ascii_char(w@[0]));
            }
        }
    }
    r
}

fn split_words(s: &[char]) -> (r: Vec<Vec<char>>)
    ensures
        crate::text::views(r@) == spec_words(s@),
{
    let mut done: Vec<Vec<char>> = Vec::new();
    let mut cur: Vec<char> = Vec::new();
    let mut i: usize = 0;
    while i < s.len()
        invariant
            i <= s@.len(),
            (crate::text::views(done@), cur@) == words_upto(s@, i as int),
        decreases s@.len() - i,
    {
        let c = s[i];
        if c == '-' || c == '_' || is_whitespace(c) {
            if cur.len() > 0 {
                let ghost before = crate::text::views(done@);
                let ghost w = cur@;
                done.push(cur);
                assert(crate::text::views(done@) =~= before.push(w));
            }
            cur = Vec::new();
        } else {
            cur.push(c);
        }
        i = i + 1;
    }
    if cur.len() > 0 {
        let ghost before = crate::text::views(done@);
        let ghost w = cur@;
        done.push(cur);
        assert(crate::text::views(done@) =~= before.push(w));
    }
    done
}

/// A slug as a display title, e.g. `machine-learning` as `Machine Learning`
/// and `nlp` as `NLP`.
pub fn title_case(slug: &str) -> (r: String)
    ensures
        r@ == spec_title_case(slug@),
        is_ascii_text(slug@) ==> r@ == spec_ascii_title_case(slug@),
{
    let words = split_words(chars_of(slug).as_slice());
    let ghost ws = crate::text::views(words@);
    let ghost styled = ws.map_values(|w: Seq<char>| spec_title_word(w));
    let ghost plain = ws.map_values(|w: Seq<char>| spec_ascii_title_word(w));
    proof {
        if is_ascii_text(slug@) {
            lemma_spec_words_ascii(slug@);
        }
    }
    let mut out = String::new();
    let mut i: usize = 0;
    while i < words.len()
        invariant
            ws == crate::text::views(words@),
            ws == spec_words(slug@),
            styled == ws.map_values(|w: Seq<char>| spec_title_word(w)),
            plain == ws.map_values(|w: Seq<char>| spec_ascii_title_word(w)),
            is_ascii_text(slug@) ==> forall|k: int| 0 <= k < ws.len() ==> is_ascii_text(#[trigger] ws[k]),
            i <= words@.len(),
            out@ == crate::text::spec_join_with(styled.take(i as int), seq![' ']),
            is_ascii_text(slug@) ==> out@ == crate::text::spec_join_with(plain.take(i as int), seq![' ']),
        decreases words@.len() - i,
    {
        assert(styled.take(i + 1).drop_last() =~= styled.take(i as int));
        assert(plain.take(i + 1).drop_last() =~= plain.take(i as int));
        if i > 0 {
            push_char(&mut out, ' ');
        }
        assert(ws[i as int] == words@[i as int]@);
        let t = title_word(&words[i]);
        push_chars(&mut out, t.as_slice());
        i = i + 1;
    }
    assert(styled.take(words@.len() as int) =~= styled);
    assert(plain.take(words@.len() as int) =~= plain);
    out
}

// ── Names ────────────────────────────────────────────────────────────────────

/// The name of a question level: Basic, Intermediate, Advanced, Expert, or
/// `—` for any other level.
pub open spec fn spec_level_name(level: u8) -> Seq<char> {
    if level == 1 {
        seq!['B', 'a', 's', 'i', 'c']
    } else if level == 2 {
        seq!['I', 'n', 't', 'e', 'r', 'm', 'e', 'd', 'i', 'a', 't', 'e']
    } else if level == 3 {
        seq!['A', 'd', 'v', 'a', 'n', 'c', 'e', 'd']
    } else if level == 4 {
        seq!['E', 'x', 'p', 'e', 'r', 't']
    } else {
        seq!['—']
    }
}

pub fn level_name(level: u8) -> (r: &'static str)
    ensures
        r@ == spec_level_name(level),
{
    proof {
        reveal_strlit("Basic");
        reveal_strlit("Intermediate");
        reveal_strlit("Advanced");
        reveal_strlit("Expert");
        reveal_strlit("—");
    }
    let r = if level == 1 {
        "Basic"
    } else if level == 2 {
        "Intermediate"
    } else if level == 3 {
        "Advanced"
    } else if level == 4 {
        "Expert"
    } else {
        "—"
    };
    assert(r@ =~= spec_level_name(level));
    r
}

/// The label of a recorded score: `Could not answer` for 0, else the level
/// name the score reaches.
pub open spec fn spec_response_label(score: u8) -> Seq<char> {
    if score == 0 {
        seq!['C', 'o', 'u', 'l', 'd', ' ', 'n', 'o', 't', ' ', 'a', 'n', 's', 'w', 'e', 'r']
    } else {
        spec_level_name(score)
    }
}

pub fn response_label(score: u8) -> (r: &'static str)
    ensures
        r@ == spec_response_label(score),
{
    if score == 0 {
        proof {
            reveal_strlit("Could not answer");
        }
        let r = "Could not answer";
        assert(r@ =~= spec_response_label(score));
        r
    } else {
        level_name(score)
    }
}

/// The colour band of a percentage.
#[derive(Clone, Copy, Debug, PartialEq, Eq, Structural)]
pub enum PerfBand {
    /// 75% and above.
    Success,
    /// 50% to 74%.
    Primary,
    /// 25% to 49%.
    Warning,
    /// Below 25%.
    Danger,
}

pub fn perf_band(pct: u32) -> (r: PerfBand)
    ensures
        r == if pct >= 75 {
            PerfBand::Success
        } else if pct >= 50 {
            PerfBand::Primary
        } else if pct >= 25 {
            PerfBand::Warning
        } else {
            PerfBand::Danger
        },
{
    if pct >= 75 {
        PerfBand::Success
    } else if pct >= 50 {
        PerfBand::Primary
    } else if pct >= 25 {
        PerfBand::Warning
    } else {
        PerfBand::Danger
    }
}

/// `score` as a whole percentage of `max` (rounded down), 0 when `max` is 0.
pub open spec fn spec_percent(score: u32, max: u32) -> int {
    if max > 0 {
        (score as int) * 100 / (max as int)
    } else {
        0
    }
}

pub fn percent(score: u32, max: u32) -> (r: u32)
    requires
        score * 100 <= u32::MAX,
    ensures
        r == spec_percent(score, max),
{
    if max > 0 {
        score * 100 / max
    } else {
        0
    }
}

// ── HTML ─────────────────────────────────────────────────────────────────────

/// `&`, `<`, `>` and `"` as HTML entities.
pub open spec fn spec_escape_char(c: char) -> Seq<char> {
    if c == '&' {
        seq!['&', 'a', 'm', 'p', ';']
    } else if c == '<' {
        seq!['&', 'l', 't', ';']
    } else if c == '>' {
        seq!['&', 'g', 't', ';']
    } else if c == '"' {
        seq!['&', 'q', 'u', 'o', 't', ';']
    } else {
        seq![c]
    }
}

pub open spec fn spec_esc(s: Seq<char>) -> Seq<char> {
    flat_map_chars(s, |c: char| spec_escape_char(c))
}

/// Escapes text for HTML.
pub fn esc(s: &str) -> (r: String)
    ensures
        r@ == spec_esc(s@),
{
    let cs = chars_of(s);
    let mut out = String::new();
    let mut i: usize = 0;
    while i < cs.len()
        invariant
            i <= cs@.len(),
            out@ == spec_esc(cs@.take(i as int)),
        decreases cs@.len() - i,
    {
        let c = cs[i];
        if c == '&' {
            push_char(&mut out, '&');
            push_char(&mut out, 'a');
            push_char(&mut out, 'm');
            push_char(&mut out, 'p');
            push_char(&mut out, ';');
        } else if c == '<' {
            push_char(&mut out, '&');
            push_char(&mut out, 'l');
            push_char(&mut out, 't');
            push_char(&mut out, ';');
        } else if c == '>' {
            push_char(&mut out, '&');
            push_char(&mut out, 'g');
            push_char(&mut out, 't');
            push_char(&mut out, ';');
        } else if c == '"' {
            push_char(&mut out, '&');
            push_char(&mut out, 'q');
            push_char(&mut out, 'u');
            push_char(&mut out, 'o');
            push_char(&mut out, 't');
            push_char(&mut out, ';');
        } else {
            push_char(&mut out, c);
        }
        assert(cs@.take(i + 1).drop_last() =~= cs@.take(i as int));
        assert(out@ =~= spec_esc(cs@.take(i + 1)));
        i = i + 1;
    }
    assert(cs@.take(cs@.len() as int) =~= cs@);
    out
}

proof fn lemma_esc_clean(s: Seq<char>)
    ensures
        forall|i: int|
            0 <= i < spec_esc(s).len() ==> #[trigger] spec_esc(s)[i] != '<' && spec_esc(s)[i] != '>'
                && spec_esc(s)[i] != '"',
    decreases s.len(),
{
    if s.len() > 0 {
        lemma_esc_clean(s.drop_last());
        let prev = spec_esc(s.drop_last());
        let last = spec_escape_char(s.last());
        assert(spec_esc(s) == prev + last);
        assert forall|i: int| 0 <= i < spec_esc(s).len() implies #[trigger] spec_esc(s)[i] != '<'
            && spec_esc(s)[i] != '>' && spec_esc(s)[i] != '"' by {
            if i < prev.len() {
                assert(spec_esc(s)[i] == prev[i]);
            } else {
                assert(spec_esc(s)[i] == last[i - prev.len()]);
            }
        }
    }
}

/// Escaped text holds no `<`, `>` or `"`, so it cannot open a tag or end an
/// attribute.
pub proof fn law_escaped_is_inert(s: Seq<char>)
    ensures
        forall|i: int|
            0 <= i < spec_esc(s).len() ==> #[trigger] spec_esc(s)[i] != '<' && spec_esc(s)[i] != '>'
                && spec_esc(s)[i] != '"',
{
    lemma_esc_clean(s);
}

// ── Best topics ──────────────────────────────────────────────────────────────

/// The share of a topic's full points that was earned, as a whole
/// percentage (0 for a topic worth nothing).
pub open spec fn topic_pct(t: TopicData, r: Map<Seq<char>, u8>) -> int {
    let mx = spec_max_score(t.questions@);
    if mx > 0 {
        (spec_score(t.questions@, r) * 100 / mx) as int
    } else {
        0
    }
}

/// A topic takes part in the ranking once one of its questions is answered.
pub open spec fn rankable(ts: Seq<TopicData>, r: Map<Seq<char>, u8>, i: int) -> bool {
    0 <= i < ts.len() && spec_answered(ts[i].questions@, r) > 0
}

/// Topic `i` ranks before topic `j`: a higher percentage, then the name in
/// alphabetical order, then the earlier place in the list.
pub open spec fn ranks_before(ts: Seq<TopicData>, r: Map<Seq<char>, u8>, i: int, j: int) -> bool {
    let pi = topic_pct(ts[i], r);
    let pj = topic_pct(ts[j], r);
    ||| pi > pj
    ||| pi == pj && seq_lt(ts[i].name@, ts[j].name@)
    ||| pi == pj && ts[i].name@ == ts[j].name@ && i < j
}

/// The ranking is a strict total order on the topics.
pub proof fn lemma_ranks_order(ts: Seq<TopicData>, r: Map<Seq<char>, u8>)
    ensures
        forall|i: int| !#[trigger] ranks_before(ts, r, i, i),
        forall|i: int, j: int|
            i != j ==> #[trigger] ranks_before(ts, r, i, j) || #[trigger] ranks_before(ts, r, j, i),
        forall|i: int, j: int, k: int|
            #[trigger] ranks_before(ts, r, i, j) && #[trigger] ranks_before(ts, r, j, k)
                ==> ranks_before(ts, r, i, k),
{
    assert forall|i: int| !#[trigger] ranks_before(ts, r, i, i) by {
        lemma_seq_lt_asymmetric(ts[i].name@, ts[i].name@);
    }
    assert forall|i: int, j: int|
        i != j implies #[trigger] ranks_before(ts, r, i, j) || #[trigger] ranks_before(ts, r, j, i) by {
        lemma_seq_lt_total(ts[i].name@, ts[j].name@);
    }
    assert forall|i: int, j: int, k: int|
        #[trigger] ranks_before(ts, r, i, j) && #[trigger] ranks_before(ts, r, j, k)
            implies ranks_before(ts, r, i, k) by {
        let (a, b, c) = (ts[i].name@, ts[j].name@, ts[k].name@);
        lemma_seq_lt_asymmetric(a, b);
        lemma_seq_lt_asymmetric(b, c);
        if seq_lt(a, b) && seq_lt(b, c) {
            lemma_seq_lt_transitive(a, b, c);
        }
    }
}

/// The scores and points of every topic fit the arithmetic of the ranking.
pub open spec fn ranking_fits(ts: Seq<TopicData>, r: Map<Seq<char>, u8>) -> bool {
    forall|i: int|
        0 <= i < ts.len() ==> spec_max_score(#[trigger] ts[i].questions@) <= u32::MAX
            && spec_score(ts[i].questions@, r) * 100 <= u32::MAX
}

/// The best answered topics, at most three, best first: each entry is a
/// topic's index and its percentage. Topics with no answered question are
/// left out; ties in percentage go by name, then by place in the list.
pub fn top_topics(topics: &[TopicData], responses: &Responses) -> (top: Vec<(usize, u32)>)
    requires
        ranking_fits(topics@, responses@),
    ensures
        top.len() <= 3,
        forall|k: int|
            0 <= k < top.len() ==> rankable(topics@, responses@, #[trigger] top@[k].0 as int)
                && top@[k].1 == topic_pct(topics@[top@[k].0 as int], responses@),
        forall|k: int, l: int|
            0 <= k < l < top.len() ==> ranks_before(
                topics@,
                responses@,
                #[trigger] top@[k].0 as int,
                #[trigger] top@[l].0 as int,
            ),
        forall|j: int|
            rankable(topics@, responses@, j) ==> (exists|k: int|
                0 <= k < top.len() && #[trigger] top@[k].0 == j) || (top.len() == 3 && forall|k: int|
                0 <= k < top.len() ==> ranks_before(topics@, responses@, #[trigger] top@[k].0 as int, j)),
{
    let ghost ts = topics@;
    let ghost rm = responses@;
    proof {
        lemma_ranks_order(ts, rm);
    }
    let n = topics.len();
    let mut pcts: Vec<u32> = Vec::new();
    let mut live: Vec<bool> = Vec::new();
    let mut i: usize = 0;
    while i < n
        invariant
            ts == topics@,
            rm == responses@,
            n == ts.len(),
            i <= n,
            ranking_fits(ts, rm),
            pcts@.len() == i,
            live@.len() == i,
            forall|j: int| 0 <= j < i ==> #[trigger] pcts@[j] == topic_pct(ts[j], rm),
            forall|j: int| 0 <= j < i ==> #[trigger] live@[j] == rankable(ts, rm, j),
        decreases n - i,
    {
        let t = &topics[i];
        assert(spec_max_score(ts[i as int].questions@) <= u32::MAX);
        let mx = t.max_score();
        let sc = t.score(responses);
        pcts.push(percent(sc, mx));
        live.push(t.answered(responses) > 0);
        i = i + 1;
    }
    let mut top: Vec<(usize, u32)> = Vec::new();
    let mut taken: Vec<bool> = Vec::new();
    let mut j: usize = 0;
    while j < n
        invariant
            taken@.len() == j,
            j <= n,
            forall|k: int| 0 <= k < j ==> !#[trigger] taken@[k],
        decreases n - j,
    {
        taken.push(false);
        j = j + 1;
    }
    let mut done = false;
    while top.len() < 3 && !done
        invariant
            ts == topics@,
            rm == responses@,
            n == ts.len(),
            pcts@.len() == n,
            live@.len() == n,
            taken@.len() == n,
            top.len() <= 3,
            forall|j: int| 0 <= j < n ==> #[trigger] pcts@[j] == topic_pct(ts[j], rm),
            forall|j: int| 0 <= j < n ==> #[trigger] live@[j] == rankable(ts, rm, j),
            forall|j: int|
                0 <= j < n ==> (#[trigger] taken@[j] <==> exists|k: int|
                    0 <= k < top.len() && #[trigger] top@[k].0 == j),
            forall|k: int|
                0 <= k < top.len() ==> (#[trigger] top@[k].0) < n && rankable(ts, rm, top@[k].0 as int)
                    && top@[k].1 == topic_pct(ts[top@[k].0 as int], rm),
            forall|k: int, l: int|
                0 <= k < l < top.len() ==> ranks_before(
                    ts,
                    rm,
                    #[trigger] top@[k].0 as int,
                    #[trigger] top@[l].0 as int,
                ),
            forall|j: int, k: int|
                rankable(ts, rm, j) && !taken@[j] && 0 <= k < top.len() ==> #[trigger] ranks_before(
                    ts,
                    rm,
                    top@[k].0 as int,
                    j,
                ),
            done ==> forall|j: int| rankable(ts, rm, j) ==> #[trigger] taken@[j],
            forall|i: int| !#[trigger] ranks_before(ts, rm, i, i),
            forall|i: int, j: int|
                i != j ==> #[trigger] ranks_before(ts, rm, i, j) || #[trigger] ranks_before(ts, rm, j, i),
            forall|i: int, j: int, k: int|
                #[trigger] ranks_before(ts, rm, i, j) && #[trigger] ranks_before(ts, rm, j, k)
                    ==> ranks_before(ts, rm, i, k),
        decreases 3 - top.len(), if done { 0int } else { 1int },
    {
        let mut best: Option<usize> = None;
        let mut c: usize = 0;
        while c < n
            invariant
                ts == topics@,
                rm == responses@,
                n == ts.len(),
                c <= n,
                pcts@.len() == n,
                live@.len() == n,
                taken@.len() == n,
                forall|j: int| 0 <= j < n ==> #[trigger] pcts@[j] == topic_pct(ts[j], rm),
                forall|j: int| 0 <= j < n ==> #[trigger] live@[j] == rankable(ts, rm, j),
                match best {
                    Some(b) => b < c && rankable(ts, rm, b as int) && !taken@[b as int] && forall|j: int|
                        0 <= j < c && rankable(ts, rm, j) && !taken@[j] && j != b ==> #[trigger] ranks_before(ts, rm, b as int, j),
                    None => forall|j: int| 0 <= j < c ==> !rankable(ts, rm, j) || #[trigger] taken@[j],
                },
                forall|i: int, j: int|
                    i != j ==> #[trigger] ranks_before(ts, rm, i, j) || #[trigger] ranks_before(ts, rm, j, i),
                forall|i: int, j: int, k: int|
                    #[trigger] ranks_before(ts, rm, i, j) && #[trigger] ranks_before(ts, rm, j, k)
                        ==> ranks_before(ts, rm, i, k),
            decreases n - c,
        {
            if live[c] && !taken[c] {
                match best {
                    None => {
                        best = Some(c);
                    },
                    Some(b) => {
                        let before = ranks_before_at(topics, &pcts, c, b);
                        assert(before == ranks_before(ts, rm, c as int, b as int));
                        if before {
                            assert forall|j: int|
                                0 <= j < c && rankable(ts, rm, j) && !taken@[j] && j != b implies
                                #[trigger] ranks_before(ts, rm, c as int, j) by {
                                assert(ranks_before(ts, rm, b as int, j));
                            }
                            best = Some(c);
                        } else {
                            assert(ranks_before(ts, rm, b as int, c as int));
                        }
                    },
                }
            }
            c = c + 1;
        }
        match best {
            None => {
                done = true;
            },
            Some(b) => {
                let ghost old_top = top@;
                top.push((b, pcts[b]));
                taken.set(b, true);
                assert forall|j: int|
                    0 <= j < n implies (#[trigger] taken@[j] <==> exists|k: int|
                        0 <= k < top.len() && #[trigger] top@[k].0 == j) by {
                    if j == b {
                        assert(top@[old_top.len() as int].0 == j);
                    } else if taken@[j] {
                        let k = choose|k: int| 0 <= k < old_top.len() && #[trigger] old_top[k].0 == j;
                        assert(top@[k].0 == j);
                    } else {
                        assert forall|k: int| 0 <= k < top.len() implies #[trigger] top@[k].0 != j by {
                            if k < old_top.len() {
                                assert(old_top[k] == top@[k]);
                            }
                        }
                    }
                }
            },
        }
    }
    assert forall|j: int| rankable(topics@, responses@, j) implies (exists|k: int|
        0 <= k < top.len() && #[trigger] top@[k].0 == j) || (top.len() == 3 && forall|k: int|
        0 <= k < top.len() ==> ranks_before(topics@, responses@, #[trigger] top@[k].0 as int, j)) by {
        if taken@[j] {
        } else {
            assert(top.len() == 3);
        }
    }
    top
}

/// Topic `c` ranks before topic `b`, given the percentages of all topics.
fn ranks_before_at(topics: &[TopicData], pcts: &Vec<u32>, c: usize, b: usize) -> (r: bool)
    requires
        c < topics.len(),
        b < topics.len(),
        pcts@.len() == topics.len(),
    ensures
        r == ({
            let (pc, pb) = (pcts@[c as int], pcts@[b as int]);
            ||| pc > pb
            ||| pc == pb && seq_lt(topics@[c as int].name@, topics@[b as int].name@)
            ||| pc == pb && topics@[c as int].name@ == topics@[b as int].name@ && c < b
        }),
{
    if pcts[c] != pcts[b] {
        return pcts[c] > pcts[b];
    }
    let a = topics[c].name.as_str();
    let z = topics[b].name.as_str();
    if str_lt(a, z) {
        return true;
    }
    if str_lt(z, a) {
        proof {
            lemma_seq_lt_asymmetric(z@, a@);
        }
        return false;
    }
    proof {
        lemma_seq_lt_total(a@, z@);
    }
    c < b
}

// ── Detailed breakdown ───────────────────────────────────────────────────────

/// The indices, among the first `n` questions, of those answered at `level`,
/// in order.
pub open spec fn answered_at_level(qs: Seq<Question>, r: Map<Seq<char>, u8>, level: u8, n: int) -> Seq<usize>
    decreases n,
{
    if n <= 0 {
        seq![]
    } else {
        let prev = answered_at_level(qs, r, level, n - 1);
        if r.contains_key(qs[n - 1].id@) && qs[n - 1].level == level {
            prev.push((n - 1) as usize)
        } else {
            prev
        }
    }
}

/// For levels 1 to `lv`, each level that has an answered question with the
/// answered questions at that level.
pub open spec fn level_groups_upto(qs: Seq<Question>, r: Map<Seq<char>, u8>, lv: int) -> Seq<(u8, Seq<usize>)>
    decreases lv,
{
    if lv <= 0 {
        seq![]
    } else {
        let prev = level_groups_upto(qs, r, lv - 1);
        let g = answered_at_level(qs, r, lv as u8, qs.len() as int);
        if g.len() > 0 {
            prev.push((lv as u8, g))
        } else {
            prev
        }
    }
}

/// The groups of the detailed breakdown of a topic: levels 1 to 4 in order,
/// each with its answered questions; levels without one are left out, and a
/// topic with no answered question has no group.
pub open spec fn spec_level_groups(qs: Seq<Question>, r: Map<Seq<char>, u8>) -> Seq<(u8, Seq<usize>)> {
    level_groups_upto(qs, r, 4)
}

/// The groups with their indices as sequences.
pub open spec fn group_views(g: Seq<(u8, Vec<usize>)>) -> Seq<(u8, Seq<usize>)> {
    g.map_values(|p: (u8, Vec<usize>)| (p.0, p.1@))
}

fn answered_indices(topic: &TopicData, responses: &Responses, level: u8) -> (v: Vec<usize>)
    ensures
        v@ == answered_at_level(topic.questions@, responses@, level, topic.questions@.len() as int),
{
    let ghost qs = topic.questions@;
    let mut v: Vec<usize> = Vec::new();
    let mut i: usize = 0;
    while i < topic.questions.len()
        invariant
            qs == topic.questions@,
            i <= qs.len(),
            v@ == answered_at_level(qs, responses@, level, i as int),
        decreases qs.len() - i,
    {
        let q = &topic.questions[i];
        if q.level == level && responses.contains_key(q.id.as_str()) {
            v.push(i);
        }
        i = i + 1;
    }
    v
}

/// The answered questions of a topic grouped by level, as the detailed
/// breakdown lists them: indices into the topic's questions.
pub fn level_groups(topic: &TopicData, responses: &Responses) -> (g: Vec<(u8, Vec<usize>)>)
    ensures
        group_views(g@) == spec_level_groups(topic.questions@, responses@),
{
    let ghost qs = topic.questions@;
    let mut g: Vec<(u8, Vec<usize>)> = Vec::new();
    let mut lv: u8 = 1;
    while lv <= 4
        invariant
            qs == topic.questions@,
            1 <= lv <= 5,
            group_views(g@) == level_groups_upto(qs, responses@, lv - 1),
        decreases 5 - lv,
    {
        let v = answered_indices(topic, responses, lv);
        if v.len() > 0 {
            let ghost before = g@;
            let ghost vv = v@;
            g.push((lv, v));
            assert(group_views(g@) =~= group_views(before).push((lv, vv)));
        }
        lv = lv + 1;
    }
    g
}

/// The number of questions listed by the groups.
pub open spec fn group_total(g: Seq<(u8, Seq<usize>)>) -> nat
    decreases g.len(),
{
    if g.len() == 0 {
        0
    } else {
        group_total(g.drop_last()) + g.last().1.len()
    }
}

/// The answered questions of levels 1 to `lv`, level by level.
pub open spec fn level_sum(qs: Seq<Question>, r: Map<Seq<char>, u8>, lv: int) -> nat
    decreases lv,
{
    if lv <= 0 {
        0
    } else {
        level_sum(qs, r, lv - 1) + answered_at_level(qs, r, lv as u8, qs.len() as int).len()
    }
}

proof fn lemma_groups_total(qs: Seq<Question>, r: Map<Seq<char>, u8>, lv: int)
    requires
        0 <= lv <= 4,
    ensures
        group_total(level_groups_upto(qs, r, lv)) == level_sum(qs, r, lv),
        level_groups_upto(qs, r, lv).len() > 0 ==> group_total(level_groups_upto(qs, r, lv)) > 0,
    decreases lv,
{
    if lv > 0 {
        lemma_groups_total(qs, r, lv - 1);
        let prev = level_groups_upto(qs, r, lv - 1);
        let g = answered_at_level(qs, r, lv as u8, qs.len() as int);
        if g.len() > 0 {
            assert(prev.push((lv as u8, g)).drop_last() =~= prev);
        }
    }
}

proof fn lemma_levels_count(qs: Seq<Question>, r: Map<Seq<char>, u8>, n: int)
    requires
        0 <= n <= qs.len(),
        forall|i: int| 0 <= i < qs.len() ==> 1 <= #[trigger] qs[i].level <= 4,
    ensures
        answered_at_level(qs, r, 1, n).len() + answered_at_level(qs, r, 2, n).len()
            + answered_at_level(qs, r, 3, n).len() + answered_at_level(qs, r, 4, n).len()
            == spec_answered(qs.take(n), r),
    decreases n,
{
    if n > 0 {
        lemma_levels_count(qs, r, n - 1);
        assert(qs.take(n).drop_last() =~= qs.take(n - 1));
        assert(qs.take(n).last() == qs[n - 1]);
    } else {
        assert(qs.take(0) =~= Seq::<Question>::empty());
    }
}

/// The detailed breakdown lists every answered question once: the groups
/// hold as many questions as the topic has answered, and a topic with no
/// answered question has no group (for questions of levels 1 to 4).
pub proof fn law_breakdown_lists_answered(qs: Seq<Question>, r: Map<Seq<char>, u8>)
    requires
        forall|i: int| 0 <= i < qs.len() ==> 1 <= #[trigger] qs[i].level <= 4,
    ensures
        group_total(spec_level_groups(qs, r)) == spec_answered(qs, r),
        spec_level_groups(qs, r).len() == 0 <==> spec_answered(qs, r) == 0,
{
    reveal_with_fuel(level_sum, 5);
    reveal_with_fuel(level_groups_upto, 5);
    lemma_groups_total(qs, r, 4);
    lemma_levels_count(qs, r, qs.len() as int);
    assert(qs.take(qs.len() as int) =~= qs);
    if spec_answered(qs, r) == 0 {
        assert(answered_at_level(qs, r, 1, qs.len() as int).len() == 0);
        assert(answered_at_level(qs, r, 2, qs.len() as int).len() == 0);
        assert(answered_at_level(qs, r, 3, qs.len() as int).len() == 0);
        assert(answered_at_level(qs, r, 4, qs.len() as int).len() == 0);
    }
}

/// The figures line of a topic: `answered/total q  ·  score/max pts  ·  pct%`.
pub open spec fn spec_stats_line(answered: nat, total: nat, score: nat, max: nat, pct: nat) -> Seq<char> {
    spec_decimal(answered) + seq!['/'] + spec_decimal(total) + seq![' ', 'q', ' ', ' ', '·', ' ', ' ']
        + spec_decimal(score) + seq!['/'] + spec_decimal(max) + seq![' ', 'p', 't', 's', ' ', ' ', '·', ' ', ' ']
        + spec_decimal(pct) + seq!['%']
}

/// A topic's figures line in the report: answered of all questions, score of
/// the topic's full points, and that as a percentage.
pub open spec fn spec_topic_stats(t: TopicData, r: Map<Seq<char>, u8>) -> Seq<char> {
    spec_stats_line(
        spec_answered(t.questions@, r),
        t.questions@.len(),
        spec_score(t.questions@, r),
        spec_max_score(t.questions@),
        topic_pct(t, r) as nat,
    )
}

pub fn topic_stats(topic: &TopicData, responses: &Responses) -> (s: String)
    requires
        spec_max_score(topic.questions@) <= u32::MAX,
        spec_score(topic.questions@, responses@) * 100 <= u32::MAX,
    ensures
        s@ == spec_topic_stats(*topic, responses@),
{
    let sc = topic.score(responses);
    let mx = topic.max_score();
    let mut s = String::new();
    push_decimal(&mut s, topic.answered(responses) as u64);
    push_char(&mut s, '/');
    push_decimal(&mut s, topic.questions.len() as u64);
    push_char(&mut s, ' ');
    push_char(&mut s, 'q');
    push_char(&mut s, ' ');
    push_char(&mut s, ' ');
    push_char(&mut s, '·');
    push_char(&mut s, ' ');
    push_char(&mut s, ' ');
    push_decimal(&mut s, sc as u64);
    push_char(&mut s, '/');
    push_decimal(&mut s, mx as u64);
    push_char(&mut s, ' ');
    push_char(&mut s, 'p');
    push_char(&mut s, 't');
    push_char(&mut s, 's');
    push_char(&mut s, ' ');
    push_char(&mut s, ' ');
    push_char(&mut s, '·');
    push_char(&mut s, ' ');
    push_char(&mut s, ' ');
    push_decimal(&mut s, percent(sc, mx) as u64);
    push_char(&mut s, '%');
    assert(s@ =~= spec_topic_stats(*topic, responses@));
    s
}

/// The tag of a level group: `LEVEL n  ·  k question`, with `s` unless
/// there is exactly one.
pub open spec fn spec_level_tag(level: u8, count: nat) -> Seq<char> {
    seq!['L', 'E', 'V', 'E', 'L', ' '] + spec_decimal(level as nat) + seq![' ', ' ', '·', ' ', ' ']
        + spec_decimal(count) + seq![' ', 'q', 'u', 'e', 's', 't', 'i', 'o', 'n'] + if count == 1 {
        seq![]
    } else {
        seq!['s']
    }
}

pub fn level_tag(level: u8, count: usize) -> (s: String)
    ensures
        s@ == spec_level_tag(level, count as nat),
{
    let mut s = String::new();
    push_str(&mut s, "LEVEL ");
    push_decimal(&mut s, level as u64);
    push_str(&mut s, "  ·  ");
    push_decimal(&mut s, count as u64);
    push_str(&mut s, " question");
    if count != 1 {
        push_char(&mut s, 's');
    }
    proof {
        reveal_strlit("LEVEL ");
        reveal_strlit("  ·  ");
        reveal_strlit(" question");
    }
    assert(s@ =~= spec_level_tag(level, count as nat));
    s
}

/// The three summary cards: total score of all points, the percentage, and
/// answered of all questions.
pub open spec fn spec_stat_cards(ts: Seq<TopicData>, r: Map<Seq<char>, u8>) -> (Seq<char>, Seq<char>, Seq<char>) {
    let score = spec_total_score(ts, r);
    let max = spec_total_max(ts);
    let pct: nat = if max > 0 {
        score * 100 / max
    } else {
        0
    };
    (
        spec_decimal(score) + seq!['/'] + spec_decimal(max),
        spec_decimal(pct) + seq!['%'],
        spec_decimal(spec_total_answered(ts, r)) + seq!['/'] + spec_decimal(spec_total_questions(ts)),
    )
}

pub fn stat_cards(topics: &[TopicData], responses: &Responses) -> (c: (String, String, String))
    requires
        spec_total_score(topics@, responses@) * 100 <= u32::MAX,
        spec_total_max(topics@) <= u32::MAX,
        spec_total_questions(topics@) <= usize::MAX,
        spec_total_answered(topics@, responses@) <= usize::MAX,
    ensures
        (c.0@, c.1@, c.2@) == spec_stat_cards(topics@, responses@),
{
    let score = total_score(topics, responses);
    let max = total_max(topics);
    let mut a = String::new();
    push_decimal(&mut a, score as u64);
    push_char(&mut a, '/');
    push_decimal(&mut a, max as u64);
    let mut b = String::new();
    push_decimal(&mut b, percent(score, max) as u64);
    push_char(&mut b, '%');
    let mut d = String::new();
    push_decimal(&mut d, total_answered(topics, responses) as u64);
    push_char(&mut d, '/');
    push_decimal(&mut d, total_questions(topics) as u64);
    assert(a@ =~= spec_stat_cards(topics@, responses@).0);
    assert(b@ =~= spec_stat_cards(topics@, responses@).1);
    assert(d@ =~= spec_stat_cards(topics@, responses@).2);
    (a, b, d)
}

} // verus!
