//! The text the screen shows: truncated labels, progress cells, the header
//! status and search line, card titles and keyword lines.

use vstd::prelude::*;
use crate::models::{Question, Responses, TopicData, sum_questions, lemma_sum_step, lemma_sum_count};
use crate::text::{
    chars_of, push_char, push_chars, push_decimal, push_padded, spec_decimal, spec_pad_left,
    string_of,
};
use crate::models::sum_topics;

verus! {

/// At most `max` characters of `s`; a cut string ends in `…`.
pub open spec fn spec_truncate(s: Seq<char>, max: nat) -> Seq<char> {
    if max == 0 {
        seq![]
    } else if s.len() <= max {
        s
    } else {
        s.take(max - 1).push('…')
    }
}

/// Shortens `s` to at most `max` characters, marking a cut with `…`.
pub fn truncate(s: &str, max: usize) -> (r: String)
    ensures
        r@ == spec_truncate(s@, max as nat),
{
    if max == 0 {
        return String::new();
    }
    let chars = chars_of(s);
    if chars.len() <= max {
        return String::from_str(s);
    }
    let mut out = string_of(&chars.as_slice()[0..max - 1]);
    push_char(&mut out, '…');
    assert(chars@.subrange(0, max - 1) =~= chars@.take(max - 1));
    out
}

/// A truncated label never has more than `max` characters, and a label that
/// fits is kept whole.
pub proof fn law_truncate_fits(s: Seq<char>, max: nat)
    ensures
        spec_truncate(s, max).len() <= max,
        s.len() <= max && max > 0 ==> spec_truncate(s, max) == s,
{
}

/// The progress cell `pct% (answered)`: the percentage right-aligned in
/// three places, or `  —` when nothing was asked.
pub open spec fn spec_pct_resp(score: u32, max: u32, resp: usize) -> Seq<char> {
    let pct = if max == 0 {
        seq![' ', ' ', '—']
    } else {
        spec_pad_left(spec_decimal(((score as int) * 100 / (max as int)) as nat), 3)
    };
    pct + seq!['%', ' ', '('] + spec_decimal(resp as nat) + seq![')']
}

pub fn pct_resp_str(score: u32, max: u32, resp: usize) -> (r: String)
    requires
        max > 0 ==> score * 100 <= u32::MAX,
    ensures
        r@ == spec_pct_resp(score, max, resp),
{
    let mut out = String::new();
    if max == 0 {
        push_char(&mut out, ' ');
        push_char(&mut out, ' ');
        push_char(&mut out, '—');
    } else {
        let mut d = String::new();
        push_decimal(&mut d, ((score * 100) / max) as u64);
        let dc = chars_of(d.as_str());
        push_padded(&mut out, dc.as_slice(), 3);
    }
    push_char(&mut out, '%');
    push_char(&mut out, ' ');
    push_char(&mut out, '(');
    push_decimal(&mut out, resp as u64);
    push_char(&mut out, ')');
    assert(out@ =~= spec_pct_resp(score, max, resp));
    out
}

/// The number of answered questions of the given level.
pub open spec fn answered_at(qs: Seq<Question>, r: Map<Seq<char>, u8>, level: u8) -> nat {
    sum_questions(qs, |q: Question| if q.level == level && r.contains_key(q.id@) { 1nat } else { 0nat })
}

/// Four right-aligned two-place counts, for levels 1 to 4.
pub open spec fn spec_diff_cells(c: Seq<nat>) -> Seq<char> {
    spec_pad_left(spec_decimal(c[0]), 2) + spec_pad_left(spec_decimal(c[1]), 2) + spec_pad_left(
        spec_decimal(c[2]),
        2,
    ) + spec_pad_left(spec_decimal(c[3]), 2)
}

fn count_answered_at(qs: &Vec<Question>, responses: &Responses, level: u8) -> (r: usize)
    ensures
        r == answered_at(qs@, responses@, level),
{
    let ghost f = |q: Question|
        if q.level == level && responses@.contains_key(q.id@) {
            1nat
        } else {
            0nat
        };
    let mut acc: usize = 0;
    let mut i: usize = 0;
    while i < qs.len()
        invariant
            i <= qs@.len(),
            forall|q: Question| #[trigger]
                f(q) == if q.level == level && responses@.contains_key(q.id@) {
                    1nat
                } else {
                    0nat
                },
            acc == sum_questions(qs@.take(i as int), f),
        decreases qs@.len() - i,
    {
        proof {
            lemma_sum_step(qs@, f, i as int);
            lemma_sum_count(qs@.take(i + 1), f);
        }
        if qs[i].level == level && responses.contains_key(qs[i].id.as_str()) {
            acc = acc + 1;
        }
        i = i + 1;
    }
    assert(qs@.take(qs@.len() as int) =~= qs@);
    acc
}

fn push_cells(out: &mut String, c1: usize, c2: usize, c3: usize, c4: usize)
    ensures
        final(out)@ == old(out)@ + spec_diff_cells(seq![c1 as nat, c2 as nat, c3 as nat, c4 as nat]),
{
    let ghost start = out@;
    let mut d = String::new();
    push_decimal(&mut d, c1 as u64);
    push_padded(out, chars_of(d.as_str()).as_slice(), 2);
    let mut d = String::new();
    push_decimal(&mut d, c2 as u64);
    push_padded(out, chars_of(d.as_str()).as_slice(), 2);
    let mut d = String::new();
    push_decimal(&mut d, c3 as u64);
    push_padded(out, chars_of(d.as_str()).as_slice(), 2);
    let mut d = String::new();
    push_decimal(&mut d, c4 as u64);
    push_padded(out, chars_of(d.as_str()).as_slice(), 2);
    assert(out@ =~= start + spec_diff_cells(seq![c1 as nat, c2 as nat, c3 as nat, c4 as nat]));
}

/// Answered questions of the topic per level 1–4, as four two-place cells.
pub fn diff_str_topic(topic: &TopicData, responses: &Responses) -> (r: String)
    ensures
        r@ == spec_diff_cells(
            seq![
                answered_at(topic.questions@, responses@, 1),
                answered_at(topic.questions@, responses@, 2),
                answered_at(topic.questions@, responses@, 3),
                answered_at(topic.questions@, responses@, 4),
            ],
        ),
{
    let c1 = count_answered_at(&topic.questions, responses, 1);
    let c2 = count_answered_at(&topic.questions, responses, 2);
    let c3 = count_answered_at(&topic.questions, responses, 3);
    let c4 = count_answered_at(&topic.questions, responses, 4);
    let mut out = String::new();
    push_cells(&mut out, c1, c2, c3, c4);
    assert(seq![c1 as nat, c2 as nat, c3 as nat, c4 as nat] =~= seq![
        answered_at(topic.questions@, responses@, 1),
        answered_at(topic.questions@, responses@, 2),
        answered_at(topic.questions@, responses@, 3),
        answered_at(topic.questions@, responses@, 4),
    ]);
    out
}

/// Answered questions of the given level over all topics.
pub open spec fn answered_at_all(ts: Seq<TopicData>, r: Map<Seq<char>, u8>, level: u8) -> nat {
    sum_topics(ts, |t: TopicData| answered_at(t.questions@, r, level))
}

fn count_answered_at_all(topics: &[TopicData], responses: &Responses, level: u8) -> (r: usize)
    requires
        answered_at_all(topics@, responses@, level) <= usize::MAX,
    ensures
        r == answered_at_all(topics@, responses@, level),
{
    let ghost f = |t: TopicData| answered_at(t.questions@, responses@, level);
    let mut acc: usize = 0;
    let mut i: usize = 0;
    while i < topics.len()
        invariant
            i <= topics@.len(),
            forall|t: TopicData| #[trigger] f(t) == answered_at(t.questions@, responses@, level),
            acc == sum_topics(topics@.take(i as int), f),
            sum_topics(topics@, f) <= usize::MAX,
        decreases topics@.len() - i,
    {
        proof {
            crate::models::lemma_sum_topics_step(topics@, f, i as int);
            crate::models::lemma_sum_topics_prefix(topics@, f, i + 1);
        }
        acc = acc + count_answered_at(&topics[i].questions, responses, level);
        i = i + 1;
    }
    assert(topics@.take(topics@.len() as int) =~= topics@);
    acc
}

/// Answered questions over all topics per level 1–4, as four two-place cells.
pub fn diff_str_topics(topics: &[TopicData], responses: &Responses) -> (r: String)
    requires
        forall|l: u8| 1 <= l <= 4 ==> #[trigger] answered_at_all(topics@, responses@, l) <= usize::MAX,
    ensures
        r@ == spec_diff_cells(
            seq![
                answered_at_all(topics@, responses@, 1),
                answered_at_all(topics@, responses@, 2),
                answered_at_all(topics@, responses@, 3),
                answered_at_all(topics@, responses@, 4),
            ],
        ),
{
    assert(answered_at_all(topics@, responses@, 1) <= usize::MAX);
    assert(answered_at_all(topics@, responses@, 2) <= usize::MAX);
    assert(answered_at_all(topics@, responses@, 3) <= usize::MAX);
    assert(answered_at_all(topics@, responses@, 4) <= usize::MAX);
    let c1 = count_answered_at_all(topics, responses, 1);
    let c2 = count_answered_at_all(topics, responses, 2);
    let c3 = count_answered_at_all(topics, responses, 3);
    let c4 = count_answered_at_all(topics, responses, 4);
    let mut out = String::new();
    push_cells(&mut out, c1, c2, c3, c4);
    assert(seq![c1 as nat, c2 as nat, c3 as nat, c4 as nat] =~= seq![
        answered_at_all(topics@, responses@, 1),
        answered_at_all(topics@, responses@, 2),
        answered_at_all(topics@, responses@, 3),
        answered_at_all(topics@, responses@, 4),
    ]);
    out
}

} // verus!

verus! {

use crate::tui::app::{Filter, FilterMode, FilterSource, SearchState};
use crate::tui::state::{AppState, AppView, visible};

/// The filter badge of the header: the pending sequence (`[f_]`, `[fa_]`,
/// `[fu_]`) or the active filter's label in brackets.
pub open spec fn spec_filter_badge(mode: FilterMode, f: Filter) -> Seq<char> {
    match mode {
        FilterMode::PendingLetter => seq!['[', 'f', '_', ']'],
        FilterMode::PendingLevel(src) => seq!['[', 'f', if src == FilterSource::Ai { 'a' } else { 'u' }, '_', ']'],
        FilterMode::Normal => if f.level is Some || f.source is Some {
            seq!['['] + f.spec_label() + seq![']']
        } else {
            seq![]
        },
    }
}

/// The header's status: the filter badge, then `shown/total` while a filter
/// or a search narrows the list, or just `total`.
pub open spec fn spec_header_status(v: AppView) -> Seq<char> {
    let total = v.topics[v.current_topic].questions@.len();
    let narrowed = v.filter.level is Some || v.filter.source is Some || v.search is Some;
    let count = if narrowed {
        spec_decimal(visible(v).len()) + seq!['/'] + spec_decimal(total)
    } else {
        spec_decimal(total)
    };
    let badge = spec_filter_badge(v.filter_mode, v.filter);
    if badge.len() == 0 {
        count
    } else {
        badge + seq![' '] + count
    }
}

impl AppState {
    /// The status shown at the right of the header.
    pub fn header_status(&self) -> (r: String)
        requires
            self.wf(),
        ensures
            r@ == spec_header_status(self@),
    {
        let shown = self.topic_questions().len();
        let total = self.topics[self.current_topic].questions.len();
        let mut badge = String::new();
        match self.filter_mode {
            FilterMode::PendingLetter => {
                push_char(&mut badge, '[');
                push_char(&mut badge, 'f');
                push_char(&mut badge, '_');
                push_char(&mut badge, ']');
            },
            FilterMode::PendingLevel(src) => {
                push_char(&mut badge, '[');
                push_char(&mut badge, 'f');
                push_char(&mut badge, if src == FilterSource::Ai { 'a' } else { 'u' });
                push_char(&mut badge, '_');
                push_char(&mut badge, ']');
            },
            FilterMode::Normal => {
                if self.filter.is_active() {
                    push_char(&mut badge, '[');
                    let l = self.filter.label();
                    push_chars(&mut badge, chars_of(l.as_str()).as_slice());
                    push_char(&mut badge, ']');
                }
            },
        }
        assert(badge@ =~= spec_filter_badge(self.filter_mode, self.filter));
        let mut out = String::new();
        let bc = chars_of(badge.as_str());
        if bc.len() > 0 {
            push_chars(&mut out, bc.as_slice());
            push_char(&mut out, ' ');
        }
        if self.filter.is_active() || self.search.is_some() {
            push_decimal(&mut out, shown as u64);
            push_char(&mut out, '/');
        }
        push_decimal(&mut out, total as u64);
        assert(out@ =~= spec_header_status(self@));
        out
    }
}

/// The search line's tail: nothing for an empty query, `  no matches`, or
/// the cursor's place among the matches with the navigation hint.
pub open spec fn spec_search_status(query: Seq<char>, n: nat, cursor: nat) -> Seq<char> {
    if query.len() == 0 {
        seq![]
    } else if n == 0 {
        seq![' ', ' ', 'n', 'o', ' ', 'm', 'a', 't', 'c', 'h', 'e', 's']
    } else {
        seq![' ', ' '] + spec_decimal(cursor + 1) + seq!['/'] + spec_decimal(n) + seq![
            ' ',
            'm',
            'a',
            't',
            'c',
            'h',
            'e',
            's',
            ' ',
            ' ',
            'T',
            'a',
            'b',
            '/',
            'S',
            '-',
            'T',
            'a',
            'b',
            ' ',
            'n',
            'a',
            'v',
            'i',
            'g',
            'a',
            't',
            'e',
            ' ',
            ' ',
            'E',
            's',
            'c',
            ' ',
            'c',
            'l',
            'e',
            'a',
            'r',
        ]
    }
}

/// The text after the query on the search line.
pub fn search_status(s: &SearchState) -> (r: String)
    requires
        s.cursor < usize::MAX,
    ensures
        r@ == spec_search_status(s.query@, s.matches@.len(), s.cursor as nat),
{
    let mut out = String::new();
    if s.query.as_str().is_empty() {
        return out;
    }
    if s.matches.len() == 0 {
        let t = chars_of("  no matches");
        proof {
            reveal_strlit("  no matches");
        }
        push_chars(&mut out, t.as_slice());
        assert(out@ =~= spec_search_status(s.query@, s.matches@.len(), s.cursor as nat));
        return out;
    }
    push_char(&mut out, ' ');
    push_char(&mut out, ' ');
    push_decimal(&mut out, (s.cursor + 1) as u64);
    push_char(&mut out, '/');
    push_decimal(&mut out, s.matches.len() as u64);
    let t = chars_of(" matches  Tab/S-Tab navigate  Esc clear");
    proof {
        reveal_strlit(" matches  Tab/S-Tab navigate  Esc clear");
    }
    push_chars(&mut out, t.as_slice());
    assert(out@ =~= spec_search_status(s.query@, s.matches@.len(), s.cursor as nat));
    out
}

/// A card's title: `[L<level>] Q<position>/<count> `.
pub open spec fn spec_card_title(level: u8, v_idx: nat, total: nat) -> Seq<char> {
    seq!['[', 'L'] + spec_decimal(level as nat) + seq![']', ' ', 'Q'] + spec_decimal(v_idx + 1)
        + seq!['/'] + spec_decimal(total) + seq![' ']
}

pub fn card_title(level: u8, v_idx: usize, total: usize) -> (r: String)
    requires
        v_idx < usize::MAX,
    ensures
        r@ == spec_card_title(level, v_idx as nat, total as nat),
{
    let mut out = String::new();
    push_char(&mut out, '[');
    push_char(&mut out, 'L');
    push_decimal(&mut out, level as u64);
    push_char(&mut out, ']');
    push_char(&mut out, ' ');
    push_char(&mut out, 'Q');
    push_decimal(&mut out, (v_idx + 1) as u64);
    push_char(&mut out, '/');
    push_decimal(&mut out, total as u64);
    push_char(&mut out, ' ');
    assert(out@ =~= spec_card_title(level, v_idx as nat, total as nat));
    out
}

/// The score mark before a card's title: two spaces when unscored, else the
/// score and a space.
pub open spec fn spec_score_mark(score: Option<u8>) -> Seq<char> {
    match score {
        None => seq![' ', ' '],
        Some(n) => spec_decimal(n as nat) + seq![' '],
    }
}

pub fn score_mark(score: Option<u8>) -> (r: String)
    ensures
        r@ == spec_score_mark(score),
{
    let mut out = String::new();
    match score {
        None => {
            push_char(&mut out, ' ');
            push_char(&mut out, ' ');
        },
        Some(n) => {
            push_decimal(&mut out, n as u64);
            push_char(&mut out, ' ');
        },
    }
    assert(out@ =~= spec_score_mark(score));
    out
}

/// The name of a level: BASIC, INTERMEDIATE, ADVANCED, EXPERT (empty for
/// any other level).
pub open spec fn spec_level_banner(level: u8) -> Seq<char> {
    if level == 1 {
        seq!['B', 'A', 'S', 'I', 'C']
    } else if level == 2 {
        seq!['I', 'N', 'T', 'E', 'R', 'M', 'E', 'D', 'I', 'A', 'T', 'E']
    } else if level == 3 {
        seq!['A', 'D', 'V', 'A', 'N', 'C', 'E', 'D']
    } else if level == 4 {
        seq!['E', 'X', 'P', 'E', 'R', 'T']
    } else {
        seq![]
    }
}

/// The label of a section separator: ` <NAME> · L<n> `, with `✦ AI `
/// before the name for generated questions.
pub open spec fn spec_section_label(level: u8, ai: bool) -> Seq<char> {
    (if ai {
        seq![' ', '✦', ' ', 'A', 'I', ' ']
    } else {
        seq![' ']
    }) + spec_level_banner(level) + seq![' ', '·', ' ', 'L'] + spec_decimal(level as nat) + seq![' ']
}

pub fn section_label(level: u8, ai: bool) -> (r: String)
    ensures
        r@ == spec_section_label(level, ai),
{
    let mut out = String::new();
    push_char(&mut out, ' ');
    if ai {
        push_char(&mut out, '✦');
        push_char(&mut out, ' ');
        push_char(&mut out, 'A');
        push_char(&mut out, 'I');
        push_char(&mut out, ' ');
    }
    let name = if level == 1 {
        proof {
            reveal_strlit("BASIC");
        }
        chars_of("BASIC")
    } else if level == 2 {
        proof {
            reveal_strlit("INTERMEDIATE");
        }
        chars_of("INTERMEDIATE")
    } else if level == 3 {
        proof {
            reveal_strlit("ADVANCED");
        }
        chars_of("ADVANCED")
    } else if level == 4 {
        proof {
            reveal_strlit("EXPERT");
        }
        chars_of("EXPERT")
    } else {
        Vec::new()
    };
    assert(name@ =~= spec_level_banner(level));
    push_chars(&mut out, name.as_slice());
    push_char(&mut out, ' ');
    push_char(&mut out, '·');
    push_char(&mut out, ' ');
    push_char(&mut out, 'L');
    push_decimal(&mut out, level as u64);
    push_char(&mut out, ' ');
    assert(out@ =~= spec_section_label(level, ai));
    out
}

} // verus!

verus! {

use crate::text::{spec_join_with, join_strings};

/// The keywords of one depth as shown on a card: `—` when there are none,
/// else joined with `, `.
pub open spec fn spec_keyword_text(kws: Seq<Seq<char>>) -> Seq<char> {
    if kws.len() == 0 {
        seq!['—']
    } else {
        spec_join_with(kws, seq![',', ' '])
    }
}

/// A card's keyword line for depth `level_idx + 1`: the label `[n]` and the
/// keywords after a space, cut to the card's width less five characters.
pub fn keyword_line(level_idx: usize, kws: &[String], width: usize) -> (r: (String, String))
    requires
        level_idx < usize::MAX,
    ensures
        r.0@ == seq!['['] + spec_decimal(((level_idx + 1) as u8) as nat) + seq![']'],
        r.1@ == seq![' '] + spec_truncate(
            spec_keyword_text(kws@.map_values(|s: String| s@)),
            (if width >= 5 { width - 5 } else { 0 }) as nat,
        ),
{
    let mut label = String::new();
    push_char(&mut label, '[');
    push_decimal(&mut label, ((level_idx + 1) as u8) as u64);
    push_char(&mut label, ']');
    let text = if kws.len() == 0 {
        let mut t = String::new();
        push_char(&mut t, '—');
        t
    } else {
        join_strings(kws, ", ")
    };
    proof {
        reveal_strlit(", ");
        assert(", "@ =~= seq![',', ' ']);
        if kws@.len() == 0 {
            assert(text@ =~= seq!['—']);
        }
    }
    let w = if width >= 5 {
        width - 5
    } else {
        0
    };
    let cut = truncate(text.as_str(), w);
    let mut body = String::new();
    push_char(&mut body, ' ');
    push_chars(&mut body, chars_of(cut.as_str()).as_slice());
    (label, body)
}

/// The number of questions the interviewer wrote (not generated).
pub open spec fn spec_written(qs: Seq<Question>) -> nat {
    sum_questions(qs, |q: Question| if !q.ai_generated { 1nat } else { 0nat })
}

/// How many of the questions were written rather than generated.
pub fn written_count(qs: &Vec<Question>) -> (r: usize)
    ensures
        r == spec_written(qs@),
{
    let ghost f = |q: Question| if !q.ai_generated { 1nat } else { 0nat };
    let mut acc: usize = 0;
    let mut i: usize = 0;
    while i < qs.len()
        invariant
            i <= qs@.len(),
            forall|q: Question| #[trigger] f(q) == if !q.ai_generated { 1nat } else { 0nat },
            acc == sum_questions(qs@.take(i as int), f),
        decreases qs@.len() - i,
    {
        proof {
            lemma_sum_step(qs@, f, i as int);
            lemma_sum_count(qs@.take(i + 1), f);
        }
        if !qs[i].ai_generated {
            acc = acc + 1;
        }
        i = i + 1;
    }
    assert(qs@.take(qs@.len() as int) =~= qs@);
    acc
}

} // verus!
