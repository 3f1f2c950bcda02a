//! Session state and the key-press state machine.

use vstd::prelude::*;
use crate::models::{Question, TopicData};
use crate::qb::string_views;
use crate::text::{chars_of, contains, spec_contains, spec_lowercase, to_lowercase};

verus! {

// ── Filter ───────────────────────────────────────────────────────────────────

/// Who wrote a question: the interviewer's own bank or the generator.
#[derive(Clone, Copy, Debug, PartialEq, Eq, Structural)]
pub enum FilterSource {
    User,
    Ai,
}

/// Restricts the question list by level and by source.
#[derive(Clone, Copy, Debug)]
pub struct Filter {
    pub level: Option<u8>,
    pub source: Option<FilterSource>,
}

impl Filter {
    /// The filter that lets every question through.
    pub fn none() -> (r: Filter)
        ensures
            r.level is None,
            r.source is None,
    {
        Filter { level: None, source: None }
    }

    /// Whether the filter restricts anything.
    pub fn is_active(&self) -> (r: bool)
        ensures
            r == (self.level is Some || self.source is Some),
    {
        self.level.is_some() || self.source.is_some()
    }

    pub open spec fn spec_matches(self, q: Question) -> bool {
        &&& (self.level matches Some(l) ==> q.level == l)
        &&& (self.source matches Some(s) ==> (q.ai_generated <==> s == FilterSource::Ai))
    }

    /// Whether `q` has the filter's level and source.
    pub fn matches(&self, q: &Question) -> (r: bool)
        ensures
            r == self.spec_matches(*q),
    {
        if let Some(lvl) = self.level {
            if q.level != lvl {
                return false;
            }
        }
        if let Some(src) = self.source {
            match src {
                FilterSource::User => {
                    if q.ai_generated {
                        return false;
                    }
                },
                FilterSource::Ai => {
                    if !q.ai_generated {
                        return false;
                    }
                },
            }
        }
        true
    }

    /// The badge text: `L<n>`, `USER` or `AI`, or both joined by `·`;
    /// empty for an inactive filter.
    pub open spec fn spec_label(self) -> Seq<char> {
        let src = match self.source {
            Some(FilterSource::User) => seq!['U', 'S', 'E', 'R'],
            Some(FilterSource::Ai) => seq!['A', 'I'],
            None => seq![],
        };
        match self.level {
            Some(l) => if self.source is Some {
                seq!['L'] + crate::text::spec_decimal(l as nat) + seq!['·'] + src
            } else {
                seq!['L'] + crate::text::spec_decimal(l as nat)
            },
            None => src,
        }
    }

    /// The badge shown while the filter is active.
    pub fn label(&self) -> (r: String)
        ensures
            r@ == self.spec_label(),
    {
        let mut out = String::new();
        if let Some(l) = self.level {
            crate::text::push_char(&mut out, 'L');
            crate::text::push_decimal(&mut out, l as u64);
            if self.source.is_some() {
                crate::text::push_char(&mut out, '·');
            }
        }
        match self.source {
            Some(FilterSource::User) => {
                crate::text::push_char(&mut out, 'U');
                crate::text::push_char(&mut out, 'S');
                crate::text::push_char(&mut out, 'E');
                crate::text::push_char(&mut out, 'R');
            },
            Some(FilterSource::Ai) => {
                crate::text::push_char(&mut out, 'A');
                crate::text::push_char(&mut out, 'I');
            },
            None => {},
        }
        assert(out@ =~= self.spec_label());
        out
    }
}

/// An inactive filter lets every question through and shows no badge.
pub proof fn law_inactive_filter_passes_all(f: Filter, q: Question)
    requires
        !(f.level is Some || f.source is Some),
    ensures
        f.spec_matches(q),
        f.spec_label().len() == 0,
{
}

/// Where a filter key sequence stands: `f`, then a level or a source letter,
/// then (after a source letter) a level.
pub enum FilterMode {
    Normal,
    PendingLetter,
    PendingLevel(FilterSource),
}

// ── Search ───────────────────────────────────────────────────────────────────

/// What a search looks through.
#[derive(Clone, Copy, Debug, PartialEq, Eq, Structural)]
pub enum SearchScope {
    InTopic,
    AllTopics,
    TopicName,
}

/// Whether a question's text or one of its keywords contains the
/// (already lower-cased) query, compared in lower case; an empty query
/// matches every question.
pub open spec fn spec_question_matches(q: Question, query_lower: Seq<char>) -> bool {
    ||| query_lower.len() == 0
    ||| spec_contains(spec_lowercase(q.text@), query_lower)
    ||| exists|k: int, j: int|
        0 <= k < 4 && 0 <= j < q.keywords@[k]@.len() && spec_contains(
            spec_lowercase(#[trigger] q.keywords@[k]@[j]@),
            query_lower,
        )
}

/// Whether the query is empty or is contained in the lower-cased text or in
/// one of the lower-cased keywords.
pub open spec fn spec_lowered_matches(text: Seq<char>, kws: Seq<Seq<Seq<char>>>, query: Seq<char>) -> bool {
    ||| query.len() == 0
    ||| spec_contains(text, query)
    ||| exists|k: int, j: int| 0 <= k < 4 && 0 <= j < kws[k].len() && spec_contains(#[trigger] kws[k][j], query)
}

/// The keywords by level, as text.
pub open spec fn keyword_views(kws: [Vec<String>; 4]) -> Seq<Seq<Seq<char>>> {
    kws@.map_values(|v: Vec<String>| string_views(v@))
}

/// Whether a question, given as its lower-cased text and lower-cased
/// keywords, matches the lower-cased query.
pub fn lowered_matches(text_lower: &str, keywords_lower: &[Vec<String>; 4], query_lower: &str) -> (r: bool)
    ensures
        r == spec_lowered_matches(text_lower@, keyword_views(*keywords_lower), query_lower@),
{
    let ghost kv = keyword_views(*keywords_lower);
    let ql = chars_of(query_lower);
    if ql.len() == 0 {
        return true;
    }
    let text = chars_of(text_lower);
    if contains(text.as_slice(), ql.as_slice()) {
        return true;
    }
    let mut k: usize = 0;
    while k < 4
        invariant
            k <= 4,
            kv == keyword_views(*keywords_lower),
            ql@ == query_lower@,
            ql@.len() > 0,
            !spec_contains(text_lower@, ql@),
            forall|kk: int, j: int|
                0 <= kk < k && 0 <= j < kv[kk].len() ==> !spec_contains(#[trigger] kv[kk][j], ql@),
        decreases 4 - k,
    {
        let kws = &keywords_lower[k];
        assert(kv[k as int] == string_views(kws@));
        let mut j: usize = 0;
        while j < kws.len()
            invariant
                k < 4,
                kv == keyword_views(*keywords_lower),
                kv[k as int] == string_views(kws@),
                j <= kws@.len(),
                ql@ == query_lower@,
                forall|kk: int, jj: int|
                    0 <= kk < k && 0 <= jj < kv[kk].len() ==> !spec_contains(#[trigger] kv[kk][jj], ql@),
                forall|jj: int| 0 <= jj < j ==> !spec_contains(#[trigger] kv[k as int][jj], ql@),
            decreases kws@.len() - j,
        {
            let kw = chars_of(kws[j].as_str());
            assert(kv[k as int][j as int] == kws@[j as int]@);
            if contains(kw.as_slice(), ql.as_slice()) {
                return true;
            }
            j = j + 1;
        }
        k = k + 1;
    }
    false
}

fn lower_all(v: &Vec<String>) -> (r: Vec<String>)
    ensures
        r@.len() == v@.len(),
        forall|i: int| 0 <= i < v@.len() ==> (#[trigger] r@[i])@ == spec_lowercase(v@[i]@),
{
    let mut out: Vec<String> = Vec::new();
    let mut i: usize = 0;
    while i < v.len()
        invariant
            i <= v@.len(),
            out@.len() == i,
            forall|k: int| 0 <= k < i ==> (#[trigger] out@[k])@ == spec_lowercase(v@[k]@),
        decreases v@.len() - i,
    {
        let l = to_lowercase(v[i].as_str());
        out.push(l);
        i = i + 1;
    }
    out
}

/// Whether `q` matches the lower-cased query.
pub fn question_matches_query(q: &Question, query_lower: &str) -> (r: bool)
    ensures
        r == spec_question_matches(*q, query_lower@),
{
    let text = to_lowercase(q.text.as_str());
    let kws: [Vec<String>; 4] = [
        lower_all(&q.keywords[0]),
        lower_all(&q.keywords[1]),
        lower_all(&q.keywords[2]),
        lower_all(&q.keywords[3]),
    ];
    let r = lowered_matches(text.as_str(), &kws, query_lower);
    proof {
        let kv = keyword_views(kws);
        assert forall|k: int, j: int| 0 <= k < 4 && 0 <= j < q.keywords@[k]@.len() implies kv[k].len()
            == q.keywords@[k]@.len() && #[trigger] kv[k][j] == spec_lowercase(q.keywords@[k]@[j]@) by {
            assert(kv[k] == string_views(kws@[k]@));
            assert(kv[k][j] == kws@[k]@[j]@);
        }
        assert forall|k: int| 0 <= k < 4 implies #[trigger] kv[k].len() == q.keywords@[k]@.len() by {
            assert(kv[k] == string_views(kws@[k]@));
        }
        if spec_question_matches(*q, query_lower@) && query_lower@.len() > 0 && !spec_contains(
            spec_lowercase(q.text@),
            query_lower@,
        ) {
            let (k, j) = choose|k: int, j: int|
                0 <= k < 4 && 0 <= j < q.keywords@[k]@.len() && spec_contains(
                    spec_lowercase(#[trigger] q.keywords@[k]@[j]@),
                    query_lower@,
                );
            assert(spec_contains(kv[k][j], query_lower@));
        }
        if r && query_lower@.len() > 0 && !spec_contains(spec_lowercase(q.text@), query_lower@) {
            let (k, j) = choose|k: int, j: int| 0 <= k < 4 && 0 <= j < kv[k].len() && spec_contains(#[trigger] kv[k][j], query_lower@);
            assert(spec_contains(spec_lowercase(q.keywords@[k]@[j]@), query_lower@));
        }
    }
    r
}

} // verus!

verus! {

/// A search in progress.
pub struct SearchState {
    pub scope: SearchScope,
    pub query: String,
    /// `(topic index, question index in the topic's own list)`; for a topic
    /// name search `(topic index, 0)`.
    pub matches: Vec<(usize, usize)>,
    pub cursor: usize,
}

/// Topics among the first `n` whose lower-cased name contains `q`.
pub open spec fn topic_hits(topics: Seq<TopicData>, q: Seq<char>, n: nat) -> Seq<(usize, usize)>
    decreases n,
{
    if n == 0 {
        seq![]
    } else {
        topic_hits(topics, q, (n - 1) as nat) + if spec_contains(
            spec_lowercase(topics[n - 1].name@),
            q,
        ) {
            seq![((n - 1) as usize, 0usize)]
        } else {
            seq![]
        }
    }
}

/// Questions among the first `n` of topic `ti` that match `q`.
pub open spec fn question_hits(topics: Seq<TopicData>, ti: int, q: Seq<char>, n: nat) -> Seq<
    (usize, usize),
>
    decreases n,
{
    if n == 0 {
        seq![]
    } else {
        question_hits(topics, ti, q, (n - 1) as nat) + if spec_question_matches(
            topics[ti].questions@[n - 1],
            q,
        ) {
            seq![(ti as usize, (n - 1) as usize)]
        } else {
            seq![]
        }
    }
}

/// Matching questions of the first `n` topics, topic by topic.
pub open spec fn all_hits(topics: Seq<TopicData>, q: Seq<char>, n: nat) -> Seq<(usize, usize)>
    decreases n,
{
    if n == 0 {
        seq![]
    } else {
        all_hits(topics, q, (n - 1) as nat) + question_hits(
            topics,
            n - 1,
            q,
            topics[n - 1].questions@.len(),
        )
    }
}

/// The matches of a search for the lower-cased query `q`.
pub open spec fn spec_search_matches(
    scope: SearchScope,
    topics: Seq<TopicData>,
    current_topic: int,
    q: Seq<char>,
) -> Seq<(usize, usize)> {
    match scope {
        SearchScope::TopicName => topic_hits(topics, q, topics.len()),
        SearchScope::InTopic => if 0 <= current_topic < topics.len() {
            question_hits(topics, current_topic, q, topics[current_topic].questions@.len())
        } else {
            seq![]
        },
        SearchScope::AllTopics => all_hits(topics, q, topics.len()),
    }
}

/// The cursor kept within the matches (0 when there are none).
pub open spec fn clamp_cursor(cursor: int, n: int) -> int {
    if n == 0 {
        0
    } else if cursor < n - 1 {
        cursor
    } else {
        n - 1
    }
}

fn push_question_hits(
    out: &mut Vec<(usize, usize)>,
    topics: &[TopicData],
    ti: usize,
    q: &str,
)
    requires
        ti < topics@.len(),
    ensures
        final(out)@ == old(out)@ + question_hits(
            topics@,
            ti as int,
            q@,
            topics@[ti as int].questions@.len(),
        ),
{
    let qs = &topics[ti].questions;
    let ghost start = out@;
    let mut qi: usize = 0;
    while qi < qs.len()
        invariant
            ti < topics@.len(),
            *qs == topics@[ti as int].questions,
            qi <= qs@.len(),
            out@ == start + question_hits(topics@, ti as int, q@, qi as nat),
        decreases qs@.len() - qi,
    {
        if question_matches_query(&qs[qi], q) {
            out.push((ti, qi));
        }
        proof {
            assert(question_hits(topics@, ti as int, q@, (qi + 1) as nat) == question_hits(
                topics@,
                ti as int,
                q@,
                qi as nat,
            ) + if spec_question_matches(topics@[ti as int].questions@[qi as int], q@) {
                seq![(ti, qi)]
            } else {
                seq![]
            });
            assert(out@ =~= start + question_hits(topics@, ti as int, q@, (qi + 1) as nat));
        }
        qi = qi + 1;
    }
}

impl SearchState {
    /// An empty search of the given scope.
    pub fn new(scope: SearchScope) -> (r: SearchState)
        ensures
            r.scope == scope,
            r.query@.len() == 0,
            r.matches@.len() == 0,
            r.cursor == 0,
    {
        SearchState { scope, query: String::new(), matches: Vec::new(), cursor: 0 }
    }

    /// Recomputes the matches for the current query and keeps the cursor
    /// within them.
    pub fn recompute(&mut self, topics: &[TopicData], current_topic: usize)
        ensures
            final(self).scope == old(self).scope,
            final(self).query == old(self).query,
            final(self).matches@ == spec_search_matches(
                old(self).scope,
                topics@,
                current_topic as int,
                spec_lowercase(old(self).query@),
            ),
            final(self).cursor == clamp_cursor(old(self).cursor as int, final(self).matches@.len() as int),
    {
        self.matches.clear();
        let ql = to_lowercase(self.query.as_str());
        let q = ql.as_str();
        match self.scope {
            SearchScope::TopicName => {
                let mut ti: usize = 0;
                while ti < topics.len()
                    invariant
                        ti <= topics@.len(),
                        self.scope == old(self).scope,
                        self.query == old(self).query,
                        self.cursor == old(self).cursor,
                        self.matches@ == topic_hits(topics@, q@, ti as nat),
                    decreases topics@.len() - ti,
                {
                    let name = chars_of(to_lowercase(topics[ti].name.as_str()).as_str());
                    let ql2 = chars_of(q);
                    if contains(name.as_slice(), ql2.as_slice()) {
                        self.matches.push((ti, 0));
                    }
                    assert(self.matches@ =~= topic_hits(topics@, q@, (ti + 1) as nat));
                    ti = ti + 1;
                }
            },
            SearchScope::InTopic => {
                if current_topic < topics.len() {
                    push_question_hits(&mut self.matches, topics, current_topic, q);
                    assert(self.matches@ =~= spec_search_matches(
                        self.scope,
                        topics@,
                        current_topic as int,
                        q@,
                    ));
                }
            },
            SearchScope::AllTopics => {
                let mut ti: usize = 0;
                while ti < topics.len()
                    invariant
                        ti <= topics@.len(),
                        self.scope == old(self).scope,
                        self.query == old(self).query,
                        self.cursor == old(self).cursor,
                        self.matches@ == all_hits(topics@, q@, ti as nat),
                    decreases topics@.len() - ti,
                {
                    push_question_hits(&mut self.matches, topics, ti, q);
                    ti = ti + 1;
                }
            },
        }
        let n = self.matches.len();
        let top = if n > 0 {
            n - 1
        } else {
            0
        };
        if self.cursor > top {
            self.cursor = top;
        }
    }

    /// The character shown before the query: `/` in a topic, `?` across
    /// topics, `t` for topic names.
    pub fn prefix_char(&self) -> (r: char)
        ensures
            r == match self.scope {
                SearchScope::InTopic => '/',
                SearchScope::AllTopics => '?',
                SearchScope::TopicName => 't',
            },
    {
        match self.scope {
            SearchScope::InTopic => '/',
            SearchScope::AllTopics => '?',
            SearchScope::TopicName => 't',
        }
    }
}


// ── What a search finds ──────────────────────────────────────────────────────

proof fn lemma_question_hits(topics: Seq<TopicData>, ti: int, q: Seq<char>, n: nat)
    requires
        0 <= ti < topics.len(),
        ti <= usize::MAX,
        n <= topics[ti].questions@.len(),
        n <= usize::MAX,
    ensures
        forall|k: int|
            0 <= k < question_hits(topics, ti, q, n).len() ==> {
                let h = #[trigger] question_hits(topics, ti, q, n)[k];
                &&& h.0 == ti
                &&& h.1 < n
                &&& spec_question_matches(topics[ti].questions@[h.1 as int], q)
            },
        forall|i: int|
            0 <= i < n && spec_question_matches(#[trigger] topics[ti].questions@[i], q) ==> question_hits(
                topics,
                ti,
                q,
                n,
            ).contains((ti as usize, i as usize)),
    decreases n,
{
    if n > 0 {
        let m = (n - 1) as nat;
        lemma_question_hits(topics, ti, q, m);
        let prev = question_hits(topics, ti, q, m);
        let cur = question_hits(topics, ti, q, n);
        assert forall|k: int| 0 <= k < cur.len() implies {
            let h = #[trigger] cur[k];
            &&& h.0 == ti
            &&& h.1 < n
            &&& spec_question_matches(topics[ti].questions@[h.1 as int], q)
        } by {
            if k < prev.len() {
                assert(cur[k] == prev[k]);
            }
        }
        assert forall|i: int| 0 <= i < n && spec_question_matches(#[trigger] topics[ti].questions@[i], q) implies cur.contains(
            (ti as usize, i as usize),
        ) by {
            if i < m {
                let j = choose|j: int| 0 <= j < prev.len() && prev[j] == (ti as usize, i as usize);
                assert(cur[j] == prev[j]);
            } else {
                assert(cur[prev.len() as int] == (ti as usize, i as usize));
            }
        }
    }
}

proof fn lemma_topic_hits(topics: Seq<TopicData>, q: Seq<char>, n: nat)
    requires
        n <= topics.len(),
        n <= usize::MAX,
    ensures
        forall|k: int|
            0 <= k < topic_hits(topics, q, n).len() ==> {
                let h = #[trigger] topic_hits(topics, q, n)[k];
                &&& h.0 < n
                &&& h.1 == 0
                &&& spec_contains(spec_lowercase(topics[h.0 as int].name@), q)
            },
        forall|i: int|
            0 <= i < n && spec_contains(spec_lowercase(#[trigger] topics[i].name@), q) ==> topic_hits(
                topics,
                q,
                n,
            ).contains((i as usize, 0usize)),
    decreases n,
{
    if n > 0 {
        let m = (n - 1) as nat;
        lemma_topic_hits(topics, q, m);
        let prev = topic_hits(topics, q, m);
        let cur = topic_hits(topics, q, n);
        assert forall|k: int| 0 <= k < cur.len() implies {
            let h = #[trigger] cur[k];
            &&& h.0 < n
            &&& h.1 == 0
            &&& spec_contains(spec_lowercase(topics[h.0 as int].name@), q)
        } by {
            if k < prev.len() {
                assert(cur[k] == prev[k]);
            }
        }
        assert forall|i: int| 0 <= i < n && spec_contains(spec_lowercase(#[trigger] topics[i].name@), q) implies cur.contains(
            (i as usize, 0usize),
        ) by {
            if i < m {
                let j = choose|j: int| 0 <= j < prev.len() && prev[j] == (i as usize, 0usize);
                assert(cur[j] == prev[j]);
            } else {
                assert(cur[prev.len() as int] == (i as usize, 0usize));
            }
        }
    }
}

proof fn lemma_all_hits(topics: Seq<TopicData>, q: Seq<char>, n: nat)
    requires
        n <= topics.len(),
        topics.len() <= usize::MAX,
        forall|i: int| 0 <= i < topics.len() ==> (#[trigger] topics[i]).questions@.len() <= usize::MAX,
    ensures
        forall|k: int|
            0 <= k < all_hits(topics, q, n).len() ==> {
                let h = #[trigger] all_hits(topics, q, n)[k];
                &&& h.0 < n
                &&& h.1 < topics[h.0 as int].questions@.len()
                &&& spec_question_matches(topics[h.0 as int].questions@[h.1 as int], q)
            },
        forall|ti: int, i: int|
            0 <= ti < n && 0 <= i < topics[ti].questions@.len() && spec_question_matches(
                #[trigger] topics[ti].questions@[i],
                q,
            ) ==> all_hits(topics, q, n).contains((ti as usize, i as usize)),
    decreases n,
{
    if n > 0 {
        let m = (n - 1) as nat;
        let t = n - 1;
        lemma_all_hits(topics, q, m);
        lemma_question_hits(topics, t, q, topics[t].questions@.len());
        let prev = all_hits(topics, q, m);
        let last = question_hits(topics, t, q, topics[t].questions@.len());
        let cur = all_hits(topics, q, n);
        assert(cur == prev + last);
        assert forall|k: int| 0 <= k < cur.len() implies {
            let h = #[trigger] cur[k];
            &&& h.0 < n
            &&& h.1 < topics[h.0 as int].questions@.len()
            &&& spec_question_matches(topics[h.0 as int].questions@[h.1 as int], q)
        } by {
            if k < prev.len() {
                assert(cur[k] == prev[k]);
            } else {
                assert(cur[k] == last[k - prev.len()]);
            }
        }
        assert forall|ti: int, i: int|
            0 <= ti < n && 0 <= i < topics[ti].questions@.len() && spec_question_matches(
                #[trigger] topics[ti].questions@[i],
                q,
            ) implies cur.contains((ti as usize, i as usize)) by {
            if ti < m {
                let j = choose|j: int| 0 <= j < prev.len() && prev[j] == (ti as usize, i as usize);
                assert(cur[j] == prev[j]);
            } else {
                let j = choose|j: int| 0 <= j < last.len() && last[j] == (ti as usize, i as usize);
                assert(cur[prev.len() + j] == last[j]);
            }
        }
    }
}

/// What a search finds for the lower-cased query `q`: a search in the
/// current topic finds exactly its questions that match; a search over all
/// topics finds exactly the questions of any topic that match; a search of
/// topic names finds exactly the topics whose lower-cased name contains
/// `q`.
pub proof fn law_search_finds_matches(topics: Seq<TopicData>, current_topic: int, q: Seq<char>)
    requires
        0 <= current_topic < topics.len(),
        topics.len() <= usize::MAX,
        forall|i: int| 0 <= i < topics.len() ==> (#[trigger] topics[i]).questions@.len() <= usize::MAX,
    ensures
        ({
            let m = spec_search_matches(SearchScope::InTopic, topics, current_topic, q);
            let qs = topics[current_topic].questions@;
            &&& forall|k: int|
                0 <= k < m.len() ==> (#[trigger] m[k]).0 == current_topic && m[k].1 < qs.len()
                    && spec_question_matches(qs[m[k].1 as int], q)
            &&& forall|i: int|
                0 <= i < qs.len() && spec_question_matches(#[trigger] qs[i], q) ==> m.contains(
                    (current_topic as usize, i as usize),
                )
        }),
        ({
            let m = spec_search_matches(SearchScope::AllTopics, topics, current_topic, q);
            &&& forall|k: int|
                0 <= k < m.len() ==> (#[trigger] m[k]).0 < topics.len() && m[k].1 < topics[m[k].0 as int].questions@.len()
                    && spec_question_matches(topics[m[k].0 as int].questions@[m[k].1 as int], q)
            &&& forall|ti: int, i: int|
                0 <= ti < topics.len() && 0 <= i < topics[ti].questions@.len() && spec_question_matches(
                    #[trigger] topics[ti].questions@[i],
                    q,
                ) ==> m.contains((ti as usize, i as usize))
        }),
        ({
            let m = spec_search_matches(SearchScope::TopicName, topics, current_topic, q);
            &&& forall|k: int|
                0 <= k < m.len() ==> (#[trigger] m[k]).0 < topics.len() && m[k].1 == 0 && spec_contains(
                    spec_lowercase(topics[m[k].0 as int].name@),
                    q,
                )
            &&& forall|i: int|
                0 <= i < topics.len() && spec_contains(spec_lowercase(#[trigger] topics[i].name@), q) ==> m.contains(
                    (i as usize, 0usize),
                )
        }),
{
    lemma_question_hits(topics, current_topic, q, topics[current_topic].questions@.len());
    lemma_all_hits(topics, q, topics.len());
    lemma_topic_hits(topics, q, topics.len());
}

} // verus!
