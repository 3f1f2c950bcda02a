//! Questions, topics, recorded responses and the scores derived from them.

use vstd::prelude::*;

verus! {

/// A single interview question loaded from a question bank file.
pub struct Question {
    /// Lower-case hex of the first eight bytes of the SHA-256 digest of
    /// `topic + "::" + text`: a stable content hash.
    pub id: String,
    pub topic: String,
    pub level: u8,
    pub text: String,
    /// Index 0 holds the level-1 keywords, index 3 the level-4 keywords.
    pub keywords: [Vec<String>; 4],
    /// True when the question heading carries the `[AI]` marker.
    pub ai_generated: bool,
}

/// A topic and the questions of its bank.
pub struct TopicData {
    pub name: String,
    pub questions: Vec<Question>,
}

/// One recorded score of a candidate on a question.
pub struct Response {
    pub candidate_id: i64,
    pub question_id: String,
    pub score: u8,
}

/// The scores recorded so far, keyed by question id.
pub type Responses = crate::keyed::StrMap<u8>;

} // verus!

verus! {

/// The score recorded for a question id, or 0 when none is recorded.
pub open spec fn score_of(r: Map<Seq<char>, u8>, id: Seq<char>) -> nat {
    if r.contains_key(id) {
        r[id] as nat
    } else {
        0
    }
}

/// The sum of `f` over a list of questions.
pub open spec fn sum_questions(qs: Seq<Question>, f: spec_fn(Question) -> nat) -> nat
    decreases qs.len(),
{
    if qs.len() == 0 {
        0
    } else {
        sum_questions(qs.drop_last(), f) + f(qs.last())
    }
}

/// Four points per level for every question.
pub open spec fn spec_max_score(qs: Seq<Question>) -> nat {
    sum_questions(qs, |q: Question| 4 * q.level as nat)
}

/// Four points per level for every question that has a recorded score.
pub open spec fn spec_max_score_asked(qs: Seq<Question>, r: Map<Seq<char>, u8>) -> nat {
    sum_questions(qs, |q: Question| if r.contains_key(q.id@) { 4 * q.level as nat } else { 0 })
}

/// The recorded score times the level, summed over the questions.
pub open spec fn spec_score(qs: Seq<Question>, r: Map<Seq<char>, u8>) -> nat {
    sum_questions(qs, |q: Question| score_of(r, q.id@) * q.level as nat)
}

/// The number of questions with a recorded score.
pub open spec fn spec_answered(qs: Seq<Question>, r: Map<Seq<char>, u8>) -> nat {
    sum_questions(qs, |q: Question| if r.contains_key(q.id@) { 1 } else { 0 })
}

pub proof fn lemma_sum_step(qs: Seq<Question>, f: spec_fn(Question) -> nat, i: int)
    requires
        0 <= i < qs.len(),
    ensures
        sum_questions(qs.take(i + 1), f) == sum_questions(qs.take(i), f) + f(qs[i]),
{
    assert(qs.take(i + 1).drop_last() =~= qs.take(i));
}

pub proof fn lemma_sum_prefix_le(qs: Seq<Question>, f: spec_fn(Question) -> nat, i: int)
    requires
        0 <= i <= qs.len(),
    ensures
        sum_questions(qs.take(i), f) <= sum_questions(qs, f),
    decreases qs.len() - i,
{
    if i < qs.len() {
        lemma_sum_step(qs, f, i);
        lemma_sum_prefix_le(qs, f, i + 1);
    } else {
        assert(qs.take(i) =~= qs);
    }
}

pub proof fn lemma_sum_le(qs: Seq<Question>, f: spec_fn(Question) -> nat, g: spec_fn(Question) -> nat)
    requires
        forall|k: int| 0 <= k < qs.len() ==> f(#[trigger] qs[k]) <= g(qs[k]),
    ensures
        sum_questions(qs, f) <= sum_questions(qs, g),
    decreases qs.len(),
{
    if qs.len() > 0 {
        assert forall|k: int| 0 <= k < qs.drop_last().len() implies f(#[trigger] qs.drop_last()[k])
            <= g(qs.drop_last()[k]) by {
            assert(qs.drop_last()[k] == qs[k]);
        }
        lemma_sum_le(qs.drop_last(), f, g);
        assert(f(qs[qs.len() - 1]) <= g(qs[qs.len() - 1]));
    }
}

pub proof fn lemma_sum_count(qs: Seq<Question>, f: spec_fn(Question) -> nat)
    requires
        forall|k: int| 0 <= k < qs.len() ==> f(#[trigger] qs[k]) <= 1,
    ensures
        sum_questions(qs, f) <= qs.len(),
    decreases qs.len(),
{
    if qs.len() > 0 {
        assert forall|k: int| 0 <= k < qs.drop_last().len() implies f(#[trigger] qs.drop_last()[k])
            <= 1 by {
            assert(qs.drop_last()[k] == qs[k]);
        }
        lemma_sum_count(qs.drop_last(), f);
        assert(f(qs[qs.len() - 1]) <= 1);
    }
}

impl TopicData {
    /// The points the topic is worth: four per level of each question.
    pub fn max_score(&self) -> (r: u32)
        requires
            spec_max_score(self.questions@) <= u32::MAX,
        ensures
            r == spec_max_score(self.questions@),
    {
        let ghost qs = self.questions@;
        let ghost f = |q: Question| 4 * q.level as nat;
        let mut acc: u32 = 0;
        let mut i: usize = 0;
        while i < self.questions.len()
            invariant
                qs == self.questions@,
                i <= qs.len(),
                acc == sum_questions(qs.take(i as int), f),
                sum_questions(qs, f) <= u32::MAX,
                forall|q: Question| #[trigger] f(q) == 4 * q.level as nat,
            decreases qs.len() - i,
        {
            proof {
                lemma_sum_step(qs, f, i as int);
                lemma_sum_prefix_le(qs, f, i + 1);
            }
            acc = acc + 4 * self.questions[i].level as u32;
            i = i + 1;
        }
        assert(qs.take(qs.len() as int) =~= qs);
        acc
    }

    /// The points of the questions that have a recorded score.
    pub fn max_score_asked(&self, responses: &Responses) -> (r: u32)
        requires
            spec_max_score_asked(self.questions@, responses@) <= u32::MAX,
        ensures
            r == spec_max_score_asked(self.questions@, responses@),
    {
        let ghost qs = self.questions@;
        let ghost f = |q: Question|
            if responses@.contains_key(q.id@) {
                4 * q.level as nat
            } else {
                0
            };
        let mut acc: u32 = 0;
        let mut i: usize = 0;
        while i < self.questions.len()
            invariant
                qs == self.questions@,
                i <= qs.len(),
                acc == sum_questions(qs.take(i as int), f),
                sum_questions(qs, f) <= u32::MAX,
                forall|q: Question| #[trigger]
                    f(q) == if responses@.contains_key(q.id@) {
                        4 * q.level as nat
                    } else {
                        0
                    },
            decreases qs.len() - i,
        {
            proof {
                lemma_sum_step(qs, f, i as int);
                lemma_sum_prefix_le(qs, f, i + 1);
            }
            let q = &self.questions[i];
            if responses.contains_key(q.id.as_str()) {
                acc = acc + 4 * q.level as u32;
            }
            i = i + 1;
        }
        assert(qs.take(qs.len() as int) =~= qs);
        acc
    }

    /// The recorded score times the level, summed over the topic's questions;
    /// a question without a recorded score counts as 0.
    pub fn score(&self, responses: &Responses) -> (r: u32)
        requires
            spec_score(self.questions@, responses@) <= u32::MAX,
        ensures
            r == spec_score(self.questions@, responses@),
    {
        let ghost qs = self.questions@;
        let ghost f = |q: Question| score_of(responses@, q.id@) * q.level as nat;
        let mut acc: u32 = 0;
        let mut i: usize = 0;
        while i < self.questions.len()
            invariant
                qs == self.questions@,
                i <= qs.len(),
                acc == sum_questions(qs.take(i as int), f),
                sum_questions(qs, f) <= u32::MAX,
                forall|q: Question| #[trigger] f(q) == score_of(responses@, q.id@) * q.level as nat,
            decreases qs.len() - i,
        {
            proof {
                lemma_sum_step(qs, f, i as int);
                lemma_sum_prefix_le(qs, f, i + 1);
            }
            let q = &self.questions[i];
            let s: u32 = match responses.get(q.id.as_str()) {
                Some(v) => *v as u32,
                None => 0,
            };
            proof {
                assert(s * q.level == score_of(responses@, q.id@) * q.level as nat);
            }
            acc = acc + s * q.level as u32;
            i = i + 1;
        }
        assert(qs.take(qs.len() as int) =~= qs);
        acc
    }

    /// How many of the topic's questions have a recorded score.
    pub fn answered(&self, responses: &Responses) -> (r: usize)
        ensures
            r == spec_answered(self.questions@, responses@),
    {
        let ghost qs = self.questions@;
        let ghost f = |q: Question| if responses@.contains_key(q.id@) { 1nat } else { 0nat };
        let mut acc: usize = 0;
        let mut i: usize = 0;
        while i < self.questions.len()
            invariant
                qs == self.questions@,
                i <= qs.len(),
                acc == sum_questions(qs.take(i as int), f),
                forall|q: Question| #[trigger]
                    f(q) == if responses@.contains_key(q.id@) {
                        1nat
                    } else {
                        0nat
                    },
            decreases qs.len() - i,
        {
            proof {
                lemma_sum_step(qs, f, i as int);
                lemma_sum_count(qs.take(i + 1), f);
            }
            if responses.contains_key(self.questions[i].id.as_str()) {
                acc = acc + 1;
            }
            i = i + 1;
        }
        assert(qs.take(qs.len() as int) =~= qs);
        acc
    }
}

/// A topic never scores more than the points of its asked questions,
/// provided every recorded score is on the 0–4 scale.
pub proof fn law_score_within_asked(qs: Seq<Question>, r: Map<Seq<char>, u8>)
    requires
        forall|k: Seq<char>| r.contains_key(k) ==> #[trigger] r[k] <= 4,
    ensures
        spec_score(qs, r) <= spec_max_score_asked(qs, r),
{
    let f = |q: Question| score_of(r, q.id@) * q.level as nat;
    let g = |q: Question| if r.contains_key(q.id@) { 4 * q.level as nat } else { 0 };
    assert forall|k: int| 0 <= k < qs.len() implies f(#[trigger] qs[k]) <= g(qs[k]) by {
        let q = qs[k];
        if r.contains_key(q.id@) {
            assert(r[q.id@] <= 4);
            assert(score_of(r, q.id@) * q.level as nat <= 4 * q.level as nat) by (nonlinear_arith)
                requires
                    score_of(r, q.id@) <= 4,
            ;
        }
    }
    lemma_sum_le(qs, f, g);
}

/// The points of the asked questions never exceed the points of all of them.
pub proof fn law_asked_within_max(qs: Seq<Question>, r: Map<Seq<char>, u8>)
    ensures
        spec_max_score_asked(qs, r) <= spec_max_score(qs),
{
    let f = |q: Question| if r.contains_key(q.id@) { 4 * q.level as nat } else { 0 };
    let g = |q: Question| 4 * q.level as nat;
    lemma_sum_le(qs, f, g);
}

/// No more questions are answered than the topic holds.
pub proof fn law_answered_within_count(qs: Seq<Question>, r: Map<Seq<char>, u8>)
    ensures
        spec_answered(qs, r) <= qs.len(),
{
    lemma_sum_count(qs, |q: Question| if r.contains_key(q.id@) { 1nat } else { 0nat });
}

proof fn lemma_sum_split(qs: Seq<Question>, f: spec_fn(Question) -> nat, g: spec_fn(Question) -> nat, h: spec_fn(Question) -> nat)
    requires
        forall|q: Question| #[trigger] h(q) == f(q) + g(q),
    ensures
        sum_questions(qs, h) == sum_questions(qs, f) + sum_questions(qs, g),
    decreases qs.len(),
{
    if qs.len() > 0 {
        lemma_sum_split(qs.drop_last(), f, g, h);
    }
}

proof fn lemma_sum_same(qs: Seq<Question>, f: spec_fn(Question) -> nat, g: spec_fn(Question) -> nat)
    requires
        forall|k: int| 0 <= k < qs.len() ==> f(#[trigger] qs[k]) == g(qs[k]),
    ensures
        sum_questions(qs, f) == sum_questions(qs, g),
    decreases qs.len(),
{
    if qs.len() > 0 {
        assert forall|k: int| 0 <= k < qs.drop_last().len() implies f(#[trigger] qs.drop_last()[k])
            == g(qs.drop_last()[k]) by {
            assert(qs.drop_last()[k] == qs[k]);
        }
        lemma_sum_same(qs.drop_last(), f, g);
        assert(f(qs[qs.len() - 1]) == g(qs[qs.len() - 1]));
    }
}

/// When every question has a recorded score, the points asked are the
/// topic's full points.
pub proof fn law_all_asked_is_max(qs: Seq<Question>, r: Map<Seq<char>, u8>)
    requires
        forall|k: int| 0 <= k < qs.len() ==> r.contains_key(#[trigger] qs[k].id@),
    ensures
        spec_max_score_asked(qs, r) == spec_max_score(qs),
{
    let f = |q: Question| if r.contains_key(q.id@) { 4 * q.level as nat } else { 0 };
    let g = |q: Question| 4 * q.level as nat;
    assert forall|k: int| 0 <= k < qs.len() implies f(#[trigger] qs[k]) == g(qs[k]) by {
        assert(r.contains_key(qs[k].id@));
    }
    lemma_sum_same(qs, f, g);
}

/// With no recorded score, nothing is asked, scored or answered.
pub proof fn law_nothing_recorded(qs: Seq<Question>)
    ensures
        spec_max_score_asked(qs, Map::empty()) == 0,
        spec_score(qs, Map::empty()) == 0,
        spec_answered(qs, Map::empty()) == 0,
{
    let r = Map::<Seq<char>, u8>::empty();
    let z = |q: Question| 0nat;
    lemma_sum_same(qs, |q: Question| if r.contains_key(q.id@) { 4 * q.level as nat } else { 0 }, z);
    lemma_sum_same(qs, |q: Question| score_of(r, q.id@) * q.level as nat, z);
    lemma_sum_same(qs, |q: Question| if r.contains_key(q.id@) { 1nat } else { 0nat }, z);
    lemma_sum_split(qs, z, z, z);
}

/// How many of the questions carry the id `k`.
pub open spec fn count_with_id(qs: Seq<Question>, k: Seq<char>) -> nat
    decreases qs.len(),
{
    if qs.len() == 0 {
        0
    } else {
        count_with_id(qs.drop_last(), k) + if qs.last().id@ == k {
            1nat
        } else {
            0nat
        }
    }
}

/// Recording a score for a new key adds the questions with that id to the
/// answered count, and takes none away.
pub proof fn law_answered_after_insert(qs: Seq<Question>, r: Map<Seq<char>, u8>, k: Seq<char>, s: u8)
    requires
        !r.contains_key(k),
    ensures
        spec_answered(qs, r.insert(k, s)) == spec_answered(qs, r) + count_with_id(qs, k),
        spec_answered(qs, r) <= spec_answered(qs, r.insert(k, s)),
    decreases qs.len(),
{
    if qs.len() > 0 {
        law_answered_after_insert(qs.drop_last(), r, k, s);
        let q = qs.last();
        if q.id@ == k {
            assert(r.insert(k, s).contains_key(q.id@));
        } else {
            assert(r.insert(k, s).contains_key(q.id@) == r.contains_key(q.id@));
        }
    }
}

} // verus!

verus! {

/// A candidate as stored: id, name, role slug and the creation time as
/// RFC 3339 text.
pub struct Candidate {
    pub id: i64,
    pub name: String,
    pub role: String,
    pub created_at: String,
}

} // verus!

verus! {

/// The sum of `f` over the topics.
pub open spec fn sum_topics(ts: Seq<TopicData>, f: spec_fn(TopicData) -> nat) -> nat
    decreases ts.len(),
{
    if ts.len() == 0 {
        0
    } else {
        sum_topics(ts.drop_last(), f) + f(ts.last())
    }
}

pub proof fn lemma_sum_topics_step(ts: Seq<TopicData>, f: spec_fn(TopicData) -> nat, i: int)
    requires
        0 <= i < ts.len(),
    ensures
        sum_topics(ts.take(i + 1), f) == sum_topics(ts.take(i), f) + f(ts[i]),
{
    assert(ts.take(i + 1).drop_last() =~= ts.take(i));
}

pub proof fn lemma_sum_topics_prefix(ts: Seq<TopicData>, f: spec_fn(TopicData) -> nat, i: int)
    requires
        0 <= i <= ts.len(),
    ensures
        sum_topics(ts.take(i), f) <= sum_topics(ts, f),
    decreases ts.len() - i,
{
    if i < ts.len() {
        lemma_sum_topics_step(ts, f, i);
        lemma_sum_topics_prefix(ts, f, i + 1);
    } else {
        assert(ts.take(i) =~= ts);
    }
}

/// The score over all topics.
pub open spec fn spec_total_score(ts: Seq<TopicData>, r: Map<Seq<char>, u8>) -> nat {
    sum_topics(ts, |t: TopicData| spec_score(t.questions@, r))
}

/// The points of all questions with a recorded score.
pub open spec fn spec_total_max_asked(ts: Seq<TopicData>, r: Map<Seq<char>, u8>) -> nat {
    sum_topics(ts, |t: TopicData| spec_max_score_asked(t.questions@, r))
}

/// The points of all questions.
pub open spec fn spec_total_max(ts: Seq<TopicData>) -> nat {
    sum_topics(ts, |t: TopicData| spec_max_score(t.questions@))
}

/// The number of answered questions.
pub open spec fn spec_total_answered(ts: Seq<TopicData>, r: Map<Seq<char>, u8>) -> nat {
    sum_topics(ts, |t: TopicData| spec_answered(t.questions@, r))
}

/// The number of questions.
pub open spec fn spec_total_questions(ts: Seq<TopicData>) -> nat {
    sum_topics(ts, |t: TopicData| t.questions@.len())
}

pub proof fn lemma_term_within(ts: Seq<TopicData>, f: spec_fn(TopicData) -> nat, i: int)
    requires
        0 <= i < ts.len(),
    ensures
        f(ts[i]) <= sum_topics(ts, f),
{
    lemma_sum_topics_step(ts, f, i);
    lemma_sum_topics_prefix(ts, f, i + 1);
}

/// The score over all topics.
pub fn total_score(topics: &[TopicData], responses: &Responses) -> (r: u32)
    requires
        spec_total_score(topics@, responses@) <= u32::MAX,
    ensures
        r == spec_total_score(topics@, responses@),
{
    let ghost f = |t: TopicData| spec_score(t.questions@, responses@);
    let mut acc: u32 = 0;
    let mut i: usize = 0;
    while i < topics.len()
        invariant
            i <= topics@.len(),
            forall|t: TopicData| #[trigger] f(t) == spec_score(t.questions@, responses@),
            acc == sum_topics(topics@.take(i as int), f),
            sum_topics(topics@, f) <= u32::MAX,
        decreases topics@.len() - i,
    {
        proof {
            lemma_sum_topics_step(topics@, f, i as int);
            lemma_sum_topics_prefix(topics@, f, i + 1);
            lemma_term_within(topics@, f, i as int);
        }
        acc = acc + topics[i].score(responses);
        i = i + 1;
    }
    assert(topics@.take(topics@.len() as int) =~= topics@);
    acc
}

/// The points of all questions with a recorded score.
pub fn total_max_asked(topics: &[TopicData], responses: &Responses) -> (r: u32)
    requires
        spec_total_max_asked(topics@, responses@) <= u32::MAX,
    ensures
        r == spec_total_max_asked(topics@, responses@),
{
    let ghost f = |t: TopicData| spec_max_score_asked(t.questions@, responses@);
    let mut acc: u32 = 0;
    let mut i: usize = 0;
    while i < topics.len()
        invariant
            i <= topics@.len(),
            forall|t: TopicData| #[trigger] f(t) == spec_max_score_asked(t.questions@, responses@),
            acc == sum_topics(topics@.take(i as int), f),
            sum_topics(topics@, f) <= u32::MAX,
        decreases topics@.len() - i,
    {
        proof {
            lemma_sum_topics_step(topics@, f, i as int);
            lemma_sum_topics_prefix(topics@, f, i + 1);
            lemma_term_within(topics@, f, i as int);
        }
        acc = acc + topics[i].max_score_asked(responses);
        i = i + 1;
    }
    assert(topics@.take(topics@.len() as int) =~= topics@);
    acc
}

/// The points of all questions.
pub fn total_max(topics: &[TopicData]) -> (r: u32)
    requires
        spec_total_max(topics@) <= u32::MAX,
    ensures
        r == spec_total_max(topics@),
{
    let ghost f = |t: TopicData| spec_max_score(t.questions@);
    let mut acc: u32 = 0;
    let mut i: usize = 0;
    while i < topics.len()
        invariant
            i <= topics@.len(),
            forall|t: TopicData| #[trigger] f(t) == spec_max_score(t.questions@),
            acc == sum_topics(topics@.take(i as int), f),
            sum_topics(topics@, f) <= u32::MAX,
        decreases topics@.len() - i,
    {
        proof {
            lemma_sum_topics_step(topics@, f, i as int);
            lemma_sum_topics_prefix(topics@, f, i + 1);
            lemma_term_within(topics@, f, i as int);
        }
        acc = acc + topics[i].max_score();
        i = i + 1;
    }
    assert(topics@.take(topics@.len() as int) =~= topics@);
    acc
}

/// The number of answered questions over all topics.
pub fn total_answered(topics: &[TopicData], responses: &Responses) -> (r: usize)
    requires
        spec_total_answered(topics@, responses@) <= usize::MAX,
    ensures
        r == spec_total_answered(topics@, responses@),
{
    let ghost f = |t: TopicData| spec_answered(t.questions@, responses@);
    let mut acc: usize = 0;
    let mut i: usize = 0;
    while i < topics.len()
        invariant
            i <= topics@.len(),
            forall|t: TopicData| #[trigger] f(t) == spec_answered(t.questions@, responses@),
            acc == sum_topics(topics@.take(i as int), f),
            sum_topics(topics@, f) <= usize::MAX,
        decreases topics@.len() - i,
    {
        proof {
            lemma_sum_topics_step(topics@, f, i as int);
            lemma_sum_topics_prefix(topics@, f, i + 1);
        }
        acc = acc + topics[i].answered(responses);
        i = i + 1;
    }
    assert(topics@.take(topics@.len() as int) =~= topics@);
    acc
}

/// The number of questions over all topics.
pub fn total_questions(topics: &[TopicData]) -> (r: usize)
    requires
        spec_total_questions(topics@) <= usize::MAX,
    ensures
        r == spec_total_questions(topics@),
{
    let ghost f = |t: TopicData| t.questions@.len();
    let mut acc: usize = 0;
    let mut i: usize = 0;
    while i < topics.len()
        invariant
            i <= topics@.len(),
            forall|t: TopicData| #[trigger] f(t) == t.questions@.len(),
            acc == sum_topics(topics@.take(i as int), f),
            sum_topics(topics@, f) <= usize::MAX,
        decreases topics@.len() - i,
    {
        proof {
            lemma_sum_topics_step(topics@, f, i as int);
            lemma_sum_topics_prefix(topics@, f, i + 1);
        }
        acc = acc + topics[i].questions.len();
        i = i + 1;
    }
    assert(topics@.take(topics@.len() as int) =~= topics@);
    acc
}

} // verus!
