//! The JSON export as a document value: which keys each object has, in
//! which order, and what each of them holds.
use crate::export::{field_views, question_figures, ExportData};
use crate::models::{
    lemma_term_within, score_of, spec_answered, spec_max_score_asked, spec_score, spec_total_answered, spec_total_max_asked,
    spec_total_questions, spec_total_score, Candidate, Question, Responses, TopicData, total_answered, total_max_asked, total_questions, total_score,
};
use vstd::prelude::*;

verus! {

/// A JSON value as the exports write it.
pub enum Json {
    Int(i64),
    Nat(u64),
    Text(String),
    List(Vec<Json>),
    Object(Vec<(String, Json)>),
}

/// `j` is the number `n`, written without a sign.
pub open spec fn is_nat(j: Json, n: int) -> bool {
    j matches Json::Nat(x) && x == n
}

/// `j` is the signed number `n`.
pub open spec fn is_int(j: Json, n: int) -> bool {
    j matches Json::Int(x) && x == n
}

/// `j` is the string `s`.
pub open spec fn is_text(j: Json, s: Seq<char>) -> bool {
    j matches Json::Text(x) && x@ == s
}

/// `j` is a list of the strings `ss`, in order.
pub open spec fn is_text_list(j: Json, ss: Seq<Seq<char>>) -> bool {
    j matches Json::List(v) && v@.len() == ss.len() && forall|i: int|
        0 <= i < ss.len() ==> is_text(#[trigger] v@[i], ss[i])
}

/// `j` is an object whose keys are `keys`, in that order.
pub open spec fn has_keys(j: Json, keys: Seq<Seq<char>>) -> bool {
    j matches Json::Object(m) && m@.len() == keys.len() && forall|i: int|
        0 <= i < keys.len() ==> (#[trigger] m@[i]).0@ == keys[i]
}

/// The value of the member at position `i` of an object.
pub open spec fn member(j: Json, i: int) -> Json {
    match j {
        Json::Object(m) => m@[i].1,
        _ => j,
    }
}

/// One question: its id, level and text, its recorded score (0 when none),
/// its points, the points it is worth, and its keywords by level.
pub open spec fn question_json_ok(j: Json, q: Question, r: Map<Seq<char>, u8>) -> bool {
    &&& has_keys(
        j,
        seq!["id"@, "level"@, "text"@, "score"@, "question_score"@, "max_score"@, "keywords"@],
    )
    &&& is_text(member(j, 0), q.id@)
    &&& is_nat(member(j, 1), q.level as int)
    &&& is_text(member(j, 2), q.text@)
    &&& is_nat(member(j, 3), score_of(r, q.id@) as int)
    &&& is_nat(member(j, 4), score_of(r, q.id@) * q.level)
    &&& is_nat(member(j, 5), 4 * q.level)
    &&& has_keys(member(j, 6), seq!["1"@, "2"@, "3"@, "4"@])
    &&& forall|k: int|
        0 <= k < 4 ==> is_text_list(#[trigger] member(member(j, 6), k), field_views(q.keywords[k]@))
}

/// One topic: its name, how many of its questions are answered, how many it
/// has, its score and the points of its answered questions, and each of its
/// questions in order.
pub open spec fn topic_json_ok(j: Json, t: TopicData, r: Map<Seq<char>, u8>) -> bool {
    &&& has_keys(
        j,
        seq!["name"@, "answered"@, "total_questions"@, "score"@, "max_score"@, "questions"@],
    )
    &&& is_text(member(j, 0), t.name@)
    &&& is_nat(member(j, 1), spec_answered(t.questions@, r) as int)
    &&& is_nat(member(j, 2), t.questions@.len() as int)
    &&& is_nat(member(j, 3), spec_score(t.questions@, r) as int)
    &&& is_nat(member(j, 4), spec_max_score_asked(t.questions@, r) as int)
    &&& member(j, 5) matches Json::List(v) && v@.len() == t.questions@.len() && forall|i: int|
        0 <= i < v@.len() ==> question_json_ok(#[trigger] v@[i], t.questions@[i], r)
}

/// The whole export: the candidate, the totals over all topics, and each
/// topic in order.
pub open spec fn export_json_ok(j: Json, c: Candidate, ts: Seq<TopicData>, r: Map<Seq<char>, u8>) -> bool {
    &&& has_keys(j, seq!["candidate"@, "summary"@, "topics"@])
    &&& has_keys(member(j, 0), seq!["id"@, "name"@, "role"@, "created_at"@])
    &&& is_int(member(member(j, 0), 0), c.id as int)
    &&& is_text(member(member(j, 0), 1), c.name@)
    &&& is_text(member(member(j, 0), 2), c.role@)
    &&& is_text(member(member(j, 0), 3), c.created_at@)
    &&& has_keys(
        member(j, 1),
        seq!["total_score"@, "total_max"@, "total_answered"@, "total_questions"@],
    )
    &&& is_nat(member(member(j, 1), 0), spec_total_score(ts, r) as int)
    &&& is_nat(member(member(j, 1), 1), spec_total_max_asked(ts, r) as int)
    &&& is_nat(member(member(j, 1), 2), spec_total_answered(ts, r) as int)
    &&& is_nat(member(member(j, 1), 3), spec_total_questions(ts) as int)
    &&& member(j, 2) matches Json::List(v) && v@.len() == ts.len() && forall|i: int|
        0 <= i < v@.len() ==> topic_json_ok(#[trigger] v@[i], ts[i], r)
}

/// The figures of the JSON export fit the integers they are summed in.
pub open spec fn json_fits(ts: Seq<TopicData>, r: Map<Seq<char>, u8>) -> bool {
    &&& spec_total_score(ts, r) <= u32::MAX
    &&& spec_total_max_asked(ts, r) <= u32::MAX
    &&& spec_total_questions(ts) <= usize::MAX
    &&& spec_total_answered(ts, r) <= usize::MAX
}

fn text_list(v: &Vec<String>) -> (j: Json)
    ensures
        is_text_list(j, field_views(v@)),
{
    let mut out: Vec<Json> = Vec::new();
    let mut i: usize = 0;
    while i < v.len()
        invariant
            i <= v@.len(),
            out@.len() == i,
            forall|k: int| 0 <= k < i ==> is_text(#[trigger] out@[k], v@[k]@),
        decreases v@.len() - i,
    {
        out.push(Json::Text(v[i].clone()));
        i = i + 1;
    }
    Json::List(out)
}

/// One question of the JSON export.
pub fn question_json(q: &Question, responses: &Responses) -> (j: Json)
    ensures
        question_json_ok(j, *q, responses@),
{
    let f = question_figures(q, responses);
    let mut kw: Vec<(String, Json)> = Vec::new();
    kw.push((String::from_str("1"), text_list(&q.keywords[0])));
    kw.push((String::from_str("2"), text_list(&q.keywords[1])));
    kw.push((String::from_str("3"), text_list(&q.keywords[2])));
    kw.push((String::from_str("4"), text_list(&q.keywords[3])));
    let kj = Json::Object(kw);
    let mut m: Vec<(String, Json)> = Vec::new();
    m.push((String::from_str("id"), Json::Text(q.id.clone())));
    m.push((String::from_str("level"), Json::Nat(q.level as u64)));
    m.push((String::from_str("text"), Json::Text(q.text.clone())));
    m.push((String::from_str("score"), Json::Nat(f.score as u64)));
    m.push((String::from_str("question_score"), Json::Nat(f.points as u64)));
    m.push((String::from_str("max_score"), Json::Nat(f.max_points as u64)));
    m.push((String::from_str("keywords"), kj));
    let j = Json::Object(m);
    assert(has_keys(member(j, 6), seq!["1"@, "2"@, "3"@, "4"@]));
    assert forall|k: int| 0 <= k < 4 implies is_text_list(
        #[trigger] member(member(j, 6), k),
        field_views(q.keywords[k]@),
    ) by {
        assert(member(j, 6) == kj);
    }
    assert(has_keys(
        j,
        seq!["id"@, "level"@, "text"@, "score"@, "question_score"@, "max_score"@, "keywords"@],
    ));
    j
}

/// One topic of the JSON export.
pub fn topic_json(t: &TopicData, responses: &Responses) -> (j: Json)
    requires
        spec_score(t.questions@, responses@) <= u32::MAX,
        spec_max_score_asked(t.questions@, responses@) <= u32::MAX,
    ensures
        topic_json_ok(j, *t, responses@),
{
    let mut qs: Vec<Json> = Vec::new();
    let mut i: usize = 0;
    while i < t.questions.len()
        invariant
            i <= t.questions@.len(),
            qs@.len() == i,
            forall|k: int| 0 <= k < i ==> question_json_ok(#[trigger] qs@[k], t.questions@[k], responses@),
        decreases t.questions@.len() - i,
    {
        qs.push(question_json(&t.questions[i], responses));
        i = i + 1;
    }
    let ql = Json::List(qs);
    let mut m: Vec<(String, Json)> = Vec::new();
    m.push((String::from_str("name"), Json::Text(t.name.clone())));
    m.push((String::from_str("answered"), Json::Nat(t.answered(responses) as u64)));
    m.push((String::from_str("total_questions"), Json::Nat(t.questions.len() as u64)));
    m.push((String::from_str("score"), Json::Nat(t.score(responses) as u64)));
    m.push((String::from_str("max_score"), Json::Nat(t.max_score_asked(responses) as u64)));
    m.push((String::from_str("questions"), ql));
    let j = Json::Object(m);
    assert(member(j, 5) == ql);
    assert(has_keys(
        j,
        seq!["name"@, "answered"@, "total_questions"@, "score"@, "max_score"@, "questions"@],
    ));
    j
}

/// The JSON export as a document: the candidate, the totals over all topics
/// and each topic with its questions.
pub fn export_json(data: &ExportData) -> (j: Json)
    requires
        json_fits(data.topics@, data.responses@),
    ensures
        export_json_ok(j, *data.candidate, data.topics@, data.responses@),
{
    let ghost ts = data.topics@;
    let ghost rm = data.responses@;
    let mut tl: Vec<Json> = Vec::new();
    let mut i: usize = 0;
    while i < data.topics.len()
        invariant
            ts == data.topics@,
            rm == data.responses@,
            json_fits(ts, rm),
            i <= ts.len(),
            tl@.len() == i,
            forall|k: int| 0 <= k < i ==> topic_json_ok(#[trigger] tl@[k], ts[k], rm),
        decreases ts.len() - i,
    {
        proof {
            lemma_term_within(ts, |t: TopicData| spec_score(t.questions@, rm), i as int);
            lemma_term_within(ts, |t: TopicData| spec_max_score_asked(t.questions@, rm), i as int);
        }
        tl.push(topic_json(&data.topics[i], data.responses));
        i = i + 1;
    }
    let topics = Json::List(tl);
    let mut c: Vec<(String, Json)> = Vec::new();
    c.push((String::from_str("id"), Json::Int(data.candidate.id)));
    c.push((String::from_str("name"), Json::Text(data.candidate.name.clone())));
    c.push((String::from_str("role"), Json::Text(data.candidate.role.clone())));
    c.push((String::from_str("created_at"), Json::Text(data.candidate.created_at.clone())));
    let cj = Json::Object(c);
    let mut sm: Vec<(String, Json)> = Vec::new();
    sm.push((String::from_str("total_score"), Json::Nat(total_score(data.topics, data.responses) as u64)));
    sm.push((String::from_str("total_max"), Json::Nat(total_max_asked(data.topics, data.responses) as u64)));
    sm.push((String::from_str("total_answered"), Json::Nat(total_answered(data.topics, data.responses) as u64)));
    sm.push((String::from_str("total_questions"), Json::Nat(total_questions(data.topics) as u64)));
    let sj = Json::Object(sm);
    let mut m: Vec<(String, Json)> = Vec::new();
    m.push((String::from_str("candidate"), cj));
    m.push((String::from_str("summary"), sj));
    m.push((String::from_str("topics"), topics));
    let j = Json::Object(m);
    assert(member(j, 0) == cj);
    assert(member(j, 1) == sj);
    assert(member(j, 2) == topics);
    assert(has_keys(cj, seq!["id"@, "name"@, "role"@, "created_at"@]));
    assert(has_keys(sj, seq!["total_score"@, "total_max"@, "total_answered"@, "total_questions"@]));
    assert(has_keys(j, seq!["candidate"@, "summary"@, "topics"@]));
    j
}

} // verus!
