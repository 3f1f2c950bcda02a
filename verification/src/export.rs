//! Exports of an interview: the figures of every question, the CSV records
//! and text, and the HTML report.

use vstd::prelude::*;
use crate::models::{Candidate, Question, Responses, TopicData, score_of, spec_total_questions};
use crate::text::{push_decimal, push_signed, push_str, spec_decimal, spec_signed_decimal};

verus! {

/// What an export is made of: the candidate, the topics in order and the
/// recorded scores.
pub struct ExportData<'a> {
    pub candidate: &'a Candidate,
    pub topics: &'a [TopicData],
    pub responses: &'a Responses,
}

/// The figures of one question in an export.
pub struct QuestionFigures {
    /// The recorded score, 0 when none is recorded.
    pub score: u8,
    /// The score times the question's level.
    pub points: u32,
    /// Four points per level.
    pub max_points: u32,
}

/// The recorded score of a question, its points and the points it is worth.
pub fn question_figures(q: &Question, responses: &Responses) -> (f: QuestionFigures)
    ensures
        f.score == score_of(responses@, q.id@),
        f.points == score_of(responses@, q.id@) * q.level,
        f.max_points == 4 * q.level,
{
    let score: u8 = match responses.get(q.id.as_str()) {
        Some(v) => *v,
        None => 0,
    };
    assert(score as u32 * q.level as u32 <= 65025) by (nonlinear_arith)
        requires
            score <= 255,
            q.level <= 255,
    ;
    QuestionFigures {
        score,
        points: score as u32 * q.level as u32,
        max_points: 4 * q.level as u32,
    }
}

// ── CSV ──────────────────────────────────────────────────────────────────────

/// The fields of a record, as text.
pub open spec fn field_views(rec: Seq<String>) -> Seq<Seq<char>> {
    rec.map_values(|f: String| f@)
}

/// The fields of each CSV record, as text.
pub open spec fn record_views(recs: Seq<Vec<String>>) -> Seq<Seq<Seq<char>>> {
    recs.map_values(|rec: Vec<String>| field_views(rec@))
}

/// The header record of the CSV export.
pub open spec fn csv_header() -> Seq<Seq<char>> {
    seq![
        "candidate_id"@,
        "name"@,
        "role"@,
        "topic"@,
        "q_level"@,
        "question"@,
        "score"@,
        "question_score"@,
        "max_score"@,
    ]
}

/// The CSV record of one question of the topic named `topic`.
pub open spec fn csv_question_row(c: Candidate, topic: Seq<char>, q: Question, r: Map<Seq<char>, u8>) -> Seq<Seq<char>> {
    seq![
        spec_signed_decimal(c.id as int),
        c.name@,
        c.role@,
        topic,
        spec_decimal(q.level as nat),
        q.text@,
        spec_decimal(score_of(r, q.id@)),
        spec_decimal(score_of(r, q.id@) * q.level as nat),
        spec_decimal(4 * q.level as nat),
    ]
}

/// The CSV records of a topic's questions, in order.
pub open spec fn csv_topic_rows(c: Candidate, t: TopicData, r: Map<Seq<char>, u8>) -> Seq<Seq<Seq<char>>> {
    t.questions@.map_values(|q: Question| csv_question_row(c, t.name@, q, r))
}

/// The CSV records of all questions, topic by topic.
pub open spec fn csv_rows(c: Candidate, ts: Seq<TopicData>, r: Map<Seq<char>, u8>) -> Seq<Seq<Seq<char>>>
    decreases ts.len(),
{
    if ts.len() == 0 {
        seq![]
    } else {
        csv_rows(c, ts.drop_last(), r) + csv_topic_rows(c, ts.last(), r)
    }
}

/// The records of the CSV export: the header, then one record per question.
pub open spec fn spec_csv_records(c: Candidate, ts: Seq<TopicData>, r: Map<Seq<char>, u8>) -> Seq<Seq<Seq<char>>> {
    seq![csv_header()] + csv_rows(c, ts, r)
}

proof fn lemma_csv_rows(c: Candidate, ts: Seq<TopicData>, r: Map<Seq<char>, u8>)
    ensures
        csv_rows(c, ts, r).len() == spec_total_questions(ts),
        forall|k: int| 0 <= k < csv_rows(c, ts, r).len() ==> (#[trigger] csv_rows(c, ts, r)[k]).len() == 9,
    decreases ts.len(),
{
    if ts.len() > 0 {
        lemma_csv_rows(c, ts.drop_last(), r);
        let prev = csv_rows(c, ts.drop_last(), r);
        let last = csv_topic_rows(c, ts.last(), r);
        assert forall|k: int| 0 <= k < csv_rows(c, ts, r).len() implies (#[trigger] csv_rows(c, ts, r)[k]).len()
            == 9 by {
            if k >= prev.len() {
                assert(csv_rows(c, ts, r)[k] == last[k - prev.len()]);
            }
        }
    }
}

/// The CSV export has a header and then one record per question, and every
/// record has the nine columns of the header.
pub proof fn law_csv_one_record_per_question(c: Candidate, ts: Seq<TopicData>, r: Map<Seq<char>, u8>)
    ensures
        spec_csv_records(c, ts, r).len() == 1 + spec_total_questions(ts),
        spec_csv_records(c, ts, r)[0] == csv_header(),
        forall|k: int|
            0 <= k < spec_csv_records(c, ts, r).len() ==> (#[trigger] spec_csv_records(c, ts, r)[k]).len()
                == csv_header().len(),
{
    lemma_csv_rows(c, ts, r);
    let recs = spec_csv_records(c, ts, r);
    assert forall|k: int| 0 <= k < recs.len() implies (#[trigger] recs[k]).len() == csv_header().len() by {
        if k > 0 {
            assert(recs[k] == csv_rows(c, ts, r)[k - 1]);
        }
    }
}

proof fn lemma_rows_at(c: Candidate, ts: Seq<TopicData>, r: Map<Seq<char>, u8>, t: int, j: int)
    requires
        0 <= t < ts.len(),
        0 <= j < ts[t].questions@.len(),
    ensures
        spec_total_questions(ts.take(t)) + j < csv_rows(c, ts, r).len(),
        csv_rows(c, ts, r)[spec_total_questions(ts.take(t)) + j] == csv_question_row(
            c,
            ts[t].name@,
            ts[t].questions@[j],
            r,
        ),
    decreases ts.len(),
{
    let prev = csv_rows(c, ts.drop_last(), r);
    let last = csv_topic_rows(c, ts.last(), r);
    lemma_csv_rows(c, ts.drop_last(), r);
    lemma_csv_rows(c, ts, r);
    assert(csv_rows(c, ts, r) == prev + last);
    if t == ts.len() - 1 {
        assert(ts.take(t) =~= ts.drop_last());
        assert(last[j] == csv_question_row(c, ts.last().name@, ts.last().questions@[j], r));
    } else {
        lemma_rows_at(c, ts.drop_last(), r, t, j);
        assert(ts.drop_last().take(t) =~= ts.take(t));
        assert(ts.drop_last()[t] == ts[t]);
    }
}

/// In the CSV export, question `j` of topic `t` is on record
/// `1 + (the number of questions of the topics before t) + j`; that record
/// names the candidate, the topic that holds the question, the question's
/// level and text, its recorded score (0 when none), its points and the
/// points it is worth.
pub proof fn law_csv_record_of_question(c: Candidate, ts: Seq<TopicData>, r: Map<Seq<char>, u8>, t: int, j: int)
    requires
        0 <= t < ts.len(),
        0 <= j < ts[t].questions@.len(),
    ensures
        ({
            let k = 1 + spec_total_questions(ts.take(t)) + j;
            let recs = spec_csv_records(c, ts, r);
            let rec = recs[k];
            let q = ts[t].questions@[j];
            &&& k < recs.len()
            &&& rec.len() == 9
            &&& rec[0] == spec_signed_decimal(c.id as int)
            &&& rec[1] == c.name@
            &&& rec[2] == c.role@
            &&& rec[3] == ts[t].name@
            &&& rec[4] == spec_decimal(q.level as nat)
            &&& rec[5] == q.text@
            &&& rec[6] == spec_decimal(score_of(r, q.id@))
            &&& rec[7] == spec_decimal(score_of(r, q.id@) * q.level as nat)
            &&& rec[8] == spec_decimal(4 * q.level as nat)
        }),
{
    lemma_rows_at(c, ts, r, t, j);
    let k = 1 + spec_total_questions(ts.take(t)) + j;
    assert(spec_csv_records(c, ts, r)[k] == csv_rows(c, ts, r)[k - 1]);
}

fn text_field(s: &str) -> (f: String)
    ensures
        f@ == s@,
{
    s.to_owned()
}

fn number_field(n: u64) -> (f: String)
    ensures
        f@ == spec_decimal(n as nat),
{
    let mut f = String::new();
    push_decimal(&mut f, n);
    f
}

fn csv_header_record() -> (rec: Vec<String>)
    ensures
        field_views(rec@) == csv_header(),
{
    let rec = vec![
        text_field("candidate_id"),
        text_field("name"),
        text_field("role"),
        text_field("topic"),
        text_field("q_level"),
        text_field("question"),
        text_field("score"),
        text_field("question_score"),
        text_field("max_score"),
    ];
    assert(field_views(rec@) =~= csv_header());
    rec
}

fn csv_question_record(c: &Candidate, topic: &str, q: &Question, responses: &Responses) -> (rec: Vec<String>)
    ensures
        field_views(rec@) == csv_question_row(*c, topic@, *q, responses@),
{
    let fig = question_figures(q, responses);
    let mut id = String::new();
    push_signed(&mut id, c.id);
    let rec = vec![
        id,
        text_field(c.name.as_str()),
        text_field(c.role.as_str()),
        text_field(topic),
        number_field(q.level as u64),
        text_field(q.text.as_str()),
        number_field(fig.score as u64),
        number_field(fig.points as u64),
        number_field(fig.max_points as u64),
    ];
    assert(field_views(rec@) =~= csv_question_row(*c, topic@, *q, responses@));
    rec
}

/// The records of the CSV export: the header, then for every question of
/// every topic the candidate's id, name and role, the topic, the level, the
/// question, the score, the points and the points it is worth.
pub fn csv_records(data: &ExportData) -> (recs: Vec<Vec<String>>)
    ensures
        record_views(recs@) == spec_csv_records(*data.candidate, data.topics@, data.responses@),
{
    let ghost c = *data.candidate;
    let ghost ts = data.topics@;
    let ghost rm = data.responses@;
    let mut recs: Vec<Vec<String>> = Vec::new();
    recs.push(csv_header_record());
    assert(record_views(recs@) =~= spec_csv_records(c, ts.take(0), rm));
    let mut i: usize = 0;
    while i < data.topics.len()
        invariant
            c == *data.candidate,
            ts == data.topics@,
            rm == data.responses@,
            i <= ts.len(),
            record_views(recs@) == spec_csv_records(c, ts.take(i as int), rm),
        decreases ts.len() - i,
    {
        let t = &data.topics[i];
        let ghost base = record_views(recs@);
        let ghost rows = csv_topic_rows(c, *t, rm);
        let mut j: usize = 0;
        while j < t.questions.len()
            invariant
                c == *data.candidate,
                rm == data.responses@,
                *t == ts[i as int],
                rows == csv_topic_rows(c, *t, rm),
                i < ts.len(),
                j <= t.questions@.len(),
                record_views(recs@) == base + rows.take(j as int),
            decreases t.questions@.len() - j,
        {
            let rec = csv_question_record(data.candidate, t.name.as_str(), &t.questions[j], data.responses);
            assert(field_views(rec@) == rows[j as int]);
            let ghost before = recs@;
            recs.push(rec);
            assert(recs@ == before.push(rec));
            assert(record_views(recs@) =~= record_views(before).push(field_views(rec@)));
            assert(record_views(recs@) =~= base + rows.take(j + 1));
            j = j + 1;
        }
        assert(rows.take(t.questions@.len() as int) =~= rows);
        assert(ts.take(i + 1).drop_last() =~= ts.take(i as int));
        assert(record_views(recs@) =~= spec_csv_records(c, ts.take(i + 1), rm));
        i = i + 1;
    }
    assert(ts.take(ts.len() as int) =~= ts);
    recs
}

/// A character that makes a field be written in quotes: the delimiter, the
/// quote, or a line break.
pub open spec fn csv_special(c: char) -> bool {
    c == ',' || c == '"' || c == '\r' || c == '\n'
}

/// The field with each quote doubled.
pub open spec fn csv_doubled(f: Seq<char>) -> Seq<char>
    decreases f.len(),
{
    if f.len() == 0 {
        seq![]
    } else if f.last() == '"' {
        csv_doubled(f.drop_last()) + seq!['"', '"']
    } else {
        csv_doubled(f.drop_last()).push(f.last())
    }
}

/// A field as written: in quotes, with its quotes doubled, when it holds a
/// special character; as it is otherwise.
pub open spec fn csv_field(f: Seq<char>) -> Seq<char> {
    if exists|i: int| 0 <= i < f.len() && csv_special(#[trigger] f[i]) {
        seq!['"'] + csv_doubled(f) + seq!['"']
    } else {
        f
    }
}

/// Quoted field text read back: each doubled quote stands for one quote.
pub open spec fn csv_undoubled(s: Seq<char>) -> Seq<char>
    decreases s.len(),
{
    if s.len() >= 2 && s.last() == '"' && s[s.len() - 2] == '"' {
        csv_undoubled(s.subrange(0, s.len() - 2)).push('"')
    } else if s.len() > 0 {
        csv_undoubled(s.drop_last()).push(s.last())
    } else {
        seq![]
    }
}

proof fn lemma_undouble(f: Seq<char>)
    ensures
        csv_undoubled(csv_doubled(f)) == f,
        csv_doubled(f).len() >= f.len(),
        f.len() > 0 ==> csv_doubled(f).len() > 0 && csv_doubled(f).last() == f.last(),
    decreases f.len(),
{
    if f.len() > 0 {
        let p = f.drop_last();
        lemma_undouble(p);
        let dp = csv_doubled(p);
        let df = csv_doubled(f);
        if f.last() == '"' {
            assert(df == dp + seq!['"', '"']);
            assert(df.subrange(0, df.len() - 2) =~= dp);
        } else {
            assert(df == dp.push(f.last()));
            assert(df.drop_last() =~= dp);
        }
        assert(p.push(f.last()) =~= f);
    }
}

/// A field is written as it is when it holds no comma, quote or line break,
/// and otherwise between quotes, from which it is read back by taking the
/// quotes off and halving each doubled quote.
pub proof fn law_csv_field_reads_back(f: Seq<char>)
    ensures
        (forall|i: int| 0 <= i < f.len() ==> !csv_special(#[trigger] f[i])) ==> csv_field(f) == f,
        (exists|i: int| 0 <= i < f.len() && csv_special(#[trigger] f[i])) ==> {
            let w = csv_field(f);
            &&& w.len() >= 2
            &&& w[0] == '"'
            &&& w.last() == '"'
            &&& csv_undoubled(w.subrange(1, w.len() - 1)) == f
        },
{
    lemma_undouble(f);
    let w = csv_field(f);
    if exists|i: int| 0 <= i < f.len() && csv_special(#[trigger] f[i]) {
        assert(w.subrange(1, w.len() - 1) =~= csv_doubled(f));
    }
}

/// A written record ends with a newline and is never empty.
pub proof fn law_csv_record_ends_line(fields: Seq<Seq<char>>)
    ensures
        spec_csv_record(fields).len() > 0,
        spec_csv_record(fields).last() == '\n',
        fields.len() == 1 && fields[0].len() == 0 ==> spec_csv_record(fields) == seq!['"', '"', '\n'],
        (fields.len() == 1 && fields[0].len() > 0) ==> spec_csv_record(fields) == csv_field(fields[0]).push('\n'),
{
    if fields.len() == 1 {
        let m = fields.map_values(|f: Seq<char>| csv_field(f));
        assert(m.len() == 1);
        assert(m[0] == csv_field(fields[0]));
    }
}

/// One record as the `csv` crate's default writer writes it: the fields
/// separated by commas and ended by a newline; a record that would be
/// empty (no field, or one empty field) is written as `""`.
pub open spec fn spec_csv_record(fields: Seq<Seq<char>>) -> Seq<char> {
    if fields.len() == 0 || (fields.len() == 1 && fields[0].len() == 0) {
        seq!['"', '"', '\n']
    } else {
        crate::text::spec_join_with(fields.map_values(|f: Seq<char>| csv_field(f)), seq![',']).push('\n')
    }
}

/// `csv::Writer::from_writer` over an empty byte vector, one `write_record`,
/// `into_inner` and `String::from_utf8`: the text of one record. The claim,
/// read from the csv and csv-core sources: with the default settings a field
/// is quoted exactly when it holds a comma, a quote, `\r` or `\n`, quotes in
/// it are doubled, fields are separated by commas, the record ends with
/// `\n`, and a record that wrote no byte gets `""` first. Writing into a
/// vector cannot fail, a fresh writer has no earlier field count to differ
/// from, and the bytes added are ASCII, so the result is always `Some`.
#[verifier::external_body]
fn csv_record_text(rec: &Vec<String>) -> (r: Option<String>)
    ensures
        match r {
            Some(t) => t@ == spec_csv_record(field_views(rec@)),
            None => false,
        },
{
    let mut wtr = csv::Writer::from_writer(Vec::new());
    if wtr.write_record(rec).is_err() {
        return None;
    }
    match wtr.into_inner() {
        Ok(bytes) => String::from_utf8(bytes).ok(),
        Err(_) => None,
    }
}

/// The written records one after another.
pub open spec fn spec_csv_text(recs: Seq<Seq<Seq<char>>>) -> Seq<char>
    decreases recs.len(),
{
    if recs.len() == 0 {
        seq![]
    } else {
        spec_csv_text(recs.drop_last()) + spec_csv_record(recs.last())
    }
}

/// The CSV export: each record of `csv_records` as the `csv` crate writes
/// it, one after another. It is always `Some`.
#[verifier::rlimit(40)]
pub fn to_csv(data: &ExportData) -> (r: Option<String>)
    ensures
        r matches Some(t) && t@ == spec_csv_text(spec_csv_records(*data.candidate, data.topics@, data.responses@)),
{
    let recs = csv_records(data);
    let ghost v = record_views(recs@);
    let mut out = String::new();
    let mut i: usize = 0;
    while i < recs.len()
        invariant
            v == record_views(recs@),
            v == spec_csv_records(*data.candidate, data.topics@, data.responses@),
            i <= recs@.len(),
            spec_csv_text(v.take(i as int)) == out@,
        decreases recs@.len() - i,
    {
        assert(v.take(i + 1).drop_last() =~= v.take(i as int));
        match csv_record_text(&recs[i]) {
            Some(line) => {
                push_str(&mut out, line.as_str());
            },
            None => {
                return None;
            },
        }
        i = i + 1;
    }
    assert(v.take(recs@.len() as int) =~= v);
    Some(out)
}

} // verus!
