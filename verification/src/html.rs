//! The HTML report of an interview.

use vstd::prelude::*;
use crate::export::ExportData;
use crate::models::{
    Candidate, Question, Responses, TopicData, lemma_term_within, score_of, spec_answered,
    spec_max_score_asked, spec_score, spec_total_answered, spec_total_max_asked,
    spec_total_questions, spec_total_score, total_answered, total_max_asked, total_questions,
    total_score,
};
use crate::qb::string_views;
use crate::report::{esc, percent, spec_esc};
use crate::text::{join_strings, push_decimal, push_str, spec_decimal, spec_join_with};

verus! {

/// The start of the document, up to the title text.
pub const HTML_OPEN: &'static str = "<!DOCTYPE html>\n<html lang=\"en\">\n<head>\n<meta charset=\"UTF-8\">\n<title>Interview Report — ";

/// The end of the title, the style sheet and the start of the page, up to the candidate's name.
pub const HTML_STYLE: &'static str = "</title>\n<style>\n  body { font-family: system-ui, sans-serif; max-width: 960px; margin: 2rem auto; padding: 0 1rem; color: #1a1a1a; }\n  h1 { font-size: 1.6rem; margin-bottom: 0.25rem; }\n  .meta { color: #666; margin-bottom: 2rem; }\n  .summary { display: flex; gap: 2rem; margin-bottom: 2rem; }\n  .stat { background: #f5f5f5; border-radius: 8px; padding: 1rem 1.5rem; }\n  .stat .label { font-size: 0.8rem; color: #666; text-transform: uppercase; letter-spacing: 0.05em; }\n  .stat .value { font-size: 1.8rem; font-weight: 700; color: #0070f3; }\n  table { width: 100%; border-collapse: collapse; margin-bottom: 2rem; }\n  th { background: #f5f5f5; text-align: left; padding: 0.5rem 0.75rem; font-size: 0.85rem; }\n  td { padding: 0.5rem 0.75rem; border-bottom: 1px solid #eee; font-size: 0.9rem; }\n  h2 { font-size: 1.2rem; margin-top: 2.5rem; border-bottom: 2px solid #eee; padding-bottom: 0.25rem; }\n</style>\n</head>\n<body>\n<h1>Interview Report</h1>\n<p class=\"meta\"><strong>";

/// Between the name and the role.
pub const META_ROLE: &'static str = "</strong> · ";

/// Between the role and the date.
pub const META_DATE: &'static str = " · ";

/// The start of the summary cards, up to the total score.
pub const SUMMARY_OPEN: &'static str = "</p>\n<div class=\"summary\">\n  <div class=\"stat\"><div class=\"label\">Total Score</div><div class=\"value\">";

/// Between the total score card and the percentage.
pub const PCT_OPEN: &'static str = "</div></div>\n  <div class=\"stat\"><div class=\"label\">Percentage</div><div class=\"value\">";

/// Between the percentage card and the answered count.
pub const ANSWERED_OPEN: &'static str = "%</div></div>\n  <div class=\"stat\"><div class=\"label\">Answered</div><div class=\"value\">";

/// The end of the summary and the head of the topic table.
pub const TOPICS_OPEN: &'static str = "</div></div>\n</div>\n<h2>Topic Summary</h2>\n<table>\n<thead><tr><th>Topic</th><th>Answered</th><th>Score</th><th>%</th></tr></thead>\n<tbody>";

/// The end of the topic table.
pub const TOPICS_CLOSE: &'static str = "</tbody>\n</table>\n";

/// The end of the document.
pub const HTML_CLOSE: &'static str = "\n</body>\n</html>";

/// The head of the question table of a topic.
pub const SECTION_HEAD: &'static str = "</h2><table><thead><tr><th>Lvl</th><th>Question</th><th>Score</th><th>Pts</th><th>Keywords</th></tr></thead><tbody>";

/// `n` in decimal, as a count of the report.
pub open spec fn num(n: nat) -> Seq<char> {
    spec_decimal(n)
}

/// A topic's line in the summary table: name, answered of all questions,
/// score of the points asked, and that as a percentage.
pub open spec fn html_topic_row(t: TopicData, r: Map<Seq<char>, u8>) -> Seq<char> {
    let sc = spec_score(t.questions@, r);
    let mx = spec_max_score_asked(t.questions@, r);
    let pct: nat = if mx > 0 {
        sc * 100 / mx
    } else {
        0
    };
    "<tr><td>"@ + spec_esc(t.name@) + "</td><td>"@ + num(spec_answered(t.questions@, r)) + "/"@
        + num(t.questions@.len()) + "</td><td>"@ + num(sc) + "/"@ + num(mx) + "</td><td>"@ + num(pct)
        + "%</td></tr>\n"@
}

/// The summary lines of the topics, one after another.
pub open spec fn html_topic_rows(ts: Seq<TopicData>, r: Map<Seq<char>, u8>) -> Seq<char>
    decreases ts.len(),
{
    if ts.len() == 0 {
        seq![]
    } else {
        html_topic_rows(ts.drop_last(), r) + html_topic_row(ts.last(), r)
    }
}

/// The keywords of level `i + 1`: the number in brackets, then the keywords
/// joined by commas.
pub open spec fn html_keyword(i: int, kws: Seq<Seq<char>>) -> Seq<char> {
    "<b>["@ + num((i + 1) as nat) + "]</b> "@ + spec_esc(spec_join_with(kws, ", "@))
}

/// The keyword groups of the first `n` levels that have keywords.
pub open spec fn html_keyword_parts(q: Question, n: int) -> Seq<Seq<char>>
    decreases n,
{
    if n <= 0 {
        seq![]
    } else {
        let p = html_keyword_parts(q, n - 1);
        if q.keywords@[n - 1]@.len() > 0 {
            p.push(html_keyword(n - 1, string_views(q.keywords@[n - 1]@)))
        } else {
            p
        }
    }
}

/// A question's line: level, text, score, points of the points it is worth,
/// and the keyword groups separated by two spaces.
pub open spec fn html_question_row(q: Question, r: Map<Seq<char>, u8>) -> Seq<char> {
    let score = score_of(r, q.id@);
    "<tr><td>[L"@ + num(q.level as nat) + "]</td><td>"@ + spec_esc(q.text@) + "</td><td>"@ + num(score)
        + "</td><td>"@ + num(score * q.level as nat) + "/"@ + num(4 * q.level as nat) + "</td><td>"@
        + spec_join_with(html_keyword_parts(q, 4), "  "@) + "</td></tr>\n"@
}

/// The lines of the questions, one after another.
pub open spec fn html_question_rows(qs: Seq<Question>, r: Map<Seq<char>, u8>) -> Seq<char>
    decreases qs.len(),
{
    if qs.len() == 0 {
        seq![]
    } else {
        html_question_rows(qs.drop_last(), r) + html_question_row(qs.last(), r)
    }
}

/// A topic's section: its name as a heading and the table of its questions.
pub open spec fn html_section(t: TopicData, r: Map<Seq<char>, u8>) -> Seq<char> {
    "<h2>"@ + spec_esc(t.name@) + SECTION_HEAD@ + html_question_rows(t.questions@, r)
        + "</tbody></table>"@
}

/// The sections of the topics, one after another.
pub open spec fn html_sections(ts: Seq<TopicData>, r: Map<Seq<char>, u8>) -> Seq<char>
    decreases ts.len(),
{
    if ts.len() == 0 {
        seq![]
    } else {
        html_sections(ts.drop_last(), r) + html_section(ts.last(), r)
    }
}

/// The whole report: the candidate's name, role and `date`, the total
/// score of the points asked, its percentage, the answered count, the
/// summary table and a section per topic. Names, roles and texts are
/// escaped.
pub open spec fn spec_html(c: Candidate, ts: Seq<TopicData>, r: Map<Seq<char>, u8>, date: Seq<char>) -> Seq<char> {
    let score = spec_total_score(ts, r);
    let max = spec_total_max_asked(ts, r);
    let pct: nat = if max > 0 {
        score * 100 / max
    } else {
        0
    };
    HTML_OPEN@ + spec_esc(c.name@) + HTML_STYLE@ + spec_esc(c.name@) + META_ROLE@ + spec_esc(c.role@)
        + META_DATE@ + date + SUMMARY_OPEN@ + num(score) + "/"@ + num(max) + PCT_OPEN@ + num(pct)
        + ANSWERED_OPEN@ + num(spec_total_answered(ts, r)) + "/"@ + num(spec_total_questions(ts))
        + TOPICS_OPEN@ + html_topic_rows(ts, r) + TOPICS_CLOSE@ + html_sections(ts, r) + HTML_CLOSE@
}

/// The figures of an export fit the report's arithmetic.
pub open spec fn html_fits(ts: Seq<TopicData>, r: Map<Seq<char>, u8>) -> bool {
    &&& spec_total_score(ts, r) * 100 <= u32::MAX
    &&& spec_total_max_asked(ts, r) <= u32::MAX
    &&& spec_total_questions(ts) <= usize::MAX
    &&& spec_total_answered(ts, r) <= usize::MAX
}

fn push_escaped(out: &mut String, s: &str)
    ensures
        final(out)@ == old(out)@ + spec_esc(s@),
{
    let e = esc(s);
    push_str(out, e.as_str());
}

fn push_topic_row(out: &mut String, t: &TopicData, responses: &Responses)
    requires
        spec_score(t.questions@, responses@) * 100 <= u32::MAX,
        spec_max_score_asked(t.questions@, responses@) <= u32::MAX,
    ensures
        final(out)@ == old(out)@ + html_topic_row(*t, responses@),
{
    let sc = t.score(responses);
    let mx = t.max_score_asked(responses);
    push_str(out, "<tr><td>");
    push_escaped(out, t.name.as_str());
    push_str(out, "</td><td>");
    push_decimal(out, t.answered(responses) as u64);
    push_str(out, "/");
    push_decimal(out, t.questions.len() as u64);
    push_str(out, "</td><td>");
    push_decimal(out, sc as u64);
    push_str(out, "/");
    push_decimal(out, mx as u64);
    push_str(out, "</td><td>");
    push_decimal(out, percent(sc, mx) as u64);
    push_str(out, "%</td></tr>\n");
    assert(final(out)@ =~= old(out)@ + html_topic_row(*t, responses@));
}

fn push_keyword_cell(out: &mut String, q: &Question)
    ensures
        final(out)@ == old(out)@ + spec_join_with(html_keyword_parts(*q, 4), "  "@),
{
    let ghost start = out@;
    let mut count: usize = 0;
    let mut i: usize = 0;
    while i < 4
        invariant
            i <= 4,
            count == html_keyword_parts(*q, i as int).len(),
            count <= i,
            out@ == start + spec_join_with(html_keyword_parts(*q, i as int), "  "@),
        decreases 4 - i,
    {
        if q.keywords[i].len() > 0 {
            let ghost before = out@;
            if count > 0 {
                push_str(out, "  ");
            }
            push_str(out, "<b>[");
            push_decimal(out, (i + 1) as u64);
            push_str(out, "]</b> ");
            let joined = join_strings(q.keywords[i].as_slice(), ", ");
            assert(string_views(q.keywords@[i as int]@) =~= q.keywords@[i as int]@.map_values(
                |s: String| s@,
            ));
            push_escaped(out, joined.as_str());
            let ghost parts = html_keyword_parts(*q, i as int);
            assert(html_keyword_parts(*q, i + 1) == parts.push(
                html_keyword(i as int, string_views(q.keywords@[i as int]@)),
            ));
            assert(parts.push(html_keyword(i as int, string_views(q.keywords@[i as int]@))).drop_last()
                =~= parts);
            assert(out@ =~= start + spec_join_with(html_keyword_parts(*q, i + 1), "  "@));
            count = count + 1;
        }
        i = i + 1;
    }
}

fn push_question_row(out: &mut String, q: &Question, responses: &Responses)
    ensures
        final(out)@ == old(out)@ + html_question_row(*q, responses@),
{
    let fig = crate::export::question_figures(q, responses);
    push_str(out, "<tr><td>[L");
    push_decimal(out, q.level as u64);
    push_str(out, "]</td><td>");
    push_escaped(out, q.text.as_str());
    push_str(out, "</td><td>");
    push_decimal(out, fig.score as u64);
    push_str(out, "</td><td>");
    push_decimal(out, fig.points as u64);
    push_str(out, "/");
    push_decimal(out, fig.max_points as u64);
    push_str(out, "</td><td>");
    push_keyword_cell(out, q);
    push_str(out, "</td></tr>\n");
    assert(final(out)@ =~= old(out)@ + html_question_row(*q, responses@));
}

fn push_section(out: &mut String, t: &TopicData, responses: &Responses)
    ensures
        final(out)@ == old(out)@ + html_section(*t, responses@),
{
    push_str(out, "<h2>");
    push_escaped(out, t.name.as_str());
    push_str(out, SECTION_HEAD);
    let ghost qs = t.questions@;
    let ghost mid = out@;
    let mut i: usize = 0;
    while i < t.questions.len()
        invariant
            qs == t.questions@,
            i <= qs.len(),
            out@ == mid + html_question_rows(qs.take(i as int), responses@),
        decreases qs.len() - i,
    {
        assert(qs.take(i + 1).drop_last() =~= qs.take(i as int));
        push_question_row(out, &t.questions[i], responses);
        assert(out@ =~= mid + html_question_rows(qs.take(i + 1), responses@));
        i = i + 1;
    }
    assert(qs.take(qs.len() as int) =~= qs);
    push_str(out, "</tbody></table>");
    assert(final(out)@ =~= old(out)@ + html_section(*t, responses@));
}

/// The HTML report of an export, with `date` as the interview's date.
pub fn html_report(data: &ExportData, date: &str) -> (r: String)
    requires
        html_fits(data.topics@, data.responses@),
    ensures
        r@ == spec_html(*data.candidate, data.topics@, data.responses@, date@),
{
    let ghost ts = data.topics@;
    let ghost rm = data.responses@;
    let score = total_score(data.topics, data.responses);
    let max = total_max_asked(data.topics, data.responses);
    let mut out = String::new();
    push_str(&mut out, HTML_OPEN);
    push_escaped(&mut out, data.candidate.name.as_str());
    push_str(&mut out, HTML_STYLE);
    push_escaped(&mut out, data.candidate.name.as_str());
    push_str(&mut out, META_ROLE);
    push_escaped(&mut out, data.candidate.role.as_str());
    push_str(&mut out, META_DATE);
    push_str(&mut out, date);
    push_str(&mut out, SUMMARY_OPEN);
    push_decimal(&mut out, score as u64);
    push_str(&mut out, "/");
    push_decimal(&mut out, max as u64);
    push_str(&mut out, PCT_OPEN);
    push_decimal(&mut out, percent(score, max) as u64);
    push_str(&mut out, ANSWERED_OPEN);
    push_decimal(&mut out, total_answered(data.topics, data.responses) as u64);
    push_str(&mut out, "/");
    push_decimal(&mut out, total_questions(data.topics) as u64);
    push_str(&mut out, TOPICS_OPEN);
    let ghost head = out@;
    let mut i: usize = 0;
    while i < data.topics.len()
        invariant
            ts == data.topics@,
            rm == data.responses@,
            html_fits(ts, rm),
            i <= ts.len(),
            out@ == head + html_topic_rows(ts.take(i as int), rm),
        decreases ts.len() - i,
    {
        assert(ts.take(i + 1).drop_last() =~= ts.take(i as int));
        proof {
            lemma_term_within(ts, |t: TopicData| spec_score(t.questions@, rm), i as int);
            lemma_term_within(ts, |t: TopicData| spec_max_score_asked(t.questions@, rm), i as int);
        }
        push_topic_row(&mut out, &data.topics[i], data.responses);
        assert(out@ =~= head + html_topic_rows(ts.take(i + 1), rm));
        i = i + 1;
    }
    assert(ts.take(ts.len() as int) =~= ts);
    push_str(&mut out, TOPICS_CLOSE);
    let ghost body = out@;
    let mut k: usize = 0;
    while k < data.topics.len()
        invariant
            ts == data.topics@,
            rm == data.responses@,
            k <= ts.len(),
            out@ == body + html_sections(ts.take(k as int), rm),
        decreases ts.len() - k,
    {
        assert(ts.take(k + 1).drop_last() =~= ts.take(k as int));
        push_section(&mut out, &data.topics[k], data.responses);
        assert(out@ =~= body + html_sections(ts.take(k + 1), rm));
        k = k + 1;
    }
    assert(ts.take(ts.len() as int) =~= ts);
    push_str(&mut out, HTML_CLOSE);
    assert(out@ =~= spec_html(*data.candidate, ts, rm, date@));
    out
}

/// What chrono gives for an RFC 3339 time read with
/// `DateTime::parse_from_rfc3339`, taken to UTC and written with the pattern
/// `%B %d, %Y` (such as `March 05, 2024`); `None` where the text does not
/// parse. Not restated here.
pub uninterp spec fn spec_long_date(rfc3339: Seq<char>) -> Option<Seq<char>>;

/// `chrono::DateTime::parse_from_rfc3339`, `with_timezone(&Utc)` and
/// `format("%B %d, %Y")`. The result is named by `spec_long_date` of the
/// text.
#[verifier::external_body]
fn long_date(rfc3339: &str) -> (r: Option<String>)
    ensures
        match r {
            Some(d) => spec_long_date(rfc3339@) == Some(d@),
            None => spec_long_date(rfc3339@) is None,
        },
{
    match chrono::DateTime::parse_from_rfc3339(rfc3339) {
        Ok(t) => Some(t.with_timezone(&chrono::Utc).format("%B %d, %Y").to_string()),
        Err(_) => None,
    }
}

/// The HTML export: the report of `html_report`, dated with the day the
/// candidate was created. `None` when that time is not RFC 3339 text.
pub fn to_html(data: &ExportData) -> (r: Option<String>)
    requires
        html_fits(data.topics@, data.responses@),
    ensures
        r is Some <==> spec_long_date(data.candidate.created_at@) is Some,
        r is Some ==> r->0@ == spec_html(
            *data.candidate,
            data.topics@,
            data.responses@,
            spec_long_date(data.candidate.created_at@)->0,
        ),
{
    match long_date(data.candidate.created_at.as_str()) {
        Some(date) => Some(html_report(data, date.as_str())),
        None => None,
    }
}

} // verus!
