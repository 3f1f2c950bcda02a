//! What the command-line commands compute: the per-level counts of `qb gen`,
//! the export file plan, the listing's figures and its shortened cells.

use vstd::prelude::*;
use vstd::string::StringSliceAdditionalSpecFns;
use vstd::utf8::encode_utf8;
use crate::models::{
    Responses, TopicData, spec_total_answered, spec_total_max, spec_total_questions,
    spec_total_score, total_answered, total_max, total_questions, total_score,
};
use crate::qb::{slugify, spec_slugify};
use crate::text::{
    chars_of, parse_u8, push_char, push_chars, push_signed, spec_parse_u8, spec_signed_decimal,
    spec_split, spec_trim, split_char, str_eq, string_of, trim, views,
};

verus! {

/// Why `--num` was refused.
#[derive(Debug)]
pub enum NumError {
    /// Not exactly four comma-separated parts.
    WrongCount,
    /// A part (as written) that is not a number from 0 to 255.
    Invalid(String),
}

/// Parses `--num`: four comma-separated question counts, one per level,
/// each trimmed and read as a `u8`.
pub open spec fn spec_parse_num(s: Seq<char>) -> Result<Seq<u8>, Seq<char>> {
    let parts = spec_split(s, ',');
    if parts.len() != 4 {
        Err(seq![])
    } else if spec_parse_u8(spec_trim(parts[0])) is None {
        Err(parts[0])
    } else if spec_parse_u8(spec_trim(parts[1])) is None {
        Err(parts[1])
    } else if spec_parse_u8(spec_trim(parts[2])) is None {
        Err(parts[2])
    } else if spec_parse_u8(spec_trim(parts[3])) is None {
        Err(parts[3])
    } else {
        Ok(
            seq![
                spec_parse_u8(spec_trim(parts[0]))->0,
                spec_parse_u8(spec_trim(parts[1]))->0,
                spec_parse_u8(spec_trim(parts[2]))->0,
                spec_parse_u8(spec_trim(parts[3]))->0,
            ],
        )
    }
}

/// Reads the four per-level question counts of `--num`, e.g. `3,3,2,2`.
pub fn parse_num(s: &str) -> (r: Result<[u8; 4], NumError>)
    ensures
        spec_split(s@, ',').len() != 4 <==> r matches Err(NumError::WrongCount),
        r matches Err(NumError::Invalid(p)) ==> spec_parse_num(s@) == Err::<Seq<u8>, Seq<char>>(p@),
        r matches Ok(a) ==> spec_parse_num(s@) == Ok::<Seq<u8>, Seq<char>>(a@),
        r is Ok <==> spec_parse_num(s@) is Ok,
{
    let cs = chars_of(s);
    let parts = split_char(cs.as_slice(), ',');
    if parts.len() != 4 {
        return Err(NumError::WrongCount);
    }
    let ghost ps = views(parts@);
    assert(ps[0] == parts@[0]@ && ps[1] == parts@[1]@ && ps[2] == parts@[2]@ && ps[3] == parts@[3]@);
    let a = match parse_u8(trim(parts[0].as_slice()).as_slice()) {
        Some(v) => v,
        None => {
            return Err(NumError::Invalid(string_of(parts[0].as_slice())));
        },
    };
    let b = match parse_u8(trim(parts[1].as_slice()).as_slice()) {
        Some(v) => v,
        None => {
            return Err(NumError::Invalid(string_of(parts[1].as_slice())));
        },
    };
    let c = match parse_u8(trim(parts[2].as_slice()).as_slice()) {
        Some(v) => v,
        None => {
            return Err(NumError::Invalid(string_of(parts[2].as_slice())));
        },
    };
    let d = match parse_u8(trim(parts[3].as_slice()).as_slice()) {
        Some(v) => v,
        None => {
            return Err(NumError::Invalid(string_of(parts[3].as_slice())));
        },
    };
    let r = [a, b, c, d];
    assert(r@ =~= seq![a, b, c, d]);
    Ok(r)
}

/// A listing cell cut to at most `max` bytes: when longer, its first
/// `max - 1` bytes and `…`.
pub open spec fn truncated_cell(s: Seq<char>, max: nat, r: Seq<char>) -> bool {
    if encode_utf8(s).len() <= max {
        r == s
    } else {
        exists|p: Seq<char>|
            r == p + seq!['…'] && encode_utf8(p) == encode_utf8(s).take(
                if max > 0 { max - 1 } else { 0 },
            )
    }
}

/// The cut falls on a character boundary (else slicing the string panics).
pub open spec fn cut_ok(s: &str, max: usize) -> bool {
    s.spec_bytes().len() <= max || vstd::utf8::is_char_boundary(
        s.spec_bytes(),
        if max > 0 { max - 1 } else { 0 },
    )
}

/// Shortens a listing cell to at most `max` bytes, marking a cut with `…`.
pub fn truncate_str(s: &str, max: usize) -> (r: String)
    requires
        s.spec_bytes().len() <= usize::MAX,
        cut_ok(s, max),
    ensures
        truncated_cell(s@, max as nat, r@),
{
    if s.len() <= max {
        return String::from_str(s);
    }
    let k = if max > 0 {
        max - 1
    } else {
        0
    };
    let (head, _tail) = s.split_at(k);
    let mut out = String::from_str(head);
    push_char(&mut out, '…');
    proof {
        assert(head.spec_bytes() =~= s.spec_bytes().take(k as int));
        assert(out@ == head@ + seq!['…']);
    }
    out
}

/// Whether the cut of `truncate_str` falls on a character boundary.
pub fn cut_is_ok(s: &str, max: usize) -> (r: bool)
    requires
        s.spec_bytes().len() <= usize::MAX,
    ensures
        r == cut_ok(s, max),
{
    s.len() <= max || s.is_char_boundary(if max > 0 { max - 1 } else { 0 })
}

/// The export formats.
#[derive(Clone, Copy, Debug, PartialEq, Eq, Structural)]
pub enum ExportFormat {
    Json,
    Csv,
    Html,
    Pdf,
}

/// Where and how an export is written.
pub struct ExportPlan {
    pub format: ExportFormat,
    /// `<id>.<ext>`.
    pub default_name: String,
}

/// Why an export request was refused.
#[derive(Debug)]
pub enum ExportError {
    /// PDF output cannot go to the clipboard.
    ClipboardPdf,
    /// Not one of json, csv, html, pdf.
    UnknownFormat(String),
}

pub open spec fn format_named(f: Seq<char>) -> Option<(ExportFormat, Seq<char>)> {
    if f == seq!['j', 's', 'o', 'n'] {
        Some((ExportFormat::Json, seq!['j', 's', 'o', 'n']))
    } else if f == seq!['c', 's', 'v'] {
        Some((ExportFormat::Csv, seq!['c', 's', 'v']))
    } else if f == seq!['h', 't', 'm', 'l'] {
        Some((ExportFormat::Html, seq!['h', 't', 'm', 'l']))
    } else if f == seq!['p', 'd', 'f'] {
        Some((ExportFormat::Pdf, seq!['p', 'd', 'f']))
    } else {
        None
    }
}

/// Decides an export: the format, the default file name `<id>.<ext>`, or
/// the refusal.
pub fn export_plan(format: &str, id: i64, clipboard: bool) -> (r: Result<
    ExportPlan,
    ExportError,
>)
    ensures
        format_named(format@) is None <==> r matches Err(ExportError::UnknownFormat(_)),
        r matches Err(ExportError::UnknownFormat(f)) ==> f@ == format@,
        r matches Err(ExportError::ClipboardPdf) <==> (format@ == seq!['p', 'd', 'f'] && clipboard),
        r matches Ok(p) ==> format_named(format@) matches Some((fmt, ext)) && p.format == fmt
            && p.default_name@ == spec_signed_decimal(id as int) + seq!['.'] + ext,
{
    let mut base = String::new();
    push_signed(&mut base, id);
    proof {
        reveal_strlit("json");
        reveal_strlit("csv");
        reveal_strlit("html");
        reveal_strlit("pdf");
        assert("json"@ =~= seq!['j', 's', 'o', 'n']);
        assert("csv"@ =~= seq!['c', 's', 'v']);
        assert("html"@ =~= seq!['h', 't', 'm', 'l']);
        assert("pdf"@ =~= seq!['p', 'd', 'f']);
    }
    let (fmt, ext) = if str_eq(format, "pdf") {
        if clipboard {
            return Err(ExportError::ClipboardPdf);
        }
        (ExportFormat::Pdf, "pdf")
    } else if str_eq(format, "json") {
        (ExportFormat::Json, "json")
    } else if str_eq(format, "csv") {
        (ExportFormat::Csv, "csv")
    } else if str_eq(format, "html") {
        (ExportFormat::Html, "html")
    } else {
        return Err(ExportError::UnknownFormat(String::from_str(format)));
    };
    push_char(&mut base, '.');
    push_chars(&mut base, chars_of(ext).as_slice());
    Ok(ExportPlan { format: fmt, default_name: base })
}

/// The figures of a candidate's line in the listing.
pub struct ListFigures {
    pub answered: usize,
    pub total_questions: usize,
    pub score: u32,
    pub max_score: u32,
}

/// A candidate's figures for the listing: answered and total questions,
/// score and the points of all questions.
pub fn list_figures(topics: &[TopicData], responses: &Responses) -> (r: ListFigures)
    requires
        spec_total_answered(topics@, responses@) <= usize::MAX,
        spec_total_questions(topics@) <= usize::MAX,
        spec_total_score(topics@, responses@) <= u32::MAX,
        spec_total_max(topics@) <= u32::MAX,
    ensures
        r.answered == spec_total_answered(topics@, responses@),
        r.total_questions == spec_total_questions(topics@),
        r.score == spec_total_score(topics@, responses@),
        r.max_score == spec_total_max(topics@),
{
    ListFigures {
        answered: total_answered(topics, responses),
        total_questions: total_questions(topics),
        score: total_score(topics, responses),
        max_score: total_max(topics),
    }
}

/// What `start` was asked to do.
pub enum StartPlan {
    /// Resume the interview of an existing candidate.
    Resume { id: i64 },
    /// Open a new interview for a candidate with this name and role slug.
    Fresh { name: String, role: String },
}

/// Why `start` was refused.
#[derive(Debug, PartialEq, Eq, Structural)]
pub enum StartError {
    /// A new interview needs `--name`.
    MissingName,
    /// A new interview needs `--role`.
    MissingRole,
}

/// Decides `start`: an id re-opens that candidate's interview; without an
/// id a new interview is opened, which needs a name and a role (kept as its
/// slug).
pub fn start_plan(id: Option<i64>, name: Option<String>, role: Option<String>) -> (r: Result<
    StartPlan,
    StartError,
>)
    ensures
        id is Some ==> (r matches Ok(StartPlan::Resume { id: k }) && Some(k) == id),
        id is None ==> match (name, role) {
            (None, _) => r == Err::<StartPlan, StartError>(StartError::MissingName),
            (Some(_), None) => r == Err::<StartPlan, StartError>(StartError::MissingRole),
            (Some(n), Some(ro)) => (r matches Ok(StartPlan::Fresh { name: n2, role: r2 }) && n2@ == n@
                && r2@ == spec_slugify(ro@)),
        },
{
    if let Some(k) = id {
        return Ok(StartPlan::Resume { id: k });
    }
    match name {
        None => Err(StartError::MissingName),
        Some(n) => match role {
            None => Err(StartError::MissingRole),
            Some(ro) => Ok(StartPlan::Fresh { name: n, role: slugify(ro.as_str()) }),
        },
    }
}

} // verus!
