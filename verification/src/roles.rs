//! Role files: the list of topics a role covers, and the topics loaded for it.

use vstd::prelude::*;
use crate::models::{Question, TopicData};
use crate::qb::{draft_of, identified, parse_topic_file, spec_parse_topic, bullet_marker};
use crate::text::{
    chars_of, spec_lines, spec_starts_with, spec_trim, split_lines, starts_with, string_of, trim,
    views,
};

verus! {

/// The topic a role-file line names: a trimmed line `- slug`, the slug
/// trimmed and non-empty.
pub open spec fn role_line_topic(raw: Seq<char>) -> Option<Seq<char>> {
    let line = spec_trim(raw);
    if spec_starts_with(line, bullet_marker()) && spec_trim(line.skip(2)).len() > 0 {
        Some(spec_trim(line.skip(2)))
    } else {
        None
    }
}

/// The topics named by the first `n` lines.
pub open spec fn role_topics_upto(lines: Seq<Seq<char>>, n: nat) -> Seq<Seq<char>>
    decreases n,
{
    if n == 0 {
        seq![]
    } else {
        role_topics_upto(lines, (n - 1) as nat) + match role_line_topic(lines[n - 1]) {
            Some(t) => seq![t],
            None => seq![],
        }
    }
}

/// The topics a role file lists, in order.
pub open spec fn spec_role_topics(content: Seq<char>) -> Seq<Seq<char>> {
    let ls = spec_lines(content);
    role_topics_upto(ls, ls.len())
}

/// Why a role file gives no topics.
#[derive(Debug)]
pub enum RoleError {
    /// No line of the form `- topic`.
    NoTopics,
}

/// The topics a role file lists (lines `- topic`); an error when it lists
/// none.
pub fn parse_role_topics(content: &str) -> (r: Result<Vec<String>, RoleError>)
    ensures
        r matches Ok(ts) ==> ts@.map_values(|s: String| s@) == spec_role_topics(content@)
            && ts@.len() > 0,
        r is Err <==> spec_role_topics(content@).len() == 0,
{
    let chars = chars_of(content);
    let lines = split_lines(chars.as_slice());
    let bullet = chars_of("- ");
    proof {
        reveal_strlit("- ");
        assert(bullet@ =~= bullet_marker());
    }
    let ghost ls = views(lines@);
    let mut topics: Vec<String> = Vec::new();
    let mut i: usize = 0;
    while i < lines.len()
        invariant
            ls == views(lines@),
            bullet@ == bullet_marker(),
            i <= lines@.len(),
            topics@.map_values(|s: String| s@) == role_topics_upto(ls, i as nat),
        decreases lines@.len() - i,
    {
        assert(ls[i as int] == lines@[i as int]@);
        let line = trim(lines[i].as_slice());
        let ghost before = topics@.map_values(|s: String| s@);
        if starts_with(line.as_slice(), bullet.as_slice()) {
            let n = line.len();
            assert(line@.skip(2) =~= line@.subrange(2, n as int));
            let t = trim(&line.as_slice()[2..n]);
            if t.len() > 0 {
                let s = string_of(t.as_slice());
                topics.push(s);
                assert(topics@.map_values(|s: String| s@) =~= before.push(t@));
            }
        }
        assert(topics@.map_values(|s: String| s@) =~= role_topics_upto(ls, (i + 1) as nat));
        i = i + 1;
    }
    if topics.len() == 0 {
        return Err(RoleError::NoTopics);
    }
    Ok(topics)
}

/// The topics of a role, each with the questions of its bank file; a topic
/// whose bank could not be read (`None`) has no questions.
pub fn load_topics_for_role(banks: Vec<(String, Option<String>)>) -> (r: Vec<TopicData>)
    ensures
        r@.len() == banks@.len(),
        forall|i: int|
            0 <= i < r@.len() ==> {
                &&& (#[trigger] r@[i]).name@ == banks@[i].0@
                &&& match banks@[i].1 {
                    Some(content) => r@[i].questions@.map_values(|q: Question| draft_of(q))
                        == spec_parse_topic(content@) && forall|j: int|
                        0 <= j < r@[i].questions@.len() ==> identified(
                            #[trigger] r@[i].questions@[j],
                            banks@[i].0@,
                        ),
                    None => r@[i].questions@.len() == 0,
                }
            },
{
    let mut out: Vec<TopicData> = Vec::new();
    let mut i: usize = 0;
    while i < banks.len()
        invariant
            i <= banks@.len(),
            out@.len() == i,
            forall|k: int|
                0 <= k < i ==> {
                    &&& (#[trigger] out@[k]).name@ == banks@[k].0@
                    &&& match banks@[k].1 {
                        Some(content) => out@[k].questions@.map_values(|q: Question| draft_of(q))
                            == spec_parse_topic(content@) && forall|j: int|
                            0 <= j < out@[k].questions@.len() ==> identified(
                                #[trigger] out@[k].questions@[j],
                                banks@[k].0@,
                            ),
                        None => out@[k].questions@.len() == 0,
                    }
                },
        decreases banks@.len() - i,
    {
        let slug = &banks[i].0;
        let questions = match &banks[i].1 {
            Some(content) => parse_topic_file(slug.as_str(), content.as_str()),
            None => Vec::new(),
        };
        out.push(TopicData { name: slug.clone(), questions });
        i = i + 1;
    }
    out
}

} // verus!
