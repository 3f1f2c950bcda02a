//! The interviewer's name: from the environment, the config file, or a
//! default; and when the first-run prompt is due.

use vstd::prelude::*;
use crate::text::{chars_of, spec_trim, string_of, trim};

verus! {

/// The saved configuration.
pub struct Config {
    pub interviewer: Option<String>,
}

/// The trimmed value, when it is not blank.
pub open spec fn spec_nonempty(v: Option<Seq<char>>) -> Option<Seq<char>> {
    match v {
        Some(s) => if spec_trim(s).len() > 0 {
            Some(spec_trim(s))
        } else {
            None
        },
        None => None,
    }
}

pub open spec fn opt_view(v: Option<String>) -> Option<Seq<char>> {
    match v {
        Some(s) => Some(s@),
        None => None,
    }
}

/// The trimmed text of `v`, unless it is absent or blank.
pub fn nonempty(v: &Option<String>) -> (r: Option<String>)
    ensures
        opt_view(r) == spec_nonempty(opt_view(*v)),
{
    match v {
        Some(s) => {
            let t = trim(chars_of(s.as_str()).as_slice());
            if t.len() > 0 {
                Some(string_of(t.as_slice()))
            } else {
                None
            }
        },
        None => None,
    }
}

/// The interviewer's name: the `JUDGE_INTERVIEWER` value when not blank,
/// else the configured name when not blank, else `Interviewer`; trimmed.
pub open spec fn spec_interviewer_name(env: Option<Seq<char>>, configured: Option<Seq<char>>) -> Seq<
    char,
> {
    match spec_nonempty(env) {
        Some(n) => n,
        None => match spec_nonempty(configured) {
            Some(n) => n,
            None => seq!['I', 'n', 't', 'e', 'r', 'v', 'i', 'e', 'w', 'e', 'r'],
        },
    }
}

/// Picks the interviewer's name from the environment value and the loaded
/// configuration (either absent when it could not be read).
pub fn interviewer_name(env: Option<String>, config: Option<Config>) -> (r: String)
    ensures
        r@ == spec_interviewer_name(
            opt_view(env),
            match config {
                Some(c) => opt_view(c.interviewer),
                None => None,
            },
        ),
{
    if let Some(n) = nonempty(&env) {
        return n;
    }
    if let Some(c) = config {
        if let Some(n) = nonempty(&c.interviewer) {
            return n;
        }
    }
    proof {
        reveal_strlit("Interviewer");
    }
    let r = String::from_str("Interviewer");
    assert(r@ =~= seq!['I', 'n', 't', 'e', 'r', 'v', 'i', 'e', 'w', 'e', 'r']);
    r
}

/// Whether the first-run prompt is due: no non-blank name in the
/// environment or in the configuration.
pub fn needs_setup(env: &Option<String>, config: &Config) -> (r: bool)
    ensures
        r == (spec_nonempty(opt_view(*env)) is None && spec_nonempty(opt_view(config.interviewer))
            is None),
{
    nonempty(env).is_none() && nonempty(&config.interviewer).is_none()
}

} // verus!
