//! Regular expressions that choose which file names may be uninstalled.

use regex::Regex;

use vstd::prelude::*;

use crate::text::views;

verus! {

/// Whether `Regex::new` accepts `pattern` and, if it does, whether
/// `Regex::is_match` finds a match of it in `name`.
pub uninterp spec fn regex_match(pattern: Seq<char>, name: Seq<char>) -> Option<bool>;

/// Calls `Regex::new` and, where it succeeds, `Regex::is_match`: whether the
/// pattern matches somewhere in `name`; nothing where it is no regular
/// expression.
#[verifier::external_body]
fn match_pattern(pattern: &str, name: &str) -> (found: Option<bool>)
    ensures
        found == regex_match(pattern@, name@),
{
    Regex::new(pattern).ok().map(|regex| regex.is_match(name))
}

/// Whether one of the patterns matches `name`; a malformed pattern matches
/// nothing.
pub open spec fn any_match(patterns: Seq<Seq<char>>, name: Seq<char>) -> bool {
    exists|i: int|
        0 <= i < patterns.len() && regex_match(#[trigger] patterns[i], name) == Some(true)
}

/// Whether one of the outcomes is a match.
pub open spec fn any_hit(outcomes: Seq<Option<bool>>) -> bool {
    exists|i: int| 0 <= i < outcomes.len() && #[trigger] outcomes[i] == Some(true)
}

/// Whether one of the outcomes is a match; a malformed pattern, whose outcome
/// is nothing, counts as none.
pub fn has_hit(outcomes: &Vec<Option<bool>>) -> (hit: bool)
    ensures
        hit == any_hit(outcomes@),
{
    let mut i: usize = 0;
    while i < outcomes.len()
        invariant
            i <= outcomes@.len(),
            forall|j: int| 0 <= j < i ==> #[trigger] outcomes@[j] != Some(true),
        decreases outcomes@.len() - i,
    {
        match outcomes[i] {
            Some(hit) => {
                if hit {
                    return true;
                }
            },
            None => {},
        }
        i = i + 1;
    }
    false
}

/// Whether one of `patterns` matches the file name `name`.
pub fn matches_uninstall_patterns(name: &str, patterns: &Vec<String>) -> (found: bool)
    ensures
        found == any_match(views(patterns@), name@),
{
    let mut outcomes: Vec<Option<bool>> = Vec::new();
    let ghost all = views(patterns@);
    let mut i: usize = 0;
    while i < patterns.len()
        invariant
            i <= patterns@.len(),
            all == views(patterns@),
            outcomes@.len() == i,
            forall|j: int|
                0 <= j < i ==> #[trigger] outcomes@[j] == regex_match(all[j], name@),
        decreases patterns@.len() - i,
    {
        outcomes.push(match_pattern(patterns[i].as_str(), name));
        i = i + 1;
    }
    let found = has_hit(&outcomes);
    proof {
        if found {
            let j = choose|j: int| 0 <= j < outcomes@.len() && #[trigger] outcomes@[j] == Some(true);
            assert(regex_match(all[j], name@) == Some(true));
        } else if any_match(all, name@) {
            let j = choose|j: int|
                0 <= j < all.len() && regex_match(#[trigger] all[j], name@) == Some(true);
            assert(outcomes@[j] == Some(true));
        }
    }
    found
}

} // verus!
