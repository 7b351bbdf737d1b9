//! Regular-expression matching, done by the `regex` crate.
use vstd::prelude::*;
use crate::text::opt_string;

verus! {

/// The groups of a match, each present or not, as text.
pub open spec fn groups_view(g: Seq<Option<String>>) -> Seq<Option<Seq<char>>> {
    g.map_values(|o: Option<String>| opt_string(o))
}

/// The groups of every match, in order.
pub open spec fn matches_view(m: Seq<Vec<Option<String>>>) -> Seq<Seq<Option<Seq<char>>>> {
    m.map_values(|g: Vec<Option<String>>| groups_view(g@))
}

/// What `regex` reports as the first match of `pattern` in `text`: the text
/// of every group (group 0 being the whole match), or nothing when there is
/// no match or the pattern does not compile.
pub uninterp spec fn first_match_groups(pattern: Seq<char>, text: Seq<char>) -> Option<
    Seq<Option<Seq<char>>>,
>;

/// What `regex` reports as the successive non-overlapping matches of
/// `pattern` in `text`, each as the text of its groups; nothing when the
/// pattern does not compile.
pub uninterp spec fn all_match_groups(pattern: Seq<char>, text: Seq<char>) -> Seq<
    Seq<Option<Seq<char>>>,
>;

/// Compiles `pattern` with `regex::Regex::new` and runs `Regex::captures` on
/// `text`. The contract claims only that the result is what the `regex` crate
/// computes from the pattern and the text; the matching itself is not
/// stated.
#[verifier::external_body]
pub(crate) fn captures(pattern: &str, text: &str) -> (r: Option<Vec<Option<String>>>)
    ensures
        match r {
            Some(g) => first_match_groups(pattern@, text@) == Some(groups_view(g@)),
            None => first_match_groups(pattern@, text@) is None,
        },
{
    let re = regex::Regex::new(pattern).ok()?;
    let caps = re.captures(text)?;
    Some(caps.iter().map(|m| m.map(|m| m.as_str().to_owned())).collect())
}

/// Compiles `pattern` with `regex::Regex::new` and runs
/// `Regex::captures_iter` on `text`. The contract claims only that the result
/// is what the `regex` crate computes from the pattern and the text.
#[verifier::external_body]
pub(crate) fn captures_all(pattern: &str, text: &str) -> (r: Vec<Vec<Option<String>>>)
    ensures
        matches_view(r@) == all_match_groups(pattern@, text@),
{
    match regex::Regex::new(pattern) {
        Ok(re) => re
            .captures_iter(text)
            .map(|c| c.iter().map(|m| m.map(|m| m.as_str().to_owned())).collect())
            .collect(),
        Err(_) => Vec::new(),
    }
}

} // verus!
