//! Matching text against regular expressions.
use regex::Regex;
use vstd::prelude::*;

verus! {

/// The capture groups of the first match of the regular expression `pattern`
/// in `haystack`, the whole match first; each group is the text it matched,
/// or `None` where it took no part. `None` where nothing matches, or where
/// `pattern` is no regular expression.
pub uninterp spec fn regex_captures(pattern: Seq<char>, haystack: Seq<char>) -> Option<
    Seq<Option<Seq<char>>>,
>;

/// `Regex::new` on `pattern`, then `Regex::captures` on `haystack`, each
/// group copied out as a string: the result is what `regex_captures` names.
#[verifier::external_body]
pub(crate) fn captures(pattern: &str, haystack: &str) -> (groups: Option<Vec<Option<String>>>)
    ensures
        groups.deep_view() == regex_captures(pattern@, haystack@),
{
    match Regex::new(pattern) {
        Ok(re) => re.captures(haystack).map(
            |found| found.iter().map(|group| group.map(|m| m.as_str().to_string())).collect(),
        ),
        Err(_) => None,
    }
}

/// Group `k` of a match, where the match has such a group and it took part.
pub open spec fn group(groups: Option<Seq<Option<Seq<char>>>>, k: int) -> Option<Seq<char>> {
    match groups {
        Some(g) => if 0 <= k < g.len() {
            g[k]
        } else {
            None
        },
        None => None,
    }
}

/// Group `k` of a match, where the match has such a group and it took part.
pub fn group_of(groups: &Option<Vec<Option<String>>>, k: usize) -> (text: Option<String>)
    ensures
        text.deep_view() == group(groups.deep_view(), k as int),
{
    match groups {
        Some(g) => if k < g.len() {
            match &g[k] {
                Some(t) => Some(t.clone()),
                None => None,
            }
        } else {
            None
        },
        None => None,
    }
}

} // verus!
