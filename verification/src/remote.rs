//! Finding the owner and the name of a repository in the address of its
//! remote.
use crate::pattern::{captures, group, group_of, regex_captures};
use vstd::prelude::*;

verus! {

/// The address of a repository on GitHub; the first two groups are the owner
/// and the name.
pub const REMOTE_PATTERN: &'static str = "github\\.com[:/]([^/]+)/([^/\\.]+)(\\.git)?";

/// The text of group `k` of a match, or the empty text where it has none.
pub open spec fn group_or_empty(groups: Option<Seq<Option<Seq<char>>>>, k: int) -> Seq<char> {
    match group(groups, k) {
        Some(text) => text,
        None => Seq::empty(),
    }
}

/// The owner and the name that a match of the address shows: its first two
/// groups, each empty where it is missing or where there is no match.
pub open spec fn repository_in(groups: Option<Seq<Option<Seq<char>>>>) -> (Seq<char>, Seq<char>) {
    (group_or_empty(groups, 1), group_or_empty(groups, 2))
}

/// The owner and the name that the match `groups` of an address shows.
pub fn repository_from_groups(groups: &Option<Vec<Option<String>>>) -> (repository: (
    String,
    String,
))
    ensures
        (repository.0@, repository.1@) == repository_in(groups.deep_view()),
{
    let owner = match group_of(groups, 1) {
        Some(text) => text,
        None => String::new(),
    };
    let name = match group_of(groups, 2) {
        Some(text) => text,
        None => String::new(),
    };
    (owner, name)
}

/// The owner and the name of the repository at the address `url`; both are
/// empty where the address is not one of GitHub.
pub fn repository_of(url: &str) -> (repository: (String, String))
    ensures
        (repository.0@, repository.1@) == repository_in(regex_captures(REMOTE_PATTERN@, url@)),
{
    let groups = captures(REMOTE_PATTERN, url);
    repository_from_groups(&groups)
}

} // verus!
