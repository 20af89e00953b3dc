//! Reading one line as the report of an upgrade.
use crate::pattern::{captures, group, group_of, regex_captures};
use crate::text::{chars_of, parse_number, parse_unsigned};
use vstd::prelude::*;

verus! {

/// ``Updates `package` from 1.0 to 1.1``; the groups are the package and the
/// two versions.
pub const UPDATE_PATTERN: &'static str = "Updates `([^`]+)` from ([^ ]+) to ([^ ]+)";

/// `Bump [package](link) from 1.0 to 1.1`, or `Bumps`; the groups are the
/// package and the two versions.
pub const BUMP_LINK_PATTERN: &'static str =
    "Bumps? \\[([^\\]]+)\\]\\([^\\)]+\\) from ([^ ]+) to ([^ ]+)";

/// `Bump package from 1.0 to 1.1`, or `Bumps`; the groups are the package and
/// the two versions.
pub const BUMP_PATTERN: &'static str = "Bumps? ([^ ]+) from ([^ ]+) to ([^ ]+)";

/// A pull request's number in brackets; its group is the number.
pub const PR_TOKEN_PATTERN: &'static str = "\\(#([0-9]+)\\)";

/// That a package went from one version to another, as one line reports it.
#[derive(Debug, PartialEq, Eq)]
pub struct ParsedUpdate {
    /// The package.
    pub package: String,
    /// The version it had.
    pub from_version: String,
    /// The version it got.
    pub to_version: String,
    /// The pull request that the line names, where it names one.
    pub pr_number: Option<u64>,
}

/// A `ParsedUpdate` as contracts see it.
pub struct Upgrade {
    pub package: Seq<char>,
    pub from: Seq<char>,
    pub to: Seq<char>,
    pub pr: Option<u64>,
}

impl View for ParsedUpdate {
    type V = Upgrade;

    open spec fn view(&self) -> Upgrade {
        Upgrade {
            package: self.package@,
            from: self.from_version@,
            to: self.to_version@,
            pr: self.pr_number,
        }
    }
}

impl DeepView for ParsedUpdate {
    type V = Upgrade;

    open spec fn deep_view(&self) -> Upgrade {
        self@
    }
}

/// The number that a text spells, where it fits 64 bits.
pub open spec fn number_of(digits: Option<Seq<char>>) -> Option<u64> {
    match digits {
        Some(d) => match parse_unsigned(d, u64::MAX as nat) {
            Some(n) => Some(n as u64),
            None => None,
        },
        None => None,
    }
}

/// The number in the first group of the first match of `pattern` in `text`.
pub open spec fn captured_number(pattern: Seq<char>, text: Seq<char>) -> Option<u64> {
    number_of(group(regex_captures(pattern, text), 1))
}

/// The match that decides how `line` is read: that of the first of the three
/// patterns that matches.
pub open spec fn update_match(line: Seq<char>) -> Option<Seq<Option<Seq<char>>>> {
    if regex_captures(UPDATE_PATTERN@, line) is Some {
        regex_captures(UPDATE_PATTERN@, line)
    } else if regex_captures(BUMP_LINK_PATTERN@, line) is Some {
        regex_captures(BUMP_LINK_PATTERN@, line)
    } else {
        regex_captures(BUMP_PATTERN@, line)
    }
}

/// The upgrade that a match shows: its first three groups are the package
/// and the two versions. `None` where there is no match, or where one of the
/// three groups is missing.
pub open spec fn upgrade_in(groups: Option<Seq<Option<Seq<char>>>>, pr: Option<u64>) -> Option<
    Upgrade,
> {
    if group(groups, 1) is Some && group(groups, 2) is Some && group(groups, 3) is Some {
        Some(
            Upgrade {
                package: group(groups, 1)->0,
                from: group(groups, 2)->0,
                to: group(groups, 3)->0,
                pr,
            },
        )
    } else {
        None
    }
}

/// The upgrade that `line` reports, where it reports one. The pull request
/// is the first one that the line names in brackets.
pub open spec fn parsed(line: Seq<char>) -> Option<Upgrade> {
    upgrade_in(update_match(line), captured_number(PR_TOKEN_PATTERN@, line))
}

/// The number that `digits` spells, where there is a text and it spells one
/// that fits 64 bits.
pub fn number_in(digits: &Option<String>) -> (n: Option<u64>)
    ensures
        n == number_of(digits.deep_view()),
{
    match digits {
        Some(d) => parse_number(&chars_of(d.as_str()), u64::MAX),
        None => None,
    }
}

/// The number in the first group of the first match of `pattern` in `text`.
pub(crate) fn number_after(pattern: &str, text: &str) -> (n: Option<u64>)
    ensures
        n == captured_number(pattern@, text@),
{
    let groups = captures(pattern, text);
    number_in(&group_of(&groups, 1))
}

/// The upgrade that the match `groups` shows, with `pr` as its pull request.
pub fn update_from_groups(groups: &Option<Vec<Option<String>>>, pr: Option<u64>) -> (update:
    Option<ParsedUpdate>)
    ensures
        update.deep_view() == upgrade_in(groups.deep_view(), pr),
{
    match (group_of(groups, 1), group_of(groups, 2), group_of(groups, 3)) {
        (Some(package), Some(from_version), Some(to_version)) => Some(
            ParsedUpdate { package, from_version, to_version, pr_number: pr },
        ),
        _ => None,
    }
}

/// The match that decides how `line` is read.
fn match_update(line: &str) -> (groups: Option<Vec<Option<String>>>)
    ensures
        groups.deep_view() == update_match(line@),
{
    let plain = captures(UPDATE_PATTERN, line);
    if plain.is_some() {
        return plain;
    }
    let linked = captures(BUMP_LINK_PATTERN, line);
    if linked.is_some() {
        return linked;
    }
    captures(BUMP_PATTERN, line)
}

/// Reads `line` as the report of an upgrade.
pub fn parse_update_line(line: &str) -> (update: Option<ParsedUpdate>)
    ensures
        update.deep_view() == parsed(line@),
{
    let groups = match_update(line);
    let pr = if groups.is_some() {
        number_after(PR_TOKEN_PATTERN, line)
    } else {
        None
    };
    update_from_groups(&groups, pr)
}

} // verus!
