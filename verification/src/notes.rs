//! Assembling the release notes.
//!
//! The document has up to three parts: a warning that names the packages
//! whose major version rose, the consolidated upgrades in ascending order
//! under their heading, and the other changes under theirs, in ascending
//! order and each once. The lines are joined by line feeds; with nothing to
//! report the document is empty.
use crate::consolidate::{
    consolidate_dependabot_updates, consolidated, law_consolidated_is_empty_for_nothing_only,
};
use crate::order::{
    ascending, deduplicated, drop_repeats, law_deduplicated, law_sorted, sort_lines, sorted,
    strictly_ascending,
};
use crate::parse::{update_from_groups, upgrade_in, ParsedUpdate, Upgrade, UPDATE_PATTERN};
use crate::pattern::{captures, regex_captures};
use crate::text::{
    append_line, append_lines, append_str, chars_of, join, joined, parse_number, parse_unsigned,
    slice_of, string_of,
};
use vstd::prelude::*;

verus! {

/// What the warning begins with.
pub const WARNING_HEAD: &'static str = "⚠ WARNING: Major version changes detected: ";

/// The heading of the upgrades.
pub const DEPENDENCY_HEADING: &'static str = "## Dependencies updated by dependabot:";

/// The heading of the other changes.
pub const OTHER_HEADING: &'static str = "## Other changes:";

/// Where the first component of `version` ends: the position of its first
/// dot, or its length where it has none.
pub open spec fn component_end(version: Seq<char>) -> nat
    decreases version.len(),
{
    if version.len() == 0 || version[0] == '.' {
        0
    } else {
        1 + component_end(version.drop_first())
    }
}

/// The major version: the number that the first component of `version`
/// spells, where it spells one that fits 32 bits.
pub open spec fn major(version: Seq<char>) -> Option<nat> {
    parse_unsigned(version.take(component_end(version) as int), u32::MAX as nat)
}

/// The major version rises from `from` to `to`: both have one, and that of
/// `to` is the greater.
pub open spec fn major_rises(from: Seq<char>, to: Seq<char>) -> bool {
    major(from) is Some && major(to) is Some && major(to)->0 > major(from)->0
}

/// How a rise of the major version is reported.
pub open spec fn major_note(u: Upgrade) -> Seq<char> {
    u.package + ": "@ + u.from + " → "@ + u.to
}

/// The upgrade that `line` shows when read as a consolidated line.
pub open spec fn listed_upgrade(line: Seq<char>) -> Option<Upgrade> {
    upgrade_in(regex_captures(UPDATE_PATTERN@, line), None)
}

/// The reports of the lines among `rows` that show a rise of the major
/// version, in their order.
pub open spec fn major_notes(rows: Seq<Seq<char>>) -> Seq<Seq<char>>
    decreases rows.len(),
{
    if rows.len() == 0 {
        Seq::empty()
    } else {
        match listed_upgrade(rows.last()) {
            Some(u) => if major_rises(u.from, u.to) {
                major_notes(rows.drop_last()).push(major_note(u))
            } else {
                major_notes(rows.drop_last())
            },
            None => major_notes(rows.drop_last()),
        }
    }
}

/// The warning for the reports `major` of risen major versions: nothing
/// where there is none, else the reports in ascending order on one line, and
/// an empty line.
pub open spec fn warning_block(major: Seq<Seq<char>>) -> Seq<Seq<char>> {
    if major.len() == 0 {
        Seq::empty()
    } else {
        seq![WARNING_HEAD@ + joined(sorted(major), ", "@), Seq::empty()]
    }
}

/// The part of the document on upgrades, given the consolidated lines and
/// the reports of risen major versions: nothing where there is no line, else
/// the warning, the heading, an empty line, the lines in ascending order,
/// and an empty line.
pub open spec fn upgrade_section(rows: Seq<Seq<char>>, major: Seq<Seq<char>>) -> Seq<Seq<char>> {
    if rows.len() == 0 {
        Seq::empty()
    } else {
        warning_block(major) + seq![DEPENDENCY_HEADING@, Seq::empty()] + sorted(rows) + seq![
            Seq::empty(),
        ]
    }
}

/// The part of the document on other changes: nothing where no line is
/// given, else the heading and the lines in ascending order, each once.
pub open spec fn other_section(other_lines: Seq<Seq<char>>) -> Seq<Seq<char>> {
    if other_lines.len() == 0 {
        Seq::empty()
    } else {
        seq![OTHER_HEADING@] + deduplicated(sorted(other_lines))
    }
}

/// The document for consolidated lines, reports of risen major versions and
/// other changes: the lines of its two parts with a line feed between each
/// two.
pub open spec fn assembled(
    rows: Seq<Seq<char>>,
    major: Seq<Seq<char>>,
    other_lines: Seq<Seq<char>>,
) -> Seq<char> {
    joined(upgrade_section(rows, major) + other_section(other_lines), "\n"@)
}

/// The part of the document on upgrades, for the lines as the commits gave
/// them.
pub open spec fn dependency_section(dependency_lines: Seq<Seq<char>>) -> Seq<Seq<char>> {
    upgrade_section(consolidated(dependency_lines), major_notes(consolidated(dependency_lines)))
}

/// The lines of the document.
pub open spec fn document_lines(
    dependency_lines: Seq<Seq<char>>,
    other_lines: Seq<Seq<char>>,
) -> Seq<Seq<char>> {
    dependency_section(dependency_lines) + other_section(other_lines)
}

/// The document: the lines are consolidated, the risen major versions are
/// read off the consolidated lines, and the parts are assembled.
pub open spec fn release_notes(
    dependency_lines: Seq<Seq<char>>,
    other_lines: Seq<Seq<char>>,
) -> Seq<char> {
    assembled(
        consolidated(dependency_lines),
        major_notes(consolidated(dependency_lines)),
        other_lines,
    )
}

proof fn lemma_component_end(version: Seq<char>, n: nat)
    requires
        n <= version.len(),
        forall|j: int| 0 <= j < n ==> version[j] != '.',
        n == version.len() || version[n as int] == '.',
    ensures
        component_end(version) == n,
    decreases n,
{
    if n > 0 {
        lemma_component_end(version.drop_first(), (n - 1) as nat);
    }
}

/// The major version of `version`.
pub fn major_of(version: &str) -> (number: Option<u32>)
    ensures
        match number {
            Some(n) => major(version@) == Some(n as nat),
            None => major(version@) is None,
        },
{
    let v = chars_of(version);
    let mut end: usize = 0;
    while end < v.len() && v[end] != '.'
        invariant
            end <= v.len(),
            forall|j: int| 0 <= j < end ==> v@[j] != '.',
        decreases v.len() - end,
    {
        end += 1;
    }
    proof {
        lemma_component_end(v@, end as nat);
    }
    match parse_number(&slice_of(&v, 0, end), u32::MAX as u64) {
        Some(n) => Some(n as u32),
        None => None,
    }
}

/// The report of the upgrade `update`, where it raises the major version.
pub fn major_change(update: &ParsedUpdate) -> (note: Option<String>)
    ensures
        note.deep_view() == if major_rises(update@.from, update@.to) {
            Some(major_note(update@))
        } else {
            None
        },
{
    match (major_of(update.from_version.as_str()), major_of(update.to_version.as_str())) {
        (Some(from), Some(to)) if to > from => {
            let mut note = chars_of(update.package.as_str());
            append_str(&mut note, ": ");
            append_str(&mut note, update.from_version.as_str());
            append_str(&mut note, " → ");
            append_str(&mut note, update.to_version.as_str());
            Some(string_of(&note))
        },
        _ => None,
    }
}

/// The reports of the lines among `rows` that show a rise of the major
/// version, in their order.
pub fn collect_major_notes(rows: &Vec<String>) -> (notes: Vec<String>)
    ensures
        notes.deep_view() == major_notes(rows.deep_view()),
{
    let mut notes: Vec<String> = Vec::new();
    let ghost all = rows.deep_view();
    let mut i: usize = 0;
    assert(all.take(0) == Seq::<Seq<char>>::empty());
    assert(notes.deep_view() =~= Seq::<Seq<char>>::empty());
    while i < rows.len()
        invariant
            i <= rows.len(),
            all == rows.deep_view(),
            notes.deep_view() == major_notes(all.take(i as int)),
        decreases rows.len() - i,
    {
        assert(all.take(i + 1).drop_last() == all.take(i as int));
        assert(all.take(i + 1).last() == rows@[i as int]@);
        let groups = captures(UPDATE_PATTERN, rows[i].as_str());
        if let Some(update) = update_from_groups(&groups, None) {
            if let Some(note) = major_change(&update) {
                let ghost before = notes.deep_view();
                notes.push(note);
                assert(notes.deep_view() =~= before.push(note@));
            }
        }
        i += 1;
    }
    assert(all.take(i as int) == all);
    notes
}

/// The document for the consolidated lines `rows`, the reports `major` of
/// risen major versions, and the other changes.
pub fn assemble(rows: &Vec<String>, major: &Vec<String>, other_changes: &Vec<String>) -> (notes:
    String)
    ensures
        notes@ == assembled(rows.deep_view(), major.deep_view(), other_changes.deep_view()),
{
    let mut lines: Vec<String> = Vec::new();
    proof {
        reveal_strlit("");
    }
    assert(""@ =~= Seq::<char>::empty());
    assert(lines.deep_view() =~= Seq::<Seq<char>>::empty());
    if rows.len() > 0 {
        if major.len() > 0 {
            let mut warning = chars_of(WARNING_HEAD);
            append_str(&mut warning, join(&sort_lines(major), ", ").as_str());
            append_line(&mut lines, string_of(&warning));
            append_line(&mut lines, String::new());
        }
        assert(lines.deep_view() =~= warning_block(major.deep_view()));
        append_line(&mut lines, String::from_str(DEPENDENCY_HEADING));
        append_line(&mut lines, String::new());
        append_lines(&mut lines, &sort_lines(rows));
        append_line(&mut lines, String::new());
        assert(lines.deep_view() =~= upgrade_section(rows.deep_view(), major.deep_view()));
    }
    if other_changes.len() > 0 {
        append_line(&mut lines, String::from_str(OTHER_HEADING));
        append_lines(&mut lines, &drop_repeats(&sort_lines(other_changes)));
    }
    assert(lines.deep_view() =~= upgrade_section(rows.deep_view(), major.deep_view())
        + other_section(other_changes.deep_view()));
    join(&lines, "\n")
}

/// The release notes for the lines of dependency upgrades and the lines of
/// other changes that the commits gave. The part on upgrades is there where
/// a line of an upgrade is given, the part on other changes where a line of
/// another change is given; with no line at all the document is empty.
pub fn generate_release_notes(dependabot_updates: Vec<String>, other_changes: Vec<String>) -> (notes:
    String)
    ensures
        notes@ == release_notes(dependabot_updates.deep_view(), other_changes.deep_view()),
        dependabot_updates.len() == 0 <==> dependency_section(
            dependabot_updates.deep_view(),
        ).len() == 0,
        dependabot_updates.len() == 0 && other_changes.len() == 0 ==> notes@.len() == 0,
{
    proof {
        law_consolidated_is_empty_for_nothing_only(dependabot_updates.deep_view());
    }
    let rows = consolidate_dependabot_updates(dependabot_updates);
    let major = collect_major_notes(&rows);
    assemble(&rows, &major, &other_changes)
}

/// The other changes stand under their heading in strictly ascending order:
/// each line that was given is there, once, and no line that was not given.
pub proof fn law_other_changes_listed_once(other_lines: Seq<Seq<char>>)
    ensures
        other_lines.len() > 0 ==> other_section(other_lines) == seq![OTHER_HEADING@]
            + deduplicated(sorted(other_lines)),
        strictly_ascending(deduplicated(sorted(other_lines))),
        forall|row: Seq<char>|
            deduplicated(sorted(other_lines)).contains(row) <==> other_lines.contains(row),
{
    let in_order = sorted(other_lines);
    law_sorted(other_lines);
    law_deduplicated(in_order);
    assert forall|row: Seq<char>| in_order.contains(row) <==> other_lines.contains(row) by {
        vstd::seq_lib::to_multiset_contains(in_order, row);
        vstd::seq_lib::to_multiset_contains(other_lines, row);
    }
}

/// The part on upgrades is there exactly where a line of an upgrade is
/// given. It then holds the consolidated lines under their heading in
/// ascending order, each as often as consolidation gave it.
pub proof fn law_upgrades_listed_in_order(dependency_lines: Seq<Seq<char>>)
    ensures
        dependency_lines.len() == 0 <==> dependency_section(dependency_lines).len() == 0,
        dependency_lines.len() > 0 ==> dependency_section(dependency_lines) == warning_block(
            major_notes(consolidated(dependency_lines)),
        ) + seq![DEPENDENCY_HEADING@, Seq::empty()] + sorted(consolidated(dependency_lines))
            + seq![Seq::empty()],
        ascending(sorted(consolidated(dependency_lines))),
        sorted(consolidated(dependency_lines)).to_multiset() == consolidated(
            dependency_lines,
        ).to_multiset(),
{
    law_sorted(consolidated(dependency_lines));
    law_consolidated_is_empty_for_nothing_only(dependency_lines);
}

} // verus!
