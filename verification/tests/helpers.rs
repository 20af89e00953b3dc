use git_releasenotes::classify::{
    begin_with, collect_updates, is_noise_line, pick_number, settle_with, subject_line,
    update_line,
};
use git_releasenotes::notes::{assemble, collect_major_notes, major_change, major_of};
use git_releasenotes::parse::{number_in, update_from_groups};
use git_releasenotes::pattern::group_of;
use git_releasenotes::text::{append_line, append_lines, join};
use git_releasenotes::remote::repository_from_groups;
use git_releasenotes::{file_commit, repository_of, ParsedUpdate, ProcessedCommit, Step};

fn strings(texts: &[&str]) -> Vec<String> {
    texts.iter().map(|t| t.to_string()).collect()
}

fn groups(texts: &[Option<&str>]) -> Option<Vec<Option<String>>> {
    Some(texts.iter().map(|t| t.map(|s| s.to_string())).collect())
}

fn update(package: &str, from: &str, to: &str) -> ParsedUpdate {
    ParsedUpdate {
        package: package.to_string(),
        from_version: from.to_string(),
        to_version: to.to_string(),
        pr_number: None,
    }
}

#[test]
fn group_is_picked_where_it_took_part() {
    let found = groups(&[Some("ab"), Some("a"), None, Some("b")]);
    assert_eq!(group_of(&found, 0), Some("ab".to_string()));
    assert_eq!(group_of(&found, 1), Some("a".to_string()));
    assert_eq!(group_of(&found, 2), None);
    assert_eq!(group_of(&found, 3), Some("b".to_string()));
    assert_eq!(group_of(&found, 4), None);
    assert_eq!(group_of(&None, 0), None);
}

#[test]
fn number_is_read_from_a_group() {
    assert_eq!(number_in(&Some("123".to_string())), Some(123));
    assert_eq!(number_in(&Some("18446744073709551616".to_string())), None);
    assert_eq!(number_in(&Some("#12".to_string())), None);
    assert_eq!(number_in(&None), None);
}

#[test]
fn update_needs_its_three_groups() {
    let full = groups(&[Some("whole"), Some("p"), Some("1"), Some("2")]);
    let got = update_from_groups(&full, Some(4)).unwrap();
    assert_eq!(
        (got.package, got.from_version, got.to_version, got.pr_number),
        ("p".to_string(), "1".to_string(), "2".to_string(), Some(4))
    );
    assert!(update_from_groups(&groups(&[Some("whole"), Some("p"), Some("1")]), None).is_none());
    assert!(
        update_from_groups(&groups(&[Some("whole"), Some("p"), None, Some("2")]), None).is_none()
    );
    assert!(update_from_groups(&None, Some(1)).is_none());
}

#[test]
fn subject_is_listed_from_plain_values() {
    let other = |line: &str| ProcessedCommit::Other(line.to_string());
    let upgrade = |line: &str| ProcessedCommit::Dependabot(vec![line.to_string()]);
    assert_eq!(
        subject_line("Fix (#123)", "Fix (#123)", None, "User", false, Some(12), true),
        other("- Fix (#123) (#12) (User)")
    );
    assert_eq!(
        subject_line(
            "Merge pull request #123 from foo",
            "Merge pull request #123 from foo",
            None,
            "User",
            false,
            Some(123),
            true
        ),
        other("- Merge pull request #123 from foo (#123) (User)")
    );
    assert_eq!(
        subject_line("Fix bug (#123)", "Fix bug (#123)", None, "User", false, Some(123), true),
        other("- Fix bug (#123) (User)")
    );
    assert_eq!(
        subject_line(
            "Fix bug (#123)",
            "Fix bug (#123)",
            Some("Fix bug".to_string()),
            "User",
            false,
            Some(123),
            false
        ),
        other("- Fix bug (User)")
    );
    assert_eq!(
        subject_line("Fix bug", "Fix bug", None, "User", false, Some(123), false),
        other("- Fix bug (User)")
    );
    assert_eq!(
        subject_line(" Fix bug ", "Fix bug", None, "User", false, Some(7), true),
        other("- Fix bug (#7) (User)")
    );
    assert_eq!(
        subject_line(" Fix bug ", "Fix bug", None, "User", false, None, true),
        other("-  Fix bug  (User)")
    );
    assert_eq!(
        subject_line("Bump a", "Bump a", None, "dependabot[bot]", true, Some(9), true),
        upgrade("- Bump a (#9)")
    );
    assert_eq!(
        subject_line(
            "Bump a (#9)",
            "Bump a (#9)",
            Some("Bump a".to_string()),
            "dependabot[bot]",
            true,
            Some(9),
            false
        ),
        upgrade("- Bump a")
    );
}

#[test]
fn update_line_gets_the_token_once() {
    assert_eq!(update_line("Updates `a` from 1 to 2", Some(5), true), "- Updates `a` from 1 to 2 (#5)");
    assert_eq!(
        update_line("Updates `a` from 1 to 2 (#5)", Some(5), true),
        "- Updates `a` from 1 to 2 (#5)"
    );
    assert_eq!(
        update_line("Updates `b` from 1 to 2 (#51)", Some(5), true),
        "- Updates `b` from 1 to 2 (#51) (#5)"
    );
    assert_eq!(
        update_line("Updates `b` from 1 to 2 #5", Some(5), true),
        "- Updates `b` from 1 to 2 #5 (#5)"
    );
    assert_eq!(update_line("Updates `a` from 1 to 2", Some(5), false), "- Updates `a` from 1 to 2");
    assert_eq!(update_line("Updates `a` from 1 to 2", None, true), "- Updates `a` from 1 to 2");
}

#[test]
fn first_number_at_hand_is_picked() {
    assert_eq!(pick_number(Some(1), Some(2), Some(3), Some(4)), Some(1));
    assert_eq!(pick_number(None, Some(2), Some(3), Some(4)), Some(2));
    assert_eq!(pick_number(None, None, Some(3), Some(4)), Some(3));
    assert_eq!(pick_number(None, None, None, Some(4)), Some(4));
    assert_eq!(pick_number(None, None, None, None), None);
}

#[test]
fn start_is_decided_from_plain_values() {
    assert_eq!(begin_with(true, None, true, "o", "r", "h"), Some(Step::Done(None)));
    assert_eq!(begin_with(true, Some(1), false, "", "", "h"), Some(Step::Done(None)));
    assert_eq!(
        begin_with(false, None, true, "o", "r", "h"),
        Some(Step::Search("repo:o/r sha:h".to_string()))
    );
    assert_eq!(begin_with(false, None, false, "o", "r", "h"), None);
    assert_eq!(begin_with(false, None, true, "", "r", "h"), None);
    assert_eq!(begin_with(false, None, true, "o", "", "h"), None);
    assert_eq!(begin_with(false, Some(3), true, "o", "r", "h"), None);
}

#[test]
fn settling_is_decided_from_plain_values() {
    let found = strings(&["- Updates `a` from 1 to 2"]);
    assert_eq!(
        settle_with(true, strings(&["- Updates `a` from 1 to 2"]), Some(3), true),
        Some(Step::Done(Some(ProcessedCommit::Dependabot(found))))
    );
    assert_eq!(settle_with(true, Vec::new(), Some(3), true), Some(Step::Fetch(3)));
    assert_eq!(
        settle_with(false, strings(&["- Updates `a` from 1 to 2"]), Some(3), true),
        Some(Step::Fetch(3))
    );
    assert_eq!(settle_with(true, Vec::new(), Some(3), false), None);
    assert_eq!(settle_with(true, Vec::new(), None, true), None);
    assert_eq!(settle_with(false, strings(&["x"]), None, false), None);
}

#[test]
fn noise_is_told_from_the_line_alone() {
    assert!(is_noise_line("| a | b |"));
    assert!(is_noise_line("see |--- here"));
    assert!(is_noise_line("Bumps the deps group"));
    assert!(!is_noise_line(" | a"));
    assert!(!is_noise_line("bumps the deps group"));
    assert!(!is_noise_line("Updates `a` from 1 to 2"));
    assert!(!is_noise_line(""));
}

#[test]
fn document_is_assembled_from_its_parts() {
    assert_eq!(assemble(&Vec::new(), &Vec::new(), &Vec::new()), "");
    assert_eq!(assemble(&Vec::new(), &strings(&["x: 1 \u{2192} 2"]), &Vec::new()), "");
    assert_eq!(
        assemble(&strings(&["- b", "- a"]), &Vec::new(), &Vec::new()),
        "## Dependencies updated by dependabot:\n\n- a\n- b\n"
    );
    assert_eq!(
        assemble(
            &strings(&["- b", "- a"]),
            &strings(&["z: 1 \u{2192} 2", "a: 2 \u{2192} 3"]),
            &strings(&["- y", "- x", "- y"])
        ),
        "\u{26a0} WARNING: Major version changes detected: a: 2 \u{2192} 3, z: 1 \u{2192} 2\n\n## Dependencies updated by dependabot:\n\n- a\n- b\n\n## Other changes:\n- x\n- y"
    );
    assert_eq!(
        assemble(&Vec::new(), &Vec::new(), &strings(&["- y"])),
        "## Other changes:\n- y"
    );
}

#[test]
fn lines_are_appended() {
    let mut lines = strings(&["a"]);
    append_lines(&mut lines, &strings(&["b", "c"]));
    append_lines(&mut lines, &Vec::new());
    append_line(&mut lines, "d".to_string());
    assert_eq!(lines, strings(&["a", "b", "c", "d"]));
}

#[test]
fn updates_are_collected_from_a_text() {
    let text = "Updates `a` from 1 to 2\n| Updates `t` |\nnoise\n\tupdates `b` from 2 to 3 (#4)\r\nUpdates `c` |--- x";
    assert_eq!(
        collect_updates(text, false, Some(4), true),
        strings(&[
            "- Updates `a` from 1 to 2 (#4)",
            "- updates `b` from 2 to 3 (#4)",
            "- Updates `c` |--- x (#4)",
        ])
    );
    assert_eq!(
        collect_updates(text, true, None, true),
        strings(&["- Updates `a` from 1 to 2", "- updates `b` from 2 to 3 (#4)"])
    );
    assert_eq!(collect_updates("", false, None, false), Vec::<String>::new());
}

#[test]
fn texts_are_joined() {
    assert_eq!(join(&Vec::new(), ", "), "");
    assert_eq!(join(&strings(&["a"]), ", "), "a");
    assert_eq!(join(&strings(&["a", "b", "c"]), ", "), "a, b, c");
    assert_eq!(join(&strings(&["", ""]), "\n"), "\n");
    assert_eq!(join(&strings(&["a", "", "b"]), ""), "ab");
}

#[test]
fn major_version_is_the_first_component() {
    assert_eq!(major_of("1.2.3"), Some(1));
    assert_eq!(major_of("12"), Some(12));
    assert_eq!(major_of("+3.0"), Some(3));
    assert_eq!(major_of("4294967295.1"), Some(4294967295));
    assert_eq!(major_of("4294967296.1"), None);
    assert_eq!(major_of(""), None);
    assert_eq!(major_of(".1"), None);
    assert_eq!(major_of("v1.0"), None);
    assert_eq!(major_of("1-rc.1"), None);
}

#[test]
fn rise_of_the_major_version_is_reported() {
    assert_eq!(
        major_change(&update("lib", "1.0.0", "2.0.0")),
        Some("lib: 1.0.0 \u{2192} 2.0.0".to_string())
    );
    assert_eq!(major_change(&update("lib", "2.0.0", "2.1.0")), None);
    assert_eq!(major_change(&update("lib", "2.0.0", "1.0.0")), None);
    assert_eq!(major_change(&update("lib", "x", "2.0.0")), None);
    assert_eq!(major_change(&update("lib", "1", "two")), None);
}

#[test]
fn major_notes_follow_the_lines() {
    let rows = strings(&[
        "- Updates `b` from 1.0 to 2.0  (#3, #1)",
        "- Bump c from 1 to 9",
        "- Updates `a` from 1.1 to 1.2",
        "- Updates `a b` from 0.9 to 1.0",
    ]);
    assert_eq!(
        collect_major_notes(&rows),
        strings(&["b: 1.0 \u{2192} 2.0", "a b: 0.9 \u{2192} 1.0"])
    );
}

#[test]
fn repository_is_found_in_the_address() {
    let pair = |a: &str, b: &str| (a.to_string(), b.to_string());
    assert_eq!(repository_of("https://github.com/octo/cat.git"), pair("octo", "cat"));
    assert_eq!(repository_of("git@github.com:octo/cat.git"), pair("octo", "cat"));
    assert_eq!(repository_of("https://github.com/octo/cat"), pair("octo", "cat"));
    assert_eq!(repository_of("ssh://git@github.com/octo/my-repo.git"), pair("octo", "my-repo"));
    assert_eq!(repository_of("https://gitlab.com/octo/cat.git"), pair("", ""));
    assert_eq!(repository_of(""), pair("", ""));
    assert_eq!(
        repository_from_groups(&groups(&[Some("w"), Some("o"), Some("r"), None])),
        pair("o", "r")
    );
    assert_eq!(repository_from_groups(&groups(&[Some("w"), None])), pair("", ""));
    assert_eq!(repository_from_groups(&None), pair("", ""));
}

#[test]
fn contribution_is_filed_in_its_bucket() {
    let mut upgrades = strings(&["u0"]);
    let mut others = strings(&["o0"]);
    file_commit(None, &mut upgrades, &mut others);
    file_commit(
        Some(ProcessedCommit::Dependabot(strings(&["u1", "u2"]))),
        &mut upgrades,
        &mut others,
    );
    file_commit(Some(ProcessedCommit::Other("o1".to_string())), &mut upgrades, &mut others);
    file_commit(Some(ProcessedCommit::Dependabot(Vec::new())), &mut upgrades, &mut others);
    assert_eq!(upgrades, strings(&["u0", "u1", "u2"]));
    assert_eq!(others, strings(&["o0", "o1"]));
}
