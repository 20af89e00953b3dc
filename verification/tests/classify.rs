use git_releasenotes::{
    process_commit, process_commit_with_pr, resume_with_body, resume_with_search, ProcessedCommit,
    SearchHit, Step,
};

#[test]
fn test_normal_commit_no_pr() {
    let res = process_commit("Fix bug", "", "sha", "User", false, false, "", "");
    assert_eq!(
        res,
        Step::Done(Some(ProcessedCommit::Other("- Fix bug (User)".to_string())))
    );
}

#[test]
fn test_snapshot_version_ignored() {
    let res = process_commit(
        "Setting new snapshot version 1.0",
        "",
        "sha",
        "User",
        false,
        false,
        "",
        "",
    );
    assert_eq!(res, Step::Done(None));
}

#[test]
fn test_pr_number_removal_no_include() {
    let res = process_commit("Fix bug (#123)", "", "sha", "User", false, false, "", "");
    assert_eq!(
        res,
        Step::Done(Some(ProcessedCommit::Other("- Fix bug (User)".to_string())))
    );
}

#[test]
fn test_pr_number_keep_include() {
    let res = process_commit("Fix bug (#123)", "", "sha", "User", true, false, "", "");
    assert_eq!(
        res,
        Step::Done(Some(ProcessedCommit::Other(
            "- Fix bug (#123) (User)".to_string()
        )))
    );
}

#[test]
fn test_dependabot_no_body() {
    let res = process_commit(
        "Bump package (#123)",
        "",
        "sha",
        "dependabot[bot]",
        false,
        false,
        "",
        "",
    );
    assert_eq!(
        res,
        Step::Done(Some(ProcessedCommit::Dependabot(vec![
            "- Bump package".to_string()
        ])))
    );
}

#[test]
fn test_dependabot_with_body() {
    let body = "Bumps [package]...\nUpdates `package` from 1.0 to 1.1\n...";
    let res = process_commit(
        "Bump package (#123)",
        body,
        "sha",
        "dependabot[bot]",
        false,
        false,
        "",
        "",
    );
    assert_eq!(
        res,
        Step::Done(Some(ProcessedCommit::Dependabot(vec![
            "- Updates `package` from 1.0 to 1.1".to_string()
        ])))
    );
}

#[test]
fn test_dependabot_with_body_include_pr() {
    let body = "Bumps [package]...\nUpdates `package` from 1.0 to 1.1\n...";
    let res = process_commit(
        "Bump package (#123)",
        body,
        "sha",
        "dependabot[bot]",
        true,
        false,
        "",
        "",
    );
    assert_eq!(
        res,
        Step::Done(Some(ProcessedCommit::Dependabot(vec![
            "- Updates `package` from 1.0 to 1.1 (#123)".to_string()
        ])))
    );
}

#[test]
fn test_merge_pull_request_extraction() {
    let res = process_commit(
        "Merge pull request #123 from foo",
        "",
        "sha",
        "User",
        false,
        false,
        "",
        "",
    );
    assert_eq!(
        res,
        Step::Done(Some(ProcessedCommit::Other(
            "- Merge pull request #123 from foo (User)".to_string()
        )))
    );
}

#[test]
fn test_merge_pull_request_with_include_pr() {
    let res = process_commit(
        "Merge pull request #123 from foo",
        "",
        "sha",
        "User",
        true,
        false,
        "",
        "",
    );
    assert_eq!(
        res,
        Step::Done(Some(ProcessedCommit::Other(
            "- Merge pull request #123 from foo (#123) (User)".to_string()
        )))
    );
}

#[test]
fn test_pr_number_added_when_missing() {
    let res = process_commit("Fix important bug", "", "sha", "User", true, false, "", "");
    assert_eq!(
        res,
        Step::Done(Some(ProcessedCommit::Other(
            "- Fix important bug (User)".to_string()
        )))
    );
}

#[test]
fn test_pr_number_in_subject_preserved() {
    let res = process_commit(
        "Bump software.amazon.awssdk:bom in the other-deps group (#2887)",
        "",
        "sha",
        "dependabot[bot]",
        true,
        false,
        "",
        "",
    );
    assert_eq!(
        res,
        Step::Done(Some(ProcessedCommit::Dependabot(vec![
            "- Bump software.amazon.awssdk:bom in the other-deps group (#2887)".to_string()
        ])))
    );
}

#[test]
fn test_pr_number_from_merge_commit() {
    let res = process_commit_with_pr(
        "Bump the fiks-deps group across 1 directory with 8 updates",
        "",
        "sha",
        "dependabot[bot]",
        true,
        Some(2880),
        false,
        "",
        "",
    );
    assert_eq!(
        res,
        Step::Done(Some(ProcessedCommit::Dependabot(vec![
            "- Bump the fiks-deps group across 1 directory with 8 updates (#2880)".to_string()
        ])))
    );
}

#[test]
fn snapshot_mark_is_found_in_any_case() {
    let res = process_commit_with_pr(
        "chore: SETTING NEW Snapshot Version 2.0 (#9)",
        "Updates `a` from 1 to 2",
        "abc",
        "dependabot[bot]",
        true,
        Some(5),
        true,
        "o",
        "r",
    );
    assert_eq!(res, Step::Done(None));
}

#[test]
fn search_is_asked_when_no_number_is_known() {
    let res = process_commit("Fix bug", "", "abc123", "User", true, true, "octo", "cat");
    assert_eq!(res, Step::Search("repo:octo/cat sha:abc123".to_string()));
}

#[test]
fn search_is_not_asked_without_owner_or_repo() {
    let expected = || Step::Done(Some(ProcessedCommit::Other("- Fix bug (User)".to_string())));
    assert_eq!(
        process_commit("Fix bug", "", "abc123", "User", true, true, "", "cat"),
        expected()
    );
    assert_eq!(
        process_commit("Fix bug", "", "abc123", "User", true, true, "octo", ""),
        expected()
    );
}

#[test]
fn search_is_not_asked_when_the_subject_names_the_number() {
    let res = process_commit("Fix bug (#7)", "", "abc", "User", false, true, "octo", "cat");
    assert_eq!(res, Step::Fetch(7));
}

#[test]
fn hint_wins_over_the_subject() {
    let res = process_commit_with_pr(
        "Fix bug (#7)",
        "",
        "abc",
        "User",
        false,
        Some(42),
        true,
        "octo",
        "cat",
    );
    assert_eq!(res, Step::Fetch(42));
}

#[test]
fn subject_patterns_are_tried_in_order() {
    let merge = process_commit(
        "Merge pull request #11 from x (#22)",
        "",
        "abc",
        "User",
        false,
        true,
        "o",
        "r",
    );
    assert_eq!(merge, Step::Fetch(11));
    let grouped = process_commit(
        "(#1) Bump the deps group (#33) (main)",
        "",
        "abc",
        "User",
        false,
        true,
        "o",
        "r",
    );
    assert_eq!(grouped, Step::Fetch(33));
    let token = process_commit("(#1) Bump the deps group (#33)", "", "abc", "User", false, true, "o", "r");
    assert_eq!(token, Step::Fetch(1));
}

#[test]
fn number_too_large_is_no_number() {
    let res = process_commit(
        "Fix (#99999999999999999999999)",
        "",
        "abc",
        "User",
        true,
        false,
        "",
        "",
    );
    assert_eq!(
        res,
        Step::Done(Some(ProcessedCommit::Other(
            "- Fix (#99999999999999999999999) (User)".to_string()
        )))
    );
    let max = process_commit("Fix (#18446744073709551615)", "", "abc", "User", true, true, "", "");
    assert_eq!(max, Step::Fetch(18446744073709551615));
    let over = process_commit("Fix (#18446744073709551616)", "", "abc", "User", true, true, "", "");
    assert_eq!(
        over,
        Step::Done(Some(ProcessedCommit::Other(
            "- Fix (#18446744073709551616) (User)".to_string()
        )))
    );
}

#[test]
fn body_of_the_bot_wins_over_a_fetch() {
    let body = "Bumps the group.\n  updates `a` from 1 to 2  \r\nUPDATES `b` from 3 to 4\n| Updates `c` |\n";
    let res = process_commit("Bump things (#5)", body, "abc", "Dependabot", true, true, "o", "r");
    assert_eq!(
        res,
        Step::Done(Some(ProcessedCommit::Dependabot(vec![
            "- updates `a` from 1 to 2 (#5)".to_string(),
            "- UPDATES `b` from 3 to 4 (#5)".to_string(),
        ])))
    );
}

#[test]
fn body_of_another_author_is_not_scanned() {
    let res = process_commit(
        "Bump things",
        "Updates `a` from 1 to 2",
        "abc",
        "User",
        false,
        false,
        "",
        "",
    );
    assert_eq!(
        res,
        Step::Done(Some(ProcessedCommit::Other("- Bump things (User)".to_string())))
    );
}

#[test]
fn number_already_in_a_line_is_not_added_again() {
    let res = process_commit(
        "Bump things (#5)",
        "Updates `a` from 1 to 2 (#5)\nUpdates `b` from 1 to 2 (#51)",
        "abc",
        "dependabot[bot]",
        true,
        false,
        "",
        "",
    );
    assert_eq!(
        res,
        Step::Done(Some(ProcessedCommit::Dependabot(vec![
            "- Updates `a` from 1 to 2 (#5)".to_string(),
            "- Updates `b` from 1 to 2 (#51) (#5)".to_string(),
        ])))
    );
}

#[test]
fn token_of_another_number_does_not_count() {
    let res = process_commit_with_pr("Fix (#123)", "", "sha", "User", true, Some(12), false, "", "");
    assert_eq!(
        res,
        Step::Done(Some(ProcessedCommit::Other(
            "- Fix (#123) (#12) (User)".to_string()
        )))
    );
}

#[test]
fn only_the_whole_token_counts_as_present() {
    let bare = process_commit_with_pr("Fix #12", "", "sha", "User", true, Some(12), false, "", "");
    assert_eq!(
        bare,
        Step::Done(Some(ProcessedCommit::Other("- Fix #12 (#12) (User)".to_string())))
    );
    let at_start = process_commit("(#12) fix", "", "sha", "User", true, false, "", "");
    assert_eq!(
        at_start,
        Step::Done(Some(ProcessedCommit::Other("- (#12) fix (#12) (User)".to_string())))
    );
    let inside = process_commit("Fix (#12) now", "", "sha", "User", true, false, "", "");
    assert_eq!(
        inside,
        Step::Done(Some(ProcessedCommit::Other("- Fix (#12) now (User)".to_string())))
    );
}

#[test]
fn only_a_trailing_number_is_stripped() {
    let res = process_commit("Fix (#1) the bug (#2)", "", "abc", "User", false, false, "", "");
    assert_eq!(
        res,
        Step::Done(Some(ProcessedCommit::Other(
            "- Fix (#1) the bug (User)".to_string()
        )))
    );
    let inner = process_commit("Fix (#1) the bug", "", "abc", "User", false, false, "", "");
    assert_eq!(
        inner,
        Step::Done(Some(ProcessedCommit::Other(
            "- Fix (#1) the bug (User)".to_string()
        )))
    );
}

#[test]
fn subject_is_trimmed_where_the_number_is_added() {
    let res = process_commit_with_pr("  Fix bug  ", "", "abc", "User", true, Some(8), false, "", "");
    assert_eq!(
        res,
        Step::Done(Some(ProcessedCommit::Other(
            "- Fix bug (#8) (User)".to_string()
        )))
    );
    let plain = process_commit_with_pr("  Fix bug  ", "", "abc", "User", false, Some(8), false, "", "");
    assert_eq!(
        plain,
        Step::Done(Some(ProcessedCommit::Other(
            "-   Fix bug   (User)".to_string()
        )))
    );
}

#[test]
fn search_hit_that_is_a_pull_request_leads_to_a_fetch() {
    let hit = Some(SearchHit { number: 77, is_pull_request: true });
    assert_eq!(
        resume_with_search("Fix bug", "", "User", false, hit),
        Step::Fetch(77)
    );
}

#[test]
fn search_hit_that_is_an_issue_is_ignored() {
    let hit = Some(SearchHit { number: 77, is_pull_request: false });
    assert_eq!(
        resume_with_search("Fix bug", "", "User", true, hit),
        Step::Done(Some(ProcessedCommit::Other("- Fix bug (User)".to_string())))
    );
    assert_eq!(
        resume_with_search("Fix bug", "", "User", true, None),
        Step::Done(Some(ProcessedCommit::Other("- Fix bug (User)".to_string())))
    );
}

#[test]
fn search_hit_tags_the_lines_of_the_body() {
    let hit = Some(SearchHit { number: 12, is_pull_request: true });
    assert_eq!(
        resume_with_search("Bump a", "Updates `a` from 1 to 2", "dependabot[bot]", true, hit),
        Step::Done(Some(ProcessedCommit::Dependabot(vec![
            "- Updates `a` from 1 to 2 (#12)".to_string()
        ])))
    );
}

#[test]
fn fetched_description_gives_the_updates() {
    let text = "Bumps the deps group with 2 updates:\n\n| Package | From | To |\n| --- | --- | --- |\n| Updates `x` | 1 | 2 |\nUpdates `a` from 1.0 to 1.1\n   Updates `b` from 2.0 to 2.1\nsee |--- Updates `c`\nUpdates `d` Bumps the lot\n";
    let res = resume_with_body("Bump the deps group (#9)", "User", true, 9, Some(text.to_string()));
    assert_eq!(
        res,
        ProcessedCommit::Dependabot(vec![
            "- Updates `a` from 1.0 to 1.1 (#9)".to_string(),
            "- Updates `b` from 2.0 to 2.1 (#9)".to_string(),
        ])
    );
    let bare = resume_with_body("Bump the deps group (#9)", "User", false, 9, Some(text.to_string()));
    assert_eq!(
        bare,
        ProcessedCommit::Dependabot(vec![
            "- Updates `a` from 1.0 to 1.1".to_string(),
            "- Updates `b` from 2.0 to 2.1".to_string(),
        ])
    );
}

#[test]
fn fetch_that_fails_or_finds_nothing_falls_back_to_the_subject() {
    assert_eq!(
        resume_with_body("Fix bug (#9)", "User", false, 9, None),
        ProcessedCommit::Other("- Fix bug (User)".to_string())
    );
    assert_eq!(
        resume_with_body("Fix bug", "User", true, 9, Some("No news.\n".to_string())),
        ProcessedCommit::Other("- Fix bug (#9) (User)".to_string())
    );
    assert_eq!(
        resume_with_body("Bump a", "dependabot[bot]", true, 9, Some(String::new())),
        ProcessedCommit::Dependabot(vec!["- Bump a (#9)".to_string()])
    );
}
