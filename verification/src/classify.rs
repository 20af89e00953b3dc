//! Deciding what one commit contributes to the release notes.
//!
//! A commit is skipped, gives the lines of a dependency upgrade, or gives one
//! line of another change. Two questions may have to be put to a pull-request
//! service on the way: which pull request holds the commit, and what that
//! pull request's description says. The functions here never ask themselves.
//! Each returns a [`Step`]: the finished result, or the question to put; the
//! caller puts it and hands the answer to the function that goes on from
//! there.
use crate::parse::{captured_number, number_after, PR_TOKEN_PATTERN};
use crate::pattern::{captures, group, group_of, regex_captures};
use crate::text::{
    append_chars, append_line, append_lines, append_str, chars_of, decimal, decimal_chars,
    includes, includes_chars, lines, lowercase, lowercased, matches_at, split_lines, starts_with,
    string_of, trim, trimmed,
};
use vstd::prelude::*;

verus! {

/// A subject that holds this, in any case of letters, marks a commit to skip.
pub const SNAPSHOT_MARK: &'static str = "setting new snapshot version";

/// An author that holds this, in any case of letters, is the dependency bot.
pub const BOT_MARK: &'static str = "dependabot";

/// A line that begins with this, in any case of letters, reports an upgrade.
pub const UPDATE_MARK: &'static str = "updates `";

/// The subject of a merge commit; its group is the pull request's number.
pub const MERGE_PATTERN: &'static str = "Merge pull request #([0-9]+)";

/// The subject of a grouped upgrade; its group is the pull request's number.
pub const GROUP_BUMP_PATTERN: &'static str = "Bump the.*\\(#([0-9]+)\\) \\(";

/// A text that ends with a pull request's number in brackets; its group is
/// what stands before.
pub const TRAILING_PR_PATTERN: &'static str = "(?s)^(.*) \\(#[0-9]+\\)$";

/// What one commit contributes to the release notes.
#[derive(Debug, PartialEq)]
pub enum ProcessedCommit {
    /// The lines of a dependency upgrade.
    Dependabot(Vec<String>),
    /// The line of any other change.
    Other(String),
}

/// The first result of a search for the pull request that holds a commit.
#[derive(Debug, PartialEq, Clone, Copy)]
pub struct SearchHit {
    /// The number of the issue or pull request.
    pub number: u64,
    /// Whether it is a pull request, not a plain issue.
    pub is_pull_request: bool,
}

/// How far the classification of a commit has come.
#[derive(Debug, PartialEq)]
pub enum Step {
    /// It is finished: `None` for a commit to skip, else its contribution.
    Done(Option<ProcessedCommit>),
    /// The pull request that holds the commit is to be searched with this
    /// query; `resume_with_search` goes on from the answer.
    Search(String),
    /// The description of the pull request with this number is to be fetched;
    /// `resume_with_body` goes on from the answer.
    Fetch(u64),
}

/// What the classification of a commit yields.
pub enum Outcome {
    /// Nothing: the commit is skipped.
    Skip,
    /// The lines of a dependency upgrade.
    DependencyUpdate(Seq<Seq<char>>),
    /// The line of any other change.
    GenericChange(Seq<char>),
}

/// A step of the classification, as contracts see it.
pub enum Progress {
    /// Finished, with this outcome.
    Done(Outcome),
    /// A search with this query is due.
    Search(Seq<char>),
    /// The description of this pull request is due.
    Fetch(u64),
}

/// The outcome that a finished classification stands for.
pub open spec fn outcome_of(result: Option<ProcessedCommit>) -> Outcome {
    match result {
        None => Outcome::Skip,
        Some(ProcessedCommit::Dependabot(found)) => Outcome::DependencyUpdate(found.deep_view()),
        Some(ProcessedCommit::Other(line)) => Outcome::GenericChange(line@),
    }
}

impl View for Step {
    type V = Progress;

    open spec fn view(&self) -> Progress {
        match *self {
            Step::Done(result) => Progress::Done(outcome_of(result)),
            Step::Search(query) => Progress::Search(query@),
            Step::Fetch(number) => Progress::Fetch(number),
        }
    }
}

/// The subject marks a commit to skip.
pub open spec fn is_snapshot(subject: Seq<char>) -> bool {
    includes(lowercased(subject), SNAPSHOT_MARK@)
}

/// The author is the dependency bot.
pub open spec fn is_dependency(author: Seq<char>) -> bool {
    includes(lowercased(author), BOT_MARK@)
}

/// The first number at hand among the hint and the three that the subject
/// may name, in this order.
pub open spec fn picked_number(
    hint: Option<u64>,
    merged: Option<u64>,
    grouped: Option<u64>,
    token: Option<u64>,
) -> Option<u64> {
    if hint is Some {
        hint
    } else if merged is Some {
        merged
    } else if grouped is Some {
        grouped
    } else {
        token
    }
}

/// The pull request's number known without asking: the hint, else the one
/// that the subject names as a merge commit, else as a grouped upgrade, else
/// the first one that it holds in brackets.
pub open spec fn known_pr(hint: Option<u64>, subject: Seq<char>) -> Option<u64> {
    picked_number(
        hint,
        captured_number(MERGE_PATTERN@, subject),
        captured_number(GROUP_BUMP_PATTERN@, subject),
        captured_number(PR_TOKEN_PATTERN@, subject),
    )
}

/// The query that finds the pull request holding the commit `hash`.
pub open spec fn search_query(owner: Seq<char>, repo: Seq<char>, hash: Seq<char>) -> Seq<char> {
    "repo:"@ + owner + "/"@ + repo + " sha:"@ + hash
}

/// The pull request that a search found: the number of its first result,
/// where that is a pull request.
pub open spec fn hit_pr(hit: Option<SearchHit>) -> Option<u64> {
    match hit {
        Some(h) => if h.is_pull_request {
            Some(h.number)
        } else {
            None
        },
        None => None,
    }
}

/// How a pull request's number is written: `#` and its digits.
pub open spec fn pr_tag(number: u64) -> Seq<char> {
    "#"@ + decimal(number as nat)
}

/// The token that marks a text with a pull request: a space, and `#` and
/// the number's digits in brackets.
pub open spec fn pr_token(number: u64) -> Seq<char> {
    " ("@ + pr_tag(number) + ")"@
}

/// `text` followed by the token of the pull request.
pub open spec fn tagged(text: Seq<char>, number: u64) -> Seq<char> {
    text + pr_token(number)
}

/// Whether `text` gets the token of the pull request: numbers are wanted, one
/// is known, and `text` does not hold that very token yet.
pub open spec fn needs_tag(text: Seq<char>, pr: Option<u64>, include_pr: bool) -> bool {
    include_pr && pr is Some && !includes(text, pr_token(pr->0))
}

/// The line reports an upgrade.
pub open spec fn is_update_line(line: Seq<char>) -> bool {
    starts_with(trim(lowercased(line)), UPDATE_MARK@)
}

/// The line belongs to a table or to the heading of a grouped upgrade.
pub open spec fn is_noise(line: Seq<char>) -> bool {
    starts_with(line, "|"@) || includes(line, "|---"@) || includes(line, "Bumps the"@)
}

/// The entry for a line that reports an upgrade, given the line without the
/// white space at its ends.
pub open spec fn entry_line(clean: Seq<char>, pr: Option<u64>, include_pr: bool) -> Seq<char> {
    if needs_tag(clean, pr, include_pr) {
        "- "@ + tagged(clean, pr->0)
    } else {
        "- "@ + clean
    }
}

/// The entry that a line reporting an upgrade becomes.
pub open spec fn update_entry(line: Seq<char>, pr: Option<u64>, include_pr: bool) -> Seq<char> {
    entry_line(trim(line), pr, include_pr)
}

/// The entries of the lines among `rows` that report an upgrade, in their
/// order; with `skip_noise`, lines of noise are passed over.
pub open spec fn update_entries(
    rows: Seq<Seq<char>>,
    skip_noise: bool,
    pr: Option<u64>,
    include_pr: bool,
) -> Seq<Seq<char>>
    decreases rows.len(),
{
    if rows.len() == 0 {
        Seq::empty()
    } else {
        let before = update_entries(rows.drop_last(), skip_noise, pr, include_pr);
        if is_update_line(rows.last()) && !(skip_noise && is_noise(rows.last())) {
            before.push(update_entry(rows.last(), pr, include_pr))
        } else {
            before
        }
    }
}

/// The subject as it is listed, given the subject without the white space at
/// its ends as `trimmed`, and as `head` what stands before a token at its
/// end, where it ends with one. Where numbers are not wanted, the token at
/// the end is left off. Where they are wanted and the subject does not hold
/// the token of the known number, the subject is trimmed and gets it.
pub open spec fn listed_subject(
    subject: Seq<char>,
    trimmed: Seq<char>,
    head: Option<Seq<char>>,
    pr: Option<u64>,
    include_pr: bool,
) -> Seq<char> {
    if !include_pr {
        match head {
            Some(h) => h,
            None => subject,
        }
    } else if needs_tag(subject, pr, include_pr) {
        tagged(trimmed, pr->0)
    } else {
        subject
    }
}

/// The outcome for a commit of which only the subject is listed, given what
/// `listed_subject` takes and whether the author is the bot: the bot's
/// commit is an upgrade of one line, any other a change that names its
/// author.
pub open spec fn subject_outcome_with(
    subject: Seq<char>,
    trimmed: Seq<char>,
    head: Option<Seq<char>>,
    author: Seq<char>,
    is_bot: bool,
    pr: Option<u64>,
    include_pr: bool,
) -> Outcome {
    if is_bot {
        Outcome::DependencyUpdate(
            seq!["- "@ + listed_subject(subject, trimmed, head, pr, include_pr)],
        )
    } else {
        Outcome::GenericChange(
            "- "@ + listed_subject(subject, trimmed, head, pr, include_pr) + " ("@ + author + ")"@,
        )
    }
}

/// The outcome for a commit of which only the subject is listed.
pub open spec fn subject_outcome(
    subject: Seq<char>,
    author: Seq<char>,
    pr: Option<u64>,
    include_pr: bool,
) -> Outcome {
    subject_outcome_with(
        subject,
        trim(subject),
        group(regex_captures(TRAILING_PR_PATTERN@, subject), 1),
        author,
        is_dependency(author),
        pr,
        include_pr,
    )
}

/// What is decided before the subject is looked at, once the pull request's
/// number is settled as `pr`: the upgrades `found` in the bot's own message,
/// where it is the bot's and there are any; else the fetch of the pull
/// request's description, where a number is known and `lookup` says that the
/// service can be asked. `None` where the subject is to be listed.
pub open spec fn settled_early(
    is_bot: bool,
    found: Seq<Seq<char>>,
    pr: Option<u64>,
    lookup: bool,
) -> Option<Progress> {
    if is_bot && found.len() > 0 {
        Some(Progress::Done(Outcome::DependencyUpdate(found)))
    } else if pr is Some && lookup {
        Some(Progress::Fetch(pr->0))
    } else {
        None
    }
}

/// The step once the pull request's number is settled as `pr`: the upgrades
/// that the bot's own message reports; else the fetch of the pull request's
/// description, where a number is known and `lookup` says that the service
/// can be asked; else the subject.
pub open spec fn settled(
    subject: Seq<char>,
    body: Seq<char>,
    author: Seq<char>,
    include_pr: bool,
    pr: Option<u64>,
    lookup: bool,
) -> Progress {
    match settled_early(
        is_dependency(author),
        update_entries(lines(body), false, pr, include_pr),
        pr,
        lookup,
    ) {
        Some(step) => step,
        None => Progress::Done(subject_outcome(subject, author, pr, include_pr)),
    }
}

/// What is decided at the start: a commit that is marked is skipped; else
/// the search is due, where no number is known, `lookup` says that the
/// service can be asked, and owner and repository are known. `None` where
/// the commit is to be settled with `pr`.
pub open spec fn begun(
    snapshot: bool,
    pr: Option<u64>,
    lookup: bool,
    owner: Seq<char>,
    repo: Seq<char>,
    hash: Seq<char>,
) -> Option<Progress> {
    if snapshot {
        Some(Progress::Done(Outcome::Skip))
    } else if pr is None && lookup && owner.len() > 0 && repo.len() > 0 {
        Some(Progress::Search(search_query(owner, repo, hash)))
    } else {
        None
    }
}

/// The first step for a commit.
pub open spec fn first_step(
    subject: Seq<char>,
    body: Seq<char>,
    hash: Seq<char>,
    author: Seq<char>,
    include_pr: bool,
    hint: Option<u64>,
    lookup: bool,
    owner: Seq<char>,
    repo: Seq<char>,
) -> Progress {
    match begun(is_snapshot(subject), known_pr(hint, subject), lookup, owner, repo, hash) {
        Some(step) => step,
        None => settled(subject, body, author, include_pr, known_pr(hint, subject), lookup),
    }
}

/// The outcome once the description of pull request `number` is in, or is
/// known not to come: the upgrades that it reports, else the subject.
pub open spec fn fetched(
    subject: Seq<char>,
    author: Seq<char>,
    include_pr: bool,
    number: u64,
    description: Option<Seq<char>>,
) -> Outcome {
    match description {
        Some(text) => if update_entries(lines(text), true, Some(number), include_pr).len() > 0 {
            Outcome::DependencyUpdate(update_entries(lines(text), true, Some(number), include_pr))
        } else {
            subject_outcome(subject, author, Some(number), include_pr)
        },
        None => subject_outcome(subject, author, Some(number), include_pr),
    }
}

/// What holds of every outcome for a commit of `author`: an upgrade has one
/// line at least, and another change is never a commit of the bot.
pub open spec fn sound_outcome(outcome: Outcome, author: Seq<char>) -> bool {
    match outcome {
        Outcome::Skip => true,
        Outcome::DependencyUpdate(found) => found.len() > 0,
        Outcome::GenericChange(_) => !is_dependency(author),
    }
}

/// The step that an early decision stands for, where there is one.
pub open spec fn early_view(step: Option<Step>) -> Option<Progress> {
    match step {
        Some(s) => Some(s@),
        None => None,
    }
}

/// Whether `text` holds `mark` once it is put in lower case.
fn holds_mark(text: &str, mark: &str) -> (found: bool)
    ensures
        found == includes(lowercased(text@), mark@),
{
    let low = lowercase(text);
    includes_chars(&chars_of(low.as_str()), &chars_of(mark))
}

/// The first number at hand among the hint and the three that the subject
/// may name, in this order.
pub fn pick_number(
    hint: Option<u64>,
    merged: Option<u64>,
    grouped: Option<u64>,
    token: Option<u64>,
) -> (pr: Option<u64>)
    ensures
        pr == picked_number(hint, merged, grouped, token),
{
    if hint.is_some() {
        hint
    } else if merged.is_some() {
        merged
    } else if grouped.is_some() {
        grouped
    } else {
        token
    }
}

/// The pull request's number known without asking. The subject is matched
/// only as far as no number is at hand.
fn known_number(hint: Option<u64>, subject: &str) -> (pr: Option<u64>)
    ensures
        pr == known_pr(hint, subject@),
{
    let merged = if hint.is_some() {
        None
    } else {
        number_after(MERGE_PATTERN, subject)
    };
    let grouped = if hint.is_some() || merged.is_some() {
        None
    } else {
        number_after(GROUP_BUMP_PATTERN, subject)
    };
    let token = if hint.is_some() || merged.is_some() || grouped.is_some() {
        None
    } else {
        number_after(PR_TOKEN_PATTERN, subject)
    };
    pick_number(hint, merged, grouped, token)
}

/// The token of the pull request `number`.
fn token_chars(number: u64) -> (token: Vec<char>)
    ensures
        token@ == pr_token(number),
{
    let mut token = chars_of(" (");
    append_str(&mut token, "#");
    append_chars(&mut token, &decimal_chars(number));
    append_str(&mut token, ")");
    assert(token@ == pr_token(number)) by {
        assert(" ("@ + "#"@ + decimal(number as nat) == " ("@ + ("#"@ + decimal(number as nat)));
    }
    token
}

/// Whether `text` gets the token of the pull request.
fn wants_tag(text: &Vec<char>, pr: Option<u64>, include_pr: bool) -> (wanted: bool)
    ensures
        wanted == needs_tag(text@, pr, include_pr),
{
    match pr {
        Some(number) => include_pr && !includes_chars(text, &token_chars(number)),
        None => false,
    }
}

/// Whether `line` reports an upgrade.
fn reports_update(line: &str) -> (found: bool)
    ensures
        found == is_update_line(line@),
{
    let low = lowercase(line);
    let head = trimmed(&chars_of(low.as_str()));
    matches_at(&head, &chars_of(UPDATE_MARK), 0)
}

/// Whether `line` belongs to a table or to the heading of a grouped upgrade.
pub fn is_noise_line(line: &str) -> (found: bool)
    ensures
        found == is_noise(line@),
{
    let row = chars_of(line);
    matches_at(&row, &chars_of("|"), 0) || includes_chars(&row, &chars_of("|---"))
        || includes_chars(&row, &chars_of("Bumps the"))
}

/// The entry for a line that reports an upgrade, given the line without the
/// white space at its ends: a dash before it, and behind it the token of the
/// pull request where numbers are wanted, one is known, and the line does
/// not hold that token yet.
pub fn update_line(clean: &str, pr: Option<u64>, include_pr: bool) -> (entry: String)
    ensures
        entry@ == entry_line(clean@, pr, include_pr),
{
    let text = chars_of(clean);
    let mut entry = chars_of("- ");
    append_chars(&mut entry, &text);
    if wants_tag(&text, pr, include_pr) {
        let number = pr.unwrap();
        assert(entry@ + pr_token(number) == "- "@ + tagged(text@, number));
        append_chars(&mut entry, &token_chars(number));
    }
    string_of(&entry)
}

/// The entries of the lines of `text` that report an upgrade, in their
/// order; with `skip_noise`, lines of noise are passed over.
pub fn collect_updates(text: &str, skip_noise: bool, pr: Option<u64>, include_pr: bool) -> (found:
    Vec<String>)
    ensures
        found.deep_view() == update_entries(lines(text@), skip_noise, pr, include_pr),
{
    let rows = split_lines(&chars_of(text));
    let mut found: Vec<String> = Vec::new();
    let mut i: usize = 0;
    assert(rows.deep_view().take(0) == Seq::<Seq<char>>::empty());
    assert(found.deep_view() =~= Seq::<Seq<char>>::empty());
    while i < rows.len()
        invariant
            i <= rows.len(),
            rows.deep_view() == lines(text@),
            found.deep_view() == update_entries(
                rows.deep_view().take(i as int),
                skip_noise,
                pr,
                include_pr,
            ),
        decreases rows.len() - i,
    {
        let row = rows[i].as_str();
        assert(rows.deep_view().take(i + 1).drop_last() == rows.deep_view().take(i as int));
        assert(rows.deep_view().take(i + 1).last() == row@);
        if reports_update(row) && !(skip_noise && is_noise_line(row)) {
            let clean = string_of(&trimmed(&chars_of(row)));
            append_line(&mut found, update_line(clean.as_str(), pr, include_pr));
        }
        i += 1;
    }
    assert(rows.deep_view().take(i as int) == rows.deep_view());
    found
}

/// What a commit contributes of which only the subject is listed, given the
/// subject without the white space at its ends as `trimmed`, as `head` what
/// stands before a token at its end, where it ends with one, and as `is_bot`
/// whether the author is the bot.
pub fn subject_line(
    subject: &str,
    trimmed: &str,
    head: Option<String>,
    author: &str,
    is_bot: bool,
    pr: Option<u64>,
    include_pr: bool,
) -> (result: ProcessedCommit)
    ensures
        outcome_of(Some(result)) == subject_outcome_with(
            subject@,
            trimmed@,
            head.deep_view(),
            author@,
            is_bot,
            pr,
            include_pr,
        ),
{
    let mut line = chars_of("- ");
    if !include_pr {
        match head {
            Some(h) => append_str(&mut line, h.as_str()),
            None => append_str(&mut line, subject),
        }
    } else if wants_tag(&chars_of(subject), pr, include_pr) {
        append_str(&mut line, trimmed);
        append_chars(&mut line, &token_chars(pr.unwrap()));
        assert(line@ == "- "@ + tagged(trimmed@, pr->0));
    } else {
        append_str(&mut line, subject);
    }
    if is_bot {
        let mut found: Vec<String> = Vec::new();
        let entry = string_of(&line);
        found.push(entry);
        assert(found.deep_view() =~= seq![entry@]);
        ProcessedCommit::Dependabot(found)
    } else {
        append_str(&mut line, " (");
        append_str(&mut line, author);
        append_str(&mut line, ")");
        ProcessedCommit::Other(string_of(&line))
    }
}

/// What a commit contributes of which only the subject is listed.
fn subject_result(subject: &str, author: &str, pr: Option<u64>, include_pr: bool) -> (result:
    ProcessedCommit)
    ensures
        outcome_of(Some(result)) == subject_outcome(subject@, author@, pr, include_pr),
{
    let head = if include_pr {
        None
    } else {
        group_of(&captures(TRAILING_PR_PATTERN, subject), 1)
    };
    let clean = string_of(&trimmed(&chars_of(subject)));
    let is_bot = holds_mark(author, BOT_MARK);
    subject_line(subject, clean.as_str(), head, author, is_bot, pr, include_pr)
}

/// What is decided before the subject is looked at, once the pull request's
/// number is settled as `pr`: the upgrades `found` in the bot's own message,
/// where it is the bot's and there are any; else the fetch of the pull
/// request's description, where a number is known and `lookup` says that the
/// service can be asked. `None` where the subject is to be listed.
pub fn settle_with(is_bot: bool, found: Vec<String>, pr: Option<u64>, lookup: bool) -> (step:
    Option<Step>)
    ensures
        early_view(step) == settled_early(is_bot, found.deep_view(), pr, lookup),
{
    if is_bot && found.len() > 0 {
        return Some(Step::Done(Some(ProcessedCommit::Dependabot(found))));
    }
    match pr {
        Some(number) if lookup => Some(Step::Fetch(number)),
        _ => None,
    }
}

/// The step once the pull request's number is settled as `pr`.
fn settle(
    subject: &str,
    body: &str,
    author: &str,
    include_pr: bool,
    pr: Option<u64>,
    lookup: bool,
) -> (step: Step)
    ensures
        step@ == settled(subject@, body@, author@, include_pr, pr, lookup),
{
    let is_bot = holds_mark(author, BOT_MARK);
    let found = if is_bot {
        collect_updates(body, false, pr, include_pr)
    } else {
        Vec::new()
    };
    match settle_with(is_bot, found, pr, lookup) {
        Some(step) => step,
        None => Step::Done(Some(subject_result(subject, author, pr, include_pr))),
    }
}

/// What is decided at the start: a commit that is marked is skipped; else
/// the search is due, where no number is known, `lookup` says that the
/// service can be asked, and owner and repository are known. `None` where
/// the commit is to be settled with `pr`.
pub fn begin_with(
    snapshot: bool,
    pr: Option<u64>,
    lookup: bool,
    owner: &str,
    repo: &str,
    hash: &str,
) -> (step: Option<Step>)
    ensures
        early_view(step) == begun(snapshot, pr, lookup, owner@, repo@, hash@),
{
    if snapshot {
        return Some(Step::Done(None));
    }
    if pr.is_none() && lookup && !owner.is_empty() && !repo.is_empty() {
        let mut query = chars_of("repo:");
        append_str(&mut query, owner);
        append_str(&mut query, "/");
        append_str(&mut query, repo);
        append_str(&mut query, " sha:");
        append_str(&mut query, hash);
        return Some(Step::Search(string_of(&query)));
    }
    None
}

/// Classifies a commit as far as it goes without asking the pull-request
/// service. `pr_from_merge` is the pull request's number where the caller
/// knows it already; `lookup` says whether the service can be asked.
///
/// A commit whose subject marks it is skipped, whatever else it holds.
/// Without `lookup` the result is always finished.
pub fn process_commit_with_pr(
    subject: &str,
    body: &str,
    hash: &str,
    author: &str,
    include_pr: bool,
    pr_from_merge: Option<u64>,
    lookup: bool,
    owner: &str,
    repo: &str,
) -> (step: Step)
    ensures
        step@ == first_step(
            subject@,
            body@,
            hash@,
            author@,
            include_pr,
            pr_from_merge,
            lookup,
            owner@,
            repo@,
        ),
        is_snapshot(subject@) ==> step@ == Progress::Done(Outcome::Skip),
        !lookup ==> step is Done,
        step@ matches Progress::Done(outcome) ==> sound_outcome(outcome, author@),
{
    let snapshot = holds_mark(subject, SNAPSHOT_MARK);
    let pr = if snapshot {
        None
    } else {
        known_number(pr_from_merge, subject)
    };
    match begin_with(snapshot, pr, lookup, owner, repo, hash) {
        Some(step) => step,
        None => settle(subject, body, author, include_pr, pr, lookup),
    }
}

/// Classifies a commit of which no pull request is known beforehand, as far
/// as it goes without asking the pull-request service.
pub fn process_commit(
    subject: &str,
    body: &str,
    hash: &str,
    author: &str,
    include_pr: bool,
    lookup: bool,
    owner: &str,
    repo: &str,
) -> (step: Step)
    ensures
        step@ == first_step(
            subject@,
            body@,
            hash@,
            author@,
            include_pr,
            None,
            lookup,
            owner@,
            repo@,
        ),
        is_snapshot(subject@) ==> step@ == Progress::Done(Outcome::Skip),
        !lookup ==> step is Done,
        step@ matches Progress::Done(outcome) ==> sound_outcome(outcome, author@),
{
    process_commit_with_pr(subject, body, hash, author, include_pr, None, lookup, owner, repo)
}

/// Goes on after a search: `hit` is its first result, `None` where it found
/// nothing or failed. The result is finished, or asks for a description.
pub fn resume_with_search(
    subject: &str,
    body: &str,
    author: &str,
    include_pr: bool,
    hit: Option<SearchHit>,
) -> (step: Step)
    ensures
        step@ == settled(subject@, body@, author@, include_pr, hit_pr(hit), true),
        !(step is Search),
        hit_pr(hit) is None ==> step is Done,
        step@ matches Progress::Done(outcome) ==> sound_outcome(outcome, author@),
{
    let pr = match hit {
        Some(h) => if h.is_pull_request {
            Some(h.number)
        } else {
            None
        },
        None => None,
    };
    settle(subject, body, author, include_pr, pr, true)
}

/// Finishes after a fetch: `description` is the text of pull request
/// `number`, `None` where it has none or the fetch failed.
pub fn resume_with_body(
    subject: &str,
    author: &str,
    include_pr: bool,
    number: u64,
    description: Option<String>,
) -> (result: ProcessedCommit)
    ensures
        outcome_of(Some(result)) == fetched(
            subject@,
            author@,
            include_pr,
            number,
            description.deep_view(),
        ),
        sound_outcome(outcome_of(Some(result)), author@),
{
    match description {
        Some(text) => {
            let found = collect_updates(text.as_str(), true, Some(number), include_pr);
            if found.len() > 0 {
                return ProcessedCommit::Dependabot(found);
            }
        },
        None => {},
    }
    subject_result(subject, author, Some(number), include_pr)
}

/// The lines of dependency upgrades after `result` is filed: its lines are
/// added where it is an upgrade.
pub open spec fn filed_upgrades(before: Seq<Seq<char>>, result: Outcome) -> Seq<Seq<char>> {
    match result {
        Outcome::DependencyUpdate(found) => before + found,
        _ => before,
    }
}

/// The lines of other changes after `result` is filed: its line is added
/// where it is another change.
pub open spec fn filed_others(before: Seq<Seq<char>>, result: Outcome) -> Seq<Seq<char>> {
    match result {
        Outcome::GenericChange(line) => before.push(line),
        _ => before,
    }
}

/// Files what a commit contributes: the lines of an upgrade at the end of
/// `dependabot_updates`, the line of another change at the end of
/// `other_changes`, and nothing for a commit that is skipped.
pub fn file_commit(
    result: Option<ProcessedCommit>,
    dependabot_updates: &mut Vec<String>,
    other_changes: &mut Vec<String>,
)
    ensures
        final(dependabot_updates).deep_view() == filed_upgrades(
            old(dependabot_updates).deep_view(),
            outcome_of(result),
        ),
        final(other_changes).deep_view() == filed_others(
            old(other_changes).deep_view(),
            outcome_of(result),
        ),
{
    match result {
        Some(ProcessedCommit::Dependabot(found)) => append_lines(dependabot_updates, &found),
        Some(ProcessedCommit::Other(line)) => append_line(other_changes, line),
        None => {},
    }
}

} // verus!
