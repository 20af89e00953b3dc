//! Merging the upgrades of each package into one range of versions.
//!
//! The lines are taken in the order given. A line that reports an upgrade
//! starts the range of its package, or extends the range that the package
//! has: downwards where the upgrade ends at the range's first version,
//! upwards where it starts at the range's last. An upgrade that touches
//! neither end leaves the versions alone. In every case the pull request of
//! the line is recorded with the range. A line that reports no upgrade is
//! passed on as it is.
use crate::classify::pr_tag;
use crate::parse::{parse_update_line, parsed, ParsedUpdate, Upgrade};
use crate::text::{
    append_chars, append_lines, append_str, chars_of, decimal_chars, string_of,
};
use vstd::prelude::*;

verus! {
/// The range of versions that a package went through, with the pull requests
/// that brought it there.
#[derive(Debug, PartialEq, Eq)]
pub struct ConsolidatedEntry {
    /// The package.
    pub package: String,
    /// The version at which the range starts.
    pub from_version: String,
    /// The version at which the range ends.
    pub to_version: String,
    /// The pull requests, each once, the highest number first.
    pub pr_numbers: Vec<u64>,
}

/// A `ConsolidatedEntry` as contracts see it.
pub struct Range {
    pub package: Seq<char>,
    pub from: Seq<char>,
    pub to: Seq<char>,
    pub prs: Seq<u64>,
}

impl View for ConsolidatedEntry {
    type V = Range;

    open spec fn view(&self) -> Range {
        Range {
            package: self.package@,
            from: self.from_version@,
            to: self.to_version@,
            prs: self.pr_numbers@,
        }
    }
}

impl DeepView for ConsolidatedEntry {
    type V = Range;

    open spec fn deep_view(&self) -> Range {
        self@
    }
}

/// Each number is greater than all that follow it.
pub open spec fn descending(prs: Seq<u64>) -> bool {
    forall|i: int, j: int| 0 <= i < j < prs.len() ==> prs[i] > prs[j]
}

/// How many numbers at the start of `prs` are greater than `n`.
pub open spec fn above(prs: Seq<u64>, n: u64) -> int
    decreases prs.len(),
{
    if prs.len() == 0 || prs[0] <= n {
        0
    } else {
        1 + above(prs.drop_first(), n)
    }
}

/// `prs` with `n` among them: unchanged where it is there already, else with
/// `n` put behind the numbers greater than it.
pub open spec fn with_pr(prs: Seq<u64>, n: u64) -> Seq<u64> {
    if prs.contains(n) {
        prs
    } else {
        prs.insert(above(prs, n), n)
    }
}

/// The pull requests of a range after an upgrade with pull request `pr`.
pub open spec fn with_optional_pr(prs: Seq<u64>, pr: Option<u64>) -> Seq<u64> {
    match pr {
        Some(n) => with_pr(prs, n),
        None => prs,
    }
}

/// The range that the first upgrade of a package starts.
pub open spec fn started(u: Upgrade) -> Range {
    Range { package: u.package, from: u.from, to: u.to, prs: with_optional_pr(Seq::empty(), u.pr) }
}

/// The range `r` after a further upgrade `u` of its package.
pub open spec fn extended(r: Range, u: Upgrade) -> Range {
    Range {
        package: r.package,
        from: if u.to == r.from {
            u.from
        } else {
            r.from
        },
        to: if u.to != r.from && u.from == r.to {
            u.to
        } else {
            r.to
        },
        prs: with_optional_pr(r.prs, u.pr),
    }
}

/// Where the range of `package` stands in `ranges`: the first position with
/// that package, or the length of `ranges` where there is none.
pub open spec fn position(ranges: Seq<Range>, package: Seq<char>) -> int
    decreases ranges.len(),
{
    if ranges.len() == 0 || ranges[0].package == package {
        0
    } else {
        1 + position(ranges.drop_first(), package)
    }
}

/// `ranges` after the upgrade `u`: the range of its package is extended, or
/// a new range is added at the end.
pub open spec fn absorbed(ranges: Seq<Range>, u: Upgrade) -> Seq<Range> {
    if position(ranges, u.package) < ranges.len() {
        ranges.update(
            position(ranges, u.package),
            extended(ranges[position(ranges, u.package)], u),
        )
    } else {
        ranges.push(started(u))
    }
}

/// The ranges that a run of upgrades leaves, each package where it was seen
/// first.
pub open spec fn merged(upgrades: Seq<Upgrade>) -> Seq<Range>
    decreases upgrades.len(),
{
    if upgrades.len() == 0 {
        Seq::empty()
    } else {
        absorbed(merged(upgrades.drop_last()), upgrades.last())
    }
}

/// No two ranges are of one package.
pub open spec fn one_per_package(ranges: Seq<Range>) -> bool {
    forall|i: int, j: int| 0 <= i < j < ranges.len() ==> ranges[i].package != ranges[j].package
}

/// The upgrades that `lines` report, in their order.
pub open spec fn upgrades_of(lines: Seq<Seq<char>>) -> Seq<Upgrade>
    decreases lines.len(),
{
    if lines.len() == 0 {
        Seq::empty()
    } else {
        match parsed(lines.last()) {
            Some(u) => upgrades_of(lines.drop_last()).push(u),
            None => upgrades_of(lines.drop_last()),
        }
    }
}

/// The lines among `lines` that report no upgrade, in their order.
pub open spec fn others_of(lines: Seq<Seq<char>>) -> Seq<Seq<char>>
    decreases lines.len(),
{
    if lines.len() == 0 {
        Seq::empty()
    } else {
        match parsed(lines.last()) {
            Some(u) => others_of(lines.drop_last()),
            None => others_of(lines.drop_last()).push(lines.last()),
        }
    }
}

/// The pull requests as they are listed: each as `#` and its digits, with a
/// comma and a space between two.
pub open spec fn pr_list(prs: Seq<u64>) -> Seq<char>
    decreases prs.len(),
{
    if prs.len() == 0 {
        Seq::empty()
    } else if prs.len() == 1 {
        pr_tag(prs[0])
    } else {
        pr_list(prs.drop_last()) + ", "@ + pr_tag(prs.last())
    }
}

/// The pull requests as they follow a range: nothing where there are none,
/// else two spaces and the list in brackets.
pub open spec fn pr_suffix(prs: Seq<u64>) -> Seq<char> {
    if prs.len() == 0 {
        Seq::empty()
    } else {
        "  ("@ + pr_list(prs) + ")"@
    }
}

/// The line that stands for a range.
pub open spec fn rendered(r: Range) -> Seq<char> {
    "- Updates `"@ + r.package + "` from "@ + r.from + " to "@ + r.to + pr_suffix(r.prs)
}

/// The lines that stand for `ranges`, in their order.
pub open spec fn rendered_all(ranges: Seq<Range>) -> Seq<Seq<char>> {
    Seq::new(ranges.len(), |i: int| rendered(ranges[i]))
}

/// What `lines` consolidate to: one line for each package that they report
/// upgrades of, in the order in which the packages first occur, then the
/// lines that report no upgrade, in their order.
pub open spec fn consolidated(lines: Seq<Seq<char>>) -> Seq<Seq<char>> {
    rendered_all(merged(upgrades_of(lines))) + others_of(lines)
}

proof fn lemma_above(prs: Seq<u64>, n: u64, k: int)
    requires
        0 <= k <= prs.len(),
        forall|j: int| 0 <= j < k ==> prs[j] > n,
        k == prs.len() || prs[k] <= n,
    ensures
        above(prs, n) == k,
    decreases k,
{
    if k > 0 {
        lemma_above(prs.drop_first(), n, k - 1);
    }
}

/// Records the pull request `n` among `prs`.
fn record_pr(prs: &mut Vec<u64>, n: u64)
    requires
        descending(old(prs)@),
    ensures
        final(prs)@ == with_pr(old(prs)@, n),
        descending(final(prs)@),
{
    let mut k: usize = 0;
    while k < prs.len() && prs[k] > n
        invariant
            k <= prs.len(),
            prs@ == old(prs)@,
            forall|j: int| 0 <= j < k ==> prs@[j] > n,
        decreases prs.len() - k,
    {
        k += 1;
    }
    if k < prs.len() && prs[k] == n {
        assert(prs@.contains(n));
        return ;
    }
    proof {
        lemma_above(prs@, n, k as int);
        assert forall|j: int| 0 <= j < prs@.len() implies prs@[j] != n by {
            if j > k {
                assert(prs@[k as int] > prs@[j]);
            }
        }
    }
    prs.insert(k, n);
    proof {
        lemma_with_pr(old(prs)@, n);
    }
}

impl ConsolidatedEntry {
    /// The pull requests stand each once, the highest number first.
    pub open spec fn wf(&self) -> bool {
        descending(self.pr_numbers@)
    }

    /// The range that the first upgrade of a package starts.
    pub fn start(update: ParsedUpdate) -> (entry: ConsolidatedEntry)
        ensures
            entry@ == started(update@),
            entry.wf(),
    {
        let mut pr_numbers: Vec<u64> = Vec::new();
        assert(pr_numbers@ == Seq::<u64>::empty());
        if let Some(n) = update.pr_number {
            record_pr(&mut pr_numbers, n);
        }
        ConsolidatedEntry {
            package: update.package,
            from_version: update.from_version,
            to_version: update.to_version,
            pr_numbers,
        }
    }

    /// Takes in a further upgrade of the package.
    pub fn absorb(&mut self, update: ParsedUpdate)
        requires
            old(self).wf(),
        ensures
            final(self)@ == extended(old(self)@, update@),
            final(self).wf(),
    {
        if update.to_version == self.from_version {
            self.from_version = update.from_version;
        } else if update.from_version == self.to_version {
            self.to_version = update.to_version;
        }
        if let Some(n) = update.pr_number {
            record_pr(&mut self.pr_numbers, n);
        }
    }

    /// The line that stands for the range.
    pub fn render(&self) -> (line: String)
        ensures
            line@ == rendered(self@),
    {
        let mut line = chars_of("- Updates `");
        append_str(&mut line, self.package.as_str());
        append_str(&mut line, "` from ");
        append_str(&mut line, self.from_version.as_str());
        append_str(&mut line, " to ");
        append_str(&mut line, self.to_version.as_str());
        if self.pr_numbers.len() > 0 {
            let ghost head = line@;
            append_str(&mut line, "  (");
            let mut list: Vec<char> = Vec::new();
            let mut k: usize = 0;
            assert(self.pr_numbers@.take(0) == Seq::<u64>::empty());
            while k < self.pr_numbers.len()
                invariant
                    k <= self.pr_numbers.len(),
                    list@ == pr_list(self.pr_numbers@.take(k as int)),
                decreases self.pr_numbers.len() - k,
            {
                assert(self.pr_numbers@.take(k + 1).drop_last() == self.pr_numbers@.take(k as int));
                if k > 0 {
                    append_str(&mut list, ", ");
                }
                append_str(&mut list, "#");
                append_chars(&mut list, &decimal_chars(self.pr_numbers[k]));
                assert(list@ == pr_list(self.pr_numbers@.take(k + 1)));
                k += 1;
            }
            assert(self.pr_numbers@.take(k as int) == self.pr_numbers@);
            append_chars(&mut line, &list);
            append_str(&mut line, ")");
            assert(line@ == head + pr_suffix(self.pr_numbers@));
        }
        string_of(&line)
    }
}

proof fn lemma_position(ranges: Seq<Range>, package: Seq<char>, k: int)
    requires
        0 <= k <= ranges.len(),
        forall|j: int| 0 <= j < k ==> ranges[j].package != package,
        k == ranges.len() || ranges[k].package == package,
    ensures
        position(ranges, package) == k,
    decreases k,
{
    if k > 0 {
        lemma_position(ranges.drop_first(), package, k - 1);
    }
}

pub(crate) proof fn lemma_position_bounds(ranges: Seq<Range>, package: Seq<char>)
    ensures
        0 <= position(ranges, package) <= ranges.len(),
        position(ranges, package) < ranges.len() ==> ranges[position(ranges, package)].package
            == package,
        forall|j: int| 0 <= j < position(ranges, package) ==> (#[trigger] ranges[j]).package != package,
    decreases ranges.len(),
{
    if ranges.len() > 0 && ranges[0].package != package {
        let rest = ranges.drop_first();
        lemma_position_bounds(rest, package);
        assert forall|j: int| 0 <= j < position(ranges, package) implies (#[trigger] ranges[j]).package
            != package by {
            if j > 0 {
                assert(rest[j - 1].package != package);
            }
        }
    }
}

proof fn lemma_absorbed_one_per_package(ranges: Seq<Range>, u: Upgrade)
    requires
        one_per_package(ranges),
    ensures
        one_per_package(absorbed(ranges, u)),
{
    lemma_position_bounds(ranges, u.package);
    let after = absorbed(ranges, u);
    assert forall|i: int, j: int| 0 <= i < j < after.len() implies after[i].package
        != after[j].package by {
        if j < ranges.len() {
            assert(ranges[i].package != ranges[j].package);
        }
    }
}

/// Every entry is well formed.
pub open spec fn all_wf(entries: Seq<ConsolidatedEntry>) -> bool {
    forall|i: int| 0 <= i < entries.len() ==> (#[trigger] entries[i]).wf()
}

/// Takes the upgrade `update` into `entries`: into the entry of its package,
/// or as a new entry at the end.
pub fn absorb_update(entries: &mut Vec<ConsolidatedEntry>, update: ParsedUpdate)
    requires
        all_wf(old(entries)@),
    ensures
        final(entries).deep_view() == absorbed(old(entries).deep_view(), update@),
        all_wf(final(entries)@),
        one_per_package(old(entries).deep_view()) ==> one_per_package(final(entries).deep_view()),
{
    let ghost ranges = entries.deep_view();
    let mut at: usize = 0;
    while at < entries.len() && !(entries[at].package == update.package)
        invariant
            at <= entries.len(),
            entries == old(entries),
            ranges == entries.deep_view(),
            forall|j: int| 0 <= j < at ==> ranges[j].package != update.package@,
        decreases entries.len() - at,
    {
        assert(ranges[at as int].package == entries@[at as int].package@);
        at += 1;
    }
    proof {
        if at < entries.len() {
            assert(ranges[at as int].package == entries@[at as int].package@);
        }
        lemma_position(ranges, update@.package, at as int);
        if one_per_package(ranges) {
            lemma_absorbed_one_per_package(ranges, update@);
        }
    }
    if at < entries.len() {
        entries[at].absorb(update);
        assert(entries.deep_view() =~= absorbed(ranges, update@));
    } else {
        let ghost u = update@;
        let entry = ConsolidatedEntry::start(update);
        entries.push(entry);
        assert(entries.deep_view() =~= absorbed(ranges, u));
    }
}

/// The entries that `updates` leave, each package where it was seen first,
/// and the lines that report no upgrade, both in their order.
pub fn consolidate_entries(updates: &Vec<String>) -> (tally: (Vec<ConsolidatedEntry>, Vec<String>))
    ensures
        tally.0.deep_view() == merged(upgrades_of(updates.deep_view())),
        all_wf(tally.0@),
        one_per_package(tally.0.deep_view()),
        tally.1.deep_view() == others_of(updates.deep_view()),
{
    let mut entries: Vec<ConsolidatedEntry> = Vec::new();
    let mut others: Vec<String> = Vec::new();
    let ghost lines = updates.deep_view();
    let mut i: usize = 0;
    assert(lines.take(0) == Seq::<Seq<char>>::empty());
    assert(entries.deep_view() =~= Seq::<Range>::empty());
    assert(others.deep_view() =~= Seq::<Seq<char>>::empty());
    while i < updates.len()
        invariant
            i <= updates.len(),
            lines == updates.deep_view(),
            entries.deep_view() == merged(upgrades_of(lines.take(i as int))),
            all_wf(entries@),
            one_per_package(entries.deep_view()),
            others.deep_view() == others_of(lines.take(i as int)),
        decreases updates.len() - i,
    {
        assert(lines.take(i + 1).drop_last() == lines.take(i as int));
        assert(lines.take(i + 1).last() == updates@[i as int]@);
        match parse_update_line(updates[i].as_str()) {
            Some(update) => {
                assert(upgrades_of(lines.take(i + 1)).drop_last() == upgrades_of(
                    lines.take(i as int),
                ));
                absorb_update(&mut entries, update);
            },
            None => {
                let ghost before = others.deep_view();
                let line = updates[i].clone();
                others.push(line);
                assert(others.deep_view() =~= before.push(line@));
            },
        }
        i += 1;
    }
    assert(lines.take(i as int) == lines);
    (entries, others)
}

/// Merges the upgrades that `updates` report into one line for each package,
/// in the order in which the packages first occur, and lets the lines that
/// report no upgrade follow as they are.
pub fn consolidate_dependabot_updates(updates: Vec<String>) -> (merged_lines: Vec<String>)
    ensures
        merged_lines.deep_view() == consolidated(updates.deep_view()),
{
    let (entries, others) = consolidate_entries(&updates);
    let mut merged_lines: Vec<String> = Vec::new();
    let ghost ranges = entries.deep_view();
    let mut i: usize = 0;
    assert(merged_lines.deep_view() =~= rendered_all(ranges).take(0));
    while i < entries.len()
        invariant
            i <= entries.len(),
            ranges == entries.deep_view(),
            merged_lines.deep_view() == rendered_all(ranges).take(i as int),
        decreases entries.len() - i,
    {
        let line = entries[i].render();
        let ghost before = merged_lines.deep_view();
        merged_lines.push(line);
        assert(merged_lines.deep_view() =~= before.push(line@));
        assert(ranges[i as int] == entries@[i as int]@);
        assert(rendered_all(ranges).take(i + 1) =~= rendered_all(ranges).take(i as int).push(
            line@,
        ));
        i += 1;
    }
    assert(rendered_all(ranges).take(i as int) == rendered_all(ranges));
    append_lines(&mut merged_lines, &others);
    merged_lines
}

proof fn lemma_above_bounds(prs: Seq<u64>, n: u64)
    ensures
        0 <= above(prs, n) <= prs.len(),
        forall|j: int| 0 <= j < above(prs, n) ==> prs[j] > n,
        above(prs, n) < prs.len() ==> prs[above(prs, n)] <= n,
    decreases prs.len(),
{
    if prs.len() > 0 && prs[0] > n {
        let rest = prs.drop_first();
        lemma_above_bounds(rest, n);
        assert forall|j: int| 0 <= j < above(prs, n) implies prs[j] > n by {
            if j > 0 {
                assert(rest[j - 1] > n);
            }
        }
    }
}

proof fn lemma_with_pr(prs: Seq<u64>, n: u64)
    requires
        descending(prs),
    ensures
        descending(with_pr(prs, n)),
        forall|m: u64| with_pr(prs, n).contains(m) <==> (prs.contains(m) || m == n),
{
    let k = above(prs, n);
    let after = with_pr(prs, n);
    lemma_above_bounds(prs, n);
    if !prs.contains(n) {
        assert forall|i: int, j: int| 0 <= i < j < after.len() implies after[i] > after[j] by {
            if i < k && j > k {
                assert(prs[i] > prs[j - 1]);
            } else if i > k {
                assert(prs[i - 1] > prs[j - 1]);
            } else if i == k {
                assert(prs[k] != n);
                if j > k + 1 {
                    assert(prs[k] > prs[j - 1]);
                }
            }
        }
        assert forall|m: u64| after.contains(m) <==> (prs.contains(m) || m == n) by {
            if after.contains(m) {
                let i = choose|i: int| 0 <= i < after.len() && after[i] == m;
                if i < k {
                    assert(prs[i] == m);
                } else if i > k {
                    assert(prs[i - 1] == m);
                }
            }
            if prs.contains(m) {
                let i = choose|i: int| 0 <= i < prs.len() && prs[i] == m;
                if i < k {
                    assert(after[i] == m);
                } else {
                    assert(after[i + 1] == m);
                }
            }
            if m == n {
                assert(after[k] == m);
            }
        }
    }
}

pub(crate) proof fn lemma_with_optional_pr(prs: Seq<u64>, pr: Option<u64>)
    requires
        descending(prs),
    ensures
        descending(with_optional_pr(prs, pr)),
        forall|m: u64|
            with_optional_pr(prs, pr).contains(m) <==> (prs.contains(m) || pr == Some(m)),
{
    if let Some(n) = pr {
        lemma_with_pr(prs, n);
    }
}

/// A further upgrade changes the versions of a range only at an end that
/// it touches: the start where it ends there, the end where it starts there
/// and does not end at the start. An upgrade that touches neither end leaves
/// both versions as they are. In every case the package stays, and the
/// pull request of the upgrade is among those of the range.
pub proof fn law_range_extends_at_its_ends(r: Range, u: Upgrade)
    requires
        descending(r.prs),
    ensures
        extended(r, u).package == r.package,
        extended(r, u).from == if u.to == r.from {
            u.from
        } else {
            r.from
        },
        extended(r, u).to == r.to || (u.from == r.to && extended(r, u).to == u.to),
        u.to != r.from && u.from != r.to ==> extended(r, u).from == r.from && extended(r, u).to
            == r.to,
        forall|n: u64| r.prs.contains(n) ==> extended(r, u).prs.contains(n),
        forall|n: u64| u.pr == Some(n) ==> extended(r, u).prs.contains(n),
{
    lemma_with_optional_pr(r.prs, u.pr);
}

/// A line that reports no upgrade is never dropped: it is among the lines
/// that pass through, and so among the consolidated lines.
pub proof fn law_other_lines_kept(lines: Seq<Seq<char>>, k: int)
    requires
        0 <= k < lines.len(),
        parsed(lines[k]) is None,
    ensures
        others_of(lines).contains(lines[k]),
        consolidated(lines).contains(lines[k]),
    decreases lines.len(),
{
    let others = others_of(lines);
    if k == lines.len() - 1 {
        assert(others.last() == lines[k]);
    } else {
        let head = lines.drop_last();
        law_other_lines_kept(head, k);
        let at = choose|at: int| 0 <= at < others_of(head).len() && others_of(head)[at] == head[k];
        assert(others[at] == lines[k]);
    }
    let at = choose|at: int| 0 <= at < others.len() && others[at] == lines[k];
    let ranges = rendered_all(merged(upgrades_of(lines)));
    assert(consolidated(lines)[ranges.len() + at] == lines[k]);
}

/// Consolidation gives no line for no line, and a line at least for any
/// line given: as many lines as there are ranges and lines passed through.
pub proof fn law_consolidated_is_empty_for_nothing_only(lines: Seq<Seq<char>>)
    ensures
        consolidated(lines).len() == merged(upgrades_of(lines)).len() + others_of(lines).len(),
        upgrades_of(lines).len() + others_of(lines).len() == lines.len(),
        consolidated(lines).len() == 0 <==> lines.len() == 0,
    decreases lines.len(),
{
    if lines.len() > 0 {
        law_consolidated_is_empty_for_nothing_only(lines.drop_last());
        let upgrades = upgrades_of(lines);
        if upgrades.len() > 0 {
            lemma_position_bounds(merged(upgrades.drop_last()), upgrades.last().package);
        }
    }
}

} // verus!
