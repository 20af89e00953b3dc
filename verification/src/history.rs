//! What the merged ranges owe to the history of each package.
//!
//! The upgrades of several packages come mixed. The laws here say that the
//! mixing does not matter: the range of a package is the one that its own
//! upgrades leave, taken in their order.
use crate::consolidate::{
    descending, extended, lemma_position_bounds, lemma_with_optional_pr, merged, one_per_package,
    position, started, Range,
};
use crate::parse::Upgrade;
use vstd::prelude::*;

verus! {

/// The upgrades of `package` among `upgrades`, in their order.
pub open spec fn history(upgrades: Seq<Upgrade>, package: Seq<char>) -> Seq<Upgrade>
    decreases upgrades.len(),
{
    if upgrades.len() == 0 {
        Seq::empty()
    } else if upgrades.last().package == package {
        history(upgrades.drop_last(), package).push(upgrades.last())
    } else {
        history(upgrades.drop_last(), package)
    }
}

/// The range that the upgrades of one package leave: the first starts it,
/// each further one extends it.
pub open spec fn chained(upgrades: Seq<Upgrade>) -> Range
    recommends
        upgrades.len() > 0,
    decreases upgrades.len(),
{
    if upgrades.len() <= 1 {
        started(upgrades[0])
    } else {
        extended(chained(upgrades.drop_last()), upgrades.last())
    }
}

/// One of `ranges` is of `package`.
pub open spec fn has_range(ranges: Seq<Range>, package: Seq<char>) -> bool {
    exists|i: int| 0 <= i < ranges.len() && (#[trigger] ranges[i]).package == package
}

/// One of `upgrades` names the pull request `n`.
pub open spec fn names_pr(upgrades: Seq<Upgrade>, n: u64) -> bool {
    exists|k: int| 0 <= k < upgrades.len() && (#[trigger] upgrades[k]).pr == Some(n)
}

/// One of `upgrades` is of `package` and names the pull request `n`.
pub open spec fn package_names_pr(upgrades: Seq<Upgrade>, package: Seq<char>, n: u64) -> bool {
    exists|k: int|
        0 <= k < upgrades.len() && (#[trigger] upgrades[k]).package == package && upgrades[k].pr
            == Some(n)
}

proof fn lemma_merged(upgrades: Seq<Upgrade>)
    ensures
        one_per_package(merged(upgrades)),
        forall|i: int|
            0 <= i < merged(upgrades).len() ==> history(
                upgrades,
                (#[trigger] merged(upgrades)[i]).package,
            ).len() > 0 && merged(upgrades)[i] == chained(
                history(upgrades, merged(upgrades)[i].package),
            ),
        forall|package: Seq<char>|
            #![trigger history(upgrades, package)]
            history(upgrades, package).len() > 0 ==> has_range(merged(upgrades), package),
    decreases upgrades.len(),
{
    if upgrades.len() > 0 {
        let s = upgrades.drop_last();
        let u = upgrades.last();
        let r = merged(s);
        let m = merged(upgrades);
        let at = position(r, u.package);
        lemma_merged(s);
        lemma_position_bounds(r, u.package);
        if at < r.len() {
            assert forall|i: int| 0 <= i < m.len() implies history(
                upgrades,
                (#[trigger] m[i]).package,
            ).len() > 0 && m[i] == chained(history(upgrades, m[i].package)) by {
                let h = history(s, r[i].package);
                assert(h.len() > 0 && r[i] == chained(h));
                if i == at {
                    assert(h.push(u).drop_last() == h);
                }
            }
            assert forall|package: Seq<char>|
                #![trigger history(upgrades, package)]
                history(upgrades, package).len() > 0 implies has_range(m, package) by {
                if package == u.package {
                    assert(m[at].package == package);
                } else {
                    assert(history(s, package).len() > 0);
                    assert(has_range(r, package));
                    let i = choose|i: int| 0 <= i < r.len() && (#[trigger] r[i]).package == package;
                    assert(m[i].package == package);
                }
            }
        } else {
            if history(s, u.package).len() > 0 {
                assert(has_range(r, u.package));
            }
            assert forall|i: int| 0 <= i < m.len() implies history(
                upgrades,
                (#[trigger] m[i]).package,
            ).len() > 0 && m[i] == chained(history(upgrades, m[i].package)) by {
                if i < r.len() {
                    let h = history(s, r[i].package);
                    assert(h.len() > 0 && r[i] == chained(h));
                }
            }
            assert forall|package: Seq<char>|
                #![trigger history(upgrades, package)]
                history(upgrades, package).len() > 0 implies has_range(m, package) by {
                if package == u.package {
                    assert(m[r.len() as int].package == package);
                } else {
                    assert(history(s, package).len() > 0);
                    assert(has_range(r, package));
                    let i = choose|i: int| 0 <= i < r.len() && (#[trigger] r[i]).package == package;
                    assert(m[i].package == package);
                }
            }
        }
    }
}

/// However the upgrades of several packages are mixed, each package that
/// has an upgrade gets one range and no second one, a range is of a package
/// that has an upgrade, and the range of a package is the one that its own
/// upgrades leave, taken in their order: what other packages do in between
/// changes nothing of it.
pub proof fn law_one_range_per_package(upgrades: Seq<Upgrade>)
    ensures
        one_per_package(merged(upgrades)),
        forall|package: Seq<char>|
            history(upgrades, package).len() > 0 <==> #[trigger] has_range(
                merged(upgrades),
                package,
            ),
        forall|i: int|
            0 <= i < merged(upgrades).len() ==> (#[trigger] merged(upgrades)[i]) == chained(
                history(upgrades, merged(upgrades)[i].package),
            ),
{
    lemma_merged(upgrades);
    let m = merged(upgrades);
    assert forall|package: Seq<char>| #[trigger] has_range(m, package) implies history(
        upgrades,
        package,
    ).len() > 0 by {
        let i = choose|i: int| 0 <= i < m.len() && (#[trigger] m[i]).package == package;
        assert(history(upgrades, m[i].package).len() > 0);
    }
}

/// Where a package has two upgrades, from `a` to `b` and then from `b` to
/// `c`, its one range goes from `a` to `c`, whatever other packages the
/// upgrades are mixed with. The one case apart is `c == a` with `b != a`:
/// the second upgrade then ends where the range starts, and is taken to
/// precede it.
pub proof fn law_chain_in_order(
    upgrades: Seq<Upgrade>,
    package: Seq<char>,
    a: Seq<char>,
    b: Seq<char>,
    c: Seq<char>,
    first_pr: Option<u64>,
    second_pr: Option<u64>,
)
    requires
        history(upgrades, package) == seq![
            Upgrade { package, from: a, to: b, pr: first_pr },
            Upgrade { package, from: b, to: c, pr: second_pr },
        ],
        c != a || b == a,
    ensures
        one_per_package(merged(upgrades)),
        has_range(merged(upgrades), package),
        forall|i: int|
            0 <= i < merged(upgrades).len() && (#[trigger] merged(upgrades)[i]).package == package
                ==> merged(upgrades)[i].from == a && merged(upgrades)[i].to == c,
{
    lemma_merged(upgrades);
    let h = history(upgrades, package);
    assert(h.len() == 2);
    assert(h.drop_last() == seq![h[0]]);
    assert(chained(h.drop_last()) == started(h[0]));
    assert(chained(h) == extended(started(h[0]), h[1]));
}

/// Where a package has two upgrades, from `b` to `c` and then from `a` to
/// `b`, its one range goes from `a` to `c`, whatever other packages the
/// upgrades are mixed with.
pub proof fn law_chain_in_reverse(
    upgrades: Seq<Upgrade>,
    package: Seq<char>,
    a: Seq<char>,
    b: Seq<char>,
    c: Seq<char>,
    first_pr: Option<u64>,
    second_pr: Option<u64>,
)
    requires
        history(upgrades, package) == seq![
            Upgrade { package, from: b, to: c, pr: first_pr },
            Upgrade { package, from: a, to: b, pr: second_pr },
        ],
    ensures
        one_per_package(merged(upgrades)),
        has_range(merged(upgrades), package),
        forall|i: int|
            0 <= i < merged(upgrades).len() && (#[trigger] merged(upgrades)[i]).package == package
                ==> merged(upgrades)[i].from == a && merged(upgrades)[i].to == c,
{
    lemma_merged(upgrades);
    let h = history(upgrades, package);
    assert(h.len() == 2);
    assert(h.drop_last() == seq![h[0]]);
    assert(chained(h.drop_last()) == started(h[0]));
    assert(chained(h) == extended(started(h[0]), h[1]));
}

/// The pull requests of a package's range are those that its upgrades name,
/// each once, and stand in strictly descending order, which is the order in
/// which the range's line lists them.
pub proof fn law_pull_requests(upgrades: Seq<Upgrade>)
    requires
        upgrades.len() > 0,
    ensures
        descending(chained(upgrades).prs),
        forall|n: u64| chained(upgrades).prs.contains(n) <==> names_pr(upgrades, n),
    decreases upgrades.len(),
{
    let prs = chained(upgrades).prs;
    if upgrades.len() == 1 {
        lemma_with_optional_pr(Seq::empty(), upgrades[0].pr);
        assert forall|n: u64| prs.contains(n) <==> names_pr(upgrades, n) by {
            if upgrades[0].pr == Some(n) {
                assert(names_pr(upgrades, n));
            }
        }
    } else {
        let s = upgrades.drop_last();
        let u = upgrades.last();
        law_pull_requests(s);
        lemma_with_optional_pr(chained(s).prs, u.pr);
        assert forall|n: u64| prs.contains(n) <==> names_pr(upgrades, n) by {
            if names_pr(s, n) {
                let k = choose|k: int| 0 <= k < s.len() && (#[trigger] s[k]).pr == Some(n);
                assert(upgrades[k].pr == Some(n));
            }
            if u.pr == Some(n) {
                assert(upgrades[upgrades.len() - 1].pr == Some(n));
            }
            if names_pr(upgrades, n) {
                let k = choose|k: int|
                    0 <= k < upgrades.len() && (#[trigger] upgrades[k]).pr == Some(n);
                if k < s.len() {
                    assert(s[k].pr == Some(n));
                }
            }
        }
    }
}

proof fn lemma_history_names(upgrades: Seq<Upgrade>, package: Seq<char>, n: u64)
    ensures
        names_pr(history(upgrades, package), n) <==> package_names_pr(upgrades, package, n),
    decreases upgrades.len(),
{
    let h = history(upgrades, package);
    if upgrades.len() > 0 {
        let s = upgrades.drop_last();
        let u = upgrades.last();
        let hs = history(s, package);
        lemma_history_names(s, package, n);
        if names_pr(h, n) {
            let k = choose|k: int| 0 <= k < h.len() && (#[trigger] h[k]).pr == Some(n);
            if k < hs.len() {
                assert(hs[k].pr == Some(n));
                assert(package_names_pr(s, package, n));
                let j = choose|j: int|
                    0 <= j < s.len() && (#[trigger] s[j]).package == package && s[j].pr == Some(n);
                assert(upgrades[j].package == package && upgrades[j].pr == Some(n));
            } else {
                assert(upgrades[upgrades.len() - 1].package == package);
            }
        }
        if package_names_pr(upgrades, package, n) {
            let j = choose|j: int|
                0 <= j < upgrades.len() && (#[trigger] upgrades[j]).package == package
                    && upgrades[j].pr == Some(n);
            if j < s.len() {
                assert(s[j].package == package && s[j].pr == Some(n));
                assert(names_pr(hs, n));
                let k = choose|k: int| 0 <= k < hs.len() && (#[trigger] hs[k]).pr == Some(n);
                assert(h[k].pr == Some(n));
            } else {
                assert(h[h.len() - 1].pr == Some(n));
            }
        }
    }
}

/// In what a run of upgrades leaves, the pull requests of each range are
/// those that the upgrades of its package name, and no others; each stands
/// once, and they stand in strictly descending order.
pub proof fn law_merged_pull_requests(upgrades: Seq<Upgrade>)
    ensures
        forall|i: int|
            0 <= i < merged(upgrades).len() ==> descending((#[trigger] merged(upgrades)[i]).prs),
        forall|i: int, n: u64|
            0 <= i < merged(upgrades).len() ==> ((#[trigger] merged(upgrades)[i]).prs.contains(n)
                <==> #[trigger] package_names_pr(upgrades, merged(upgrades)[i].package, n)),
{
    lemma_merged(upgrades);
    let m = merged(upgrades);
    assert forall|i: int| 0 <= i < m.len() implies descending((#[trigger] m[i]).prs) by {
        law_pull_requests(history(upgrades, m[i].package));
    }
    assert forall|i: int, n: u64| 0 <= i < m.len() implies ((#[trigger] m[i]).prs.contains(n)
        <==> #[trigger] package_names_pr(upgrades, m[i].package, n)) by {
        law_pull_requests(history(upgrades, m[i].package));
        lemma_history_names(upgrades, m[i].package, n);
    }
}

} // verus!
