//! The order of lines: comparing, sorting, and dropping repeated lines.
use crate::text::chars_of;
use vstd::prelude::*;

verus! {

/// `a` stands before `b` in the dictionary, or is `b`: at the first position
/// where they differ `a` has the lesser character, or `a` ends first.
pub open spec fn lex_le(a: Seq<char>, b: Seq<char>) -> bool
    decreases a.len(),
{
    if a.len() == 0 {
        true
    } else if b.len() == 0 {
        false
    } else if a[0] != b[0] {
        a[0] < b[0]
    } else {
        lex_le(a.drop_first(), b.drop_first())
    }
}

/// No line stands before an earlier one.
pub open spec fn ascending(rows: Seq<Seq<char>>) -> bool {
    forall|i: int, j: int|
        #![trigger rows[i], rows[j]]
        0 <= i < j < rows.len() ==> lex_le(rows[i], rows[j])
}

/// How many lines at the start of `rows` do not stand after `row`.
pub open spec fn leading(rows: Seq<Seq<char>>, row: Seq<char>) -> int
    decreases rows.len(),
{
    if rows.len() == 0 || !lex_le(rows[0], row) {
        0
    } else {
        1 + leading(rows.drop_first(), row)
    }
}

/// The lines of `rows` in ascending order: each line in turn is put behind
/// the lines, among those before it, that do not stand after it.
pub open spec fn sorted(rows: Seq<Seq<char>>) -> Seq<Seq<char>>
    decreases rows.len(),
{
    if rows.len() == 0 {
        Seq::empty()
    } else {
        sorted(rows.drop_last()).insert(leading(sorted(rows.drop_last()), rows.last()), rows.last())
    }
}

/// `rows` without the lines that repeat the line before them.
pub open spec fn deduplicated(rows: Seq<Seq<char>>) -> Seq<Seq<char>>
    decreases rows.len(),
{
    if rows.len() <= 1 {
        rows
    } else if rows.last() == rows[rows.len() - 2] {
        deduplicated(rows.drop_last())
    } else {
        deduplicated(rows.drop_last()).push(rows.last())
    }
}

/// Each line stands before all that follow it, and is none of them.
pub open spec fn strictly_ascending(rows: Seq<Seq<char>>) -> bool {
    forall|i: int, j: int|
        #![trigger rows[i], rows[j]]
        0 <= i < j < rows.len() ==> lex_le(rows[i], rows[j]) && rows[i] != rows[j]
}

proof fn lemma_lex_le_reflexive(a: Seq<char>)
    ensures
        lex_le(a, a),
    decreases a.len(),
{
    if a.len() > 0 {
        lemma_lex_le_reflexive(a.drop_first());
    }
}

proof fn lemma_lex_le_total(a: Seq<char>, b: Seq<char>)
    ensures
        lex_le(a, b) || lex_le(b, a),
    decreases a.len(),
{
    if a.len() > 0 && b.len() > 0 && a[0] == b[0] {
        lemma_lex_le_total(a.drop_first(), b.drop_first());
    }
}

proof fn lemma_lex_le_antisymmetric(a: Seq<char>, b: Seq<char>)
    requires
        lex_le(a, b),
        lex_le(b, a),
    ensures
        a == b,
    decreases a.len(),
{
    if a.len() > 0 && b.len() > 0 {
        lemma_lex_le_antisymmetric(a.drop_first(), b.drop_first());
        assert(a == seq![a[0]] + a.drop_first());
        assert(b == seq![b[0]] + b.drop_first());
    } else {
        assert(a == b);
    }
}

proof fn lemma_lex_le_transitive(a: Seq<char>, b: Seq<char>, c: Seq<char>)
    requires
        lex_le(a, b),
        lex_le(b, c),
    ensures
        lex_le(a, c),
    decreases a.len(),
{
    if a.len() > 0 && b.len() > 0 && c.len() > 0 && a[0] == b[0] && b[0] == c[0] {
        lemma_lex_le_transitive(a.drop_first(), b.drop_first(), c.drop_first());
    }
}

/// The order of the dictionary is a total order of texts: any text stands
/// in it with itself; of two texts one does not stand after the other; two
/// texts that each do not stand after the other are one text; and the order
/// passes along a chain of three.
pub proof fn law_dictionary_order(a: Seq<char>, b: Seq<char>, c: Seq<char>)
    ensures
        lex_le(a, a),
        lex_le(a, b) || lex_le(b, a),
        lex_le(a, b) && lex_le(b, a) ==> a == b,
        lex_le(a, b) && lex_le(b, c) ==> lex_le(a, c),
{
    lemma_lex_le_reflexive(a);
    lemma_lex_le_total(a, b);
    if lex_le(a, b) && lex_le(b, a) {
        lemma_lex_le_antisymmetric(a, b);
    }
    if lex_le(a, b) && lex_le(b, c) {
        lemma_lex_le_transitive(a, b, c);
    }
}

/// Whether `a` stands before `b` in the dictionary, or is `b`.
pub fn chars_le(a: &Vec<char>, b: &Vec<char>) -> (le: bool)
    ensures
        le == lex_le(a@, b@),
{
    let mut i: usize = 0;
    assert(a@.skip(0) == a@ && b@.skip(0) == b@);
    while i < a.len() && i < b.len()
        invariant
            i <= a.len(),
            i <= b.len(),
            lex_le(a@, b@) == lex_le(a@.skip(i as int), b@.skip(i as int)),
        decreases a.len() - i,
    {
        assert(a@.skip(i as int)[0] == a@[i as int]);
        assert(b@.skip(i as int)[0] == b@[i as int]);
        if a[i] != b[i] {
            return a[i] < b[i];
        }
        assert(a@.skip(i as int).drop_first() == a@.skip(i + 1));
        assert(b@.skip(i as int).drop_first() == b@.skip(i + 1));
        i += 1;
    }
    i == a.len()
}

/// Whether the line `a` stands before the line `b`, or is `b`.
pub fn line_le(a: &str, b: &str) -> (le: bool)
    ensures
        le == lex_le(a@, b@),
{
    chars_le(&chars_of(a), &chars_of(b))
}

proof fn lemma_leading(rows: Seq<Seq<char>>, row: Seq<char>, k: int)
    requires
        0 <= k <= rows.len(),
        forall|j: int| 0 <= j < k ==> lex_le(rows[j], row),
        k == rows.len() || !lex_le(rows[k], row),
    ensures
        leading(rows, row) == k,
    decreases k,
{
    if k > 0 {
        lemma_leading(rows.drop_first(), row, k - 1);
    }
}

/// The lines of `rows` in ascending order: no line is added or lost.
pub fn sort_lines(rows: &Vec<String>) -> (out: Vec<String>)
    ensures
        out.deep_view() == sorted(rows.deep_view()),
        ascending(out.deep_view()),
        out.deep_view().to_multiset() == rows.deep_view().to_multiset(),
{
    let mut out: Vec<String> = Vec::new();
    let ghost all = rows.deep_view();
    let mut i: usize = 0;
    assert(all.take(0) == Seq::<Seq<char>>::empty());
    assert(out.deep_view() =~= Seq::<Seq<char>>::empty());
    while i < rows.len()
        invariant
            i <= rows.len(),
            all == rows.deep_view(),
            out.deep_view() == sorted(all.take(i as int)),
        decreases rows.len() - i,
    {
        let row = rows[i].clone();
        let ghost before = out.deep_view();
        let mut k: usize = 0;
        while k < out.len() && line_le(out[k].as_str(), row.as_str())
            invariant
                k <= out.len(),
                before == out.deep_view(),
                forall|j: int| 0 <= j < k ==> lex_le(before[j], row@),
            decreases out.len() - k,
        {
            k += 1;
        }
        proof {
            lemma_leading(before, row@, k as int);
            assert(all.take(i + 1).drop_last() == all.take(i as int));
            assert(all.take(i + 1).last() == row@);
        }
        out.insert(k, row);
        assert(out.deep_view() =~= before.insert(k as int, row@));
        i += 1;
    }
    assert(all.take(i as int) == all);
    proof {
        law_sorted(all);
    }
    out
}

/// `rows` without the lines that repeat the line before them. Of lines in
/// ascending order this leaves each line once.
pub fn drop_repeats(rows: &Vec<String>) -> (out: Vec<String>)
    ensures
        out.deep_view() == deduplicated(rows.deep_view()),
        ascending(rows.deep_view()) ==> strictly_ascending(out.deep_view()) && forall|
            row: Seq<char>,
        | out.deep_view().contains(row) <==> rows.deep_view().contains(row),
{
    let mut out: Vec<String> = Vec::new();
    let ghost all = rows.deep_view();
    let mut i: usize = 0;
    assert(all.take(0) == Seq::<Seq<char>>::empty());
    assert(out.deep_view() =~= Seq::<Seq<char>>::empty());
    while i < rows.len()
        invariant
            i <= rows.len(),
            all == rows.deep_view(),
            out.deep_view() == deduplicated(all.take(i as int)),
        decreases rows.len() - i,
    {
        let ghost before = out.deep_view();
        assert(all.take(i + 1).drop_last() == all.take(i as int));
        assert(all.take(i + 1).last() == rows@[i as int]@);
        if i == 0 || !(rows[i] == rows[i - 1]) {
            let row = rows[i].clone();
            out.push(row);
            assert(out.deep_view() =~= before.push(row@));
            if i == 0 {
                assert(all.take(1) =~= seq![row@]);
            } else {
                assert(all.take(i + 1)[i - 1] == rows@[i - 1]@);
            }
        } else {
            assert(all.take(i + 1)[i - 1] == rows@[i - 1]@);
        }
        i += 1;
    }
    assert(all.take(i as int) == all);
    proof {
        if ascending(all) {
            law_deduplicated(all);
        }
    }
    out
}

proof fn lemma_leading_bounds(rows: Seq<Seq<char>>, row: Seq<char>)
    ensures
        0 <= leading(rows, row) <= rows.len(),
        forall|j: int| 0 <= j < leading(rows, row) ==> lex_le(rows[j], row),
        leading(rows, row) < rows.len() ==> !lex_le(rows[leading(rows, row)], row),
    decreases rows.len(),
{
    if rows.len() > 0 && lex_le(rows[0], row) {
        let rest = rows.drop_first();
        lemma_leading_bounds(rest, row);
        assert forall|j: int| 0 <= j < leading(rows, row) implies lex_le(rows[j], row) by {
            if j > 0 {
                assert(lex_le(rest[j - 1], row));
            }
        }
    }
}

/// Sorting puts the lines in ascending order and neither adds nor loses
/// one: each line is there as often as before.
pub proof fn law_sorted(rows: Seq<Seq<char>>)
    ensures
        ascending(sorted(rows)),
        sorted(rows).to_multiset() == rows.to_multiset(),
        sorted(rows).len() == rows.len(),
    decreases rows.len(),
{
    if rows.len() == 0 {
        assert(sorted(rows) == rows);
    } else {
        let s = sorted(rows.drop_last());
        let x = rows.last();
        let k = leading(s, x);
        let out = sorted(rows);
        law_sorted(rows.drop_last());
        lemma_leading_bounds(s, x);
        assert forall|i: int, j: int| 0 <= i < j < out.len() implies lex_le(out[i], out[j]) by {
            if j < k {
                assert(lex_le(s[i], s[j]));
            } else if j == k {
                assert(lex_le(s[i], x));
            } else if i < k {
                assert(lex_le(s[i], s[j - 1]));
            } else {
                lemma_lex_le_total(s[k], x);
                if i == k {
                    if j - 1 > k {
                        assert(lex_le(s[k], s[j - 1]));
                        lemma_lex_le_transitive(x, s[k], s[j - 1]);
                    }
                } else {
                    assert(lex_le(s[i - 1], s[j - 1]));
                }
            }
        }
        vstd::seq_lib::to_multiset_insert(s, k, x);
        vstd::seq_lib::to_multiset_build(rows.drop_last(), x);
        assert(rows.drop_last().push(x) == rows);
        assert(out.to_multiset() =~= rows.to_multiset());
    }
}

/// Of lines in ascending order, dropping the repeats leaves each line once:
/// what is left is strictly ascending and holds the same lines.
pub proof fn law_deduplicated(rows: Seq<Seq<char>>)
    requires
        ascending(rows),
    ensures
        strictly_ascending(deduplicated(rows)),
        forall|row: Seq<char>| deduplicated(rows).contains(row) <==> rows.contains(row),
        rows.len() > 0 ==> deduplicated(rows).len() > 0 && deduplicated(rows).last() == rows.last(),
    decreases rows.len(),
{
    let out = deduplicated(rows);
    if rows.len() > 1 {
        let head = rows.drop_last();
        let d = deduplicated(head);
        law_deduplicated(head);
        assert(head.last() == rows[rows.len() - 2]);
        assert forall|row: Seq<char>| out.contains(row) <==> rows.contains(row) by {
            if rows.contains(row) {
                let i = choose|i: int| 0 <= i < rows.len() && rows[i] == row;
                if i < head.len() {
                    assert(head[i] == row);
                    assert(head.contains(row));
                    assert(d.contains(row));
                    let j = choose|j: int| 0 <= j < d.len() && d[j] == row;
                    assert(out[j] == row);
                } else if rows.last() == head.last() {
                    assert(out.last() == row);
                } else {
                    assert(out[out.len() - 1] == row);
                }
            }
            if out.contains(row) {
                let j = choose|j: int| 0 <= j < out.len() && out[j] == row;
                if j < d.len() {
                    assert(d[j] == row);
                    assert(d.contains(row));
                    assert(head.contains(row));
                    let i = choose|i: int| 0 <= i < head.len() && head[i] == row;
                    assert(rows[i] == row);
                } else {
                    assert(rows[rows.len() - 1] == row);
                }
            }
        }
        if rows.last() != head.last() {
            assert(out == d.push(rows.last()));
            assert forall|i: int, j: int| 0 <= i < j < out.len() implies lex_le(out[i], out[j])
                && out[i] != out[j] by {
                if j == d.len() {
                    assert(d.contains(d[i]));
                    assert(head.contains(d[i]));
                    let k = choose|k: int| 0 <= k < head.len() && head[k] == d[i];
                    assert(rows[k] == d[i]);
                    assert(lex_le(rows[k], rows[rows.len() - 1]));
                    if d[i] == rows.last() && k < rows.len() - 2 {
                        assert(lex_le(rows[k], rows[rows.len() - 2]));
                        assert(lex_le(rows[rows.len() - 2], rows[rows.len() - 1]));
                        lemma_lex_le_antisymmetric(rows[k], rows[rows.len() - 2]);
                    }
                } else {
                    assert(strictly_ascending(d));
                    assert(lex_le(d[i], d[j]) && d[i] != d[j]);
                }
            }
        }
    }
}

} // verus!
