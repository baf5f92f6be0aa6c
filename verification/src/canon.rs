//! Canonical ordering of index sequences, with sign bookkeeping.
//!
//! Boson and fermion products store their creator and annihilator mode
//! indices as sorted sequences.  Sorting a fermionic sequence picks up a sign
//! equal to the parity of the permutation — the number of inversions — so the
//! sign tracking is made explicit here rather than left to a sorting
//! routine's implementation details.

use vstd::prelude::*;
use vstd::seq_lib::lemma_multiset_commutative;
use vstd::seq_lib::lemma_sorted_unique;
use vstd::relations::sorted_by;
use vstd::relations::total_ordering;

verus! {

pub open spec fn non_decreasing(s: Seq<usize>) -> bool {
    forall|i: int, j: int| 0 <= i < j < s.len() ==> s[i] <= s[j]
}

pub open spec fn strictly_increasing(s: Seq<usize>) -> bool {
    forall|i: int, j: int| 0 <= i < j < s.len() ==> s[i] < s[j]
}

/// How many entries of `s` exceed `x`.
pub open spec fn count_gt(s: Seq<usize>, x: usize) -> nat
    decreases s.len(),
{
    if s.len() == 0 {
        0
    } else {
        count_gt(s.drop_last(), x) + if s.last() > x {
            1nat
        } else {
            0nat
        }
    }
}

/// The number of inversions of `s`: pairs that stand in decreasing order.
/// Its parity is the sign a fermionic reordering picks up.
pub open spec fn inversions(s: Seq<usize>) -> nat
    decreases s.len(),
{
    if s.len() == 0 {
        0
    } else {
        inversions(s.drop_last()) + count_gt(s.drop_last(), s.last())
    }
}

pub open spec fn is_odd(n: nat) -> bool {
    n % 2 == 1
}

/// `s` with the entries at `i` and `i + 1` exchanged.
pub open spec fn swap_adjacent(s: Seq<usize>, i: int) -> Seq<usize> {
    s.update(i, s[i + 1]).update(i + 1, s[i])
}

/// Exchanging two adjacent entries does not change how many entries exceed
/// `x`.
proof fn lemma_count_gt_swap(s: Seq<usize>, i: int, x: usize)
    requires
        0 <= i,
        i + 1 < s.len(),
    ensures
        count_gt(swap_adjacent(s, i), x) == count_gt(s, x),
    decreases s.len(),
{
    let t = swap_adjacent(s, i);
    if i + 1 == s.len() - 1 {
        let w = s.drop_last().drop_last();
        assert(t.drop_last().drop_last() =~= w);
        assert(t.drop_last() =~= w.push(s[i + 1]));
        assert(s.drop_last() =~= w.push(s[i]));
        assert(count_gt(w.push(s[i + 1]), x) == count_gt(w, x) + if s[i + 1] > x {
            1nat
        } else {
            0nat
        });
        assert(count_gt(w.push(s[i]), x) == count_gt(w, x) + if s[i] > x {
            1nat
        } else {
            0nat
        });
    } else {
        assert(t.drop_last() =~= swap_adjacent(s.drop_last(), i));
        lemma_count_gt_swap(s.drop_last(), i, x);
        assert(t.last() == s.last());
    }
}

/// Fermion anticommutation at the level of index sequences: exchanging two
/// adjacent distinct entries flips the parity of the inversion count.
pub proof fn lemma_inversions_swap(s: Seq<usize>, i: int)
    requires
        0 <= i,
        i + 1 < s.len(),
        s[i] != s[i + 1],
    ensures
        is_odd(inversions(swap_adjacent(s, i))) == !is_odd(inversions(s)),
    decreases s.len(),
{
    let t = swap_adjacent(s, i);
    if i + 1 == s.len() - 1 {
        let w = s.drop_last().drop_last();
        let a = s[i];
        let b = s[i + 1];
        assert(s.drop_last() =~= w.push(a));
        assert(t.drop_last() =~= w.push(b));
        assert(w.push(a).drop_last() =~= w);
        assert(w.push(b).drop_last() =~= w);
        assert(w.push(a).last() == a);
        assert(w.push(b).last() == b);
        assert(inversions(w.push(a)) == inversions(w) + count_gt(w, a));
        assert(inversions(w.push(b)) == inversions(w) + count_gt(w, b));
        assert(count_gt(w.push(a), b) == count_gt(w, b) + if a > b {
            1nat
        } else {
            0nat
        });
        assert(count_gt(w.push(b), a) == count_gt(w, a) + if b > a {
            1nat
        } else {
            0nat
        });
        assert(inversions(s) == inversions(w) + count_gt(w, a) + count_gt(w, b) + if a > b {
            1nat
        } else {
            0nat
        });
        assert(inversions(t) == inversions(w) + count_gt(w, b) + count_gt(w, a) + if b > a {
            1nat
        } else {
            0nat
        });
    } else {
        assert(t.drop_last() =~= swap_adjacent(s.drop_last(), i));
        lemma_inversions_swap(s.drop_last(), i);
        lemma_count_gt_swap(s.drop_last(), i, s.last());
        assert(t.last() == s.last());
    }
}

/// Exchanging two adjacent entries keeps the multiset of entries.
pub proof fn lemma_swap_multiset(s: Seq<usize>, i: int)
    requires
        0 <= i,
        i + 1 < s.len(),
    ensures
        swap_adjacent(s, i).to_multiset() == s.to_multiset(),
{
    broadcast use vstd::seq_lib::group_to_multiset_ensures;

    let t = swap_adjacent(s, i);
    let w = s.subrange(0, i);
    let z = s.subrange(i + 2, s.len() as int);
    assert(s =~= w.push(s[i]).push(s[i + 1]) + z);
    assert(t =~= w.push(s[i + 1]).push(s[i]) + z);
    lemma_multiset_commutative(w.push(s[i]).push(s[i + 1]), z);
    lemma_multiset_commutative(w.push(s[i + 1]).push(s[i]), z);
    assert(w.push(s[i]).push(s[i + 1]).to_multiset() =~= w.to_multiset().insert(s[i]).insert(
        s[i + 1],
    ));
    assert(w.push(s[i + 1]).push(s[i]).to_multiset() =~= w.to_multiset().insert(s[i + 1]).insert(
        s[i],
    ));
    assert(w.to_multiset().insert(s[i]).insert(s[i + 1]) =~= w.to_multiset().insert(
        s[i + 1],
    ).insert(s[i]));
    assert(t.to_multiset() =~= s.to_multiset());
}

/// Inserting an entry anywhere in a sequence inserts it into the multiset.
proof fn lemma_seq_insert_multiset(s: Seq<usize>, p: int, x: usize)
    requires
        0 <= p <= s.len(),
    ensures
        s.insert(p, x).to_multiset() == s.to_multiset().insert(x),
{
    broadcast use vstd::seq_lib::group_to_multiset_ensures;

    let a = s.subrange(0, p);
    let b = s.subrange(p, s.len() as int);
    assert(s =~= a + b);
    assert(s.insert(p, x) =~= a.push(x) + b);
    lemma_multiset_commutative(a, b);
    lemma_multiset_commutative(a.push(x), b);
    assert(a.push(x).to_multiset() =~= a.to_multiset().insert(x));
    assert(s.insert(p, x).to_multiset() =~= s.to_multiset().insert(x));
}

/// A non-decreasing sequence is determined by its multiset of entries: the
/// canonical form of a boson or fermion index list is unique.
pub proof fn lemma_sorted_indices_unique(a: Seq<usize>, b: Seq<usize>)
    requires
        non_decreasing(a),
        non_decreasing(b),
        a.to_multiset() == b.to_multiset(),
    ensures
        a == b,
{
    let leq = |x: usize, y: usize| x <= y;
    assert(total_ordering(leq));
    assert(sorted_by(a, leq));
    assert(sorted_by(b, leq));
    lemma_sorted_unique(a, b, leq);
}

/// A non-decreasing sequence without duplicates increases strictly.
pub proof fn lemma_sorted_distinct_strict(s: Seq<usize>)
    requires
        non_decreasing(s),
        s.no_duplicates(),
    ensures
        strictly_increasing(s),
{
}

proof fn lemma_count_gt_zero(s: Seq<usize>, x: usize)
    requires
        forall|i: int| 0 <= i < s.len() ==> s[i] <= x,
    ensures
        count_gt(s, x) == 0,
    decreases s.len(),
{
    if s.len() > 0 {
        lemma_count_gt_zero(s.drop_last(), x);
    }
}

/// A sorted sequence has no inversions: canonicalizing it picks up no sign.
pub proof fn lemma_sorted_inversions_zero(s: Seq<usize>)
    requires
        non_decreasing(s),
    ensures
        inversions(s) == 0,
    decreases s.len(),
{
    if s.len() > 0 {
        lemma_sorted_inversions_zero(s.drop_last());
        lemma_count_gt_zero(s.drop_last(), s.last());
    }
}

/// Parity of a sum is the exclusive or of the parities.
pub proof fn lemma_odd_add(x: nat, y: nat)
    ensures
        is_odd(x + y) == (is_odd(x) != is_odd(y)),
{
    assert(x % 2 == 0 || x % 2 == 1);
    assert(y % 2 == 0 || y % 2 == 1);
    assert((x + y) % 2 == (x % 2 + y % 2) % 2) by (nonlinear_arith);
}

/// A strictly increasing sequence mentions no index twice.
pub proof fn lemma_strict_no_duplicates(s: Seq<usize>)
    requires
        strictly_increasing(s),
    ensures
        s.no_duplicates(),
{
    assert forall|i: int, j: int|
        0 <= i < s.len() && 0 <= j < s.len() && i != j implies s[i] != s[j] by {
        if i < j {
            assert(s[i] < s[j]);
        } else {
            assert(s[j] < s[i]);
        }
    }
}

/// Being duplicate-free depends only on the multiset of entries.
pub proof fn lemma_no_duplicates_transfer(a: Seq<usize>, b: Seq<usize>)
    requires
        a.to_multiset() == b.to_multiset(),
        a.no_duplicates(),
    ensures
        b.no_duplicates(),
{
    a.lemma_multiset_has_no_duplicates();
    b.lemma_multiset_has_no_duplicates_conv();
}

/// Sort a list of mode indices into non-decreasing order.
pub(crate) fn sort_indices(v: &Vec<usize>) -> (r: Vec<usize>)
    ensures
        non_decreasing(r@),
        r@.to_multiset() == v@.to_multiset(),
        r@.len() == v@.len(),
{
    broadcast use vstd::seq_lib::group_to_multiset_ensures;

    let mut out: Vec<usize> = Vec::new();
    let ghost all = v@;
    assert(v@.take(0) =~= Seq::<usize>::empty());
    assert(out@.to_multiset() =~= v@.take(0).to_multiset());
    let n = v.len();
    for i in 0..n
        invariant
            n == v@.len(),
            out@.len() == i,
            non_decreasing(out@),
            out@.to_multiset() == v@.take(i as int).to_multiset(),
    {
        let x = v[i];
        let mut pos: usize = 0;
        while pos < out.len() && out[pos] <= x
            invariant
                0 <= pos <= out@.len(),
                forall|p: int| 0 <= p < pos ==> out@[p] <= x,
            decreases out@.len() - pos,
        {
            pos += 1;
        }
        let ghost before = out@;
        out.insert(pos, x);
        proof {
            lemma_seq_insert_multiset(before, pos as int, x);
            assert(out@.to_multiset() == before.to_multiset().insert(x));
            v@.take(i as int).to_multiset_ensures();
            assert(v@.take(i as int).push(x).to_multiset() =~= v@.take(
                i as int,
            ).to_multiset().insert(x));
            assert(v@.take(i + 1) =~= v@.take(i as int).push(x));
            assert(out@.to_multiset() =~= v@.take(i + 1).to_multiset());
            assert forall|a: int, b: int| 0 <= a < b < out@.len() implies out@[a] <= out@[b] by {
                if pos < out@.len() && pos as int != a && pos as int != b {
                    assert(out@[pos as int] == x);
                }
            }
        }
    }
    assert(v@.take(n as int) =~= v@);
    out
}

/// Report whether the inversion count of `v` is odd: the sign that sorting a
/// fermionic index list picks up.
pub(crate) fn inversion_parity_odd(v: &Vec<usize>) -> (r: bool)
    ensures
        r == is_odd(inversions(v@)),
{
    let mut odd_acc = false;
    let n = v.len();
    assert(v@.take(0) =~= Seq::<usize>::empty());
    for i in 0..n
        invariant
            n == v@.len(),
            odd_acc == is_odd(inversions(v@.take(i as int))),
    {
        let mut cnt_odd = false;
        assert(v@.take(i as int).take(0) =~= Seq::<usize>::empty());
        for j in 0..i
            invariant
                n == v@.len(),
                i < n,
                cnt_odd == is_odd(count_gt(v@.take(j as int), v@[i as int])),
        {
            proof {
                assert(v@.take(j + 1).drop_last() =~= v@.take(j as int));
                assert(v@.take(j + 1).last() == v@[j as int]);
            }
            if v[j] > v[i] {
                cnt_odd = !cnt_odd;
            }
        }
        proof {
            assert(v@.take(i + 1).drop_last() =~= v@.take(i as int));
            assert(v@.take(i + 1).last() == v@[i as int]);
        }
        if cnt_odd {
            odd_acc = !odd_acc;
        }
    }
    assert(v@.take(n as int) =~= v@);
    odd_acc
}

/// Report whether `v` mentions any index twice.
pub(crate) fn has_duplicate(v: &Vec<usize>) -> (r: bool)
    ensures
        r == !v@.no_duplicates(),
{
    let n = v.len();
    for i in 0..n
        invariant
            n == v@.len(),
            forall|a: int, b: int| 0 <= a < b < i ==> v@[a] != v@[b],
    {
        for j in 0..i
            invariant
                n == v@.len(),
                i < n,
                forall|a: int, b: int| 0 <= a < b < i ==> v@[a] != v@[b],
                forall|a: int| 0 <= a < j ==> v@[a] != v@[i as int],
        {
            if v[j] == v[i] {
                return true;
            }
        }
    }
    false
}

/// Report whether `v` is already strictly increasing.
pub(crate) fn check_strictly_increasing(v: &Vec<usize>) -> (r: bool)
    ensures
        r == strictly_increasing(v@),
{
    let n = v.len();
    if n == 0 {
        return true;
    }
    for i in 0..n - 1
        invariant
            n == v@.len(),
            n >= 1,
            forall|a: int, b: int| 0 <= a < b <= i ==> v@[a] < v@[b],
    {
        if v[i] >= v[i + 1] {
            return false;
        }
    }
    true
}

/// Report whether `v` is already non-decreasing.
pub(crate) fn check_non_decreasing(v: &Vec<usize>) -> (r: bool)
    ensures
        r == non_decreasing(v@),
{
    let n = v.len();
    if n == 0 {
        return true;
    }
    for i in 0..n - 1
        invariant
            n == v@.len(),
            n >= 1,
            forall|a: int, b: int| 0 <= a < b <= i ==> v@[a] <= v@[b],
    {
        if v[i] > v[i + 1] {
            return false;
        }
    }
    true
}

} // verus!
