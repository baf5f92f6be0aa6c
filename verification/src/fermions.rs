//! Fermionic operator products.
//!
//! A `FermionProduct` is a normal-ordered monomial of fermionic creation and
//! annihilation operators: a strictly increasing list of creator mode indices
//! followed by a strictly increasing list of annihilator mode indices.
//! Reordering fermionic operators of the same kind anticommutes, so
//! canonicalization returns the sorted product together with a sign given by
//! the parity of the permutation; a repeated index makes the whole product
//! the zero term (Pauli exclusion), reported as the coefficient `0`.

use crate::canon::check_strictly_increasing;
use crate::canon::has_duplicate;
use crate::canon::inversion_parity_odd;
use crate::canon::inversions;
use crate::canon::is_odd;
use crate::canon::lemma_inversions_swap;
use crate::canon::lemma_no_duplicates_transfer;
use crate::canon::lemma_odd_add;
use crate::canon::lemma_sorted_distinct_strict;
use crate::canon::lemma_sorted_indices_unique;
use crate::canon::lemma_sorted_inversions_zero;
use crate::canon::lemma_strict_no_duplicates;
use crate::canon::lemma_swap_multiset;
use crate::canon::non_decreasing;
use crate::canon::sort_indices;
use crate::canon::strictly_increasing;
use crate::canon::swap_adjacent;
use crate::error::StruqtureError;
use crate::key::OperatorKey;
use crate::key::cmp_index_vecs;
use crate::key::dup_index_vec;
use crate::order::CanonOrd;
use crate::order::KeyOrder;
use vstd::prelude::*;

verus! {

/// Canonical form predicate for fermion products: both index lists strictly
/// increase.
pub open spec fn fermion_wf(v: (Seq<usize>, Seq<usize>)) -> bool {
    strictly_increasing(v.0) && strictly_increasing(v.1)
}

/// What canonicalizing the raw lists `c` and `a` yields: the sorted product
/// with the permutation's sign, or the zero term on a repeated index.
pub open spec fn fermion_canonical_result(c: Seq<usize>, a: Seq<usize>, r: (
    FermionProduct,
    i64,
)) -> bool {
    &&& (c.no_duplicates() && a.no_duplicates()) ==> {
        &&& r.0@.0.to_multiset() == c.to_multiset()
        &&& r.0@.1.to_multiset() == a.to_multiset()
        &&& non_decreasing(r.0@.0) && non_decreasing(r.0@.1)
        &&& r.1 == if is_odd(inversions(c) + inversions(a)) {
            -1int
        } else {
            1int
        }
    }
    &&& !(c.no_duplicates() && a.no_duplicates()) ==> r.0@ == (
        Seq::<usize>::empty(),
        Seq::<usize>::empty(),
    ) && r.1 == 0
    &&& fermion_wf((c, a)) ==> r.0@ == (c, a) && r.1 == 1
}

/// A canonical fermionic creation/annihilation monomial.
#[derive(Debug, PartialEq, Eq, PartialOrd, Ord, Hash)]
pub struct FermionProduct {
    creators: Vec<usize>,
    annihilators: Vec<usize>,
}

impl Clone for FermionProduct {
    fn clone(&self) -> (r: Self)
        ensures
            r@ == self@,
    {
        proof {
            use_type_invariant(self);
        }
        FermionProduct {
            creators: dup_index_vec(&self.creators),
            annihilators: dup_index_vec(&self.annihilators),
        }
    }
}

impl View for FermionProduct {
    type V = (Seq<usize>, Seq<usize>);

    closed spec fn view(&self) -> (Seq<usize>, Seq<usize>) {
        (self.creators@, self.annihilators@)
    }
}

impl FermionProduct {
    #[verifier::type_invariant]
    pub open spec fn canonical(self) -> bool {
        fermion_wf(self@)
    }

    /// The identity product: no creators, no annihilators.
    pub fn identity() -> (r: FermionProduct)
        ensures
            r@ == (Seq::<usize>::empty(), Seq::<usize>::empty()),
    {
        let r = FermionProduct { creators: Vec::new(), annihilators: Vec::new() };
        proof {
            assert(r@.0 =~= Seq::<usize>::empty());
            assert(r@.1 =~= Seq::<usize>::empty());
        }
        r
    }

    /// Build a product from already canonical index lists.  Fails with
    /// `StructuralIndexError` exactly when one of the lists is not strictly
    /// increasing.
    pub fn new(creators: Vec<usize>, annihilators: Vec<usize>) -> (r: Result<
        FermionProduct,
        StruqtureError,
    >)
        ensures
            fermion_wf((creators@, annihilators@)) ==> (r matches Ok(p) && p@ == (
                creators@,
                annihilators@,
            )),
            !fermion_wf((creators@, annihilators@)) ==> r === Err(
                StruqtureError::StructuralIndexError,
            ),
    {
        if check_strictly_increasing(&creators) && check_strictly_increasing(&annihilators) {
            Ok(FermionProduct { creators, annihilators })
        } else {
            Err(StruqtureError::StructuralIndexError)
        }
    }

    /// Canonicalize raw creator and annihilator lists: sort each list and
    /// report the anticommutation sign, `-1` for an odd permutation, `1` for
    /// an even one, and `0` when a repeated index makes the product the zero
    /// term.  An already canonical input comes back unchanged with sign `1`.
    pub fn canonicalize(creators: Vec<usize>, annihilators: Vec<usize>) -> (r: (
        FermionProduct,
        i64,
    ))
        ensures
            fermion_canonical_result(creators@, annihilators@, r),
    {
        if has_duplicate(&creators) || has_duplicate(&annihilators) {
            proof {
                if fermion_wf((creators@, annihilators@)) {
                    lemma_strict_no_duplicates(creators@);
                    lemma_strict_no_duplicates(annihilators@);
                }
            }
            return (Self::identity(), 0);
        }
        let odd_c = inversion_parity_odd(&creators);
        let odd_a = inversion_parity_odd(&annihilators);
        let sorted_c = sort_indices(&creators);
        let sorted_a = sort_indices(&annihilators);
        proof {
            lemma_no_duplicates_transfer(creators@, sorted_c@);
            lemma_no_duplicates_transfer(annihilators@, sorted_a@);
            lemma_sorted_distinct_strict(sorted_c@);
            lemma_sorted_distinct_strict(sorted_a@);
            lemma_odd_add(inversions(creators@), inversions(annihilators@));
            if fermion_wf((creators@, annihilators@)) {
                lemma_sorted_indices_unique(sorted_c@, creators@);
                lemma_sorted_indices_unique(sorted_a@, annihilators@);
                lemma_sorted_inversions_zero(creators@);
                lemma_sorted_inversions_zero(annihilators@);
            }
        }
        let sign: i64 = if odd_c != odd_a {
            -1
        } else {
            1
        };
        (FermionProduct { creators: sorted_c, annihilators: sorted_a }, sign)
    }

    /// Multiply two products: the creator lists and the annihilator lists
    /// are concatenated and the whole is re-canonicalized, yielding the
    /// canonical product with the anticommutation sign — or the zero term
    /// when an index repeats, by Pauli exclusion.
    pub fn multiply(a: &FermionProduct, b: &FermionProduct) -> (r: (FermionProduct, i64))
        ensures
            fermion_canonical_result(a@.0 + b@.0, a@.1 + b@.1, r),
    {
        let mut creators = dup_index_vec(a.creators());
        let mut more_creators = dup_index_vec(b.creators());
        creators.append(&mut more_creators);
        let mut annihilators = dup_index_vec(a.annihilators());
        let mut more_annihilators = dup_index_vec(b.annihilators());
        annihilators.append(&mut more_annihilators);
        Self::canonicalize(creators, annihilators)
    }

    /// Hermitian conjugation swaps creators and annihilators.  The conjugate
    /// of the ascending monomial lists them descending; sorting a reversed
    /// list of length `k` back into ascending order takes `k(k-1)/2`
    /// adjacent transpositions, whose parity is odd exactly when `k` leaves
    /// remainder `2` or `3` modulo `4` — that parity, over both lists, is
    /// the returned sign.
    pub fn hermitian_conjugate(&self) -> (r: (FermionProduct, i64))
        ensures
            r.0@ == (self@.1, self@.0),
            r.1 == conjugation_sign(self@.0.len(), self@.1.len()),
    {
        proof {
            use_type_invariant(self);
        }
        let creators = dup_index_vec(&self.annihilators);
        let annihilators = dup_index_vec(&self.creators);
        let sign: i64 = if reversal_parity_odd(self.creators.len())
            != reversal_parity_odd(self.annihilators.len()) {
            -1
        } else {
            1
        };
        (FermionProduct { creators, annihilators }, sign)
    }

    /// The creator mode indices, strictly increasing.
    pub fn creators(&self) -> (r: &Vec<usize>)
        ensures
            r@ == self@.0,
            strictly_increasing(r@),
    {
        proof {
            use_type_invariant(self);
        }
        &self.creators
    }

    /// The annihilator mode indices, strictly increasing.
    pub fn annihilators(&self) -> (r: &Vec<usize>)
        ensures
            r@ == self@.1,
            strictly_increasing(r@),
    {
        proof {
            use_type_invariant(self);
        }
        &self.annihilators
    }

    /// How many modes the product reaches: one more than the largest mode
    /// index mentioned (saturating), `0` for the identity.
    pub fn current_number_modes(&self) -> (r: usize)
        ensures
            r == modes_reached(self@),
    {
        proof {
            use_type_invariant(self);
        }
        let c = bound_of(&self.creators);
        let a = bound_of(&self.annihilators);
        if c < a {
            a
        } else {
            c
        }
    }
}

/// One more than the last entry of a sorted index list (saturating), `0` when
/// the list is empty.
pub open spec fn index_bound(s: Seq<usize>) -> usize {
    if s.len() == 0 {
        0usize
    } else if s.last() == usize::MAX {
        usize::MAX
    } else {
        (s.last() + 1) as usize
    }
}

/// How many modes a product with the given view reaches.
pub open spec fn modes_reached(v: (Seq<usize>, Seq<usize>)) -> usize {
    if index_bound(v.0) < index_bound(v.1) {
        index_bound(v.1)
    } else {
        index_bound(v.0)
    }
}

pub(crate) fn bound_of(v: &Vec<usize>) -> (r: usize)
    ensures
        r == index_bound(v@),
{
    if v.len() == 0 {
        0
    } else {
        let x = v[v.len() - 1];
        if x == usize::MAX {
            usize::MAX
        } else {
            x + 1
        }
    }
}

/// Whether reversing a list of `k` elements has odd permutation parity:
/// `k(k-1)/2` is odd exactly when `k % 4` is `2` or `3`.
pub open spec fn reversal_odd(k: nat) -> bool {
    k % 4 == 2 || k % 4 == 3
}

/// The sign of Hermitian conjugation for a monomial with `m` creators and
/// `k` annihilators: the combined parity of reversing both lists.
pub open spec fn conjugation_sign(m: nat, k: nat) -> int {
    if reversal_odd(m) != reversal_odd(k) {
        -1
    } else {
        1
    }
}

fn reversal_parity_odd(k: usize) -> (r: bool)
    ensures
        r == reversal_odd(k as nat),
{
    k % 4 == 2 || k % 4 == 3
}

impl OperatorKey for FermionProduct {
    type KV = (Seq<usize>, Seq<usize>);

    open spec fn kview(self) -> (Seq<usize>, Seq<usize>) {
        self@
    }

    fn kcmp(&self, other: &Self) -> (c: KeyOrder) {
        match cmp_index_vecs(&self.creators, &other.creators) {
            KeyOrder::Less => {
                assert(<Self::KV as CanonOrd>::clt(self.kview(), other.kview()));
                KeyOrder::Less
            },
            KeyOrder::Greater => {
                assert(<Self::KV as CanonOrd>::clt(other.kview(), self.kview()));
                KeyOrder::Greater
            },
            KeyOrder::Equal => {
                match cmp_index_vecs(&self.annihilators, &other.annihilators) {
                    KeyOrder::Less => {
                        assert(<Self::KV as CanonOrd>::clt(self.kview(), other.kview()));
                        KeyOrder::Less
                    },
                    KeyOrder::Greater => {
                        assert(<Self::KV as CanonOrd>::clt(other.kview(), self.kview()));
                        KeyOrder::Greater
                    },
                    KeyOrder::Equal => {
                        assert(self.kview() == other.kview());
                        KeyOrder::Equal
                    },
                }
            },
        }
    }

    fn kdup(&self) -> (r: Self) {
        self.clone()
    }
}

/// Fermion anticommutation: transposing two adjacent distinct indices in a
/// creator (or annihilator) list keeps the multiset of indices — and with it
/// the canonical sorted product — while flipping the parity of the inversion
/// count, so `FermionProduct::canonicalize` returns the same product with
/// the sign negated.
pub proof fn lemma_fermion_anticommutation(s: Seq<usize>, i: int)
    requires
        0 <= i,
        i + 1 < s.len(),
        s[i] != s[i + 1],
    ensures
        swap_adjacent(s, i).to_multiset() == s.to_multiset(),
        swap_adjacent(s, i).no_duplicates() == s.no_duplicates(),
        is_odd(inversions(swap_adjacent(s, i))) == !is_odd(inversions(s)),
{
    lemma_swap_multiset(s, i);
    lemma_inversions_swap(s, i);
    if s.no_duplicates() {
        lemma_no_duplicates_transfer(s, swap_adjacent(s, i));
    }
    if swap_adjacent(s, i).no_duplicates() {
        lemma_no_duplicates_transfer(swap_adjacent(s, i), s);
    }
}

/// Canonicalizing is idempotent: an already canonical pair of index lists is
/// its own canonical form, with no sign and no zero term.
pub proof fn lemma_fermion_canonicalize_idempotent(c: Seq<usize>, a: Seq<usize>)
    requires
        fermion_wf((c, a)),
    ensures
        c.no_duplicates() && a.no_duplicates(),
        inversions(c) == 0 && inversions(a) == 0,
        forall|t: Seq<usize>|
            non_decreasing(t) && t.to_multiset() == c.to_multiset() ==> t == c,
        forall|t: Seq<usize>|
            non_decreasing(t) && t.to_multiset() == a.to_multiset() ==> t == a,
{
    lemma_strict_no_duplicates(c);
    lemma_strict_no_duplicates(a);
    lemma_sorted_inversions_zero(c);
    lemma_sorted_inversions_zero(a);
    assert forall|t: Seq<usize>|
        non_decreasing(t) && t.to_multiset() == c.to_multiset() implies t == c by {
        lemma_sorted_indices_unique(t, c);
    }
    assert forall|t: Seq<usize>|
        non_decreasing(t) && t.to_multiset() == a.to_multiset() implies t == a by {
        lemma_sorted_indices_unique(t, a);
    }
}

} // verus!
