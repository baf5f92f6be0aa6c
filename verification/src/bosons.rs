//! Bosonic operator products.
//!
//! A `BosonProduct` is a normal-ordered monomial of bosonic creation and
//! annihilation operators: a non-decreasing list of creator mode indices
//! followed by a non-decreasing list of annihilator mode indices.  Bosonic
//! operators of the same kind commute, so canonicalization sorts without a
//! sign, and a repeated index is kept: it stands for a power of the operator.
//!
//! A `HermitianBosonProduct` stands for a monomial plus its Hermitian
//! conjugate; of each conjugate pair, the representative whose smallest
//! creator index does not exceed its smallest annihilator index is stored.

use crate::canon::check_non_decreasing;
use crate::canon::lemma_sorted_indices_unique;
use crate::canon::non_decreasing;
use crate::canon::sort_indices;
use crate::error::StruqtureError;
use crate::fermions::bound_of;
use crate::fermions::modes_reached;
use crate::key::OperatorKey;
use crate::key::cmp_index_vecs;
use crate::key::dup_index_vec;
use crate::order::CanonOrd;
use crate::order::KeyOrder;
use vstd::prelude::*;

verus! {

/// Canonical form predicate for boson products: both index lists are sorted;
/// repeated indices are meaningful and kept.
pub open spec fn boson_wf(v: (Seq<usize>, Seq<usize>)) -> bool {
    non_decreasing(v.0) && non_decreasing(v.1)
}

/// Canonical form predicate for Hermitian boson products: sorted index lists
/// and, of the two conjugate representatives, the one whose creators do not
/// start above its annihilators.
pub open spec fn hermitian_boson_wf(v: (Seq<usize>, Seq<usize>)) -> bool {
    &&& non_decreasing(v.0)
    &&& non_decreasing(v.1)
    &&& (v.0.len() > 0 ==> v.1.len() > 0 && v.0[0] <= v.1[0])
}

/// A canonical bosonic creation/annihilation monomial.
#[derive(Debug, PartialEq, Eq, PartialOrd, Ord, Hash)]
pub struct BosonProduct {
    creators: Vec<usize>,
    annihilators: Vec<usize>,
}

impl Clone for BosonProduct {
    fn clone(&self) -> (r: Self)
        ensures
            r@ == self@,
    {
        proof {
            use_type_invariant(self);
        }
        BosonProduct {
            creators: dup_index_vec(&self.creators),
            annihilators: dup_index_vec(&self.annihilators),
        }
    }
}

impl View for BosonProduct {
    type V = (Seq<usize>, Seq<usize>);

    closed spec fn view(&self) -> (Seq<usize>, Seq<usize>) {
        (self.creators@, self.annihilators@)
    }
}

impl BosonProduct {
    #[verifier::type_invariant]
    pub open spec fn canonical(self) -> bool {
        boson_wf(self@)
    }

    /// Build a product from already sorted index lists.  Fails with
    /// `StructuralIndexError` exactly when one of the lists decreases
    /// somewhere.
    pub fn new(creators: Vec<usize>, annihilators: Vec<usize>) -> (r: Result<
        BosonProduct,
        StruqtureError,
    >)
        ensures
            boson_wf((creators@, annihilators@)) ==> (r matches Ok(p) && p@ == (
                creators@,
                annihilators@,
            )),
            !boson_wf((creators@, annihilators@)) ==> r === Err(
                StruqtureError::StructuralIndexError,
            ),
    {
        if check_non_decreasing(&creators) && check_non_decreasing(&annihilators) {
            Ok(BosonProduct { creators, annihilators })
        } else {
            Err(StruqtureError::StructuralIndexError)
        }
    }

    /// Canonicalize raw creator and annihilator lists by sorting them.
    /// Bosonic reordering is sign-free and repeated indices are kept, so the
    /// result is the whole canonical form; an already canonical input comes
    /// back unchanged.
    pub fn canonicalize(creators: Vec<usize>, annihilators: Vec<usize>) -> (r: BosonProduct)
        ensures
            r@.0.to_multiset() == creators@.to_multiset(),
            r@.1.to_multiset() == annihilators@.to_multiset(),
            boson_wf(r@),
            boson_wf((creators@, annihilators@)) ==> r@ == (creators@, annihilators@),
    {
        let sorted_c = sort_indices(&creators);
        let sorted_a = sort_indices(&annihilators);
        proof {
            if boson_wf((creators@, annihilators@)) {
                lemma_sorted_indices_unique(sorted_c@, creators@);
                lemma_sorted_indices_unique(sorted_a@, annihilators@);
            }
        }
        BosonProduct { creators: sorted_c, annihilators: sorted_a }
    }

    /// Multiply two products: the creator lists and the annihilator lists
    /// are concatenated and re-canonicalized.  Bosonic reordering is
    /// sign-free and repeated indices stand for powers, so the canonical
    /// product is the whole result.
    pub fn multiply(a: &BosonProduct, b: &BosonProduct) -> (r: BosonProduct)
        ensures
            r@.0.to_multiset() == (a@.0 + b@.0).to_multiset(),
            r@.1.to_multiset() == (a@.1 + b@.1).to_multiset(),
            boson_wf(r@),
    {
        let mut creators = dup_index_vec(a.creators());
        let mut more_creators = dup_index_vec(b.creators());
        creators.append(&mut more_creators);
        let mut annihilators = dup_index_vec(a.annihilators());
        let mut more_annihilators = dup_index_vec(b.annihilators());
        annihilators.append(&mut more_annihilators);
        Self::canonicalize(creators, annihilators)
    }

    /// Hermitian conjugation swaps creators and annihilators; bosonic
    /// reordering is sign-free, so no factor accompanies the result.
    pub fn hermitian_conjugate(&self) -> (r: BosonProduct)
        ensures
            r@ == (self@.1, self@.0),
    {
        proof {
            use_type_invariant(self);
        }
        BosonProduct {
            creators: dup_index_vec(&self.annihilators),
            annihilators: dup_index_vec(&self.creators),
        }
    }

    /// The creator mode indices, sorted.
    pub fn creators(&self) -> (r: &Vec<usize>)
        ensures
            r@ == self@.0,
            non_decreasing(r@),
    {
        proof {
            use_type_invariant(self);
        }
        &self.creators
    }

    /// The annihilator mode indices, sorted.
    pub fn annihilators(&self) -> (r: &Vec<usize>)
        ensures
            r@ == self@.1,
            non_decreasing(r@),
    {
        proof {
            use_type_invariant(self);
        }
        &self.annihilators
    }

    /// How many modes the product reaches: one more than the largest mode
    /// index mentioned (saturating), `0` for the identity.
    pub fn current_number_modes(&self) -> (r: usize)
        ensures
            r == modes_reached(self@),
    {
        proof {
            use_type_invariant(self);
        }
        let c = bound_of(&self.creators);
        let a = bound_of(&self.annihilators);
        if c < a {
            a
        } else {
            c
        }
    }
}

impl OperatorKey for BosonProduct {
    type KV = (Seq<usize>, Seq<usize>);

    open spec fn kview(self) -> (Seq<usize>, Seq<usize>) {
        self@
    }

    fn kcmp(&self, other: &Self) -> (c: KeyOrder) {
        match cmp_index_vecs(&self.creators, &other.creators) {
            KeyOrder::Less => {
                assert(<Self::KV as CanonOrd>::clt(self.kview(), other.kview()));
                KeyOrder::Less
            },
            KeyOrder::Greater => {
                assert(<Self::KV as CanonOrd>::clt(other.kview(), self.kview()));
                KeyOrder::Greater
            },
            KeyOrder::Equal => {
                match cmp_index_vecs(&self.annihilators, &other.annihilators) {
                    KeyOrder::Less => {
                        assert(<Self::KV as CanonOrd>::clt(self.kview(), other.kview()));
                        KeyOrder::Less
                    },
                    KeyOrder::Greater => {
                        assert(<Self::KV as CanonOrd>::clt(other.kview(), self.kview()));
                        KeyOrder::Greater
                    },
                    KeyOrder::Equal => {
                        assert(self.kview() == other.kview());
                        KeyOrder::Equal
                    },
                }
            },
        }
    }

    fn kdup(&self) -> (r: Self) {
        self.clone()
    }
}

/// A canonical Hermitian bosonic monomial: the stored monomial stands for
/// itself plus its Hermitian conjugate.
#[derive(Debug, PartialEq, Eq, PartialOrd, Ord, Hash)]
pub struct HermitianBosonProduct {
    creators: Vec<usize>,
    annihilators: Vec<usize>,
}

impl Clone for HermitianBosonProduct {
    fn clone(&self) -> (r: Self)
        ensures
            r@ == self@,
    {
        proof {
            use_type_invariant(self);
        }
        HermitianBosonProduct {
            creators: dup_index_vec(&self.creators),
            annihilators: dup_index_vec(&self.annihilators),
        }
    }
}

impl View for HermitianBosonProduct {
    type V = (Seq<usize>, Seq<usize>);

    closed spec fn view(&self) -> (Seq<usize>, Seq<usize>) {
        (self.creators@, self.annihilators@)
    }
}

impl HermitianBosonProduct {
    #[verifier::type_invariant]
    pub open spec fn canonical(self) -> bool {
        hermitian_boson_wf(self@)
    }

    /// Build a Hermitian product from sorted index lists.  Fails with
    /// `StructuralIndexError` exactly when a list decreases somewhere or the
    /// monomial is the conjugate of the canonical representative (its
    /// creators start above its annihilators).
    pub fn new(creators: Vec<usize>, annihilators: Vec<usize>) -> (r: Result<
        HermitianBosonProduct,
        StruqtureError,
    >)
        ensures
            hermitian_boson_wf((creators@, annihilators@)) ==> (r matches Ok(p) && p@ == (
                creators@,
                annihilators@,
            )),
            !hermitian_boson_wf((creators@, annihilators@)) ==> r === Err(
                StruqtureError::StructuralIndexError,
            ),
    {
        if !check_non_decreasing(&creators) || !check_non_decreasing(&annihilators) {
            return Err(StruqtureError::StructuralIndexError);
        }
        if creators.len() > 0 && (annihilators.len() == 0 || creators[0] > annihilators[0]) {
            return Err(StruqtureError::StructuralIndexError);
        }
        Ok(HermitianBosonProduct { creators, annihilators })
    }

    /// Whether the monomial is self-adjoint on its own: its creators equal
    /// its annihilators, so the stored term and its conjugate coincide and
    /// must not be counted twice in a Hamiltonian.
    pub fn is_natural_hermitian(&self) -> (r: bool)
        ensures
            r == (self@.0 == self@.1),
    {
        match cmp_index_vecs(&self.creators, &self.annihilators) {
            KeyOrder::Equal => true,
            KeyOrder::Less => {
                proof {
                    crate::order::lemma_lex_irreflexive::<usize>(self@.0);
                }
                false
            },
            KeyOrder::Greater => {
                proof {
                    crate::order::lemma_lex_irreflexive::<usize>(self@.0);
                }
                false
            },
        }
    }

    /// The creator mode indices, sorted.
    pub fn creators(&self) -> (r: &Vec<usize>)
        ensures
            r@ == self@.0,
            non_decreasing(r@),
    {
        proof {
            use_type_invariant(self);
        }
        &self.creators
    }

    /// The annihilator mode indices, sorted.
    pub fn annihilators(&self) -> (r: &Vec<usize>)
        ensures
            r@ == self@.1,
            non_decreasing(r@),
    {
        proof {
            use_type_invariant(self);
        }
        &self.annihilators
    }

    /// How many modes the product reaches: one more than the largest mode
    /// index mentioned (saturating), `0` for the identity.
    pub fn current_number_modes(&self) -> (r: usize)
        ensures
            r == modes_reached(self@),
    {
        proof {
            use_type_invariant(self);
        }
        let c = bound_of(&self.creators);
        let a = bound_of(&self.annihilators);
        if c < a {
            a
        } else {
            c
        }
    }
}

impl OperatorKey for HermitianBosonProduct {
    type KV = (Seq<usize>, Seq<usize>);

    open spec fn kview(self) -> (Seq<usize>, Seq<usize>) {
        self@
    }

    fn kcmp(&self, other: &Self) -> (c: KeyOrder) {
        match cmp_index_vecs(&self.creators, &other.creators) {
            KeyOrder::Less => {
                assert(<Self::KV as CanonOrd>::clt(self.kview(), other.kview()));
                KeyOrder::Less
            },
            KeyOrder::Greater => {
                assert(<Self::KV as CanonOrd>::clt(other.kview(), self.kview()));
                KeyOrder::Greater
            },
            KeyOrder::Equal => {
                match cmp_index_vecs(&self.annihilators, &other.annihilators) {
                    KeyOrder::Less => {
                        assert(<Self::KV as CanonOrd>::clt(self.kview(), other.kview()));
                        KeyOrder::Less
                    },
                    KeyOrder::Greater => {
                        assert(<Self::KV as CanonOrd>::clt(other.kview(), self.kview()));
                        KeyOrder::Greater
                    },
                    KeyOrder::Equal => {
                        assert(self.kview() == other.kview());
                        KeyOrder::Equal
                    },
                }
            },
        }
    }

    fn kdup(&self) -> (r: Self) {
        self.clone()
    }
}

} // verus!
