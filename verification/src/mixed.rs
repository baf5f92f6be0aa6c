//! Mixed-system operator products.
//!
//! A `MixedDecoherenceProduct` is a fixed-length tuple of per-subsystem
//! products: one decoherence product per spin subsystem, one boson product
//! per bosonic subsystem, and one fermion product per fermionic subsystem.
//! The product itself is subsystem-count-agnostic; a container checks that
//! every inserted key matches its declared shape.

use crate::bosons::BosonProduct;
use crate::bosons::boson_wf;
use crate::error::StruqtureError;
use crate::fermions::FermionProduct;
use crate::fermions::fermion_wf;
use crate::key::OperatorKey;
use crate::key::cmp_key_vecs;
use crate::key::dup_key_vec;
use crate::key::views_of;
use crate::order::CanonOrd;
use crate::order::KeyOrder;
use crate::spins::DecoherenceProduct;
use crate::spins::sites_wf;
use vstd::prelude::*;

verus! {

/// The mathematical view of a mixed decoherence product: the per-subsystem
/// product views, slot by slot.
pub type MixedView = (Seq<Seq<(usize, usize)>>, Seq<(Seq<usize>, Seq<usize>)>, Seq<
    (Seq<usize>, Seq<usize>),
>);

/// Every slot holds a canonical product.
pub open spec fn mixed_wf(v: MixedView) -> bool {
    &&& forall|k: int| 0 <= k < v.0.len() ==> sites_wf(#[trigger] v.0[k])
    &&& forall|k: int| 0 <= k < v.1.len() ==> boson_wf(#[trigger] v.1[k])
    &&& forall|k: int| 0 <= k < v.2.len() ==> fermion_wf(#[trigger] v.2[k])
}

/// The per-kind subsystem counts of a mixed product view.
pub open spec fn mixed_shape(v: MixedView) -> (int, int, int) {
    (v.0.len() as int, v.1.len() as int, v.2.len() as int)
}

/// A tuple of per-subsystem products: one decoherence product per spin
/// subsystem, one boson product per bosonic mode register, one fermion
/// product per fermionic mode register.
#[derive(Debug, PartialEq, Eq, PartialOrd, Ord, Hash)]
pub struct MixedDecoherenceProduct {
    spins: Vec<DecoherenceProduct>,
    bosons: Vec<BosonProduct>,
    fermions: Vec<FermionProduct>,
}

impl View for MixedDecoherenceProduct {
    type V = MixedView;

    closed spec fn view(&self) -> MixedView {
        (views_of(self.spins@), views_of(self.bosons@), views_of(self.fermions@))
    }
}

impl Clone for MixedDecoherenceProduct {
    fn clone(&self) -> (r: Self)
        ensures
            r@ == self@,
    {
        MixedDecoherenceProduct {
            spins: dup_key_vec(&self.spins),
            bosons: dup_key_vec(&self.bosons),
            fermions: dup_key_vec(&self.fermions),
        }
    }
}

impl MixedDecoherenceProduct {
    /// Compose per-subsystem products into a mixed product.  Every slot
    /// combination is a valid product — whether the slot counts fit a given
    /// container is checked at insertion — so this always succeeds; the
    /// `Result` keeps the construction interface uniform across products.
    pub fn new(
        spins: Vec<DecoherenceProduct>,
        bosons: Vec<BosonProduct>,
        fermions: Vec<FermionProduct>,
    ) -> (r: Result<MixedDecoherenceProduct, StruqtureError>)
        ensures
            r matches Ok(p) && p@ == (views_of(spins@), views_of(bosons@), views_of(fermions@)),
    {
        Ok(MixedDecoherenceProduct { spins, bosons, fermions })
    }

    /// The per-spin-subsystem decoherence products.
    pub fn spins(&self) -> (r: &Vec<DecoherenceProduct>)
        ensures
            views_of(r@) == self@.0,
    {
        &self.spins
    }

    /// The per-subsystem boson products.
    pub fn bosons(&self) -> (r: &Vec<BosonProduct>)
        ensures
            views_of(r@) == self@.1,
    {
        &self.bosons
    }

    /// The per-subsystem fermion products.
    pub fn fermions(&self) -> (r: &Vec<FermionProduct>)
        ensures
            views_of(r@) == self@.2,
    {
        &self.fermions
    }

    /// The per-kind subsystem counts `(spins, bosons, fermions)`.
    pub fn shape(&self) -> (r: (usize, usize, usize))
        ensures
            (r.0 as int, r.1 as int, r.2 as int) == mixed_shape(self@),
    {
        (self.spins.len(), self.bosons.len(), self.fermions.len())
    }
}

impl OperatorKey for MixedDecoherenceProduct {
    type KV = MixedView;

    open spec fn kview(self) -> MixedView {
        self@
    }

    fn kcmp(&self, other: &Self) -> (c: KeyOrder) {
        match cmp_key_vecs(&self.spins, &other.spins) {
            KeyOrder::Less => {
                assert(<Self::KV as CanonOrd>::clt(self.kview(), other.kview()));
                KeyOrder::Less
            },
            KeyOrder::Greater => {
                assert(<Self::KV as CanonOrd>::clt(other.kview(), self.kview()));
                KeyOrder::Greater
            },
            KeyOrder::Equal => {
                match cmp_key_vecs(&self.bosons, &other.bosons) {
                    KeyOrder::Less => {
                        assert(<Self::KV as CanonOrd>::clt(self.kview(), other.kview()));
                        KeyOrder::Less
                    },
                    KeyOrder::Greater => {
                        assert(<Self::KV as CanonOrd>::clt(other.kview(), self.kview()));
                        KeyOrder::Greater
                    },
                    KeyOrder::Equal => {
                        match cmp_key_vecs(&self.fermions, &other.fermions) {
                            KeyOrder::Less => {
                                assert(<Self::KV as CanonOrd>::clt(self.kview(), other.kview()));
                                KeyOrder::Less
                            },
                            KeyOrder::Greater => {
                                assert(<Self::KV as CanonOrd>::clt(other.kview(), self.kview()));
                                KeyOrder::Greater
                            },
                            KeyOrder::Equal => {
                                assert(self.kview() == other.kview());
                                KeyOrder::Equal
                            },
                        }
                    },
                }
            },
        }
    }

    fn kdup(&self) -> (r: Self) {
        self.clone()
    }
}

} // verus!
