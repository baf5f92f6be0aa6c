//! Lindblad noise operators.
//!
//! A noise operator is indexed by *pairs* of operator products (the left and
//! right Lindblad coupling terms).  The mixed-system variant fixes its
//! per-kind subsystem counts at creation: every inserted key must match that
//! shape exactly, and a mismatch is rejected before anything is mutated.

use crate::error::StruqtureError;
use crate::key::OperatorKey;
use crate::mixed::MixedDecoherenceProduct;
use crate::mixed::MixedView;
use crate::mixed::mixed_shape;
use crate::operators::Operator;
use crate::operators::map_add;
use crate::operators::map_after_adds;
use crate::operators::map_sub;
use crate::scalar::cc_add_of;
use crate::scalar::cc_eq_of;
use crate::scalar::cc_mul_of;
use crate::scalar::cc_neg_of;
use crate::scalar::cc_new_of;
use crate::spins::sites_bound;
use crate::fermions::modes_reached;
use qoqo_calculator::CalculatorComplex;
use vstd::prelude::*;

verus! {

/// The key views of a mixed noise operator: pairs of mixed product views.
pub type MixedPairView = (MixedView, MixedView);

/// Whether both halves of a noise key have exactly the given per-kind
/// subsystem counts.
pub open spec fn key_fits(kv: MixedPairView, ns: int, nb: int, nf: int) -> bool {
    mixed_shape(kv.0) == (ns, nb, nf) && mixed_shape(kv.1) == (ns, nb, nf)
}

/// The shape reported for a misfitting key: its left half's shape if that is
/// what differs, else its right half's.
pub open spec fn misfit_shape(kv: MixedPairView, ns: int, nb: int, nf: int) -> (int, int, int) {
    if mixed_shape(kv.0) != (ns, nb, nf) {
        mixed_shape(kv.0)
    } else {
        mixed_shape(kv.1)
    }
}

/// The error rejecting a key of the wrong shape.
pub open spec fn mismatch_error(kv: MixedPairView, ns: int, nb: int, nf: int) -> StruqtureError {
    StruqtureError::MismatchedNumberSubsystems {
        target_number_spin_subsystems: ns as usize,
        target_number_boson_subsystems: nb as usize,
        target_number_fermion_subsystems: nf as usize,
        actual_number_spin_subsystems: misfit_shape(kv, ns, nb, nf).0 as usize,
        actual_number_boson_subsystems: misfit_shape(kv, ns, nb, nf).1 as usize,
        actual_number_fermion_subsystems: misfit_shape(kv, ns, nb, nf).2 as usize,
    }
}

/// A Lindblad noise operator over mixed spin/boson/fermion systems, with a
/// fixed number of subsystems of each kind.
#[derive(Debug, PartialEq)]
pub struct MixedLindbladNoiseOperator {
    internal: Operator<(MixedDecoherenceProduct, MixedDecoherenceProduct)>,
    n_spins: usize,
    n_bosons: usize,
    n_fermions: usize,
}

impl Clone for MixedLindbladNoiseOperator {
    fn clone(&self) -> (r: Self)
        ensures
            r.entries() == self.entries(),
            r.shape_spec() == self.shape_spec(),
    {
        MixedLindbladNoiseOperator {
            internal: self.internal.clone(),
            n_spins: self.n_spins,
            n_bosons: self.n_bosons,
            n_fermions: self.n_fermions,
        }
    }
}

impl Default for MixedLindbladNoiseOperator {
    fn default() -> (r: Self)
        ensures
            r.entries() == Seq::<(MixedPairView, CalculatorComplex)>::empty(),
            r.shape_spec() == (0int, 0int, 0int),
    {
        Self::new(0, 0, 0)
    }
}

impl MixedLindbladNoiseOperator {
    /// The `(key view, coefficient)` entries, in canonical key order.
    pub closed spec fn entries(self) -> Seq<(MixedPairView, CalculatorComplex)> {
        self.internal.entries()
    }

    /// The finite coefficient map this operator stands for.
    pub closed spec fn as_map(self) -> Map<MixedPairView, CalculatorComplex> {
        self.internal.as_map()
    }

    /// The fixed per-kind subsystem counts.
    pub closed spec fn shape_spec(self) -> (int, int, int) {
        (self.n_spins as int, self.n_bosons as int, self.n_fermions as int)
    }

    /// Whether a key view fits this operator's shape.
    pub open spec fn fits(self, kv: MixedPairView) -> bool {
        key_fits(kv, self.shape_spec().0, self.shape_spec().1, self.shape_spec().2)
    }

    /// The error this operator rejects the key view with.
    pub open spec fn mismatch(self, kv: MixedPairView) -> StruqtureError {
        mismatch_error(kv, self.shape_spec().0, self.shape_spec().1, self.shape_spec().2)
    }

    /// The coefficient map is the finite map of the entry sequence.
    pub proof fn lemma_map_of_entries(self)
        ensures
            self.as_map() == crate::terms::map_of_entries(self.entries()),
    {
    }

    /// A key is stored exactly when some entry carries it.
    pub proof fn lemma_dom(self, kv: MixedPairView)
        ensures
            self.as_map().contains_key(kv) <==> exists|i: int|
                0 <= i < self.entries().len() && (#[trigger] self.entries()[i]).0 == kv,
    {
        self.internal.lemma_dom(kv);
        assert(self.entries() == self.internal.entries());
    }

    /// The empty noise operator over the given numbers of spin, boson and
    /// fermion subsystems.
    pub fn new(n_spins: usize, n_bosons: usize, n_fermions: usize) -> (r: Self)
        ensures
            r.entries() == Seq::<(MixedPairView, CalculatorComplex)>::empty(),
            r.as_map() == Map::<MixedPairView, CalculatorComplex>::empty(),
            r.shape_spec() == (n_spins as int, n_bosons as int, n_fermions as int),
    {
        MixedLindbladNoiseOperator { internal: Operator::new(), n_spins, n_bosons, n_fermions }
    }

    /// The empty noise operator with room reserved for `capacity` terms.
    pub fn with_capacity(n_spins: usize, n_bosons: usize, n_fermions: usize, capacity: usize) -> (r:
        Self)
        ensures
            r.entries() == Seq::<(MixedPairView, CalculatorComplex)>::empty(),
            r.shape_spec() == (n_spins as int, n_bosons as int, n_fermions as int),
    {
        let _ = capacity;
        Self::new(n_spins, n_bosons, n_fermions)
    }

    /// An empty operator with the same shape as this one.
    pub fn empty_clone(&self, capacity: Option<usize>) -> (r: Self)
        ensures
            r.entries() == Seq::<(MixedPairView, CalculatorComplex)>::empty(),
            r.shape_spec() == self.shape_spec(),
    {
        let _ = capacity;
        Self::new(self.n_spins, self.n_bosons, self.n_fermions)
    }

    /// The fixed per-kind subsystem counts, as plain numbers.
    pub(crate) fn shape_parts(&self) -> (r: (usize, usize, usize))
        ensures
            (r.0 as int, r.1 as int, r.2 as int) == self.shape_spec(),
    {
        (self.n_spins, self.n_bosons, self.n_fermions)
    }

    /// How many terms are stored (explicit zero coefficients count).
    pub fn len(&self) -> (r: usize)
        ensures
            r == self.entries().len(),
    {
        self.internal.len()
    }

    /// Whether no term is stored.
    pub fn is_empty(&self) -> (r: bool)
        ensures
            r == (self.entries().len() == 0),
    {
        self.internal.is_empty()
    }

    /// Check `key` against this operator's shape.
    fn check_key(&self, key: &(MixedDecoherenceProduct, MixedDecoherenceProduct)) -> (r: Result<
        (),
        StruqtureError,
    >)
        ensures
            self.fits(key.kview()) ==> r === Ok(()),
            !self.fits(key.kview()) ==> r === Err(self.mismatch(key.kview())),
    {
        let ls = key.0.shape();
        if ls.0 != self.n_spins || ls.1 != self.n_bosons || ls.2 != self.n_fermions {
            return Err(StruqtureError::MismatchedNumberSubsystems {
                target_number_spin_subsystems: self.n_spins,
                target_number_boson_subsystems: self.n_bosons,
                target_number_fermion_subsystems: self.n_fermions,
                actual_number_spin_subsystems: ls.0,
                actual_number_boson_subsystems: ls.1,
                actual_number_fermion_subsystems: ls.2,
            });
        }
        let rs = key.1.shape();
        if rs.0 != self.n_spins || rs.1 != self.n_bosons || rs.2 != self.n_fermions {
            return Err(StruqtureError::MismatchedNumberSubsystems {
                target_number_spin_subsystems: self.n_spins,
                target_number_boson_subsystems: self.n_bosons,
                target_number_fermion_subsystems: self.n_fermions,
                actual_number_spin_subsystems: rs.0,
                actual_number_boson_subsystems: rs.1,
                actual_number_fermion_subsystems: rs.2,
            });
        }
        Ok(())
    }

    /// The coefficient stored for `key`, or the additive identity when the
    /// key is absent: absence means an implicit zero coefficient, never an
    /// error.
    pub fn get(&self, key: &(MixedDecoherenceProduct, MixedDecoherenceProduct)) -> (r:
        CalculatorComplex)
        ensures
            r == if self.as_map().contains_key(key.kview()) {
                self.as_map()[key.kview()]
            } else {
                cc_new_of(0, 0)
            },
    {
        self.internal.get(key)
    }

    /// Overwrite the coefficient of `key`, returning the previous one; a
    /// zero value removes the entry.  A key whose shape does not match the
    /// operator's is rejected and nothing changes.
    pub fn set(
        &mut self,
        key: (MixedDecoherenceProduct, MixedDecoherenceProduct),
        value: CalculatorComplex,
    ) -> (r: Result<Option<CalculatorComplex>, StruqtureError>)
        ensures
            !old(self).fits(key.kview()) ==> r === Err(old(self).mismatch(key.kview())) && final(self).entries() == old(self).entries() && final(self).shape_spec() == old(self).shape_spec(),
            old(self).fits(key.kview()) ==> {
                &&& final(self).as_map() == if cc_eq_of(value, cc_new_of(0, 0)) {
                    old(self).as_map().remove(key.kview())
                } else {
                    old(self).as_map().insert(key.kview(), value)
                }
                &&& r === Ok(
                    if old(self).as_map().contains_key(key.kview()) {
                        Some(old(self).as_map()[key.kview()])
                    } else {
                        None
                    },
                )
                &&& final(self).shape_spec() == old(self).shape_spec()
            },
    {
        match self.check_key(&key) {
            Ok(()) => self.internal.set(key, value),
            Err(e) => Err(e),
        }
    }

    /// Accumulate `value` onto the coefficient of `key`; the entry stays
    /// even when the sum is exactly zero.  A key of the wrong shape is
    /// rejected and nothing changes.
    pub fn add_operator_product(
        &mut self,
        key: (MixedDecoherenceProduct, MixedDecoherenceProduct),
        value: CalculatorComplex,
    ) -> (r: Result<(), StruqtureError>)
        ensures
            !old(self).fits(key.kview()) ==> r === Err(old(self).mismatch(key.kview())) && final(self).entries() == old(self).entries() && final(self).shape_spec() == old(self).shape_spec(),
            old(self).fits(key.kview()) ==> {
                &&& final(self).as_map() == if old(self).as_map().contains_key(key.kview()) {
                    old(self).as_map().insert(
                        key.kview(),
                        cc_add_of(old(self).as_map()[key.kview()], value),
                    )
                } else {
                    old(self).as_map().insert(key.kview(), value)
                }
                &&& r === Ok(())
                &&& final(self).shape_spec() == old(self).shape_spec()
            },
    {
        match self.check_key(&key) {
            Ok(()) => self.internal.add_operator_product(key, value),
            Err(e) => Err(e),
        }
    }

    /// Delete the entry of `key`, returning its coefficient; a no-op when
    /// the key is absent.
    pub fn remove(&mut self, key: &(MixedDecoherenceProduct, MixedDecoherenceProduct)) -> (r:
        Option<CalculatorComplex>)
        ensures
            final(self).as_map() == old(self).as_map().remove(key.kview()),
            final(self).shape_spec() == old(self).shape_spec(),
            r == if old(self).as_map().contains_key(key.kview()) {
                Some(old(self).as_map()[key.kview()])
            } else {
                None::<CalculatorComplex>
            },
    {
        self.internal.remove(key)
    }

    /// The keys, strictly ascending in the canonical key order: iteration
    /// order is deterministic and independent of insertion order.
    pub fn keys(&self) -> (r: Vec<(MixedDecoherenceProduct, MixedDecoherenceProduct)>)
        ensures
            r@.len() == self.entries().len(),
            forall|i: int|
                0 <= i < r@.len() ==> (#[trigger] r@[i].kview()) == self.entries()[i].0,
            forall|i: int, j: int|
                0 <= i < j < r@.len() ==> <MixedPairView as crate::order::CanonOrd>::clt(
                    #[trigger] r@[i].kview(),
                    #[trigger] r@[j].kview(),
                ),
    {
        self.internal.keys()
    }

    /// The coefficients, parallel to `keys`.
    pub fn values(&self) -> (r: Vec<CalculatorComplex>)
        ensures
            r@.len() == self.entries().len(),
            forall|i: int| 0 <= i < r@.len() ==> (#[trigger] r@[i]) == self.entries()[i].1,
    {
        self.internal.values()
    }

    /// Borrow the entry at position `i` of the canonical order.
    pub fn entry_at(&self, i: usize) -> (r: &(
        (MixedDecoherenceProduct, MixedDecoherenceProduct),
        CalculatorComplex,
    ))
        requires
            i < self.entries().len(),
        ensures
            r.0.kview() == self.entries()[i as int].0,
            r.1 == self.entries()[i as int].1,
            self.as_map().contains_key(r.0.kview()),
            self.as_map()[r.0.kview()] == r.1,
    {
        self.internal.entry_at(i)
    }

    /// The negated operator: every coefficient negated, keys and shape
    /// unchanged.
    pub fn neg(&self) -> (r: Self)
        ensures
            r.as_map().dom() == self.as_map().dom(),
            forall|kv: MixedPairView|
                self.as_map().contains_key(kv) ==> r.as_map()[kv] == cc_neg_of(
                    #[trigger] self.as_map()[kv],
                ),
            r.shape_spec() == self.shape_spec(),
    {
        MixedLindbladNoiseOperator {
            internal: self.internal.neg(),
            n_spins: self.n_spins,
            n_bosons: self.n_bosons,
            n_fermions: self.n_fermions,
        }
    }

    /// The operator scaled by `factor`, keys and shape unchanged.
    pub fn scalar_mul(&self, factor: &CalculatorComplex) -> (r: Self)
        ensures
            r.as_map().dom() == self.as_map().dom(),
            forall|kv: MixedPairView|
                self.as_map().contains_key(kv) ==> r.as_map()[kv] == cc_mul_of(
                    #[trigger] self.as_map()[kv],
                    *factor,
                ),
            r.shape_spec() == self.shape_spec(),
    {
        MixedLindbladNoiseOperator {
            internal: self.internal.scalar_mul(factor),
            n_spins: self.n_spins,
            n_bosons: self.n_bosons,
            n_fermions: self.n_fermions,
        }
    }

    /// The key-wise sum of two noise operators.  Operators of different
    /// shapes cannot be added; nothing is built then.
    pub fn add(&self, other: &Self) -> (r: Result<Self, StruqtureError>)
        ensures
            self.shape_spec() != other.shape_spec() ==> r === Err(
                StruqtureError::MismatchedNumberSubsystems {
                    target_number_spin_subsystems: self.shape_spec().0 as usize,
                    target_number_boson_subsystems: self.shape_spec().1 as usize,
                    target_number_fermion_subsystems: self.shape_spec().2 as usize,
                    actual_number_spin_subsystems: other.shape_spec().0 as usize,
                    actual_number_boson_subsystems: other.shape_spec().1 as usize,
                    actual_number_fermion_subsystems: other.shape_spec().2 as usize,
                },
            ),
            self.shape_spec() == other.shape_spec() ==> (r matches Ok(m) && m.as_map() == map_add(
                self.as_map(),
                other.as_map(),
            ) && m.shape_spec() == self.shape_spec()),
    {
        if self.n_spins != other.n_spins || self.n_bosons != other.n_bosons || self.n_fermions
            != other.n_fermions {
            return Err(StruqtureError::MismatchedNumberSubsystems {
                target_number_spin_subsystems: self.n_spins,
                target_number_boson_subsystems: self.n_bosons,
                target_number_fermion_subsystems: self.n_fermions,
                actual_number_spin_subsystems: other.n_spins,
                actual_number_boson_subsystems: other.n_bosons,
                actual_number_fermion_subsystems: other.n_fermions,
            });
        }
        Ok(
            MixedLindbladNoiseOperator {
                internal: self.internal.add(&other.internal),
                n_spins: self.n_spins,
                n_bosons: self.n_bosons,
                n_fermions: self.n_fermions,
            },
        )
    }

    /// The key-wise difference of two noise operators: `self - other`.
    /// Operators of different shapes cannot be subtracted.
    pub fn sub(&self, other: &Self) -> (r: Result<Self, StruqtureError>)
        ensures
            self.shape_spec() != other.shape_spec() ==> r === Err(
                StruqtureError::MismatchedNumberSubsystems {
                    target_number_spin_subsystems: self.shape_spec().0 as usize,
                    target_number_boson_subsystems: self.shape_spec().1 as usize,
                    target_number_fermion_subsystems: self.shape_spec().2 as usize,
                    actual_number_spin_subsystems: other.shape_spec().0 as usize,
                    actual_number_boson_subsystems: other.shape_spec().1 as usize,
                    actual_number_fermion_subsystems: other.shape_spec().2 as usize,
                },
            ),
            self.shape_spec() == other.shape_spec() ==> (r matches Ok(m) && m.as_map() == map_sub(
                self.as_map(),
                other.as_map(),
            ) && m.shape_spec() == self.shape_spec()),
    {
        if self.n_spins != other.n_spins || self.n_bosons != other.n_bosons || self.n_fermions
            != other.n_fermions {
            return Err(StruqtureError::MismatchedNumberSubsystems {
                target_number_spin_subsystems: self.n_spins,
                target_number_boson_subsystems: self.n_bosons,
                target_number_fermion_subsystems: self.n_fermions,
                actual_number_spin_subsystems: other.n_spins,
                actual_number_boson_subsystems: other.n_bosons,
                actual_number_fermion_subsystems: other.n_fermions,
            });
        }
        Ok(
            MixedLindbladNoiseOperator {
                internal: self.internal.sub(&other.internal),
                n_spins: self.n_spins,
                n_bosons: self.n_bosons,
                n_fermions: self.n_fermions,
            },
        )
    }

    /// Accumulate every `(key, value)` pair onto the operator, in order.
    /// All keys are checked against the shape first: if any misfits, the
    /// first offender's error is returned and nothing changes.
    pub fn extend_vec(
        &mut self,
        items: Vec<((MixedDecoherenceProduct, MixedDecoherenceProduct), CalculatorComplex)>,
    ) -> (r: Result<(), StruqtureError>)
        ensures
            ({
                let es = items@.map_values(
                    |p: ((MixedDecoherenceProduct, MixedDecoherenceProduct), CalculatorComplex)|
                        (p.0.kview(), p.1),
                );
                &&& final(self).shape_spec() == old(self).shape_spec()
                &&& (forall|j: int|
                    0 <= j < es.len() ==> old(self).fits((#[trigger] es[j]).0)) ==> (r === Ok(())
                    && final(self).as_map() == map_after_adds(old(self).as_map(), es))
                &&& !(forall|j: int|
                    0 <= j < es.len() ==> old(self).fits((#[trigger] es[j]).0)) ==> (final(self).entries() == old(self).entries() && (r matches Err(e) && exists|j: int|
                    0 <= j < es.len() && !old(self).fits((#[trigger] es[j]).0) && e == old(self).mismatch(es[j].0)))
            }),
    {
        let ghost es = items@.map_values(
            |p: ((MixedDecoherenceProduct, MixedDecoherenceProduct), CalculatorComplex)|
                (p.0.kview(), p.1),
        );
        let n = items.len();
        for i in 0..n
            invariant
                n == items@.len(),
                es == items@.map_values(
                    |p: ((MixedDecoherenceProduct, MixedDecoherenceProduct), CalculatorComplex)|
                        (p.0.kview(), p.1),
                ),
                forall|j: int| 0 <= j < i ==> self.fits((#[trigger] es[j]).0),
                self == old(self),
        {
            match self.check_key(&items[i].0) {
                Ok(()) => {},
                Err(e) => {
                    proof {
                        assert(!self.fits(es[i as int].0));
                    }
                    return Err(e);
                },
            }
        }
        self.internal.extend_vec(items);
        Ok(())
    }

    /// Build a noise operator from `(key, value)` pairs with accumulation
    /// semantics.  The shape is taken from the first key; an empty list
    /// gives the shapeless empty operator.  A later key of another shape is
    /// rejected with its mismatch error.
    pub fn from_vec(
        items: Vec<((MixedDecoherenceProduct, MixedDecoherenceProduct), CalculatorComplex)>,
    ) -> (r: Result<Self, StruqtureError>)
        ensures
            ({
                let es = items@.map_values(
                    |p: ((MixedDecoherenceProduct, MixedDecoherenceProduct), CalculatorComplex)|
                        (p.0.kview(), p.1),
                );
                &&& items@.len() == 0 ==> (r matches Ok(m) && m.entries() == Seq::<
                    (MixedPairView, CalculatorComplex),
                >::empty() && m.shape_spec() == (0int, 0int, 0int))
                &&& items@.len() > 0 ==> {
                    let shape = mixed_shape(es[0].0.0);
                    &&& (forall|j: int|
                        0 <= j < es.len() ==> key_fits(
                            (#[trigger] es[j]).0,
                            shape.0,
                            shape.1,
                            shape.2,
                        )) ==> (r matches Ok(m) && m.shape_spec() == shape && m.as_map()
                        == map_after_adds(Map::<MixedPairView, CalculatorComplex>::empty(), es))
                    &&& !(forall|j: int|
                        0 <= j < es.len() ==> key_fits(
                            (#[trigger] es[j]).0,
                            shape.0,
                            shape.1,
                            shape.2,
                        )) ==> (r matches Err(e) && exists|j: int|
                        0 <= j < es.len() && !key_fits(
                            (#[trigger] es[j]).0,
                            shape.0,
                            shape.1,
                            shape.2,
                        ) && e == mismatch_error(es[j].0, shape.0, shape.1, shape.2))
                }
            }),
    {
        if items.len() == 0 {
            return Ok(Self::new(0, 0, 0));
        }
        let shape = items[0].0.0.shape();
        let mut acc = Self::new(shape.0, shape.1, shape.2);
        match acc.extend_vec(items) {
            Ok(()) => Ok(acc),
            Err(e) => Err(e),
        }
    }

    /// The per-spin-subsystem number of spins the stored keys reach.
    pub fn number_spins(&self) -> (r: Vec<usize>)
        ensures
            r@.len() == self.shape_spec().0,
            forall|s: int|
                0 <= s < r@.len() ==> r@[s] == spin_reach(self.entries(), s),
    {
        let mut out: Vec<usize> = Vec::new();
        let ns = self.n_spins;
        for s in 0..ns
            invariant
                ns as int == self.shape_spec().0,
                out@.len() == s,
                forall|t: int| 0 <= t < s ==> out@[t] == spin_reach(self.entries(), t),
        {
            out.push(self.spin_reach_at(s));
        }
        out
    }

    fn spin_reach_at(&self, s: usize) -> (r: usize)
        ensures
            r == spin_reach(self.entries(), s as int),
    {
        let mut m: usize = 0;
        let n = self.internal.len();
        proof {
            assert(self.entries().take(0) =~= Seq::<(MixedPairView, CalculatorComplex)>::empty());
        }
        for i in 0..n
            invariant
                n == self.entries().len(),
                m == spin_reach(self.entries().take(i as int), s as int),
        {
            let e = self.internal.entry_at(i);
            let lb = spin_slot_bound(&e.0.0, s);
            let rb = spin_slot_bound(&e.0.1, s);
            proof {
                assert(self.entries().take(i + 1).drop_last() =~= self.entries().take(i as int));
                assert(self.entries().take(i + 1).last() == self.entries()[i as int]);
            }
            if lb > m {
                m = lb;
            }
            if rb > m {
                m = rb;
            }
        }
        proof {
            assert(self.entries().take(n as int) =~= self.entries());
        }
        m
    }

    /// The per-boson-subsystem number of modes the stored keys reach.
    pub fn number_bosonic_modes(&self) -> (r: Vec<usize>)
        ensures
            r@.len() == self.shape_spec().1,
            forall|b: int|
                0 <= b < r@.len() ==> r@[b] == boson_reach(self.entries(), b),
    {
        let mut out: Vec<usize> = Vec::new();
        let nb = self.n_bosons;
        for b in 0..nb
            invariant
                nb as int == self.shape_spec().1,
                out@.len() == b,
                forall|t: int| 0 <= t < b ==> out@[t] == boson_reach(self.entries(), t),
        {
            out.push(self.boson_reach_at(b));
        }
        out
    }

    fn boson_reach_at(&self, b: usize) -> (r: usize)
        ensures
            r == boson_reach(self.entries(), b as int),
    {
        let mut m: usize = 0;
        let n = self.internal.len();
        proof {
            assert(self.entries().take(0) =~= Seq::<(MixedPairView, CalculatorComplex)>::empty());
        }
        for i in 0..n
            invariant
                n == self.entries().len(),
                m == boson_reach(self.entries().take(i as int), b as int),
        {
            let e = self.internal.entry_at(i);
            let lb = boson_slot_bound(&e.0.0, b);
            let rb = boson_slot_bound(&e.0.1, b);
            proof {
                assert(self.entries().take(i + 1).drop_last() =~= self.entries().take(i as int));
                assert(self.entries().take(i + 1).last() == self.entries()[i as int]);
            }
            if lb > m {
                m = lb;
            }
            if rb > m {
                m = rb;
            }
        }
        proof {
            assert(self.entries().take(n as int) =~= self.entries());
        }
        m
    }

    /// The per-fermion-subsystem number of modes the stored keys reach.
    pub fn number_fermionic_modes(&self) -> (r: Vec<usize>)
        ensures
            r@.len() == self.shape_spec().2,
            forall|f: int|
                0 <= f < r@.len() ==> r@[f] == fermion_reach(self.entries(), f),
    {
        let mut out: Vec<usize> = Vec::new();
        let nf = self.n_fermions;
        for f in 0..nf
            invariant
                nf as int == self.shape_spec().2,
                out@.len() == f,
                forall|t: int| 0 <= t < f ==> out@[t] == fermion_reach(self.entries(), t),
        {
            out.push(self.fermion_reach_at(f));
        }
        out
    }

    fn fermion_reach_at(&self, f: usize) -> (r: usize)
        ensures
            r == fermion_reach(self.entries(), f as int),
    {
        let mut m: usize = 0;
        let n = self.internal.len();
        proof {
            assert(self.entries().take(0) =~= Seq::<(MixedPairView, CalculatorComplex)>::empty());
        }
        for i in 0..n
            invariant
                n == self.entries().len(),
                m == fermion_reach(self.entries().take(i as int), f as int),
        {
            let e = self.internal.entry_at(i);
            let lb = fermion_slot_bound(&e.0.0, f);
            let rb = fermion_slot_bound(&e.0.1, f);
            proof {
                assert(self.entries().take(i + 1).drop_last() =~= self.entries().take(i as int));
                assert(self.entries().take(i + 1).last() == self.entries()[i as int]);
            }
            if lb > m {
                m = lb;
            }
            if rb > m {
                m = rb;
            }
        }
        proof {
            assert(self.entries().take(n as int) =~= self.entries());
        }
        m
    }
}

/// One more than the largest site the `s`-th spin slot of a mixed product
/// view mentions; `0` when the slot is out of range.
pub open spec fn spin_slot_reach(v: MixedView, s: int) -> usize {
    if 0 <= s < v.0.len() {
        sites_bound(v.0[s])
    } else {
        0usize
    }
}

/// One more than the largest mode the `b`-th boson slot of a mixed product
/// view mentions; `0` when the slot is out of range.
pub open spec fn boson_slot_reach(v: MixedView, b: int) -> usize {
    if 0 <= b < v.1.len() {
        modes_reached(v.1[b])
    } else {
        0usize
    }
}

/// One more than the largest mode the `f`-th fermion slot of a mixed product
/// view mentions; `0` when the slot is out of range.
pub open spec fn fermion_slot_reach(v: MixedView, f: int) -> usize {
    if 0 <= f < v.2.len() {
        modes_reached(v.2[f])
    } else {
        0usize
    }
}

/// The largest spin reach of subsystem `s` over both halves of all keys.
pub open spec fn spin_reach(es: Seq<(MixedPairView, CalculatorComplex)>, s: int) -> usize
    decreases es.len(),
{
    if es.len() == 0 {
        0usize
    } else {
        let rest = spin_reach(es.drop_last(), s);
        let l = spin_slot_reach(es.last().0.0, s);
        let r = spin_slot_reach(es.last().0.1, s);
        if l > rest && l >= r {
            l
        } else if r > rest {
            r
        } else {
            rest
        }
    }
}

/// The largest bosonic reach of subsystem `b` over both halves of all keys.
pub open spec fn boson_reach(es: Seq<(MixedPairView, CalculatorComplex)>, b: int) -> usize
    decreases es.len(),
{
    if es.len() == 0 {
        0usize
    } else {
        let rest = boson_reach(es.drop_last(), b);
        let l = boson_slot_reach(es.last().0.0, b);
        let r = boson_slot_reach(es.last().0.1, b);
        if l > rest && l >= r {
            l
        } else if r > rest {
            r
        } else {
            rest
        }
    }
}

/// The largest fermionic reach of subsystem `f` over both halves of all
/// keys.
pub open spec fn fermion_reach(es: Seq<(MixedPairView, CalculatorComplex)>, f: int) -> usize
    decreases es.len(),
{
    if es.len() == 0 {
        0usize
    } else {
        let rest = fermion_reach(es.drop_last(), f);
        let l = fermion_slot_reach(es.last().0.0, f);
        let r = fermion_slot_reach(es.last().0.1, f);
        if l > rest && l >= r {
            l
        } else if r > rest {
            r
        } else {
            rest
        }
    }
}

/// One more than the largest site of the `s`-th spin slot of a mixed
/// product, `0` when the slot index is out of range.
fn spin_slot_bound(p: &MixedDecoherenceProduct, s: usize) -> (r: usize)
    ensures
        r == spin_slot_reach(p.kview(), s as int),
{
    let sl = p.spins();
    if s < sl.len() {
        sl[s].current_number_spins()
    } else {
        0
    }
}

/// One more than the largest mode of the `b`-th boson slot of a mixed
/// product, `0` when the slot index is out of range.
fn boson_slot_bound(p: &MixedDecoherenceProduct, b: usize) -> (r: usize)
    ensures
        r == boson_slot_reach(p.kview(), b as int),
{
    let sl = p.bosons();
    if b < sl.len() {
        sl[b].current_number_modes()
    } else {
        0
    }
}

/// One more than the largest mode of the `f`-th fermion slot of a mixed
/// product, `0` when the slot index is out of range.
fn fermion_slot_bound(p: &MixedDecoherenceProduct, f: usize) -> (r: usize)
    ensures
        r == fermion_slot_reach(p.kview(), f as int),
{
    let sl = p.fermions();
    if f < sl.len() {
        sl[f].current_number_modes()
    } else {
        0
    }
}

} // verus!
