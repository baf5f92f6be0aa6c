//! Sparse operators: weighted sums of canonical products.
//!
//! An `Operator<K>` maps canonical products of one kind to
//! `CalculatorComplex` coefficients.  Absence of a key means an implicit zero
//! coefficient — `get` returns the additive identity, never an error — while
//! `set` overwrites (removing the entry when the new value is the zero
//! coefficient) and `add_operator_product` accumulates, keeping an explicit
//! entry even when the sum is zero.

use crate::error::StruqtureError;
use crate::key::OperatorKey;
use crate::scalar::cc_add;
use crate::scalar::cc_add_of;
use crate::scalar::cc_clone;
use crate::scalar::cc_eq;
use crate::scalar::cc_eq_of;
use crate::scalar::cc_mul;
use crate::scalar::cc_mul_of;
use crate::scalar::cc_neg;
use crate::scalar::cc_neg_of;
use crate::scalar::cc_new_int;
use crate::scalar::cc_new_of;
use crate::scalar::cc_sub;
use crate::scalar::cc_sub_of;
use crate::terms::TermList;
use crate::terms::distinct_keys;
use crate::terms::lemma_moe_dom;
use crate::terms::map_of_entries;
use qoqo_calculator::CalculatorComplex;
use vstd::prelude::*;

verus! {

/// Key-wise union of two coefficient maps, adding where both are present.
pub open spec fn map_add<KV>(
    a: Map<KV, CalculatorComplex>,
    b: Map<KV, CalculatorComplex>,
) -> Map<KV, CalculatorComplex> {
    Map::new(
        |kv: KV| a.contains_key(kv) || b.contains_key(kv),
        |kv: KV|
            if a.contains_key(kv) && b.contains_key(kv) {
                cc_add_of(a[kv], b[kv])
            } else if b.contains_key(kv) {
                b[kv]
            } else {
                a[kv]
            },
    )
}

/// Key-wise difference of two coefficient maps: `a - b`.
pub open spec fn map_sub<KV>(
    a: Map<KV, CalculatorComplex>,
    b: Map<KV, CalculatorComplex>,
) -> Map<KV, CalculatorComplex> {
    Map::new(
        |kv: KV| a.contains_key(kv) || b.contains_key(kv),
        |kv: KV|
            if a.contains_key(kv) && b.contains_key(kv) {
                cc_sub_of(a[kv], b[kv])
            } else if b.contains_key(kv) {
                cc_neg_of(b[kv])
            } else {
                a[kv]
            },
    )
}

/// The map after accumulating the entries of `s` one by one.
pub open spec fn map_after_adds<KV>(
    m: Map<KV, CalculatorComplex>,
    s: Seq<(KV, CalculatorComplex)>,
) -> Map<KV, CalculatorComplex>
    decreases s.len(),
{
    if s.len() == 0 {
        m
    } else {
        let p = map_after_adds(m, s.drop_last());
        p.insert(
            s.last().0,
            if p.contains_key(s.last().0) {
                cc_add_of(p[s.last().0], s.last().1)
            } else {
                s.last().1
            },
        )
    }
}

/// Accumulating a duplicate-free entry list is the key-wise union with its
/// map: insertion order cannot matter.
pub proof fn lemma_adds_is_union<KV>(
    m: Map<KV, CalculatorComplex>,
    s: Seq<(KV, CalculatorComplex)>,
)
    requires
        distinct_keys(s),
    ensures
        map_after_adds(m, s) == map_add(m, map_of_entries(s)),
    decreases s.len(),
{
    if s.len() == 0 {
        assert(map_after_adds(m, s) =~= map_add(m, map_of_entries(s)));
    } else {
        assert(distinct_keys(s.drop_last())) by {
            assert(forall|a: int|
                0 <= a < s.drop_last().len() ==> (#[trigger] s.drop_last()[a]) == s[a]);
        }
        lemma_adds_is_union(m, s.drop_last());
        lemma_moe_dom(s.drop_last(), s.last().0);
        assert(forall|a: int|
            0 <= a < s.drop_last().len() ==> (#[trigger] s.drop_last()[a]) == s[a]);
        assert(!map_of_entries(s.drop_last()).contains_key(s.last().0));
        assert(map_after_adds(m, s) =~= map_add(m, map_of_entries(s)));
    }
}

/// The map after subtracting the entries of `s` one by one.
pub open spec fn map_after_subs<KV>(
    m: Map<KV, CalculatorComplex>,
    s: Seq<(KV, CalculatorComplex)>,
) -> Map<KV, CalculatorComplex>
    decreases s.len(),
{
    if s.len() == 0 {
        m
    } else {
        let p = map_after_subs(m, s.drop_last());
        p.insert(
            s.last().0,
            if p.contains_key(s.last().0) {
                cc_sub_of(p[s.last().0], s.last().1)
            } else {
                cc_neg_of(s.last().1)
            },
        )
    }
}

/// Subtracting a duplicate-free entry list is the key-wise difference with
/// its map.
pub proof fn lemma_subs_is_diff<KV>(
    m: Map<KV, CalculatorComplex>,
    s: Seq<(KV, CalculatorComplex)>,
)
    requires
        distinct_keys(s),
    ensures
        map_after_subs(m, s) == map_sub(m, map_of_entries(s)),
    decreases s.len(),
{
    if s.len() == 0 {
        assert(map_after_subs(m, s) =~= map_sub(m, map_of_entries(s)));
    } else {
        assert(distinct_keys(s.drop_last())) by {
            assert(forall|a: int|
                0 <= a < s.drop_last().len() ==> (#[trigger] s.drop_last()[a]) == s[a]);
        }
        lemma_subs_is_diff(m, s.drop_last());
        lemma_moe_dom(s.drop_last(), s.last().0);
        assert(forall|a: int|
            0 <= a < s.drop_last().len() ==> (#[trigger] s.drop_last()[a]) == s[a]);
        assert(!map_of_entries(s.drop_last()).contains_key(s.last().0));
        assert(map_after_subs(m, s) =~= map_sub(m, map_of_entries(s)));
    }
}

/// Law: on a previously absent key, accumulating `v1` and then `v2` with
/// `add_operator_product` leaves the same coefficient map as one `set` of
/// their sum, provided the sum is not the zero coefficient (a zero-valued
/// `set` removes the entry, while accumulation keeps it).  The two sides are
/// the maps `add_operator_product` and `set` promise in their contracts.
pub proof fn lemma_accumulate_twice_is_set<KV>(
    m: Map<KV, CalculatorComplex>,
    kv: KV,
    v1: CalculatorComplex,
    v2: CalculatorComplex,
)
    requires
        !m.contains_key(kv),
        !cc_eq_of(cc_add_of(v1, v2), cc_new_of(0, 0)),
    ensures
        ({
            let after_first = m.insert(kv, v1);
            let after_both = after_first.insert(kv, cc_add_of(after_first[kv], v2));
            after_both == m.insert(kv, cc_add_of(v1, v2))
        }),
{
    let after_first = m.insert(kv, v1);
    assert(after_first.insert(kv, cc_add_of(after_first[kv], v2)) =~= m.insert(
        kv,
        cc_add_of(v1, v2),
    ));
}

/// A sparse operator: a weighted sum of canonical products of kind `K`.
#[derive(Debug, PartialEq)]
pub struct Operator<K: OperatorKey> {
    terms: TermList<K>,
}

/// An operator over Pauli strings: a spin Hamiltonian or observable.
pub type PauliOperator = Operator<crate::spins::PauliProduct>;

/// A bosonic Hamiltonian: a weighted sum of Hermitian boson products.
pub type BosonHamiltonian = Operator<crate::bosons::HermitianBosonProduct>;

/// A Lindblad noise operator in the plus/minus basis, indexed by pairs of
/// plus/minus products.
pub type PlusMinusLindbladNoiseOperator = Operator<
    (crate::spins::PlusMinusProduct, crate::spins::PlusMinusProduct),
>;

impl<K: OperatorKey> Clone for Operator<K> {
    fn clone(&self) -> (r: Self)
        ensures
            r.entries() == self.entries(),
    {
        Operator { terms: self.terms.dup() }
    }
}

impl<K: OperatorKey> Default for Operator<K> {
    fn default() -> (r: Self)
        ensures
            r.entries() == Seq::<(K::KV, CalculatorComplex)>::empty(),
    {
        Operator { terms: TermList::new() }
    }
}

impl<K: OperatorKey> Operator<K> {
    /// The `(key view, coefficient)` entries, in canonical key order.
    pub closed spec fn entries(self) -> Seq<(K::KV, CalculatorComplex)> {
        self.terms.entries()
    }

    /// The finite coefficient map this operator stands for.
    pub open spec fn as_map(self) -> Map<K::KV, CalculatorComplex> {
        map_of_entries(self.entries())
    }

    /// The key views in canonical order.
    pub open spec fn keys_spec(self) -> Seq<K::KV> {
        self.entries().map_values(|e: (K::KV, CalculatorComplex)| e.0)
    }

    /// A key is stored exactly when some entry carries it.
    pub proof fn lemma_dom(self, kv: K::KV)
        ensures
            self.as_map().contains_key(kv) <==> exists|i: int|
                0 <= i < self.entries().len() && (#[trigger] self.entries()[i]).0 == kv,
    {
        self.terms.lemma_dom(kv);
    }

    /// The empty operator.
    pub fn new() -> (r: Self)
        ensures
            r.entries() == Seq::<(K::KV, CalculatorComplex)>::empty(),
            r.as_map() == Map::<K::KV, CalculatorComplex>::empty(),
    {
        Operator { terms: TermList::new() }
    }

    /// The empty operator, with room reserved for `capacity` terms.
    pub fn with_capacity(capacity: usize) -> (r: Self)
        ensures
            r.entries() == Seq::<(K::KV, CalculatorComplex)>::empty(),
            r.as_map() == Map::<K::KV, CalculatorComplex>::empty(),
    {
        let _ = capacity;
        Self::new()
    }

    /// An empty operator of the same kind as this one.
    pub fn empty_clone(&self, capacity: Option<usize>) -> (r: Self)
        ensures
            r.entries() == Seq::<(K::KV, CalculatorComplex)>::empty(),
            r.as_map() == Map::<K::KV, CalculatorComplex>::empty(),
    {
        let _ = capacity;
        Self::new()
    }

    /// How many terms are stored (explicit zero coefficients count).
    pub fn len(&self) -> (r: usize)
        ensures
            r == self.entries().len(),
    {
        self.terms.len()
    }

    /// Whether no term is stored.
    pub fn is_empty(&self) -> (r: bool)
        ensures
            r == (self.entries().len() == 0),
    {
        self.terms.is_empty()
    }

    /// Borrow the entry at position `i` of the canonical order.
    pub fn entry_at(&self, i: usize) -> (r: &(K, CalculatorComplex))
        requires
            i < self.entries().len(),
        ensures
            r.0.kview() == self.entries()[i as int].0,
            r.1 == self.entries()[i as int].1,
            self.as_map().contains_key(r.0.kview()),
            self.as_map()[r.0.kview()] == r.1,
    {
        self.terms.get_entry(i)
    }

    /// The coefficient stored for `key`, or the additive identity when the
    /// key is absent: absence means an implicit zero coefficient, never an
    /// error.
    pub fn get(&self, key: &K) -> (r: CalculatorComplex)
        ensures
            r == if self.as_map().contains_key(key.kview()) {
                self.as_map()[key.kview()]
            } else {
                cc_new_of(0, 0)
            },
    {
        match self.terms.get(key) {
            Some(v) => cc_clone(v),
            None => cc_new_int(0, 0),
        }
    }

    /// Overwrite the coefficient of `key`, returning the previous one.  A
    /// zero value removes the entry instead of storing an explicit zero.
    pub fn set(&mut self, key: K, value: CalculatorComplex) -> (r: Result<
        Option<CalculatorComplex>,
        StruqtureError,
    >)
        ensures
            final(self).as_map() == if cc_eq_of(value, cc_new_of(0, 0)) {
                old(self).as_map().remove(key.kview())
            } else {
                old(self).as_map().insert(key.kview(), value)
            },
            r === Ok(
                if old(self).as_map().contains_key(key.kview()) {
                    Some(old(self).as_map()[key.kview()])
                } else {
                    None
                },
            ),
    {
        let zero = cc_new_int(0, 0);
        if cc_eq(&value, &zero) {
            Ok(self.terms.remove(&key))
        } else {
            Ok(self.terms.insert(key, value))
        }
    }

    /// Accumulate `value` onto the coefficient of `key` (an absent key holds
    /// an implicit zero, so the value is stored as given).  The entry stays
    /// even when the sum is exactly zero.
    pub fn add_operator_product(&mut self, key: K, value: CalculatorComplex) -> (r: Result<
        (),
        StruqtureError,
    >)
        ensures
            final(self).as_map() == if old(self).as_map().contains_key(key.kview()) {
                old(self).as_map().insert(
                    key.kview(),
                    cc_add_of(old(self).as_map()[key.kview()], value),
                )
            } else {
                old(self).as_map().insert(key.kview(), value)
            },
            r === Ok(()),
    {
        self.add_term(key, value);
        Ok(())
    }

    fn add_term(&mut self, key: K, value: CalculatorComplex)
        ensures
            final(self).as_map() == if old(self).as_map().contains_key(key.kview()) {
                old(self).as_map().insert(
                    key.kview(),
                    cc_add_of(old(self).as_map()[key.kview()], value),
                )
            } else {
                old(self).as_map().insert(key.kview(), value)
            },
    {
        let cur = match self.terms.get(&key) {
            Some(v) => Some(cc_clone(v)),
            None => None,
        };
        match cur {
            Some(v) => {
                let sum = cc_add(v, value);
                self.terms.insert(key, sum);
            },
            None => {
                self.terms.insert(key, value);
            },
        }
    }

    /// Delete the entry of `key`, returning its coefficient; a no-op when
    /// the key is absent.
    pub fn remove(&mut self, key: &K) -> (r: Option<CalculatorComplex>)
        ensures
            final(self).as_map() == old(self).as_map().remove(key.kview()),
            r == if old(self).as_map().contains_key(key.kview()) {
                Some(old(self).as_map()[key.kview()])
            } else {
                None::<CalculatorComplex>
            },
    {
        self.terms.remove(key)
    }

    /// The keys, strictly ascending in the canonical key order: iteration
    /// order is deterministic and independent of insertion order.
    pub fn keys(&self) -> (r: Vec<K>)
        ensures
            r@.len() == self.entries().len(),
            forall|i: int|
                0 <= i < r@.len() ==> (#[trigger] r@[i].kview()) == self.entries()[i].0,
            forall|i: int, j: int|
                0 <= i < j < r@.len() ==> <K::KV as crate::order::CanonOrd>::clt(
                    #[trigger] r@[i].kview(),
                    #[trigger] r@[j].kview(),
                ),
    {
        proof {
            use_type_invariant(&self.terms);
            self.terms.lemma_sorted();
        }
        let mut out: Vec<K> = Vec::new();
        let n = self.terms.len();
        for i in 0..n
            invariant
                n == self.entries().len(),
                out@.len() == i,
                crate::terms::sorted_kviews(self.keys_spec()),
                forall|j: int|
                    0 <= j < i ==> (#[trigger] out@[j].kview()) == self.entries()[j].0,
        {
            let e = self.terms.get_entry(i);
            out.push(e.0.kdup());
        }
        proof {
            assert forall|i: int, j: int|
                0 <= i < j < out@.len() implies <K::KV as crate::order::CanonOrd>::clt(
                #[trigger] out@[i].kview(),
                #[trigger] out@[j].kview(),
            ) by {
                assert(self.keys_spec()[i] == self.entries()[i].0);
                assert(self.keys_spec()[j] == self.entries()[j].0);
            }
        }
        out
    }

    /// The coefficients, parallel to `keys`.
    pub fn values(&self) -> (r: Vec<CalculatorComplex>)
        ensures
            r@.len() == self.entries().len(),
            forall|i: int| 0 <= i < r@.len() ==> (#[trigger] r@[i]) == self.entries()[i].1,
    {
        let mut out: Vec<CalculatorComplex> = Vec::new();
        let n = self.terms.len();
        for i in 0..n
            invariant
                n == self.entries().len(),
                out@.len() == i,
                forall|j: int| 0 <= j < i ==> (#[trigger] out@[j]) == self.entries()[j].1,
        {
            let e = self.terms.get_entry(i);
            out.push(cc_clone(&e.1));
        }
        out
    }

    /// The negated operator: every coefficient negated, keys unchanged.
    pub fn neg(&self) -> (r: Self)
        ensures
            r.as_map().dom() == self.as_map().dom(),
            forall|kv: K::KV|
                self.as_map().contains_key(kv) ==> r.as_map()[kv] == cc_neg_of(
                    #[trigger] self.as_map()[kv],
                ),
    {
        let mut acc = Self::new();
        let n = self.terms.len();
        proof {
            use_type_invariant(&self.terms);
            self.terms.lemma_sorted();
        }
        for i in 0..n
            invariant
                n == self.entries().len(),
                distinct_keys(self.entries()),
                forall|j: int|
                    0 <= j < self.entries().len() ==> self.as_map().contains_key(
                        (#[trigger] self.entries()[j]).0,
                    ) && self.as_map()[self.entries()[j].0] == self.entries()[j].1,
                forall|kv: K::KV|
                    acc.as_map().contains_key(kv) <==> exists|j: int|
                        0 <= j < i && (#[trigger] self.entries()[j]).0 == kv,
                forall|j: int|
                    0 <= j < i ==> acc.as_map()[(#[trigger] self.entries()[j]).0] == cc_neg_of(
                        self.entries()[j].1,
                    ),
        {
            let e = self.terms.get_entry(i);
            let k2 = e.0.kdup();
            let v2 = cc_neg(cc_clone(&e.1));
            let ghost acc0 = acc.as_map();
            acc.terms.insert(k2, v2);
            proof {
                let kvi = self.entries()[i as int].0;
                assert(k2.kview() == kvi);
                assert(acc.as_map() == acc0.insert(kvi, v2));
                assert forall|kv: K::KV|
                    acc.as_map().contains_key(kv) <==> exists|j: int|
                        0 <= j < i + 1 && (#[trigger] self.entries()[j]).0 == kv by {
                    if acc.as_map().contains_key(kv) {
                        if kv == kvi {
                            assert(self.entries()[i as int].0 == kv);
                        } else {
                            assert(acc0.contains_key(kv));
                        }
                    }
                    if exists|j: int| 0 <= j < i + 1 && (#[trigger] self.entries()[j]).0 == kv {
                        let j = choose|j: int|
                            0 <= j < i + 1 && (#[trigger] self.entries()[j]).0 == kv;
                        if j == i as int {
                            assert(kv == kvi);
                        } else {
                            assert(acc0.contains_key(kv));
                        }
                    }
                }
                assert forall|j: int|
                    0 <= j < i + 1 implies acc.as_map()[(#[trigger] self.entries()[j]).0]
                    == cc_neg_of(
                    self.entries()[j].1,
                ) by {
                    if j < i {
                        assert(self.entries()[j].0 != kvi);
                        assert(acc.as_map()[self.entries()[j].0] == acc0[self.entries()[j].0]);
                    }
                }
            }
        }
        proof {
            assert forall|kv: K::KV|
                acc.as_map().contains_key(kv) <==> self.as_map().contains_key(kv) by {
                self.lemma_dom(kv);
            }
            assert(acc.as_map().dom() =~= self.as_map().dom());
        }
        acc
    }

    /// The operator scaled by `factor`: every coefficient multiplied by it,
    /// keys unchanged.
    pub fn scalar_mul(&self, factor: &CalculatorComplex) -> (r: Self)
        ensures
            r.as_map().dom() == self.as_map().dom(),
            forall|kv: K::KV|
                self.as_map().contains_key(kv) ==> r.as_map()[kv] == cc_mul_of(
                    #[trigger] self.as_map()[kv],
                    *factor,
                ),
    {
        let mut acc = Self::new();
        let n = self.terms.len();
        proof {
            use_type_invariant(&self.terms);
            self.terms.lemma_sorted();
        }
        for i in 0..n
            invariant
                n == self.entries().len(),
                distinct_keys(self.entries()),
                forall|j: int|
                    0 <= j < self.entries().len() ==> self.as_map().contains_key(
                        (#[trigger] self.entries()[j]).0,
                    ) && self.as_map()[self.entries()[j].0] == self.entries()[j].1,
                forall|kv: K::KV|
                    acc.as_map().contains_key(kv) <==> exists|j: int|
                        0 <= j < i && (#[trigger] self.entries()[j]).0 == kv,
                forall|j: int|
                    0 <= j < i ==> acc.as_map()[(#[trigger] self.entries()[j]).0] == cc_mul_of(
                        self.entries()[j].1,
                        *factor,
                    ),
        {
            let e = self.terms.get_entry(i);
            let k2 = e.0.kdup();
            let v2 = cc_mul(cc_clone(&e.1), cc_clone(factor));
            let ghost acc0 = acc.as_map();
            acc.terms.insert(k2, v2);
            proof {
                let kvi = self.entries()[i as int].0;
                assert(k2.kview() == kvi);
                assert(acc.as_map() == acc0.insert(kvi, v2));
                assert forall|kv: K::KV|
                    acc.as_map().contains_key(kv) <==> exists|j: int|
                        0 <= j < i + 1 && (#[trigger] self.entries()[j]).0 == kv by {
                    if acc.as_map().contains_key(kv) {
                        if kv == kvi {
                            assert(self.entries()[i as int].0 == kv);
                        } else {
                            assert(acc0.contains_key(kv));
                        }
                    }
                    if exists|j: int| 0 <= j < i + 1 && (#[trigger] self.entries()[j]).0 == kv {
                        let j = choose|j: int|
                            0 <= j < i + 1 && (#[trigger] self.entries()[j]).0 == kv;
                        if j == i as int {
                            assert(kv == kvi);
                        } else {
                            assert(acc0.contains_key(kv));
                        }
                    }
                }
                assert forall|j: int|
                    0 <= j < i + 1 implies acc.as_map()[(#[trigger] self.entries()[j]).0]
                    == cc_mul_of(
                    self.entries()[j].1,
                    *factor,
                ) by {
                    if j < i {
                        assert(self.entries()[j].0 != kvi);
                        assert(acc.as_map()[self.entries()[j].0] == acc0[self.entries()[j].0]);
                    }
                }
            }
        }
        proof {
            assert forall|kv: K::KV|
                acc.as_map().contains_key(kv) <==> self.as_map().contains_key(kv) by {
                self.lemma_dom(kv);
            }
            assert(acc.as_map().dom() =~= self.as_map().dom());
        }
        acc
    }

    /// The key-wise sum of two operators: coefficients added where a key is
    /// in both.
    pub fn add(&self, other: &Self) -> (r: Self)
        ensures
            r.as_map() == map_add(self.as_map(), other.as_map()),
    {
        let mut acc = Operator { terms: self.terms.dup() };
        let n = other.terms.len();
        proof {
            use_type_invariant(&other.terms);
            other.terms.lemma_sorted();
            assert(other.entries().take(0) =~= Seq::<(K::KV, CalculatorComplex)>::empty());
        }
        for i in 0..n
            invariant
                n == other.entries().len(),
                distinct_keys(other.entries()),
                forall|j: int|
                    0 <= j < other.entries().len() ==> other.as_map().contains_key(
                        (#[trigger] other.entries()[j]).0,
                    ) && other.as_map()[other.entries()[j].0] == other.entries()[j].1,
                acc.as_map() == map_after_adds(self.as_map(), other.entries().take(i as int)),
        {
            let e = other.terms.get_entry(i);
            let k2 = e.0.kdup();
            let v2 = cc_clone(&e.1);
            acc.add_term(k2, v2);
            proof {
                assert(other.entries().take(i + 1).drop_last() =~= other.entries().take(i as int));
                assert(other.entries().take(i + 1).last() == other.entries()[i as int]);
            }
        }
        proof {
            assert(other.entries().take(n as int) =~= other.entries());
            lemma_adds_is_union(self.as_map(), other.entries());
        }
        acc
    }

    /// The key-wise difference of two operators: `self - other`.
    pub fn sub(&self, other: &Self) -> (r: Self)
        ensures
            r.as_map() == map_sub(self.as_map(), other.as_map()),
    {
        let mut acc = Operator { terms: self.terms.dup() };
        let n = other.terms.len();
        proof {
            use_type_invariant(&other.terms);
            other.terms.lemma_sorted();
            assert(other.entries().take(0) =~= Seq::<(K::KV, CalculatorComplex)>::empty());
        }
        for i in 0..n
            invariant
                n == other.entries().len(),
                distinct_keys(other.entries()),
                forall|j: int|
                    0 <= j < other.entries().len() ==> other.as_map().contains_key(
                        (#[trigger] other.entries()[j]).0,
                    ) && other.as_map()[other.entries()[j].0] == other.entries()[j].1,
                acc.as_map() == map_after_subs(self.as_map(), other.entries().take(i as int)),
        {
            let e = other.terms.get_entry(i);
            let k2 = e.0.kdup();
            let v2 = cc_clone(&e.1);
            acc.sub_term(k2, v2);
            proof {
                assert(other.entries().take(i + 1).drop_last() =~= other.entries().take(i as int));
                assert(other.entries().take(i + 1).last() == other.entries()[i as int]);
            }
        }
        proof {
            assert(other.entries().take(n as int) =~= other.entries());
            lemma_subs_is_diff(self.as_map(), other.entries());
        }
        acc
    }

    fn sub_term(&mut self, key: K, value: CalculatorComplex)
        ensures
            final(self).as_map() == if old(self).as_map().contains_key(key.kview()) {
                old(self).as_map().insert(
                    key.kview(),
                    cc_sub_of(old(self).as_map()[key.kview()], value),
                )
            } else {
                old(self).as_map().insert(key.kview(), cc_neg_of(value))
            },
    {
        let cur = match self.terms.get(&key) {
            Some(v) => Some(cc_clone(v)),
            None => None,
        };
        match cur {
            Some(v) => {
                let nv = cc_sub(v, value);
                self.terms.insert(key, nv);
            },
            None => {
                let nv = cc_neg(value);
                self.terms.insert(key, nv);
            },
        }
    }

    /// Build an operator from `(key, value)` pairs with accumulation
    /// semantics: a repeated key adds onto the earlier coefficient rather
    /// than overwriting it.
    pub fn from_vec(items: Vec<(K, CalculatorComplex)>) -> (r: Self)
        ensures
            r.as_map() == map_after_adds(
                Map::<K::KV, CalculatorComplex>::empty(),
                items@.map_values(|p: (K, CalculatorComplex)| (p.0.kview(), p.1)),
            ),
    {
        let mut acc = Self::new();
        acc.extend_vec(items);
        acc
    }

    /// Accumulate every `(key, value)` pair onto the operator, in order.
    pub fn extend_vec(&mut self, items: Vec<(K, CalculatorComplex)>) -> (r: ())
        ensures
            final(self).as_map() == map_after_adds(
                old(self).as_map(),
                items@.map_values(|p: (K, CalculatorComplex)| (p.0.kview(), p.1)),
            ),
    {
        let ghost start = self.as_map();
        let ghost orig = items@;
        let ghost es = orig.map_values(|p: (K, CalculatorComplex)| (p.0.kview(), p.1));
        let mut rest = items;
        let mut i: usize = 0;
        let total = rest.len();
        proof {
            assert(orig.len() == total);
            assert(es.take(0) =~= Seq::<(K::KV, CalculatorComplex)>::empty());
            assert(rest@ =~= orig.skip(0));
        }
        while rest.len() > 0
            invariant
                0 <= i as int <= orig.len(),
                orig.len() <= usize::MAX,
                rest@ == orig.skip(i as int),
                es == orig.map_values(|p: (K, CalculatorComplex)| (p.0.kview(), p.1)),
                self.as_map() == map_after_adds(start, es.take(i as int)),
            decreases rest@.len(),
        {
            let pair = rest.remove(0);
            proof {
                assert(pair == orig[i as int]);
                assert(rest@ =~= orig.skip(i as int + 1));
            }
            self.add_term(pair.0, pair.1);
            proof {
                assert(es.take(i as int + 1).drop_last() =~= es.take(i as int));
                assert(es.take(i as int + 1).last() == es[i as int]);
                assert(es[i as int] == (orig[i as int].0.kview(), orig[i as int].1));
            }
            i += 1;
        }
        proof {
            assert(es.take(i as int) =~= es);
        }
        ()
    }
}

/// The view of a plus/minus product pair key.
pub type PlusMinusPairView = (Seq<(usize, usize)>, Seq<(usize, usize)>);

impl Operator<(crate::spins::PlusMinusProduct, crate::spins::PlusMinusProduct)> {
    /// Split the noise operator in two: the terms whose left key acts on
    /// exactly `number_spins_left` spins and whose right key acts on exactly
    /// `number_spins_right`, and all remaining terms.  Both outputs can
    /// always be assembled, so this never fails.
    pub fn separate_into_n_terms(
        &self,
        number_spins_left: usize,
        number_spins_right: usize,
    ) -> (r: Result<(Self, Self), StruqtureError>)
        ensures
            r matches Ok(pair) && ({
                let sep = pair.0;
                let rest = pair.1;
                &&& (forall|kv: PlusMinusPairView|
                    sep.as_map().contains_key(kv) <==> (#[trigger] self.as_map().contains_key(kv))
                        && kv.0.len() == number_spins_left && kv.1.len() == number_spins_right)
                &&& (forall|kv: PlusMinusPairView|
                    rest.as_map().contains_key(kv) <==> (#[trigger] self.as_map().contains_key(kv))
                        && !(kv.0.len() == number_spins_left && kv.1.len()
                        == number_spins_right))
                &&& (forall|kv: PlusMinusPairView|
                    sep.as_map().contains_key(kv) ==> sep.as_map()[kv]
                        == #[trigger] self.as_map()[kv])
                &&& (forall|kv: PlusMinusPairView|
                    rest.as_map().contains_key(kv) ==> rest.as_map()[kv]
                        == #[trigger] self.as_map()[kv])
            }),
    {
        let mut sep = Self::new();
        let mut rest = Self::new();
        let n = self.terms.len();
        proof {
            use_type_invariant(&self.terms);
            self.terms.lemma_sorted();
        }
        for i in 0..n
            invariant
                n == self.entries().len(),
                distinct_keys(self.entries()),
                forall|j: int|
                    0 <= j < self.entries().len() ==> self.as_map().contains_key(
                        (#[trigger] self.entries()[j]).0,
                    ) && self.as_map()[self.entries()[j].0] == self.entries()[j].1,
                forall|kv: PlusMinusPairView|
                    sep.as_map().contains_key(kv) <==> exists|j: int|
                        0 <= j < i && (#[trigger] self.entries()[j]).0 == kv && kv.0.len()
                            == number_spins_left && kv.1.len() == number_spins_right,
                forall|kv: PlusMinusPairView|
                    rest.as_map().contains_key(kv) <==> exists|j: int|
                        0 <= j < i && (#[trigger] self.entries()[j]).0 == kv && !(kv.0.len()
                            == number_spins_left && kv.1.len() == number_spins_right),
                forall|kv: PlusMinusPairView|
                    sep.as_map().contains_key(kv) ==> #[trigger] sep.as_map()[kv]
                        == self.as_map()[kv],
                forall|kv: PlusMinusPairView|
                    rest.as_map().contains_key(kv) ==> #[trigger] rest.as_map()[kv]
                        == self.as_map()[kv],
        {
            let e = self.terms.get_entry(i);
            let k2 = (e.0.0.clone(), e.0.1.clone());
            let v2 = cc_clone(&e.1);
            let ghost kvi = self.entries()[i as int].0;
            let matches_counts = e.0.0.len() == number_spins_left && e.0.1.len()
                == number_spins_right;
            proof {
                assert(k2.kview() == kvi);
                assert(v2 == self.entries()[i as int].1);
                assert(self.as_map()[kvi] == v2);
            }
            if matches_counts {
                let ghost sep0 = sep.as_map();
                proof {
                    if sep0.contains_key(kvi) {
                        let j = choose|j: int|
                            0 <= j < i && (#[trigger] self.entries()[j]).0 == kvi && kvi.0.len()
                                == number_spins_left && kvi.1.len() == number_spins_right;
                        assert(self.entries()[j].0 != self.entries()[i as int].0);
                        assert(false);
                    }
                }
                let _ = sep.add_operator_product(k2, v2);
                proof {
                    assert(sep.as_map() == sep0.insert(kvi, v2));
                    assert forall|kv: PlusMinusPairView|
                        sep.as_map().contains_key(kv) <==> exists|j: int|
                            0 <= j < i + 1 && (#[trigger] self.entries()[j]).0 == kv && kv.0.len()
                                == number_spins_left && kv.1.len() == number_spins_right by {
                        if sep.as_map().contains_key(kv) {
                            if kv == kvi {
                                assert(self.entries()[i as int].0 == kv);
                            } else {
                                assert(sep0.contains_key(kv));
                            }
                        }
                        if exists|j: int|
                            0 <= j < i + 1 && (#[trigger] self.entries()[j]).0 == kv && kv.0.len()
                                == number_spins_left && kv.1.len() == number_spins_right {
                            let j = choose|j: int|
                                0 <= j < i + 1 && (#[trigger] self.entries()[j]).0 == kv
                                    && kv.0.len() == number_spins_left && kv.1.len()
                                    == number_spins_right;
                            if j == i as int {
                                assert(kv == kvi);
                            } else {
                                assert(sep0.contains_key(kv));
                            }
                        }
                    }
                }
            } else {
                let ghost rest0 = rest.as_map();
                proof {
                    if rest0.contains_key(kvi) {
                        let j = choose|j: int|
                            0 <= j < i && (#[trigger] self.entries()[j]).0 == kvi && !(kvi.0.len()
                                == number_spins_left && kvi.1.len() == number_spins_right);
                        assert(self.entries()[j].0 != self.entries()[i as int].0);
                        assert(false);
                    }
                }
                let _ = rest.add_operator_product(k2, v2);
                proof {
                    assert(rest.as_map() == rest0.insert(kvi, v2));
                    assert forall|kv: PlusMinusPairView|
                        rest.as_map().contains_key(kv) <==> exists|j: int|
                            0 <= j < i + 1 && (#[trigger] self.entries()[j]).0 == kv && !(kv.0.len()
                                == number_spins_left && kv.1.len() == number_spins_right) by {
                        if rest.as_map().contains_key(kv) {
                            if kv == kvi {
                                assert(self.entries()[i as int].0 == kv);
                            } else {
                                assert(rest0.contains_key(kv));
                            }
                        }
                        if exists|j: int|
                            0 <= j < i + 1 && (#[trigger] self.entries()[j]).0 == kv && !(kv.0.len()
                                == number_spins_left && kv.1.len() == number_spins_right) {
                            let j = choose|j: int|
                                0 <= j < i + 1 && (#[trigger] self.entries()[j]).0 == kv && !(
                                kv.0.len() == number_spins_left && kv.1.len()
                                    == number_spins_right);
                            if j == i as int {
                                assert(kv == kvi);
                            } else {
                                assert(rest0.contains_key(kv));
                            }
                        }
                    }
                }
            }
        }
        proof {
            assert forall|kv: PlusMinusPairView|
                self.as_map().contains_key(kv) <==> exists|j: int|
                    0 <= j < n && (#[trigger] self.entries()[j]).0 == kv by {
                self.lemma_dom(kv);
            }
        }
        Ok((sep, rest))
    }
}

} // verus!
