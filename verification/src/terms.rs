//! The sparse term container shared by all operators.
//!
//! A `TermList<K>` maps canonical products to `CalculatorComplex`
//! coefficients.  It is stored as a vector of entries sorted strictly by the
//! canonical key order, so iteration order is deterministic and independent
//! of insertion order.  Its mathematical view is the finite map from key
//! views to coefficients, together with the sorted key sequence.

use crate::key::OperatorKey;
use crate::order::CanonOrd;
use crate::order::KeyOrder;
use crate::scalar::cc_clone;
use qoqo_calculator::CalculatorComplex;
use vstd::prelude::*;

verus! {

/// The key views of an entry sequence, in storage order.
pub open spec fn kseq_of<K: OperatorKey>(s: Seq<(K, CalculatorComplex)>) -> Seq<K::KV> {
    s.map_values(|p: (K, CalculatorComplex)| p.0.kview())
}

/// Strictly ascending in the canonical key order.
pub open spec fn sorted_kviews<KV: CanonOrd>(s: Seq<KV>) -> bool {
    forall|i: int, j: int| 0 <= i < j < s.len() ==> KV::clt(#[trigger] s[i], #[trigger] s[j])
}

/// Pairwise distinct keys.
pub open spec fn distinct_keys<KV>(s: Seq<(KV, CalculatorComplex)>) -> bool {
    forall|i: int, j: int|
        0 <= i < j < s.len() ==> (#[trigger] s[i]).0 != (#[trigger] s[j]).0
}

/// The finite map an entry sequence stands for (later entries win; with
/// distinct keys the order cannot matter).
pub open spec fn map_of_entries<KV>(s: Seq<(KV, CalculatorComplex)>) -> Map<
    KV,
    CalculatorComplex,
>
    decreases s.len(),
{
    if s.len() == 0 {
        Map::<KV, CalculatorComplex>::empty()
    } else {
        map_of_entries(s.drop_last()).insert(s.last().0, s.last().1)
    }
}

/// A key is in the map exactly when some entry carries it.
pub proof fn lemma_moe_dom<KV>(s: Seq<(KV, CalculatorComplex)>, kv: KV)
    ensures
        map_of_entries(s).contains_key(kv) <==> exists|i: int|
            0 <= i < s.len() && (#[trigger] s[i]).0 == kv,
    decreases s.len(),
{
    if s.len() > 0 {
        lemma_moe_dom(s.drop_last(), kv);
        if s.last().0 == kv {
            assert(s[s.len() - 1].0 == kv);
        } else {
            if exists|i: int| 0 <= i < s.len() && (#[trigger] s[i]).0 == kv {
                let i = choose|i: int| 0 <= i < s.len() && (#[trigger] s[i]).0 == kv;
                assert(s.drop_last()[i] == s[i]);
            }
            if exists|i: int|
                0 <= i < s.drop_last().len() && (#[trigger] s.drop_last()[i]).0 == kv {
                let i = choose|i: int|
                    0 <= i < s.drop_last().len() && (#[trigger] s.drop_last()[i]).0 == kv;
                assert(s[i] == s.drop_last()[i]);
            }
        }
    }
}

/// With distinct keys, each entry's value is what the map holds at its key.
pub proof fn lemma_moe_value<KV>(s: Seq<(KV, CalculatorComplex)>, i: int)
    requires
        distinct_keys(s),
        0 <= i < s.len(),
    ensures
        map_of_entries(s).contains_key(s[i].0),
        map_of_entries(s)[s[i].0] == s[i].1,
    decreases s.len(),
{
    if i == s.len() - 1 {
    } else {
        assert(distinct_keys(s.drop_last())) by {
            assert(forall|a: int|
                0 <= a < s.drop_last().len() ==> (#[trigger] s.drop_last()[a]) == s[a]);
        }
        assert(s.drop_last()[i] == s[i]);
        lemma_moe_value(s.drop_last(), i);
        assert(s[s.len() - 1].0 != s[i].0);
    }
}

/// Removing the entry at `i` removes its key from the map.
pub proof fn lemma_moe_remove<KV>(s: Seq<(KV, CalculatorComplex)>, i: int)
    requires
        distinct_keys(s),
        0 <= i < s.len(),
    ensures
        map_of_entries(s.remove(i)) == map_of_entries(s).remove(s[i].0),
    decreases s.len(),
{
    if i == s.len() - 1 {
        assert(s.remove(i) =~= s.drop_last());
        lemma_moe_dom(s.drop_last(), s[i].0);
        assert(forall|a: int|
            0 <= a < s.drop_last().len() ==> (#[trigger] s.drop_last()[a]) == s[a]);
        assert(!map_of_entries(s.drop_last()).contains_key(s[i].0));
        assert(map_of_entries(s.drop_last()) =~= map_of_entries(s).remove(s[i].0));
    } else {
        assert(distinct_keys(s.drop_last())) by {
            assert(forall|a: int|
                0 <= a < s.drop_last().len() ==> (#[trigger] s.drop_last()[a]) == s[a]);
        }
        lemma_moe_remove(s.drop_last(), i);
        assert(s.remove(i).drop_last() =~= s.drop_last().remove(i));
        assert(s.remove(i).last() == s.last());
        assert(s[i] == s.drop_last()[i]);
        assert(s.last().0 != s[i].0);
        assert(map_of_entries(s.remove(i)) =~= map_of_entries(s).remove(s[i].0));
    }
}

/// Inserting an entry with a fresh key anywhere inserts it into the map.
pub proof fn lemma_moe_insert_at<KV>(
    s: Seq<(KV, CalculatorComplex)>,
    i: int,
    e: (KV, CalculatorComplex),
)
    requires
        0 <= i <= s.len(),
        forall|j: int| 0 <= j < s.len() ==> (#[trigger] s[j]).0 != e.0,
    ensures
        map_of_entries(s.insert(i, e)) == map_of_entries(s).insert(e.0, e.1),
    decreases s.len(),
{
    if i == s.len() {
        assert(s.insert(i, e).drop_last() =~= s);
        assert(s.insert(i, e).last() == e);
    } else {
        assert(forall|j: int|
            0 <= j < s.drop_last().len() ==> (#[trigger] s.drop_last()[j]) == s[j]);
        lemma_moe_insert_at(s.drop_last(), i, e);
        assert(s.insert(i, e).drop_last() =~= s.drop_last().insert(i, e));
        assert(s.insert(i, e).last() == s.last());
        assert(s.last().0 != e.0);
        assert(map_of_entries(s.insert(i, e)) =~= map_of_entries(s).insert(e.0, e.1));
    }
}

/// Overwriting the entry at `i` with the same key updates the map there.
pub proof fn lemma_moe_update<KV>(
    s: Seq<(KV, CalculatorComplex)>,
    i: int,
    e: (KV, CalculatorComplex),
)
    requires
        distinct_keys(s),
        0 <= i < s.len(),
        e.0 == s[i].0,
    ensures
        map_of_entries(s.update(i, e)) == map_of_entries(s).insert(e.0, e.1),
    decreases s.len(),
{
    if i == s.len() - 1 {
        assert(s.update(i, e).drop_last() =~= s.drop_last());
        assert(s.update(i, e).last() == e);
        assert(map_of_entries(s.update(i, e)) =~= map_of_entries(s).insert(e.0, e.1));
    } else {
        assert(distinct_keys(s.drop_last())) by {
            assert(forall|a: int|
                0 <= a < s.drop_last().len() ==> (#[trigger] s.drop_last()[a]) == s[a]);
        }
        assert(s.drop_last()[i] == s[i]);
        lemma_moe_update(s.drop_last(), i, e);
        assert(s.update(i, e).drop_last() =~= s.drop_last().update(i, e));
        assert(s.update(i, e).last() == s.last());
        assert(s.last().0 != e.0);
        assert(map_of_entries(s.update(i, e)) =~= map_of_entries(s).insert(e.0, e.1));
    }
}

/// Sorted keys are pairwise distinct.
pub proof fn lemma_sorted_distinct_keys<K: OperatorKey>(s: Seq<(K, CalculatorComplex)>)
    requires
        sorted_kviews(kseq_of(s)),
    ensures
        distinct_keys_by_view::<K>(s),
{
    assert forall|i: int, j: int|
        0 <= i < j < s.len() implies (#[trigger] s[i]).0.kview() != (#[trigger] s[j]).0.kview() by {
        assert(K::KV::clt(kseq_of(s)[i], kseq_of(s)[j]));
        K::KV::lemma_irreflexive(s[i].0.kview());
    }
}

/// Pairwise distinct key views.
pub open spec fn distinct_keys_by_view<K: OperatorKey>(s: Seq<(K, CalculatorComplex)>) -> bool {
    forall|i: int, j: int|
        0 <= i < j < s.len() ==> (#[trigger] s[i]).0.kview() != (#[trigger] s[j]).0.kview()
}

/// The sparse, canonically ordered term container.
#[derive(Debug, PartialEq)]
pub struct TermList<K: OperatorKey> {
    items: Vec<(K, CalculatorComplex)>,
}

impl<K: OperatorKey> TermList<K> {
    /// The entries as `(key view, coefficient)` pairs, in canonical key
    /// order.
    pub closed spec fn entries(self) -> Seq<(K::KV, CalculatorComplex)> {
        self.items@.map_values(|p: (K, CalculatorComplex)| (p.0.kview(), p.1))
    }

    /// The key views in canonical order.
    pub open spec fn keys_spec(self) -> Seq<K::KV> {
        self.entries().map_values(|e: (K::KV, CalculatorComplex)| e.0)
    }

    /// The finite map this container stands for.
    pub open spec fn as_map(self) -> Map<K::KV, CalculatorComplex> {
        map_of_entries(self.entries())
    }

    #[verifier::type_invariant]
    pub closed spec fn twf(self) -> bool {
        sorted_kviews(kseq_of(self.items@))
    }

    proof fn lemma_views(self)
        ensures
            kseq_of(self.items@) == self.keys_spec(),
            self.entries().len() == self.items@.len(),
            forall|i: int|
                0 <= i < self.items@.len() ==> (#[trigger] self.entries()[i]) == (
                    self.items@[i].0.kview(),
                    self.items@[i].1,
                ),
            self.twf() ==> distinct_keys(self.entries()),
            self.twf() ==> sorted_kviews(self.keys_spec()),
    {
        assert(kseq_of(self.items@) =~= self.keys_spec());
        if self.twf() {
            lemma_sorted_distinct_keys::<K>(self.items@);
            assert forall|i: int, j: int|
                0 <= i < j < self.entries().len() implies (#[trigger] self.entries()[i]).0 != (
                #[trigger] self.entries()[j]).0 by {
                assert(self.items@[i].0.kview() != self.items@[j].0.kview());
            }
        }
    }

    /// The keys of the map are exactly the stored key views.
    pub proof fn lemma_dom(self, kv: K::KV)
        ensures
            self.as_map().contains_key(kv) <==> exists|i: int|
                0 <= i < self.entries().len() && (#[trigger] self.entries()[i]).0 == kv,
    {
        lemma_moe_dom(self.entries(), kv);
    }

    /// Sortedness of the stored keys, exported for callers; holds of every
    /// reachable container.
    pub proof fn lemma_sorted(self)
        requires
            self.twf(),
        ensures
            sorted_kviews(self.keys_spec()),
            distinct_keys(self.entries()),
            forall|i: int|
                0 <= i < self.entries().len() ==> self.as_map().contains_key(
                    (#[trigger] self.entries()[i]).0,
                ) && self.as_map()[self.entries()[i].0] == self.entries()[i].1,
    {
        self.lemma_views();
        assert forall|i: int|
            0 <= i < self.entries().len() implies self.as_map().contains_key(
            (#[trigger] self.entries()[i]).0,
        ) && self.as_map()[self.entries()[i].0] == self.entries()[i].1 by {
            lemma_moe_value(self.entries(), i);
        }
    }

    /// The empty container.
    pub fn new() -> (r: Self)
        ensures
            r.entries() == Seq::<(K::KV, CalculatorComplex)>::empty(),
            r.as_map() == Map::<K::KV, CalculatorComplex>::empty(),
    {
        let r = TermList::<K> { items: Vec::new() };
        proof {
            assert(r.entries() =~= Seq::<(K::KV, CalculatorComplex)>::empty());
        }
        r
    }

    /// How many terms are stored.
    pub fn len(&self) -> (r: usize)
        ensures
            r == self.entries().len(),
    {
        self.items.len()
    }

    /// Whether no term is stored.
    pub fn is_empty(&self) -> (r: bool)
        ensures
            r == (self.entries().len() == 0),
    {
        self.items.len() == 0
    }

    /// Borrow the entry at position `i` of the canonical order.
    pub fn get_entry(&self, i: usize) -> (r: &(K, CalculatorComplex))
        requires
            i < self.entries().len(),
        ensures
            r.0.kview() == self.entries()[i as int].0,
            r.1 == self.entries()[i as int].1,
            self.as_map().contains_key(r.0.kview()),
            self.as_map()[r.0.kview()] == r.1,
    {
        proof {
            use_type_invariant(self);
            self.lemma_sorted();
        }
        &self.items[i]
    }

    /// Find `k`: its position if present, else where it would be inserted.
    fn find(&self, k: &K) -> (r: (bool, usize))
        ensures
            r.1 <= self.entries().len(),
            forall|j: int| 0 <= j < r.1 ==> K::KV::clt(#[trigger] self.keys_spec()[j], k.kview()),
            r.0 ==> r.1 < self.entries().len() && self.keys_spec()[r.1 as int] == k.kview(),
            !r.0 ==> forall|j: int|
                r.1 <= j < self.entries().len() ==> K::KV::clt(
                    k.kview(),
                    #[trigger] self.keys_spec()[j],
                ),
    {
        proof {
            use_type_invariant(self);
            self.lemma_views();
        }
        let n = self.items.len();
        let ghost kv = k.kview();
        let mut i: usize = 0;
        while i < n
            invariant
                0 <= i <= n,
                n == self.items@.len(),
                self.twf(),
                kv == k.kview(),
                n == self.entries().len(),
                forall|j: int| 0 <= j < i ==> K::KV::clt(#[trigger] self.keys_spec()[j], kv),
            decreases n - i,
        {
            proof {
                self.lemma_views();
            }
            match self.items[i].0.kcmp(k) {
                KeyOrder::Less => {
                    proof {
                        assert(self.entries()[i as int].0 == self.items@[i as int].0.kview());
                        assert(K::KV::clt(self.keys_spec()[i as int], kv));
                    }
                    i += 1;
                },
                KeyOrder::Equal => {
                    proof {
                        assert(self.entries()[i as int].0 == self.items@[i as int].0.kview());
                        assert(self.keys_spec()[i as int] == k.kview());
                    }
                    return (true, i);
                },
                KeyOrder::Greater => {
                    proof {
                        assert(self.entries()[i as int].0 == self.items@[i as int].0.kview());
                        assert(K::KV::clt(kv, self.keys_spec()[i as int]));
                        assert forall|j: int| i <= j < n implies K::KV::clt(
                            kv,
                            #[trigger] self.keys_spec()[j],
                        ) by {
                            assert(self.entries()[j].0 == self.items@[j].0.kview());
                            if j > i {
                                K::KV::lemma_transitive(
                                    kv,
                                    self.keys_spec()[i as int],
                                    self.keys_spec()[j],
                                );
                            }
                        }
                    }
                    return (false, i);
                },
            }
        }
        (false, i)
    }

    /// Look up the coefficient stored for `k`, if any.
    pub fn get(&self, k: &K) -> (r: Option<&CalculatorComplex>)
        ensures
            match r {
                Some(v) => self.as_map().contains_key(k.kview()) && *v == self.as_map()[k.kview()],
                None => !self.as_map().contains_key(k.kview()),
            },
    {
        proof {
            use_type_invariant(self);
            self.lemma_sorted();
            self.lemma_dom(k.kview());
            self.lemma_views();
        }
        let (found, pos) = self.find(k);
        if found {
            proof {
                assert(self.entries()[pos as int].0 == k.kview());
                assert(self.as_map().contains_key(self.entries()[pos as int].0));
                assert(self.as_map()[self.entries()[pos as int].0] == self.entries()[
                    pos as int
                ].1);
                assert(self.items@[pos as int].1 == self.entries()[pos as int].1);
            }
            Some(&self.items[pos].1)
        } else {
            proof {
                if self.as_map().contains_key(k.kview()) {
                    let i = choose|i: int|
                        0 <= i < self.entries().len() && (#[trigger] self.entries()[i]).0
                            == k.kview();
                    assert(self.keys_spec()[i] == k.kview());
                    if i < pos as int {
                        assert(K::KV::clt(self.keys_spec()[i], k.kview()));
                    } else {
                        assert(K::KV::clt(k.kview(), self.keys_spec()[i]));
                    }
                    K::KV::lemma_irreflexive(k.kview());
                    assert(false);
                }
            }
            None
        }
    }

    /// Store `v` under `k`, returning the coefficient it replaces.
    pub fn insert(&mut self, k: K, v: CalculatorComplex) -> (prev: Option<CalculatorComplex>)
        ensures
            final(self).as_map() == old(self).as_map().insert(k.kview(), v),
            prev == if old(self).as_map().contains_key(k.kview()) {
                Some(old(self).as_map()[k.kview()])
            } else {
                None::<CalculatorComplex>
            },
    {
        proof {
            use_type_invariant(&*self);
            self.lemma_sorted();
            self.lemma_dom(k.kview());
            self.lemma_views();
        }
        let ghost pre = *self;
        let (found, pos) = self.find(&k);
        let mut items: Vec<(K, CalculatorComplex)> = Vec::new();
        std::mem::swap(&mut items, &mut self.items);
        let ghost s = items@;
        if found {
            let old_pair = items.remove(pos);
            items.insert(pos, (k, v));
            proof {
                assert(items@ =~= s.update(pos as int, (k, v)));
                lemma_sorted_distinct_keys::<K>(s);
                assert(pre.entries()[pos as int].0 == k.kview());
                lemma_entry_ops::<K>(s, pos as int, (k, v));
                lemma_moe_update(pre.entries(), pos as int, (k.kview(), v));
                assert(kseq_of(items@) =~= kseq_of(s).update(pos as int, k.kview()));
                assert(kseq_of(s).update(pos as int, k.kview()) =~= kseq_of(s));
                lemma_moe_value(pre.entries(), pos as int);
            }
            self.items = items;
            proof {
                assert(self.entries() =~= pre.entries().update(pos as int, (k.kview(), v)));
            }
            Some(old_pair.1)
        } else {
            items.insert(pos, (k, v));
            proof {
                assert(items@ =~= s.insert(pos as int, (k, v)));
                lemma_sorted_distinct_keys::<K>(s);
                assert forall|j: int| 0 <= j < pre.entries().len() implies (
                #[trigger] pre.entries()[j]).0 != k.kview() by {
                    assert(pre.keys_spec()[j] == pre.entries()[j].0);
                    if j < pos as int {
                        assert(K::KV::clt(pre.keys_spec()[j], k.kview()));
                        K::KV::lemma_irreflexive(k.kview());
                    } else {
                        assert(K::KV::clt(k.kview(), pre.keys_spec()[j]));
                        K::KV::lemma_irreflexive(k.kview());
                    }
                }
                if pre.as_map().contains_key(k.kview()) {
                    let i = choose|i: int|
                        0 <= i < pre.entries().len() && (#[trigger] pre.entries()[i]).0
                            == k.kview();
                    assert(false);
                }
                lemma_moe_insert_at(pre.entries(), pos as int, (k.kview(), v));
                // sortedness of the new storage
                assert forall|a: int, b: int|
                    0 <= a < b < items@.len() implies K::KV::clt(
                    #[trigger] kseq_of(items@)[a],
                    #[trigger] kseq_of(items@)[b],
                ) by {
                    assert(forall|m: int|
                        0 <= m < s.len() ==> #[trigger] kseq_of(s)[m] == pre.keys_spec()[m]);
                    if a < pos && b == pos as int {
                        assert(kseq_of(items@)[a] == kseq_of(s)[a]);
                        assert(K::KV::clt(pre.keys_spec()[a], k.kview()));
                    } else if a == pos as int && b > pos {
                        assert(kseq_of(items@)[b] == kseq_of(s)[b - 1]);
                        assert(K::KV::clt(k.kview(), pre.keys_spec()[b - 1]));
                    } else if a < pos && b > pos {
                        assert(kseq_of(items@)[a] == kseq_of(s)[a]);
                        assert(kseq_of(items@)[b] == kseq_of(s)[b - 1]);
                    } else if b < pos {
                        assert(kseq_of(items@)[a] == kseq_of(s)[a]);
                        assert(kseq_of(items@)[b] == kseq_of(s)[b]);
                    } else {
                        assert(kseq_of(items@)[a] == kseq_of(s)[a - 1]);
                        assert(kseq_of(items@)[b] == kseq_of(s)[b - 1]);
                    }
                }
            }
            self.items = items;
            proof {
                assert(self.entries() =~= pre.entries().insert(pos as int, (k.kview(), v)));
            }
            None
        }
    }

    /// Remove the entry stored for `k`, returning its coefficient.
    pub fn remove(&mut self, k: &K) -> (prev: Option<CalculatorComplex>)
        ensures
            final(self).as_map() == old(self).as_map().remove(k.kview()),
            prev == if old(self).as_map().contains_key(k.kview()) {
                Some(old(self).as_map()[k.kview()])
            } else {
                None::<CalculatorComplex>
            },
    {
        proof {
            use_type_invariant(&*self);
            self.lemma_sorted();
            self.lemma_dom(k.kview());
            self.lemma_views();
        }
        let ghost pre = *self;
        let (found, pos) = self.find(k);
        if !found {
            proof {
                if pre.as_map().contains_key(k.kview()) {
                    let i = choose|i: int|
                        0 <= i < pre.entries().len() && (#[trigger] pre.entries()[i]).0
                            == k.kview();
                    assert(pre.keys_spec()[i] == k.kview());
                    if i < pos as int {
                        assert(K::KV::clt(pre.keys_spec()[i], k.kview()));
                    } else {
                        assert(K::KV::clt(k.kview(), pre.keys_spec()[i]));
                    }
                    K::KV::lemma_irreflexive(k.kview());
                    assert(false);
                }
                assert(pre.as_map() =~= pre.as_map().remove(k.kview()));
            }
            return None;
        }
        let mut items: Vec<(K, CalculatorComplex)> = Vec::new();
        std::mem::swap(&mut items, &mut self.items);
        let ghost s = items@;
        let old_pair = items.remove(pos);
        proof {
            assert(items@ =~= s.remove(pos as int));
            assert(pre.entries()[pos as int].0 == k.kview());
            lemma_moe_remove(pre.entries(), pos as int);
            lemma_moe_value(pre.entries(), pos as int);
            assert forall|a: int, b: int|
                0 <= a < b < items@.len() implies K::KV::clt(
                #[trigger] kseq_of(items@)[a],
                #[trigger] kseq_of(items@)[b],
            ) by {
                assert(forall|m: int|
                    0 <= m < s.len() ==> #[trigger] kseq_of(s)[m] == pre.keys_spec()[m]);
                if b < pos {
                    assert(kseq_of(items@)[a] == kseq_of(s)[a]);
                    assert(kseq_of(items@)[b] == kseq_of(s)[b]);
                } else if a < pos {
                    assert(kseq_of(items@)[a] == kseq_of(s)[a]);
                    assert(kseq_of(items@)[b] == kseq_of(s)[b + 1]);
                } else {
                    assert(kseq_of(items@)[a] == kseq_of(s)[a + 1]);
                    assert(kseq_of(items@)[b] == kseq_of(s)[b + 1]);
                }
            }
        }
        self.items = items;
        proof {
            assert(self.entries() =~= pre.entries().remove(pos as int));
        }
        Some(old_pair.1)
    }

    /// Duplicate the container: same keys, same coefficients.
    pub fn dup(&self) -> (r: Self)
        ensures
            r.entries() == self.entries(),
    {
        proof {
            use_type_invariant(self);
            self.lemma_views();
        }
        let mut items: Vec<(K, CalculatorComplex)> = Vec::new();
        let n = self.items.len();
        for i in 0..n
            invariant
                n == self.items@.len(),
                items@.len() == i,
                forall|j: int|
                    0 <= j < i ==> (#[trigger] items@[j]).0.kview() == self.items@[j].0.kview()
                        && items@[j].1 == self.items@[j].1,
                self.twf(),
        {
            let p = &self.items[i];
            let k2 = p.0.kdup();
            let v2 = cc_clone(&p.1);
            items.push((k2, v2));
        }
        proof {
            assert(kseq_of(items@) =~= kseq_of(self.items@));
        }
        let r = TermList::<K> { items };
        proof {
            assert(r.entries() =~= self.entries());
        }
        r
    }
}

/// Updating one entry in place keeps the stored key views.
proof fn lemma_entry_ops<K: OperatorKey>(
    s: Seq<(K, CalculatorComplex)>,
    i: int,
    e: (K, CalculatorComplex),
)
    requires
        0 <= i < s.len(),
        e.0.kview() == s[i].0.kview(),
    ensures
        kseq_of(s.update(i, e)) =~= kseq_of(s),
{
}

} // verus!
