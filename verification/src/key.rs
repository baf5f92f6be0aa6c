//! Keys of operator containers.
//!
//! Every product type that can key a container exposes a mathematical view,
//! a well-formedness predicate on views, an executable three-way comparison
//! that decides the canonical order of `crate::order`, and a
//! view-preserving duplication.  Pairs of keys (the keys of Lindblad noise
//! operators) are keys again.

use crate::order::CanonOrd;
use crate::order::KeyOrder;
use crate::order::lex_lt;
use crate::order::lemma_lex_lt_from_point;
use vstd::prelude::*;

verus! {

/// A canonicalized product usable as an operator-container key.
pub trait OperatorKey: Sized {
    /// The mathematical view of the key.
    type KV: CanonOrd;

    spec fn kview(self) -> Self::KV;

    /// Three-way comparison in the canonical key order.
    fn kcmp(&self, other: &Self) -> (c: KeyOrder)
        ensures
            match c {
                KeyOrder::Less => <Self::KV as CanonOrd>::clt(self.kview(), other.kview()),
                KeyOrder::Equal => self.kview() == other.kview(),
                KeyOrder::Greater => <Self::KV as CanonOrd>::clt(other.kview(), self.kview()),
            },
    ;

    /// Duplicate the key; the duplicate has the same view.
    fn kdup(&self) -> (r: Self)
        ensures
            r.kview() == self.kview(),
    ;
}

impl<A: OperatorKey, B: OperatorKey> OperatorKey for (A, B) {
    type KV = (A::KV, B::KV);

    open spec fn kview(self) -> (A::KV, B::KV) {
        (self.0.kview(), self.1.kview())
    }

    fn kcmp(&self, other: &Self) -> (c: KeyOrder) {
        match self.0.kcmp(&other.0) {
            KeyOrder::Less => KeyOrder::Less,
            KeyOrder::Greater => KeyOrder::Greater,
            KeyOrder::Equal => self.1.kcmp(&other.1),
        }
    }

    fn kdup(&self) -> (r: Self) {
        (self.0.kdup(), self.1.kdup())
    }
}

/// The views of a sequence of keys, in order.
pub open spec fn views_of<K: OperatorKey>(s: Seq<K>) -> Seq<K::KV> {
    s.map_values(|k: K| k.kview())
}

/// Compare two index lists lexicographically.
pub(crate) fn cmp_index_vecs(a: &Vec<usize>, b: &Vec<usize>) -> (c: KeyOrder)
    ensures
        match c {
            KeyOrder::Less => lex_lt(a@, b@),
            KeyOrder::Equal => a@ == b@,
            KeyOrder::Greater => lex_lt(b@, a@),
        },
{
    let n = if a.len() < b.len() {
        a.len()
    } else {
        b.len()
    };
    for i in 0..n
        invariant
            n <= a@.len(),
            n <= b@.len(),
            n == a@.len() || n == b@.len(),
            forall|j: int| 0 <= j < i ==> a@[j] == b@[j],
    {
        if a[i] < b[i] {
            proof {
                lemma_lex_lt_from_point::<usize>(a@, b@, i as int);
            }
            return KeyOrder::Less;
        }
        if b[i] < a[i] {
            proof {
                lemma_lex_lt_from_point::<usize>(b@, a@, i as int);
            }
            return KeyOrder::Greater;
        }
    }
    if a.len() < b.len() {
        proof {
            lemma_lex_lt_from_point::<usize>(a@, b@, a@.len() as int);
        }
        return KeyOrder::Less;
    }
    if b.len() < a.len() {
        proof {
            lemma_lex_lt_from_point::<usize>(b@, a@, b@.len() as int);
        }
        return KeyOrder::Greater;
    }
    proof {
        assert(a@ =~= b@);
    }
    KeyOrder::Equal
}

/// Compare two sequences of keys lexicographically in the keys' own order.
pub(crate) fn cmp_key_vecs<K: OperatorKey>(a: &Vec<K>, b: &Vec<K>) -> (c: KeyOrder)
    ensures
        match c {
            KeyOrder::Less => lex_lt(views_of(a@), views_of(b@)),
            KeyOrder::Equal => views_of(a@) == views_of(b@),
            KeyOrder::Greater => lex_lt(views_of(b@), views_of(a@)),
        },
{
    let n = if a.len() < b.len() {
        a.len()
    } else {
        b.len()
    };
    for i in 0..n
        invariant
            n <= a@.len(),
            n <= b@.len(),
            n == a@.len() || n == b@.len(),
            forall|j: int| 0 <= j < i ==> #[trigger] a@[j].kview() == b@[j].kview(),
    {
        match a[i].kcmp(&b[i]) {
            KeyOrder::Less => {
                proof {
                    assert(forall|j: int|
                        0 <= j < i ==> views_of(a@)[j] == views_of(b@)[j]);
                    lemma_lex_lt_from_point::<K::KV>(views_of(a@), views_of(b@), i as int);
                }
                return KeyOrder::Less;
            },
            KeyOrder::Greater => {
                proof {
                    assert(forall|j: int|
                        0 <= j < i ==> views_of(a@)[j] == views_of(b@)[j]);
                    lemma_lex_lt_from_point::<K::KV>(views_of(b@), views_of(a@), i as int);
                }
                return KeyOrder::Greater;
            },
            KeyOrder::Equal => {},
        }
    }
    if a.len() < b.len() {
        proof {
            assert(forall|j: int| 0 <= j < n ==> views_of(a@)[j] == views_of(b@)[j]);
            lemma_lex_lt_from_point::<K::KV>(views_of(a@), views_of(b@), a@.len() as int);
        }
        return KeyOrder::Less;
    }
    if b.len() < a.len() {
        proof {
            assert(forall|j: int| 0 <= j < n ==> views_of(a@)[j] == views_of(b@)[j]);
            lemma_lex_lt_from_point::<K::KV>(views_of(b@), views_of(a@), b@.len() as int);
        }
        return KeyOrder::Greater;
    }
    proof {
        assert(views_of(a@) =~= views_of(b@));
    }
    KeyOrder::Equal
}

/// Duplicate a vector of keys, preserving the views.
pub(crate) fn dup_key_vec<K: OperatorKey>(v: &Vec<K>) -> (r: Vec<K>)
    ensures
        views_of(r@) == views_of(v@),
{
    let mut out: Vec<K> = Vec::new();
    let n = v.len();
    for i in 0..n
        invariant
            n == v@.len(),
            out@.len() == i,
            forall|j: int| 0 <= j < i ==> #[trigger] out@[j].kview() == v@[j].kview(),
    {
        out.push(v[i].kdup());
    }
    proof {
        assert(views_of(out@) =~= views_of(v@));
    }
    out
}

/// Duplicate a vector of indices.
pub(crate) fn dup_index_vec(v: &Vec<usize>) -> (r: Vec<usize>)
    ensures
        r@ == v@,
{
    let mut out: Vec<usize> = Vec::new();
    let n = v.len();
    for i in 0..n
        invariant
            n == v@.len(),
            out@.len() == i,
            forall|j: int| 0 <= j < i ==> out@[j] == v@[j],
    {
        out.push(v[i]);
    }
    proof {
        assert(out@ =~= v@);
    }
    out
}

} // verus!
