//! Canonical total orders for product keys.
//!
//! Every operator container iterates in a canonical key order.  The order is
//! built compositionally: indices order as integers, tuples order
//! lexicographically component by component, and sequences order
//! lexicographically element by element.  `CanonOrd` packages a strict total
//! order together with proofs of its laws, so the container can rely on them
//! for any key shape.

use vstd::prelude::*;

verus! {

/// Result of a three-way comparison in the canonical key order.
pub enum KeyOrder {
    Less,
    Equal,
    Greater,
}

/// A strict total order on a (mathematical) value type.
pub trait CanonOrd: Sized {
    /// `a` comes strictly before `b` in the canonical order.
    spec fn clt(a: Self, b: Self) -> bool;

    proof fn lemma_irreflexive(a: Self)
        ensures
            !Self::clt(a, a),
    ;

    proof fn lemma_connected(a: Self, b: Self)
        ensures
            a == b || Self::clt(a, b) || Self::clt(b, a),
    ;

    proof fn lemma_asymmetric(a: Self, b: Self)
        requires
            Self::clt(a, b),
        ensures
            !Self::clt(b, a),
    ;

    proof fn lemma_transitive(a: Self, b: Self, c: Self)
        requires
            Self::clt(a, b),
            Self::clt(b, c),
        ensures
            Self::clt(a, c),
    ;
}

impl CanonOrd for usize {
    open spec fn clt(a: usize, b: usize) -> bool {
        a < b
    }

    proof fn lemma_irreflexive(a: usize) {
    }

    proof fn lemma_connected(a: usize, b: usize) {
    }

    proof fn lemma_asymmetric(a: usize, b: usize) {
    }

    proof fn lemma_transitive(a: usize, b: usize, c: usize) {
    }
}

impl<A: CanonOrd, B: CanonOrd> CanonOrd for (A, B) {
    open spec fn clt(a: (A, B), b: (A, B)) -> bool {
        A::clt(a.0, b.0) || (a.0 == b.0 && B::clt(a.1, b.1))
    }

    proof fn lemma_irreflexive(a: (A, B)) {
        A::lemma_irreflexive(a.0);
        B::lemma_irreflexive(a.1);
    }

    proof fn lemma_connected(a: (A, B), b: (A, B)) {
        A::lemma_connected(a.0, b.0);
        B::lemma_connected(a.1, b.1);
    }

    proof fn lemma_asymmetric(a: (A, B), b: (A, B)) {
        if A::clt(a.0, b.0) {
            A::lemma_asymmetric(a.0, b.0);
            A::lemma_irreflexive(a.0);
        } else {
            B::lemma_asymmetric(a.1, b.1);
        }
    }

    proof fn lemma_transitive(a: (A, B), b: (A, B), c: (A, B)) {
        if A::clt(a.0, b.0) && A::clt(b.0, c.0) {
            A::lemma_transitive(a.0, b.0, c.0);
        } else if A::clt(a.0, b.0) || A::clt(b.0, c.0) {
        } else {
            B::lemma_transitive(a.1, b.1, c.1);
        }
    }
}

impl<A: CanonOrd, B: CanonOrd, C: CanonOrd> CanonOrd for (A, B, C) {
    open spec fn clt(a: (A, B, C), b: (A, B, C)) -> bool {
        ||| A::clt(a.0, b.0)
        ||| (a.0 == b.0 && B::clt(a.1, b.1))
        ||| (a.0 == b.0 && a.1 == b.1 && C::clt(a.2, b.2))
    }

    proof fn lemma_irreflexive(a: (A, B, C)) {
        A::lemma_irreflexive(a.0);
        B::lemma_irreflexive(a.1);
        C::lemma_irreflexive(a.2);
    }

    proof fn lemma_connected(a: (A, B, C), b: (A, B, C)) {
        A::lemma_connected(a.0, b.0);
        B::lemma_connected(a.1, b.1);
        C::lemma_connected(a.2, b.2);
    }

    proof fn lemma_asymmetric(a: (A, B, C), b: (A, B, C)) {
        if A::clt(a.0, b.0) {
            A::lemma_asymmetric(a.0, b.0);
            A::lemma_irreflexive(a.0);
        } else if a.0 == b.0 && B::clt(a.1, b.1) {
            B::lemma_asymmetric(a.1, b.1);
            B::lemma_irreflexive(a.1);
        } else {
            C::lemma_asymmetric(a.2, b.2);
        }
    }

    proof fn lemma_transitive(a: (A, B, C), b: (A, B, C), c: (A, B, C)) {
        if A::clt(a.0, b.0) && A::clt(b.0, c.0) {
            A::lemma_transitive(a.0, b.0, c.0);
        } else if A::clt(a.0, b.0) || A::clt(b.0, c.0) {
        } else if B::clt(a.1, b.1) && B::clt(b.1, c.1) {
            B::lemma_transitive(a.1, b.1, c.1);
        } else if B::clt(a.1, b.1) || B::clt(b.1, c.1) {
        } else {
            C::lemma_transitive(a.2, b.2, c.2);
        }
    }
}

/// Strict lexicographic order on sequences, with element order `T::clt`.
/// A proper prefix comes before every longer sequence it prefixes.
pub open spec fn lex_lt<T: CanonOrd>(a: Seq<T>, b: Seq<T>) -> bool
    decreases a.len(),
{
    if b.len() == 0 {
        false
    } else if a.len() == 0 {
        true
    } else if T::clt(a[0], b[0]) {
        true
    } else if T::clt(b[0], a[0]) {
        false
    } else {
        lex_lt(a.drop_first(), b.drop_first())
    }
}

pub proof fn lemma_lex_irreflexive<T: CanonOrd>(a: Seq<T>)
    ensures
        !lex_lt(a, a),
    decreases a.len(),
{
    if a.len() > 0 {
        T::lemma_irreflexive(a[0]);
        lemma_lex_irreflexive(a.drop_first());
    }
}

pub proof fn lemma_lex_connected<T: CanonOrd>(a: Seq<T>, b: Seq<T>)
    ensures
        a == b || lex_lt(a, b) || lex_lt(b, a),
    decreases a.len(),
{
    if a.len() == 0 && b.len() == 0 {
        assert(a =~= b);
    } else if a.len() > 0 && b.len() > 0 {
        T::lemma_connected(a[0], b[0]);
        if !T::clt(a[0], b[0]) && !T::clt(b[0], a[0]) {
            lemma_lex_connected(a.drop_first(), b.drop_first());
            if a.drop_first() == b.drop_first() {
                assert(a.len() == b.len());
                assert forall|i: int| 0 <= i < a.len() implies a[i] == b[i] by {
                    if i > 0 {
                        assert(a[i] == a.drop_first()[i - 1]);
                        assert(b[i] == b.drop_first()[i - 1]);
                    }
                }
                assert(a =~= b);
            }
        }
    }
}

pub proof fn lemma_lex_asymmetric<T: CanonOrd>(a: Seq<T>, b: Seq<T>)
    requires
        lex_lt(a, b),
    ensures
        !lex_lt(b, a),
    decreases a.len(),
{
    if a.len() > 0 && b.len() > 0 {
        if T::clt(a[0], b[0]) {
            T::lemma_asymmetric(a[0], b[0]);
        } else if !T::clt(b[0], a[0]) {
            lemma_lex_asymmetric(a.drop_first(), b.drop_first());
        }
    }
}

pub proof fn lemma_lex_transitive<T: CanonOrd>(a: Seq<T>, b: Seq<T>, c: Seq<T>)
    requires
        lex_lt(a, b),
        lex_lt(b, c),
    ensures
        lex_lt(a, c),
    decreases a.len(),
{
    if a.len() == 0 {
        // c is longer than b's head requirement: lex_lt(b, c) forces c nonempty
    } else {
        // b and c are nonempty since lex_lt(a, b) and lex_lt(b, c) hold
        T::lemma_connected(a[0], b[0]);
        T::lemma_connected(b[0], c[0]);
        if T::clt(a[0], b[0]) {
            if T::clt(b[0], c[0]) {
                T::lemma_transitive(a[0], b[0], c[0]);
            } else {
                // b[0] == c[0]
                T::lemma_asymmetric(a[0], b[0]);
            }
        } else {
            // a[0] == b[0]
            if T::clt(b[0], c[0]) {
            } else {
                lemma_lex_transitive(a.drop_first(), b.drop_first(), c.drop_first());
            }
        }
    }
}

impl<T: CanonOrd> CanonOrd for Seq<T> {
    open spec fn clt(a: Seq<T>, b: Seq<T>) -> bool {
        lex_lt(a, b)
    }

    proof fn lemma_irreflexive(a: Seq<T>) {
        lemma_lex_irreflexive(a);
    }

    proof fn lemma_connected(a: Seq<T>, b: Seq<T>) {
        lemma_lex_connected(a, b);
    }

    proof fn lemma_asymmetric(a: Seq<T>, b: Seq<T>) {
        lemma_lex_asymmetric(a, b);
    }

    proof fn lemma_transitive(a: Seq<T>, b: Seq<T>, c: Seq<T>) {
        lemma_lex_transitive(a, b, c);
    }
}

/// If `a` and `b` agree up to position `i` and differ there in `T::clt`'s
/// favour (or `a` ends there while `b` goes on), then `a` comes first.
pub proof fn lemma_lex_lt_from_point<T: CanonOrd>(a: Seq<T>, b: Seq<T>, i: int)
    requires
        0 <= i <= a.len(),
        i <= b.len(),
        forall|j: int| 0 <= j < i ==> a[j] == b[j],
        (i < a.len() && i < b.len() && T::clt(a[i], b[i])) || (i == a.len() && i < b.len()),
    ensures
        lex_lt(a, b),
    decreases i,
{
    if i == 0 {
        if a.len() == 0 {
        } else {
            T::lemma_irreflexive(a[0]);
        }
    } else {
        T::lemma_irreflexive(a[0]);
        lemma_lex_lt_from_point(a.drop_first(), b.drop_first(), i - 1);
    }
}

} // verus!
