//! Spin operator products: Pauli strings, decoherence strings and
//! plus/minus strings.
//!
//! Each product is a sparse string of single-site symbols: a list of
//! `(site index, symbol code)` pairs with strictly increasing indices and at
//! most one symbol per site (the identity is implicit on unmentioned sites).
//! The three alphabets share the codes `0`, `1`, `2`:
//! `X`, `Y`, `Z` for Pauli products, `X`, `iY`, `Z` for decoherence
//! products, and `+`, `-`, `Z` for plus/minus products.

use crate::canon::strictly_increasing;
use crate::error::StruqtureError;
use crate::key::OperatorKey;
use crate::order::CanonOrd;
use crate::order::KeyOrder;
use crate::order::lex_lt;
use crate::order::lemma_lex_lt_from_point;
use vstd::prelude::*;

verus! {

/// Symbol code of `X` (or `+` in the plus/minus basis).
pub const CODE_X: usize = 0;

/// Symbol code of `Y` (`iY` in the decoherence basis, `-` in the plus/minus
/// basis).
pub const CODE_Y: usize = 1;

/// Symbol code of `Z` in every basis.
pub const CODE_Z: usize = 2;

/// The site indices of a site list, in order.
pub open spec fn site_indices(s: Seq<(usize, usize)>) -> Seq<usize> {
    s.map_values(|p: (usize, usize)| p.0)
}

/// Canonical form predicate for spin products: strictly increasing site
/// indices, each carrying one of the three symbol codes.
pub open spec fn sites_wf(s: Seq<(usize, usize)>) -> bool {
    &&& strictly_increasing(site_indices(s))
    &&& forall|k: int| 0 <= k < s.len() ==> (#[trigger] s[k]).1 < 3
}

/// Whether some site of `s` has index `idx`.
pub open spec fn site_has(s: Seq<(usize, usize)>, idx: usize) -> bool {
    exists|k: int| 0 <= k < s.len() && (#[trigger] s[k]).0 == idx
}

/// Set the symbol at site `idx` to `code`: insert in index order, replacing
/// any symbol already at that site.
pub open spec fn sym_insert(s: Seq<(usize, usize)>, idx: usize, code: usize) -> Seq<
    (usize, usize),
>
    decreases s.len(),
{
    if s.len() == 0 {
        seq![(idx, code)]
    } else if s[0].0 < idx {
        seq![s[0]] + sym_insert(s.drop_first(), idx, code)
    } else if s[0].0 == idx {
        seq![(idx, code)] + s.drop_first()
    } else {
        seq![(idx, code)] + s
    }
}

/// The sites mentioned by `sym_insert` are `idx` and the sites of `s`.
proof fn lemma_sym_insert_sites(s: Seq<(usize, usize)>, idx: usize, code: usize)
    ensures
        forall|k: int|
            0 <= k < sym_insert(s, idx, code).len() ==> (#[trigger] sym_insert(s, idx, code)[k]).0
                == idx || site_has(s, sym_insert(s, idx, code)[k].0),
        sym_insert(s, idx, code).len() <= s.len() + 1,
    decreases s.len(),
{
    let r = sym_insert(s, idx, code);
    if s.len() == 0 {
    } else if s[0].0 < idx {
        lemma_sym_insert_sites(s.drop_first(), idx, code);
        assert forall|k: int| 0 <= k < r.len() implies (#[trigger] r[k]).0 == idx || site_has(
            s,
            r[k].0,
        ) by {
            if k > 0 {
                let inner = sym_insert(s.drop_first(), idx, code);
                assert(r[k] == inner[k - 1]);
                if inner[k - 1].0 != idx {
                    let m = choose|m: int|
                        0 <= m < s.drop_first().len() && (#[trigger] s.drop_first()[m]).0 == inner[k - 1].0;
                    assert(s[m + 1].0 == inner[k - 1].0);
                }
            } else {
                assert(s[0].0 == r[0].0);
            }
        }
    } else if s[0].0 == idx {
        assert forall|k: int| 0 <= k < r.len() implies (#[trigger] r[k]).0 == idx || site_has(
            s,
            r[k].0,
        ) by {
            if k > 0 {
                assert(s[k].0 == r[k].0);
            }
        }
    } else {
        assert forall|k: int| 0 <= k < r.len() implies (#[trigger] r[k]).0 == idx || site_has(
            s,
            r[k].0,
        ) by {
            if k > 0 {
                assert(s[k - 1].0 == r[k].0);
            }
        }
    }
}

/// Setting a symbol keeps the canonical form.
pub proof fn lemma_sym_insert_wf(s: Seq<(usize, usize)>, idx: usize, code: usize)
    requires
        sites_wf(s),
        code < 3,
    ensures
        sites_wf(sym_insert(s, idx, code)),
    decreases s.len(),
{
    let r = sym_insert(s, idx, code);
    if s.len() == 0 {
        assert(site_indices(r).len() == 1);
    } else if s[0].0 < idx {
        assert(sites_wf(s.drop_first())) by {
            let t = s.drop_first();
            assert forall|i: int, j: int|
                0 <= i < j < t.len() implies site_indices(t)[i] < site_indices(t)[j] by {
                assert(t[i] == s[i + 1]);
                assert(t[j] == s[j + 1]);
                assert(site_indices(s)[i + 1] < site_indices(s)[j + 1]);
            }
            assert(forall|k: int| 0 <= k < t.len() ==> (#[trigger] t[k]) == s[k + 1]);
        }
        lemma_sym_insert_wf(s.drop_first(), idx, code);
        lemma_sym_insert_sites(s.drop_first(), idx, code);
        let inner = sym_insert(s.drop_first(), idx, code);
        assert forall|i: int, j: int|
            0 <= i < j < r.len() implies site_indices(r)[i] < site_indices(r)[j] by {
            if i == 0 {
                // r[j] is inner[j - 1]: its site is idx or a site of the tail,
                // both above s[0].0
                assert(r[j] == inner[j - 1]);
                if inner[j - 1].0 != idx {
                    let m = choose|m: int|
                        0 <= m < s.drop_first().len() && (#[trigger] s.drop_first()[m]).0 == inner[j - 1].0;
                    assert(s[m + 1].0 == inner[j - 1].0);
                    assert(site_indices(s)[0] < site_indices(s)[m + 1]);
                }
            } else {
                assert(r[i] == inner[i - 1] && r[j] == inner[j - 1]);
                assert(site_indices(inner)[i - 1] < site_indices(inner)[j - 1]);
            }
        }
        assert(forall|k: int| 0 <= k < r.len() ==> (#[trigger] r[k]).1 < 3) by {
            assert(forall|k: int| 1 <= k < r.len() ==> r[k] == inner[k - 1]);
        }
    } else if s[0].0 == idx {
        assert forall|i: int, j: int|
            0 <= i < j < r.len() implies site_indices(r)[i] < site_indices(r)[j] by {
            assert(site_indices(s)[i] < site_indices(s)[j]);
            if i > 0 {
                assert(r[i] == s[i]);
            }
            assert(r[j] == s[j]);
        }
        assert(forall|k: int| 1 <= k < r.len() ==> r[k] == s[k]);
    } else {
        assert forall|i: int, j: int|
            0 <= i < j < r.len() implies site_indices(r)[i] < site_indices(r)[j] by {
            if i > 0 {
                assert(r[i] == s[i - 1] && r[j] == s[j - 1]);
                assert(site_indices(s)[i - 1] < site_indices(s)[j - 1]);
            } else {
                assert(r[j] == s[j - 1]);
                assert(site_indices(s)[0] <= site_indices(s)[j - 1]);
            }
        }
        assert(forall|k: int| 1 <= k < r.len() ==> r[k] == s[k - 1]);
    }
}

/// Build a site list from raw `(index, code)` pairs, setting each in turn;
/// `None` when an index repeats.
pub open spec fn build_sites(items: Seq<(usize, usize)>) -> Option<Seq<(usize, usize)>>
    decreases items.len(),
{
    if items.len() == 0 {
        Some(Seq::<(usize, usize)>::empty())
    } else {
        match build_sites(items.drop_last()) {
            Option::None => Option::None,
            Option::Some(s) => {
                if site_has(s, items.last().0) || items.last().1 >= 3 {
                    Option::None
                } else {
                    Option::Some(sym_insert(s, items.last().0, items.last().1))
                }
            },
        }
    }
}

/// Once building fails on a prefix, it fails on the whole list.
proof fn lemma_build_sites_none(items: Seq<(usize, usize)>, m: int)
    requires
        0 <= m <= items.len(),
        build_sites(items.take(m)) is None,
    ensures
        build_sites(items) is None,
    decreases items.len() - m,
{
    if m == items.len() {
        assert(items.take(m) =~= items);
    } else {
        assert(items.take(m + 1).drop_last() =~= items.take(m));
        lemma_build_sites_none(items, m + 1);
    }
}

/// Build a canonical site list from raw `(index, code)` pairs; `None` when
/// an index repeats or a code is out of range.
fn build_sites_vec(items: &Vec<(usize, usize)>) -> (r: Option<Vec<(usize, usize)>>)
    ensures
        match r {
            Some(v) => build_sites(items@) == Some(v@) && sites_wf(v@),
            None => build_sites(items@) is None,
        },
{
    let mut acc: Vec<(usize, usize)> = Vec::new();
    let n = items.len();
    proof {
        assert(items@.take(0) =~= Seq::<(usize, usize)>::empty());
        assert(acc@ =~= Seq::<(usize, usize)>::empty());
    }
    for k in 0..n
        invariant
            n == items@.len(),
            build_sites(items@.take(k as int)) == Some(acc@),
            sites_wf(acc@),
    {
        let idx = items[k].0;
        let code = items[k].1;
        proof {
            assert(items@.take(k + 1).drop_last() =~= items@.take(k as int));
            assert(items@.take(k + 1).last() == items@[k as int]);
        }
        if code >= 3 || site_has_vec(&acc, idx) {
            proof {
                lemma_build_sites_none(items@, k + 1);
            }
            return None;
        }
        proof {
            lemma_sym_insert_wf(acc@, idx, code);
        }
        acc = site_insert_vec(&acc, idx, code);
    }
    proof {
        assert(items@.take(n as int) =~= items@);
    }
    Some(acc)
}

/// Insert `(idx, code)` into a canonical site list, replacing the symbol at
/// `idx` if one is there.
fn site_insert_vec(v: &Vec<(usize, usize)>, idx: usize, code: usize) -> (r: Vec<(usize, usize)>)
    ensures
        r@ == sym_insert(v@, idx, code),
{
    let mut out: Vec<(usize, usize)> = Vec::new();
    let n = v.len();
    let mut i: usize = 0;
    while i < n && v[i].0 < idx
        invariant
            n == v@.len(),
            0 <= i <= n,
            out@ == v@.take(i as int),
            forall|k: int| 0 <= k < i ==> (#[trigger] v@[k]).0 < idx,
        decreases n - i,
    {
        let p = v[i];
        out.push(p);
        proof {
            assert(out@ =~= v@.take(i + 1));
        }
        i += 1;
    }
    out.push((idx, code));
    let start = if i < n && v[i].0 == idx {
        i + 1
    } else {
        i
    };
    let mut j = start;
    while j < n
        invariant
            n == v@.len(),
            start <= j <= n,
            out@ == v@.take(i as int).push((idx, code)) + v@.subrange(start as int, j as int),
        decreases n - j,
    {
        let p = v[j];
        out.push(p);
        proof {
            assert(out@ =~= v@.take(i as int).push((idx, code)) + v@.subrange(
                start as int,
                j + 1,
            ));
        }
        j += 1;
    }
    proof {
        lemma_sym_insert_split(v@, idx, code, i as int);
    }
    out
}

/// Unfold `sym_insert` along a prefix of sites below `idx`.
proof fn lemma_sym_insert_split(s: Seq<(usize, usize)>, idx: usize, code: usize, i: int)
    requires
        0 <= i <= s.len(),
        forall|k: int| 0 <= k < i ==> (#[trigger] s[k]).0 < idx,
        i < s.len() ==> s[i].0 >= idx,
    ensures
        sym_insert(s, idx, code) == if i < s.len() && s[i].0 == idx {
            s.take(i).push((idx, code)) + s.subrange(i + 1, s.len() as int)
        } else {
            s.take(i).push((idx, code)) + s.subrange(i, s.len() as int)
        },
    decreases i,
{
    if i == 0 {
        if s.len() == 0 {
            assert(sym_insert(s, idx, code) =~= s.take(0).push((idx, code)) + s.subrange(
                0,
                s.len() as int,
            ));
        } else if s[0].0 == idx {
            assert(sym_insert(s, idx, code) =~= s.take(0).push((idx, code)) + s.subrange(
                1,
                s.len() as int,
            ));
        } else {
            assert(sym_insert(s, idx, code) =~= s.take(0).push((idx, code)) + s.subrange(
                0,
                s.len() as int,
            ));
        }
    } else {
        lemma_sym_insert_split(s.drop_first(), idx, code, i - 1);
        let t = s.drop_first();
        assert(s[0].0 < idx);
        assert(sym_insert(s, idx, code) == seq![s[0]] + sym_insert(t, idx, code));
        if i < s.len() && s[i].0 == idx {
            assert(t[i - 1].0 == idx);
            assert(sym_insert(s, idx, code) =~= s.take(i).push((idx, code)) + s.subrange(
                i + 1,
                s.len() as int,
            ));
        } else {
            assert(sym_insert(s, idx, code) =~= s.take(i).push((idx, code)) + s.subrange(
                i,
                s.len() as int,
            ));
        }
    }
}

/// Whether site `idx` carries a symbol.
fn site_has_vec(v: &Vec<(usize, usize)>, idx: usize) -> (r: bool)
    ensures
        r == site_has(v@, idx),
{
    let n = v.len();
    for k in 0..n
        invariant
            n == v@.len(),
            forall|m: int| 0 <= m < k ==> (#[trigger] v@[m]).0 != idx,
    {
        if v[k].0 == idx {
            return true;
        }
    }
    false
}

/// Check a raw site list for canonical form.
fn check_sites(v: &Vec<(usize, usize)>) -> (r: bool)
    ensures
        r == sites_wf(v@),
{
    let n = v.len();
    for k in 0..n
        invariant
            n == v@.len(),
            forall|m: int| 0 <= m < k ==> (#[trigger] v@[m]).1 < 3,
            forall|a: int, b: int|
                0 <= a < b < k ==> site_indices(v@)[a] < site_indices(v@)[b],
    {
        if v[k].1 >= 3 {
            return false;
        }
        if k > 0 && v[k - 1].0 >= v[k].0 {
            proof {
                assert(site_indices(v@)[k - 1] >= site_indices(v@)[k as int]);
            }
            return false;
        }
        proof {
            assert forall|a: int, b: int|
                0 <= a < b < k + 1 implies site_indices(v@)[a] < site_indices(v@)[b] by {
                if b == k as int && a < b - 1 {
                    assert(site_indices(v@)[a] < site_indices(v@)[b - 1]);
                    assert(v@[b - 1].0 < v@[b].0);
                }
            }
        }
    }
    true
}

pub(crate) fn dup_sites(v: &Vec<(usize, usize)>) -> (r: Vec<(usize, usize)>)
    ensures
        r@ == v@,
{
    let mut out: Vec<(usize, usize)> = Vec::new();
    let n = v.len();
    for k in 0..n
        invariant
            n == v@.len(),
            out@ == v@.take(k as int),
    {
        out.push(v[k]);
        proof {
            assert(out@ =~= v@.take(k + 1));
        }
    }
    proof {
        assert(v@.take(n as int) =~= v@);
    }
    out
}

/// Compare two canonical site lists lexicographically by `(index, code)`.
fn site_cmp(a: &Vec<(usize, usize)>, b: &Vec<(usize, usize)>) -> (c: KeyOrder)
    ensures
        match c {
            KeyOrder::Less => lex_lt(a@, b@),
            KeyOrder::Equal => a@ == b@,
            KeyOrder::Greater => lex_lt(b@, a@),
        },
{
    let n = if a.len() < b.len() {
        a.len()
    } else {
        b.len()
    };
    for i in 0..n
        invariant
            n <= a@.len(),
            n <= b@.len(),
            n == a@.len() || n == b@.len(),
            forall|j: int| 0 <= j < i ==> a@[j] == b@[j],
    {
        let x = a[i];
        let y = b[i];
        if x.0 < y.0 || (x.0 == y.0 && x.1 < y.1) {
            proof {
                lemma_lex_lt_from_point::<(usize, usize)>(a@, b@, i as int);
            }
            return KeyOrder::Less;
        }
        if y.0 < x.0 || (y.0 == x.0 && y.1 < x.1) {
            proof {
                lemma_lex_lt_from_point::<(usize, usize)>(b@, a@, i as int);
            }
            return KeyOrder::Greater;
        }
        proof {
            assert(a@[i as int] == b@[i as int]);
        }
    }
    if a.len() < b.len() {
        proof {
            lemma_lex_lt_from_point::<(usize, usize)>(a@, b@, a@.len() as int);
        }
        return KeyOrder::Less;
    }
    if b.len() < a.len() {
        proof {
            lemma_lex_lt_from_point::<(usize, usize)>(b@, a@, b@.len() as int);
        }
        return KeyOrder::Greater;
    }
    proof {
        assert(a@ =~= b@);
    }
    KeyOrder::Equal
}

/// One more than the largest site index of a canonical site list
/// (saturating), `0` for the identity.
pub open spec fn sites_bound(s: Seq<(usize, usize)>) -> usize {
    if s.len() == 0 {
        0usize
    } else if s.last().0 == usize::MAX {
        usize::MAX
    } else {
        (s.last().0 + 1) as usize
    }
}

fn sites_bound_vec(v: &Vec<(usize, usize)>) -> (r: usize)
    ensures
        r == sites_bound(v@),
{
    if v.len() == 0 {
        0
    } else {
        let x = v[v.len() - 1].0;
        if x == usize::MAX {
            usize::MAX
        } else {
            x + 1
        }
    }
}


/// The site list with raising and lowering symbols exchanged: the Hermitian
/// conjugate of a plus/minus string.
pub open spec fn pm_conjugate(s: Seq<(usize, usize)>) -> Seq<(usize, usize)> {
    s.map_values(
        |p: (usize, usize)|
            (
                p.0,
                if p.1 == CODE_X {
                    CODE_Y
                } else if p.1 == CODE_Y {
                    CODE_X
                } else {
                    CODE_Z
                },
            ),
    )
}

/// How many sites of a decoherence string carry the anti-Hermitian symbol
/// `iY`; its conjugate picks up one sign per such site.
pub open spec fn iy_count(s: Seq<(usize, usize)>) -> nat
    decreases s.len(),
{
    if s.len() == 0 {
        0
    } else {
        iy_count(s.drop_last()) + if s.last().1 == CODE_Y {
            1nat
        } else {
            0nat
        }
    }
}

/// A sparse string of Pauli symbols `X`, `Y`, `Z` over spin sites.
#[derive(Debug, PartialEq, Eq, PartialOrd, Ord, Hash)]
pub struct PauliProduct {
    items: Vec<(usize, usize)>,
}

impl Clone for PauliProduct {
    fn clone(&self) -> (r: Self)
        ensures
            r@ == self@,
    {
        proof {
            use_type_invariant(self);
        }
        PauliProduct { items: dup_sites(&self.items) }
    }
}

impl View for PauliProduct {
    type V = Seq<(usize, usize)>;

    closed spec fn view(&self) -> Seq<(usize, usize)> {
        self.items@
    }
}

impl PauliProduct {
    #[verifier::type_invariant]
    pub open spec fn canonical(self) -> bool {
        sites_wf(self@)
    }

    /// The identity: no site carries a symbol.
    pub fn new() -> (r: PauliProduct)
        ensures
            r@ == Seq::<(usize, usize)>::empty(),
    {
        let r = PauliProduct { items: Vec::new() };
        proof {
            assert(r@ =~= Seq::<(usize, usize)>::empty());
        }
        r
    }

    /// Set an `X` at site `i`.
    pub fn x(self, i: usize) -> (r: Self)
        ensures
            r@ == sym_insert(self@, i, CODE_X),
    {
        proof {
            use_type_invariant(&self);
            lemma_sym_insert_wf(self@, i, CODE_X);
        }
        PauliProduct { items: site_insert_vec(&self.items, i, CODE_X) }
    }

    /// Set a `Y` at site `i`.
    pub fn y(self, i: usize) -> (r: Self)
        ensures
            r@ == sym_insert(self@, i, CODE_Y),
    {
        proof {
            use_type_invariant(&self);
            lemma_sym_insert_wf(self@, i, CODE_Y);
        }
        PauliProduct { items: site_insert_vec(&self.items, i, CODE_Y) }
    }

    /// Set a `Z` at site `i`.
    pub fn z(self, i: usize) -> (r: Self)
        ensures
            r@ == sym_insert(self@, i, CODE_Z),
    {
        proof {
            use_type_invariant(&self);
            lemma_sym_insert_wf(self@, i, CODE_Z);
        }
        PauliProduct { items: site_insert_vec(&self.items, i, CODE_Z) }
    }

    /// Build a product from raw `(site, code)` pairs, one symbol per site.
    /// Fails with `StructuralIndexError` exactly when a site repeats or a
    /// code is out of range.
    pub fn from_items(items: Vec<(usize, usize)>) -> (r: Result<Self, StruqtureError>)
        ensures
            match build_sites(items@) {
                Some(s) => r matches Ok(p) && p@ == s,
                None => r === Err(StruqtureError::StructuralIndexError),
            },
    {
        match build_sites_vec(&items) {
            Some(v) => Ok(PauliProduct { items: v }),
            None => Err(StruqtureError::StructuralIndexError),
        }
    }

    /// Build a product from an already canonical site list.  Fails with
    /// `StructuralIndexError` exactly when the list is not canonical.
    pub fn from_sorted_items(items: Vec<(usize, usize)>) -> (r: Result<Self, StruqtureError>)
        ensures
            sites_wf(items@) ==> (r matches Ok(p) && p@ == items@),
            !sites_wf(items@) ==> r === Err(StruqtureError::StructuralIndexError),
    {
        if check_sites(&items) {
            Ok(PauliProduct { items })
        } else {
            Err(StruqtureError::StructuralIndexError)
        }
    }

    /// The `(site, code)` pairs, in increasing site order.
    pub fn items(&self) -> (r: &Vec<(usize, usize)>)
        ensures
            r@ == self@,
            sites_wf(r@),
    {
        proof {
            use_type_invariant(self);
        }
        &self.items
    }

    /// How many sites carry a symbol.
    pub fn len(&self) -> (r: usize)
        ensures
            r == self@.len(),
    {
        self.items.len()
    }

    /// One more than the largest site index mentioned (saturating).
    pub fn current_number_spins(&self) -> (r: usize)
        ensures
            r == sites_bound(self@),
    {
        sites_bound_vec(&self.items)
    }

    /// Hermitian conjugation: `X`, `Y` and `Z` are self-adjoint, so a Pauli
    /// string is its own conjugate.
    pub fn hermitian_conjugate(&self) -> (r: Self)
        ensures
            r@ == self@,
    {
        self.clone()
    }
}

impl OperatorKey for PauliProduct {
    type KV = Seq<(usize, usize)>;

    open spec fn kview(self) -> Seq<(usize, usize)> {
        self@
    }

    fn kcmp(&self, other: &Self) -> (c: KeyOrder) {
        let c = site_cmp(&self.items, &other.items);
        proof {
            assert(<Self::KV as CanonOrd>::clt(self@, other@) == lex_lt(self@, other@));
            assert(<Self::KV as CanonOrd>::clt(other@, self@) == lex_lt(other@, self@));
        }
        c
    }

    fn kdup(&self) -> (r: Self) {
        self.clone()
    }
}

/// A sparse string of decoherence symbols `X`, `iY`, `Z` over spin sites.
#[derive(Debug, PartialEq, Eq, PartialOrd, Ord, Hash)]
pub struct DecoherenceProduct {
    items: Vec<(usize, usize)>,
}

impl Clone for DecoherenceProduct {
    fn clone(&self) -> (r: Self)
        ensures
            r@ == self@,
    {
        proof {
            use_type_invariant(self);
        }
        DecoherenceProduct { items: dup_sites(&self.items) }
    }
}

impl View for DecoherenceProduct {
    type V = Seq<(usize, usize)>;

    closed spec fn view(&self) -> Seq<(usize, usize)> {
        self.items@
    }
}

impl DecoherenceProduct {
    #[verifier::type_invariant]
    pub open spec fn canonical(self) -> bool {
        sites_wf(self@)
    }

    /// The identity: no site carries a symbol.
    pub fn new() -> (r: DecoherenceProduct)
        ensures
            r@ == Seq::<(usize, usize)>::empty(),
    {
        let r = DecoherenceProduct { items: Vec::new() };
        proof {
            assert(r@ =~= Seq::<(usize, usize)>::empty());
        }
        r
    }

    /// Set an `X` at site `i`.
    pub fn x(self, i: usize) -> (r: Self)
        ensures
            r@ == sym_insert(self@, i, CODE_X),
    {
        proof {
            use_type_invariant(&self);
            lemma_sym_insert_wf(self@, i, CODE_X);
        }
        DecoherenceProduct { items: site_insert_vec(&self.items, i, CODE_X) }
    }

    /// Set an `iY` at site `i`.
    pub fn iy(self, i: usize) -> (r: Self)
        ensures
            r@ == sym_insert(self@, i, CODE_Y),
    {
        proof {
            use_type_invariant(&self);
            lemma_sym_insert_wf(self@, i, CODE_Y);
        }
        DecoherenceProduct { items: site_insert_vec(&self.items, i, CODE_Y) }
    }

    /// Set a `Z` at site `i`.
    pub fn z(self, i: usize) -> (r: Self)
        ensures
            r@ == sym_insert(self@, i, CODE_Z),
    {
        proof {
            use_type_invariant(&self);
            lemma_sym_insert_wf(self@, i, CODE_Z);
        }
        DecoherenceProduct { items: site_insert_vec(&self.items, i, CODE_Z) }
    }

    /// Build a product from raw `(site, code)` pairs, one symbol per site.
    /// Fails with `StructuralIndexError` exactly when a site repeats or a
    /// code is out of range.
    pub fn from_items(items: Vec<(usize, usize)>) -> (r: Result<Self, StruqtureError>)
        ensures
            match build_sites(items@) {
                Some(s) => r matches Ok(p) && p@ == s,
                None => r === Err(StruqtureError::StructuralIndexError),
            },
    {
        match build_sites_vec(&items) {
            Some(v) => Ok(DecoherenceProduct { items: v }),
            None => Err(StruqtureError::StructuralIndexError),
        }
    }

    /// Build a product from an already canonical site list.  Fails with
    /// `StructuralIndexError` exactly when the list is not canonical.
    pub fn from_sorted_items(items: Vec<(usize, usize)>) -> (r: Result<Self, StruqtureError>)
        ensures
            sites_wf(items@) ==> (r matches Ok(p) && p@ == items@),
            !sites_wf(items@) ==> r === Err(StruqtureError::StructuralIndexError),
    {
        if check_sites(&items) {
            Ok(DecoherenceProduct { items })
        } else {
            Err(StruqtureError::StructuralIndexError)
        }
    }

    /// The `(site, code)` pairs, in increasing site order.
    pub fn items(&self) -> (r: &Vec<(usize, usize)>)
        ensures
            r@ == self@,
            sites_wf(r@),
    {
        proof {
            use_type_invariant(self);
        }
        &self.items
    }

    /// How many sites carry a symbol.
    pub fn len(&self) -> (r: usize)
        ensures
            r == self@.len(),
    {
        self.items.len()
    }

    /// One more than the largest site index mentioned (saturating).
    pub fn current_number_spins(&self) -> (r: usize)
        ensures
            r == sites_bound(self@),
    {
        sites_bound_vec(&self.items)
    }

    /// Hermitian conjugation: `X` and `Z` are self-adjoint and `iY` is
    /// anti-Hermitian, so the string is unchanged and the sign is negated
    /// once per `iY`.
    pub fn hermitian_conjugate(&self) -> (r: (Self, i64))
        ensures
            r.0@ == self@,
            r.1 == if crate::canon::is_odd(iy_count(self@)) {
                -1int
            } else {
                1int
            },
    {
        let mut odd = false;
        let n = self.items.len();
        proof {
            use_type_invariant(self);
            assert(self@.take(0) =~= Seq::<(usize, usize)>::empty());
        }
        for k in 0..n
            invariant
                n == self@.len(),
                odd == crate::canon::is_odd(iy_count(self@.take(k as int))),
        {
            proof {
                assert(self@.take(k + 1).drop_last() =~= self@.take(k as int));
                assert(self@.take(k + 1).last() == self@[k as int]);
            }
            if self.items[k].1 == CODE_Y {
                odd = !odd;
            }
        }
        proof {
            assert(self@.take(n as int) =~= self@);
        }
        let sign: i64 = if odd {
            -1
        } else {
            1
        };
        (self.clone(), sign)
    }
}

impl OperatorKey for DecoherenceProduct {
    type KV = Seq<(usize, usize)>;

    open spec fn kview(self) -> Seq<(usize, usize)> {
        self@
    }

    fn kcmp(&self, other: &Self) -> (c: KeyOrder) {
        let c = site_cmp(&self.items, &other.items);
        proof {
            assert(<Self::KV as CanonOrd>::clt(self@, other@) == lex_lt(self@, other@));
            assert(<Self::KV as CanonOrd>::clt(other@, self@) == lex_lt(other@, self@));
        }
        c
    }

    fn kdup(&self) -> (r: Self) {
        self.clone()
    }
}

/// A sparse string of the symbols `+`, `-`, `Z` over spin sites: the
/// raising/lowering basis of single-spin operators.
#[derive(Debug, PartialEq, Eq, PartialOrd, Ord, Hash)]
pub struct PlusMinusProduct {
    items: Vec<(usize, usize)>,
}

impl Clone for PlusMinusProduct {
    fn clone(&self) -> (r: Self)
        ensures
            r@ == self@,
    {
        proof {
            use_type_invariant(self);
        }
        PlusMinusProduct { items: dup_sites(&self.items) }
    }
}

impl View for PlusMinusProduct {
    type V = Seq<(usize, usize)>;

    closed spec fn view(&self) -> Seq<(usize, usize)> {
        self.items@
    }
}

impl PlusMinusProduct {
    #[verifier::type_invariant]
    pub open spec fn canonical(self) -> bool {
        sites_wf(self@)
    }

    /// The identity: no site carries a symbol.
    pub fn new() -> (r: PlusMinusProduct)
        ensures
            r@ == Seq::<(usize, usize)>::empty(),
    {
        let r = PlusMinusProduct { items: Vec::new() };
        proof {
            assert(r@ =~= Seq::<(usize, usize)>::empty());
        }
        r
    }

    /// Set a `+` (raising) symbol at site `i`.
    pub fn plus(self, i: usize) -> (r: Self)
        ensures
            r@ == sym_insert(self@, i, CODE_X),
    {
        proof {
            use_type_invariant(&self);
            lemma_sym_insert_wf(self@, i, CODE_X);
        }
        PlusMinusProduct { items: site_insert_vec(&self.items, i, CODE_X) }
    }

    /// Set a `-` (lowering) symbol at site `i`.
    pub fn minus(self, i: usize) -> (r: Self)
        ensures
            r@ == sym_insert(self@, i, CODE_Y),
    {
        proof {
            use_type_invariant(&self);
            lemma_sym_insert_wf(self@, i, CODE_Y);
        }
        PlusMinusProduct { items: site_insert_vec(&self.items, i, CODE_Y) }
    }

    /// Set a `Z` at site `i`.
    pub fn z(self, i: usize) -> (r: Self)
        ensures
            r@ == sym_insert(self@, i, CODE_Z),
    {
        proof {
            use_type_invariant(&self);
            lemma_sym_insert_wf(self@, i, CODE_Z);
        }
        PlusMinusProduct { items: site_insert_vec(&self.items, i, CODE_Z) }
    }

    /// Build a product from raw `(site, code)` pairs, one symbol per site.
    /// Fails with `StructuralIndexError` exactly when a site repeats or a
    /// code is out of range.
    pub fn from_items(items: Vec<(usize, usize)>) -> (r: Result<Self, StruqtureError>)
        ensures
            match build_sites(items@) {
                Some(s) => r matches Ok(p) && p@ == s,
                None => r === Err(StruqtureError::StructuralIndexError),
            },
    {
        match build_sites_vec(&items) {
            Some(v) => Ok(PlusMinusProduct { items: v }),
            None => Err(StruqtureError::StructuralIndexError),
        }
    }

    /// Build a product from an already canonical site list.  Fails with
    /// `StructuralIndexError` exactly when the list is not canonical.
    pub fn from_sorted_items(items: Vec<(usize, usize)>) -> (r: Result<Self, StruqtureError>)
        ensures
            sites_wf(items@) ==> (r matches Ok(p) && p@ == items@),
            !sites_wf(items@) ==> r === Err(StruqtureError::StructuralIndexError),
    {
        if check_sites(&items) {
            Ok(PlusMinusProduct { items })
        } else {
            Err(StruqtureError::StructuralIndexError)
        }
    }

    /// The `(site, code)` pairs, in increasing site order.
    pub fn items(&self) -> (r: &Vec<(usize, usize)>)
        ensures
            r@ == self@,
            sites_wf(r@),
    {
        proof {
            use_type_invariant(self);
        }
        &self.items
    }

    /// How many sites carry a symbol.
    pub fn len(&self) -> (r: usize)
        ensures
            r == self@.len(),
    {
        self.items.len()
    }

    /// One more than the largest site index mentioned (saturating).
    pub fn current_number_spins(&self) -> (r: usize)
        ensures
            r == sites_bound(self@),
    {
        sites_bound_vec(&self.items)
    }

    /// Hermitian conjugation: raising and lowering symbols exchange and `Z`
    /// is self-adjoint; no sign arises.
    pub fn hermitian_conjugate(&self) -> (r: Self)
        ensures
            r@ == pm_conjugate(self@),
    {
        proof {
            use_type_invariant(self);
        }
        let mut items: Vec<(usize, usize)> = Vec::new();
        let n = self.items.len();
        for k in 0..n
            invariant
                n == self@.len(),
                sites_wf(self@),
                items@.len() == k,
                forall|m: int| 0 <= m < k ==> (#[trigger] items@[m]) == pm_conjugate(self@)[m],
        {
            let p = self.items[k];
            let code = if p.1 == CODE_X {
                CODE_Y
            } else if p.1 == CODE_Y {
                CODE_X
            } else {
                CODE_Z
            };
            items.push((p.0, code));
        }
        proof {
            assert(items@ =~= pm_conjugate(self@));
            assert forall|i: int, j: int|
                0 <= i < j < items@.len() implies site_indices(items@)[i] < site_indices(
                items@,
            )[j] by {
                assert(items@[i].0 == self@[i].0);
                assert(items@[j].0 == self@[j].0);
                assert(site_indices(self@)[i] < site_indices(self@)[j]);
            }
        }
        PlusMinusProduct { items }
    }
}

impl OperatorKey for PlusMinusProduct {
    type KV = Seq<(usize, usize)>;

    open spec fn kview(self) -> Seq<(usize, usize)> {
        self@
    }

    fn kcmp(&self, other: &Self) -> (c: KeyOrder) {
        let c = site_cmp(&self.items, &other.items);
        proof {
            assert(<Self::KV as CanonOrd>::clt(self@, other@) == lex_lt(self@, other@));
            assert(<Self::KV as CanonOrd>::clt(other@, self@) == lex_lt(other@, self@));
        }
        c
    }

    fn kdup(&self) -> (r: Self) {
        self.clone()
    }
}


/// The single-site Pauli multiplication table: the product of two symbols is
/// a symbol (or the identity, for equal symbols) times a power of `i`, the
/// returned quadrant: `X·Y = iZ`, `Y·X = -iZ`, `Y·Z = iX`, `Z·Y = -iX`,
/// `Z·X = iY`, `X·Z = -iY`, and every symbol squares to the identity.
pub open spec fn pauli_site_mul(a: usize, b: usize) -> (Option<usize>, nat) {
    if a == b {
        (Option::None, 0)
    } else if a == CODE_X && b == CODE_Y {
        (Option::Some(CODE_Z), 1)
    } else if a == CODE_Y && b == CODE_X {
        (Option::Some(CODE_Z), 3)
    } else if a == CODE_Y && b == CODE_Z {
        (Option::Some(CODE_X), 1)
    } else if a == CODE_Z && b == CODE_Y {
        (Option::Some(CODE_X), 3)
    } else if a == CODE_Z && b == CODE_X {
        (Option::Some(CODE_Y), 1)
    } else {
        (Option::Some(CODE_Y), 3)
    }
}

/// The product of two Pauli strings: site-wise merge, reducing equal sites
/// by the multiplication table; the phase is the accumulated power of `i`
/// modulo `4`.
pub open spec fn pauli_mul(x: Seq<(usize, usize)>, y: Seq<(usize, usize)>) -> (
    Seq<(usize, usize)>,
    nat,
)
    decreases x.len() + y.len(),
{
    if x.len() == 0 {
        (y, 0nat)
    } else if y.len() == 0 {
        (x, 0nat)
    } else if x[0].0 < y[0].0 {
        let r = pauli_mul(x.drop_first(), y);
        (seq![x[0]] + r.0, r.1)
    } else if y[0].0 < x[0].0 {
        let r = pauli_mul(x, y.drop_first());
        (seq![y[0]] + r.0, r.1)
    } else {
        let sq = pauli_site_mul(x[0].1, y[0].1);
        let r = pauli_mul(x.drop_first(), y.drop_first());
        match sq.0 {
            Option::None => (r.0, (sq.1 + r.1) % 4),
            Option::Some(c) => (seq![(x[0].0, c)] + r.0, (sq.1 + r.1) % 4),
        }
    }
}

/// The accumulated phase of a Pauli product is always a quadrant.
proof fn lemma_pauli_mul_phase(x: Seq<(usize, usize)>, y: Seq<(usize, usize)>)
    ensures
        pauli_mul(x, y).1 < 4,
    decreases x.len() + y.len(),
{
    if x.len() == 0 || y.len() == 0 {
    } else if x[0].0 < y[0].0 {
        lemma_pauli_mul_phase(x.drop_first(), y);
    } else if y[0].0 < x[0].0 {
        lemma_pauli_mul_phase(x, y.drop_first());
    } else {
        lemma_pauli_mul_phase(x.drop_first(), y.drop_first());
    }
}

fn pauli_site_mul_exec(a: usize, b: usize) -> (r: (Option<usize>, usize))
    requires
        a < 3,
        b < 3,
    ensures
        r.0 == pauli_site_mul(a, b).0,
        r.1 as nat == pauli_site_mul(a, b).1,
        r.1 < 4,
        r.0 matches Some(c) ==> c < 3,
{
    if a == b {
        (None, 0)
    } else if a == CODE_X && b == CODE_Y {
        (Some(CODE_Z), 1)
    } else if a == CODE_Y && b == CODE_X {
        (Some(CODE_Z), 3)
    } else if a == CODE_Y && b == CODE_Z {
        (Some(CODE_X), 1)
    } else if a == CODE_Z && b == CODE_Y {
        (Some(CODE_X), 3)
    } else if a == CODE_Z && b == CODE_X {
        (Some(CODE_Y), 1)
    } else {
        (Some(CODE_Y), 3)
    }
}

impl PauliProduct {
    /// Multiply two Pauli strings: sites merge in order and equal sites
    /// reduce by the single-site multiplication table, so the result is one
    /// canonical product together with the phase `i` to the returned power.
    pub fn multiply(a: &PauliProduct, b: &PauliProduct) -> (r: (PauliProduct, usize))
        ensures
            r.0@ == pauli_mul(a@, b@).0,
            r.1 as nat == pauli_mul(a@, b@).1,
            r.1 < 4,
    {
        proof {
            use_type_invariant(a);
            use_type_invariant(b);
        }
        let x = &a.items;
        let y = &b.items;
        let xn = x.len();
        let yn = y.len();
        let mut out: Vec<(usize, usize)> = Vec::new();
        let mut q: usize = 0;
        let mut i: usize = 0;
        let mut j: usize = 0;
        proof {
            assert(x@.skip(0) =~= x@);
            assert(y@.skip(0) =~= y@);
            assert(out@ + pauli_mul(x@, y@).0 =~= pauli_mul(x@, y@).0);
            lemma_pauli_mul_phase(x@, y@);
            vstd::arithmetic::div_mod::lemma_small_mod(pauli_mul(x@, y@).1, 4);
        }
        while i < xn || j < yn
            invariant
                i <= xn,
                j <= yn,
                xn == x@.len(),
                yn == y@.len(),
                sites_wf(x@),
                sites_wf(y@),
                sites_wf(out@),
                q < 4,
                out@.len() > 0 && i < xn ==> out@.last().0 < x@[i as int].0,
                out@.len() > 0 && j < yn ==> out@.last().0 < y@[j as int].0,
                pauli_mul(x@, y@).0 == out@ + pauli_mul(x@.skip(i as int), y@.skip(j as int)).0,
                pauli_mul(x@, y@).1 == (q + pauli_mul(x@.skip(i as int), y@.skip(j as int)).1)
                    % 4,
            decreases xn - i + yn - j,
        {
            let ghost xs = x@.skip(i as int);
            let ghost ys = y@.skip(j as int);
            proof {
                if i < xn {
                    assert(xs[0] == x@[i as int]);
                    assert(xs.drop_first() =~= x@.skip(i + 1));
                }
                if j < yn {
                    assert(ys[0] == y@[j as int]);
                    assert(ys.drop_first() =~= y@.skip(j + 1));
                }
            }
            if i < xn && (j >= yn || x[i].0 < y[j].0) {
                let e = x[i];
                proof {
                    lemma_push_sorted(out@, e, x@, y@, i as int, j as int);
                }
                out.push(e);
                proof {
                    assert(pauli_mul(x@, y@).0 =~= out@ + pauli_mul(
                        x@.skip(i + 1),
                        y@.skip(j as int),
                    ).0);
                    assert(out@.last() == e);
                    if i + 1 < xn {
                        assert(site_indices(x@)[i as int] < site_indices(x@)[i + 1]);
                    }
                }
                i += 1;
            } else if j < yn && (i >= xn || y[j].0 < x[i].0) {
                let e = y[j];
                proof {
                    lemma_push_sorted_y(out@, e, x@, y@, i as int, j as int);
                }
                out.push(e);
                proof {
                    assert(pauli_mul(x@, y@).0 =~= out@ + pauli_mul(
                        x@.skip(i as int),
                        y@.skip(j + 1),
                    ).0);
                    assert(out@.last() == e);
                    if j + 1 < yn {
                        assert(site_indices(y@)[j as int] < site_indices(y@)[j + 1]);
                    }
                }
                j += 1;
            } else {
                // equal sites: reduce by the table
                let site = x[i].0;
                let sq = pauli_site_mul_exec(x[i].1, y[j].1);
                proof {
                    let rq = pauli_mul(x@.skip(i + 1), y@.skip(j + 1)).1;
                    lemma_pauli_mul_phase(x@.skip(i + 1), y@.skip(j + 1));
                    // (q + (s + r) % 4) % 4 == ((q + s) % 4 + r) % 4 == (q + s + r) % 4
                    vstd::arithmetic::div_mod::lemma_add_mod_noop(
                        q as int,
                        (sq.1 as nat + rq) as int,
                        4,
                    );
                    vstd::arithmetic::div_mod::lemma_add_mod_noop(
                        (q + sq.1) as int,
                        rq as int,
                        4,
                    );
                    vstd::arithmetic::div_mod::lemma_mod_twice(q as int, 4);
                    vstd::arithmetic::div_mod::lemma_mod_twice(rq as int, 4);
                    vstd::arithmetic::div_mod::lemma_small_mod(q as nat, 4);
                    vstd::arithmetic::div_mod::lemma_small_mod(rq, 4);
                    assert((q + (sq.1 as nat + rq) % 4) % 4 == ((q + sq.1) % 4 + rq) % 4);
                }
                match sq.0 {
                    Some(c) => {
                        let e = (site, c);
                        proof {
                            lemma_push_sorted(out@, e, x@, y@, i as int, j as int);
                        }
                        out.push(e);
                        proof {
                            assert(pauli_mul(x@, y@).0 =~= out@ + pauli_mul(
                                x@.skip(i + 1),
                                y@.skip(j + 1),
                            ).0);
                            assert(out@.last() == e);
                            if i + 1 < xn {
                                assert(site_indices(x@)[i as int] < site_indices(x@)[i + 1]);
                            }
                            if j + 1 < yn {
                                assert(site_indices(y@)[j as int] < site_indices(y@)[j + 1]);
                            }
                        }
                    },
                    None => {
                        proof {
                            assert(pauli_mul(x@, y@).0 =~= out@ + pauli_mul(
                                x@.skip(i + 1),
                                y@.skip(j + 1),
                            ).0);
                            if i + 1 < xn {
                                assert(site_indices(x@)[i as int] < site_indices(x@)[i + 1]);
                            }
                            if j + 1 < yn {
                                assert(site_indices(y@)[j as int] < site_indices(y@)[j + 1]);
                            }
                        }
                    },
                }
                q = (q + sq.1) % 4;
                i += 1;
                j += 1;
            }
        }
        proof {
            assert(x@.skip(xn as int).len() == 0);
            assert(y@.skip(yn as int).len() == 0);
            assert(pauli_mul(x@.skip(xn as int), y@.skip(yn as int)).0 =~= Seq::<
                (usize, usize),
            >::empty());
            assert(pauli_mul(x@, y@).0 =~= out@);
        }
        (PauliProduct { items: out }, q)
    }
}

/// The complex phase `i` to the power `q`, as a coefficient: `1`, `i`, `-1`
/// or `-i`.
pub fn phase_from_quadrant(q: usize) -> (r: qoqo_calculator::CalculatorComplex)
    requires
        q < 4,
    ensures
        r == if q == 0 {
            crate::scalar::cc_new_of(1, 0)
        } else if q == 1 {
            crate::scalar::cc_new_of(0, 1)
        } else if q == 2 {
            crate::scalar::cc_new_of(-1, 0)
        } else {
            crate::scalar::cc_new_of(0, -1)
        },
{
    if q == 0 {
        crate::scalar::cc_new_int(1, 0)
    } else if q == 1 {
        crate::scalar::cc_new_int(0, 1)
    } else if q == 2 {
        crate::scalar::cc_new_int(-1, 0)
    } else {
        crate::scalar::cc_new_int(0, -1)
    }
}

/// Pushing the next merged site keeps the output canonical: it exceeds every
/// site already written.
proof fn lemma_push_sorted(
    out: Seq<(usize, usize)>,
    e: (usize, usize),
    x: Seq<(usize, usize)>,
    y: Seq<(usize, usize)>,
    i: int,
    j: int,
)
    requires
        sites_wf(out),
        e.1 < 3,
        out.len() > 0 && i < x.len() ==> out.last().0 < x[i].0,
        0 <= i < x.len(),
        0 <= j <= y.len(),
        e.0 == x[i].0,
    ensures
        sites_wf(out.push(e)),
{
    let r = out.push(e);
    assert forall|m: int, k: int|
        0 <= m < k < r.len() implies site_indices(r)[m] < site_indices(r)[k] by {
        if k == r.len() - 1 {
            assert(r[m] == out[m]);
            if m < out.len() - 1 {
                assert(site_indices(out)[m] < site_indices(out)[out.len() - 1]);
            }
            assert(out.last().0 < e.0);
        } else {
            assert(r[m] == out[m]);
            assert(r[k] == out[k]);
            assert(site_indices(out)[m] < site_indices(out)[k]);
        }
    }
    assert(forall|m: int| 0 <= m < out.len() ==> (#[trigger] r[m]) == out[m]);
}

proof fn lemma_push_sorted_y(
    out: Seq<(usize, usize)>,
    e: (usize, usize),
    x: Seq<(usize, usize)>,
    y: Seq<(usize, usize)>,
    i: int,
    j: int,
)
    requires
        sites_wf(out),
        e.1 < 3,
        out.len() > 0 && j < y.len() ==> out.last().0 < y[j].0,
        0 <= j < y.len(),
        0 <= i <= x.len(),
        e.0 == y[j].0,
    ensures
        sites_wf(out.push(e)),
{
    let r = out.push(e);
    assert forall|m: int, k: int|
        0 <= m < k < r.len() implies site_indices(r)[m] < site_indices(r)[k] by {
        if k == r.len() - 1 {
            assert(r[m] == out[m]);
            if m < out.len() - 1 {
                assert(site_indices(out)[m] < site_indices(out)[out.len() - 1]);
            }
            assert(out.last().0 < e.0);
        } else {
            assert(r[m] == out[m]);
            assert(r[k] == out[k]);
            assert(site_indices(out)[m] < site_indices(out)[k]);
        }
    }
    assert(forall|m: int| 0 <= m < out.len() ==> (#[trigger] r[m]) == out[m]);
}

} // verus!
