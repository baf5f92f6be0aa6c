//! Structural (compact) and textual (readable) serialization forms.
//!
//! The compact form of an operator is built of plain standard containers —
//! nested vectors, tuples and integers — with the coefficients carried as
//! they are, so any byte or text format can encode it without knowing the
//! operator types.  The readable form renders each key in its canonical
//! string form.  Both forms carry the version tag (`type_name`,
//! `min_version`, `version`) that downstream tooling uses; the tag is
//! exposed, not interpreted, here.

use crate::bosons::BosonProduct;
use crate::bosons::boson_wf;
use crate::error::StruqtureError;
use crate::fermions::FermionProduct;
use crate::fermions::fermion_wf;
use crate::key::OperatorKey;
use crate::key::dup_index_vec;
use crate::mixed::MixedDecoherenceProduct;
use crate::mixed::MixedView;
use crate::mixed::mixed_wf;
use crate::noise::MixedLindbladNoiseOperator;
use crate::noise::MixedPairView;
use crate::noise::key_fits;
use crate::mixed::mixed_shape;
use crate::parse::lemma_parse_mixed_render;
use crate::parse::parse_mixed_key;
use crate::parse::parse_mixed_view;
use crate::operators::map_add;
use crate::operators::map_after_adds;
use crate::scalar::cc_clone;
use crate::spins::DecoherenceProduct;
use crate::spins::PlusMinusProduct;
use crate::spins::dup_sites;
use crate::spins::sites_wf;
use crate::terms::distinct_keys;
use crate::terms::map_of_entries;
use crate::text::mixed_code;
use qoqo_calculator::CalculatorComplex;
use vstd::prelude::*;

verus! {

/// A spin slot of a compact key: the `(site, symbol code)` pairs.
pub type SiteList = Vec<(usize, usize)>;

/// A boson or fermion slot of a compact key: creator and annihilator modes.
pub type ModePair = (Vec<usize>, Vec<usize>);

/// The compact data of one mixed product: per-kind slot lists.
pub type MixedKeyData = (Vec<SiteList>, Vec<ModePair>, Vec<ModePair>);

/// One compact entry of a mixed noise operator: left key, right key,
/// coefficient.
pub type MixedNoiseItem = (MixedKeyData, MixedKeyData, CalculatorComplex);

/// The version tag of a serialized operator: type name, minimum supported
/// version, current version.
pub type SerialMeta = (String, (u64, u64, u64), String);

/// The compact form of a mixed noise operator: entries, the three subsystem
/// counts, and the version tag.
pub type MixedNoiseCompact = (Vec<MixedNoiseItem>, usize, usize, usize, SerialMeta);

/// One readable entry of a mixed noise operator: both keys rendered
/// canonically, and the coefficient.
pub type MixedNoiseReadableItem = (String, String, CalculatorComplex);

/// The readable form of a mixed noise operator.
pub type MixedNoiseReadable = (Vec<MixedNoiseReadableItem>, usize, usize, usize, SerialMeta);

pub open spec fn site_list_views(v: Seq<SiteList>) -> Seq<Seq<(usize, usize)>> {
    v.map_values(|x: SiteList| x@)
}

pub open spec fn mode_pair_views(v: Seq<ModePair>) -> Seq<(Seq<usize>, Seq<usize>)> {
    v.map_values(|p: ModePair| (p.0@, p.1@))
}

/// The mixed product view a compact key stands for.
pub open spec fn key_data_view(d: MixedKeyData) -> MixedView {
    (site_list_views(d.0@), mode_pair_views(d.1@), mode_pair_views(d.2@))
}

/// The entry views a compact form stands for.
pub open spec fn compact_entry_views(items: Seq<MixedNoiseItem>) -> Seq<
    (MixedPairView, CalculatorComplex),
> {
    items.map_values(
        |it: MixedNoiseItem| ((key_data_view(it.0), key_data_view(it.1)), it.2),
    )
}


/// Record that every slot of a reachable mixed product is canonical: slot
/// values always satisfy their type invariants.
fn observe_mixed_wf(p: &MixedDecoherenceProduct)
    ensures
        mixed_wf(p.kview()),
{
    let sp = p.spins();
    let n = sp.len();
    for i in 0..n
        invariant
            n == sp@.len(),
            crate::key::views_of(sp@) == p.kview().0,
            forall|j: int| 0 <= j < i ==> sites_wf(#[trigger] p.kview().0[j]),
    {
        let x = &sp[i];
        proof {
            use_type_invariant(x);
            assert(crate::key::views_of(sp@)[i as int] == sp@[i as int].kview());
        }
    }
    let bo = p.bosons();
    let nb = bo.len();
    for i in 0..nb
        invariant
            nb == bo@.len(),
            crate::key::views_of(bo@) == p.kview().1,
            forall|j: int| 0 <= j < i ==> boson_wf(#[trigger] p.kview().1[j]),
    {
        let x = &bo[i];
        proof {
            use_type_invariant(x);
            assert(crate::key::views_of(bo@)[i as int] == bo@[i as int].kview());
        }
    }
    let fe = p.fermions();
    let nf = fe.len();
    for i in 0..nf
        invariant
            nf == fe@.len(),
            crate::key::views_of(fe@) == p.kview().2,
            forall|j: int| 0 <= j < i ==> fermion_wf(#[trigger] p.kview().2[j]),
    {
        let x = &fe[i];
        proof {
            use_type_invariant(x);
            assert(crate::key::views_of(fe@)[i as int] == fe@[i as int].kview());
        }
    }
}

/// Copy the compact data out of a mixed product; the copy stands for exactly
/// the product's view, which is canonical in every slot.
fn encode_mixed(p: &MixedDecoherenceProduct) -> (r: MixedKeyData)
    ensures
        key_data_view(r) == p.kview(),
        mixed_wf(p.kview()),
{
    let sp = p.spins();
    let mut spins: Vec<SiteList> = Vec::new();
    let n = sp.len();
    for i in 0..n
        invariant
            n == sp@.len(),
            crate::key::views_of(sp@) == p.kview().0,
            spins@.len() == i,
            forall|j: int| 0 <= j < i ==> (#[trigger] spins@[j])@ == p.kview().0[j],
            forall|j: int| 0 <= j < i ==> sites_wf(#[trigger] p.kview().0[j]),
    {
        let s = &sp[i];
        proof {
            use_type_invariant(s);
            assert(crate::key::views_of(sp@)[i as int] == sp@[i as int].kview());
        }
        spins.push(dup_sites(s.items()));
    }
    let bo = p.bosons();
    let mut bosons: Vec<ModePair> = Vec::new();
    let nb = bo.len();
    for i in 0..nb
        invariant
            nb == bo@.len(),
            crate::key::views_of(bo@) == p.kview().1,
            bosons@.len() == i,
            forall|j: int|
                0 <= j < i ==> ((#[trigger] bosons@[j]).0@, bosons@[j].1@) == p.kview().1[j],
            forall|j: int| 0 <= j < i ==> boson_wf(#[trigger] p.kview().1[j]),
    {
        let b = &bo[i];
        proof {
            use_type_invariant(b);
            assert(crate::key::views_of(bo@)[i as int] == bo@[i as int].kview());
        }
        bosons.push((dup_index_vec(b.creators()), dup_index_vec(b.annihilators())));
    }
    let fe = p.fermions();
    let mut fermions: Vec<ModePair> = Vec::new();
    let nf = fe.len();
    for i in 0..nf
        invariant
            nf == fe@.len(),
            crate::key::views_of(fe@) == p.kview().2,
            fermions@.len() == i,
            forall|j: int|
                0 <= j < i ==> ((#[trigger] fermions@[j]).0@, fermions@[j].1@) == p.kview().2[j],
            forall|j: int| 0 <= j < i ==> fermion_wf(#[trigger] p.kview().2[j]),
    {
        let f = &fe[i];
        proof {
            use_type_invariant(f);
            assert(crate::key::views_of(fe@)[i as int] == fe@[i as int].kview());
        }
        fermions.push((dup_index_vec(f.creators()), dup_index_vec(f.annihilators())));
    }
    let r = (spins, bosons, fermions);
    proof {
        assert(site_list_views(r.0@) =~= p.kview().0);
        assert(mode_pair_views(r.1@) =~= p.kview().1);
        assert(mode_pair_views(r.2@) =~= p.kview().2);
        assert(key_data_view(r) =~= p.kview());
    }
    r
}

/// Rebuild a mixed product from compact data.  Succeeds exactly when every
/// slot is canonical; the result's view is the data itself.
fn decode_mixed(d: &MixedKeyData) -> (r: Result<MixedDecoherenceProduct, StruqtureError>)
    ensures
        mixed_wf(key_data_view(*d)) ==> (r matches Ok(p) && p.kview() == key_data_view(*d)),
        !mixed_wf(key_data_view(*d)) ==> r === Err(StruqtureError::StructuralIndexError),
{
    let mut spins: Vec<DecoherenceProduct> = Vec::new();
    let n = d.0.len();
    for i in 0..n
        invariant
            n == d.0@.len(),
            spins@.len() == i,
            forall|j: int| 0 <= j < i ==> (#[trigger] spins@[j]).kview() == key_data_view(*d).0[j],
            forall|j: int| 0 <= j < i ==> sites_wf(#[trigger] key_data_view(*d).0[j]),
    {
        match DecoherenceProduct::from_sorted_items(dup_sites(&d.0[i])) {
            Ok(p) => {
                spins.push(p);
            },
            Err(e) => {
                proof {
                    assert(!sites_wf(key_data_view(*d).0[i as int]));
                }
                return Err(StruqtureError::StructuralIndexError);
            },
        }
    }
    let mut bosons: Vec<BosonProduct> = Vec::new();
    let nb = d.1.len();
    for i in 0..nb
        invariant
            nb == d.1@.len(),
            bosons@.len() == i,
            forall|j: int|
                0 <= j < i ==> (#[trigger] bosons@[j]).kview() == key_data_view(*d).1[j],
            forall|j: int| 0 <= j < i ==> boson_wf(#[trigger] key_data_view(*d).1[j]),
    {
        match BosonProduct::new(dup_index_vec(&d.1[i].0), dup_index_vec(&d.1[i].1)) {
            Ok(p) => {
                bosons.push(p);
            },
            Err(e) => {
                proof {
                    assert(!boson_wf(key_data_view(*d).1[i as int]));
                }
                return Err(StruqtureError::StructuralIndexError);
            },
        }
    }
    let mut fermions: Vec<FermionProduct> = Vec::new();
    let nf = d.2.len();
    for i in 0..nf
        invariant
            nf == d.2@.len(),
            fermions@.len() == i,
            forall|j: int|
                0 <= j < i ==> (#[trigger] fermions@[j]).kview() == key_data_view(*d).2[j],
            forall|j: int| 0 <= j < i ==> fermion_wf(#[trigger] key_data_view(*d).2[j]),
    {
        match FermionProduct::new(dup_index_vec(&d.2[i].0), dup_index_vec(&d.2[i].1)) {
            Ok(p) => {
                fermions.push(p);
            },
            Err(e) => {
                proof {
                    assert(!fermion_wf(key_data_view(*d).2[i as int]));
                }
                return Err(StruqtureError::StructuralIndexError);
            },
        }
    }
    proof {
        assert(crate::key::views_of(spins@) =~= key_data_view(*d).0);
        assert(crate::key::views_of(bosons@) =~= key_data_view(*d).1);
        assert(crate::key::views_of(fermions@) =~= key_data_view(*d).2);
    }
    match MixedDecoherenceProduct::new(spins, bosons, fermions) {
        Ok(p) => Ok(p),
        Err(e) => Err(e),
    }
}

/// The version tag every serialized mixed noise operator carries.
fn mixed_noise_meta() -> (r: SerialMeta)
    ensures
        r.0@ == "MixedLindbladNoiseOperator"@,
        r.1 == (2u64, 0u64, 0u64),
        r.2@ == "2.0.0"@,
{
    let mut name = String::new();
    name.append("MixedLindbladNoiseOperator");
    let mut version = String::new();
    version.append("2.0.0");
    (name, (2, 0, 0), version)
}

impl MixedLindbladNoiseOperator {
    /// The compact structural serialization: every entry's keys as nested
    /// index lists, in canonical key order, with the subsystem counts and
    /// the version tag.
    pub fn to_compact(&self) -> (r: MixedNoiseCompact)
        ensures
            compact_entry_views(r.0@) == self.entries(),
            forall|i: int|
                0 <= i < r.0@.len() ==> mixed_wf(key_data_view((#[trigger] r.0@[i]).0))
                    && mixed_wf(key_data_view(r.0@[i].1)),
            (r.1 as int, r.2 as int, r.3 as int) == self.shape_spec(),
            r.4.0@ == "MixedLindbladNoiseOperator"@,
            r.4.1 == (2u64, 0u64, 0u64),
            r.4.2@ == "2.0.0"@,
    {
        let mut items: Vec<MixedNoiseItem> = Vec::new();
        let n = self.len();
        for i in 0..n
            invariant
                n == self.entries().len(),
                items@.len() == i,
                forall|j: int|
                    0 <= j < i ==> ((key_data_view((#[trigger] items@[j]).0), key_data_view(
                        items@[j].1,
                    )), items@[j].2) == self.entries()[j],
                forall|j: int|
                    0 <= j < i ==> mixed_wf(key_data_view((#[trigger] items@[j]).0)) && mixed_wf(
                        key_data_view(items@[j].1),
                    ),
        {
            let e = self.entry_at(i);
            let left = encode_mixed(&e.0.0);
            let right = encode_mixed(&e.0.1);
            let v = cc_clone(&e.1);
            items.push((left, right, v));
        }
        let shape = self.shape();
        let r = (items, shape.0, shape.1, shape.2, mixed_noise_meta());
        proof {
            assert(compact_entry_views(r.0@) =~= self.entries());
        }
        r
    }

    /// Rebuild an operator from its compact form: succeeds exactly when
    /// every key is canonical in every slot and fits the form's subsystem
    /// counts; the entries are accumulated in the order given.  The version
    /// tag is carried for downstream tooling and not interpreted here.
    pub fn from_compact(form: &MixedNoiseCompact) -> (r: Result<
        MixedLindbladNoiseOperator,
        StruqtureError,
    >)
        ensures
            (forall|j: int|
                0 <= j < form.0@.len() ==> wf_compact_item(#[trigger] form.0@[j], form.1 as int, form.2 as int, form.3 as int)) ==> (r
                matches Ok(m) && m.shape_spec() == (form.1 as int, form.2 as int, form.3 as int)
                && m.as_map() == map_after_adds(
                Map::<MixedPairView, CalculatorComplex>::empty(),
                compact_entry_views(form.0@),
            )),
            r matches Err(e) ==> exists|j: int|
                0 <= j < form.0@.len() && !wf_compact_item(
                    #[trigger] form.0@[j],
                    form.1 as int,
                    form.2 as int,
                    form.3 as int,
                ),
    {
        let mut acc = MixedLindbladNoiseOperator::new(form.1, form.2, form.3);
        let n = form.0.len();
        proof {
            assert(compact_entry_views(form.0@).take(0) =~= Seq::<
                (MixedPairView, CalculatorComplex),
            >::empty());
        }
        for i in 0..n
            invariant
                n == form.0@.len(),
                acc.shape_spec() == (form.1 as int, form.2 as int, form.3 as int),
                forall|j: int|
                    0 <= j < i ==> wf_compact_item(#[trigger] form.0@[j], form.1 as int, form.2 as int, form.3 as int),
                acc.as_map() == map_after_adds(
                    Map::<MixedPairView, CalculatorComplex>::empty(),
                    compact_entry_views(form.0@).take(i as int),
                ),
        {
            let item = &form.0[i];
            let ghost shape = (form.1 as int, form.2 as int, form.3 as int);
            let left = match decode_mixed(&item.0) {
                Ok(p) => p,
                Err(e) => {
                    proof {
                        assert(!wf_compact_item(form.0@[i as int], shape.0, shape.1, shape.2));
                    }
                    return Err(e);
                },
            };
            let right = match decode_mixed(&item.1) {
                Ok(p) => p,
                Err(e) => {
                    proof {
                        assert(!wf_compact_item(form.0@[i as int], shape.0, shape.1, shape.2));
                    }
                    return Err(e);
                },
            };
            let v = cc_clone(&item.2);
            match acc.add_operator_product((left, right), v) {
                Ok(()) => {},
                Err(e) => {
                    proof {
                        assert(!wf_compact_item(form.0@[i as int], shape.0, shape.1, shape.2));
                    }
                    return Err(e);
                },
            }
            proof {
                let es = compact_entry_views(form.0@);
                assert(es.take(i + 1).drop_last() =~= es.take(i as int));
                assert(es.take(i + 1).last() == es[i as int]);
            }
        }
        proof {
            assert(compact_entry_views(form.0@).take(n as int) =~= compact_entry_views(form.0@));
        }
        Ok(acc)
    }

    /// The readable serialization: every entry's keys in their canonical
    /// string rendering, in canonical key order, with the subsystem counts
    /// and the version tag.
    pub fn to_readable(&self) -> (r: MixedNoiseReadable)
        ensures
            r.0@.len() == self.entries().len(),
            forall|i: int|
                0 <= i < r.0@.len() ==> ((#[trigger] r.0@[i]).0@ == mixed_code(
                    self.entries()[i].0.0,
                ) && r.0@[i].1@ == mixed_code(self.entries()[i].0.1) && r.0@[i].2
                    == self.entries()[i].1),
            forall|i: int|
                0 <= i < r.0@.len() ==> mixed_wf((#[trigger] self.entries()[i]).0.0) && mixed_wf(
                    self.entries()[i].0.1,
                ),
            (r.1 as int, r.2 as int, r.3 as int) == self.shape_spec(),
            r.4.0@ == "MixedLindbladNoiseOperator"@,
            r.4.1 == (2u64, 0u64, 0u64),
            r.4.2@ == "2.0.0"@,
    {
        let mut items: Vec<MixedNoiseReadableItem> = Vec::new();
        let n = self.len();
        for i in 0..n
            invariant
                n == self.entries().len(),
                items@.len() == i,
                forall|j: int|
                    0 <= j < i ==> ((#[trigger] items@[j]).0@ == mixed_code(
                        self.entries()[j].0.0,
                    ) && items@[j].1@ == mixed_code(self.entries()[j].0.1) && items@[j].2
                        == self.entries()[j].1),
                forall|j: int|
                    0 <= j < i ==> mixed_wf((#[trigger] self.entries()[j]).0.0) && mixed_wf(
                        self.entries()[j].0.1,
                    ),
        {
            let e = self.entry_at(i);
            observe_mixed_wf(&e.0.0);
            observe_mixed_wf(&e.0.1);
            let left = e.0.0.to_coded_string();
            let right = e.0.1.to_coded_string();
            let v = cc_clone(&e.1);
            items.push((left, right, v));
        }
        let shape = self.shape();
        (items, shape.0, shape.1, shape.2, mixed_noise_meta())
    }

    /// The fixed per-kind subsystem counts, as plain numbers.
    pub fn shape(&self) -> (r: (usize, usize, usize))
        ensures
            (r.0 as int, r.1 as int, r.2 as int) == self.shape_spec(),
    {
        self.shape_parts()
    }
}

/// A compact entry is decodable into this shape: both keys canonical in
/// every slot and matching the subsystem counts.
pub open spec fn wf_compact_item(it: MixedNoiseItem, ns: int, nb: int, nf: int) -> bool {
    &&& mixed_wf(key_data_view(it.0))
    &&& mixed_wf(key_data_view(it.1))
    &&& key_fits((key_data_view(it.0), key_data_view(it.1)), ns, nb, nf)
}

/// Round trip: an operator rebuilt by accumulating its own serialized
/// entries — whose keys are pairwise distinct, being stored in strict
/// canonical order — carries exactly the coefficient map it started from, for the
/// compact and the readable form alike.
pub proof fn lemma_serial_round_trip<KV>(es: Seq<(KV, CalculatorComplex)>)
    requires
        distinct_keys(es),
    ensures
        map_after_adds(Map::<KV, CalculatorComplex>::empty(), es) == map_of_entries(es),
{
    crate::operators::lemma_adds_is_union(Map::<KV, CalculatorComplex>::empty(), es);
    assert(map_add(Map::<KV, CalculatorComplex>::empty(), map_of_entries(es)) =~= map_of_entries(
        es,
    ));
}


/// Whether one readable entry decodes: both key strings parse, to canonical
/// views of the given shape.
pub open spec fn readable_item_ok(it: MixedNoiseReadableItem, ns: int, nb: int, nf: int) -> bool {
    &&& parse_mixed_view(it.0@) matches Some(l) && mixed_wf(l) && mixed_shape(l) == (ns, nb, nf)
    &&& parse_mixed_view(it.1@) matches Some(rr) && mixed_wf(rr) && mixed_shape(rr) == (
        ns,
        nb,
        nf,
    )
}

/// The entry views a readable form stands for, where its key strings parse.
pub open spec fn readable_entry_views(items: Seq<MixedNoiseReadableItem>) -> Seq<
    (MixedPairView, CalculatorComplex),
> {
    items.map_values(
        |it: MixedNoiseReadableItem|
            (
                (parse_mixed_view(it.0@).unwrap(), parse_mixed_view(it.1@).unwrap()),
                it.2,
            ),
    )
}

impl MixedLindbladNoiseOperator {
    /// Rebuild an operator from its readable form: parse each key string,
    /// check that every slot is canonical and fits the form's subsystem
    /// counts, and accumulate the entries in the order given.
    pub fn from_readable(form: &MixedNoiseReadable) -> (r: Result<
        MixedLindbladNoiseOperator,
        StruqtureError,
    >)
        ensures
            (forall|j: int|
                0 <= j < form.0@.len() ==> readable_item_ok(
                    #[trigger] form.0@[j],
                    form.1 as int,
                    form.2 as int,
                    form.3 as int,
                )) ==> (r matches Ok(m) && m.shape_spec() == (
                form.1 as int,
                form.2 as int,
                form.3 as int,
            ) && m.as_map() == map_after_adds(
                Map::<MixedPairView, CalculatorComplex>::empty(),
                readable_entry_views(form.0@),
            )),
            r matches Err(e) ==> exists|j: int|
                0 <= j < form.0@.len() && !readable_item_ok(
                    #[trigger] form.0@[j],
                    form.1 as int,
                    form.2 as int,
                    form.3 as int,
                ),
    {
        let mut acc = MixedLindbladNoiseOperator::new(form.1, form.2, form.3);
        let n = form.0.len();
        proof {
            assert(readable_entry_views(form.0@).take(0) =~= Seq::<
                (MixedPairView, CalculatorComplex),
            >::empty());
        }
        for i in 0..n
            invariant
                n == form.0@.len(),
                acc.shape_spec() == (form.1 as int, form.2 as int, form.3 as int),
                forall|j: int|
                    0 <= j < i ==> readable_item_ok(
                        #[trigger] form.0@[j],
                        form.1 as int,
                        form.2 as int,
                        form.3 as int,
                    ),
                acc.as_map() == map_after_adds(
                    Map::<MixedPairView, CalculatorComplex>::empty(),
                    readable_entry_views(form.0@).take(i as int),
                ),
        {
            let item = &form.0[i];
            let ghost shape = (form.1 as int, form.2 as int, form.3 as int);
            let left_data = match parse_mixed_key(item.0.as_str()) {
                Some(d) => d,
                None => {
                    proof {
                        assert(!readable_item_ok(form.0@[i as int], shape.0, shape.1, shape.2));
                    }
                    return Err(StruqtureError::StructuralIndexError);
                },
            };
            let right_data = match parse_mixed_key(item.1.as_str()) {
                Some(d) => d,
                None => {
                    proof {
                        assert(!readable_item_ok(form.0@[i as int], shape.0, shape.1, shape.2));
                    }
                    return Err(StruqtureError::StructuralIndexError);
                },
            };
            let left = match decode_mixed(&left_data) {
                Ok(p) => p,
                Err(e) => {
                    proof {
                        assert(!readable_item_ok(form.0@[i as int], shape.0, shape.1, shape.2));
                    }
                    return Err(e);
                },
            };
            let right = match decode_mixed(&right_data) {
                Ok(p) => p,
                Err(e) => {
                    proof {
                        assert(!readable_item_ok(form.0@[i as int], shape.0, shape.1, shape.2));
                    }
                    return Err(e);
                },
            };
            let v = cc_clone(&item.2);
            match acc.add_operator_product((left, right), v) {
                Ok(()) => {},
                Err(e) => {
                    proof {
                        assert(!readable_item_ok(form.0@[i as int], shape.0, shape.1, shape.2));
                    }
                    return Err(e);
                },
            }
            proof {
                let es = readable_entry_views(form.0@);
                assert(es.take(i + 1).drop_last() =~= es.take(i as int));
                assert(es.take(i + 1).last() == es[i as int]);
            }
        }
        proof {
            assert(readable_entry_views(form.0@).take(n as int) =~= readable_entry_views(
                form.0@,
            ));
        }
        Ok(acc)
    }
}

/// Round trip of the readable form: every key of a noise operator renders to
/// a string that parses back to the same canonical view, and accumulating
/// the (pairwise distinct) entries rebuilds exactly the coefficient map — so
/// deserializing a serialization restores the operator.  (Every key a
/// container accepts has the container's shape: `set` and
/// `add_operator_product` reject the others.)
pub proof fn lemma_readable_round_trip(es: Seq<(MixedPairView, CalculatorComplex)>)
    requires
        distinct_keys(es),
        forall|j: int|
            0 <= j < es.len() ==> mixed_wf((#[trigger] es[j]).0.0) && mixed_wf(es[j].0.1),
    ensures
        forall|j: int|
            0 <= j < es.len() ==> parse_mixed_view(mixed_code((#[trigger] es[j]).0.0))
                == Option::Some(es[j].0.0) && parse_mixed_view(mixed_code(es[j].0.1))
                == Option::Some(es[j].0.1),
        map_after_adds(Map::<MixedPairView, CalculatorComplex>::empty(), es) == map_of_entries(
            es,
        ),
{
    assert forall|j: int|
        0 <= j < es.len() implies parse_mixed_view(mixed_code((#[trigger] es[j]).0.0))
        == Option::Some(es[j].0.0) && parse_mixed_view(mixed_code(es[j].0.1)) == Option::Some(
        es[j].0.1,
    ) by {
        lemma_parse_mixed_render(es[j].0.0);
        lemma_parse_mixed_render(es[j].0.1);
    }
    lemma_serial_round_trip(es);
}


/// One compact entry of a plus/minus noise operator: left key, right key,
/// coefficient.
pub type PlusMinusNoiseItem = (SiteList, SiteList, CalculatorComplex);

/// The compact form of a plus/minus noise operator: entries and the version
/// tag.
pub type PlusMinusNoiseCompact = (Vec<PlusMinusNoiseItem>, SerialMeta);

/// The entry views a plus/minus compact form stands for.
pub open spec fn pm_entry_views(items: Seq<PlusMinusNoiseItem>) -> Seq<
    ((Seq<(usize, usize)>, Seq<(usize, usize)>), CalculatorComplex),
> {
    items.map_values(|it: PlusMinusNoiseItem| ((it.0@, it.1@), it.2))
}

impl crate::operators::Operator<(PlusMinusProduct, PlusMinusProduct)> {
    /// The compact structural serialization: every entry's keys as
    /// `(site, code)` lists, in canonical key order, with the version tag.
    pub fn to_compact(&self) -> (r: PlusMinusNoiseCompact)
        ensures
            pm_entry_views(r.0@) == self.entries(),
            forall|i: int|
                0 <= i < r.0@.len() ==> sites_wf((#[trigger] r.0@[i]).0@) && sites_wf(r.0@[i].1@),
            r.1.0@ == "PlusMinusLindbladNoiseOperator"@,
            r.1.1 == (2u64, 0u64, 0u64),
            r.1.2@ == "2.0.0"@,
    {
        let mut items: Vec<PlusMinusNoiseItem> = Vec::new();
        let n = self.len();
        for i in 0..n
            invariant
                n == self.entries().len(),
                items@.len() == i,
                forall|j: int|
                    0 <= j < i ==> (((#[trigger] items@[j]).0@, items@[j].1@), items@[j].2)
                        == self.entries()[j],
                forall|j: int|
                    0 <= j < i ==> sites_wf((#[trigger] items@[j]).0@) && sites_wf(
                        items@[j].1@,
                    ),
        {
            let e = self.entry_at(i);
            proof {
                use_type_invariant(&e.0.0);
                use_type_invariant(&e.0.1);
            }
            let left = dup_sites(e.0.0.items());
            let right = dup_sites(e.0.1.items());
            let v = cc_clone(&e.1);
            items.push((left, right, v));
        }
        let mut name = String::new();
        name.append("PlusMinusLindbladNoiseOperator");
        let mut version = String::new();
        version.append("2.0.0");
        let r = (items, (name, (2u64, 0u64, 0u64), version));
        proof {
            assert(pm_entry_views(r.0@) =~= self.entries());
        }
        r
    }

    /// Rebuild an operator from its compact form: succeeds exactly when
    /// every key is a canonical site list; the entries are accumulated in
    /// the order given.  The version tag is carried, not interpreted.
    pub fn from_compact(form: &PlusMinusNoiseCompact) -> (r: Result<Self, StruqtureError>)
        ensures
            (forall|j: int|
                0 <= j < form.0@.len() ==> sites_wf((#[trigger] form.0@[j]).0@) && sites_wf(
                    form.0@[j].1@,
                )) ==> (r matches Ok(m) && m.as_map() == map_after_adds(
                Map::<(Seq<(usize, usize)>, Seq<(usize, usize)>), CalculatorComplex>::empty(),
                pm_entry_views(form.0@),
            )),
            !(forall|j: int|
                0 <= j < form.0@.len() ==> sites_wf((#[trigger] form.0@[j]).0@) && sites_wf(
                    form.0@[j].1@,
                )) ==> r === Err(StruqtureError::StructuralIndexError),
    {
        let mut acc = Self::new();
        let n = form.0.len();
        proof {
            assert(pm_entry_views(form.0@).take(0) =~= Seq::<
                ((Seq<(usize, usize)>, Seq<(usize, usize)>), CalculatorComplex),
            >::empty());
        }
        for i in 0..n
            invariant
                n == form.0@.len(),
                forall|j: int|
                    0 <= j < i ==> sites_wf((#[trigger] form.0@[j]).0@) && sites_wf(
                        form.0@[j].1@,
                    ),
                acc.as_map() == map_after_adds(
                    Map::<
                        (Seq<(usize, usize)>, Seq<(usize, usize)>),
                        CalculatorComplex,
                    >::empty(),
                    pm_entry_views(form.0@).take(i as int),
                ),
        {
            let item = &form.0[i];
            let left = match PlusMinusProduct::from_sorted_items(dup_sites(&item.0)) {
                Ok(p) => p,
                Err(e) => {
                    return Err(StruqtureError::StructuralIndexError);
                },
            };
            let right = match PlusMinusProduct::from_sorted_items(dup_sites(&item.1)) {
                Ok(p) => p,
                Err(e) => {
                    return Err(StruqtureError::StructuralIndexError);
                },
            };
            let v = cc_clone(&item.2);
            let _ = acc.add_operator_product((left, right), v);
            proof {
                let es = pm_entry_views(form.0@);
                assert(es.take(i + 1).drop_last() =~= es.take(i as int));
                assert(es.take(i + 1).last() == es[i as int]);
            }
        }
        proof {
            assert(pm_entry_views(form.0@).take(n as int) =~= pm_entry_views(form.0@));
        }
        Ok(acc)
    }
}

} // verus!
