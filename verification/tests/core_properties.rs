//! Tests for the canonicalization algebra, the container semantics and the
//! statistics mappings on concrete values.

use qoqo_calculator::CalculatorComplex;
use struqture::boson_spin::BosonToSpin;
use struqture::bosons::BosonProduct;
use struqture::bosons::HermitianBosonProduct;
use struqture::error::StruqtureError;
use struqture::fermions::FermionProduct;
use struqture::mixed::MixedDecoherenceProduct;
use struqture::noise::MixedLindbladNoiseOperator;
use struqture::operators::PauliOperator;
use struqture::operators::PlusMinusLindbladNoiseOperator;
use struqture::spins::DecoherenceProduct;
use struqture::spins::PauliProduct;
use struqture::spins::PlusMinusProduct;

// Canonicalizing an already canonical fermion product returns it unchanged
// with sign +1, so canonicalizing twice is idempotent.
#[test]
fn fermion_canonicalize_idempotent() {
    let (p, sign) = FermionProduct::canonicalize(vec![1, 0, 2], vec![3]);
    assert_eq!(sign, -1);
    let (q, sign_again) = FermionProduct::canonicalize(
        p.creators().clone(),
        p.annihilators().clone(),
    );
    assert_eq!(sign_again, 1);
    assert_eq!(p, q);
    assert_eq!(p.creators(), &vec![0, 1, 2]);
}

// Transposing two adjacent distinct fermionic indices flips the sign and
// keeps the canonical product.
#[test]
fn fermion_anticommutation_sign() {
    let (p, sign) = FermionProduct::canonicalize(vec![1, 0], vec![]);
    assert_eq!(sign, -1);
    assert_eq!(p.creators(), &vec![0, 1]);
    let (q, sign_sorted) = FermionProduct::canonicalize(vec![0, 1], vec![]);
    assert_eq!(sign_sorted, 1);
    assert_eq!(p, q);
    // transposing in the annihilator list flips the sign too
    let (_, s1) = FermionProduct::canonicalize(vec![], vec![0, 2, 1]);
    let (_, s2) = FermionProduct::canonicalize(vec![], vec![0, 1, 2]);
    assert_eq!(s1, -s2);
}

// A repeated index within one fermionic list gives the zero term.
#[test]
fn fermion_repeated_index_is_zero() {
    let (p, sign) = FermionProduct::canonicalize(vec![0, 0], vec![]);
    assert_eq!(sign, 0);
    assert_eq!(p, FermionProduct::identity());
    let (_, sign) = FermionProduct::canonicalize(vec![1], vec![2, 2]);
    assert_eq!(sign, 0);
}

#[test]
fn fermion_new_rejects_unsorted() {
    assert_eq!(
        FermionProduct::new(vec![1, 0], vec![]),
        Err(StruqtureError::StructuralIndexError)
    );
    assert_eq!(
        FermionProduct::new(vec![0], vec![2, 2]),
        Err(StruqtureError::StructuralIndexError)
    );
    assert!(FermionProduct::new(vec![0, 1], vec![2]).is_ok());
}

// Boson canonicalization sorts without a sign and keeps repeated indices.
#[test]
fn boson_canonicalize_keeps_multiplicity() {
    let p = BosonProduct::canonicalize(vec![1, 0, 0], vec![2]);
    assert_eq!(p.creators(), &vec![0, 0, 1]);
    assert_eq!(p.annihilators(), &vec![2]);
    let q = BosonProduct::canonicalize(vec![0, 0, 1], vec![2]);
    assert_eq!(p, q);
}

#[test]
fn hermitian_boson_product_rejects_conjugate_representative() {
    assert!(HermitianBosonProduct::new(vec![], vec![0]).is_ok());
    assert!(HermitianBosonProduct::new(vec![0], vec![1]).is_ok());
    assert_eq!(
        HermitianBosonProduct::new(vec![1], vec![0]),
        Err(StruqtureError::StructuralIndexError)
    );
    assert_eq!(
        HermitianBosonProduct::new(vec![0], vec![]),
        Err(StruqtureError::StructuralIndexError)
    );
}

// `get` on an absent key returns the additive identity, never an error.
#[test]
fn get_absent_key_returns_zero() {
    let pp = PauliProduct::new().x(0);
    let so = PauliOperator::new();
    assert_eq!(so.get(&pp), CalculatorComplex::new(0.0, 0.0));
    let dp: MixedDecoherenceProduct = MixedDecoherenceProduct::new(
        vec![DecoherenceProduct::new().z(2)],
        vec![BosonProduct::new(vec![0], vec![3]).unwrap()],
        vec![FermionProduct::new(vec![0], vec![2]).unwrap()],
    )
    .unwrap();
    let mo = MixedLindbladNoiseOperator::new(1, 1, 1);
    assert_eq!(mo.get(&(dp.clone(), dp)), CalculatorComplex::from(0.0));
}

// `set` then `set` with value zero returns the previous value and removes
// the entry.
#[test]
fn set_then_set_zero_returns_previous() {
    let pp = PauliProduct::new().y(1);
    let mut so = PauliOperator::new();
    assert_eq!(so.set(pp.clone(), CalculatorComplex::from(0.7)), Ok(None));
    assert_eq!(
        so.set(pp.clone(), CalculatorComplex::from(0.0)),
        Ok(Some(CalculatorComplex::from(0.7)))
    );
    assert_eq!(so.len(), 0);
}

// Accumulating twice onto a fresh key equals one `set` of the sum.
#[test]
fn accumulate_twice_equals_set_of_sum() {
    let pp = PauliProduct::new().z(0);
    let mut accumulated = PauliOperator::new();
    accumulated
        .add_operator_product(pp.clone(), CalculatorComplex::from(0.25))
        .unwrap();
    accumulated
        .add_operator_product(pp.clone(), CalculatorComplex::from(0.5))
        .unwrap();
    let mut set_once = PauliOperator::new();
    set_once
        .set(
            pp.clone(),
            CalculatorComplex::from(0.25) + CalculatorComplex::from(0.5),
        )
        .unwrap();
    assert_eq!(accumulated, set_once);
}

// An accumulated sum of exactly zero stays as an explicit entry, while `set`
// with zero removes it: the stored length tells them apart.
#[test]
fn zero_sum_entry_is_kept_by_accumulation() {
    let pp = PauliProduct::new().z(0);
    let mut accumulated = PauliOperator::new();
    accumulated
        .add_operator_product(pp.clone(), CalculatorComplex::from(0.5))
        .unwrap();
    accumulated
        .add_operator_product(pp.clone(), CalculatorComplex::from(-0.5))
        .unwrap();
    assert_eq!(accumulated.len(), 1);
    assert_eq!(accumulated.get(&pp), CalculatorComplex::from(0.0));

    let mut overwritten = PauliOperator::new();
    overwritten
        .set(pp.clone(), CalculatorComplex::from(0.5))
        .unwrap();
    overwritten.set(pp.clone(), CalculatorComplex::from(0.0)).unwrap();
    assert_eq!(overwritten.len(), 0);
}

// Compact serialization round trip for an operator with entries.
#[test]
fn compact_round_trip_restores_operator() {
    let dp: MixedDecoherenceProduct = MixedDecoherenceProduct::new(
        vec![DecoherenceProduct::new().x(0).z(2)],
        vec![BosonProduct::new(vec![0, 0], vec![3]).unwrap()],
        vec![FermionProduct::new(vec![1, 4], vec![2]).unwrap()],
    )
    .unwrap();
    let dp2: MixedDecoherenceProduct = MixedDecoherenceProduct::new(
        vec![DecoherenceProduct::new().iy(1)],
        vec![BosonProduct::new(vec![], vec![]).unwrap()],
        vec![FermionProduct::new(vec![], vec![0]).unwrap()],
    )
    .unwrap();
    let mut mo = MixedLindbladNoiseOperator::new(1, 1, 1);
    mo.set((dp.clone(), dp2.clone()), CalculatorComplex::new(0.5, -1.5))
        .unwrap();
    mo.set((dp2.clone(), dp2), CalculatorComplex::new(-2.0, 0.25))
        .unwrap();
    let restored = MixedLindbladNoiseOperator::from_compact(&mo.to_compact()).unwrap();
    assert_eq!(restored, mo);
}

// A compact form with a non-canonical key is rejected.
#[test]
fn from_compact_rejects_bad_key() {
    let bad: struqture::serial::MixedNoiseCompact = (
        vec![(
            (vec![vec![(2_usize, 2_usize)]], vec![(vec![3], vec![0])], vec![]),
            (vec![vec![(2_usize, 2_usize)]], vec![(vec![0], vec![3])], vec![]),
            CalculatorComplex::from(1.0),
        )],
        1,
        1,
        0,
        ("MixedLindbladNoiseOperator".to_string(), (2, 0, 0), "2.0.0".to_string()),
    );
    // the boson slot of the left key decreases: (vec![3], vec![0]) is sorted,
    // so make it unsorted instead
    let mut bad = bad;
    bad.0[0].0 .1 = vec![(vec![3, 1], vec![0])];
    assert!(MixedLindbladNoiseOperator::from_compact(&bad).is_err());
}

// A compact form whose key does not fit the declared shape is rejected.
#[test]
fn from_compact_rejects_shape_mismatch() {
    let form: struqture::serial::MixedNoiseCompact = (
        vec![(
            (vec![vec![(0_usize, 0_usize)]], vec![], vec![]),
            (vec![vec![(0_usize, 0_usize)]], vec![], vec![]),
            CalculatorComplex::from(1.0),
        )],
        2,
        0,
        0,
        ("MixedLindbladNoiseOperator".to_string(), (2, 0, 0), "2.0.0".to_string()),
    );
    assert!(MixedLindbladNoiseOperator::from_compact(&form).is_err());
}

// Separating by spin counts: a map holding only two-site terms has nothing
// acting on exactly one site on each side.
#[test]
fn separate_two_site_terms() {
    let left = PlusMinusProduct::new().plus(0).minus(1);
    let right = PlusMinusProduct::new().z(0).plus(2);
    let mut mo = PlusMinusLindbladNoiseOperator::new();
    mo.add_operator_product((left.clone(), right.clone()), CalculatorComplex::from(0.5))
        .unwrap();
    let (separated, remainder) = mo.separate_into_n_terms(1, 1).unwrap();
    assert_eq!(separated, PlusMinusLindbladNoiseOperator::new());
    assert_eq!(remainder, mo);

    let (separated, remainder) = mo.separate_into_n_terms(2, 2).unwrap();
    assert_eq!(separated, mo);
    assert_eq!(remainder, PlusMinusLindbladNoiseOperator::new());
}

#[test]
fn separate_mixed_counts() {
    let one_site = PlusMinusProduct::new().plus(0);
    let two_site = PlusMinusProduct::new().plus(0).z(3);
    let mut mo = PlusMinusLindbladNoiseOperator::new();
    mo.add_operator_product((one_site.clone(), one_site.clone()), CalculatorComplex::from(1.0))
        .unwrap();
    mo.add_operator_product((two_site.clone(), two_site.clone()), CalculatorComplex::from(2.0))
        .unwrap();
    let (separated, remainder) = mo.separate_into_n_terms(1, 1).unwrap();
    assert_eq!(separated.len(), 1);
    assert_eq!(
        separated.get(&(one_site.clone(), one_site)),
        CalculatorComplex::from(1.0)
    );
    assert_eq!(remainder.len(), 1);
    assert_eq!(
        remainder.get(&(two_site.clone(), two_site)),
        CalculatorComplex::from(2.0)
    );
}

// The trait entry point behaves like the inherent mapping.
#[test]
fn boson_to_spin_trait_dispatch() {
    let bp = HermitianBosonProduct::new(vec![], vec![0]).unwrap();
    let via_trait = <HermitianBosonProduct as BosonToSpin>::boson_spin_mapping(&bp, 1).unwrap();
    let pp = PauliProduct::new().x(0);
    let mut expected = PauliOperator::new();
    expected
        .add_operator_product(pp, CalculatorComplex::new(1.0, 0.0))
        .unwrap();
    assert_eq!(via_trait, expected);
}

// Canonical renderings, including multi-digit indices.
#[test]
fn coded_strings() {
    let fp = FermionProduct::new(vec![10], vec![123]).unwrap();
    assert_eq!(fp.to_coded_string(), "c10a123");
    let bp = BosonProduct::new(vec![], vec![]).unwrap();
    assert_eq!(bp.to_coded_string(), "I");
    let dp = DecoherenceProduct::new().x(0).iy(1).z(25);
    assert_eq!(dp.to_coded_string(), "0X1iY25Z");
    let pp = PauliProduct::new().x(0).y(1).z(2);
    assert_eq!(pp.to_coded_string(), "0X1Y2Z");
    let pm = PlusMinusProduct::new().plus(0).minus(1).z(2);
    assert_eq!(pm.to_coded_string(), "0+1-2Z");
    let empty = PlusMinusProduct::new();
    assert_eq!(empty.to_coded_string(), "I");
}

// Builders replace the symbol already at a site and keep sites sorted.
#[test]
fn site_builders_replace_and_sort() {
    let dp = DecoherenceProduct::new().z(5).x(1).iy(5);
    assert_eq!(dp.items(), &vec![(1_usize, 0_usize), (5_usize, 1_usize)]);
    assert_eq!(dp.current_number_spins(), 6);
    assert_eq!(dp.len(), 2);
}

#[test]
fn from_items_rejects_duplicates() {
    assert!(PauliProduct::from_items(vec![(0, 0), (1, 2)]).is_ok());
    assert_eq!(
        PauliProduct::from_items(vec![(0, 0), (0, 2)]),
        Err(StruqtureError::StructuralIndexError)
    );
    assert_eq!(
        PlusMinusProduct::from_items(vec![(0, 7)]),
        Err(StruqtureError::StructuralIndexError)
    );
}

#[test]
fn current_number_modes_reaches_largest_index() {
    let fp = FermionProduct::new(vec![0], vec![2]).unwrap();
    assert_eq!(fp.current_number_modes(), 3);
    let bp = BosonProduct::new(vec![], vec![]).unwrap();
    assert_eq!(bp.current_number_modes(), 0);
    let hb = HermitianBosonProduct::new(vec![1], vec![4]).unwrap();
    assert_eq!(hb.current_number_modes(), 5);
}

#[test]
fn number_subsystem_reaches() {
    let dp: MixedDecoherenceProduct = MixedDecoherenceProduct::new(
        vec![DecoherenceProduct::new().z(2)],
        vec![BosonProduct::new(vec![0], vec![3]).unwrap()],
        vec![FermionProduct::new(vec![0], vec![2]).unwrap()],
    )
    .unwrap();
    let mut mo = MixedLindbladNoiseOperator::new(1, 1, 1);
    mo.set((dp.clone(), dp), CalculatorComplex::from(0.5))
        .unwrap();
    assert_eq!(mo.number_spins(), vec![3]);
    assert_eq!(mo.number_bosonic_modes(), vec![4]);
    assert_eq!(mo.number_fermionic_modes(), vec![3]);
}

// The mismatched-subsystem scenario: a key of a three-subsystem map is
// rejected by a map declared over (0, 1, 1) subsystems.
#[test]
fn mismatched_subsystem_shape_rejected() {
    let key: MixedDecoherenceProduct = MixedDecoherenceProduct::new(
        vec![DecoherenceProduct::new().x(0)],
        vec![BosonProduct::new(vec![0], vec![1]).unwrap()],
        vec![FermionProduct::new(vec![0], vec![1]).unwrap()],
    )
    .unwrap();
    let mut mo = MixedLindbladNoiseOperator::new(0, 1, 1);
    assert_eq!(
        mo.add_operator_product((key.clone(), key), CalculatorComplex::from(1.0)),
        Err(StruqtureError::MismatchedNumberSubsystems {
            target_number_spin_subsystems: 0,
            target_number_boson_subsystems: 1,
            target_number_fermion_subsystems: 1,
            actual_number_spin_subsystems: 1,
            actual_number_boson_subsystems: 1,
            actual_number_fermion_subsystems: 1,
        })
    );
    assert!(mo.is_empty());
}

// Readable-form round trip: rendering to string keys and parsing them back
// restores the operator.
#[test]
fn readable_round_trip_restores_operator() {
    let dp: MixedDecoherenceProduct = MixedDecoherenceProduct::new(
        vec![DecoherenceProduct::new().x(0).z(12)],
        vec![BosonProduct::new(vec![0, 0], vec![3]).unwrap()],
        vec![FermionProduct::new(vec![1, 4], vec![2]).unwrap()],
    )
    .unwrap();
    let dp2: MixedDecoherenceProduct = MixedDecoherenceProduct::new(
        vec![DecoherenceProduct::new().iy(1)],
        vec![BosonProduct::new(vec![], vec![]).unwrap()],
        vec![FermionProduct::new(vec![], vec![0]).unwrap()],
    )
    .unwrap();
    let mut mo = MixedLindbladNoiseOperator::new(1, 1, 1);
    mo.set((dp.clone(), dp2.clone()), CalculatorComplex::new(0.5, -1.5))
        .unwrap();
    mo.set((dp2.clone(), dp2), CalculatorComplex::new(-2.0, 0.25))
        .unwrap();
    let readable = mo.to_readable();
    let restored = MixedLindbladNoiseOperator::from_readable(&readable).unwrap();
    assert_eq!(restored, mo);
}

// A readable form with a malformed key string is rejected.
#[test]
fn from_readable_rejects_malformed_key() {
    let form: struqture::serial::MixedNoiseReadable = (
        vec![(
            "S2Q:".to_string(),
            "S2Z:".to_string(),
            CalculatorComplex::from(1.0),
        )],
        1,
        0,
        0,
        ("MixedLindbladNoiseOperator".to_string(), (2, 0, 0), "2.0.0".to_string()),
    );
    assert!(MixedLindbladNoiseOperator::from_readable(&form).is_err());
}

// Compact round trip for the plus/minus noise operator.
#[test]
fn plus_minus_compact_round_trip() {
    let left = PlusMinusProduct::new().plus(0).minus(7);
    let right = PlusMinusProduct::new().z(100);
    let mut mo = PlusMinusLindbladNoiseOperator::new();
    mo.add_operator_product((left, right), CalculatorComplex::new(0.25, 1.0))
        .unwrap();
    let compact = mo.to_compact();
    assert_eq!(compact.1 .0, "PlusMinusLindbladNoiseOperator");
    let restored = PlusMinusLindbladNoiseOperator::from_compact(&compact).unwrap();
    assert_eq!(restored, mo);
}

// Multiplication concatenates creator and annihilator lists and
// re-canonicalizes, with the fermionic sign rules.
#[test]
fn product_multiplication() {
    let f1 = FermionProduct::new(vec![1], vec![]).unwrap();
    let f2 = FermionProduct::new(vec![0], vec![2]).unwrap();
    let (prod, sign) = FermionProduct::multiply(&f1, &f2);
    assert_eq!(sign, -1);
    assert_eq!(prod.creators(), &vec![0, 1]);
    assert_eq!(prod.annihilators(), &vec![2]);

    // Pauli exclusion: a repeated creator gives the zero term
    let (_, sign) = FermionProduct::multiply(&f2, &f2);
    assert_eq!(sign, 0);

    let b1 = BosonProduct::new(vec![0], vec![2]).unwrap();
    let b2 = BosonProduct::new(vec![0], vec![1]).unwrap();
    let prod = BosonProduct::multiply(&b1, &b2);
    assert_eq!(prod.creators(), &vec![0, 0]);
    assert_eq!(prod.annihilators(), &vec![1, 2]);
}

// Hermitian conjugation swaps creators and annihilators (with the fermionic
// reversal sign), exchanges raising and lowering symbols, and negates once
// per anti-Hermitian decoherence symbol.
#[test]
fn product_conjugation() {
    let f = FermionProduct::new(vec![0, 1], vec![2]).unwrap();
    let (conj, sign) = f.hermitian_conjugate();
    assert_eq!(conj.creators(), &vec![2]);
    assert_eq!(conj.annihilators(), &vec![0, 1]);
    assert_eq!(sign, -1);

    let f = FermionProduct::new(vec![0], vec![1]).unwrap();
    let (conj, sign) = f.hermitian_conjugate();
    assert_eq!(conj, FermionProduct::new(vec![1], vec![0]).unwrap());
    assert_eq!(sign, 1);

    let b = BosonProduct::new(vec![0, 0], vec![3]).unwrap();
    let conj = b.hermitian_conjugate();
    assert_eq!(conj, BosonProduct::new(vec![3], vec![0, 0]).unwrap());

    let dp = DecoherenceProduct::new().x(0).iy(1);
    let (conj, sign) = dp.hermitian_conjugate();
    assert_eq!(conj, dp);
    assert_eq!(sign, -1);

    let pm = PlusMinusProduct::new().plus(0).minus(1).z(2);
    assert_eq!(
        pm.hermitian_conjugate(),
        PlusMinusProduct::new().minus(0).plus(1).z(2)
    );

    let pp = PauliProduct::new().x(0).y(1);
    assert_eq!(pp.hermitian_conjugate(), pp);
}

// A Hermitian boson product knows whether it is self-adjoint on its own.
#[test]
fn natural_hermitian_flag() {
    let number = HermitianBosonProduct::new(vec![0], vec![0]).unwrap();
    assert!(number.is_natural_hermitian());
    let ladder = HermitianBosonProduct::new(vec![], vec![0]).unwrap();
    assert!(!ladder.is_natural_hermitian());
}

// The Pauli multiplication table: equal symbols square to the identity and
// distinct symbols reduce to the third with a phase of plus or minus `i`.
#[test]
fn pauli_multiplication_table() {
    let x0 = PauliProduct::new().x(0);
    let y0 = PauliProduct::new().y(0);
    // X * Y = i Z
    let (prod, q) = PauliProduct::multiply(&x0, &y0);
    assert_eq!(prod, PauliProduct::new().z(0));
    assert_eq!(q, 1);
    assert_eq!(
        struqture::spins::phase_from_quadrant(q),
        CalculatorComplex::new(0.0, 1.0)
    );
    // Y * X = -i Z
    let (prod, q) = PauliProduct::multiply(&y0, &x0);
    assert_eq!(prod, PauliProduct::new().z(0));
    assert_eq!(q, 3);
    // X * X = identity
    let (prod, q) = PauliProduct::multiply(&x0, &x0);
    assert_eq!(prod, PauliProduct::new());
    assert_eq!(q, 0);
    // disjoint sites merge in order
    let a = PauliProduct::new().x(0).y(2);
    let b = PauliProduct::new().z(1);
    let (prod, q) = PauliProduct::multiply(&a, &b);
    assert_eq!(prod, PauliProduct::new().x(0).z(1).y(2));
    assert_eq!(q, 0);
    // phases multiply: (X0 Y1)(Y0 X1) = (iZ0)(-iZ1) = Z0 Z1
    let a = PauliProduct::new().x(0).y(1);
    let b = PauliProduct::new().y(0).x(1);
    let (prod, q) = PauliProduct::multiply(&a, &b);
    assert_eq!(prod, PauliProduct::new().z(0).z(1));
    assert_eq!(q, 0);
}
