//! Tests for the public API of `MixedLindbladNoiseOperator`.

use qoqo_calculator::CalculatorComplex;
use qoqo_calculator::CalculatorFloat;
use std::collections::BTreeMap;
use std::collections::HashMap;
use struqture::bosons::BosonProduct;
use struqture::error::StruqtureError;
use struqture::fermions::FermionProduct;
use struqture::mixed::MixedDecoherenceProduct;
use struqture::noise::MixedLindbladNoiseOperator;
use struqture::spins::DecoherenceProduct;

#[test]
fn empty_clone_options() {
    let pp_0: MixedDecoherenceProduct = MixedDecoherenceProduct::new(
        vec![DecoherenceProduct::new().x(0)],
        vec![BosonProduct::new(vec![0], vec![1]).unwrap()],
        vec![FermionProduct::new(vec![0], vec![2]).unwrap()],
    )
    .unwrap();
    let mut mo = MixedLindbladNoiseOperator::new(1, 1, 1);
    mo.set((pp_0.clone(), pp_0), CalculatorComplex::from(0.5))
        .unwrap();

    let empty: Option<usize> = None;
    let full: Option<usize> = Some(2);
    assert_eq!(mo.empty_clone(empty), MixedLindbladNoiseOperator::new(1, 1, 1));
    assert_eq!(
        mo.empty_clone(full),
        MixedLindbladNoiseOperator::with_capacity(1, 1, 1, 2)
    );
}

#[test]
fn internal_map_len() {
    let pp_2: MixedDecoherenceProduct = MixedDecoherenceProduct::new(
        vec![DecoherenceProduct::new().z(2)],
        vec![BosonProduct::new(vec![0], vec![3]).unwrap()],
        vec![FermionProduct::new(vec![0], vec![2]).unwrap()],
    )
    .unwrap();
    let mut mo = MixedLindbladNoiseOperator::new(1, 1, 1);
    mo.set((pp_2.clone(), pp_2), CalculatorComplex::from(0.5))
        .unwrap();
    assert_eq!(mo.len(), 1_usize);
}

#[test]
fn internal_map_keys() {
    let pp_0: MixedDecoherenceProduct = MixedDecoherenceProduct::new(
        vec![DecoherenceProduct::new().z(1)],
        vec![BosonProduct::new(vec![0], vec![3]).unwrap()],
        vec![FermionProduct::new(vec![0], vec![2]).unwrap()],
    )
    .unwrap();
    let mut mo = MixedLindbladNoiseOperator::new(1, 1, 1);
    let pp_0_vec: Vec<(
        (MixedDecoherenceProduct, MixedDecoherenceProduct),
        CalculatorComplex,
    )> = vec![((pp_0.clone(), pp_0.clone()), 0.3.into())];
    mo.extend_vec(pp_0_vec.iter().cloned().collect()).unwrap();

    let mut map: BTreeMap<(MixedDecoherenceProduct, MixedDecoherenceProduct), CalculatorComplex> =
        BTreeMap::new();
    map.insert((pp_0.clone(), pp_0), CalculatorComplex::from(0.3));

    // keys and values walk in canonical key order, matching the ordered map
    for (key_s, key_m) in mo.keys().iter().zip(map.keys()) {
        assert_eq!(key_s, key_m);
    }
    for (val_s, val_m) in mo.values().iter().zip(map.values()) {
        assert_eq!(val_s, val_m);
    }
    for ((key_s, val_s), (key_m, val_m)) in mo.keys().iter().zip(mo.values().iter()).zip(map.iter())
    {
        assert_eq!(key_s, key_m);
        assert_eq!(val_s, val_m);
    }
}

#[test]
fn internal_map_set_get_remove() {
    let pp_2: MixedDecoherenceProduct = MixedDecoherenceProduct::new(
        vec![DecoherenceProduct::new().z(2)],
        vec![BosonProduct::new(vec![0], vec![3]).unwrap()],
        vec![FermionProduct::new(vec![0], vec![2]).unwrap()],
    )
    .unwrap();
    let mut mo = MixedLindbladNoiseOperator::new(1, 1, 1);

    // Vacant
    assert_eq!(mo.set((pp_2.clone(), pp_2.clone()), 0.0.into()), Ok(None));
    mo.set((pp_2.clone(), pp_2.clone()), CalculatorComplex::from(0.5))
        .unwrap();
    assert_eq!(
        mo.get(&(pp_2.clone(), pp_2.clone())),
        CalculatorComplex::from(0.5)
    );
    assert_eq!(
        mo.set((pp_2.clone(), pp_2.clone()), 0.0.into()),
        Ok(Some(CalculatorComplex::new(0.5, 0.0)))
    );
    // remove
    mo.remove(&(pp_2.clone(), pp_2));
    assert_eq!(mo, MixedLindbladNoiseOperator::new(1, 1, 1));
}

#[test]
fn set_fail() {
    let pp_0: MixedDecoherenceProduct = MixedDecoherenceProduct::new(
        vec![DecoherenceProduct::new().x(0)],
        vec![BosonProduct::new(vec![0], vec![1]).unwrap()],
        vec![FermionProduct::new(vec![0], vec![2]).unwrap()],
    )
    .unwrap();
    let pp_2: MixedDecoherenceProduct = MixedDecoherenceProduct::new(
        vec![DecoherenceProduct::new().z(2)],
        vec![BosonProduct::new(vec![0], vec![3]).unwrap()],
        vec![FermionProduct::new(vec![0], vec![2]).unwrap()],
    )
    .unwrap();
    let mut mo = MixedLindbladNoiseOperator::new(0, 1, 1);
    assert_eq!(mo.number_spins(), Vec::<usize>::new());
    assert_eq!(mo.number_bosonic_modes(), vec![0_usize]);
    assert_eq!(mo.number_fermionic_modes(), vec![0_usize]);

    let err = mo.set((pp_0.clone(), pp_0), CalculatorComplex::from(0.5));
    assert_eq!(
        err,
        Err(StruqtureError::MismatchedNumberSubsystems {
            target_number_spin_subsystems: 0,
            target_number_boson_subsystems: 1,
            target_number_fermion_subsystems: 1,
            actual_number_spin_subsystems: 1,
            actual_number_boson_subsystems: 1,
            actual_number_fermion_subsystems: 1,
        })
    );

    let mut mo = MixedLindbladNoiseOperator::new(1, 0, 1);
    assert_eq!(mo.number_spins(), vec![0_usize]);
    assert_eq!(mo.number_bosonic_modes(), Vec::<usize>::new());
    assert_eq!(mo.number_fermionic_modes(), vec![0_usize]);

    let err = mo.set((pp_2.clone(), pp_2.clone()), CalculatorComplex::from(0.5));
    assert_eq!(
        err,
        Err(StruqtureError::MismatchedNumberSubsystems {
            target_number_spin_subsystems: 1,
            target_number_boson_subsystems: 0,
            target_number_fermion_subsystems: 1,
            actual_number_spin_subsystems: 1,
            actual_number_boson_subsystems: 1,
            actual_number_fermion_subsystems: 1,
        })
    );

    let mut mo = MixedLindbladNoiseOperator::new(1, 1, 0);
    assert_eq!(mo.number_spins(), vec![0_usize]);
    assert_eq!(mo.number_bosonic_modes(), vec![0_usize]);
    assert_eq!(mo.number_fermionic_modes(), Vec::<usize>::new());

    let err = mo.set((pp_2.clone(), pp_2), CalculatorComplex::from(0.5));
    assert_eq!(
        err,
        Err(StruqtureError::MismatchedNumberSubsystems {
            target_number_spin_subsystems: 1,
            target_number_boson_subsystems: 1,
            target_number_fermion_subsystems: 0,
            actual_number_spin_subsystems: 1,
            actual_number_boson_subsystems: 1,
            actual_number_fermion_subsystems: 1,
        })
    );
}

#[test]
fn internal_map_add_operator_product() {
    let pp_2: MixedDecoherenceProduct = MixedDecoherenceProduct::new(
        vec![DecoherenceProduct::new().z(2)],
        vec![BosonProduct::new(vec![0], vec![3]).unwrap()],
        vec![FermionProduct::new(vec![0], vec![2]).unwrap()],
    )
    .unwrap();
    let mut mo = MixedLindbladNoiseOperator::new(1, 1, 1);

    mo.add_operator_product((pp_2.clone(), pp_2.clone()), CalculatorComplex::from(0.5))
        .unwrap();
    assert_eq!(
        mo.get(&(pp_2.clone(), pp_2.clone())),
        CalculatorComplex::from(0.5)
    );
    mo.add_operator_product((pp_2.clone(), pp_2.clone()), CalculatorComplex::from(-0.5))
        .unwrap();
    assert_eq!(mo.get(&(pp_2.clone(), pp_2)), CalculatorComplex::from(0.0));
}

#[test]
fn fail_add_operator_product() {
    let pp_2: MixedDecoherenceProduct = MixedDecoherenceProduct::new(
        vec![DecoherenceProduct::new().z(2)],
        vec![BosonProduct::new(vec![0], vec![3]).unwrap()],
        vec![FermionProduct::new(vec![0], vec![2]).unwrap()],
    )
    .unwrap();

    let mut mo = MixedLindbladNoiseOperator::new(0, 1, 1);
    let err = mo.add_operator_product((pp_2.clone(), pp_2.clone()), CalculatorComplex::from(0.5));
    assert_eq!(
        err,
        Err(StruqtureError::MismatchedNumberSubsystems {
            target_number_spin_subsystems: 0,
            target_number_boson_subsystems: 1,
            target_number_fermion_subsystems: 1,
            actual_number_spin_subsystems: 1,
            actual_number_boson_subsystems: 1,
            actual_number_fermion_subsystems: 1,
        })
    );

    let mut mo = MixedLindbladNoiseOperator::new(1, 0, 1);
    let err = mo.add_operator_product((pp_2.clone(), pp_2.clone()), CalculatorComplex::from(0.5));
    assert_eq!(
        err,
        Err(StruqtureError::MismatchedNumberSubsystems {
            target_number_spin_subsystems: 1,
            target_number_boson_subsystems: 0,
            target_number_fermion_subsystems: 1,
            actual_number_spin_subsystems: 1,
            actual_number_boson_subsystems: 1,
            actual_number_fermion_subsystems: 1,
        })
    );

    let mut mo = MixedLindbladNoiseOperator::new(1, 1, 0);
    let err = mo.add_operator_product((pp_2.clone(), pp_2), CalculatorComplex::from(0.5));
    assert_eq!(
        err,
        Err(StruqtureError::MismatchedNumberSubsystems {
            target_number_spin_subsystems: 1,
            target_number_boson_subsystems: 1,
            target_number_fermion_subsystems: 0,
            actual_number_spin_subsystems: 1,
            actual_number_boson_subsystems: 1,
            actual_number_fermion_subsystems: 1,
        })
    );
}

#[test]
fn negative_mo() {
    let pp_0: MixedDecoherenceProduct = MixedDecoherenceProduct::new(
        vec![DecoherenceProduct::new().z(2)],
        vec![BosonProduct::new(vec![0], vec![3]).unwrap()],
        vec![FermionProduct::new(vec![0], vec![2]).unwrap()],
    )
    .unwrap();
    let mut mo_0 = MixedLindbladNoiseOperator::new(1, 1, 1);
    mo_0.add_operator_product((pp_0.clone(), pp_0.clone()), CalculatorComplex::from(1.0))
        .unwrap();
    let mut mo_0_minus = MixedLindbladNoiseOperator::new(1, 1, 1);
    mo_0_minus
        .add_operator_product((pp_0.clone(), pp_0), CalculatorComplex::from(-1.0))
        .unwrap();

    assert_eq!(mo_0.neg(), mo_0_minus);
}

#[test]
fn add_so_so() {
    let pp_0: MixedDecoherenceProduct = MixedDecoherenceProduct::new(
        vec![DecoherenceProduct::new().z(2)],
        vec![BosonProduct::new(vec![0], vec![3]).unwrap()],
        vec![FermionProduct::new(vec![0], vec![2]).unwrap()],
    )
    .unwrap();
    let pp_1: MixedDecoherenceProduct = MixedDecoherenceProduct::new(
        vec![DecoherenceProduct::new().x(1)],
        vec![BosonProduct::new(vec![1], vec![2]).unwrap()],
        vec![FermionProduct::new(vec![1], vec![3]).unwrap()],
    )
    .unwrap();
    let mut mo_0 = MixedLindbladNoiseOperator::new(1, 1, 1);
    mo_0.add_operator_product((pp_0.clone(), pp_0.clone()), CalculatorComplex::from(1.0))
        .unwrap();
    let mut mo_1 = MixedLindbladNoiseOperator::new(1, 1, 1);
    mo_1.add_operator_product((pp_1.clone(), pp_1.clone()), CalculatorComplex::from(-1.0))
        .unwrap();
    let mut mo_0_1 = MixedLindbladNoiseOperator::new(1, 1, 1);
    mo_0_1
        .add_operator_product((pp_0.clone(), pp_0), CalculatorComplex::from(1.0))
        .unwrap();
    mo_0_1
        .add_operator_product((pp_1.clone(), pp_1), CalculatorComplex::from(-1.0))
        .unwrap();

    assert_eq!(mo_0.add(&mo_1).unwrap(), mo_0_1);
}

#[test]
fn sub_so_so() {
    let pp_0: MixedDecoherenceProduct = MixedDecoherenceProduct::new(
        vec![DecoherenceProduct::new().z(2)],
        vec![BosonProduct::new(vec![0], vec![3]).unwrap()],
        vec![FermionProduct::new(vec![0], vec![2]).unwrap()],
    )
    .unwrap();
    let pp_1: MixedDecoherenceProduct = MixedDecoherenceProduct::new(
        vec![DecoherenceProduct::new().x(1)],
        vec![BosonProduct::new(vec![1], vec![2]).unwrap()],
        vec![FermionProduct::new(vec![1], vec![3]).unwrap()],
    )
    .unwrap();
    let mut mo_0 = MixedLindbladNoiseOperator::new(1, 1, 1);
    mo_0.add_operator_product((pp_0.clone(), pp_0.clone()), CalculatorComplex::from(1.0))
        .unwrap();
    let mut mo_1 = MixedLindbladNoiseOperator::new(1, 1, 1);
    mo_1.add_operator_product((pp_1.clone(), pp_1.clone()), CalculatorComplex::from(-1.0))
        .unwrap();
    let mut mo_0_1 = MixedLindbladNoiseOperator::new(1, 1, 1);
    mo_0_1
        .add_operator_product((pp_0.clone(), pp_0), CalculatorComplex::from(1.0))
        .unwrap();
    mo_0_1
        .add_operator_product((pp_1.clone(), pp_1), CalculatorComplex::from(1.0))
        .unwrap();

    assert_eq!(mo_0.sub(&mo_1).unwrap(), mo_0_1);
}

#[test]
fn mul_so_cf() {
    let pp_0: MixedDecoherenceProduct = MixedDecoherenceProduct::new(
        vec![DecoherenceProduct::new().z(2)],
        vec![BosonProduct::new(vec![0], vec![3]).unwrap()],
        vec![FermionProduct::new(vec![0], vec![2]).unwrap()],
    )
    .unwrap();
    let mut mo_0 = MixedLindbladNoiseOperator::new(1, 1, 1);
    mo_0.add_operator_product((pp_0.clone(), pp_0.clone()), CalculatorComplex::from(2.0))
        .unwrap();
    let mut mo_0_1 = MixedLindbladNoiseOperator::new(1, 1, 1);
    mo_0_1
        .add_operator_product((pp_0.clone(), pp_0), CalculatorComplex::from(6.0))
        .unwrap();

    assert_eq!(
        mo_0.scalar_mul(&CalculatorComplex::from(CalculatorFloat::from(3.0))),
        mo_0_1
    );
}

#[test]
fn mul_so_cc() {
    let pp_0: MixedDecoherenceProduct = MixedDecoherenceProduct::new(
        vec![DecoherenceProduct::new().z(2)],
        vec![BosonProduct::new(vec![0], vec![3]).unwrap()],
        vec![FermionProduct::new(vec![0], vec![2]).unwrap()],
    )
    .unwrap();
    let mut mo_0 = MixedLindbladNoiseOperator::new(1, 1, 1);
    mo_0.add_operator_product((pp_0.clone(), pp_0.clone()), CalculatorComplex::from(2.0))
        .unwrap();
    let mut mo_0_1 = MixedLindbladNoiseOperator::new(1, 1, 1);
    mo_0_1
        .add_operator_product((pp_0.clone(), pp_0), CalculatorComplex::from(6.0))
        .unwrap();

    assert_eq!(mo_0.scalar_mul(&CalculatorComplex::from(3.0)), mo_0_1);
}

#[test]
fn into_iter_from_iter_extend() {
    let pp_0: MixedDecoherenceProduct = MixedDecoherenceProduct::new(
        vec![DecoherenceProduct::new().z(2)],
        vec![BosonProduct::new(vec![0], vec![3]).unwrap()],
        vec![FermionProduct::new(vec![0], vec![2]).unwrap()],
    )
    .unwrap();
    let pp_1: MixedDecoherenceProduct = MixedDecoherenceProduct::new(
        vec![DecoherenceProduct::new().x(1)],
        vec![BosonProduct::new(vec![1], vec![2]).unwrap()],
        vec![FermionProduct::new(vec![1], vec![3]).unwrap()],
    )
    .unwrap();
    let mut mo_0 = MixedLindbladNoiseOperator::new(1, 1, 1);
    mo_0.add_operator_product((pp_0.clone(), pp_0.clone()), CalculatorComplex::from(2.0))
        .unwrap();

    let mo_entries: Vec<_> = mo_0
        .keys()
        .into_iter()
        .zip(mo_0.values().into_iter())
        .collect();
    assert_eq!(
        MixedLindbladNoiseOperator::from_vec(mo_entries.clone()).unwrap(),
        mo_0
    );
    assert_eq!(MixedLindbladNoiseOperator::from_vec(mo_entries).unwrap(), mo_0);

    let mut mapping: BTreeMap<
        (MixedDecoherenceProduct, MixedDecoherenceProduct),
        CalculatorComplex,
    > = BTreeMap::new();
    mapping.insert((pp_1.clone(), pp_1.clone()), CalculatorComplex::from(0.5));
    mo_0.extend_vec(mapping.into_iter().collect()).unwrap();

    let mut mo_0_1 = MixedLindbladNoiseOperator::new(1, 1, 1);
    let _ = mo_0_1.add_operator_product((pp_0.clone(), pp_0), CalculatorComplex::from(2.0));
    let _ = mo_0_1.add_operator_product((pp_1.clone(), pp_1), CalculatorComplex::from(0.5));

    assert_eq!(mo_0, mo_0_1);
}

#[test]
fn from_iterator() {
    let pp_0: MixedDecoherenceProduct = MixedDecoherenceProduct::new(
        vec![DecoherenceProduct::new().z(2)],
        vec![BosonProduct::new(vec![0], vec![3]).unwrap()],
        vec![FermionProduct::new(vec![0], vec![3]).unwrap()],
    )
    .unwrap();
    let pp_1: MixedDecoherenceProduct = MixedDecoherenceProduct::new(
        vec![DecoherenceProduct::new().x(1)],
        vec![BosonProduct::new(vec![1], vec![2]).unwrap()],
        vec![FermionProduct::new(vec![1], vec![3]).unwrap()],
    )
    .unwrap();

    // a list with two items
    let mut mo_0 = MixedLindbladNoiseOperator::new(1, 1, 1);
    mo_0.add_operator_product((pp_0.clone(), pp_0.clone()), CalculatorComplex::from(1.0))
        .unwrap();
    mo_0.add_operator_product((pp_1.clone(), pp_1.clone()), CalculatorComplex::from(2.0))
        .unwrap();
    let mut iterator: HashMap<
        (MixedDecoherenceProduct, MixedDecoherenceProduct),
        CalculatorComplex,
    > = HashMap::new();
    iterator.insert((pp_0.clone(), pp_0), 1.0.into());
    iterator.insert((pp_1.clone(), pp_1), 2.0.into());
    assert_eq!(
        MixedLindbladNoiseOperator::from_vec(
            iterator.iter().map(|(x, y)| (x.clone(), y.clone())).collect()
        )
        .unwrap(),
        mo_0
    );

    // an empty list
    let mo_0 = MixedLindbladNoiseOperator::new(0, 0, 0);
    let iterator: HashMap<(MixedDecoherenceProduct, MixedDecoherenceProduct), CalculatorComplex> =
        HashMap::new();
    assert_eq!(
        MixedLindbladNoiseOperator::from_vec(
            iterator.iter().map(|(x, y)| (x.clone(), y.clone())).collect()
        )
        .unwrap(),
        mo_0
    );
}

#[test]
fn default() {
    assert_eq!(
        MixedLindbladNoiseOperator::default(),
        MixedLindbladNoiseOperator::new(0, 0, 0)
    );
}

#[test]
fn debug() {
    let pp_0: MixedDecoherenceProduct = MixedDecoherenceProduct::new(
        vec![DecoherenceProduct::new().z(2)],
        vec![BosonProduct::new(vec![0], vec![3]).unwrap()],
        vec![FermionProduct::new(vec![0], vec![3]).unwrap()],
    )
    .unwrap();
    let mut mo = MixedLindbladNoiseOperator::new(1, 1, 1);
    mo.add_operator_product((pp_0.clone(), pp_0), CalculatorComplex::from(1.0))
        .unwrap();
    let rendered = format!("{:?}", mo);
    assert!(rendered.contains("MixedLindbladNoiseOperator"));
    assert!(rendered.contains("spins: [DecoherenceProduct { items: [(2, 2)] }]"));
    assert!(rendered.contains("bosons: [BosonProduct { creators: [0], annihilators: [3] }]"));
    assert!(rendered.contains("fermions: [FermionProduct { creators: [0], annihilators: [3] }]"));
    assert!(rendered.contains("CalculatorComplex { re: Float(1.0), im: Float(0.0) }"));
    assert!(rendered.contains("n_spins: 1, n_bosons: 1, n_fermions: 1"));
}

#[test]
fn display() {
    let pp_0: MixedDecoherenceProduct = MixedDecoherenceProduct::new(
        vec![DecoherenceProduct::new().z(2)],
        vec![BosonProduct::new(vec![0], vec![3]).unwrap()],
        vec![FermionProduct::new(vec![0], vec![3]).unwrap()],
    )
    .unwrap();
    let mut mo = MixedLindbladNoiseOperator::new(1, 1, 1);
    mo.add_operator_product((pp_0.clone(), pp_0), CalculatorComplex::from(1.0))
        .unwrap();
    assert_eq!(
        mo.to_coded_string(),
        format!(
            "MixedLindbladNoiseOperator{{\n(S2Z:Bc0a3:Fc0a3:, S2Z:Bc0a3:Fc0a3:): {},\n}}",
            CalculatorComplex::from(1.0)
        )
    );
}

#[test]
fn clone_partial_eq_partial_ord() {
    let pp_0: MixedDecoherenceProduct = MixedDecoherenceProduct::new(
        vec![DecoherenceProduct::new().z(2)],
        vec![BosonProduct::new(vec![0], vec![3]).unwrap()],
        vec![FermionProduct::new(vec![0], vec![3]).unwrap()],
    )
    .unwrap();
    let mut mo = MixedLindbladNoiseOperator::new(1, 1, 1);
    mo.add_operator_product((pp_0.clone(), pp_0.clone()), CalculatorComplex::from(1.0))
        .unwrap();

    // Clone
    assert_eq!(mo.clone(), mo);

    // PartialEq
    let mut mo_0 = MixedLindbladNoiseOperator::new(1, 1, 1);
    mo_0.set((pp_0.clone(), pp_0.clone()), CalculatorComplex::from(1.0))
        .unwrap();
    let mut mo_1 = MixedLindbladNoiseOperator::new(1, 1, 1);
    mo_1.set((pp_0.clone(), pp_0), CalculatorComplex::from(2.0))
        .unwrap();
    assert!(mo_0 == mo);
    assert!(mo == mo_0);
    assert!(mo_1 != mo);
    assert!(mo != mo_1);
}

#[test]
fn serde_json() {
    let pp: MixedDecoherenceProduct = MixedDecoherenceProduct::new(
        vec![DecoherenceProduct::new().z(2)],
        vec![BosonProduct::new(vec![0], vec![3]).unwrap()],
        vec![FermionProduct::new(vec![0], vec![2]).unwrap()],
    )
    .unwrap();
    let mut mo = MixedLindbladNoiseOperator::new(1, 1, 1);
    mo.set((pp.clone(), pp), CalculatorComplex::from(1.0))
        .unwrap();

    let serialized = serde_json::to_string(&mo.to_compact()).unwrap();
    let deserialized: struqture::serial::MixedNoiseCompact =
        serde_json::from_str(&serialized).unwrap();
    let restored = MixedLindbladNoiseOperator::from_compact(&deserialized).unwrap();

    assert_eq!(mo, restored);
}

#[test]
fn serde_readable() {
    let pp: MixedDecoherenceProduct = MixedDecoherenceProduct::new(
        vec![DecoherenceProduct::new().z(2)],
        vec![BosonProduct::new(vec![0], vec![3]).unwrap()],
        vec![FermionProduct::new(vec![0], vec![2]).unwrap()],
    )
    .unwrap();
    let mut mo = MixedLindbladNoiseOperator::new(1, 1, 1);
    mo.set((pp.clone(), pp), CalculatorComplex::from(0.5))
        .unwrap();
    let readable = mo.to_readable();
    assert_eq!(readable.0.len(), 1);
    assert_eq!(readable.0[0].0, "S2Z:Bc0a3:Fc0a2:");
    assert_eq!(readable.0[0].1, "S2Z:Bc0a3:Fc0a2:");
    assert_eq!(readable.0[0].2, CalculatorComplex::new(0.5, 0.0));
    assert_eq!(readable.1, 1);
    assert_eq!(readable.2, 1);
    assert_eq!(readable.3, 1);
    assert_eq!(readable.4 .0, "MixedLindbladNoiseOperator");
    assert_eq!(readable.4 .1, (2, 0, 0));
    assert_eq!(readable.4 .2, "2.0.0");
}

#[test]
fn bincode() {
    let pp: MixedDecoherenceProduct = MixedDecoherenceProduct::new(
        vec![DecoherenceProduct::new().z(2)],
        vec![BosonProduct::new(vec![0], vec![3]).unwrap()],
        vec![FermionProduct::new(vec![0], vec![2]).unwrap()],
    )
    .unwrap();
    let mut mo = MixedLindbladNoiseOperator::new(1, 1, 1);
    mo.set((pp.clone(), pp), CalculatorComplex::from(1.0))
        .unwrap();

    let serialized = bincode::serialize(&mo.to_compact()).unwrap();
    let deserialized: struqture::serial::MixedNoiseCompact =
        bincode::deserialize(&serialized).unwrap();
    assert_eq!(MixedLindbladNoiseOperator::from_compact(&deserialized).unwrap(), mo);

    let encoded: Vec<u8> = bincode::serialize(&mo.clone().to_compact()).unwrap();
    let decoded: struqture::serial::MixedNoiseCompact =
        bincode::deserialize(&encoded[..]).unwrap();
    assert_eq!(mo, MixedLindbladNoiseOperator::from_compact(&decoded).unwrap());
}

#[test]
fn serde_compact() {
    let pp: MixedDecoherenceProduct = MixedDecoherenceProduct::new(
        vec![DecoherenceProduct::new().z(2)],
        vec![BosonProduct::new(vec![0], vec![3]).unwrap()],
        vec![FermionProduct::new(vec![0], vec![2]).unwrap()],
    )
    .unwrap();
    let mut mo = MixedLindbladNoiseOperator::new(1, 1, 1);
    mo.set((pp.clone(), pp), CalculatorComplex::from(0.5))
        .unwrap();
    let compact = mo.to_compact();
    assert_eq!(compact.0.len(), 1);
    let item = &compact.0[0];
    assert_eq!(item.0 .0, vec![vec![(2_usize, 2_usize)]]);
    assert_eq!(item.0 .1, vec![(vec![0_usize], vec![3_usize])]);
    assert_eq!(item.0 .2, vec![(vec![0_usize], vec![2_usize])]);
    assert_eq!(item.1 .0, vec![vec![(2_usize, 2_usize)]]);
    assert_eq!(item.1 .1, vec![(vec![0_usize], vec![3_usize])]);
    assert_eq!(item.1 .2, vec![(vec![0_usize], vec![2_usize])]);
    assert_eq!(item.2, CalculatorComplex::new(0.5, 0.0));
    assert_eq!(compact.1, 1);
    assert_eq!(compact.2, 1);
    assert_eq!(compact.3, 1);
    assert_eq!(compact.4 .0, "MixedLindbladNoiseOperator");
    assert_eq!(compact.4 .1, (2, 0, 0));
    assert_eq!(compact.4 .2, "2.0.0");
}
