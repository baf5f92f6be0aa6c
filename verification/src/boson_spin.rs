//! Mapping from bosonic operators to spin operators.
//!
//! Each bosonic mode `p` is represented by `k` spins, sites `k·p` to
//! `k·p + k − 1`.  Two term shapes are representable: the dissipative ladder
//! term `b + b†` on one mode, which maps to a sum of `X` operators weighted
//! `1/sqrt(k)`, and the number term `b†b`, which maps to a sum of `Z`
//! operators weighted `1/2`.  Every other Hermitian boson product is
//! rejected with an error naming it in its canonical rendering.

use crate::bosons::HermitianBosonProduct;
use crate::error::StruqtureError;
use crate::key::OperatorKey;
use crate::operators::Operator;
use crate::operators::PauliOperator;
use crate::operators::map_add;
use crate::scalar::cc_clone;
use crate::scalar::cc_from_cf;
use crate::scalar::cc_from_cf_of;
use crate::scalar::cc_mul_of;
use crate::scalar::cf_from_u64;
use crate::scalar::cf_from_u64_of;
use crate::scalar::cf_recip;
use crate::scalar::cf_recip_of;
use crate::scalar::cf_sqrt;
use crate::scalar::cf_sqrt_of;
use crate::spins::CODE_X;
use crate::spins::CODE_Z;
use crate::spins::PauliProduct;
use crate::text::modes_code;
use crate::text::modes_to_string;
use qoqo_calculator::CalculatorComplex;
use vstd::prelude::*;

verus! {

/// Transformation of a bosonic object into a spin object, each bosonic mode
/// represented by a fixed number of spins.
pub trait BosonToSpin {
    /// The spin-algebra result of the transformation.
    type Output;

    /// Transform, using `number_spins_per_bosonic_mode` spins per mode.
    /// Only terms of the shapes `b†b` and `b + b†` are representable;
    /// anything else is rejected with an error naming the term.
    fn boson_spin_mapping(&self, number_spins_per_bosonic_mode: usize) -> Result<
        Self::Output,
        StruqtureError,
    >;
}

/// Which Hermitian boson products the mapping can represent: a pure ladder
/// term `b + b†` on one mode, or a pure number term `b†b`.
pub open spec fn representable(kv: (Seq<usize>, Seq<usize>)) -> bool {
    ||| (kv.0.len() == 0 && kv.1.len() == 1)
    ||| (kv.0.len() == 1 && kv.1.len() == 1 && kv.0[0] == kv.1[0])
}

/// The spin sites of the mapped mode stay within the machine's index range.
pub open spec fn mapping_fits(kv: (Seq<usize>, Seq<usize>), k: usize) -> bool {
    &&& (kv.0.len() == 0 && kv.1.len() == 1 ==> k * kv.1[0] + k <= usize::MAX)
    &&& (kv.0.len() == 1 ==> k * kv.0[0] + k <= usize::MAX)
}

/// The spin site representing slot `i` of bosonic mode `mode` when each
/// mode is carried by `k` spins.
pub open spec fn site_of(k: usize, mode: usize, i: int) -> usize {
    (k * mode + i) as usize
}

/// A single-site `X` key.
pub open spec fn x_key(site: usize) -> Seq<(usize, usize)> {
    seq![(site, CODE_X)]
}

/// A single-site `Z` key.
pub open spec fn z_key(site: usize) -> Seq<(usize, usize)> {
    seq![(site, CODE_Z)]
}

/// The weight of each `X` term of a ladder mapping: `1/sqrt(k)`.
pub open spec fn ladder_coeff(k: usize) -> CalculatorComplex {
    cc_from_cf_of(cf_recip_of(cf_sqrt_of(cf_from_u64_of(k as u64))))
}

/// The weight of each `Z` term of a number mapping: `1/2`.
pub open spec fn number_coeff() -> CalculatorComplex {
    cc_from_cf_of(cf_recip_of(cf_from_u64_of(2)))
}

/// The spin operator a single representable Hermitian boson product maps to.
pub open spec fn product_spin_map(kv: (Seq<usize>, Seq<usize>), k: usize) -> Map<
    Seq<(usize, usize)>,
    CalculatorComplex,
> {
    if kv.0.len() == 0 {
        Map::new(
            |pk: Seq<(usize, usize)>|
                exists|i: int| 0 <= i < k && pk == x_key(#[trigger] site_of(k, kv.1[0], i)),
            |pk: Seq<(usize, usize)>| ladder_coeff(k),
        )
    } else {
        Map::new(
            |pk: Seq<(usize, usize)>|
                exists|i: int| 0 <= i < k && pk == z_key(#[trigger] site_of(k, kv.0[0], i)),
            |pk: Seq<(usize, usize)>| number_coeff(),
        )
    }
}

/// The message rejecting an unrepresentable term, naming it.
pub open spec fn unrepresentable_msg(kv: (Seq<usize>, Seq<usize>)) -> Seq<char> {
    "The boson -> spin transformation is only available for terms such as b\u{2020}b or (b\u{2020} + b), but the term here is: "@
        + modes_code(kv.0, kv.1)
}

impl HermitianBosonProduct {
    /// Map this product onto `number_spins_per_bosonic_mode` spins per
    /// bosonic mode: a ladder term `b + b†` on mode `p` becomes the sum of
    /// `X` on sites `k·p … k·p+k−1` with weight `1/sqrt(k)`; a number term
    /// `b†b` becomes the same sum of `Z` with weight `1/2`.  Every other
    /// product is rejected with an error naming it.
    pub fn boson_spin_mapping(&self, number_spins_per_bosonic_mode: usize) -> (r: Result<
        PauliOperator,
        StruqtureError,
    >)
        requires
            mapping_fits(self@, number_spins_per_bosonic_mode),
        ensures
            representable(self@) ==> (r matches Ok(op) && op.as_map() == product_spin_map(
                self@,
                number_spins_per_bosonic_mode,
            )),
            !representable(self@) ==> (r matches Err(e) && e matches
                StruqtureError::UnrepresentableTerm { msg } && msg@ == unrepresentable_msg(self@)),
    {
        let k = number_spins_per_bosonic_mode;
        let c = self.creators();
        let a = self.annihilators();
        if c.len() == 0 && a.len() == 1 {
            let mode = a[0];
            let base = cc_from_cf(cf_recip(&cf_sqrt(&cf_from_u64(k as u64))));
            let mut op = PauliOperator::new();
            for i in 0..k
                invariant
                    mode == self@.1[0],
                    self@.0.len() == 0 && self@.1.len() == 1,
                    k * mode + k <= usize::MAX,
                    base == ladder_coeff(k),
                    forall|pk: Seq<(usize, usize)>|
                        op.as_map().contains_key(pk) <==> exists|j: int|
                            0 <= j < i && pk == x_key(#[trigger] site_of(k, mode, j)),
                    forall|pk: Seq<(usize, usize)>|
                        op.as_map().contains_key(pk) ==> #[trigger] op.as_map()[pk] == base,
            {
                let site = k * mode + i;
                let pp = PauliProduct::new().x(site);
                proof {
                    assert(pp@ =~= x_key(site));
                    if op.as_map().contains_key(x_key(site)) {
                        let j = choose|j: int|
                            0 <= j < i && x_key(site) == x_key(#[trigger] site_of(k, mode, j));
                        assert(x_key(site_of(k, mode, j))[0].0 == site_of(k, mode, j));
                        assert(site_of(k, mode, j) == k * mode + j);
                        assert(site_of(k, mode, i as int) == site);
                        assert(false);
                    }
                }
                let ghost op0 = op.as_map();
                let _ = op.add_operator_product(pp, cc_clone(&base));
                proof {
                    assert(op.as_map() == op0.insert(x_key(site), base));
                    assert forall|pk: Seq<(usize, usize)>|
                        op.as_map().contains_key(pk) <==> exists|j: int|
                            0 <= j < i + 1 && pk == x_key(#[trigger] site_of(k, mode, j)) by {
                        if op.as_map().contains_key(pk) {
                            if pk == x_key(site) {
                                assert(site_of(k, mode, i as int) == site);
                                assert(pk == x_key(site_of(k, mode, i as int)));
                            } else {
                                assert(op0.contains_key(pk));
                            }
                        }
                        if exists|j: int| 0 <= j < i + 1 && pk == x_key(#[trigger] site_of(k, mode, j)) {
                            let j = choose|j: int|
                                0 <= j < i + 1 && pk == x_key(#[trigger] site_of(k, mode, j));
                            if j == i as int {
                                assert(pk == x_key(site));
                            } else {
                                assert(op0.contains_key(pk));
                            }
                        }
                    }
                }
            }
            proof {
                assert(op.as_map() =~= product_spin_map(self@, k));
            }
            Ok(op)
        } else if c.len() == 1 && a.len() == 1 && c[0] == a[0] {
            let mode = c[0];
            let base = cc_from_cf(cf_recip(&cf_from_u64(2)));
            let mut op = PauliOperator::new();
            for i in 0..k
                invariant
                    mode == self@.0[0],
                    self@.0.len() == 1 && self@.1.len() == 1 && self@.0[0] == self@.1[0],
                    k * mode + k <= usize::MAX,
                    base == number_coeff(),
                    forall|pk: Seq<(usize, usize)>|
                        op.as_map().contains_key(pk) <==> exists|j: int|
                            0 <= j < i && pk == z_key(#[trigger] site_of(k, mode, j)),
                    forall|pk: Seq<(usize, usize)>|
                        op.as_map().contains_key(pk) ==> #[trigger] op.as_map()[pk] == base,
            {
                let site = k * mode + i;
                let pp = PauliProduct::new().z(site);
                proof {
                    assert(pp@ =~= z_key(site));
                    if op.as_map().contains_key(z_key(site)) {
                        let j = choose|j: int|
                            0 <= j < i && z_key(site) == z_key(#[trigger] site_of(k, mode, j));
                        assert(z_key(site_of(k, mode, j))[0].0 == site_of(k, mode, j));
                        assert(site_of(k, mode, j) == k * mode + j);
                        assert(site_of(k, mode, i as int) == site);
                        assert(false);
                    }
                }
                let ghost op0 = op.as_map();
                let _ = op.add_operator_product(pp, cc_clone(&base));
                proof {
                    assert(op.as_map() == op0.insert(z_key(site), base));
                    assert forall|pk: Seq<(usize, usize)>|
                        op.as_map().contains_key(pk) <==> exists|j: int|
                            0 <= j < i + 1 && pk == z_key(#[trigger] site_of(k, mode, j)) by {
                        if op.as_map().contains_key(pk) {
                            if pk == z_key(site) {
                                assert(site_of(k, mode, i as int) == site);
                                assert(pk == z_key(site_of(k, mode, i as int)));
                            } else {
                                assert(op0.contains_key(pk));
                            }
                        }
                        if exists|j: int| 0 <= j < i + 1 && pk == z_key(#[trigger] site_of(k, mode, j)) {
                            let j = choose|j: int|
                                0 <= j < i + 1 && pk == z_key(#[trigger] site_of(k, mode, j));
                            if j == i as int {
                                assert(pk == z_key(site));
                            } else {
                                assert(op0.contains_key(pk));
                            }
                        }
                    }
                }
            }
            proof {
                assert(op.as_map() =~= product_spin_map(self@, k));
            }
            Ok(op)
        } else {
            let mut msg = String::new();
            msg.append(
                "The boson -> spin transformation is only available for terms such as b\u{2020}b or (b\u{2020} + b), but the term here is: ",
            );
            let code = modes_to_string(c, a);
            msg.append(code.as_str());
            proof {
                assert(msg@ =~= unrepresentable_msg(self@));
            }
            Err(StruqtureError::UnrepresentableTerm { msg })
        }
    }
}

/// The spin operator one weighted Hamiltonian term maps to: the product's
/// mapping with every weight multiplied by the term's coefficient.
pub open spec fn scaled_term_map(
    kv: (Seq<usize>, Seq<usize>),
    k: usize,
    v: CalculatorComplex,
) -> Map<Seq<(usize, usize)>, CalculatorComplex> {
    Map::new(
        |pk: Seq<(usize, usize)>| product_spin_map(kv, k).contains_key(pk),
        |pk: Seq<(usize, usize)>| cc_mul_of(product_spin_map(kv, k)[pk], v),
    )
}

/// The spin operator a whole bosonic Hamiltonian maps to: the sum of its
/// terms' scaled mappings.
pub open spec fn ham_spin_map(
    es: Seq<((Seq<usize>, Seq<usize>), CalculatorComplex)>,
    k: usize,
) -> Map<Seq<(usize, usize)>, CalculatorComplex>
    decreases es.len(),
{
    if es.len() == 0 {
        Map::<Seq<(usize, usize)>, CalculatorComplex>::empty()
    } else {
        map_add(ham_spin_map(es.drop_last(), k), scaled_term_map(es.last().0, k, es.last().1))
    }
}

impl Operator<HermitianBosonProduct> {
    /// Map every term of the Hamiltonian onto spins and sum the results,
    /// scaling each product's mapping by the term's coefficient.  The first
    /// unrepresentable term in canonical order aborts the conversion with
    /// the error naming it.
    pub fn boson_spin_mapping(&self, number_spins_per_bosonic_mode: usize) -> (r: Result<
        PauliOperator,
        StruqtureError,
    >)
        requires
            forall|j: int|
                0 <= j < self.entries().len() ==> mapping_fits(
                    (#[trigger] self.entries()[j]).0,
                    number_spins_per_bosonic_mode,
                ),
        ensures
            (forall|j: int|
                0 <= j < self.entries().len() ==> representable(
                    (#[trigger] self.entries()[j]).0,
                )) ==> (r matches Ok(op) && op.as_map() == ham_spin_map(
                self.entries(),
                number_spins_per_bosonic_mode,
            )),
            !(forall|j: int|
                0 <= j < self.entries().len() ==> representable(
                    (#[trigger] self.entries()[j]).0,
                )) ==> (r matches Err(e) && exists|j: int|
                {
                    &&& 0 <= j < self.entries().len()
                    &&& !representable((#[trigger] self.entries()[j]).0)
                    &&& forall|m: int| 0 <= m < j ==> representable(#[trigger] self.entries()[m].0)
                    &&& (e matches StruqtureError::UnrepresentableTerm { msg } && msg@
                        == unrepresentable_msg(self.entries()[j].0))
                }),
    {
        let k = number_spins_per_bosonic_mode;
        let mut acc = PauliOperator::new();
        let n = self.len();
        proof {
            assert(self.entries().take(0) =~= Seq::<
                ((Seq<usize>, Seq<usize>), CalculatorComplex),
            >::empty());
        }
        for i in 0..n
            invariant
                n == self.entries().len(),
                forall|j: int|
                    0 <= j < self.entries().len() ==> mapping_fits(
                        (#[trigger] self.entries()[j]).0,
                        k,
                    ),
                forall|m: int| 0 <= m < i ==> representable(#[trigger] self.entries()[m].0),
                acc.as_map() == ham_spin_map(self.entries().take(i as int), k),
        {
            let e = self.entry_at(i);
            match e.0.boson_spin_mapping(k) {
                Ok(term_op) => {
                    let scaled = term_op.scalar_mul(&e.1);
                    proof {
                        assert(scaled.as_map() =~= scaled_term_map(
                            self.entries()[i as int].0,
                            k,
                            self.entries()[i as int].1,
                        ));
                    }
                    acc = acc.add(&scaled);
                    proof {
                        assert(self.entries().take(i + 1).drop_last() =~= self.entries().take(
                            i as int,
                        ));
                        assert(self.entries().take(i + 1).last() == self.entries()[i as int]);
                    }
                },
                Err(err) => {
                    return Err(err);
                },
            }
        }
        proof {
            assert(self.entries().take(n as int) =~= self.entries());
        }
        Ok(acc)
    }
}

impl BosonToSpin for HermitianBosonProduct {
    type Output = PauliOperator;

    fn boson_spin_mapping(&self, number_spins_per_bosonic_mode: usize) -> Result<
        PauliOperator,
        StruqtureError,
    > {
        match check_fits(self, number_spins_per_bosonic_mode) {
            Ok(()) => self.boson_spin_mapping(number_spins_per_bosonic_mode),
            Err(e) => Err(e),
        }
    }
}

impl BosonToSpin for Operator<HermitianBosonProduct> {
    type Output = PauliOperator;

    fn boson_spin_mapping(&self, number_spins_per_bosonic_mode: usize) -> Result<
        PauliOperator,
        StruqtureError,
    > {
        let n = self.len();
        for i in 0..n
            invariant
                n == self.entries().len(),
                forall|j: int|
                    0 <= j < i ==> mapping_fits(
                        (#[trigger] self.entries()[j]).0,
                        number_spins_per_bosonic_mode,
                    ),
        {
            let e = self.entry_at(i);
            match check_fits(&e.0, number_spins_per_bosonic_mode) {
                Ok(()) => {},
                Err(err) => {
                    return Err(err);
                },
            }
        }
        self.boson_spin_mapping(number_spins_per_bosonic_mode)
    }
}

/// Guard against spin sites beyond the machine's index range: the largest
/// mapped site is `k·mode + k − 1`.
fn check_fits(p: &HermitianBosonProduct, k: usize) -> (r: Result<(), StruqtureError>)
    ensures
        r matches Ok(()) ==> mapping_fits(p@, k),
{
    let c = p.creators();
    let a = p.annihilators();
    let mode: usize = if c.len() > 0 {
        c[0]
    } else if a.len() == 1 {
        a[0]
    } else {
        0
    };
    match k.checked_mul(mode) {
        Some(product) => {
            match product.checked_add(k) {
                Some(_) => Ok(()),
                None => Err(index_range_error()),
            }
        },
        None => Err(index_range_error()),
    }
}

fn index_range_error() -> StruqtureError {
    let mut msg = String::new();
    msg.append("The mapped spin sites do not fit the machine's index range");
    StruqtureError::UnrepresentableTerm { msg }
}

} // verus!
