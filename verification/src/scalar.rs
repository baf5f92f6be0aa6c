//! Trusted interface to the `qoqo_calculator` scalar types.
//!
//! Coefficients of operators are `qoqo_calculator::CalculatorComplex` values:
//! complex numbers whose parts are either floats or symbolic expressions.
//! The scalar type is opaque here; its arithmetic is named by uninterpreted
//! spec functions, so contracts can state exactly which combination of inputs
//! a stored coefficient is, without restating `qoqo_calculator`'s arithmetic.
//! Every wrapper body is a single call into `qoqo_calculator`.

use qoqo_calculator::CalculatorComplex;
use qoqo_calculator::CalculatorFloat;
use vstd::prelude::*;

verus! {

#[verifier::external_type_specification]
#[verifier::external_body]
pub struct ExCalculatorFloat(CalculatorFloat);

#[verifier::external_type_specification]
#[verifier::external_body]
pub struct ExCalculatorComplex(CalculatorComplex);

/// The complex number `CalculatorComplex::new(re, im)` built from two
/// machine integers.  `cc_new_of(0, 0)` is the additive identity that `get`
/// returns for absent keys.
pub uninterp spec fn cc_new_of(re: int, im: int) -> CalculatorComplex;

/// The sum of two coefficients, as `qoqo_calculator`'s `+` computes it.
pub uninterp spec fn cc_add_of(a: CalculatorComplex, b: CalculatorComplex) -> CalculatorComplex;

/// The difference of two coefficients, as `qoqo_calculator`'s `-` computes it.
pub uninterp spec fn cc_sub_of(a: CalculatorComplex, b: CalculatorComplex) -> CalculatorComplex;

/// The product of two coefficients, as `qoqo_calculator`'s `*` computes it.
pub uninterp spec fn cc_mul_of(a: CalculatorComplex, b: CalculatorComplex) -> CalculatorComplex;

/// The additive inverse of a coefficient, as `qoqo_calculator`'s unary `-`
/// computes it.
pub uninterp spec fn cc_neg_of(a: CalculatorComplex) -> CalculatorComplex;

/// What `qoqo_calculator`'s `==` answers on two coefficients.
pub uninterp spec fn cc_eq_of(a: CalculatorComplex, b: CalculatorComplex) -> bool;

/// The float `CalculatorFloat::from(x)` for a machine integer `x`.
pub uninterp spec fn cf_from_u64_of(x: u64) -> CalculatorFloat;

/// The square root of a float, as `CalculatorFloat::sqrt` computes it.
pub uninterp spec fn cf_sqrt_of(x: CalculatorFloat) -> CalculatorFloat;

/// The reciprocal of a float, as `CalculatorFloat::recip` computes it.
pub uninterp spec fn cf_recip_of(x: CalculatorFloat) -> CalculatorFloat;

/// The complex number with the given real part and zero imaginary part, as
/// `CalculatorComplex::from` builds it.
pub uninterp spec fn cc_from_cf_of(x: CalculatorFloat) -> CalculatorComplex;

/// The text that `qoqo_calculator`'s display formatting renders a
/// coefficient as.
pub uninterp spec fn cc_str_of(a: CalculatorComplex) -> Seq<char>;

/// Relies on `CalculatorComplex::new`: the coefficient with the given
/// integer real and imaginary parts.
#[verifier::external_body]
pub(crate) fn cc_new_int(re: i64, im: i64) -> (r: CalculatorComplex)
    ensures
        r == cc_new_of(re as int, im as int),
{
    CalculatorComplex::new(re, im)
}

/// Relies on `CalculatorComplex`'s `Add` impl: component-wise addition.
#[verifier::external_body]
pub(crate) fn cc_add(a: CalculatorComplex, b: CalculatorComplex) -> (r: CalculatorComplex)
    ensures
        r == cc_add_of(a, b),
{
    a + b
}

/// Relies on `CalculatorComplex`'s `Sub` impl: component-wise subtraction.
#[verifier::external_body]
pub(crate) fn cc_sub(a: CalculatorComplex, b: CalculatorComplex) -> (r: CalculatorComplex)
    ensures
        r == cc_sub_of(a, b),
{
    a - b
}

/// Relies on `CalculatorComplex`'s `Mul` impl: full complex multiplication.
#[verifier::external_body]
pub(crate) fn cc_mul(a: CalculatorComplex, b: CalculatorComplex) -> (r: CalculatorComplex)
    ensures
        r == cc_mul_of(a, b),
{
    a * b
}

/// Relies on `CalculatorComplex`'s `Neg` impl: negates both parts.
#[verifier::external_body]
pub(crate) fn cc_neg(a: CalculatorComplex) -> (r: CalculatorComplex)
    ensures
        r == cc_neg_of(a),
{
    -a
}

/// Relies on `CalculatorComplex`'s derived `Clone`: reproduces the value.
#[verifier::external_body]
pub(crate) fn cc_clone(a: &CalculatorComplex) -> (r: CalculatorComplex)
    ensures
        r == *a,
{
    a.clone()
}

/// Relies on `CalculatorComplex`'s derived `PartialEq`: structural equality
/// of the parts (with float semantics on float parts).
#[verifier::external_body]
pub(crate) fn cc_eq(a: &CalculatorComplex, b: &CalculatorComplex) -> (r: bool)
    ensures
        r == cc_eq_of(*a, *b),
{
    a == b
}

/// Relies on `CalculatorFloat`'s `From<u64>` impl.
#[verifier::external_body]
pub(crate) fn cf_from_u64(x: u64) -> (r: CalculatorFloat)
    ensures
        r == cf_from_u64_of(x),
{
    CalculatorFloat::from(x)
}

/// Relies on `CalculatorFloat::sqrt`; the result depends on the value alone.
#[verifier::external_body]
pub(crate) fn cf_sqrt(x: &CalculatorFloat) -> (r: CalculatorFloat)
    ensures
        r == cf_sqrt_of(*x),
{
    x.sqrt()
}

/// Relies on `CalculatorFloat::recip`; the result depends on the value alone
/// and the call never panics.
#[verifier::external_body]
pub(crate) fn cf_recip(x: &CalculatorFloat) -> (r: CalculatorFloat)
    ensures
        r == cf_recip_of(*x),
{
    x.recip()
}

/// Relies on `CalculatorComplex`'s `From<CalculatorFloat>` impl: real part
/// set, imaginary part zero.
#[verifier::external_body]
pub(crate) fn cc_from_cf(x: CalculatorFloat) -> (r: CalculatorComplex)
    ensures
        r == cc_from_cf_of(x),
{
    CalculatorComplex::from(x)
}

/// Relies on `CalculatorComplex`'s `Display` impl, rendered through
/// `format!`; the text depends on the value alone.
#[verifier::external_body]
pub(crate) fn cc_to_string(a: &CalculatorComplex) -> (r: String)
    ensures
        r@ == cc_str_of(*a),
{
    format!("{}", a)
}

} // verus!
