//! Trusted interface to the arbitrary-precision unsigned integers of the
//! `num_bigint` crate.
//!
//! A `BigUint` is opaque to the verifier, so the uninterpreted function
//! [`big_value`] names the natural number that such a value holds.  The
//! wrappers below state, over that name, what the crate's arithmetic does;
//! everything proved about the Fibonacci engine rests on these contracts.

use vstd::prelude::*;

verus! {

#[verifier::external_type_specification]
#[verifier::external_body]
pub struct ExBigUint(num_bigint::BigUint);

/// The natural number that a `BigUint` holds.
pub uninterp spec fn big_value(b: num_bigint::BigUint) -> nat;

/// Relies on `num_traits::Zero::zero` for `BigUint`: returns the value zero.
#[verifier::external_body]
pub(crate) fn big_zero() -> (r: num_bigint::BigUint)
    ensures
        big_value(r) == 0,
{
    <num_bigint::BigUint as num_traits::Zero>::zero()
}

/// Relies on `num_traits::One::one` for `BigUint`: returns the value one.
#[verifier::external_body]
pub(crate) fn big_one() -> (r: num_bigint::BigUint)
    ensures
        big_value(r) == 1,
{
    <num_bigint::BigUint as num_traits::One>::one()
}

/// Relies on `BigUint`'s `Add` impl: exact addition, which cannot overflow.
#[verifier::external_body]
pub(crate) fn big_add(a: &num_bigint::BigUint, b: &num_bigint::BigUint) -> (r:
    num_bigint::BigUint)
    ensures
        big_value(r) == big_value(*a) + big_value(*b),
{
    a + b
}

/// Relies on `BigUint`'s `Mul` impl: exact multiplication.
#[verifier::external_body]
pub(crate) fn big_mul(a: &num_bigint::BigUint, b: &num_bigint::BigUint) -> (r:
    num_bigint::BigUint)
    ensures
        big_value(r) == big_value(*a) * big_value(*b),
{
    a * b
}

/// Relies on `BigUint`'s `Clone` impl: the copy holds the same number.
#[verifier::external_body]
pub(crate) fn big_clone(a: &num_bigint::BigUint) -> (r: num_bigint::BigUint)
    ensures
        big_value(r) == big_value(*a),
{
    a.clone()
}

} // verus!
