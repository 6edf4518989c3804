//! Arbitrary-precision non-negative integers, supplied by an outside crate.
//!
//! The totals M(k) outgrow every machine word, so they are held in
//! `num::BigUint`. The value such a number holds is named by the
//! uninterpreted function `big_val`; every operation the evaluators use is a
//! thin wrapper whose contract speaks over that name.

use vstd::prelude::*;
use num::BigUint;

verus! {

#[verifier::external_type_specification]
#[verifier::external_body]
pub struct ExBigUint(BigUint);

/// The natural number that a `num::BigUint` holds.
pub uninterp spec fn big_val(b: BigUint) -> nat;

/// Relies on `<BigUint as From<u64>>::from`: the big integer with exactly
/// the given value.
#[verifier::external_body]
pub(crate) fn big_from_u64(x: u64) -> (r: BigUint)
    ensures
        big_val(r) == x as nat,
{
    BigUint::from(x)
}

/// Relies on `<BigUint as Clone>::clone`: an independent copy with the same
/// value.
#[verifier::external_body]
pub(crate) fn big_clone(a: &BigUint) -> (r: BigUint)
    ensures
        big_val(r) == big_val(*a),
{
    a.clone()
}

/// Relies on `<BigUint as AddAssign<&BigUint>>::add_assign`: exact addition.
#[verifier::external_body]
pub(crate) fn big_add_assign(a: &mut BigUint, b: &BigUint)
    ensures
        big_val(*final(a)) == big_val(*old(a)) + big_val(*b),
{
    *a += b;
}

/// Relies on `<BigUint as AddAssign<u64>>::add_assign`: exact addition of a
/// machine word.
#[verifier::external_body]
pub(crate) fn big_add_assign_u64(a: &mut BigUint, x: u64)
    ensures
        big_val(*final(a)) == big_val(*old(a)) + x as nat,
{
    *a += x;
}

/// Relies on `<BigUint as SubAssign<&BigUint>>::sub_assign`: exact
/// subtraction. It panics when the subtrahend is larger, so that case is
/// excluded.
#[verifier::external_body]
pub(crate) fn big_sub_assign(a: &mut BigUint, b: &BigUint)
    requires
        big_val(*b) <= big_val(*old(a)),
    ensures
        big_val(*final(a)) == big_val(*old(a)) - big_val(*b),
{
    *a -= b;
}

/// Relies on `<BigUint as SubAssign<u64>>::sub_assign`: exact subtraction of
/// a machine word. It panics when the subtrahend is larger, so that case is
/// excluded.
#[verifier::external_body]
pub(crate) fn big_sub_assign_u64(a: &mut BigUint, x: u64)
    requires
        x as nat <= big_val(*old(a)),
    ensures
        big_val(*final(a)) == big_val(*old(a)) - x as nat,
{
    *a -= x;
}

/// Relies on `<BigUint as MulAssign<&BigUint>>::mul_assign`: exact
/// multiplication.
#[verifier::external_body]
pub(crate) fn big_mul_assign(a: &mut BigUint, b: &BigUint)
    ensures
        big_val(*final(a)) == big_val(*old(a)) * big_val(*b),
{
    *a *= b;
}

/// Relies on `<BigUint as MulAssign<u64>>::mul_assign`: exact multiplication
/// by a machine word.
#[verifier::external_body]
pub(crate) fn big_mul_assign_u64(a: &mut BigUint, x: u64)
    ensures
        big_val(*final(a)) == big_val(*old(a)) * x as nat,
{
    *a *= x;
}

/// Relies on `<BigUint as DivAssign<u64>>::div_assign`: floor division by a
/// machine word. It panics on a zero divisor, so that case is excluded.
#[verifier::external_body]
pub(crate) fn big_div_assign_u64(a: &mut BigUint, x: u64)
    requires
        x >= 1,
    ensures
        big_val(*final(a)) == big_val(*old(a)) / x as nat,
{
    *a /= x;
}

} // verus!
