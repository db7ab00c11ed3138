//! Arbitrary-precision integers, as `num_bigint` provides them.
//!
//! Verus cannot look inside a `BigInt` or a `BigUint`. This module declares the
//! two types, names the mathematical number each value stands for, and gives
//! every operation the library uses a contract over those numbers. None of the
//! contracts in this module is proved: each one restates what `num_bigint`
//! documents, so that the rest of the library can be verified against it.
use num_bigint::BigInt;
use num_bigint::BigUint;
use vstd::prelude::*;

verus! {

/// `num_bigint::BigInt`, a signed integer of any size. Nothing is claimed
/// of what is inside a value.
#[verifier::external_type_specification]
#[verifier::external_body]
pub struct ExBigInt(BigInt);

/// `num_bigint::BigUint`, an unsigned integer of any size. Nothing is
/// claimed of what is inside a value.
#[verifier::external_type_specification]
#[verifier::external_body]
pub struct ExBigUint(BigUint);

/// The integer that a `BigInt` holds. The contracts of this module are
/// all that is known of it.
pub uninterp spec fn int_value(x: BigInt) -> int;

/// The natural number that a `BigUint` holds. The contracts of this
/// module are all that is known of it.
pub uninterp spec fn nat_value(x: BigUint) -> nat;

/// The integers that a sequence of `BigInt`s holds, entry by entry.
pub open spec fn int_values(v: Seq<BigInt>) -> Seq<int> {
    Seq::new(v.len(), |i: int| int_value(v[i]))
}

/// The remainder of a division that rounds its quotient toward zero: it has the
/// sign of the dividend and is smaller in magnitude than the divisor.
pub open spec fn truncated_remainder(a: int, b: int) -> int
    recommends
        b != 0,
{
    let d = if b < 0 {
        -b
    } else {
        b
    };
    if a >= 0 {
        a % d
    } else {
        -((-a) % d)
    }
}

/// The quotient of a division by a positive number, rounded toward zero.
pub open spec fn truncated_quotient(a: int, d: int) -> int
    recommends
        d > 0,
{
    if a >= 0 {
        a / d
    } else {
        -((-a) / d)
    }
}

/// `Clone::clone` of `BigInt`: the copy holds the same integer.
pub assume_specification[ <BigInt as Clone>::clone ](x: &BigInt) -> (r: BigInt)
    ensures
        int_value(r) == int_value(*x),
;

/// `num_traits::Zero::zero` of `BigInt`: the integer zero.
#[verifier::external_body]
pub(crate) fn int_zero() -> (r: BigInt)
    ensures
        int_value(r) == 0,
{
    <BigInt as num_traits::Zero>::zero()
}

/// `num_traits::Zero::is_zero` of `BigInt`: whether the integer is zero.
#[verifier::external_body]
pub(crate) fn int_is_zero(x: &BigInt) -> (r: bool)
    ensures
        r == (int_value(*x) == 0),
{
    num_traits::Zero::is_zero(x)
}

/// `num_traits::Zero::zero` of `BigUint`: the natural number zero.
#[verifier::external_body]
pub(crate) fn nat_zero() -> (r: BigUint)
    ensures
        nat_value(r) == 0,
{
    <BigUint as num_traits::Zero>::zero()
}

/// `num_traits::Zero::is_zero` of `BigUint`: whether the number is zero.
#[verifier::external_body]
pub(crate) fn nat_is_zero(x: &BigUint) -> (r: bool)
    ensures
        r == (nat_value(*x) == 0),
{
    num_traits::Zero::is_zero(x)
}

/// `BigInt::from(i64)`: the conversion keeps the number.
#[verifier::external_body]
pub(crate) fn int_from_i64(x: i64) -> (r: BigInt)
    ensures
        int_value(r) == x,
{
    BigInt::from(x)
}

/// `BigInt::from(BigUint)`: the conversion keeps the number.
#[verifier::external_body]
pub(crate) fn int_from_nat(x: BigUint) -> (r: BigInt)
    ensures
        int_value(r) == nat_value(x),
{
    BigInt::from(x)
}

/// `&BigInt + &BigInt`: the exact sum.
#[verifier::external_body]
pub(crate) fn int_sum(a: &BigInt, b: &BigInt) -> (r: BigInt)
    ensures
        int_value(r) == int_value(*a) + int_value(*b),
{
    a + b
}

/// `&BigInt - &BigInt`: the exact difference.
#[verifier::external_body]
pub(crate) fn int_difference(a: &BigInt, b: &BigInt) -> (r: BigInt)
    ensures
        int_value(r) == int_value(*a) - int_value(*b),
{
    a - b
}

/// `&BigInt * &BigInt`: the exact product.
#[verifier::external_body]
pub(crate) fn int_product(a: &BigInt, b: &BigInt) -> (r: BigInt)
    ensures
        int_value(r) == int_value(*a) * int_value(*b),
{
    a * b
}

/// `&BigInt % &BigInt`: the remainder of the division that rounds toward zero.
/// The outside function panics on a zero divisor, which `requires` leaves out.
#[verifier::external_body]
pub(crate) fn int_remainder(a: &BigInt, b: &BigInt) -> (r: BigInt)
    requires
        int_value(*b) != 0,
    ensures
        int_value(r) == truncated_remainder(int_value(*a), int_value(*b)),
{
    a % b
}

/// `BigInt / u32`: the quotient rounded toward zero. The outside function
/// panics on a zero divisor, which `requires` leaves out.
#[verifier::external_body]
pub(crate) fn int_quotient_u32(a: BigInt, d: u32) -> (r: BigInt)
    requires
        d != 0,
    ensures
        int_value(r) == truncated_quotient(int_value(a), d as int),
{
    a / d
}

/// `&BigInt == &BigInt`: whether the two hold the same integer.
#[verifier::external_body]
pub(crate) fn int_eq(a: &BigInt, b: &BigInt) -> (r: bool)
    ensures
        r == (int_value(*a) == int_value(*b)),
{
    a == b
}

/// `&BigInt <= &BigInt`: the order of the integers.
#[verifier::external_body]
pub(crate) fn int_le(a: &BigInt, b: &BigInt) -> (r: bool)
    ensures
        r == (int_value(*a) <= int_value(*b)),
{
    a <= b
}

} // verus!
