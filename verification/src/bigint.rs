//! Trusted surface over `num_bigint::BigInt`.
//!
//! The rest of the crate manipulates arbitrary-precision integers only
//! through the wrappers below.  Each wrapper makes a single call into
//! `num_bigint` (or a `num_traits` method implemented by `BigInt`) and
//! states, over the abstract integer `big_value`, exactly what that call
//! returns.  `BigInt` division and remainder truncate toward zero, so the
//! remainder carries the sign of the dividend; the contracts state this
//! through `trunc_rem`.

use vstd::prelude::*;
use num_bigint::BigInt;
use num_traits::{One, Signed, Zero};

verus! {

#[verifier::external_type_specification]
#[verifier::external_body]
pub struct ExBigInt(BigInt);

/// The integer that a `BigInt` holds.
pub uninterp spec fn big_value(b: BigInt) -> int;

/// Remainder of truncating division: it carries the sign of the dividend,
/// unlike the always-nonnegative mathematical `%`.
pub open spec fn trunc_rem(a: int, b: int) -> int
    recommends
        b > 0,
{
    if a >= 0 {
        a % b
    } else {
        -((-a) % b)
    }
}

/// Relies on `<BigInt as From<u64>>::from`: builds the integer with that value.
#[verifier::external_body]
pub fn big_from_u64(v: u64) -> (r: BigInt)
    ensures
        big_value(r) == v,
{
    BigInt::from(v)
}

/// Relies on `<BigInt as From<i32>>::from`: builds the integer with that value.
#[verifier::external_body]
pub fn big_from_i32(v: i32) -> (r: BigInt)
    ensures
        big_value(r) == v,
{
    BigInt::from(v)
}

/// Relies on `<BigInt as Clone>::clone`: the copy holds the same integer.
#[verifier::external_body]
pub fn big_clone(a: &BigInt) -> (r: BigInt)
    ensures
        big_value(r) == big_value(*a),
{
    a.clone()
}

/// Relies on `Add for &BigInt`: exact integer addition.
#[verifier::external_body]
pub fn big_add(a: &BigInt, b: &BigInt) -> (r: BigInt)
    ensures
        big_value(r) == big_value(*a) + big_value(*b),
{
    a + b
}

/// Relies on `Sub for &BigInt`: exact integer subtraction.
#[verifier::external_body]
pub fn big_sub(a: &BigInt, b: &BigInt) -> (r: BigInt)
    ensures
        big_value(r) == big_value(*a) - big_value(*b),
{
    a - b
}

/// Relies on `Mul for &BigInt`: exact integer multiplication.
#[verifier::external_body]
pub fn big_mul(a: &BigInt, b: &BigInt) -> (r: BigInt)
    ensures
        big_value(r) == big_value(*a) * big_value(*b),
{
    a * b
}

/// Relies on `Div for &BigInt`: quotient of truncating division, which on
/// nonnegative operands agrees with the mathematical quotient.
#[verifier::external_body]
pub fn big_div(a: &BigInt, b: &BigInt) -> (r: BigInt)
    requires
        big_value(*b) != 0,
    ensures
        big_value(*a) >= 0 && big_value(*b) > 0 ==> big_value(r) == big_value(*a) / big_value(
            *b,
        ),
{
    a / b
}

/// Relies on `Rem for &BigInt`: remainder of truncating division.
#[verifier::external_body]
pub fn big_rem(a: &BigInt, b: &BigInt) -> (r: BigInt)
    requires
        big_value(*b) != 0,
    ensures
        big_value(*b) > 0 ==> big_value(r) == trunc_rem(big_value(*a), big_value(*b)),
{
    a % b
}

/// Relies on `PartialOrd for BigInt`, which orders by integer value.
#[verifier::external_body]
pub fn big_lt(a: &BigInt, b: &BigInt) -> (r: bool)
    ensures
        r == (big_value(*a) < big_value(*b)),
{
    a < b
}

/// Relies on `PartialEq for BigInt`, which compares the integer values.
#[verifier::external_body]
pub fn big_eq(a: &BigInt, b: &BigInt) -> (r: bool)
    ensures
        r == (big_value(*a) == big_value(*b)),
{
    a == b
}

/// Relies on `<BigInt as Zero>::zero`: the integer zero.
#[verifier::external_body]
pub fn big_zero() -> (r: BigInt)
    ensures
        big_value(r) == 0,
{
    BigInt::zero()
}

/// Relies on `<BigInt as One>::one`: the integer one.
#[verifier::external_body]
pub fn big_one() -> (r: BigInt)
    ensures
        big_value(r) == 1,
{
    BigInt::one()
}

/// Relies on `<BigInt as Signed>::is_negative`.
#[verifier::external_body]
pub fn big_is_negative(a: &BigInt) -> (r: bool)
    ensures
        r == (big_value(*a) < 0),
{
    a.is_negative()
}

/// Relies on `<BigInt as Zero>::is_zero`.
#[verifier::external_body]
pub fn big_is_zero(a: &BigInt) -> (r: bool)
    ensures
        r == (big_value(*a) == 0),
{
    a.is_zero()
}

/// Relies on `<BigInt as One>::is_one`.
#[verifier::external_body]
pub fn big_is_one(a: &BigInt) -> (r: bool)
    ensures
        r == (big_value(*a) == 1),
{
    a.is_one()
}

} // verus!
