//! Unbounded integers for the intermediate products of pool quotes, from num-bigint.
use num_bigint::BigInt;
use num_traits::ToPrimitive;
use vstd::prelude::*;

verus! {

#[verifier::external_type_specification]
#[verifier::external_body]
pub struct ExBigInt(BigInt);

/// The integer that a `BigInt` holds.
pub uninterp spec fn big_value(b: BigInt) -> int;

/// Relies on `From<u64> for num_bigint::BigInt`: the result holds the same integer.
#[verifier::external_body]
pub(crate) fn big_from(v: u64) -> (r: BigInt)
    ensures
        big_value(r) == v as int,
{
    BigInt::from(v)
}

/// Relies on `Mul for num_bigint::BigInt`: the exact product.
#[verifier::external_body]
pub(crate) fn big_mul(a: BigInt, b: BigInt) -> (r: BigInt)
    ensures
        big_value(r) == big_value(a) * big_value(b),
{
    a * b
}

/// Relies on `Add for num_bigint::BigInt`: the exact sum.
#[verifier::external_body]
pub(crate) fn big_add(a: BigInt, b: BigInt) -> (r: BigInt)
    ensures
        big_value(r) == big_value(a) + big_value(b),
{
    a + b
}

/// Relies on `Div for num_bigint::BigInt`, which truncates toward zero and panics on a
/// zero divisor: for a non-negative dividend and a positive divisor that is the floor.
#[verifier::external_body]
pub(crate) fn big_div(a: BigInt, b: BigInt) -> (r: BigInt)
    requires
        big_value(a) >= 0,
        big_value(b) > 0,
    ensures
        big_value(r) == big_value(a) / big_value(b),
{
    a / b
}

/// Relies on `num_traits::ToPrimitive::to_u64` for `BigInt`: `Some` exactly when the
/// integer fits a `u64`.
#[verifier::external_body]
pub(crate) fn big_to_u64(a: &BigInt) -> (r: Option<u64>)
    ensures
        r is Some <==> 0 <= big_value(*a) <= u64::MAX,
        r is Some ==> r->Some_0 as int == big_value(*a),
{
    a.to_u64()
}

} // verus!
