//! Trusted interface to `num`'s arbitrary-precision integers.
//!
//! The exact degeneracy test needs the products `3*b*b` and `l*l` for values
//! that can reach about `10^34`, whose squares overflow every machine integer.
//! They are formed with `num::BigInt`, which cannot overflow; `big_val` names
//! the integer that such a value stands for.

use vstd::prelude::*;

verus! {

#[verifier::external_type_specification]
#[verifier::external_body]
pub struct ExBigInt(num::BigInt);

/// The integer value that a `num::BigInt` holds.
pub uninterp spec fn big_val(b: num::BigInt) -> int;

/// Relies on `impl From<i128> for num::BigInt`: the result holds exactly the
/// given value.
#[verifier::external_body]
pub(crate) fn big_from_i128(x: i128) -> (r: num::BigInt)
    ensures
        big_val(r) == x as int,
{
    num::BigInt::from(x)
}

/// Relies on `impl Mul for &num::BigInt`: arbitrary-precision product, exact
/// for every pair of operands.
#[verifier::external_body]
pub(crate) fn big_mul(a: &num::BigInt, b: &num::BigInt) -> (r: num::BigInt)
    ensures
        big_val(r) == big_val(*a) * big_val(*b),
{
    a * b
}

/// Relies on `impl Ord for num::BigInt`: big integers compare by their numeric
/// value.
#[verifier::external_body]
pub(crate) fn big_lt(a: &num::BigInt, b: &num::BigInt) -> (r: bool)
    ensures
        r == (big_val(*a) < big_val(*b)),
{
    a < b
}

} // verus!
