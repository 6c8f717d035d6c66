//! The arbitrary-precision integers of the `num` crate, as the rest of the
//! library sees them: two opaque types, the digits each holds, and one
//! believed contract per operation that the library calls.

use num::{BigInt, BigUint, Integer, Zero};
use vstd::arithmetic::power::pow;
use vstd::prelude::*;

verus! {

#[verifier::external_type_specification]
#[verifier::external_body]
pub struct ExBigUint(num::BigUint);

#[verifier::external_type_specification]
#[verifier::external_body]
pub struct ExBigInt(num::BigInt);

/// The base 2^32 digits that a `BigUint` holds, least significant first:
/// what `BigUint::to_u32_digits` hands out.
pub uninterp spec fn uint_digits(n: BigUint) -> Seq<u32>;

/// The base 2^32 digits of the magnitude that a `BigInt` holds, least
/// significant first: the second half of `BigInt::to_u32_digits`.
pub uninterp spec fn int_digits(n: BigInt) -> Seq<u32>;

/// Whether a `BigInt` holds `Sign::Minus`: the first half of
/// `BigInt::to_u32_digits`.
pub uninterp spec fn int_negative(n: BigInt) -> bool;

/// The number that base 2^32 digits stand for, least significant first.
pub open spec fn digits_value(digits: Seq<u32>) -> nat
    decreases digits.len(),
{
    if digits.len() == 0 {
        0
    } else {
        digits[0] as nat + 0x1_0000_0000 * digits_value(digits.skip(1))
    }
}

/// The natural number that a `BigUint` holds.
pub open spec fn uint_value(n: BigUint) -> nat {
    digits_value(uint_digits(n))
}

/// The integer that a `BigInt` holds.
pub open spec fn int_value(n: BigInt) -> int {
    if int_negative(n) {
        -(digits_value(int_digits(n)) as int)
    } else {
        digits_value(int_digits(n)) as int
    }
}

/// `BigUint::from(u32)`: the number is the argument.
#[verifier::external_body]
pub(crate) fn uint_from_u32(v: u32) -> (r: BigUint)
    ensures
        uint_value(r) == v,
{
    BigUint::from(v)
}

/// `BigUint::clone`: the copy holds the same digits.
#[verifier::external_body]
pub(crate) fn uint_clone(a: &BigUint) -> (r: BigUint)
    ensures
        uint_digits(r) == uint_digits(*a),
{
    a.clone()
}

/// `BigUint`'s `==`: true exactly when both hold the same number.
#[verifier::external_body]
pub(crate) fn uint_eq(a: &BigUint, b: &BigUint) -> (r: bool)
    ensures
        r == (uint_value(*a) == uint_value(*b)),
{
    a == b
}

/// `BigUint`'s `<`: the order of the numbers held.
#[verifier::external_body]
pub(crate) fn uint_lt(a: &BigUint, b: &BigUint) -> (r: bool)
    ensures
        r == (uint_value(*a) < uint_value(*b)),
{
    a < b
}

/// `BigUint`'s `+`: the sum, which never overflows.
#[verifier::external_body]
pub(crate) fn uint_add(a: &BigUint, b: &BigUint) -> (r: BigUint)
    ensures
        uint_value(r) == uint_value(*a) + uint_value(*b),
{
    a + b
}

/// `BigUint`'s `-`: the difference. It panics when the result would be
/// negative, so that case is left out.
#[verifier::external_body]
pub(crate) fn uint_sub(a: &BigUint, b: &BigUint) -> (r: BigUint)
    requires
        uint_value(*b) <= uint_value(*a),
    ensures
        uint_value(r) == uint_value(*a) - uint_value(*b),
{
    a - b
}

/// `BigUint`'s `*`: the product.
#[verifier::external_body]
pub(crate) fn uint_mul(a: &BigUint, b: &BigUint) -> (r: BigUint)
    ensures
        uint_value(r) == uint_value(*a) * uint_value(*b),
{
    a * b
}

/// `BigUint`'s `%`: the remainder. It panics on a zero divisor, so that case
/// is left out.
#[verifier::external_body]
pub(crate) fn uint_rem(a: &BigUint, m: &BigUint) -> (r: BigUint)
    requires
        uint_value(*m) != 0,
    ensures
        uint_value(r) == uint_value(*a) % uint_value(*m),
{
    a % m
}

/// `BigUint::modpow`: `(base ^ exponent) % modulus`. It panics on a zero
/// modulus, so that case is left out.
#[verifier::external_body]
pub(crate) fn uint_modpow(base: &BigUint, exponent: &BigUint, modulus: &BigUint) -> (r: BigUint)
    requires
        uint_value(*modulus) != 0,
    ensures
        uint_value(r) == pow(uint_value(*base) as int, uint_value(*exponent)) % (uint_value(
            *modulus,
        ) as int),
{
    base.modpow(exponent, modulus)
}

/// `BigInt::clone`: the copy holds the same sign and digits.
#[verifier::external_body]
pub(crate) fn int_clone(a: &BigInt) -> (r: BigInt)
    ensures
        int_digits(r) == int_digits(*a),
        int_negative(r) == int_negative(*a),
{
    a.clone()
}

/// `BigInt`'s `==`: true exactly when both hold the same integer.
#[verifier::external_body]
pub(crate) fn int_eq(a: &BigInt, b: &BigInt) -> (r: bool)
    ensures
        r == (int_value(*a) == int_value(*b)),
{
    a == b
}

/// `Zero::is_zero` of `BigInt`: true exactly when it holds zero.
#[verifier::external_body]
pub(crate) fn int_is_zero(a: &BigInt) -> (r: bool)
    ensures
        r == (int_value(*a) == 0),
{
    a.is_zero()
}

/// `BigInt`'s `+`: the sum.
#[verifier::external_body]
pub(crate) fn int_add(a: &BigInt, b: &BigInt) -> (r: BigInt)
    ensures
        int_value(r) == int_value(*a) + int_value(*b),
{
    a + b
}

/// `BigInt`'s `-`: the difference.
#[verifier::external_body]
pub(crate) fn int_sub(a: &BigInt, b: &BigInt) -> (r: BigInt)
    ensures
        int_value(r) == int_value(*a) - int_value(*b),
{
    a - b
}

/// `BigInt`'s `*`: the product.
#[verifier::external_body]
pub(crate) fn int_mul(a: &BigInt, b: &BigInt) -> (r: BigInt)
    ensures
        int_value(r) == int_value(*a) * int_value(*b),
{
    a * b
}

/// `Integer::div_rem` of `BigInt`: quotient and remainder of the division
/// that rounds toward zero, so the remainder is smaller in magnitude than the
/// divisor. It panics on a zero divisor, so that case is left out.
#[verifier::external_body]
pub(crate) fn int_div_rem(a: &BigInt, b: &BigInt) -> (r: (BigInt, BigInt))
    requires
        int_value(*b) != 0,
    ensures
        int_value(*a) == int_value(r.0) * int_value(*b) + int_value(r.1),
        -int_value(*b) < int_value(r.1) < int_value(*b) || int_value(*b) < int_value(r.1)
            < -int_value(*b),
{
    a.div_rem(b)
}

} // verus!
