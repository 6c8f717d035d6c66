//! The arithmetic that field elements and curve points are specified by:
//! the integers, and the integers modulo `m`, seen as one family of rings in
//! which modulus 0 stands for the integers themselves.

use vstd::arithmetic::power::pow;
use vstd::prelude::*;

verus! {

/// What a coordinate denotes: a number and the modulus of the ring it lives
/// in. Modulus 0 is the ring of integers; a positive modulus `m` is the ring
/// of residues `0..m`.
pub struct Scalar {
    pub value: int,
    pub modulus: nat,
}

/// The representative of `v` in the ring of modulus `m`: `v` itself among the
/// integers, else the Euclidean remainder in `0..m`.
pub open spec fn reduce(v: int, m: nat) -> int {
    if m == 0 {
        v
    } else {
        v % (m as int)
    }
}

/// Whether `v` is the representative of its own class.
pub open spec fn is_reduced(v: int, m: nat) -> bool {
    m == 0 || 0 <= v < m
}

/// Whether `u` and `v` stand for the same element of the ring of modulus `m`.
pub open spec fn congruent(u: int, v: int, m: nat) -> bool {
    reduce(u, m) == reduce(v, m)
}

pub open spec fn ring_add(a: int, b: int, m: nat) -> int {
    reduce(a + b, m)
}

pub open spec fn ring_sub(a: int, b: int, m: nat) -> int {
    reduce(a - b, m)
}

pub open spec fn ring_mul(a: int, b: int, m: nat) -> int {
    reduce(a * b, m)
}

pub open spec fn ring_pow(a: int, e: nat, m: nat) -> int {
    reduce(pow(a, e), m)
}

/// The exponent that turns a nonzero residue of a prime modulus into its
/// inverse: `m - 2`, and 0 where that would be negative.
pub open spec fn inverse_exponent(m: nat) -> nat {
    if m >= 2 {
        (m - 2) as nat
    } else {
        0
    }
}

/// Division in a prime field: `a` times `b` raised to `m - 2`. For a prime
/// `m` and `b` not a multiple of it, that power is the inverse of `b`; for
/// any other input the result is still this number, and means nothing.
pub open spec fn field_div(a: int, b: int, m: nat) -> int
    recommends
        m > 0,
{
    reduce(a * pow(b, inverse_exponent(m)), m)
}

/// Whether `a / b` exists in the ring of modulus `m` as this library computes
/// it. Among the integers `b` has to divide `a` exactly. For a positive
/// modulus the candidate inverse `b^(m-2)` has to be an inverse indeed.
pub open spec fn has_quotient(a: int, b: int, m: nat) -> bool {
    if m == 0 {
        b != 0 && a % b == 0
    } else {
        ring_mul(b, ring_pow(b, inverse_exponent(m), m), m) == reduce(1, m)
    }
}

/// The quotient `a / b` in the ring of modulus `m`, where it exists.
pub open spec fn quotient(a: int, b: int, m: nat) -> int
    recommends
        has_quotient(a, b, m),
{
    if m == 0 {
        a / b
    } else {
        field_div(a, b, m)
    }
}

} // verus!
