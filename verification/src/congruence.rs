//! Lemmas on `reduce`: that it respects sums, differences and products, and
//! when a factor can be cancelled.

use crate::ring::{congruent, has_quotient, inverse_exponent, quotient, reduce, ring_pow};
use vstd::arithmetic::div_mod::{
    lemma_add_mod_noop, lemma_fundamental_div_mod, lemma_mod_bound, lemma_mod_equivalence,
    lemma_mod_twice, lemma_mul_mod_noop, lemma_small_mod, lemma_sub_mod_noop,
};
use vstd::arithmetic::power::{lemma_pow_mod_noop, pow};
use vstd::prelude::*;

verus! {

/// A representative is in the ring's range and is its own representative.
pub proof fn lemma_reduce_idempotent(v: int, m: nat)
    ensures
        m > 0 ==> 0 <= reduce(v, m) < m,
        reduce(reduce(v, m), m) == reduce(v, m),
        congruent(reduce(v, m), v, m),
{
    if m > 0 {
        lemma_mod_bound(v, m as int);
        lemma_mod_twice(v, m as int);
    }
}

/// Two numbers are congruent exactly when their difference reduces to zero.
pub proof fn lemma_congruent_difference(u: int, v: int, m: nat)
    ensures
        congruent(u, v, m) <==> reduce(u - v, m) == 0,
{
    if m > 0 {
        lemma_mod_equivalence(u, v, m as int);
    }
}

/// Congruent summands give congruent sums.
pub proof fn lemma_congruent_add(u1: int, v1: int, u2: int, v2: int, m: nat)
    requires
        congruent(u1, v1, m),
        congruent(u2, v2, m),
    ensures
        congruent(u1 + u2, v1 + v2, m),
{
    if m > 0 {
        lemma_add_mod_noop(u1, u2, m as int);
        lemma_add_mod_noop(v1, v2, m as int);
    }
}

/// Congruent terms give congruent differences.
pub proof fn lemma_congruent_sub(u1: int, v1: int, u2: int, v2: int, m: nat)
    requires
        congruent(u1, v1, m),
        congruent(u2, v2, m),
    ensures
        congruent(u1 - u2, v1 - v2, m),
{
    if m > 0 {
        lemma_sub_mod_noop(u1, u2, m as int);
        lemma_sub_mod_noop(v1, v2, m as int);
    }
}

/// Congruent factors give congruent products.
pub proof fn lemma_congruent_mul(u1: int, v1: int, u2: int, v2: int, m: nat)
    requires
        congruent(u1, v1, m),
        congruent(u2, v2, m),
    ensures
        congruent(u1 * u2, v1 * v2, m),
{
    if m > 0 {
        lemma_mul_mod_noop(u1, u2, m as int);
        lemma_mul_mod_noop(v1, v2, m as int);
    }
}

/// Congruent bases give congruent powers.
pub proof fn lemma_congruent_pow(u: int, v: int, e: nat, m: nat)
    requires
        congruent(u, v, m),
    ensures
        congruent(pow(u, e), pow(v, e), m),
{
    if m > 0 {
        lemma_pow_mod_noop(u, e, m as int);
        lemma_pow_mod_noop(v, e, m as int);
    }
}

/// A multiple of something that reduces to zero reduces to zero.
pub proof fn lemma_zero_times(z: int, w: int, m: nat)
    requires
        reduce(z, m) == 0,
    ensures
        reduce(z * w, m) == 0,
        reduce(w * z, m) == 0,
{
    if m > 0 {
        lemma_small_mod(0, m);
        lemma_congruent_mul(z, 0, w, w, m);
        lemma_congruent_mul(w, w, z, 0, m);
    } else {
        assert(z * w == 0 && w * z == 0) by (nonlinear_arith)
            requires
                z == 0,
        ;
    }
}

/// Sums and differences of things that reduce to zero reduce to zero.
pub proof fn lemma_zero_plus(z1: int, z2: int, m: nat)
    requires
        reduce(z1, m) == 0,
        reduce(z2, m) == 0,
    ensures
        reduce(z1 + z2, m) == 0,
        reduce(z1 - z2, m) == 0,
{
    if m > 0 {
        lemma_small_mod(0, m);
        lemma_congruent_add(z1, 0, z2, 0, m);
        lemma_congruent_sub(z1, 0, z2, 0, m);
    }
}

/// Among the integers, a quotient that leaves no remainder is the Euclidean
/// one, and only such a division leaves none.
pub proof fn lemma_exact_division(a: int, b: int, q: int, r: int)
    requires
        b != 0,
        a == q * b + r,
        -b < r < b || b < r < -b,
    ensures
        r == 0 <==> a % b == 0,
        r == 0 ==> a / b == q,
{
    assert(r == 0 <==> a % b == 0) by (nonlinear_arith)
        requires
            b != 0,
            a == q * b + r,
            -b < r < b || b < r < -b,
    ;
    if r == 0 {
        assert(a / b == q) by (nonlinear_arith)
            requires
                b != 0,
                a == q * b,
        ;
    }
}

/// A factor with an inverse can be cancelled from a product that reduces to
/// zero; among the integers, any nonzero factor can.
pub proof fn lemma_cancel(c: int, d: int, inverse: int, m: nat)
    requires
        reduce(c * d, m) == 0,
        if m == 0 {
            d != 0
        } else {
            congruent(d * inverse, 1, m)
        },
    ensures
        reduce(c, m) == 0,
{
    if m == 0 {
        assert(c == 0) by (nonlinear_arith)
            requires
                c * d == 0,
                d != 0,
        ;
    } else {
        // c == c * 1, which is congruent to c * (d * inverse) == (c * d) * inverse
        lemma_congruent_mul(c, c, d * inverse, 1, m);
        assert(c * (d * inverse) == (c * d) * inverse) by (nonlinear_arith);
        lemma_zero_times(c * d, inverse, m);
    }
}

/// Whether a quotient exists, and which, depends on the classes of dividend
/// and divisor only.
pub proof fn lemma_quotient_congruent(a1: int, b1: int, a2: int, b2: int, m: nat)
    requires
        congruent(a1, a2, m),
        congruent(b1, b2, m),
    ensures
        has_quotient(a1, b1, m) == has_quotient(a2, b2, m),
        quotient(a1, b1, m) == quotient(a2, b2, m),
{
    if m > 0 {
        let e = inverse_exponent(m);
        lemma_congruent_pow(b1, b2, e, m);
        lemma_congruent_mul(a1, a2, pow(b1, e), pow(b2, e), m);
        lemma_congruent_mul(b1, b2, ring_pow(b1, e, m), ring_pow(b2, e, m), m);
    }
}

/// Where a quotient exists, it is one: multiplied by the divisor it gives
/// back the dividend. The divisor can then be cancelled from any product
/// that reduces to zero.
pub proof fn lemma_quotient_is_exact(a: int, b: int, m: nat)
    requires
        has_quotient(a, b, m),
    ensures
        congruent(quotient(a, b, m) * b, a, m),
        forall|c: int| reduce(#[trigger] (c * b), m) == 0 ==> reduce(c, m) == 0,
{
    let q = quotient(a, b, m);
    if m == 0 {
        lemma_fundamental_div_mod(a, b);
        assert(q * b == b * q) by (nonlinear_arith);
        assert forall|c: int| reduce(#[trigger] (c * b), m) == 0 implies reduce(c, m) == 0 by {
            lemma_cancel(c, b, 0, m);
        }
    } else {
        let e = inverse_exponent(m);
        let inverse = ring_pow(b, e, m);
        // b * inverse is congruent to 1
        lemma_reduce_idempotent(b * inverse, m);
        lemma_reduce_idempotent(1, m);
        // q is congruent to a * inverse
        lemma_reduce_idempotent(pow(b, e), m);
        lemma_congruent_mul(a, a, inverse, pow(b, e), m);
        lemma_reduce_idempotent(a * pow(b, e), m);
        // so q * b is congruent to a * (inverse * b)
        lemma_congruent_mul(q, a * inverse, b, b, m);
        assert((a * inverse) * b == a * (b * inverse)) by (nonlinear_arith);
        lemma_congruent_mul(a, a, b * inverse, 1, m);
        assert forall|c: int| reduce(#[trigger] (c * b), m) == 0 implies reduce(c, m) == 0 by {
            lemma_cancel(c, b, inverse, m);
        }
    }
}

} // verus!
