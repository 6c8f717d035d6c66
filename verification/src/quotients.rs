//! Quotients among the integers and in a prime field: where a divisor is no
//! multiple of the modulus, whatever is congruent to a multiple of it can be
//! divided by it.

use crate::congruence::{
    lemma_congruent_difference, lemma_congruent_sub, lemma_exact_division,
    lemma_quotient_is_exact, lemma_reduce_idempotent, lemma_zero_plus, lemma_zero_times,
};
use crate::primes::{is_prime, lemma_prime_field_has_quotients};
use crate::ring::{
    congruent, has_quotient, inverse_exponent, is_reduced, quotient, reduce, ring_pow,
};
use vstd::arithmetic::div_mod::{
    lemma_fundamental_div_mod, lemma_mod_equivalence, lemma_small_mod,
};
use vstd::arithmetic::power::pow;
use vstd::prelude::*;

verus! {

/// Two different representatives differ by no multiple of the modulus.
pub proof fn lemma_distinct_representatives(u: int, v: int, m: nat)
    requires
        is_reduced(u, m),
        is_reduced(v, m),
        u != v,
    ensures
        reduce(u - v, m) != 0,
{
    if m > 0 {
        lemma_mod_equivalence(u, v, m as int);
        lemma_small_mod(u as nat, m);
        lemma_small_mod(v as nat, m);
    }
}

/// Where `n` is congruent to `t * d` and `d` is no multiple of the modulus,
/// `n / d` exists and is congruent to `t`: among the integers, and modulo a
/// prime.
pub proof fn lemma_quotient_of_multiple(n: int, d: int, t: int, m: nat)
    requires
        m == 0 || is_prime(m),
        reduce(d, m) != 0,
        congruent(n, t * d, m),
    ensures
        has_quotient(n, d, m),
        congruent(quotient(n, d, m), t, m),
{
    if m == 0 {
        lemma_exact_division(n, d, t, 0);
    } else {
        lemma_prime_field_has_quotients(n, d, m);
        let s = quotient(n, d, m);
        lemma_quotient_is_exact(n, d, m);
        lemma_congruent_sub(s * d, n, t * d, n, m);
        assert(s * d - t * d == (s - t) * d) by (nonlinear_arith);
        assert(reduce(n - n, m) == 0) by {
            lemma_small_mod(0, m);
        }
        lemma_congruent_difference(s, t, m);
    }
}

/// Among the integers and in a prime field, `(-a) / (-b)` exists exactly
/// when `a / b` does, and is the same.
pub proof fn lemma_quotient_of_negatives(a: int, b: int, m: nat)
    requires
        m == 0 || is_prime(m),
    ensures
        has_quotient(-a, -b, m) == has_quotient(a, b, m),
        has_quotient(a, b, m) ==> quotient(-a, -b, m) == quotient(a, b, m),
{
    if m == 0 {
        if b != 0 {
            if a % b == 0 {
                lemma_fundamental_div_mod(a, b);
                let k = a / b;
                assert(-a == k * (-b) + 0) by (nonlinear_arith)
                    requires
                        a == b * k,
                ;
                lemma_exact_division(-a, -b, k, 0);
            }
            if (-a) % (-b) == 0 {
                lemma_fundamental_div_mod(-a, -b);
                let k = (-a) / (-b);
                assert(a == k * b + 0) by (nonlinear_arith)
                    requires
                        -a == (-b) * k,
                ;
                lemma_exact_division(a, b, k, 0);
            }
        }
    } else {
        // a quotient by b exists exactly when b is no multiple of m
        lemma_small_mod(1, m);
        lemma_small_mod(0, m);
        if reduce(b, m) == 0 {
            lemma_zero_times(b, ring_pow(b, inverse_exponent(m), m), m);
            lemma_zero_times(b, -1, m);
        } else {
            lemma_prime_field_has_quotients(a, b, m);
        }
        if reduce(-b, m) == 0 {
            lemma_zero_times(-b, -1, m);
            lemma_zero_times(-b, ring_pow(-b, inverse_exponent(m), m), m);
        } else {
            lemma_prime_field_has_quotients(-a, -b, m);
        }
        if has_quotient(a, b, m) {
            // both quotients, times b, give a
            let s = quotient(a, b, m);
            let t = quotient(-a, -b, m);
            lemma_quotient_is_exact(a, b, m);
            lemma_quotient_is_exact(-a, -b, m);
            lemma_congruent_difference(s * b, a, m);
            lemma_congruent_difference(t * (-b), -a, m);
            lemma_zero_plus(s * b - a, t * (-b) - (-a), m);
            assert((s * b - a) + (t * (-b) - (-a)) == (s - t) * b) by (nonlinear_arith);
            lemma_congruent_difference(s, t, m);
            lemma_reduce_idempotent(a * pow(b, inverse_exponent(m)), m);
            lemma_reduce_idempotent((-a) * pow(-b, inverse_exponent(m)), m);
            lemma_small_mod(s as nat, m);
            lemma_small_mod(t as nat, m);
        }
    }
}

} // verus!
