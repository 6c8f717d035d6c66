//! Prime moduli: every nonzero residue has an inverse, and raised to the
//! modulus less one it gives 1 (Fermat's little theorem).

use crate::congruence::{
    lemma_cancel, lemma_congruent_difference, lemma_congruent_mul, lemma_reduce_idempotent,
};
use crate::ring::{congruent, has_quotient, inverse_exponent, reduce};
use vstd::arithmetic::div_mod::{
    lemma_fundamental_div_mod, lemma_mod_bound, lemma_mod_multiples_vanish,
    lemma_mul_mod_noop_right, lemma_small_mod,
};
use vstd::arithmetic::power::{lemma_pow0, lemma_pow1, lemma_pow_adds, pow};
use vstd::prelude::*;

verus! {

/// Whether `p` is prime: at least 2, and a multiple of nothing between 1 and
/// itself.
pub open spec fn is_prime(p: nat) -> bool {
    &&& p >= 2
    &&& forall|d: int| 1 < d < p ==> #[trigger] ((p as int) % d) != 0
}

/// The product `1 * 2 * ... * n`.
pub open spec fn factorial(n: nat) -> int
    decreases n,
{
    if n == 0 {
        1
    } else {
        n * factorial((n - 1) as nat)
    }
}

/// The product of the entries of `s`.
pub open spec fn product(s: Seq<int>) -> int
    decreases s.len(),
{
    if s.len() == 0 {
        1
    } else {
        s.last() * product(s.drop_last())
    }
}

/// The residues of `a`, `2a`, ..., `n*a` modulo `p`.
pub open spec fn multiples(a: int, p: int, n: nat) -> Seq<int> {
    Seq::new(n, |i: int| (a * (i + 1)) % p)
}

/// Modulo a prime, every number between 0 and the prime has an inverse.
pub proof fn lemma_inverse_exists(a: int, p: nat) -> (x: int)
    requires
        is_prime(p),
        0 < a < p,
    ensures
        congruent(a * x, 1, p),
    decreases a,
{
    let m = p as int;
    if a == 1 {
        1
    } else {
        // p = q * a + r with 0 < r < a, so r is congruent to -q * a
        let q = m / a;
        let r = m % a;
        lemma_fundamental_div_mod(m, a);
        lemma_mod_bound(m, a);
        let y = lemma_inverse_exists(r, p);
        let x = -(q * y);
        assert(a * x == m * (-y) + r * y) by (nonlinear_arith)
            requires
                m == a * q + r,
                x == -(q * y),
        ;
        lemma_mod_multiples_vanish(-y, r * y, m);
        x
    }
}

/// Modulo a prime, a factor that is no multiple of the prime can be
/// cancelled from a product that is one.
pub proof fn lemma_prime_cancel(c: int, d: int, p: nat)
    requires
        is_prime(p),
        reduce(d, p) != 0,
        reduce(c * d, p) == 0,
    ensures
        reduce(c, p) == 0,
{
    let r = reduce(d, p);
    lemma_reduce_idempotent(d, p);
    let x = lemma_inverse_exists(r, p);
    lemma_congruent_mul(c, c, d, r, p);
    lemma_cancel(c, r, x, p);
}

/// The product of a sequence is the entry at `j` times the product of the
/// others.
proof fn lemma_product_remove(s: Seq<int>, j: int)
    requires
        0 <= j < s.len(),
    ensures
        product(s) == s[j] * product(s.remove(j)),
    decreases s.len(),
{
    let front = s.drop_last();
    if j < s.len() - 1 {
        lemma_product_remove(front, j);
        assert(s.remove(j).drop_last() =~= front.remove(j));
        let inner = product(front.remove(j));
        assert(s.last() * (s[j] * inner) == s[j] * (s.last() * inner)) by (nonlinear_arith);
    }
}

/// A sequence of `n` different numbers between 1 and `n` holds each of them,
/// and its product is that of `1, ..., n`.
proof fn lemma_product_of_permutation(s: Seq<int>)
    requires
        forall|i: int| 0 <= i < s.len() ==> 1 <= #[trigger] s[i] <= s.len(),
        forall|i: int, j: int| 0 <= i < j < s.len() ==> s[i] != s[j],
    ensures
        product(s) == factorial(s.len()),
        forall|v: int| 1 <= v <= s.len() ==> #[trigger] s.contains(v),
    decreases s.len(),
{
    let n = s.len() as int;
    if n == 0 {
        return ;
    }
    if !(exists|j: int| 0 <= j < n && s[j] == n) {
        // then the first n - 1 entries fill 1..n-1, and the last repeats one
        let front = s.drop_last();
        assert(forall|i: int| 0 <= i < front.len() ==> 1 <= #[trigger] front[i] <= front.len());
        lemma_product_of_permutation(front);
        assert(front.contains(s[n - 1]));
        assert(false);
    }
    let j = choose|j: int| 0 <= j < n && s[j] == n;
    let rest = s.remove(j);
    s.remove_ensures(j);
    // without it, the others are different numbers between 1 and n - 1
    assert(forall|i: int| 0 <= i < rest.len() ==> 1 <= #[trigger] rest[i] <= rest.len());
    assert(forall|i: int, k: int| 0 <= i < k < rest.len() ==> rest[i] != rest[k]);
    lemma_product_of_permutation(rest);
    lemma_product_remove(s, j);
    assert forall|v: int| 1 <= v <= s.len() implies #[trigger] s.contains(v) by {
        if v != n {
            assert(rest.contains(v));
        }
    }
}

/// The product of the first `n` multiples of `a` is congruent to the `n`th
/// power of `a` times the product of `1, ..., n`.
proof fn lemma_product_of_multiples(a: int, p: nat, n: nat)
    requires
        p > 0,
    ensures
        congruent(product(multiples(a, p as int, n)), pow(a, n) * factorial(n), p),
    decreases n,
{
    let m = p as int;
    let s = multiples(a, m, n);
    if n == 0 {
        lemma_pow0(a);
    } else {
        let before = (n - 1) as nat;
        lemma_product_of_multiples(a, p, before);
        assert(s.drop_last() =~= multiples(a, m, before));
        lemma_reduce_idempotent(a * n, p);
        lemma_congruent_mul(
            s.last(),
            a * n,
            product(s.drop_last()),
            pow(a, before) * factorial(before),
            p,
        );
        lemma_pow_adds(a, before, 1);
        lemma_pow1(a);
        let power = pow(a, before);
        let rest = factorial(before);
        assert((a * n) * (power * rest) == (power * a) * (n * rest)) by (nonlinear_arith);
    }
}

/// Modulo a prime, the product of `1, ..., n` can be cancelled while `n`
/// stays below the prime.
proof fn lemma_cancel_factorial(c: int, n: nat, p: nat)
    requires
        is_prime(p),
        n < p,
        reduce(c * factorial(n), p) == 0,
    ensures
        reduce(c, p) == 0,
    decreases n,
{
    if n > 0 {
        let rest = factorial((n - 1) as nat);
        assert(c * (n * rest) == (c * rest) * n) by (nonlinear_arith);
        lemma_small_mod(n, p);
        lemma_prime_cancel(c * rest, n as int, p);
        lemma_cancel_factorial(c, (n - 1) as nat, p);
    }
}

/// Fermat's little theorem: a number that is no multiple of the prime `p`,
/// raised to `p - 1`, is congruent to 1.
pub proof fn lemma_fermat(a: int, p: nat)
    requires
        is_prime(p),
        reduce(a, p) != 0,
    ensures
        reduce(pow(a, (p - 1) as nat), p) == 1,
{
    let m = p as int;
    let n = (p - 1) as nat;
    let s = multiples(a, m, n);
    // the multiples a, 2a, ..., (p-1)a are different numbers between 1 and p-1
    assert forall|i: int| 0 <= i < s.len() implies 1 <= #[trigger] s[i] <= s.len() by {
        lemma_mod_bound(a * (i + 1), m);
        if s[i] == 0 {
            assert(a * (i + 1) == (i + 1) * a) by (nonlinear_arith);
            lemma_prime_cancel(i + 1, a, p);
            lemma_small_mod((i + 1) as nat, p);
        }
    }
    assert forall|i: int, j: int| 0 <= i < j < s.len() implies s[i] != s[j] by {
        if s[i] == s[j] {
            lemma_congruent_difference(a * (j + 1), a * (i + 1), p);
            assert(a * (j + 1) - a * (i + 1) == (j - i) * a) by (nonlinear_arith);
            lemma_prime_cancel(j - i, a, p);
            lemma_small_mod((j - i) as nat, p);
        }
    }
    lemma_product_of_permutation(s);
    lemma_product_of_multiples(a, p, n);
    // so a^(p-1) * (p-1)! is congruent to (p-1)!, and (p-1)! can be cancelled
    let power = pow(a, n);
    let all = factorial(n);
    lemma_congruent_difference(all, power * all, p);
    assert(all - power * all == (1 - power) * all) by (nonlinear_arith);
    lemma_cancel_factorial(1 - power, n, p);
    lemma_congruent_difference(1, power, p);
    lemma_small_mod(1, p);
}

/// In the field of a prime `p`, a nonzero residue times its power `p - 2` is
/// 1: that power is its inverse, so every quotient by it exists.
pub proof fn lemma_prime_field_has_quotients(a: int, b: int, p: nat)
    requires
        is_prime(p),
        reduce(b, p) != 0,
    ensures
        has_quotient(a, b, p),
{
    let e = inverse_exponent(p);
    lemma_fermat(b, p);
    lemma_pow_adds(b, 1, e);
    lemma_pow1(b);
    lemma_mul_mod_noop_right(b, pow(b, e), p as int);
    lemma_small_mod(1, p);
}

} // verus!
