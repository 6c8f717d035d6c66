//! The group law of a short Weierstrass curve, stated over numbers, and the
//! proof that the sum of two points of a curve lies on that curve.

use crate::congruence::{
    lemma_congruent_add, lemma_congruent_difference, lemma_congruent_mul, lemma_congruent_sub,
    lemma_quotient_is_exact, lemma_reduce_idempotent, lemma_zero_plus, lemma_zero_times,
};
use crate::primes::is_prime;
use crate::quotients::lemma_quotient_of_negatives;
use crate::ring::{congruent, has_quotient, quotient, reduce};
use vstd::prelude::*;

verus! {

/// Whether `(x, y)` satisfies `y^2 = x^3 + a*x + b` in the ring of modulus `m`.
pub open spec fn on_curve(x: int, y: int, a: int, b: int, m: nat) -> bool {
    congruent(y * y, x * x * x + a * x + b, m)
}

/// The numerator of the slope of the line through `(x1, y1)` and `(x2, y2)`:
/// of the tangent where both are one point, of the chord otherwise.
pub open spec fn slope_numerator(x1: int, y1: int, x2: int, y2: int, a: int) -> int {
    if x1 == x2 {
        3 * x1 * x1 + a
    } else {
        y2 - y1
    }
}

/// The denominator of that slope.
pub open spec fn slope_denominator(x1: int, y1: int, x2: int, y2: int) -> int {
    if x1 == x2 {
        2 * y1
    } else {
        x2 - x1
    }
}

/// Whether the line through the two points has a slope in the ring.
pub open spec fn has_slope(x1: int, y1: int, x2: int, y2: int, a: int, m: nat) -> bool {
    has_quotient(slope_numerator(x1, y1, x2, y2, a), slope_denominator(x1, y1, x2, y2), m)
}

/// The slope of the line through the two points.
pub open spec fn slope(x1: int, y1: int, x2: int, y2: int, a: int, m: nat) -> int {
    quotient(slope_numerator(x1, y1, x2, y2, a), slope_denominator(x1, y1, x2, y2), m)
}

/// The first coordinate of the sum of two points joined by a line of slope `s`.
pub open spec fn sum_x(x1: int, x2: int, s: int, m: nat) -> int {
    reduce(s * s - x1 - x2, m)
}

/// The second coordinate of that sum, `x3` being the first.
pub open spec fn sum_y(x1: int, y1: int, x3: int, s: int, m: nat) -> int {
    reduce(s * (x1 - x3) - y1, m)
}

/// Membership in a curve depends only on the classes of the coordinates.
pub proof fn lemma_on_curve_congruent(x: int, y: int, u: int, v: int, a: int, b: int, m: nat)
    requires
        congruent(x, u, m),
        congruent(y, v, m),
    ensures
        on_curve(x, y, a, b, m) == on_curve(u, v, a, b, m),
{
    lemma_congruent_mul(y, v, y, v, m);
    lemma_congruent_mul(x, u, x, u, m);
    lemma_congruent_mul(x * x, u * u, x, u, m);
    lemma_congruent_mul(a, a, x, u, m);
    lemma_congruent_add(x * x * x, u * u * u, a * x, a * u, m);
    lemma_congruent_add(x * x * x + a * x, u * u * u + a * u, b, b, m);
}

/// The cube of a sum.
proof fn lemma_cube_of_sum(p: int, q: int)
    ensures
        (p + q) * (p + q) * (p + q) == p * p * p + 3 * (p * p * q) + 3 * (p * (q * q)) + q * (q
            * q),
{
    assert((p + q) * (p + q) == p * p + 2 * (p * q) + q * q) by (nonlinear_arith);
    assert((p * p + 2 * (p * q) + q * q) * (p + q) == p * p * p + 3 * (p * p * q) + 3 * (p * (q
        * q)) + q * (q * q)) by (nonlinear_arith);
}

/// The square of `s*k`, where `s*s` is `d + 3*x + w`.
proof fn lemma_square_of_slope_multiple(s: int, k: int, d: int, x: int, w: int)
    requires
        s * s == d + 3 * x + w,
    ensures
        (s * k) * (s * k) == d * (k * k) + 3 * (x * (k * k)) + w * (k * k),
{
    let ss = s * s;
    let kk = k * k;
    assert((s * k) * (s * k) == ss * kk) by (nonlinear_arith)
        requires
            ss == s * s,
            kk == k * k,
    ;
    assert(ss * kk == d * kk + 3 * (x * kk) + w * kk) by (nonlinear_arith)
        requires
            ss == d + 3 * x + w,
    ;
}

/// With `w = x3 - x1` and `c = 3*x1^2 + a - 2*s*y1 - w*(x2 - x1)`, the curve's
/// equation at the sum differs from the equation at the first point by `w*c`.
proof fn lemma_sum_identity(s: int, x1: int, y1: int, x2: int, a: int, b: int)
    ensures
        ({
            let x3 = s * s - x1 - x2;
            let y3 = s * (x1 - x3) - y1;
            let w = x3 - x1;
            let c = 3 * x1 * x1 + a - 2 * s * y1 - w * (x2 - x1);
            y3 * y3 - (x3 * x3 * x3 + a * x3 + b) == (y1 * y1 - (x1 * x1 * x1 + a * x1 + b)) - w
                * c
        }),
{
    let x3 = s * s - x1 - x2;
    let y3 = s * (x1 - x3) - y1;
    let w = x3 - x1;
    let d = x2 - x1;
    let c = 3 * x1 * x1 + a - 2 * s * y1 - w * d;
    let t = s * w;
    assert(s * (x1 - x3) == -t) by (nonlinear_arith)
        requires
            x1 - x3 == -w,
            t == s * w,
    ;
    assert(y3 * y3 == t * t + 2 * (t * y1) + y1 * y1) by (nonlinear_arith)
        requires
            y3 == -t - y1,
    ;
    lemma_cube_of_sum(x1, w);
    assert(a * x3 == a * x1 + a * w) by (nonlinear_arith)
        requires
            x3 == x1 + w,
    ;
    lemma_square_of_slope_multiple(s, w, d, x1, w);
    assert(w * c == 3 * (x1 * x1 * w) + a * w - 2 * (t * y1) - d * (w * w)) by (nonlinear_arith)
        requires
            c == 3 * x1 * x1 + a - 2 * s * y1 - w * d,
            t == s * w,
    ;
}

/// For a chord, `c` times `x2 - x1` is a combination of the curve's equation
/// at both points and of the equation that defines the slope.
proof fn lemma_chord_identity(s: int, x1: int, y1: int, x2: int, y2: int, a: int, b: int)
    ensures
        ({
            let x3 = s * s - x1 - x2;
            let w = x3 - x1;
            let c = 3 * x1 * x1 + a - 2 * s * y1 - w * (x2 - x1);
            let e1 = y1 * y1 - (x1 * x1 * x1 + a * x1 + b);
            let e2 = y2 * y2 - (x2 * x2 * x2 + a * x2 + b);
            let h = s * (x2 - x1) - (y2 - y1);
            c * (x2 - x1) == e1 - e2 - h * (2 * y2 + h)
        }),
{
    let x3 = s * s - x1 - x2;
    let w = x3 - x1;
    let d = x2 - x1;
    let c = 3 * x1 * x1 + a - 2 * s * y1 - w * d;
    let u = s * d;
    let h = u - (y2 - y1);
    lemma_cube_of_sum(x1, d);
    assert(a * x2 == a * x1 + a * d) by (nonlinear_arith)
        requires
            x2 == x1 + d,
    ;
    lemma_square_of_slope_multiple(s, d, d, x1, w);
    assert(c * d == 3 * (x1 * x1 * d) + a * d - 2 * (u * y1) - w * (d * d)) by (nonlinear_arith)
        requires
            c == 3 * x1 * x1 + a - 2 * s * y1 - w * d,
            u == s * d,
    ;
    assert(h * (2 * y2 + h) == u * u + 2 * (u * y1) + y1 * y1 - y2 * y2) by (nonlinear_arith)
        requires
            h == u - (y2 - y1),
    ;
}

/// What holds of the line through two points of a curve: it leads from the
/// first to the second, and the number `c` by which the curve's equation at
/// the sum differs from that at the first point reduces to zero.
pub proof fn lemma_line_through(x1: int, y1: int, x2: int, y2: int, a: int, b: int, m: nat)
    requires
        on_curve(x1, y1, a, b, m),
        on_curve(x2, y2, a, b, m),
        x1 == x2 ==> y1 == y2,
        has_slope(x1, y1, x2, y2, a, m),
    ensures
        ({
            let s = slope(x1, y1, x2, y2, a, m);
            &&& congruent(y1 + s * (x2 - x1), y2, m)
            &&& reduce(3 * x1 * x1 + a - 2 * s * y1 - (s * s - 2 * x1 - x2) * (x2 - x1), m) == 0
        }),
{
    let s = slope(x1, y1, x2, y2, a, m);
    let n = slope_numerator(x1, y1, x2, y2, a);
    let d = slope_denominator(x1, y1, x2, y2);
    let w = s * s - 2 * x1 - x2;
    let c = 3 * x1 * x1 + a - 2 * s * y1 - w * (x2 - x1);
    let e1 = y1 * y1 - (x1 * x1 * x1 + a * x1 + b);
    let e2 = y2 * y2 - (x2 * x2 * x2 + a * x2 + b);
    let h = s * d - n;
    lemma_congruent_difference(y1 * y1, x1 * x1 * x1 + a * x1 + b, m);
    lemma_congruent_difference(y2 * y2, x2 * x2 * x2 + a * x2 + b, m);
    lemma_quotient_is_exact(n, d, m);
    lemma_congruent_difference(s * d, n, m);
    if x1 == x2 {
        assert(c == -h) by (nonlinear_arith)
            requires
                c == 3 * x1 * x1 + a - 2 * s * y1 - w * (x2 - x1),
                h == s * (2 * y1) - (3 * x1 * x1 + a),
                x1 == x2,
        ;
        lemma_zero_times(h, -1, m);
        assert(s * (x2 - x1) == 0) by (nonlinear_arith)
            requires
                x1 == x2,
        ;
    } else {
        lemma_chord_identity(s, x1, y1, x2, y2, a, b);
        lemma_zero_times(h, 2 * y2 + h, m);
        lemma_zero_plus(e1, e2, m);
        lemma_zero_plus(e1 - e2, h * (2 * y2 + h), m);
        lemma_congruent_add(y1, y1, s * d, n, m);
    }
}

/// The sum of two points of a curve lies on the curve, whenever the line
/// through them has a slope: the group law does not lead off the curve, in
/// the integers and modulo any `m`.
pub proof fn lemma_sum_on_curve(x1: int, y1: int, x2: int, y2: int, a: int, b: int, m: nat)
    requires
        on_curve(x1, y1, a, b, m),
        on_curve(x2, y2, a, b, m),
        x1 == x2 ==> y1 == y2,
        has_slope(x1, y1, x2, y2, a, m),
    ensures
        ({
            let s = slope(x1, y1, x2, y2, a, m);
            let x3 = sum_x(x1, x2, s, m);
            on_curve(x3, sum_y(x1, y1, x3, s, m), a, b, m)
        }),
{
    let s = slope(x1, y1, x2, y2, a, m);
    // the unreduced sum
    let u = s * s - x1 - x2;
    let v = s * (x1 - u) - y1;
    let w = u - x1;
    let c = 3 * x1 * x1 + a - 2 * s * y1 - w * (x2 - x1);
    let e1 = y1 * y1 - (x1 * x1 * x1 + a * x1 + b);
    lemma_congruent_difference(y1 * y1, x1 * x1 * x1 + a * x1 + b, m);
    lemma_line_through(x1, y1, x2, y2, a, b, m);
    lemma_sum_identity(s, x1, y1, x2, a, b);
    lemma_zero_times(c, w, m);
    lemma_zero_plus(e1, w * c, m);
    lemma_congruent_difference(v * v, u * u * u + a * u + b, m);
    // the reduced sum is congruent to the unreduced one
    let x3 = sum_x(x1, x2, s, m);
    let y3 = sum_y(x1, y1, x3, s, m);
    lemma_reduce_idempotent(u, m);
    lemma_congruent_sub(x1, x1, x3, u, m);
    lemma_congruent_mul(s, s, x1 - x3, x1 - u, m);
    lemma_congruent_sub(s * (x1 - x3), s * (x1 - u), y1, y1, m);
    lemma_reduce_idempotent(s * (x1 - x3) - y1, m);
    lemma_on_curve_congruent(x3, y3, u, v, a, b, m);
}

/// The line through two points does not depend on their order: it has the
/// same slope, and leads to the same sum.
pub proof fn lemma_line_symmetric(x1: int, y1: int, x2: int, y2: int, a: int, b: int, m: nat)
    requires
        m == 0 || is_prime(m),
        on_curve(x1, y1, a, b, m),
        on_curve(x2, y2, a, b, m),
        x1 == x2 ==> y1 == y2,
        has_slope(x1, y1, x2, y2, a, m),
    ensures
        has_slope(x2, y2, x1, y1, a, m),
        slope(x2, y2, x1, y1, a, m) == slope(x1, y1, x2, y2, a, m),
        ({
            let s = slope(x1, y1, x2, y2, a, m);
            let x3 = sum_x(x1, x2, s, m);
            &&& sum_x(x2, x1, s, m) == x3
            &&& sum_y(x2, y2, x3, s, m) == sum_y(x1, y1, x3, s, m)
        }),
{
    if x1 != x2 {
        let s = slope(x1, y1, x2, y2, a, m);
        let x3 = sum_x(x1, x2, s, m);
        lemma_quotient_of_negatives(y2 - y1, x2 - x1, m);
        lemma_line_through(x1, y1, x2, y2, a, b, m);
        lemma_congruent_sub(y1 + s * (x2 - x1), y2, s * (x2 - x3), s * (x2 - x3), m);
        assert(y1 + s * (x2 - x1) - s * (x2 - x3) == -(s * (x1 - x3) - y1)) by (nonlinear_arith);
        lemma_congruent_sub(0, 0, y2 - s * (x2 - x3), -(s * (x1 - x3) - y1), m);
    }
}

} // verus!
