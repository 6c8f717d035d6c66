//! Going back along a line: from the sum of two points, the mirror image of
//! the second leads back to the first.

use crate::congruence::{
    lemma_congruent_add, lemma_congruent_difference, lemma_congruent_mul, lemma_congruent_sub,
    lemma_reduce_idempotent, lemma_zero_plus, lemma_zero_times,
};
use crate::group_law::{
    has_slope, lemma_line_through, on_curve, slope, slope_denominator, slope_numerator, sum_x,
    sum_y,
};
use crate::primes::{is_prime, lemma_prime_cancel};
use crate::quotients::{lemma_distinct_representatives, lemma_quotient_of_multiple};
use crate::ring::{congruent, is_reduced, reduce};
use vstd::arithmetic::div_mod::lemma_small_mod;
use vstd::prelude::*;

verus! {

/// Whether a curve is free of singular points: `4*a^3 + 27*b^2` is not zero.
pub open spec fn is_smooth(a: int, b: int, m: nat) -> bool {
    reduce(4 * a * a * a + 27 * b * b, m) != 0
}

/// A point of the first axis at which the tangent is level is singular: a
/// smooth curve has none.
proof fn lemma_smooth_has_no_cusp(x: int, a: int, b: int, m: nat)
    requires
        reduce(x * x * x + a * x + b, m) == 0,
        reduce(3 * x * x + a, m) == 0,
    ensures
        !is_smooth(a, b, m),
{
    // 4*a^3 + 27*b^2 is k * (3*x^2 + a) + l * (x^3 + a*x + b)
    let xx = x * x;
    let aa = a * a;
    let ax = a * x;
    let bx = b * x;
    let f = x * xx + ax + b;
    let g = 3 * xx + a;
    let k = 6 * (a * xx) - 9 * bx + 4 * aa;
    let l = 27 * b - 18 * ax;
    assert(x * x * x == x * xx && 3 * x * x == 3 * xx) by (nonlinear_arith)
        requires
            xx == x * x,
    ;
    assert(k * g == 3 * (k * xx) + k * a) by (nonlinear_arith)
        requires
            g == 3 * xx + a,
    ;
    assert(k * xx == 6 * (a * xx * xx) - 9 * (bx * xx) + 4 * (aa * xx)) by (nonlinear_arith)
        requires
            k == 6 * (a * xx) - 9 * bx + 4 * aa,
    ;
    assert(k * a == 6 * (aa * xx) - 9 * (ax * b) + 4 * (aa * a)) by (nonlinear_arith)
        requires
            k == 6 * (a * xx) - 9 * bx + 4 * aa,
            aa == a * a,
            ax == a * x,
            bx == b * x,
    ;
    assert(l * f == 27 * (b * f) - 18 * (ax * f)) by (nonlinear_arith)
        requires
            l == 27 * b - 18 * ax,
    ;
    assert(b * f == bx * xx + ax * b + b * b) by (nonlinear_arith)
        requires
            f == x * xx + ax + b,
            bx == b * x,
    ;
    assert(ax * f == ax * (x * xx) + ax * ax + ax * b) by (nonlinear_arith)
        requires
            f == x * xx + ax + b,
    ;
    assert(ax * (x * xx) == a * xx * xx) by (nonlinear_arith)
        requires
            ax == a * x,
            xx == x * x,
    ;
    assert(ax * ax == aa * xx) by (nonlinear_arith)
        requires
            ax == a * x,
            aa == a * a,
            xx == x * x,
    ;
    assert(4 * a * a * a + 27 * b * b == 4 * (aa * a) + 27 * (b * b)) by (nonlinear_arith)
        requires
            aa == a * a,
    ;
    lemma_zero_times(g, k, m);
    lemma_zero_times(f, l, m);
    lemma_zero_plus(k * g, l * f, m);
}

/// From the sum of two points of a smooth curve, the mirror image of the
/// second leads back to the first: the two do not cancel, their line has a
/// slope, and the sum along it is the first point.
pub proof fn lemma_back_along_line(x1: int, y1: int, x2: int, y2: int, a: int, b: int, m: nat)
    requires
        m == 0 || (is_prime(m) && m > 2),
        is_reduced(x1, m),
        is_reduced(y1, m),
        is_reduced(x2, m),
        is_reduced(y2, m),
        on_curve(x1, y1, a, b, m),
        on_curve(x2, y2, a, b, m),
        x1 == x2 ==> y1 == y2,
        has_slope(x1, y1, x2, y2, a, m),
        is_smooth(a, b, m),
    ensures
        ({
            let s = slope(x1, y1, x2, y2, a, m);
            let x3 = sum_x(x1, x2, s, m);
            let y3 = sum_y(x1, y1, x3, s, m);
            let mirrored = reduce(-y2, m);
            let back = slope(x3, y3, x2, mirrored, a, m);
            &&& !(x3 == x2 && (y3 != mirrored || y3 == 0))
            &&& has_slope(x3, y3, x2, mirrored, a, m)
            &&& sum_x(x3, x2, back, m) == x1
            &&& sum_y(x3, y3, x1, back, m) == y1
        }),
{
    let s = slope(x1, y1, x2, y2, a, m);
    let u = s * s - x1 - x2;
    let x3 = sum_x(x1, x2, s, m);
    let v = s * (x1 - x3) - y1;
    let y3 = sum_y(x1, y1, x3, s, m);
    let mirrored = reduce(-y2, m);
    let d = x2 - x1;
    lemma_line_through(x1, y1, x2, y2, a, b, m);
    lemma_reduce_idempotent(u, m);
    lemma_reduce_idempotent(v, m);
    lemma_reduce_idempotent(-y2, m);
    // the second coordinates of the sum and of the second point add up to
    // s * (x2 - x3)
    assert(congruent(y3 + y2, s * (x2 - x3), m)) by {
        lemma_congruent_add(y3, v, y2, y1 + s * d, m);
        assert(v + (y1 + s * d) == s * (x2 - x3)) by (nonlinear_arith)
            requires
                v == s * (x1 - x3) - y1,
                d == x2 - x1,
        ;
    }
    // so the mirror image lies above the sum by -s * (x2 - x3)
    assert(congruent(mirrored - y3, (-s) * (x2 - x3), m)) by {
        lemma_congruent_sub(0, 0, y3 + y2, s * (x2 - x3), m);
        assert(0 - s * (x2 - x3) == (-s) * (x2 - x3)) by (nonlinear_arith);
        lemma_congruent_sub(mirrored, -y2, y3, y3, m);
    }
    let n = slope_numerator(x3, y3, x2, mirrored, a);
    let back_d = slope_denominator(x3, y3, x2, mirrored);
    if x3 != x2 {
        lemma_distinct_representatives(x2, x3, m);
        lemma_quotient_of_multiple(n, back_d, -s, m);
    } else {
        // the sum is the mirror image of the second point
        assert((-s) * 0 == 0 && s * 0 == 0);
        lemma_congruent_difference(mirrored, y3, m);
        if m > 0 {
            lemma_small_mod(mirrored as nat, m);
            lemma_small_mod(y3 as nat, m);
        }
        // the line is the tangent at the second point: 3*x2^2 + a is 2*s*y2
        let c = 3 * x1 * x1 + a - 2 * s * y1 - (s * s - 2 * x1 - x2) * d;
        let e = u - x2;
        lemma_congruent_difference(u, x2, m);
        let tangent = 3 * x2 * x2 + a - 2 * s * (y1 + s * d);
        assert(tangent == c - e * d) by {
            let ss = s * s;
            assert(2 * s * (y1 + s * d) == 2 * s * y1 + 2 * (ss * d)) by (nonlinear_arith)
                requires
                    ss == s * s,
            ;
            assert((ss - 2 * x1 - x2) * d == ss * d - 2 * (x1 * d) - x2 * d)
                by (nonlinear_arith);
            assert(e * d == ss * d - x1 * d - 2 * (x2 * d)) by (nonlinear_arith)
                requires
                    e == ss - x1 - x2 - x2,
            ;
            assert(3 * x2 * x2 == 3 * x1 * x1 + 6 * (x1 * d) + 3 * (d * d)) by (nonlinear_arith)
                requires
                    x2 == x1 + d,
            ;
            assert(x2 * d == x1 * d + d * d) by (nonlinear_arith)
                requires
                    x2 == x1 + d,
            ;
        }
        lemma_zero_times(e, d, m);
        lemma_zero_plus(c, e * d, m);
        // and 2*s*y2 is -s times 2*y3
        assert(congruent(3 * x2 * x2 + a, (-s) * (2 * y3), m)) by {
            lemma_congruent_difference(3 * x2 * x2 + a, 2 * s * (y1 + s * d), m);
            lemma_congruent_sub(0, 0, mirrored, -y2, m);
            lemma_congruent_mul(2 * s, 2 * s, y1 + s * d, 0 - y3, m);
            assert((2 * s) * (0 - y3) == (-s) * (2 * y3)) by (nonlinear_arith);
        }
        if y3 == 0 {
            // the second point lies on the first axis with a level tangent
            assert((-s) * (2 * y3) == 0) by (nonlinear_arith)
                requires
                    y3 == 0,
            ;
            lemma_congruent_sub(0, 0, mirrored, -y2, m);
            if m > 0 {
                lemma_small_mod(0, m);
                lemma_small_mod(y2 as nat, m);
            }
            assert(y2 * y2 == 0) by (nonlinear_arith)
                requires
                    y2 == 0,
            ;
            lemma_smooth_has_no_cusp(x2, a, b, m);
            assert(false);
        }
        assert(reduce(2 * y3, m) != 0) by {
            if m > 0 && reduce(2 * y3, m) == 0 {
                lemma_small_mod(2, m);
                lemma_prime_cancel(y3, 2, m);
                lemma_small_mod(y3 as nat, m);
            }
        }
        lemma_quotient_of_multiple(n, back_d, -s, m);
    }
    // either way the line back has the slope -s
    let back = slope(x3, y3, x2, mirrored, a, m);
    lemma_congruent_mul(back, -s, back, -s, m);
    assert((-s) * (-s) == s * s) by (nonlinear_arith);
    lemma_congruent_sub(back * back, s * s, x3, u, m);
    lemma_congruent_sub(back * back - x3, s * s - u, x2, x2, m);
    if m > 0 {
        lemma_small_mod(x1 as nat, m);
        lemma_small_mod(y1 as nat, m);
    }
    lemma_congruent_mul(back, -s, x3 - x1, x3 - x1, m);
    lemma_congruent_sub(back * (x3 - x1), (-s) * (x3 - x1), y3, v, m);
    assert((-s) * (x3 - x1) - v == y1) by (nonlinear_arith)
        requires
            v == s * (x1 - x3) - y1,
    ;
}

} // verus!
