//! The associative law of the group of a curve.
//!
//! Let `s` and `t` be the slopes of the lines through the first and second
//! and through the second and third of three points, and `u` the slope of
//! the line through the sum of the first two and the third. Then
//! `(s - t) * (u + s)` is the distance from the third point's first
//! coordinate to the first point's. The same holds from the other end, and
//! the two ways of adding three points are seen to agree.

use crate::congruence::{
    lemma_cancel, lemma_congruent_add, lemma_congruent_difference, lemma_congruent_mul,
    lemma_congruent_sub, lemma_quotient_is_exact, lemma_reduce_idempotent, lemma_zero_plus,
    lemma_zero_times,
};
use crate::group_law::{
    has_slope, lemma_line_symmetric, lemma_line_through, lemma_sum_on_curve, on_curve, slope,
    slope_denominator, slope_numerator, sum_x, sum_y,
};
use crate::primes::{is_prime, lemma_prime_cancel};
use crate::ring::{congruent, reduce};
use vstd::prelude::*;

verus! {

/// The curve's coefficient `a`, read off the line of slope `s` from
/// `(x1, y1)` to a point with first coordinate `x2`.
spec fn coefficient_from_line(s: int, x1: int, y1: int, x2: int) -> int {
    2 * s * y1 + s * s * (x2 - x1) - (x1 * x1 + x1 * x2 + x2 * x2)
}

/// Every line through two points of a curve tells the coefficient `a`.
proof fn lemma_coefficient_from_line(x1: int, y1: int, x2: int, y2: int, a: int, b: int, m: nat)
    requires
        on_curve(x1, y1, a, b, m),
        on_curve(x2, y2, a, b, m),
        x1 == x2 ==> y1 == y2,
        has_slope(x1, y1, x2, y2, a, m),
    ensures
        congruent(a, coefficient_from_line(slope(x1, y1, x2, y2, a, m), x1, y1, x2), m),
{
    let s = slope(x1, y1, x2, y2, a, m);
    let d = x2 - x1;
    lemma_line_through(x1, y1, x2, y2, a, b, m);
    let c = 3 * x1 * x1 + a - 2 * s * y1 - (s * s - 2 * x1 - x2) * d;
    assert(c == a - coefficient_from_line(s, x1, y1, x2)) by {
        let ss = s * s;
        assert((ss - 2 * x1 - x2) * d == ss * d - 2 * (x1 * d) - x2 * d) by (nonlinear_arith);
        assert(x1 * d == x1 * x2 - x1 * x1 && x2 * d == x2 * x2 - x1 * x2) by (nonlinear_arith)
            requires
                d == x2 - x1,
        ;
        assert(3 * x1 * x1 == 3 * (x1 * x1)) by (nonlinear_arith);
    }
    lemma_congruent_difference(a, coefficient_from_line(s, x1, y1, x2), m);
}

/// The relation between the slopes of three lines: with `s` the slope from
/// the first point to the second, `t` from the second to the third and `u`
/// from the sum of the first two to the third, `(s - t) * (u + s)` is
/// `x1 - x3`.
pub proof fn lemma_slopes_of_three_lines(
    x1: int,
    y1: int,
    x2: int,
    y2: int,
    x3: int,
    y3: int,
    a: int,
    b: int,
    m: nat,
)
    requires
        on_curve(x1, y1, a, b, m),
        on_curve(x2, y2, a, b, m),
        on_curve(x3, y3, a, b, m),
        x1 == x2 ==> y1 == y2,
        x2 == x3 ==> y2 == y3,
        has_slope(x1, y1, x2, y2, a, m),
        has_slope(x2, y2, x3, y3, a, m),
        ({
            let s = slope(x1, y1, x2, y2, a, m);
            let xa = sum_x(x1, x2, s, m);
            let ya = sum_y(x1, y1, xa, s, m);
            &&& xa == x3 ==> ya == y3
            &&& has_slope(xa, ya, x3, y3, a, m)
        }),
    ensures
        ({
            let s = slope(x1, y1, x2, y2, a, m);
            let t = slope(x2, y2, x3, y3, a, m);
            let xa = sum_x(x1, x2, s, m);
            let ya = sum_y(x1, y1, xa, s, m);
            let u = slope(xa, ya, x3, y3, a, m);
            &&& congruent((s - t) * (u + s), x1 - x3, m)
            &&& congruent((u + s) * (x3 - xa), y3 - ya + s * (x3 - xa), m)
            &&& congruent(
                y3 - ya + s * (x3 - xa),
                2 * y1 - 2 * s * x1 + s * x2 + s * x3 + t * (x3 - x2),
                m,
            )
        }),
{
    let s = slope(x1, y1, x2, y2, a, m);
    let t = slope(x2, y2, x3, y3, a, m);
    let xa = sum_x(x1, x2, s, m);
    let ya = sum_y(x1, y1, xa, s, m);
    let u = slope(xa, ya, x3, y3, a, m);
    let d = x1 - x3;
    let du = x3 - xa;
    let g = y3 - ya + s * du;
    let gp = 2 * y1 - 2 * s * x1 + s * x2 + s * x3 + t * (x3 - x2);
    lemma_sum_on_curve(x1, y1, x2, y2, a, b, m);
    lemma_line_through(x1, y1, x2, y2, a, b, m);
    lemma_line_through(x2, y2, x3, y3, a, b, m);
    lemma_line_through(xa, ya, x3, y3, a, b, m);
    lemma_reduce_idempotent(s * s - x1 - x2, m);
    lemma_reduce_idempotent(s * (x1 - xa) - y1, m);
    // g, which is (u + s) * du by the third line, is gp by the first two
    assert(congruent((u + s) * du, g, m)) by {
        lemma_congruent_sub(ya + u * du, y3, ya, ya, m);
        lemma_congruent_add(u * du, y3 - ya, s * du, s * du, m);
        assert((u + s) * du == u * du + s * du) by (nonlinear_arith);
    }
    assert(congruent(g, gp, m)) by {
        // y3 is y1 + s * (x2 - x1) + t * (x3 - x2)
        lemma_congruent_add(y1 + s * (x2 - x1), y2, t * (x3 - x2), t * (x3 - x2), m);
        let y3p = y1 + s * (x2 - x1) + t * (x3 - x2);
        let yap = s * (x1 - xa) - y1;
        lemma_congruent_sub(y3, y3p, ya, yap, m);
        lemma_congruent_add(y3 - ya, y3p - yap, s * du, s * du, m);
        assert(y3p - yap + s * du == gp) by (nonlinear_arith)
            requires
                y3p == y1 + s * (x2 - x1) + t * (x3 - x2),
                yap == s * (x1 - xa) - y1,
                du == x3 - xa,
                gp == 2 * y1 - 2 * s * x1 + s * x2 + s * x3 + t * (x3 - x2),
        ;
    }
    if xa != x3 {
        // the curve's coefficient, read off the first two lines, gives
        // d * du = (s - t) * g
        lemma_coefficient_from_line(x1, y1, x2, y2, a, b, m);
        lemma_coefficient_from_line(x2, y2, x3, y3, a, b, m);
        let a1 = coefficient_from_line(s, x1, y1, x2);
        let a2 = coefficient_from_line(t, x2, y2, x3);
        let y2p = y1 + s * (x2 - x1);
        let a2p = coefficient_from_line(t, x2, y2p, x3);
        assert(congruent(a2, a2p, m)) by {
            lemma_congruent_mul(2 * t, 2 * t, y2, y2p, m);
            lemma_congruent_add(
                2 * t * y2,
                2 * t * y2p,
                t * t * (x3 - x2) - (x2 * x2 + x2 * x3 + x3 * x3),
                t * t * (x3 - x2) - (x2 * x2 + x2 * x3 + x3 * x3),
                m,
            );
        }
        let dup = x3 - (s * s - x1 - x2);
        lemma_three_lines_identity(s, t, x1, x2, x3, y1);
        lemma_congruent_difference(a2p, a1, m);
        lemma_congruent_difference(d * dup, (s - t) * gp, m);
        lemma_congruent_sub(x3, x3, xa, s * s - x1 - x2, m);
        lemma_congruent_mul(d, d, du, dup, m);
        lemma_congruent_mul(s - t, s - t, (u + s) * du, gp, m);
        assert((s - t) * ((u + s) * du) == ((s - t) * (u + s)) * du) by (nonlinear_arith);
        lemma_congruent_difference(((s - t) * (u + s)) * du, d * du, m);
        assert(((s - t) * (u + s)) * du - d * du == ((s - t) * (u + s) - d) * du)
            by (nonlinear_arith);
        lemma_quotient_is_exact(
            slope_numerator(xa, ya, x3, y3, a),
            slope_denominator(xa, ya, x3, y3),
            m,
        );
        lemma_congruent_difference((s - t) * (u + s), d, m);
    } else {
        // the third line is the tangent at the third point
        lemma_quotient_is_exact(
            slope_numerator(xa, ya, x3, y3, a),
            slope_denominator(xa, ya, x3, y3),
            m,
        );
        lemma_coefficient_from_line(x1, y1, x2, y2, a, b, m);
        let a1 = coefficient_from_line(s, x1, y1, x2);
        // (s - t) * (x3 - x2) is -2 * y3
        let k = x3 - x2;
        assert(congruent((s - t) * k, -2 * y3, m)) by {
            // y2 is s * (x2 - x3) - y3, and t * k is y3 - y2
            lemma_congruent_sub(y2 + t * k, y3, y2, y2, m);
            lemma_congruent_sub(s * k, s * k, t * k, y3 - y2, m);
            assert((s - t) * k == s * k - t * k) by (nonlinear_arith);
            let yap = s * (x1 - x3) - y1;
            let y2p = y1 + s * (x2 - x1);
            lemma_congruent_sub(y3, yap, y2, y2p, m);
            lemma_congruent_sub(s * k, s * k, y3 - y2, yap - y2p, m);
            lemma_congruent_add(yap, y3, yap, y3, m);
            lemma_congruent_sub(0, 0, yap + yap, y3 + y3, m);
            assert(s * k - (yap - y2p) == 0 - (yap + yap)) by (nonlinear_arith)
                requires
                    k == x3 - x2,
                    yap == s * (x1 - x3) - y1,
                    y2p == y1 + s * (x2 - x1),
            ;
        }
        // w = 3 * x3^2 + a + 2 * s * y3 is -d * (x3 - x2)
        let w = 3 * x3 * x3 + a + 2 * s * y3;
        assert(congruent(w, (-d) * k, m)) by {
            let yap = s * (x1 - x3) - y1;
            let ss = s * s;
            let ssp = x1 + x2 + x3;
            lemma_congruent_mul(2 * s, 2 * s, y3, yap, m);
            lemma_congruent_add(3 * x3 * x3, 3 * x3 * x3, a, a1, m);
            lemma_congruent_add(3 * x3 * x3 + a, 3 * x3 * x3 + a1, 2 * s * y3, 2 * s * yap, m);
            // s^2 is x1 + x2 + x3
            lemma_congruent_add(s * s - x1 - x2, x3, x1 + x2, x1 + x2, m);
            assert(3 * x3 * x3 + a1 + 2 * s * yap == 3 * (x3 * x3) + ss * (x1 + x2 - 2 * x3) - (x1
                * x1 + x1 * x2 + x2 * x2)) by {
                assert(2 * s * yap == 2 * (ss * (x1 - x3)) - 2 * s * y1) by (nonlinear_arith)
                    requires
                        yap == s * (x1 - x3) - y1,
                        ss == s * s,
                ;
                assert(ss * (x1 + x2 - 2 * x3) == 2 * (ss * (x1 - x3)) + ss * (x2 - x1))
                    by (nonlinear_arith);
                assert(3 * x3 * x3 == 3 * (x3 * x3)) by (nonlinear_arith);
            }
            lemma_congruent_mul(ss, ssp, x1 + x2 - 2 * x3, x1 + x2 - 2 * x3, m);
            lemma_congruent_add(
                3 * (x3 * x3) - (x1 * x1 + x1 * x2 + x2 * x2),
                3 * (x3 * x3) - (x1 * x1 + x1 * x2 + x2 * x2),
                ss * (x1 + x2 - 2 * x3),
                ssp * (x1 + x2 - 2 * x3),
                m,
            );
            assert(3 * (x3 * x3) - (x1 * x1 + x1 * x2 + x2 * x2) + ssp * (x1 + x2 - 2 * x3) == (-d)
                * k) by (nonlinear_arith)
                requires
                    ssp == x1 + x2 + x3,
                    d == x1 - x3,
                    k == x3 - x2,
            ;
        }
        // so 2 * y3 * ((s - t) * (u + s) - d) is congruent to zero
        let e = (s - t) * (u + s) - d;
        assert(reduce(e * (2 * y3), m) == 0) by {
            lemma_congruent_add(u * (2 * y3), 3 * x3 * x3 + a, 2 * s * y3, 2 * s * y3, m);
            assert(u * (2 * y3) + 2 * s * y3 == (u + s) * (2 * y3)) by (nonlinear_arith);
            lemma_congruent_mul(s - t, s - t, (u + s) * (2 * y3), w, m);
            lemma_congruent_mul(s - t, s - t, w, (-d) * k, m);
            assert((s - t) * ((-d) * k) == (-d) * ((s - t) * k)) by (nonlinear_arith);
            lemma_congruent_mul(-d, -d, (s - t) * k, -2 * y3, m);
            assert((-d) * (-2 * y3) == d * (2 * y3)) by (nonlinear_arith);
            assert((s - t) * ((u + s) * (2 * y3)) - d * (2 * y3) == e * (2 * y3))
                by (nonlinear_arith)
                requires
                    e == (s - t) * (u + s) - d,
            ;
            lemma_congruent_difference((s - t) * ((u + s) * (2 * y3)), d * (2 * y3), m);
        }
        lemma_congruent_difference((s - t) * (u + s), d, m);
    }
}

/// The identity behind the relation of the slopes: the coefficient read off
/// the second line less that read off the first.
proof fn lemma_three_lines_identity(s: int, t: int, x1: int, x2: int, x3: int, y1: int)
    ensures
        coefficient_from_line(t, x2, y1 + s * (x2 - x1), x3) - coefficient_from_line(s, x1, y1, x2)
            == (x1 - x3) * (x3 - (s * s - x1 - x2)) - (s - t) * (2 * y1 - 2 * s * x1 + s * x2 + s
            * x3 + t * (x3 - x2)),
{
    let ss = s * s;
    let tt = t * t;
    let st = s * t;
    let gp = 2 * y1 - 2 * s * x1 + s * x2 + s * x3 + t * (x3 - x2);
    assert(2 * t * (y1 + s * (x2 - x1)) == 2 * (t * y1) + 2 * (st * x2) - 2 * (st * x1))
        by (nonlinear_arith)
        requires
            st == s * t,
    ;
    assert(tt * (x3 - x2) == tt * x3 - tt * x2) by (nonlinear_arith);
    assert(ss * (x2 - x1) == ss * x2 - ss * x1) by (nonlinear_arith);
    assert(2 * s * y1 == 2 * (s * y1) && 2 * t * y1 == 2 * (t * y1)) by (nonlinear_arith);
    assert((x1 - x3) * (x3 - (ss - x1 - x2)) == x1 * x3 - ss * x1 + x1 * x1 + x1 * x2 - x3 * x3
        + ss * x3 - x1 * x3 - x2 * x3) by (nonlinear_arith);
    // gp as a sum of four products
    let p1 = s * x1;
    let p2 = s * x2;
    let p3 = s * x3;
    let q = t * (x3 - x2);
    assert(2 * s * x1 == 2 * p1) by (nonlinear_arith)
        requires
            p1 == s * x1,
    ;
    assert((s - t) * gp == s * gp - t * gp) by (nonlinear_arith);
    assert(s * gp == 2 * (s * y1) - 2 * (s * p1) + s * p2 + s * p3 + s * q) by (nonlinear_arith)
        requires
            gp == 2 * y1 - 2 * p1 + p2 + p3 + q,
    ;
    assert(t * gp == 2 * (t * y1) - 2 * (t * p1) + t * p2 + t * p3 + t * q) by (nonlinear_arith)
        requires
            gp == 2 * y1 - 2 * p1 + p2 + p3 + q,
    ;
    assert(s * p1 == ss * x1 && s * p2 == ss * x2 && s * p3 == ss * x3) by (nonlinear_arith)
        requires
            p1 == s * x1,
            p2 == s * x2,
            p3 == s * x3,
            ss == s * s,
    ;
    assert(t * p1 == st * x1 && t * p2 == st * x2 && t * p3 == st * x3) by (nonlinear_arith)
        requires
            p1 == s * x1,
            p2 == s * x2,
            p3 == s * x3,
            st == s * t,
    ;
    assert(s * q == st * x3 - st * x2 && t * q == tt * x3 - tt * x2) by (nonlinear_arith)
        requires
            q == t * (x3 - x2),
            st == s * t,
            tt == t * t,
    ;
    assert(x2 * x3 == x3 * x2 && x1 * x3 == x3 * x1) by (nonlinear_arith);
}

/// The identity behind the first coordinate: with `l = u + s`, the two first
/// coordinates differ by twice `(s - t) * l - (x1 - x3)`.
proof fn lemma_first_coordinate_identity(u: int, s: int, t: int, x1: int, x2: int, x3: int)
    ensures
        ({
            let l = u + s;
            (u * u - (s * s - x1 - x2) - x3) - ((l - t) * (l - t) - x1 - (t * t - x2 - x3)) == -2
                * ((s - t) * l - (x1 - x3))
        }),
{
    let l = u + s;
    let k = s - t;
    assert(u * u == l * l - 2 * (l * s) + s * s) by (nonlinear_arith)
        requires
            l == u + s,
    ;
    assert((l - t) * (l - t) == l * l - 2 * (l * t) + t * t) by (nonlinear_arith);
    assert(k * l == l * s - l * t) by (nonlinear_arith)
        requires
            k == s - t,
    ;
}

/// The identity behind the second coordinate: with `l = u + s`, the two
/// second coordinates differ by a combination of `(s - t) * l - (x1 - x3)`
/// and `l * (x3 - xa) - g`.
proof fn lemma_second_coordinate_identity(
    u: int,
    s: int,
    t: int,
    x1: int,
    x2: int,
    x3: int,
    y1: int,
)
    ensures
        ({
            let l = u + s;
            let xa = s * s - x1 - x2;
            let x = u * u - xa - x3;
            let g = 2 * y1 - 2 * s * x1 + s * x2 + s * x3 + t * (x3 - x2);
            (u * (xa - x) - (s * (x1 - xa) - y1)) - ((l - t) * (x1 - x) - y1) == (l - 2 * s) * ((s
                - t) * l - (x1 - x3)) - (l * (x3 - xa) - g)
        }),
{
    let l = u + s;
    let k = s - t;
    let xa = s * s - x1 - x2;
    let x = u * u - xa - x3;
    let g = 2 * y1 - 2 * s * x1 + s * x2 + s * x3 + t * (x3 - x2);
    let d = x1 - x3;
    // the left side is l * (xa - x1) + 2 * y1 - k * (x1 - x)
    assert(u * (xa - x) - s * (x1 - xa) - (l - t) * (x1 - x) == l * (xa - x1) - k * (x1 - x))
        by (nonlinear_arith)
        requires
            l == u + s,
            k == s - t,
    ;
    // x1 - x is x3 - x2 + 2 * l * s - l * l
    assert(u * u == l * l - 2 * (l * s) + s * s) by (nonlinear_arith)
        requires
            l == u + s,
    ;
    let r = x3 - x2 + 2 * (l * s) - l * l;
    assert(k * r == k * (x3 - x2) + 2 * (k * (l * s)) - k * (l * l)) by (nonlinear_arith)
        requires
            r == x3 - x2 + 2 * (l * s) - l * l,
    ;
    // the right side
    let kl = k * l;
    assert((l - 2 * s) * (kl - d) == l * kl - 2 * (s * kl) - l * d + 2 * (s * d))
        by (nonlinear_arith);
    assert(l * kl == k * (l * l) && s * kl == k * (l * s)) by (nonlinear_arith)
        requires
            kl == k * l,
    ;
    assert(l * (xa - x1) + l * (x3 - xa) - l * d == 2 * (l * x3) - 2 * (l * x1))
        by (nonlinear_arith)
        requires
            d == x1 - x3,
    ;
    assert(l * (xa - x1) + l * (x3 - xa) == l * x3 - l * x1) by (nonlinear_arith);
    assert(l * d == l * x1 - l * x3) by (nonlinear_arith)
        requires
            d == x1 - x3,
    ;
    assert(k * (x3 - x2) == s * x3 - s * x2 - t * (x3 - x2)) by (nonlinear_arith)
        requires
            k == s - t,
    ;
    assert(s * d == s * x1 - s * x3) by (nonlinear_arith)
        requires
            d == x1 - x3,
    ;
    assert(2 * s * x1 == 2 * (s * x1)) by (nonlinear_arith);
}

/// Where the slopes obey the relation of three lines from both ends, the
/// two ways of adding three points lead to the same point.
pub proof fn lemma_two_ways_agree(
    s: int,
    t: int,
    u: int,
    v: int,
    x1: int,
    y1: int,
    x2: int,
    x3: int,
    xa: int,
    ya: int,
    xb: int,
    m: nat,
)
    requires
        m == 0 || is_prime(m),
        congruent(xa, s * s - x1 - x2, m),
        congruent(ya, s * (x1 - xa) - y1, m),
        congruent(xb, t * t - x2 - x3, m),
        congruent((s - t) * (u + s), x1 - x3, m),
        congruent((s - t) * (v + t), x1 - x3, m),
        congruent(
            (u + s) * (x3 - xa),
            2 * y1 - 2 * s * x1 + s * x2 + s * x3 + t * (x3 - x2),
            m,
        ),
        reduce(x1 - x3, m) != 0,
    ensures
        sum_x(xa, x3, u, m) == sum_x(x1, xb, v, m),
        sum_y(xa, ya, sum_x(xa, x3, u, m), u, m) == sum_y(x1, y1, sum_x(xa, x3, u, m), v, m),
{
    let l = u + s;
    let k = s - t;
    let d = x1 - x3;
    let g = 2 * y1 - 2 * s * x1 + s * x2 + s * x3 + t * (x3 - x2);
    // k is no multiple of the modulus, so u + s and v + t are congruent
    if reduce(k, m) == 0 {
        lemma_zero_times(k, l, m);
    }
    lemma_congruent_sub(k * l, d, k * (v + t), d, m);
    assert(k * l - k * (v + t) == (l - (v + t)) * k) by (nonlinear_arith);
    assert(reduce(d - d, m) == 0) by {
        lemma_reduce_idempotent(0, m);
        if m > 0 {
            vstd::arithmetic::div_mod::lemma_small_mod(0, m);
        }
    }
    if m == 0 {
        lemma_cancel(l - (v + t), k, 0, m);
    } else {
        lemma_prime_cancel(l - (v + t), k, m);
    }
    lemma_congruent_difference(l, v + t, m);
    lemma_congruent_sub(v + t, l, t, t, m);
    lemma_congruent_difference(k * l, d, m);
    // the first coordinates
    let xap = s * s - x1 - x2;
    let xbp = t * t - x2 - x3;
    lemma_congruent_sub(u * u, u * u, xa, xap, m);
    lemma_congruent_sub(u * u - xa, u * u - xap, x3, x3, m);
    lemma_congruent_mul(v, l - t, v, l - t, m);
    lemma_congruent_sub(v * v, (l - t) * (l - t), x1, x1, m);
    lemma_congruent_sub(v * v - x1, (l - t) * (l - t) - x1, xb, xbp, m);
    lemma_first_coordinate_identity(u, s, t, x1, x2, x3);
    lemma_zero_times(k * l - d, -2, m);
    lemma_congruent_difference(u * u - xap - x3, (l - t) * (l - t) - x1 - xbp, m);
    let x = sum_x(xa, x3, u, m);
    // the second coordinates
    let xp = u * u - xap - x3;
    lemma_reduce_idempotent(u * u - xa - x3, m);
    lemma_congruent_sub(xa, xap, x, xp, m);
    lemma_congruent_mul(u, u, xa - x, xap - xp, m);
    lemma_congruent_sub(x1, x1, xa, xap, m);
    lemma_congruent_mul(s, s, x1 - xa, x1 - xap, m);
    lemma_congruent_sub(s * (x1 - xa), s * (x1 - xap), y1, y1, m);
    lemma_congruent_sub(u * (xa - x), u * (xap - xp), ya, s * (x1 - xap) - y1, m);
    lemma_congruent_sub(x1, x1, x, xp, m);
    lemma_congruent_mul(v, l - t, x1 - x, x1 - xp, m);
    lemma_congruent_sub(v * (x1 - x), (l - t) * (x1 - xp), y1, y1, m);
    lemma_second_coordinate_identity(u, s, t, x1, x2, x3, y1);
    lemma_congruent_sub(x3, x3, xa, xap, m);
    lemma_congruent_mul(l, l, x3 - xa, x3 - xap, m);
    lemma_congruent_difference(l * (x3 - xap), g, m);
    lemma_zero_times(k * l - d, l - 2 * s, m);
    lemma_zero_plus((l - 2 * s) * (k * l - d), l * (x3 - xap) - g, m);
    lemma_congruent_difference(
        u * (xap - xp) - (s * (x1 - xap) - y1),
        (l - t) * (x1 - xp) - y1,
        m,
    );
}

/// The three lines seen from the other end: with `v` the slope of the line
/// through the first point and the sum of the other two, `(s - t) * (v + t)`
/// is `x1 - x3` as well.
pub proof fn lemma_slopes_from_the_other_end(
    x1: int,
    y1: int,
    x2: int,
    y2: int,
    x3: int,
    y3: int,
    a: int,
    b: int,
    m: nat,
)
    requires
        m == 0 || is_prime(m),
        on_curve(x1, y1, a, b, m),
        on_curve(x2, y2, a, b, m),
        on_curve(x3, y3, a, b, m),
        x1 == x2 ==> y1 == y2,
        x2 == x3 ==> y2 == y3,
        has_slope(x1, y1, x2, y2, a, m),
        has_slope(x2, y2, x3, y3, a, m),
        ({
            let t = slope(x2, y2, x3, y3, a, m);
            let xb = sum_x(x2, x3, t, m);
            let yb = sum_y(x2, y2, xb, t, m);
            &&& x1 == xb ==> y1 == yb
            &&& has_slope(x1, y1, xb, yb, a, m)
        }),
    ensures
        ({
            let s = slope(x1, y1, x2, y2, a, m);
            let t = slope(x2, y2, x3, y3, a, m);
            let xb = sum_x(x2, x3, t, m);
            let yb = sum_y(x2, y2, xb, t, m);
            let v = slope(x1, y1, xb, yb, a, m);
            congruent((s - t) * (v + t), x1 - x3, m)
        }),
{
    let s = slope(x1, y1, x2, y2, a, m);
    let t = slope(x2, y2, x3, y3, a, m);
    let xb = sum_x(x2, x3, t, m);
    let yb = sum_y(x2, y2, xb, t, m);
    let v = slope(x1, y1, xb, yb, a, m);
    lemma_line_symmetric(x1, y1, x2, y2, a, b, m);
    lemma_line_symmetric(x2, y2, x3, y3, a, b, m);
    lemma_sum_on_curve(x2, y2, x3, y3, a, b, m);
    lemma_line_symmetric(x1, y1, xb, yb, a, b, m);
    lemma_slopes_of_three_lines(x3, y3, x2, y2, x1, y1, a, b, m);
    lemma_congruent_sub(0, 0, (t - s) * (v + t), x3 - x1, m);
    assert(0 - (t - s) * (v + t) == (s - t) * (v + t)) by (nonlinear_arith);
}

} // verus!
