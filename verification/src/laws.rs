//! What holds of field arithmetic and of the group law for all inputs.

use crate::associativity::{
    lemma_slopes_from_the_other_end, lemma_slopes_of_three_lines, lemma_two_ways_agree,
};
use crate::cancellation::{is_smooth, lemma_back_along_line};
use crate::congruence::{
    lemma_cancel, lemma_congruent_difference, lemma_congruent_mul, lemma_congruent_sub,
    lemma_quotient_is_exact, lemma_reduce_idempotent, lemma_zero_plus,
};
use crate::group_law::{
    lemma_line_symmetric, lemma_sum_on_curve, slope, slope_denominator, slope_numerator, sum_x,
    sum_y,
};
use crate::point::PointModel;
use crate::primes::{
    is_prime, lemma_fermat, lemma_prime_cancel, lemma_prime_field_has_quotients,
};
use crate::quotients::{lemma_distinct_representatives, lemma_quotient_of_multiple};
use crate::ring::{
    field_div, inverse_exponent, is_reduced, reduce, ring_add, ring_mul, ring_pow, ring_sub,
};
use vstd::arithmetic::div_mod::lemma_small_mod;
use vstd::arithmetic::power::pow;
use vstd::prelude::*;

verus! {

/// The results of field arithmetic are residues of the same field: sum,
/// difference, product, power and quotient all lie in `0..m`.
pub proof fn lemma_field_closed(a: int, b: int, e: nat, m: nat)
    requires
        m > 0,
    ensures
        0 <= ring_add(a, b, m) < m,
        0 <= ring_sub(a, b, m) < m,
        0 <= ring_mul(a, b, m) < m,
        0 <= ring_pow(a, e, m) < m,
        0 <= field_div(a, b, m) < m,
{
    lemma_reduce_idempotent(a + b, m);
    lemma_reduce_idempotent(a - b, m);
    lemma_reduce_idempotent(a * b, m);
    lemma_reduce_idempotent(pow(a, e), m);
    lemma_reduce_idempotent(a * pow(b, inverse_exponent(m)), m);
}

/// Fermat: in the field of a prime `p`, a nonzero residue raised to `p - 1`
/// is 1.
pub proof fn lemma_fermat_consistency(a: int, p: nat)
    requires
        is_prime(p),
        0 < a < p,
    ensures
        ring_pow(a, (p - 1) as nat, p) == 1,
{
    lemma_small_mod(a as nat, p);
    lemma_fermat(a, p);
}

/// Division undoes multiplication: in the field of a prime, `(a / b) * b` is
/// `a` for every nonzero `b`.
pub proof fn lemma_division_inverse(a: int, b: int, p: nat)
    requires
        is_prime(p),
        0 <= a < p,
        0 < b < p,
    ensures
        ring_mul(field_div(a, b, p), b, p) == a,
{
    lemma_small_mod(b as nat, p);
    lemma_small_mod(a as nat, p);
    lemma_prime_field_has_quotients(a, b, p);
    lemma_quotient_is_exact(a, b, p);
}

/// The identity of a curve's group is neutral on both sides.
pub proof fn lemma_group_identity(p: PointModel)
    ensures
        p.add(PointModel::Identity { curve: p.curve() }) == Some(p),
        (PointModel::Identity { curve: p.curve() }).add(p) == Some(p),
{
}

/// A point and its mirror image add up to the identity, and the mirror image
/// lies on the curve too. Left out are the points that are their own mirror
/// image without lying on the first axis, as in a ring where 2 is 0.
pub proof fn lemma_additive_inverse(p: PointModel)
    requires
        p.wf(),
        p matches PointModel::Affine { y, .. } ==> y.value == 0 || reduce(-y.value, y.modulus)
            != y.value,
    ensures
        p.mirror().wf(),
        p.add(p.mirror()) == Some(PointModel::Identity { curve: p.curve() }),
        p.mirror().add(p) == Some(PointModel::Identity { curve: p.curve() }),
{
    if p is Affine {
        let y = p->y;
        let m = y.modulus;
        let v = reduce(-y.value, m);
        lemma_reduce_idempotent(-y.value, m);
        lemma_congruent_mul(v, -y.value, v, -y.value, m);
        assert((-y.value) * (-y.value) == y.value * y.value) by (nonlinear_arith);
        if y.value == 0 && m > 0 {
            lemma_small_mod(0, m);
        }
    }
}

/// The group law does not lead off the curve: where two points of a curve
/// have a sum, it is the identity or a pair that satisfies the curve's
/// equation. This holds among the integers and for every modulus, prime or
/// not.
pub proof fn lemma_sum_is_on_curve(p: PointModel, q: PointModel)
    requires
        p.wf(),
        q.wf(),
    ensures
        p.add(q) matches Some(r) ==> r.wf() && r.curve() == p.curve(),
{
    if p.curve() == q.curve() && p is Affine && q is Affine && !p.cancels(q) && p.has_slope_with(
        q,
    ) {
        let curve = p.curve();
        lemma_sum_on_curve(
            p->x.value,
            p->y.value,
            q->x.value,
            q->y.value,
            curve.a.value,
            curve.b.value,
            p->x.modulus,
        );
    }
}

/// Points of different curves have no sum.
pub proof fn lemma_curve_mismatch(p: PointModel, q: PointModel)
    requires
        p.curve() != q.curve(),
    ensures
        p.add(q) is None,
{
}

/// Over a prime field of more than two elements every two points of one
/// curve have a sum.
pub proof fn lemma_prime_field_sum_exists(p: PointModel, q: PointModel)
    requires
        p.wf(),
        q.wf(),
        p.curve() == q.curve(),
        is_prime(p.curve().a.modulus),
        p.curve().a.modulus > 2,
        p.is_canonical(),
        q.is_canonical(),
    ensures
        p.add(q) is Some,
{
    if p is Affine && q is Affine && !p.cancels(q) {
        let m = p.curve().a.modulus;
        let x1 = p->x.value;
        let y1 = p->y.value;
        let x2 = q->x.value;
        let y2 = q->y.value;
        let a = p.curve().a.value;
        if x1 == x2 {
            // the tangent: 2 * y1 is no multiple of m
            if reduce(2 * y1, m) == 0 {
                lemma_small_mod(2, m);
                lemma_prime_cancel(y1, 2, m);
                lemma_small_mod(y1 as nat, m);
            }
            lemma_prime_field_has_quotients(3 * x1 * x1 + a, 2 * y1, m);
        } else {
            // the chord: x2 - x1 lies strictly between -m and m
            if reduce(x2 - x1, m) == 0 {
                if x2 > x1 {
                    lemma_small_mod((x2 - x1) as nat, m);
                } else {
                    lemma_small_mod((x1 - x2) as nat, m);
                    vstd::arithmetic::div_mod::lemma_mod_equivalence(x2, x1, m as int);
                    lemma_small_mod(x1 as nat, m);
                    lemma_small_mod(x2 as nat, m);
                }
            }
            lemma_prime_field_has_quotients(y2 - y1, x2 - x1, m);
        }
    }
}

/// The sum of two points does not depend on their order, among the integers
/// and over a prime field.
pub proof fn lemma_commutative(p: PointModel, q: PointModel)
    requires
        p.wf(),
        q.wf(),
        p.curve().a.modulus == 0 || is_prime(p.curve().a.modulus),
    ensures
        p.add(q) == q.add(p),
{
    if p.curve() == q.curve() && p is Affine && q is Affine && !p.cancels(q) {
        let m = p.curve().a.modulus;
        let a = p.curve().a.value;
        let b = p.curve().b.value;
        if p.has_slope_with(q) {
            lemma_line_symmetric(p->x.value, p->y.value, q->x.value, q->y.value, a, b, m);
        }
        if q.has_slope_with(p) {
            lemma_line_symmetric(q->x.value, q->y.value, p->x.value, p->y.value, a, b, m);
        }
    }
}

/// A number that is its own negative is zero, among the integers and modulo
/// a prime other than 2.
proof fn lemma_own_negative(y: int, m: nat)
    requires
        m == 0 || (is_prime(m) && m > 2),
        is_reduced(y, m),
        reduce(-y, m) == y,
    ensures
        y == 0,
{
    if m > 0 {
        lemma_small_mod(y as nat, m);
        lemma_congruent_difference(y, -y, m);
        lemma_small_mod(2, m);
        lemma_prime_cancel(y, 2, m);
    }
}

/// What arithmetic produces is canonical: the sum of two points has
/// representatives for coordinates, if the points have.
pub proof fn lemma_sum_is_canonical(p: PointModel, q: PointModel)
    requires
        p.is_canonical(),
        q.is_canonical(),
    ensures
        p.add(q) matches Some(r) ==> r.is_canonical(),
{
    if p is Affine && q is Affine && p.has_slope_with(q) {
        let s = p.slope_with(q);
        let m = s.modulus;
        let x3 = sum_x(p->x.value, q->x.value, s.value, m);
        lemma_reduce_idempotent(s.value * s.value - p->x.value - q->x.value, m);
        lemma_reduce_idempotent(s.value * (p->x.value - x3) - p->y.value, m);
    }
}

/// The mirror image of the mirror image of a point is the point.
pub proof fn lemma_mirror_twice(p: PointModel)
    requires
        p.is_canonical(),
    ensures
        p.mirror().mirror() == p,
        p.mirror().is_canonical(),
{
    if p is Affine {
        let y = p->y.value;
        let m = p->y.modulus;
        lemma_reduce_idempotent(-y, m);
        lemma_congruent_sub(0, 0, reduce(-y, m), -y, m);
        if m > 0 {
            lemma_small_mod(y as nat, m);
        }
    }
}

/// Two points of a curve with the same first coordinate are one point, or
/// mirror images of each other: among the integers and over a prime field.
pub proof fn lemma_same_first_coordinate(p: PointModel, q: PointModel)
    requires
        p.wf(),
        q.wf(),
        p.is_canonical(),
        q.is_canonical(),
        p.curve() == q.curve(),
        p.curve().a.modulus == 0 || is_prime(p.curve().a.modulus),
        p is Affine,
        q is Affine,
        p->x == q->x,
    ensures
        q == p || q == p.mirror(),
{
    let curve = p.curve();
    let m = curve.a.modulus;
    let x = p->x.value;
    let y1 = p->y.value;
    let y2 = q->y.value;
    if y1 != y2 {
        let right = x * x * x + curve.a.value * x + curve.b.value;
        lemma_congruent_difference(y1 * y1, right, m);
        lemma_congruent_difference(y2 * y2, right, m);
        lemma_zero_plus(y1 * y1 - right, y2 * y2 - right, m);
        assert((y1 * y1 - right) - (y2 * y2 - right) == (y1 + y2) * (y1 - y2))
            by (nonlinear_arith);
        lemma_distinct_representatives(y1, y2, m);
        if m == 0 {
            lemma_cancel(y1 + y2, y1 - y2, 0, m);
        } else {
            lemma_prime_cancel(y1 + y2, y1 - y2, m);
        }
        lemma_congruent_difference(y2, -y1, m);
        if m > 0 {
            lemma_small_mod(y2 as nat, m);
        }
    }
}

/// The mirror image of a sum is the sum of the mirror images.
pub proof fn lemma_mirror_of_sum(p: PointModel, q: PointModel)
    requires
        p.wf(),
        q.wf(),
        p.is_canonical(),
        q.is_canonical(),
        p.curve().a.modulus == 0 || (is_prime(p.curve().a.modulus) && p.curve().a.modulus > 2),
    ensures
        p.add(q) matches Some(r) ==> p.mirror().add(q.mirror()) == Some(r.mirror()),
{
    if p.curve() == q.curve() && p is Affine && q is Affine {
        let m = p.curve().a.modulus;
        let a = p.curve().a.value;
        let b = p.curve().b.value;
        let x1 = p->x.value;
        let y1 = p->y.value;
        let x2 = q->x.value;
        let y2 = q->y.value;
        let z1 = reduce(-y1, m);
        let z2 = reduce(-y2, m);
        lemma_reduce_idempotent(-y1, m);
        lemma_reduce_idempotent(-y2, m);
        lemma_mirror_twice(p);
        lemma_mirror_twice(q);
        if p.cancels(q) {
            if y1 == 0 && m > 0 {
                lemma_small_mod(0, m);
            }
        } else if p.has_slope_with(q) {
            let s = slope(x1, y1, x2, y2, a, m);
            let n = slope_numerator(x1, y1, x2, y2, a);
            let d = slope_denominator(x1, y1, x2, y2);
            let mirrored_n = slope_numerator(x1, z1, x2, z2, a);
            let mirrored_d = slope_denominator(x1, z1, x2, z2);
            lemma_quotient_is_exact(n, d, m);
            // the mirrored line has the slope -s
            if x1 == x2 {
                lemma_congruent_mul(2, 2, z1, -y1, m);
                lemma_congruent_mul(-s, -s, 2 * z1, 2 * (-y1), m);
                assert((-s) * (2 * (-y1)) == s * (2 * y1)) by (nonlinear_arith);
                if reduce(2 * z1, m) == 0 {
                    if m > 0 {
                        lemma_small_mod(2, m);
                        lemma_prime_cancel(z1, 2, m);
                        lemma_small_mod(z1 as nat, m);
                    }
                    assert(false);
                }
            } else {
                lemma_congruent_sub(z2, -y2, z1, -y1, m);
                lemma_congruent_sub(0, 0, s * d, n, m);
                assert(0 - s * d == (-s) * d) by (nonlinear_arith);
                lemma_distinct_representatives(x2, x1, m);
            }
            lemma_quotient_of_multiple(mirrored_n, mirrored_d, -s, m);
            let mirrored_s = slope(x1, z1, x2, z2, a, m);
            // so the sum has the same first coordinate and the mirrored second
            lemma_congruent_mul(mirrored_s, -s, mirrored_s, -s, m);
            assert((-s) * (-s) == s * s) by (nonlinear_arith);
            lemma_congruent_sub(mirrored_s * mirrored_s, s * s, x1, x1, m);
            lemma_congruent_sub(mirrored_s * mirrored_s - x1, s * s - x1, x2, x2, m);
            let x3 = sum_x(x1, x2, s, m);
            let y3 = sum_y(x1, y1, x3, s, m);
            lemma_congruent_mul(mirrored_s, -s, x1 - x3, x1 - x3, m);
            lemma_congruent_sub(mirrored_s * (x1 - x3), (-s) * (x1 - x3), z1, -y1, m);
            assert((-s) * (x1 - x3) - (-y1) == -(s * (x1 - x3) - y1)) by (nonlinear_arith);
            lemma_reduce_idempotent(s * (x1 - x3) - y1, m);
            lemma_congruent_sub(0, 0, s * (x1 - x3) - y1, y3, m);
        }
    }
}

/// Over the integers and over a prime field of more than two elements, a
/// point and its mirror image add up to the identity in either order.
pub proof fn lemma_mirror_is_inverse(p: PointModel)
    requires
        p.wf(),
        p.is_canonical(),
        p.curve().a.modulus == 0 || (is_prime(p.curve().a.modulus) && p.curve().a.modulus > 2),
    ensures
        p.mirror().wf(),
        p.mirror().is_canonical(),
        p.mirror().curve() == p.curve(),
        p.mirror().mirror() == p,
        p.add(p.mirror()) == Some(PointModel::Identity { curve: p.curve() }),
        p.mirror().add(p) == Some(PointModel::Identity { curve: p.curve() }),
{
    lemma_mirror_twice(p);
    if p is Affine {
        let y = p->y.value;
        if y != 0 && reduce(-y, p->y.modulus) == y {
            lemma_own_negative(y, p->y.modulus);
        }
    }
    lemma_additive_inverse(p);
}

/// Zero is its own negative in every ring.
proof fn lemma_zero_is_its_own_mirror(m: nat)
    ensures
        reduce(0, m) == 0,
{
    if m > 0 {
        lemma_small_mod(0, m);
    }
}

/// Subtraction undoes addition: from the sum of two points of a smooth
/// curve, the mirror image of the second leads back to the first,
/// `(p + q) + (-q) = p`. This is the associative law for a point, a second
/// and the mirror image of the second; it holds among the integers and over
/// a prime field of more than two elements.
pub proof fn lemma_sum_then_mirror(p: PointModel, q: PointModel)
    requires
        p.wf(),
        q.wf(),
        p.is_canonical(),
        q.is_canonical(),
        p.curve() == q.curve(),
        p.curve().a.modulus == 0 || (is_prime(p.curve().a.modulus) && p.curve().a.modulus > 2),
        is_smooth(p.curve().a.value, p.curve().b.value, p.curve().a.modulus),
        p.add(q) is Some,
    ensures
        p.add(q)->Some_0.add(q.mirror()) == Some(p),
{
    let curve = p.curve();
    let m = curve.a.modulus;
    lemma_mirror_is_inverse(q);
    if p is Affine && q is Affine {
        if p.cancels(q) {
            // the sum is the identity, and the mirror image of q is p
            lemma_same_first_coordinate(p, q);
            lemma_mirror_twice(p);
            lemma_zero_is_its_own_mirror(m);
        } else {
            lemma_back_along_line(
                p->x.value,
                p->y.value,
                q->x.value,
                q->y.value,
                curve.a.value,
                curve.b.value,
                m,
            );
        }
    }
}

/// The associative law where every sum exists: `(p + q) + r` is
/// `p + (q + r)`, for three points of a smooth curve, among the integers
/// and over a prime field of more than two elements.
pub proof fn lemma_associative_where_defined(p: PointModel, q: PointModel, r: PointModel)
    requires
        p.wf(),
        q.wf(),
        r.wf(),
        p.is_canonical(),
        q.is_canonical(),
        r.is_canonical(),
        p.curve() == q.curve(),
        q.curve() == r.curve(),
        p.curve().a.modulus == 0 || (is_prime(p.curve().a.modulus) && p.curve().a.modulus > 2),
        is_smooth(p.curve().a.value, p.curve().b.value, p.curve().a.modulus),
        p.add(q) is Some,
        q.add(r) is Some,
        p.add(q)->Some_0.add(r) is Some,
        p.add(q.add(r)->Some_0) is Some,
    ensures
        p.add(q)->Some_0.add(r) == p.add(q.add(r)->Some_0),
{
    let curve = p.curve();
    let m = curve.a.modulus;
    let pq = p.add(q)->Some_0;
    let qr = q.add(r)->Some_0;
    lemma_sum_is_on_curve(p, q);
    lemma_sum_is_canonical(p, q);
    lemma_sum_is_on_curve(q, r);
    lemma_sum_is_canonical(q, r);
    if p is Identity || q is Identity || r is Identity {
        // the identity changes nothing
    } else if pq is Identity {
        // q is the mirror image of p, and p + (-p + r) = (r + -p) + p = r
        lemma_same_first_coordinate(p, q);
        lemma_mirror_is_inverse(p);
        lemma_zero_is_its_own_mirror(m);
        lemma_commutative(p.mirror(), r);
        lemma_sum_then_mirror(r, p.mirror());
        lemma_commutative(qr, p);
    } else if qr is Identity {
        // r is the mirror image of q, and (p + q) + -q = p
        lemma_same_first_coordinate(q, r);
        lemma_mirror_is_inverse(q);
        lemma_zero_is_its_own_mirror(m);
        lemma_sum_then_mirror(p, q);
    } else if pq.cancels(r) {
        // r is -(p + q) = -p + -q, so q + r = (-p + -q) + q = -p
        lemma_same_first_coordinate(pq, r);
        lemma_mirror_is_inverse(pq);
        lemma_zero_is_its_own_mirror(m);
        lemma_mirror_is_inverse(p);
        lemma_mirror_is_inverse(q);
        lemma_mirror_of_sum(p, q);
        lemma_commutative(q, r);
        lemma_sum_then_mirror(p.mirror(), q.mirror());
    } else if p.cancels(qr) {
        // q + r is -p, so p = -q + -r and p + q = (-r + -q) + q = -r
        lemma_same_first_coordinate(p, qr);
        lemma_mirror_is_inverse(p);
        lemma_zero_is_its_own_mirror(m);
        lemma_mirror_is_inverse(q);
        lemma_mirror_is_inverse(r);
        lemma_mirror_is_inverse(qr);
        lemma_mirror_of_sum(q, r);
        lemma_commutative(q.mirror(), r.mirror());
        lemma_sum_then_mirror(r.mirror(), q.mirror());
    } else if p->x == r->x {
        // r is p or its mirror image
        lemma_same_first_coordinate(p, r);
        if r == p {
            // (p + q) + p = p + (p + q) = p + (q + p)
            lemma_commutative(q, p);
            lemma_commutative(pq, p);
        } else {
            // r is -p: (q + p) + -p = q = (q + -p) + p
            lemma_mirror_is_inverse(p);
            lemma_commutative(p, q);
            lemma_sum_then_mirror(q, p);
            lemma_sum_then_mirror(q, p.mirror());
            lemma_commutative(qr, p);
        }
    } else {
        // every sum is one along a line, and the first and third point
        // differ in the first coordinate
        let a = curve.a.value;
        let b = curve.b.value;
        let x1 = p->x.value;
        let y1 = p->y.value;
        let x2 = q->x.value;
        let y2 = q->y.value;
        let x3 = r->x.value;
        let y3 = r->y.value;
        let s = slope(x1, y1, x2, y2, a, m);
        let t = slope(x2, y2, x3, y3, a, m);
        let xa = sum_x(x1, x2, s, m);
        let ya = sum_y(x1, y1, xa, s, m);
        let xb = sum_x(x2, x3, t, m);
        let yb = sum_y(x2, y2, xb, t, m);
        let u = slope(xa, ya, x3, y3, a, m);
        let v = slope(x1, y1, xb, yb, a, m);
        lemma_slopes_of_three_lines(x1, y1, x2, y2, x3, y3, a, b, m);
        lemma_slopes_from_the_other_end(x1, y1, x2, y2, x3, y3, a, b, m);
        lemma_reduce_idempotent(s * s - x1 - x2, m);
        lemma_reduce_idempotent(s * (x1 - xa) - y1, m);
        lemma_reduce_idempotent(t * t - x2 - x3, m);
        lemma_distinct_representatives(x1, x3, m);
        lemma_two_ways_agree(s, t, u, v, x1, y1, x2, x3, xa, ya, xb, m);
    }
}

/// The associative law: `(p + q) + r` is `p + (q + r)`, for any three points
/// of a smooth curve over a prime field of more than two elements. There
/// every sum exists.
pub proof fn lemma_associative(p: PointModel, q: PointModel, r: PointModel)
    requires
        p.wf(),
        q.wf(),
        r.wf(),
        p.is_canonical(),
        q.is_canonical(),
        r.is_canonical(),
        p.curve() == q.curve(),
        q.curve() == r.curve(),
        is_prime(p.curve().a.modulus),
        p.curve().a.modulus > 2,
        is_smooth(p.curve().a.value, p.curve().b.value, p.curve().a.modulus),
    ensures
        p.add(q) is Some,
        q.add(r) is Some,
        p.add(q)->Some_0.add(r) is Some,
        p.add(q)->Some_0.add(r) == p.add(q.add(r)->Some_0),
{
    lemma_prime_field_sum_exists(p, q);
    lemma_prime_field_sum_exists(q, r);
    lemma_sum_is_on_curve(p, q);
    lemma_sum_is_canonical(p, q);
    lemma_sum_is_on_curve(q, r);
    lemma_sum_is_canonical(q, r);
    lemma_prime_field_sum_exists(p.add(q)->Some_0, r);
    lemma_prime_field_sum_exists(p, q.add(r)->Some_0);
    lemma_associative_where_defined(p, q, r);
}

} // verus!
