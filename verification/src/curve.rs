//! A short Weierstrass curve `y^2 = x^3 + a*x + b`, given by its coefficients.

use crate::congruence::{lemma_congruent_add, lemma_congruent_mul, lemma_reduce_idempotent};
use crate::coordinate::Coordinate;
use crate::group_law::on_curve;
use crate::ring::{reduce, ring_add, ring_mul, Scalar};
use vstd::prelude::*;

verus! {

/// What a curve is to the contracts: its two coefficients.
pub struct CurveModel {
    pub a: Scalar,
    pub b: Scalar,
}

impl CurveModel {
    /// Whether `(x, y)` is a point of the curve: coefficients and coordinates
    /// lie in one ring, and there the equation holds.
    pub open spec fn contains(self, x: Scalar, y: Scalar) -> bool {
        &&& self.a.modulus == x.modulus
        &&& self.b.modulus == x.modulus
        &&& y.modulus == x.modulus
        &&& on_curve(x.value, y.value, self.a.value, self.b.value, x.modulus)
    }
}

/// The coefficients of a curve. Nothing is asked of them: that the curve is
/// not singular is the caller's concern.
#[derive(Debug)]
pub struct Curve<T: Coordinate> {
    a: T,
    b: T,
}

impl<T: Coordinate> View for Curve<T> {
    type V = CurveModel;

    closed spec fn view(&self) -> CurveModel {
        CurveModel { a: self.a.scalar(), b: self.b.scalar() }
    }
}

/// The right-hand side of the curve's equation, computed step by step in the
/// ring, is the representative of `x^3 + a*x + b`.
proof fn lemma_equation_by_steps(x: int, a: int, b: int, m: nat)
    ensures
        ring_add(ring_add(ring_mul(ring_mul(x, x, m), x, m), ring_mul(a, x, m), m), b, m)
            == reduce(x * x * x + a * x + b, m),
{
    let square = ring_mul(x, x, m);
    let cube = ring_mul(square, x, m);
    let linear = ring_mul(a, x, m);
    let both = ring_add(cube, linear, m);
    lemma_reduce_idempotent(x * x, m);
    lemma_congruent_mul(square, x * x, x, x, m);
    lemma_reduce_idempotent(square * x, m);
    lemma_reduce_idempotent(a * x, m);
    lemma_congruent_add(cube, x * x * x, linear, a * x, m);
    lemma_reduce_idempotent(cube + linear, m);
    lemma_congruent_add(both, x * x * x + a * x, b, b, m);
    lemma_reduce_idempotent(both + b, m);
}

/// Whether `y^2 = x^3 + a*x + b` holds of four numbers of one ring.
pub(crate) fn satisfies_equation<T: Coordinate>(x: &T, y: &T, a: &T, b: &T) -> (r: bool)
    ensures
        r == (CurveModel { a: a.scalar(), b: b.scalar() }).contains(x.scalar(), y.scalar()),
{
    match right_hand_side(x, a, b) {
        None => false,
        Some(right) => match y.product(y) {
            None => false,
            Some(left) => left.same(&right),
        },
    }
}

/// `x^3 + a*x + b`, for three numbers of one ring.
fn right_hand_side<T: Coordinate>(x: &T, a: &T, b: &T) -> (r: Option<T>)
    ensures
        r is Some <==> a.scalar().modulus == x.scalar().modulus && b.scalar().modulus
            == x.scalar().modulus,
        r matches Some(v) ==> v.scalar() == (Scalar {
            value: reduce(
                x.scalar().value * x.scalar().value * x.scalar().value + a.scalar().value
                    * x.scalar().value + b.scalar().value,
                x.scalar().modulus,
            ),
            modulus: x.scalar().modulus,
        }),
{
    proof {
        lemma_equation_by_steps(
            x.scalar().value,
            a.scalar().value,
            b.scalar().value,
            x.scalar().modulus,
        );
    }
    let square = x.product(x)?;
    let cube = square.product(x)?;
    let linear = a.product(x)?;
    let both = cube.sum(&linear)?;
    both.sum(b)
}

impl<T: Coordinate> Curve<T> {
    /// The curve with coefficients `a` and `b`.
    pub fn new(a: T, b: T) -> (r: Curve<T>)
        ensures
            r@ == (CurveModel { a: a.scalar(), b: b.scalar() }),
    {
        Curve { a, b }
    }

    /// The coefficient of `x`.
    pub fn a(&self) -> (r: &T)
        ensures
            r.scalar() == self@.a,
    {
        &self.a
    }

    /// The constant term.
    pub fn b(&self) -> (r: &T)
        ensures
            r.scalar() == self@.b,
    {
        &self.b
    }

    /// Whether `(x, y)` satisfies the curve's equation, in the arithmetic of
    /// the coordinates.
    pub fn contains(&self, x: &T, y: &T) -> (r: bool)
        ensures
            r == self@.contains(x.scalar(), y.scalar()),
    {
        satisfies_equation(x, y, &self.a, &self.b)
    }

    /// Whether both curves have the same coefficients.
    pub fn same(&self, other: &Curve<T>) -> (r: bool)
        ensures
            r == (self@ == other@),
    {
        self.a.same(&other.a) && self.b.same(&other.b)
    }
}

impl<T: Coordinate> Clone for Curve<T> {
    fn clone(&self) -> (r: Curve<T>)
        ensures
            r@ == self@,
    {
        Curve { a: self.a.duplicate(), b: self.b.duplicate() }
    }
}

impl<T: Coordinate> PartialEq for Curve<T> {
    fn eq(&self, other: &Curve<T>) -> (r: bool) {
        self.same(other)
    }
}

impl<T: Coordinate> vstd::std_specs::cmp::PartialEqSpecImpl for Curve<T> {
    open spec fn obeys_eq_spec() -> bool {
        true
    }

    open spec fn eq_spec(&self, other: &Curve<T>) -> bool {
        self@ == other@
    }
}

} // verus!
