//! Points of a curve and their addition.

use crate::congruence::{
    lemma_congruent_add, lemma_congruent_mul, lemma_congruent_sub, lemma_quotient_congruent,
    lemma_reduce_idempotent,
};
use crate::coordinate::Coordinate;
use crate::curve::{satisfies_equation, Curve, CurveModel};
use crate::error::{CurveMismatchError, NotOnCurveError};
use crate::group_law::{
    has_slope, lemma_sum_on_curve, slope, slope_denominator, slope_numerator, sum_x, sum_y,
};
use crate::ring::{congruent, is_reduced, reduce, ring_add, ring_mul, ring_sub, Scalar};
use vstd::prelude::*;

verus! {

/// What a point is to the contracts: the identity of a curve's group, or a
/// pair of coordinates, each with the curve it belongs to.
pub enum PointModel {
    Identity { curve: CurveModel },
    Affine { curve: CurveModel, x: Scalar, y: Scalar },
}

impl PointModel {
    /// The curve that the point belongs to.
    pub open spec fn curve(self) -> CurveModel {
        match self {
            PointModel::Identity { curve } => curve,
            PointModel::Affine { curve, .. } => curve,
        }
    }

    /// Whether the point lies on its curve. The identity always does.
    pub open spec fn wf(self) -> bool {
        match self {
            PointModel::Identity { .. } => true,
            PointModel::Affine { curve, x, y } => curve.contains(x, y),
        }
    }

    /// The mirror image across the first axis, which is the inverse in the
    /// group. The identity is its own.
    pub open spec fn mirror(self) -> PointModel {
        match self {
            PointModel::Identity { .. } => self,
            PointModel::Affine { curve, x, y } => PointModel::Affine {
                curve,
                x,
                y: Scalar { value: reduce(-y.value, y.modulus), modulus: y.modulus },
            },
        }
    }

    /// Whether the coordinates are the representatives of their classes, as
    /// those of every point are that arithmetic has produced.
    pub open spec fn is_canonical(self) -> bool {
        self matches PointModel::Affine { x, y, .. } ==> is_reduced(x.value, x.modulus)
            && is_reduced(y.value, y.modulus)
    }

    /// Whether the line through two affine points of one curve has a slope.
    pub open spec fn has_slope_with(self, other: PointModel) -> bool {
        &&& self.curve() == other.curve()
        &&& self matches PointModel::Affine { curve, x: x1, y: y1 }
        &&& other matches PointModel::Affine { x: x2, y: y2, .. }
        &&& has_slope(x1.value, y1.value, x2.value, y2.value, curve.a.value, x1.modulus)
    }

    /// The slope of the line through two affine points of one curve: of the
    /// tangent where they have the same first coordinate, of the chord
    /// otherwise.
    pub open spec fn slope_with(self, other: PointModel) -> Scalar
        recommends
            self.has_slope_with(other),
    {
        Scalar {
            value: slope(
                self->x.value,
                self->y.value,
                other->x.value,
                other->y.value,
                self.curve().a.value,
                self->x.modulus,
            ),
            modulus: self->x.modulus,
        }
    }

    /// Whether two affine points lie on one vertical line and cancel: they
    /// differ in the second coordinate only, or they are one point of the
    /// first axis.
    pub open spec fn cancels(self, other: PointModel) -> bool {
        &&& self matches PointModel::Affine { x: x1, y: y1, .. }
        &&& other matches PointModel::Affine { x: x2, y: y2, .. }
        &&& x1 == x2
        &&& (y1 != y2 || y1.value == 0)
    }

    /// The third point of the curve on the line through two affine points,
    /// mirrored: their sum where they do not cancel.
    pub open spec fn line_sum(self, other: PointModel) -> PointModel
        recommends
            self.has_slope_with(other),
    {
        let s = self.slope_with(other);
        let m = s.modulus;
        let x3 = sum_x(self->x.value, other->x.value, s.value, m);
        let y3 = sum_y(self->x.value, self->y.value, x3, s.value, m);
        PointModel::Affine {
            curve: self.curve(),
            x: Scalar { value: x3, modulus: m },
            y: Scalar { value: y3, modulus: m },
        }
    }

    /// The group law. `None` stands for a sum that does not exist: of points
    /// of two curves, or along a line without a slope in the ring.
    pub open spec fn add(self, other: PointModel) -> Option<PointModel> {
        if self.curve() != other.curve() {
            None
        } else if self is Identity {
            Some(other)
        } else if other is Identity {
            Some(self)
        } else if self.cancels(other) {
            Some(PointModel::Identity { curve: self.curve() })
        } else if self.has_slope_with(other) {
            Some(self.line_sum(other))
        } else {
            None
        }
    }
}

/// A point of a curve: the identity of the group, or a pair of coordinates
/// that satisfies the curve's equation.
#[derive(Debug)]
pub struct Point<T: Coordinate> {
    curve: Curve<T>,
    position: Option<(T, T)>,
}

impl<T: Coordinate> View for Point<T> {
    type V = PointModel;

    closed spec fn view(&self) -> PointModel {
        match self.position {
            None => PointModel::Identity { curve: self.curve@ },
            Some((x, y)) => PointModel::Affine { curve: self.curve@, x: x.scalar(), y: y.scalar() },
        }
    }
}

impl<T: Coordinate> Point<T> {
    /// Every point lies on its curve.
    #[verifier::type_invariant]
    pub open spec fn wf(&self) -> bool {
        self@.wf()
    }

    /// The identity of the group of `curve`: the point at infinity.
    pub fn identity(curve: Curve<T>) -> (r: Point<T>)
        ensures
            r@ == (PointModel::Identity { curve: curve@ }),
    {
        Point { curve, position: None }
    }

    /// The point `(x, y)` of `curve`, if the pair satisfies the curve's
    /// equation.
    pub fn affine(curve: Curve<T>, x: T, y: T) -> (r: Result<Point<T>, NotOnCurveError>)
        ensures
            r is Ok <==> curve@.contains(x.scalar(), y.scalar()),
            r matches Ok(p) ==> p.wf() && p@ == (PointModel::Affine {
                curve: curve@,
                x: x.scalar(),
                y: y.scalar(),
            }),
    {
        if curve.contains(&x, &y) {
            Ok(Point { curve, position: Some((x, y)) })
        } else {
            Err(NotOnCurveError)
        }
    }

    /// The point `(x, y)` of the curve with coefficients `a` and `b`, if the
    /// pair satisfies that curve's equation.
    pub fn new(x: T, y: T, a: T, b: T) -> (r: Result<Point<T>, NotOnCurveError>)
        ensures
            r is Ok <==> (CurveModel { a: a.scalar(), b: b.scalar() }).contains(
                x.scalar(),
                y.scalar(),
            ),
            r matches Ok(p) ==> p.wf() && p@ == (PointModel::Affine {
                curve: CurveModel { a: a.scalar(), b: b.scalar() },
                x: x.scalar(),
                y: y.scalar(),
            }),
    {
        Point::affine(Curve::new(a, b), x, y)
    }

    /// Whether `(x, y)` satisfies `y^2 = x^3 + a*x + b`.
    pub fn is_on_curve(x: &T, y: &T, a: &T, b: &T) -> (r: bool)
        ensures
            r == (CurveModel { a: a.scalar(), b: b.scalar() }).contains(x.scalar(), y.scalar()),
    {
        satisfies_equation(x, y, a, b)
    }

    /// The curve that the point belongs to.
    pub fn curve(&self) -> (r: &Curve<T>)
        ensures
            r@ == self@.curve(),
            self@.wf(),
    {
        proof {
            use_type_invariant(self);
        }
        &self.curve
    }

    /// Whether this is the identity.
    pub fn is_identity(&self) -> (r: bool)
        ensures
            r == (self@ is Identity),
    {
        self.position.is_none()
    }

    /// The first coordinate; the identity has none.
    pub fn x(&self) -> (r: Option<&T>)
        ensures
            r is Some <==> self@ is Affine,
            r matches Some(x) ==> x.scalar() == self@->x,
    {
        match &self.position {
            Some(pair) => Some(&pair.0),
            None => None,
        }
    }

    /// The second coordinate; the identity has none.
    pub fn y(&self) -> (r: Option<&T>)
        ensures
            r is Some <==> self@ is Affine,
            r matches Some(y) ==> y.scalar() == self@->y,
    {
        match &self.position {
            Some(pair) => Some(&pair.1),
            None => None,
        }
    }
}

/// The parts of a tangent's slope, computed step by step in the ring, stand
/// for `3*x^2 + a` and `2*y`.
proof fn lemma_tangent_by_steps(x: int, y: int, a: int, m: nat)
    ensures
        ({
            let square = ring_mul(x, x, m);
            let thrice = ring_add(ring_add(square, square, m), square, m);
            &&& congruent(ring_add(thrice, a, m), 3 * x * x + a, m)
            &&& congruent(ring_add(y, y, m), 2 * y, m)
        }),
{
    let square = ring_mul(x, x, m);
    let twice = ring_add(square, square, m);
    let thrice = ring_add(twice, square, m);
    lemma_reduce_idempotent(x * x, m);
    lemma_congruent_add(square, x * x, square, x * x, m);
    lemma_reduce_idempotent(square + square, m);
    lemma_congruent_add(twice, x * x + x * x, square, x * x, m);
    lemma_reduce_idempotent(twice + square, m);
    lemma_congruent_add(thrice, x * x + x * x + x * x, a, a, m);
    lemma_reduce_idempotent(thrice + a, m);
    assert(3 * x * x == x * x + x * x + x * x) by (nonlinear_arith);
    lemma_reduce_idempotent(y + y, m);
}

/// The coordinates of a sum, computed step by step in the ring, are those
/// that the group law names.
proof fn lemma_sum_by_steps(x1: int, y1: int, x2: int, s: int, m: nat)
    ensures
        ({
            let x3 = ring_sub(ring_sub(ring_mul(s, s, m), x1, m), x2, m);
            &&& x3 == sum_x(x1, x2, s, m)
            &&& ring_sub(ring_mul(s, ring_sub(x1, x3, m), m), y1, m) == sum_y(x1, y1, x3, s, m)
        }),
{
    let square = ring_mul(s, s, m);
    let less = ring_sub(square, x1, m);
    let x3 = ring_sub(less, x2, m);
    lemma_reduce_idempotent(s * s, m);
    lemma_congruent_sub(square, s * s, x1, x1, m);
    lemma_reduce_idempotent(square - x1, m);
    lemma_congruent_sub(less, s * s - x1, x2, x2, m);
    let back = ring_sub(x1, x3, m);
    let rise = ring_mul(s, back, m);
    lemma_reduce_idempotent(x1 - x3, m);
    lemma_congruent_mul(s, s, back, x1 - x3, m);
    lemma_reduce_idempotent(s * back, m);
    lemma_congruent_sub(rise, s * (x1 - x3), y1, y1, m);
}

impl<T: Coordinate> Point<T> {
    /// The slope of the line through two affine points of one curve: of
    /// the tangent where they have the same first coordinate, of the chord
    /// otherwise. There is none where either point is the identity, where the
    /// curves differ, or where the ring lacks the quotient.
    pub fn find_slope(&self, other: &Point<T>) -> (r: Option<T>)
        ensures
            r is Some <==> self@.has_slope_with(other@),
            r matches Some(s) ==> s.scalar() == self@.slope_with(other@),
    {
        proof {
            use_type_invariant(self);
            use_type_invariant(other);
        }
        if !self.curve.same(&other.curve) {
            return None;
        }
        match &self.position {
            None => None,
            Some(p) => match &other.position {
                None => None,
                Some(q) => {
                    let ghost m = p.0.scalar().modulus;
                    let ghost x1 = p.0.scalar().value;
                    let ghost y1 = p.1.scalar().value;
                    let ghost x2 = q.0.scalar().value;
                    let ghost y2 = q.1.scalar().value;
                    let ghost a = self.curve@.a.value;
                    if p.0.same(&q.0) {
                        let square = p.0.product(&p.0)?;
                        let twice = square.sum(&square)?;
                        let thrice = twice.sum(&square)?;
                        let numerator = thrice.sum(self.curve.a())?;
                        let denominator = p.1.sum(&p.1)?;
                        proof {
                            lemma_tangent_by_steps(x1, y1, a, m);
                            lemma_quotient_congruent(
                                numerator.scalar().value,
                                denominator.scalar().value,
                                slope_numerator(x1, y1, x2, y2, a),
                                slope_denominator(x1, y1, x2, y2),
                                m,
                            );
                        }
                        numerator.quotient(&denominator)
                    } else {
                        let numerator = q.1.difference(&p.1)?;
                        let denominator = q.0.difference(&p.0)?;
                        proof {
                            lemma_reduce_idempotent(y2 - y1, m);
                            lemma_reduce_idempotent(x2 - x1, m);
                            lemma_quotient_congruent(
                                numerator.scalar().value,
                                denominator.scalar().value,
                                slope_numerator(x1, y1, x2, y2, a),
                                slope_denominator(x1, y1, x2, y2),
                                m,
                            );
                        }
                        numerator.quotient(&denominator)
                    }
                },
            },
        }
    }

    /// Whether two affine points cancel: they lie on one vertical line, as
    /// two points or as one point of the first axis.
    fn cancels(&self, other: &Point<T>) -> (r: bool)
        ensures
            r == self@.cancels(other@),
    {
        match &self.position {
            None => false,
            Some(p) => match &other.position {
                None => false,
                Some(q) => p.0.same(&q.0) && (!p.1.same(&q.1) || p.1.is_zero()),
            },
        }
    }

    /// The sum of two affine points of one curve along the line through
    /// them. There is none where that line has no slope, and none for two
    /// points that differ in the second coordinate only: their line is
    /// vertical.
    pub fn find_sum_of_points(&self, other: &Point<T>) -> (r: Option<Point<T>>)
        ensures
            r is Some <==> self@.has_slope_with(other@) && (self@->x == other@->x ==> self@->y
                == other@->y),
            r matches Some(p) ==> p.wf() && p@ == self@.line_sum(other@),
    {
        proof {
            use_type_invariant(self);
            use_type_invariant(other);
        }
        let s = match self.find_slope(other) {
            None => {
                return None;
            },
            Some(s) => s,
        };
        match &self.position {
            None => None,
            Some(p) => match &other.position {
                None => None,
                Some(q) => {
                    if p.0.same(&q.0) && !p.1.same(&q.1) {
                        return None;
                    }
                    let square = s.product(&s)?;
                    let less = square.difference(&p.0)?;
                    let x3 = less.difference(&q.0)?;
                    let back = p.0.difference(&x3)?;
                    let rise = s.product(&back)?;
                    let y3 = rise.difference(&p.1)?;
                    proof {
                        let m = p.0.scalar().modulus;
                        let x1 = p.0.scalar().value;
                        let y1 = p.1.scalar().value;
                        let x2 = q.0.scalar().value;
                        let y2 = q.1.scalar().value;
                        lemma_sum_by_steps(x1, y1, x2, s.scalar().value, m);
                        lemma_sum_on_curve(
                            x1,
                            y1,
                            x2,
                            y2,
                            self.curve@.a.value,
                            self.curve@.b.value,
                            m,
                        );
                    }
                    Some(Point { curve: self.curve.clone(), position: Some((x3, y3)) })
                },
            },
        }
    }

    /// The sum of two points of one curve, by the group law:
    /// the identity changes nothing; two points that cancel give the
    /// identity; any other two give the third point of their line, mirrored.
    ///
    /// Points of different curves have no sum, nor have two points whose line
    /// has no slope in the ring of the coordinates.
    pub fn add(self, other: Point<T>) -> (r: Result<Point<T>, CurveMismatchError>)
        ensures
            r is Ok <==> self@.add(other@) is Some,
            r matches Ok(p) ==> p.wf() && self@.add(other@) == Some(p@),
            self@.curve() != other@.curve() ==> r is Err,
    {
        proof {
            use_type_invariant(&self);
            use_type_invariant(&other);
        }
        if !self.curve.same(&other.curve) {
            return Err(CurveMismatchError);
        }
        if self.position.is_none() {
            return Ok(other);
        }
        if other.position.is_none() {
            return Ok(self);
        }
        if self.cancels(&other) {
            return Ok(Point { curve: self.curve, position: None });
        }
        match self.find_sum_of_points(&other) {
            Some(p) => Ok(p),
            None => Err(CurveMismatchError),
        }
    }
}

impl<T: Coordinate> Clone for Point<T> {
    fn clone(&self) -> (r: Point<T>)
        ensures
            r@ == self@,
    {
        proof {
            use_type_invariant(self);
        }
        let position = match &self.position {
            None => None,
            Some(p) => Some((p.0.duplicate(), p.1.duplicate())),
        };
        Point { curve: self.curve.clone(), position }
    }
}

impl<T: Coordinate> PartialEq for Point<T> {
    /// Two points are equal when they are the same point of the same curve.
    fn eq(&self, other: &Point<T>) -> (r: bool) {
        if !self.curve.same(&other.curve) {
            return false;
        }
        match &self.position {
            None => other.position.is_none(),
            Some(p) => match &other.position {
                None => false,
                Some(q) => p.0.same(&q.0) && p.1.same(&q.1),
            },
        }
    }
}

impl<T: Coordinate> vstd::std_specs::cmp::PartialEqSpecImpl for Point<T> {
    open spec fn obeys_eq_spec() -> bool {
        true
    }

    open spec fn eq_spec(&self, other: &Point<T>) -> bool {
        self@ == other@
    }
}

} // verus!
