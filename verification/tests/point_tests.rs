use ecc::coordinate::Coordinate;
use ecc::curve::Curve;
use ecc::error::{CurveMismatchError, NotOnCurveError};
use ecc::field::FieldElement;
use ecc::point::Point;
use num::{BigInt, BigUint};

fn fe(num: u32, prime: u32) -> FieldElement {
    FieldElement::new(BigUint::from(num), BigUint::from(prime)).unwrap()
}

fn int_point(x: i64, y: i64, a: i64, b: i64) -> Point<BigInt> {
    Point::new(BigInt::from(x), BigInt::from(y), BigInt::from(a), BigInt::from(b)).unwrap()
}

fn int_identity(a: i64, b: i64) -> Point<BigInt> {
    Point::identity(Curve::new(BigInt::from(a), BigInt::from(b)))
}

/// The curve y^2 = x^3 + 7 over the field of 223 elements.
fn curve223() -> Curve<FieldElement> {
    Curve::new(fe(0, 223), fe(7, 223))
}

fn point223(x: u32, y: u32) -> Point<FieldElement> {
    Point::affine(curve223(), fe(x, 223), fe(y, 223)).unwrap()
}

/// All points of y^2 = x^3 + a*x + b over the field of p elements.
fn all_points(a: u32, b: u32, p: u32) -> Vec<Point<FieldElement>> {
    let curve = Curve::new(fe(a, p), fe(b, p));
    let mut points = vec![Point::identity(curve.clone())];
    for x in 0..p {
        for y in 0..p {
            if let Ok(point) = Point::affine(curve.clone(), fe(x, p), fe(y, p)) {
                points.push(point);
            }
        }
    }
    points
}

#[test]
fn create_point() {
    let (x, y, a, b) = (
        BigInt::from(-1),
        BigInt::from(-1),
        BigInt::from(5),
        BigInt::from(7),
    );
    let p = Point::new(x.clone(), y.clone(), a.clone(), b.clone()).unwrap();
    assert!(!p.is_identity());
    assert_eq!(p.x(), Some(&x));
    assert_eq!(p.y(), Some(&y));
    assert_eq!(p.curve().a(), &a);
    assert_eq!(p.curve().b(), &b);
    assert_eq!(p, Point::affine(Curve::new(a, b), x, y).unwrap());
}

#[test]
fn point_addition_with_identity() {
    let (a, b) = (BigInt::from(5), BigInt::from(7));
    let p1 = Point::new(BigInt::from(-1), BigInt::from(-1), a.clone(), b.clone()).unwrap();
    let id = Point::identity(Curve::new(a, b));
    let s1 = p1.clone().add(id.clone()).unwrap();
    let s2 = id.add(p1.clone()).unwrap();
    assert_eq!(s1, p1);
    assert_eq!(s2, p1);
}

#[test]
fn point_additive_inverse() {
    let (a, b) = (BigInt::from(5), BigInt::from(7));
    let p1 = Point::new(BigInt::from(-1), BigInt::from(-1), a.clone(), b.clone()).unwrap();
    let p2 = Point::new(BigInt::from(-1), BigInt::from(1), a.clone(), b.clone()).unwrap();

    let s = p1.clone().add(p2.clone()).unwrap();
    assert_eq!(s, Point::identity(Curve::new(a, b)));
}

#[test]
fn test_point_addition() {
    // curve y^2 = x^3 + 5*x + 7
    // a = 5, b = 7
    let (a, b) = (5, 7);
    let p = Point::new(
        BigInt::from(-1),
        BigInt::from(-1),
        BigInt::from(a),
        BigInt::from(b),
    )
    .unwrap();

    // the tangent at (-1, -1) has slope (3 + 5) / (-2) = -4
    let mut res = p.clone().add(p.clone()).unwrap();
    assert_eq!(res, int_point(18, 77, a, b));
    let p1 = Point::new(
        BigInt::from(2),
        BigInt::from(5),
        BigInt::from(a),
        BigInt::from(b),
    )
    .unwrap();
    // the chord through (2, 5) and (-1, -1) has slope 2
    res = p1.add(p).unwrap();
    assert_eq!(res, int_point(3, -7, a, b));
}

#[test]
fn pairs_off_the_curve_are_rejected() {
    assert_eq!(
        Point::new(
            BigInt::from(-1),
            BigInt::from(-2),
            BigInt::from(5),
            BigInt::from(7)
        ),
        Err(NotOnCurveError)
    );
    assert_eq!(
        Point::affine(curve223(), fe(200, 223), fe(119, 223)),
        Err(NotOnCurveError)
    );
    assert_eq!(
        Point::affine(curve223(), fe(42, 223), fe(99, 223)),
        Err(NotOnCurveError)
    );
}

#[test]
fn membership_is_decided_in_the_coordinates_arithmetic() {
    let curve = curve223();
    assert!(curve.contains(&fe(192, 223), &fe(105, 223)));
    assert!(curve.contains(&fe(17, 223), &fe(56, 223)));
    assert!(curve.contains(&fe(1, 223), &fe(193, 223)));
    assert!(!curve.contains(&fe(200, 223), &fe(119, 223)));
    assert!(!curve.contains(&fe(42, 223), &fe(99, 223)));
    // over the integers the same pair fails: 105^2 is not 192^3 + 7
    let integers = Curve::new(BigInt::from(0), BigInt::from(7));
    assert!(!integers.contains(&BigInt::from(192), &BigInt::from(105)));
    assert!(Point::<BigInt>::is_on_curve(
        &BigInt::from(2),
        &BigInt::from(5),
        &BigInt::from(5),
        &BigInt::from(7)
    ));
    assert!(!Point::<BigInt>::is_on_curve(
        &BigInt::from(2),
        &BigInt::from(4),
        &BigInt::from(5),
        &BigInt::from(7)
    ));
}

#[test]
fn coordinates_of_another_field_are_not_on_the_curve() {
    let curve = curve223();
    assert!(!curve.contains(&fe(192, 227), &fe(105, 227)));
    assert!(!curve.contains(&fe(192, 223), &fe(105, 227)));
    let mixed = Curve::new(fe(0, 223), fe(7, 227));
    assert!(!mixed.contains(&fe(192, 223), &fe(105, 223)));
}

#[test]
fn scenario_vertical_line_gives_identity() {
    let sum = int_point(-1, -1, 5, 7).add(int_point(-1, 1, 5, 7));
    assert_eq!(sum, Ok(int_identity(5, 7)));
}

#[test]
fn identity_is_neutral_on_both_sides() {
    let p = point223(192, 105);
    let id = Point::identity(curve223());
    assert_eq!(p.clone().add(id.clone()), Ok(p.clone()));
    assert_eq!(id.clone().add(p.clone()), Ok(p));
    assert_eq!(id.clone().add(id.clone()), Ok(id));
}

#[test]
fn chord_addition_in_a_prime_field() {
    assert_eq!(
        point223(170, 142).add(point223(60, 139)),
        Ok(point223(220, 181))
    );
    assert_eq!(
        point223(47, 71).add(point223(17, 56)),
        Ok(point223(215, 68))
    );
    assert_eq!(
        point223(143, 98).add(point223(76, 66)),
        Ok(point223(47, 71))
    );
}

#[test]
fn doubling_in_a_prime_field() {
    assert_eq!(
        point223(192, 105).add(point223(192, 105)),
        Ok(point223(49, 71))
    );
    assert_eq!(
        point223(143, 98).add(point223(143, 98)),
        Ok(point223(64, 168))
    );
    assert_eq!(
        point223(47, 71).add(point223(47, 71)),
        Ok(point223(36, 111))
    );
}

#[test]
fn doubling_follows_the_tangent_over_the_integers() {
    // y^2 = x^3 + 5x + 7 at (2, 5): the slope 17/10 is no integer
    assert_eq!(
        int_point(2, 5, 5, 7).add(int_point(2, 5, 5, 7)),
        Err(CurveMismatchError)
    );
    // in the field of 223 elements the same tangent has a slope
    let curve = Curve::new(fe(5, 223), fe(7, 223));
    let p = Point::affine(curve.clone(), fe(2, 223), fe(5, 223)).unwrap();
    let doubled = p.clone().add(p).unwrap();
    let (x, y) = (doubled.x().unwrap(), doubled.y().unwrap());
    assert!(curve.contains(x, y));
    // 10 * 67 = 3 * 223 + 1, so s = 17 * 67 = 24; x3 = s^2 - 4 = 126;
    // y3 = s * (2 - x3) - 5 = 141
    assert_eq!(x, &fe(126, 223));
    assert_eq!(y, &fe(141, 223));
}

#[test]
fn doubling_a_point_of_the_first_axis_gives_identity() {
    // y^2 = x^3 - x has the points (0, 0), (1, 0), (-1, 0)
    let p = int_point(1, 0, -1, 0);
    assert_eq!(p.clone().add(p), Ok(int_identity(-1, 0)));
    // y^2 = x^3 + 6 over the field of 7 elements holds (1, 0)
    let curve = Curve::new(fe(0, 7), fe(6, 7));
    let q = Point::affine(curve.clone(), fe(1, 7), fe(0, 7)).unwrap();
    assert_eq!(q.clone().add(q), Ok(Point::identity(curve)));
}

#[test]
fn opposite_points_give_identity() {
    // (192, 105) and (192, 223 - 105)
    assert_eq!(
        point223(192, 105).add(point223(192, 118)),
        Ok(Point::identity(curve223()))
    );
    for p in all_points(2, 3, 97) {
        if let (Some(x), Some(y)) = (p.x(), p.y()) {
            let zero = fe(0, 97);
            let minus_y = zero.sub(y.clone()).unwrap();
            let q = Point::affine(p.curve().clone(), x.clone(), minus_y).unwrap();
            assert_eq!(
                p.clone().add(q),
                Ok(Point::identity(p.curve().clone()))
            );
        }
    }
}

#[test]
fn points_of_different_curves_are_not_added() {
    let p = int_point(-1, -1, 5, 7);
    // (0, 1) lies on y^2 = x^3 + 5x + 1
    let q = int_point(0, 1, 5, 1);
    assert_eq!(p.clone().add(q.clone()), Err(CurveMismatchError));
    assert_eq!(q.clone().add(p.clone()), Err(CurveMismatchError));
    assert_eq!(p.clone().add(int_identity(5, 1)), Err(CurveMismatchError));
    assert_eq!(int_identity(5, 1).add(p.clone()), Err(CurveMismatchError));
    assert_eq!(int_identity(5, 1).add(int_identity(5, 7)), Err(CurveMismatchError));
    // the same coefficients in another field are another curve
    let r = point223(192, 105);
    let other = Point::identity(Curve::new(fe(0, 227), fe(7, 227)));
    assert_eq!(r.clone().add(other.clone()), Err(CurveMismatchError));
    assert_eq!(other.add(r), Err(CurveMismatchError));
    assert_eq!(p.find_slope(&q), None);
    assert!(p.find_sum_of_points(&q).is_none());
}

#[test]
fn a_chord_without_integer_slope_gives_no_sum() {
    // y^2 = x^3 + 5x + 7 holds (-1, -1) and (18, 77): slope 78 / 19
    assert_eq!(
        int_point(-1, -1, 5, 7).add(int_point(18, 77, 5, 7)),
        Err(CurveMismatchError)
    );
}

#[test]
fn doubling_in_characteristic_two_gives_no_sum() {
    // y^2 = x^3 + 1 over the field of 2 elements holds (0, 1)
    let curve = Curve::new(fe(0, 2), fe(1, 2));
    let p = Point::affine(curve, fe(0, 2), fe(1, 2)).unwrap();
    assert_eq!(p.clone().add(p), Err(CurveMismatchError));
}

#[test]
fn slope_of_chord_and_tangent() {
    let p = int_point(-1, -1, 5, 7);
    let q = int_point(2, 5, 5, 7);
    assert_eq!(p.find_slope(&q), Some(BigInt::from(2)));
    assert_eq!(q.find_slope(&p), Some(BigInt::from(2)));
    assert_eq!(p.find_slope(&p), Some(BigInt::from(-4)));
    assert_eq!(q.find_slope(&q), None);
    assert_eq!(p.find_slope(&int_identity(5, 7)), None);
    assert_eq!(int_identity(5, 7).find_slope(&p), None);
    // 17 / 10 in the field of 223 elements: 10 * 67 = 3 * 223 + 1
    let curve = Curve::new(fe(5, 223), fe(7, 223));
    let r = Point::affine(curve, fe(2, 223), fe(5, 223)).unwrap();
    assert_eq!(r.find_slope(&r), Some(fe(24, 223)));
}

#[test]
fn sum_along_a_line() {
    let p = int_point(-1, -1, 5, 7);
    let q = int_point(2, 5, 5, 7);
    assert_eq!(p.find_sum_of_points(&q), Some(int_point(3, -7, 5, 7)));
    assert_eq!(p.find_sum_of_points(&p), Some(int_point(18, 77, 5, 7)));
    // a vertical line has no third point
    assert!(p.find_sum_of_points(&int_point(-1, 1, 5, 7)).is_none());
    assert!(p.find_sum_of_points(&int_identity(5, 7)).is_none());
}

#[test]
fn sums_stay_on_the_curve() {
    for (a, b, p) in [(2_u32, 3_u32, 97_u32), (0, 7, 43), (1, 1, 23)] {
        let points = all_points(a, b, p);
        for first in &points {
            for second in &points {
                let sum = first.clone().add(second.clone()).unwrap();
                match (sum.x(), sum.y()) {
                    (Some(x), Some(y)) => assert!(sum.curve().contains(x, y)),
                    _ => assert!(sum.is_identity()),
                }
            }
        }
    }
}

#[test]
fn addition_is_commutative() {
    let points = all_points(2, 3, 97);
    for first in &points {
        for second in &points {
            assert_eq!(first.clone().add(second.clone()), second.clone().add(first.clone()));
        }
    }
}

#[test]
fn addition_is_associative() {
    let points = all_points(1, 1, 23);
    for first in &points {
        for second in &points {
            for third in &points {
                let left = first.clone().add(second.clone()).unwrap().add(third.clone());
                let right = first.clone().add(second.clone().add(third.clone()).unwrap());
                assert_eq!(left, right);
            }
        }
    }
}

#[test]
fn addition_is_associative_on_further_curves() {
    // 4 * 2^3 + 27 * 3^2 = 275 = 6 * 43 + 17; 27 * 49 = 1323 = 101 * 13 + 10;
    // 4 * 8 + 27 * 4 = 140 = 12 * 11 + 8
    for (a, b, p) in [(2_u32, 3_u32, 43_u32), (0, 7, 13), (2, 2, 11), (1, 0, 7), (0, 1, 5)] {
        let points = all_points(a, b, p);
        for first in &points {
            for second in &points {
                for third in &points {
                    let left = first.clone().add(second.clone()).unwrap().add(third.clone());
                    let right = first.clone().add(second.clone().add(third.clone()).unwrap());
                    assert_eq!(left, right);
                }
            }
        }
    }
}

#[test]
fn addition_is_associative_over_the_integers_where_the_sums_exist() {
    // on y^2 = x^3 - 10x - 8: (4, 4) + (-2, -2) = (-1, 1) and
    // (-2, -2) + (12, 40) = (-1, -1); both ways lead to (-2, 2)
    let p = int_point(4, 4, -10, -8);
    let q = int_point(-2, -2, -10, -8);
    let r = int_point(12, 40, -10, -8);
    let left = p.clone().add(q.clone()).unwrap();
    assert_eq!(left, int_point(-1, 1, -10, -8));
    let right = q.add(r.clone()).unwrap();
    assert_eq!(right, int_point(-1, -1, -10, -8));
    assert_eq!(left.add(r), Ok(int_point(-2, 2, -10, -8)));
    assert_eq!(p.add(right), Ok(int_point(-2, 2, -10, -8)));
}

/// The mirror image of a point of a curve over a field.
fn mirror(point: &Point<FieldElement>) -> Point<FieldElement> {
    match (point.x(), point.y()) {
        (Some(x), Some(y)) => {
            let zero = y.clone().sub(y.clone()).unwrap();
            let minus_y = zero.sub(y.clone()).unwrap();
            Point::affine(point.curve().clone(), x.clone(), minus_y).unwrap()
        }
        _ => point.clone(),
    }
}

#[test]
fn subtraction_undoes_addition() {
    // 4 * 2^3 + 27 * 3^2 = 275 is no multiple of 97, 4 + 27 = 31 none of 23
    for (a, b, p) in [(2_u32, 3_u32, 97_u32), (1, 1, 23)] {
        let points = all_points(a, b, p);
        for first in &points {
            for second in &points {
                let sum = first.clone().add(second.clone()).unwrap();
                assert_eq!(sum.add(mirror(second)), Ok(first.clone()));
            }
        }
    }
    // over the integers: (-1, -1) + (2, 5) = (3, -7), and (3, -7) + (2, -5) leads back
    let sum = int_point(-1, -1, 5, 7).add(int_point(2, 5, 5, 7)).unwrap();
    assert_eq!(sum.add(int_point(2, -5, 5, 7)), Ok(int_point(-1, -1, 5, 7)));
}

#[test]
fn a_singular_curve_is_no_group() {
    // y^2 = x^3 has the cusp (0, 0); with p = (1, 1) and q = (0, 0):
    // (p + q) + q is the identity, p + (q + q) is p
    let p = int_point(1, 1, 0, 0);
    let q = int_point(0, 0, 0, 0);
    let sum = p.clone().add(q.clone()).unwrap();
    assert_eq!(sum, q);
    assert_eq!(sum.add(q.clone()), Ok(int_identity(0, 0)));
    let twice = q.clone().add(q).unwrap();
    assert_eq!(twice, int_identity(0, 0));
    assert_eq!(p.clone().add(twice), Ok(p));
}

#[test]
fn sums_over_the_integers_need_not_exist_in_every_order() {
    // y^2 = x^3 - 6x - 8 holds (3, 1) and (3, -1), which cancel; the tangent
    // at (3, -1) has the slope 21 / -2, which is no integer
    let p = int_point(3, 1, -6, -8);
    let q = int_point(3, -1, -6, -8);
    let left = p.clone().add(q.clone()).unwrap().add(q.clone());
    assert_eq!(left, Ok(int_point(3, -1, -6, -8)));
    assert_eq!(q.clone().add(q), Err(CurveMismatchError));
}

#[test]
fn a_modulus_that_is_not_prime_gives_a_sum_or_none_but_no_point_off_the_curve() {
    for (a, b, m) in [(1_u32, 1_u32, 15_u32), (2, 3, 21), (0, 1, 9)] {
        let points = all_points(a, b, m);
        for first in &points {
            for second in &points {
                if let Ok(sum) = first.clone().add(second.clone()) {
                    match (sum.x(), sum.y()) {
                        (Some(x), Some(y)) => assert!(sum.curve().contains(x, y)),
                        _ => assert!(sum.is_identity()),
                    }
                }
            }
        }
    }
}

#[test]
fn integer_coordinates_compute_in_the_integers() {
    let a = BigInt::from(-7);
    let b = BigInt::from(3);
    assert_eq!(a.sum(&b), Some(BigInt::from(-4)));
    assert_eq!(a.difference(&b), Some(BigInt::from(-10)));
    assert_eq!(a.product(&b), Some(BigInt::from(-21)));
    assert_eq!(a.quotient(&b), None);
    assert_eq!(BigInt::from(-21).quotient(&b), Some(BigInt::from(-7)));
    assert_eq!(BigInt::from(21).quotient(&BigInt::from(-3)), Some(BigInt::from(-7)));
    assert_eq!(BigInt::from(-21).quotient(&BigInt::from(-3)), Some(BigInt::from(7)));
    assert_eq!(BigInt::from(0).quotient(&b), Some(BigInt::from(0)));
    assert_eq!(a.quotient(&BigInt::from(0)), None);
    assert_eq!(BigInt::from(0).quotient(&BigInt::from(0)), None);
    assert!(a.same_ring(&b));
    assert!(!a.same(&b));
    assert!(a.same(&a.duplicate()));
    assert!(BigInt::from(0).is_zero());
    assert!(!a.is_zero());
}

#[test]
fn field_coordinates_compute_in_the_field() {
    let a = fe(7, 19);
    let b = fe(15, 19);
    assert_eq!(a.sum(&b), Some(fe(3, 19)));
    assert_eq!(a.difference(&b), Some(fe(11, 19)));
    assert_eq!(a.product(&b), Some(fe(10, 19)));
    // 15 * 14 = 210 = 11 * 19 + 1
    assert_eq!(a.quotient(&b), Some(fe(3, 19)));
    assert_eq!(a.quotient(&fe(0, 19)), None);
    assert_eq!(a.sum(&fe(15, 23)), None);
    assert_eq!(a.difference(&fe(15, 23)), None);
    assert_eq!(a.product(&fe(15, 23)), None);
    assert_eq!(a.quotient(&fe(15, 23)), None);
    assert_eq!(fe(1, 5).difference(&fe(100, 101)), None);
    assert!(a.same_ring(&b));
    assert!(!a.same_ring(&fe(7, 23)));
    assert!(!a.same(&fe(7, 23)));
    assert!(a.same(&a.duplicate()));
    assert!(fe(0, 19).is_zero());
    assert!(!a.is_zero());
}

#[test]
fn curves_compare_by_their_coefficients() {
    assert_eq!(curve223(), curve223());
    assert!(curve223().same(&curve223().clone()));
    assert_ne!(curve223(), Curve::new(fe(0, 223), fe(8, 223)));
    assert_ne!(curve223(), Curve::new(fe(1, 223), fe(7, 223)));
    assert_ne!(curve223(), Curve::new(fe(0, 227), fe(7, 227)));
    assert_eq!(curve223().a(), &fe(0, 223));
    assert_eq!(curve223().b(), &fe(7, 223));
}

#[test]
fn points_compare_by_curve_and_coordinates() {
    assert_eq!(point223(192, 105), point223(192, 105));
    assert_ne!(point223(192, 105), point223(192, 118));
    assert_ne!(point223(192, 105), point223(17, 56));
    assert_ne!(point223(192, 105), Point::identity(curve223()));
    assert_ne!(int_identity(5, 7), int_identity(5, 1));
    assert_eq!(int_identity(5, 7), int_identity(5, 7));
    assert!(int_identity(5, 7).is_identity());
    assert_eq!(int_identity(5, 7).x(), None);
    assert_eq!(int_identity(5, 7).y(), None);
}
