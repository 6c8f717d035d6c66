//! Prime-field elements and the group law of short Weierstrass curves
//! `y^2 = x^3 + a*x + b`, over arbitrary-precision integers.
//!
//! A [`FieldElement`] is a residue modulo a prime. A [`Curve`] holds the
//! coefficients `a` and `b`. A [`Point`] is the identity of the curve's group
//! or a pair of coordinates on the curve, and `Point::add` is the group law.
//! Coordinates are integers (`BigInt`) or field elements; anything else that
//! implements [`Coordinate`] serves as well.
//!
//! Every function comes with a contract over numbers, proved by Verus. The
//! module `laws` holds what follows for all inputs: Fermat's little theorem
//! and the inverse it yields, and that the points of a smooth curve over a
//! prime field form a commutative group. The arithmetic of `BigUint` and
//! `BigInt` itself is taken on trust from the `num` crate: the module
//! `bignum` lists what is believed of it.

pub mod associativity;
pub mod bignum;
pub mod cancellation;
pub mod congruence;
pub mod coordinate;
pub mod curve;
pub mod error;
pub mod field;
pub mod group_law;
pub mod laws;
pub mod point;
pub mod primes;
pub mod quotients;
pub mod ring;

pub use coordinate::Coordinate;
pub use curve::Curve;
pub use error::{CurveMismatchError, ModulusMismatch, NotOnCurveError, RangeError};
pub use field::FieldElement;
pub use num::{BigInt, BigUint};
pub use point::Point;
