//! What a curve's coordinates have to offer, and the two kinds of coordinate
//! that the library brings: integers and field elements.

use crate::bignum::{
    int_add, int_clone, int_div_rem, int_eq, int_is_zero, int_mul, int_sub, int_value,
};
use crate::congruence::lemma_exact_division;
use crate::ring::{has_quotient, quotient, ring_add, ring_mul, ring_sub, Scalar};
use num::BigInt;
use vstd::prelude::*;

verus! {

/// A number that can serve as a coordinate: an element of the integers or of
/// the integers modulo some `m`, with the ring's arithmetic.
///
/// The binary operations are for two elements of one ring, and give nothing
/// for elements of two.
pub trait Coordinate: Sized {
    /// The number that `self` stands for, and its ring.
    spec fn scalar(&self) -> Scalar;

    /// A copy of `self`.
    fn duplicate(&self) -> (r: Self)
        ensures
            r.scalar() == self.scalar(),
    ;

    /// Whether both lie in one ring.
    fn same_ring(&self, rhs: &Self) -> (r: bool)
        ensures
            r == (self.scalar().modulus == rhs.scalar().modulus),
    ;

    /// Whether both are the same element of the same ring.
    fn same(&self, rhs: &Self) -> (r: bool)
        ensures
            r == (self.scalar() == rhs.scalar()),
    ;

    /// Whether `self` is the zero of its ring.
    fn is_zero(&self) -> (r: bool)
        ensures
            r == (self.scalar().value == 0),
    ;

    /// `self + rhs`, for two elements of one ring.
    fn sum(&self, rhs: &Self) -> (r: Option<Self>)
        ensures
            r is Some <==> self.scalar().modulus == rhs.scalar().modulus,
            r matches Some(v) ==> v.scalar() == (Scalar {
                value: ring_add(self.scalar().value, rhs.scalar().value, self.scalar().modulus),
                modulus: self.scalar().modulus,
            }),
    ;

    /// `self - rhs`, for two elements of one ring.
    fn difference(&self, rhs: &Self) -> (r: Option<Self>)
        ensures
            r is Some <==> self.scalar().modulus == rhs.scalar().modulus,
            r matches Some(v) ==> v.scalar() == (Scalar {
                value: ring_sub(self.scalar().value, rhs.scalar().value, self.scalar().modulus),
                modulus: self.scalar().modulus,
            }),
    ;

    /// `self * rhs`, for two elements of one ring.
    fn product(&self, rhs: &Self) -> (r: Option<Self>)
        ensures
            r is Some <==> self.scalar().modulus == rhs.scalar().modulus,
            r matches Some(v) ==> v.scalar() == (Scalar {
                value: ring_mul(self.scalar().value, rhs.scalar().value, self.scalar().modulus),
                modulus: self.scalar().modulus,
            }),
    ;

    /// `self / rhs`, for two elements of one ring that has that quotient.
    fn quotient(&self, rhs: &Self) -> (r: Option<Self>)
        ensures
            r is Some <==> self.scalar().modulus == rhs.scalar().modulus && has_quotient(
                self.scalar().value,
                rhs.scalar().value,
                self.scalar().modulus,
            ),
            r matches Some(q) ==> q.scalar() == (Scalar {
                value: quotient(self.scalar().value, rhs.scalar().value, self.scalar().modulus),
                modulus: self.scalar().modulus,
            }),
    ;
}

impl Coordinate for BigInt {
    open spec fn scalar(&self) -> Scalar {
        Scalar { value: int_value(*self), modulus: 0 }
    }

    fn duplicate(&self) -> (r: BigInt) {
        int_clone(self)
    }

    fn same_ring(&self, rhs: &BigInt) -> (r: bool) {
        true
    }

    fn same(&self, rhs: &BigInt) -> (r: bool) {
        int_eq(self, rhs)
    }

    fn is_zero(&self) -> (r: bool) {
        int_is_zero(self)
    }

    fn sum(&self, rhs: &BigInt) -> (r: Option<BigInt>) {
        Some(int_add(self, rhs))
    }

    fn difference(&self, rhs: &BigInt) -> (r: Option<BigInt>) {
        Some(int_sub(self, rhs))
    }

    fn product(&self, rhs: &BigInt) -> (r: Option<BigInt>) {
        Some(int_mul(self, rhs))
    }

    fn quotient(&self, rhs: &BigInt) -> (r: Option<BigInt>) {
        if int_is_zero(rhs) {
            return None;
        }
        let (q, rest) = int_div_rem(self, rhs);
        proof {
            lemma_exact_division(int_value(*self), int_value(*rhs), int_value(q), int_value(rest));
        }
        if int_is_zero(&rest) {
            Some(q)
        } else {
            None
        }
    }
}

} // verus!
