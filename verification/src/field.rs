//! Elements of the field of integers modulo a prime.

use crate::bignum::{
    uint_add, uint_clone, uint_eq, uint_from_u32, uint_lt, uint_modpow, uint_mul, uint_rem,
    uint_sub, uint_value,
};
use crate::coordinate::Coordinate;
use crate::error::{ModulusMismatch, RangeError};
use crate::ring::{
    field_div, has_quotient, inverse_exponent, quotient, ring_add, ring_mul, ring_pow, ring_sub,
    Scalar,
};
use num::BigUint;
use std::cmp::Ordering;
use vstd::arithmetic::div_mod::{
    lemma_fundamental_div_mod_converse_mod, lemma_mod_bound, lemma_mul_mod_noop_right,
    lemma_small_mod,
};
use vstd::arithmetic::power::pow;
use vstd::prelude::*;

verus! {

/// A residue modulo `prime`, always held in `0..prime`.
///
/// The modulus is meant to be prime; nothing checks that it is.
#[derive(Debug, Eq, Ord, Hash)]
pub struct FieldElement {
    num: BigUint,
    prime: BigUint,
}

impl View for FieldElement {
    type V = Scalar;

    closed spec fn view(&self) -> Scalar {
        Scalar { value: uint_value(self.num) as int, modulus: uint_value(self.prime) }
    }
}

impl FieldElement {
    /// The range invariant: the value lies in `0..modulus`.
    #[verifier::type_invariant]
    pub open spec fn wf(&self) -> bool {
        0 <= self@.value < self@.modulus
    }

    /// The element `num` of the field of modulus `prime`, if `num` is below
    /// `prime`.
    pub fn new(num: BigUint, prime: BigUint) -> (r: Result<FieldElement, RangeError>)
        ensures
            r is Ok <==> uint_value(num) < uint_value(prime),
            r matches Ok(f) ==> f.wf() && f@ == (Scalar {
                value: uint_value(num) as int,
                modulus: uint_value(prime),
            }),
    {
        if uint_lt(&num, &prime) {
            Ok(FieldElement { num, prime })
        } else {
            Err(RangeError)
        }
    }

    /// The value, in `0..modulus`.
    pub fn num(&self) -> (r: &BigUint)
        ensures
            uint_value(*r) == self@.value,
            0 <= self@.value < self@.modulus,
    {
        proof {
            use_type_invariant(self);
        }
        &self.num
    }

    /// The modulus.
    pub fn prime(&self) -> (r: &BigUint)
        ensures
            uint_value(*r) == self@.modulus,
            0 <= self@.value < self@.modulus,
    {
        proof {
            use_type_invariant(self);
        }
        &self.prime
    }
}

impl FieldElement {
    /// The value of `self + other`.
    fn sum_value(&self, other: &FieldElement) -> (r: BigUint)
        requires
            self@.modulus == other@.modulus,
        ensures
            uint_value(r) == ring_add(self@.value, other@.value, self@.modulus),
            uint_value(r) < self@.modulus,
    {
        proof {
            use_type_invariant(self);
            lemma_mod_bound(self@.value + other@.value, self@.modulus as int);
        }
        let sum = uint_add(&self.num, &other.num);
        uint_rem(&sum, &self.prime)
    }

    /// The value of `self - other`: the difference where it is not negative,
    /// else the difference raised by the modulus.
    fn difference_value(&self, other: &FieldElement) -> (r: BigUint)
        requires
            self@.modulus == other@.modulus,
        ensures
            uint_value(r) == ring_sub(self@.value, other@.value, self@.modulus),
            uint_value(r) < self@.modulus,
    {
        proof {
            use_type_invariant(self);
            use_type_invariant(other);
        }
        let ghost m = self@.modulus as int;
        let ghost d = self@.value - other@.value;
        if uint_lt(&self.num, &other.num) {
            let gap = uint_sub(&other.num, &self.num);
            proof {
                lemma_fundamental_div_mod_converse_mod(d, m, -1, d + m);
            }
            uint_sub(&self.prime, &gap)
        } else {
            proof {
                lemma_small_mod(d as nat, m as nat);
            }
            uint_sub(&self.num, &other.num)
        }
    }

    /// The value of `self * other`.
    fn product_value(&self, other: &FieldElement) -> (r: BigUint)
        requires
            self@.modulus == other@.modulus,
        ensures
            uint_value(r) == ring_mul(self@.value, other@.value, self@.modulus),
            uint_value(r) < self@.modulus,
    {
        proof {
            use_type_invariant(self);
            lemma_mod_bound(self@.value * other@.value, self@.modulus as int);
        }
        let product = uint_mul(&self.num, &other.num);
        uint_rem(&product, &self.prime)
    }

    /// The value of `self` times `inverse`, where `inverse` is what
    /// `fermat_inverse` gave for `other`.
    fn quotient_value(&self, other: &FieldElement, inverse: &BigUint) -> (r: BigUint)
        requires
            self@.modulus == other@.modulus,
            uint_value(*inverse) == ring_pow(
                other@.value,
                inverse_exponent(self@.modulus),
                self@.modulus,
            ),
        ensures
            uint_value(r) == field_div(self@.value, other@.value, self@.modulus),
            uint_value(r) < self@.modulus,
    {
        proof {
            use_type_invariant(self);
            let m = self@.modulus as int;
            let p = pow(other@.value, inverse_exponent(self@.modulus));
            lemma_mul_mod_noop_right(self@.value, p, m);
            lemma_mod_bound(self@.value * p, m);
        }
        let product = uint_mul(&self.num, inverse);
        uint_rem(&product, &self.prime)
    }

    /// `self` raised to `exp`, in the field of `self`.
    pub fn pow(self, exp: BigUint) -> (r: FieldElement)
        ensures
            r.wf(),
            r@.modulus == self@.modulus,
            r@.value == ring_pow(self@.value, uint_value(exp), self@.modulus),
    {
        proof {
            use_type_invariant(&self);
            lemma_mod_bound(pow(self@.value, uint_value(exp)), self@.modulus as int);
        }
        let num = uint_modpow(&self.num, &exp, &self.prime);
        FieldElement { num, prime: self.prime }
    }

    /// The sum of two elements of one field.
    pub fn add(self, other: FieldElement) -> (r: Result<FieldElement, ModulusMismatch>)
        ensures
            r is Ok <==> self@.modulus == other@.modulus,
            r matches Ok(f) ==> f.wf() && f@.modulus == self@.modulus && f@.value == ring_add(
                self@.value,
                other@.value,
                self@.modulus,
            ),
    {
        if !uint_eq(&self.prime, &other.prime) {
            return Err(ModulusMismatch);
        }
        let num = self.sum_value(&other);
        Ok(FieldElement { num, prime: self.prime })
    }

    /// The difference of two elements of one field, brought back into
    /// `0..modulus` where the plain difference is negative.
    pub fn sub(self, other: FieldElement) -> (r: Result<FieldElement, ModulusMismatch>)
        ensures
            r is Ok <==> self@.modulus == other@.modulus,
            r matches Ok(f) ==> f.wf() && f@.modulus == self@.modulus && f@.value == ring_sub(
                self@.value,
                other@.value,
                self@.modulus,
            ),
    {
        if !uint_eq(&self.prime, &other.prime) {
            return Err(ModulusMismatch);
        }
        let num = self.difference_value(&other);
        Ok(FieldElement { num, prime: self.prime })
    }

    /// The product of two elements of one field.
    pub fn mul(self, other: FieldElement) -> (r: Result<FieldElement, ModulusMismatch>)
        ensures
            r is Ok <==> self@.modulus == other@.modulus,
            r matches Ok(f) ==> f.wf() && f@.modulus == self@.modulus && f@.value == ring_mul(
                self@.value,
                other@.value,
                self@.modulus,
            ),
    {
        if !uint_eq(&self.prime, &other.prime) {
            return Err(ModulusMismatch);
        }
        let num = self.product_value(&other);
        Ok(FieldElement { num, prime: self.prime })
    }

    /// `self` times `other` raised to `modulus - 2`, which for a prime
    /// modulus and a nonzero `other` is `self` divided by `other`.
    ///
    /// Neither condition is checked. The caller who needs a true quotient
    /// makes sure of both, or calls `checked_div`; a zero `other` gives a
    /// number that means nothing.
    pub fn div(self, other: FieldElement) -> (r: Result<FieldElement, ModulusMismatch>)
        ensures
            r is Ok <==> self@.modulus == other@.modulus,
            r matches Ok(f) ==> f.wf() && f@.modulus == self@.modulus && f@.value == field_div(
                self@.value,
                other@.value,
                self@.modulus,
            ),
    {
        proof {
            use_type_invariant(&self);
        }
        if !uint_eq(&self.prime, &other.prime) {
            return Err(ModulusMismatch);
        }
        let inverse = fermat_inverse(&other.num, &self.prime);
        let num = self.quotient_value(&other, &inverse);
        Ok(FieldElement { num, prime: self.prime })
    }

    /// `self / other`, where both lie in one field and `other` raised to
    /// `modulus - 2` is an inverse of `other` indeed.
    pub fn checked_div(&self, other: &FieldElement) -> (r: Option<FieldElement>)
        ensures
            r is Some <==> self@.modulus == other@.modulus && has_quotient(
                self@.value,
                other@.value,
                self@.modulus,
            ),
            r matches Some(f) ==> f.wf() && f@.modulus == self@.modulus && f@.value == quotient(
                self@.value,
                other@.value,
                self@.modulus,
            ),
    {
        proof {
            use_type_invariant(self);
        }
        if !uint_eq(&self.prime, &other.prime) {
            return None;
        }
        let inverse = fermat_inverse(&other.num, &self.prime);
        let product = uint_mul(&other.num, &inverse);
        let check = uint_rem(&product, &self.prime);
        let one = uint_from_u32(1);
        let unit = uint_rem(&one, &self.prime);
        if !uint_eq(&check, &unit) {
            return None;
        }
        let num = self.quotient_value(other, &inverse);
        Some(FieldElement { num, prime: uint_clone(&self.prime) })
    }

    /// Replaces `self` by `self + other`; leaves it as it is on a mismatch.
    pub fn add_assign(&mut self, other: FieldElement) -> (r: Result<(), ModulusMismatch>)
        ensures
            r is Ok <==> old(self)@.modulus == other@.modulus,
            final(self).wf(),
            r is Ok ==> final(self)@.modulus == old(self)@.modulus && final(self)@.value
                == ring_add(old(self)@.value, other@.value, old(self)@.modulus),
            r is Err ==> final(self)@ == old(self)@,
    {
        proof {
            use_type_invariant(&*self);
        }
        if !uint_eq(&self.prime, &other.prime) {
            return Err(ModulusMismatch);
        }
        let num = self.sum_value(&other);
        self.num = num;
        Ok(())
    }

    /// Replaces `self` by `self - other`; leaves it as it is on a mismatch.
    pub fn sub_assign(&mut self, other: FieldElement) -> (r: Result<(), ModulusMismatch>)
        ensures
            r is Ok <==> old(self)@.modulus == other@.modulus,
            final(self).wf(),
            r is Ok ==> final(self)@.modulus == old(self)@.modulus && final(self)@.value
                == ring_sub(old(self)@.value, other@.value, old(self)@.modulus),
            r is Err ==> final(self)@ == old(self)@,
    {
        proof {
            use_type_invariant(&*self);
        }
        if !uint_eq(&self.prime, &other.prime) {
            return Err(ModulusMismatch);
        }
        let num = self.difference_value(&other);
        self.num = num;
        Ok(())
    }

    /// Replaces `self` by `self * other`; leaves it as it is on a mismatch.
    pub fn mul_assign(&mut self, other: FieldElement) -> (r: Result<(), ModulusMismatch>)
        ensures
            r is Ok <==> old(self)@.modulus == other@.modulus,
            final(self).wf(),
            r is Ok ==> final(self)@.modulus == old(self)@.modulus && final(self)@.value
                == ring_mul(old(self)@.value, other@.value, old(self)@.modulus),
            r is Err ==> final(self)@ == old(self)@,
    {
        proof {
            use_type_invariant(&*self);
        }
        if !uint_eq(&self.prime, &other.prime) {
            return Err(ModulusMismatch);
        }
        let num = self.product_value(&other);
        self.num = num;
        Ok(())
    }

    /// Replaces `self` by `self / other` as `div` computes it; leaves it as
    /// it is on a mismatch.
    pub fn div_assign(&mut self, other: FieldElement) -> (r: Result<(), ModulusMismatch>)
        ensures
            r is Ok <==> old(self)@.modulus == other@.modulus,
            final(self).wf(),
            r is Ok ==> final(self)@.modulus == old(self)@.modulus && final(self)@.value
                == field_div(old(self)@.value, other@.value, old(self)@.modulus),
            r is Err ==> final(self)@ == old(self)@,
    {
        proof {
            use_type_invariant(&*self);
        }
        if !uint_eq(&self.prime, &other.prime) {
            return Err(ModulusMismatch);
        }
        let inverse = fermat_inverse(&other.num, &self.prime);
        let num = self.quotient_value(&other, &inverse);
        self.num = num;
        Ok(())
    }
}

impl Clone for FieldElement {
    fn clone(&self) -> (r: FieldElement)
        ensures
            r@ == self@,
    {
        proof {
            use_type_invariant(self);
        }
        FieldElement { num: uint_clone(&self.num), prime: uint_clone(&self.prime) }
    }
}

impl PartialEq for FieldElement {
    /// Two elements are equal when value and modulus both agree.
    fn eq(&self, other: &FieldElement) -> (r: bool) {
        uint_eq(&self.num, &other.num) && uint_eq(&self.prime, &other.prime)
    }
}

impl vstd::std_specs::cmp::PartialEqSpecImpl for FieldElement {
    open spec fn obeys_eq_spec() -> bool {
        true
    }

    open spec fn eq_spec(&self, other: &FieldElement) -> bool {
        self@ == other@
    }
}

impl PartialOrd for FieldElement {
    /// The order is that of the pairs (value, modulus): by value first.
    fn partial_cmp(&self, other: &FieldElement) -> (r: Option<Ordering>) {
        if uint_lt(&self.num, &other.num) {
            Some(Ordering::Less)
        } else if uint_lt(&other.num, &self.num) {
            Some(Ordering::Greater)
        } else if uint_lt(&self.prime, &other.prime) {
            Some(Ordering::Less)
        } else if uint_lt(&other.prime, &self.prime) {
            Some(Ordering::Greater)
        } else {
            Some(Ordering::Equal)
        }
    }
}

impl vstd::std_specs::cmp::PartialOrdSpecImpl for FieldElement {
    open spec fn obeys_partial_cmp_spec() -> bool {
        true
    }

    open spec fn partial_cmp_spec(&self, other: &FieldElement) -> Option<Ordering> {
        if self@.value < other@.value {
            Some(Ordering::Less)
        } else if self@.value > other@.value {
            Some(Ordering::Greater)
        } else if self@.modulus < other@.modulus {
            Some(Ordering::Less)
        } else if self@.modulus > other@.modulus {
            Some(Ordering::Greater)
        } else {
            Some(Ordering::Equal)
        }
    }
}

impl Coordinate for FieldElement {
    open spec fn scalar(&self) -> Scalar {
        self@
    }

    fn duplicate(&self) -> (r: FieldElement) {
        self.clone()
    }

    fn same_ring(&self, rhs: &FieldElement) -> (r: bool) {
        uint_eq(&self.prime, &rhs.prime)
    }

    fn same(&self, rhs: &FieldElement) -> (r: bool) {
        uint_eq(&self.num, &rhs.num) && uint_eq(&self.prime, &rhs.prime)
    }

    fn is_zero(&self) -> (r: bool) {
        let zero = uint_from_u32(0);
        uint_eq(&self.num, &zero)
    }

    fn sum(&self, rhs: &FieldElement) -> (r: Option<FieldElement>) {
        if !uint_eq(&self.prime, &rhs.prime) {
            return None;
        }
        Some(FieldElement { num: self.sum_value(rhs), prime: uint_clone(&self.prime) })
    }

    fn difference(&self, rhs: &FieldElement) -> (r: Option<FieldElement>) {
        if !uint_eq(&self.prime, &rhs.prime) {
            return None;
        }
        Some(FieldElement { num: self.difference_value(rhs), prime: uint_clone(&self.prime) })
    }

    fn product(&self, rhs: &FieldElement) -> (r: Option<FieldElement>) {
        if !uint_eq(&self.prime, &rhs.prime) {
            return None;
        }
        Some(FieldElement { num: self.product_value(rhs), prime: uint_clone(&self.prime) })
    }

    fn quotient(&self, rhs: &FieldElement) -> (r: Option<FieldElement>) {
        self.checked_div(rhs)
    }
}

/// `b` raised to `m - 2` modulo `m`: the inverse of `b` where `m` is prime
/// and `b` is not a multiple of it.
pub(crate) fn fermat_inverse(b: &BigUint, m: &BigUint) -> (r: BigUint)
    requires
        uint_value(*m) > 0,
    ensures
        uint_value(r) == ring_pow(uint_value(*b) as int, inverse_exponent(uint_value(*m)), uint_value(*m)),
{
    let two = uint_from_u32(2);
    let exponent = if uint_lt(m, &two) {
        uint_from_u32(0)
    } else {
        uint_sub(m, &two)
    };
    uint_modpow(b, &exponent, m)
}

} // verus!
