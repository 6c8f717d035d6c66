use ecc::error::{ModulusMismatch, RangeError};
use ecc::field::FieldElement;
use num::BigUint;
use std::collections::HashSet;

fn fe(num: u32, prime: u32) -> FieldElement {
    FieldElement::new(BigUint::from(num), BigUint::from(prime)).unwrap()
}

#[test]
fn create_field_element() {
    let (num, prime): (u32, u32) = (13, 13);
    match FieldElement::new(BigUint::from(num), BigUint::from(prime)) {
        Err(_) => assert!(true, "Should return an error"),
        _ => assert!(false),
    }
}

#[test]
fn add_field_elements() {
    let (mut a, b) = (
        FieldElement::new(BigUint::from(7_u32), BigUint::from(17_u32)).unwrap(),
        FieldElement::new(BigUint::from(8_u32), BigUint::from(17_u32)).unwrap(),
    );
    let expect = FieldElement::new(BigUint::from(15_u32), BigUint::from(17_u32)).unwrap();
    assert_eq!(a.clone().add(b.clone()).unwrap(), expect);
    a.add_assign(b).unwrap();
    assert_eq!(a, expect);
}

#[test]
fn sub_field_elements() {
    let p = 17;
    let (a, mut b) = (
        FieldElement::new(BigUint::from(7_u32), BigUint::from(p as u32)).unwrap(),
        FieldElement::new(BigUint::from(8_u32), BigUint::from(p as u32)).unwrap(),
    );
    let expect = FieldElement::new(BigUint::from(1_u32), BigUint::from(p as u32)).unwrap();
    assert_eq!(b.clone().sub(a.clone()).unwrap(), expect);
    b.sub_assign(a).unwrap();
    assert_eq!(b, expect);
}

#[test]
fn mul_field_elements() {
    let prime = 19;
    let (mut a, b) = (
        FieldElement::new(BigUint::from(5_u32), BigUint::from(prime as u32)).unwrap(),
        FieldElement::new(BigUint::from(3_u32), BigUint::from(prime as u32)).unwrap(),
    );
    let expect = FieldElement::new(BigUint::from(15_u32), BigUint::from(prime as u32)).unwrap();
    assert_eq!(a.clone().mul(b.clone()).unwrap(), expect);
    a.mul_assign(b).unwrap();
    assert_eq!(a, expect);
}

#[test]
fn fermat_theorem() {
    let k = [1, 3, 7, 13, 18];
    let p = 19;
    let mut result_set = HashSet::new();
    let ns: Vec<BigUint> = (0..p).map(|n| BigUint::from(n as u32)).collect();

    for k in k {
        let mut res = vec![];
        let kf = FieldElement::new(BigUint::from(k as u32), BigUint::from(p as u32)).unwrap();
        for n in &ns {
            let nf = FieldElement::new(n.clone(), BigUint::from(p as u32)).unwrap();
            let a = kf.clone().mul(nf).unwrap();
            res.push(a);
        }
        res.sort();
        result_set.insert(res);
    }

    assert_eq!(result_set.len(), 1);

    let r = result_set.into_iter().next().unwrap();

    let test: Vec<BigUint> = r.iter().map(|n| n.num().clone()).collect();

    assert_eq!(test, ns);
}

#[test]
fn test_exponential() {
    let p: usize = 31;
    let e: u32 = 2;
    let base: usize = 10;
    let result = base.pow(e as u32).rem_euclid(p);
    let expected = FieldElement::new(BigUint::from(result), BigUint::from(p)).unwrap();
    let got = FieldElement::new(BigUint::from(base), BigUint::from(p))
        .unwrap()
        .pow(BigUint::from(e));

    assert_eq!(got, expected);
}

#[test]
fn exp_field_elements() {
    let ps: Vec<usize> = vec![7, 11, 17];

    for p in &ps {
        let mut set = vec![];
        for num in 1..*p {
            let a = FieldElement::new(BigUint::from(num as u32), BigUint::from(*p as u32)).unwrap();
            let exp = (*p - 1) as u32;
            let b = a.pow(BigUint::from(exp));
            set.push(b);
        }

        let got: Vec<BigUint> = set.iter().map(|f| f.num().clone()).collect();

        assert_eq!(set.len(), *p - 1, "Order of the set must equal to p-1");

        let mut ones = vec![];
        for _ in 0..*p - 1 {
            ones.push(BigUint::from(1_u32));
        }

        assert_eq!(got, ones);
    }
}

#[test]
fn div_field_elements() {
    let p = BigUint::from(19_u32);
    let mut a = FieldElement::new(BigUint::from(2_u32), p.clone()).unwrap();
    let mut b = FieldElement::new(BigUint::from(7_u32), p.clone()).unwrap();
    let c = FieldElement::new(BigUint::from(5_u32), p.clone()).unwrap();

    let mut expect = FieldElement::new(BigUint::from(3_u32), p.clone()).unwrap();
    assert_eq!(a.clone().div(b.clone()).unwrap(), expect, "f2 / f7 must equal to f3",);

    a.div_assign(b.clone()).unwrap();
    assert_eq!(a, expect);

    expect = FieldElement::new(BigUint::from(9_u32), p.clone()).unwrap();
    assert_eq!(b.clone().div(c.clone()).unwrap(), expect, "f7 / f5 must equal to f9",);

    b.div_assign(c).unwrap();
    assert_eq!(b, expect);
}

#[test]
fn new_accepts_values_below_the_modulus_only() {
    assert!(FieldElement::new(BigUint::from(0_u32), BigUint::from(1_u32)).is_ok());
    assert!(FieldElement::new(BigUint::from(18_u32), BigUint::from(19_u32)).is_ok());
    assert_eq!(
        FieldElement::new(BigUint::from(19_u32), BigUint::from(19_u32)),
        Err(RangeError)
    );
    assert_eq!(
        FieldElement::new(BigUint::from(20_u32), BigUint::from(19_u32)),
        Err(RangeError)
    );
    assert_eq!(
        FieldElement::new(BigUint::from(0_u32), BigUint::from(0_u32)),
        Err(RangeError)
    );
}

#[test]
fn getters_return_value_and_modulus() {
    let a = fe(7, 19);
    assert_eq!(a.num(), &BigUint::from(7_u32));
    assert_eq!(a.prime(), &BigUint::from(19_u32));
}

#[test]
fn scenario_sum_in_field_of_19() {
    assert_eq!(fe(7, 19).add(fe(8, 19)), Ok(fe(15, 19)));
}

#[test]
fn scenario_quotient_in_field_of_19() {
    assert_eq!(fe(2, 19).div(fe(7, 19)), Ok(fe(3, 19)));
}

#[test]
fn sum_wraps_around_the_modulus() {
    assert_eq!(fe(15, 19).add(fe(8, 19)), Ok(fe(4, 19)));
    assert_eq!(fe(18, 19).add(fe(1, 19)), Ok(fe(0, 19)));
}

#[test]
fn difference_of_smaller_minus_larger_is_raised_by_the_modulus() {
    assert_eq!(fe(7, 17).sub(fe(8, 17)), Ok(fe(16, 17)));
    assert_eq!(fe(0, 17).sub(fe(16, 17)), Ok(fe(1, 17)));
    assert_eq!(fe(5, 17).sub(fe(5, 17)), Ok(fe(0, 17)));
}

#[test]
fn product_is_reduced() {
    assert_eq!(fe(5, 19).mul(fe(8, 19)), Ok(fe(2, 19)));
    assert_eq!(fe(0, 19).mul(fe(8, 19)), Ok(fe(0, 19)));
}

#[test]
fn power_is_reduced() {
    assert_eq!(fe(3, 13).pow(BigUint::from(3_u32)), fe(1, 13));
    assert_eq!(fe(2, 19).pow(BigUint::from(10_u32)), fe(17, 19));
    assert_eq!(fe(7, 19).pow(BigUint::from(0_u32)), fe(1, 19));
    assert_eq!(fe(0, 19).pow(BigUint::from(18_u32)), fe(0, 19));
    assert_eq!(fe(0, 1).pow(BigUint::from(0_u32)), fe(0, 1));
}

#[test]
fn power_takes_exponents_beyond_machine_words() {
    // 2^(2^70) mod 19: the order of 2 is 18, and 2^70 mod 18 is 16;
    // 2^16 = 65536 = 3449 * 19 + 5
    let exp = BigUint::from(2_u32).pow(70);
    assert_eq!(fe(2, 19).pow(exp), fe(5, 19));
}

#[test]
fn operations_reject_different_moduli() {
    assert_eq!(fe(7, 19).add(fe(7, 17)), Err(ModulusMismatch));
    assert_eq!(fe(7, 19).sub(fe(7, 17)), Err(ModulusMismatch));
    assert_eq!(fe(7, 19).mul(fe(7, 17)), Err(ModulusMismatch));
    assert_eq!(fe(7, 19).div(fe(7, 17)), Err(ModulusMismatch));
    assert_eq!(fe(7, 19).checked_div(&fe(7, 17)), None);
}

#[test]
fn assigning_operations_leave_self_alone_on_a_mismatch() {
    let mut a = fe(7, 19);
    assert_eq!(a.add_assign(fe(1, 17)), Err(ModulusMismatch));
    assert_eq!(a, fe(7, 19));
    assert_eq!(a.sub_assign(fe(1, 17)), Err(ModulusMismatch));
    assert_eq!(a, fe(7, 19));
    assert_eq!(a.mul_assign(fe(1, 17)), Err(ModulusMismatch));
    assert_eq!(a, fe(7, 19));
    assert_eq!(a.div_assign(fe(1, 17)), Err(ModulusMismatch));
    assert_eq!(a, fe(7, 19));
}

#[test]
fn division_by_zero_gives_zero_without_failing() {
    assert_eq!(fe(5, 19).div(fe(0, 19)), Ok(fe(0, 19)));
}

#[test]
fn checked_division_refuses_what_has_no_inverse() {
    assert_eq!(fe(5, 19).checked_div(&fe(0, 19)), None);
    assert_eq!(fe(2, 19).checked_div(&fe(7, 19)), Some(fe(3, 19)));
    // 15 is not prime: 3^13 mod 15 is 3, and 3 * 3 is not 1
    assert_eq!(fe(1, 15).checked_div(&fe(3, 15)), None);
    // 2^13 mod 15 is 2, and 2 * 2 is not 1, though 2 has the inverse 8
    assert_eq!(fe(1, 15).checked_div(&fe(2, 15)), None);
    // 4^13 mod 15 is 4, and 4 * 4 mod 15 is 1
    assert_eq!(fe(7, 15).checked_div(&fe(4, 15)), Some(fe(13, 15)));
}

#[test]
fn division_in_the_smallest_fields() {
    assert_eq!(fe(0, 1).div(fe(0, 1)), Ok(fe(0, 1)));
    assert_eq!(fe(1, 2).div(fe(1, 2)), Ok(fe(1, 2)));
    assert_eq!(fe(1, 2).checked_div(&fe(1, 2)), Some(fe(1, 2)));
    assert_eq!(fe(1, 2).checked_div(&fe(0, 2)), None);
    assert_eq!(fe(2, 3).div(fe(2, 3)), Ok(fe(1, 3)));
}

#[test]
fn division_undoes_multiplication_in_a_prime_field() {
    for b in 1..19_u32 {
        for a in 0..19_u32 {
            let q = fe(a, 19).div(fe(b, 19)).unwrap();
            assert_eq!(q.mul(fe(b, 19)), Ok(fe(a, 19)));
        }
    }
}

#[test]
fn fermat_holds_for_every_nonzero_residue() {
    for p in [2_u32, 3, 5, 7, 13, 31] {
        for a in 1..p {
            assert_eq!(fe(a, p).pow(BigUint::from(p - 1)), fe(1, p));
        }
    }
}

#[test]
fn results_stay_in_range() {
    let p = 23_u32;
    for a in 0..p {
        for b in 0..p {
            for r in [
                fe(a, p).add(fe(b, p)).unwrap(),
                fe(a, p).sub(fe(b, p)).unwrap(),
                fe(a, p).mul(fe(b, p)).unwrap(),
                fe(a, p).div(fe(b, p)).unwrap(),
            ] {
                assert!(r.num() < r.prime());
                assert_eq!(r.prime(), &BigUint::from(p));
            }
        }
    }
}

#[test]
fn equality_needs_value_and_modulus() {
    assert_eq!(fe(3, 7), fe(3, 7));
    assert_ne!(fe(3, 7), fe(4, 7));
    assert_ne!(fe(3, 7), fe(3, 11));
}

#[test]
fn order_is_by_value_then_modulus() {
    assert!(fe(3, 7) < fe(4, 7));
    assert!(fe(3, 11) < fe(4, 7));
    assert!(fe(3, 7) < fe(3, 11));
    assert!(fe(5, 7) > fe(4, 11));
    assert_eq!(fe(3, 7).partial_cmp(&fe(3, 7)), Some(std::cmp::Ordering::Equal));
    let mut all = vec![fe(2, 5), fe(0, 5), fe(4, 5), fe(1, 5), fe(3, 5)];
    all.sort();
    assert_eq!(all, vec![fe(0, 5), fe(1, 5), fe(2, 5), fe(3, 5), fe(4, 5)]);
}

#[test]
fn clone_is_equal() {
    let a = fe(12, 19);
    assert_eq!(a.clone(), a);
}

#[test]
fn arithmetic_on_numbers_of_cryptographic_size() {
    // the prime of secp256k1: 2^256 - 2^32 - 977
    let p = BigUint::from(2_u32).pow(256) - BigUint::from(2_u32).pow(32) - BigUint::from(977_u32);
    let a = FieldElement::new(p.clone() - BigUint::from(1_u32), p.clone()).unwrap();
    let two = FieldElement::new(BigUint::from(2_u32), p.clone()).unwrap();
    // (p - 1) + 2 = 1
    assert_eq!(
        a.clone().add(two.clone()).unwrap().num(),
        &BigUint::from(1_u32)
    );
    // (p - 1) * (p - 1) = 1
    assert_eq!(
        a.clone().mul(a.clone()).unwrap().num(),
        &BigUint::from(1_u32)
    );
    // 1 / 2 * 2 = 1
    let one = FieldElement::new(BigUint::from(1_u32), p.clone()).unwrap();
    let half = one.clone().div(two.clone()).unwrap();
    assert_eq!(half.mul(two).unwrap(), one);
    // a^(p-1) = 1
    assert_eq!(a.pow(p.clone() - BigUint::from(1_u32)), one);
}
