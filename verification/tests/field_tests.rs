use num_bigint::BigInt;

use prime_field_curve::errors::FieldErrors;
use prime_field_curve::field::FieldElement;
use prime_field_curve::field_traits::FieldElementTraits;

fn fe(n: u32, p: u32) -> FieldElement {
    FieldElement::new(BigInt::from(n), BigInt::from(p)).unwrap()
}

#[test]
fn add_tests() {
    let a = fe(2, 7);
    let b = fe(6, 7);
    let c = fe(1, 7);
    assert_eq!(a.add(&b).unwrap(), c);
}

#[test]
fn mul_tests() {
    let a = fe(2, 7);
    let b = fe(6, 7);
    let c = fe(5, 7);
    assert_eq!(a.mul(&b).unwrap(), c);

    let a = &a;

    assert_eq!(a.mul(&b).unwrap(), c);

    let b = &b;

    assert_eq!(a.mul(b).unwrap(), c);

    assert_eq!(a.mul(b).unwrap(), c);
}

#[test]
fn div_test() {
    let a = fe(2, 7);
    let b = fe(6, 7);
    let c = fe(5, 7);

    assert_eq!(a.div(&b).unwrap(), c);

    let a = &a;

    assert_eq!(a.div(&b).unwrap(), c);

    let b = &b;

    assert_eq!(a.div(b).unwrap(), c);
}

#[test]
fn inv_test() {
    let a = fe(6, 7);

    let a_inv = a.modinv().unwrap();

    assert_eq!(a_inv, a);
}

#[test]
fn sub_wraps_below_zero() {
    let a = fe(2, 7);
    let b = fe(6, 7);
    assert_eq!(a.sub(&b).unwrap(), fe(3, 7));
    assert_eq!(b.sub(&a).unwrap(), fe(4, 7));
    assert_eq!(a.sub(&a).unwrap(), fe(0, 7));
}

#[test]
fn closure_stays_in_range() {
    let p = 11u32;
    for x in 0..p {
        for y in 0..p {
            let a = fe(x, p);
            let b = fe(y, p);
            for r in [a.add(&b).unwrap(), a.sub(&b).unwrap(), a.mul(&b).unwrap()] {
                assert_eq!(*r.get_prime(), BigInt::from(p));
                assert!(*r.get_number() >= BigInt::from(0u32));
                assert!(*r.get_number() < BigInt::from(p));
            }
        }
    }
}

#[test]
fn inverse_times_self_is_one() {
    let p = 101u32;
    for x in 1..p {
        let a = fe(x, p);
        let inv = a.modinv().unwrap();
        assert_eq!(a.mul(&inv).unwrap(), fe(1, p));
    }
}

#[test]
fn division_is_multiplication_by_inverse() {
    let p = 13u32;
    for x in 0..p {
        for y in 1..p {
            let a = fe(x, p);
            let b = fe(y, p);
            let quotient = a.div(&b).unwrap();
            let by_inverse = a.mul(&b.modinv().unwrap()).unwrap();
            assert_eq!(quotient, by_inverse);
        }
    }
}

#[test]
fn identity_elements() {
    let p = BigInt::from(23u32);
    let x = fe(17, 23);
    assert_eq!(x.add(&FieldElement::zero(p.clone())).unwrap(), x);
    assert_eq!(x.mul(&FieldElement::one(p)).unwrap(), x);
}

#[test]
fn new_rejects_out_of_range() {
    let r = FieldElement::new(BigInt::from(7u32), BigInt::from(7u32));
    assert!(matches!(r, Err(FieldErrors::InvalidParams(_))));
    let r = FieldElement::new(BigInt::from(-1), BigInt::from(7u32));
    assert!(matches!(r, Err(FieldErrors::InvalidParams(_))));
    let r = FieldElement::new_from_i32(-3, BigInt::from(7u32));
    assert!(matches!(r, Err(FieldErrors::InvalidParams(_))));
    assert_eq!(FieldElement::new_from_i32(3, BigInt::from(7u32)).unwrap(), fe(3, 7));
}

#[test]
fn mismatch_is_rejected() {
    let a = fe(2, 7);
    let b = fe(2, 11);
    assert!(matches!(a.add(&b), Err(FieldErrors::Mismatch(_))));
    assert!(matches!(a.sub(&b), Err(FieldErrors::Mismatch(_))));
    assert!(matches!(a.mul(&b), Err(FieldErrors::Mismatch(_))));
    assert!(matches!(a.div(&b), Err(FieldErrors::Mismatch(_))));
}

#[test]
fn zero_has_no_inverse() {
    let z = fe(0, 7);
    assert!(matches!(z.modinv(), Err(FieldErrors::InvalidParams(_))));
    let a = fe(3, 7);
    assert!(matches!(a.div(&z), Err(FieldErrors::InvalidParams(_))));
}

#[test]
fn accessors_and_clone() {
    let a = fe(5, 7);
    assert_eq!(*a.get_number(), BigInt::from(5u32));
    assert_eq!(*a.get_prime(), BigInt::from(7u32));
    let b = a.clone();
    assert_eq!(a, b);
}

#[test]
fn smallest_field() {
    let one = fe(1, 2);
    assert_eq!(one.add(&one).unwrap(), fe(0, 2));
    assert_eq!(one.modinv().unwrap(), one);
}

#[test]
fn large_modulus_inverse() {
    // 2^31 - 1 is prime.
    let p = BigInt::from(2147483647u64);
    let big = BigInt::from(123456789u64);
    let a = FieldElement::new(big, p.clone()).unwrap();
    let inv = a.modinv().unwrap();
    assert_eq!(a.mul(&inv).unwrap(), FieldElement::one(p));
}
