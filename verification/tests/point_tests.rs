use num_bigint::BigInt;

use prime_field_curve::errors::FieldErrors;
use prime_field_curve::field::FieldElement;
use prime_field_curve::point::PointAffine;
use prime_field_curve::point_traits::PointOperations;

fn fe(n: u32, p: u32) -> FieldElement {
    FieldElement::new(BigInt::from(n), BigInt::from(p)).unwrap()
}

/// A point on the curve `y^2 = x^3 + 0x + 3` over `p = 7`.
fn curve7_point(x: u32, y: u32) -> PointAffine {
    PointAffine::new(fe(x, 7), fe(y, 7), fe(0, 7), fe(3, 7))
}

#[test]
fn multiply_point() {}

#[test]
fn double_point() {
    let x = FieldElement::new(BigInt::from(3u32), BigInt::from(7u32)).unwrap();
    let y = FieldElement::new(BigInt::from(3u32), BigInt::from(7u32)).unwrap();

    let a = FieldElement::new(BigInt::from(0u32), BigInt::from(7u32)).unwrap();
    let b = FieldElement::new(BigInt::from(3u32), BigInt::from(7u32)).unwrap();

    let x2 = FieldElement::new(BigInt::from(2u32), BigInt::from(7u32)).unwrap();
    let y2 = FieldElement::new(BigInt::from(5u32), BigInt::from(7u32)).unwrap();

    let p1 = PointAffine::new(x, y, a.clone(), b.clone());
    let p2 = PointAffine::new(x2, y2, a, b);

    let doubled_p1 = p1.double();

    assert_eq!(doubled_p1, p2);
}

#[test]
fn multiply_matches_repeated_add() {
    let p1 = curve7_point(3, 3);
    let mut acc = curve7_point(0, 0);
    for k in 0u32..9 {
        assert_eq!(p1.multiply(BigInt::from(k)), acc);
        acc = acc.add(p1.clone()).unwrap();
    }
}

#[test]
fn multiply_by_zero_is_identity() {
    let p1 = curve7_point(3, 3);
    assert_eq!(p1.multiply(BigInt::from(0u32)), curve7_point(0, 0));
}

#[test]
fn identity_absorbs() {
    // On this curve (0, 0) does not satisfy the equation, so it is
    // unambiguously the identity element.
    let identity = curve7_point(0, 0);
    let p1 = curve7_point(3, 3);
    assert_eq!(p1.add(identity.clone()).unwrap(), p1);
    assert_eq!(identity.add(p1.clone()).unwrap(), p1);
}

#[test]
fn adding_inverse_points_gives_identity() {
    let p1 = curve7_point(3, 3);
    let p2 = curve7_point(3, 4);
    assert_eq!(p1.add(p2).unwrap(), curve7_point(0, 0));
}

#[test]
fn doubling_order_two_point_gives_identity() {
    let p1 = curve7_point(5, 0);
    assert_eq!(p1.double(), curve7_point(0, 0));
}

#[test]
fn points_on_different_curves_mismatch() {
    let p1 = curve7_point(3, 3);
    let other_curve = PointAffine::new(fe(3, 7), fe(3, 7), fe(1, 7), fe(3, 7));
    assert!(matches!(p1.add(other_curve), Err(FieldErrors::Mismatch(_))));
    let other_prime = PointAffine::new(fe(3, 11), fe(3, 11), fe(0, 11), fe(3, 11));
    assert!(matches!(p1.add(other_prime), Err(FieldErrors::Mismatch(_))));
}

#[test]
fn curve_membership() {
    assert!(curve7_point(3, 3).check_in_curve().is_ok());
    assert!(curve7_point(2, 5).check_in_curve().is_ok());
    assert!(matches!(
        curve7_point(1, 1).check_in_curve(),
        Err(FieldErrors::PointNotOnCurve(_))
    ));
    // The identity stand-in (0, 0) is not on this curve.
    assert!(curve7_point(0, 0).check_in_curve().is_err());
}

#[test]
fn projective_round_trip() {
    let p1 = curve7_point(3, 3);
    let z = fe(4, 7);
    let proj = p1.to_projectivez(z, fe(0, 7), fe(3, 7));
    assert_eq!(*proj.get_x(), fe(5, 7));
    assert_eq!(*proj.get_y(), fe(5, 7));
    assert_eq!(*proj.get_z(), fe(4, 7));
    let back = proj.normalize_z();
    assert_eq!(*back.get_x(), fe(3, 7));
    assert_eq!(*back.get_y(), fe(3, 7));
    assert_eq!(*back.get_z(), fe(1, 7));
}

#[test]
fn point_accessors() {
    let p1 = curve7_point(3, 4);
    assert_eq!(*p1.get_x(), fe(3, 7));
    assert_eq!(*p1.get_y(), fe(4, 7));
    assert_eq!(*p1.get_a(), fe(0, 7));
    assert_eq!(*p1.get_b(), fe(3, 7));
    let (vx, vy) = p1.get_values();
    assert_eq!(*vx, fe(3, 7));
    assert_eq!(*vy, fe(4, 7));
    assert_eq!(p1.element_prime(), BigInt::from(7u32));
}

#[test]
fn scalar_multiplication_cycles_the_group() {
    // The curve group here has 13 elements; a generator returns to the
    // identity after 13 steps.
    let p1 = curve7_point(3, 3);
    assert_eq!(p1.multiply(BigInt::from(13u32)), curve7_point(0, 0));
    assert_eq!(p1.multiply(BigInt::from(14u32)), p1);
}
