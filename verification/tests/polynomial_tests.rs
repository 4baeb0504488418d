use num_bigint::BigInt;

use prime_field_curve::field::FieldElement;
use prime_field_curve::field_traits::FieldElementTraits;
use prime_field_curve::polynomial::Polynomial;

fn fe(n: u32, p: u32) -> FieldElement {
    FieldElement::new(BigInt::from(n), BigInt::from(p)).unwrap()
}

#[test]
fn polynomial_add() {
    let a1 = fe(3, 7);
    let a2 = fe(2, 7);
    let a3 = fe(4, 7);
    let a4 = fe(1, 7);

    let b1 = fe(5, 7);
    let b2 = fe(1, 7);
    let b3 = fe(4, 7);
    let b4 = fe(5, 7);

    let poly1_vector = vec![a1, a2, a3, a4];
    let poly2_vector = vec![b1, b2, b3, b4];

    let poly1 = Polynomial::new(poly1_vector);
    let poly2 = Polynomial::new(poly2_vector);

    let poly3 = poly1.clone().add(&poly2.clone());

    assert_eq!(poly1.add(&poly2), poly3);
}

#[test]
fn evaluate_polynomial() {
    let a1 = fe(3, 7);
    let a2 = fe(2, 7);
    let a3 = fe(4, 7);
    let a4 = fe(1, 7);

    let poly1_vector = vec![a1, a2, a3, a4];

    let poly1 = Polynomial::new(poly1_vector);

    let result = poly1.evaluate(fe(3, 7));

    println!("{:?}", result.get_number());
}

#[test]
fn add_coefficientwise_values() {
    let poly1 = Polynomial::new(vec![fe(3, 7), fe(2, 7), fe(4, 7), fe(1, 7)]);
    let poly2 = Polynomial::new(vec![fe(5, 7), fe(1, 7), fe(4, 7), fe(5, 7)]);
    let sum = poly1.add(&poly2);
    let expected = Polynomial::new(vec![fe(1, 7), fe(3, 7), fe(1, 7), fe(6, 7)]);
    assert_eq!(sum, expected);
}

#[test]
fn add_extends_shorter_with_zeros() {
    let poly1 = Polynomial::new(vec![fe(3, 7), fe(2, 7)]);
    let poly2 = Polynomial::new(vec![fe(5, 7), fe(6, 7), fe(4, 7)]);
    let sum = poly1.add(&poly2);
    let expected = Polynomial::new(vec![fe(1, 7), fe(1, 7), fe(4, 7)]);
    assert_eq!(sum, expected);
    assert_eq!(sum.len(), 3);
}

#[test]
fn evaluate_value_exact() {
    // The sum is (3 + 2 + 4 + 1) * 3 = 30, and 30 mod 7 = 2.
    let poly1 = Polynomial::new(vec![fe(3, 7), fe(2, 7), fe(4, 7), fe(1, 7)]);
    let result = poly1.evaluate(fe(3, 7));
    assert_eq!(result, fe(2, 7));
}
