// The validator: exact acceptance of irreducible moduli and primitive
// generators, and the error reported for each kind of bad input.

use g2p::descriptor::{validate, default_modulus, FieldError};
use g2p::field::field_new;

#[test]
fn accepts_canonical_triples() {
    for n in 1u32..=16 {
        let m = default_modulus(n);
        let g = if n == 1 { 1 } else { 2 };
        let d = validate(n, m, g).unwrap();
        assert_eq!(d.degree, n);
        assert_eq!(d.modulus, m);
        assert_eq!(d.generator, g);
    }
}

#[test]
fn rejects_reducible_modulus() {
    // 21 = 0b10101 is (x^2 + x + 1)^2: degree 4 but reducible.
    assert_eq!(validate(4, 21, 2), Err(FieldError::ReducibleModulus(21)));
    // 16 = x^4 is divisible by x.
    assert_eq!(validate(4, 16, 2), Err(FieldError::ReducibleModulus(16)));
    // 255 = 0b11111111 has degree 7, not 8.
    assert_eq!(validate(8, 255, 2), Err(FieldError::ReducibleModulus(255)));
}

#[test]
fn rejects_non_primitive_generator() {
    // One generates nothing but itself.
    assert_eq!(validate(4, 19, 1), Err(FieldError::NonPrimitiveGenerator(1)));
    // Zero is not a unit at all.
    assert_eq!(validate(4, 19, 0), Err(FieldError::NonPrimitiveGenerator(0)));
    // A value outside the field is rejected too.
    assert_eq!(validate(4, 19, 16), Err(FieldError::NonPrimitiveGenerator(16)));
}

#[test]
fn irreducible_but_non_primitive_pair() {
    // x^8 + x^4 + x^3 + x + 1 (0x11B) is irreducible, but x has order 51
    // in its field, so 2 is not a generator there while 3 is.
    assert_eq!(validate(8, 0x11B, 2), Err(FieldError::NonPrimitiveGenerator(2)));
    assert!(validate(8, 0x11B, 3).is_ok());
    let f = field_new(8, 0x11B, 3).unwrap();
    assert_eq!(f.exp_at(1), 3);
}

#[test]
fn construction_error_carries_offending_value() {
    match field_new(4, 21, 2) {
        Err(FieldError::ReducibleModulus(v)) => assert_eq!(v, 21),
        other => panic!("expected a reducible-modulus error, got {:?}", other),
    }
    // 5 has discrete log 8 in GF(16), and gcd(8, 15) = 1, so 5 is primitive.
    let f = field_new(4, 19, 5).unwrap();
    assert_eq!(f.generator, 5);
    assert_eq!(f.exp_at(1), 5);
}

#[test]
fn generator_order_divides_but_is_not_maximal() {
    // In GF(16) with modulus 19, the element 6 has multiplicative order 3,
    // a proper divisor of 15, so it is not primitive.
    assert_eq!(validate(4, 19, 6), Err(FieldError::NonPrimitiveGenerator(6)));
}
