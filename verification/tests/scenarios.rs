// Concrete scenarios: GF(4) with the canonical modulus, and the GF(16)
// exponentiation table for the canonical modulus/generator pair.

use g2p::field::{field_from_options, field_new};
use g2p::GaloisField;

#[test]
fn gf4_generator_and_complete_field() {
    let f = field_from_options(2, None, None).unwrap();
    assert_eq!(f.modulus, 7);
    assert_eq!(f.generator, 2);
    assert_eq!(f.size_val(), 4);
    let g = f.element(2);
    let one = g.one();
    assert_ne!(g * g, one);
    assert_eq!(g * g * g, one);
    assert_eq!(g.pow(3), one);
    // Elements 0, 1, 2, 3 form the complete field.
    for v in 0u32..4 {
        assert!(f.checked_element(v).is_some());
    }
    assert!(f.checked_element(4).is_none());
}

#[test]
fn gf16_pow_table() {
    let f = field_new(4, 19, 2).unwrap();
    let x = f.element(2);
    assert_eq!(x.pow(0), f.element(1));
    assert_eq!(x.pow(1), f.element(2));
    assert_eq!(x.pow(2), f.element(4));
    assert_eq!(x.pow(3), f.element(8));
    assert_eq!(x.pow(4), f.element(3));
}

#[test]
fn gf256_spot_values() {
    let f = field_from_options(8, None, None).unwrap();
    assert_eq!(f.modulus, 0x11D);
    assert_eq!(f.exp_at(1), 2);
    assert_eq!(f.exp_at(8), 0x1D);
    assert_eq!(f.log_at(0x1D), 8);
}

#[test]
fn gf2_minimal_field() {
    let f = field_from_options(1, None, None).unwrap();
    assert_eq!(f.size_val(), 2);
    assert_eq!(f.generator, 1);
    let one = f.element(1);
    assert_eq!(one + one, f.element(0));
    assert_eq!(one * one, one);
    assert_eq!(one.generator(), one);
}

#[test]
fn default_fields_build_for_all_supported_degrees() {
    for n in 1u32..=16 {
        let f = field_from_options(n, None, None).unwrap();
        assert_eq!(f.degree, n);
        assert_eq!(f.size_val(), 1u32 << n);
        // The generator's power table starts at one.
        assert_eq!(f.exp_at(0), 1);
    }
}

#[test]
fn element_equality_is_value_equality() {
    let f = field_new(4, 19, 2).unwrap();
    assert_eq!(f.element(3), f.element(3));
    assert_ne!(f.element(3), f.element(2));
    assert_eq!(f.element(5).val(), 5);
}

#[test]
fn options_override_modulus_and_generator() {
    let f = field_from_options(8, Some(0x11B), Some(3)).unwrap();
    assert_eq!(f.modulus, 0x11B);
    assert_eq!(f.generator, 3);
    let g = f.element(3);
    assert_eq!(g.pow(255), f.element(1));
}
