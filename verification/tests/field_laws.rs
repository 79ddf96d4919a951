// The field laws, checked exhaustively on small fields: closure, identities,
// inverses, commutativity, associativity, distributivity, generator order,
// exponent laws, and table consistency.

use g2p::field::{field_new, field_from_options};
use g2p::GaloisField;

#[test]
fn closure_all_pairs_gf16() {
    let f = field_new(4, 19, 2).unwrap();
    for a in 0u32..16 {
        for b in 0u32..16 {
            let x = f.element(a);
            let y = f.element(b);
            assert!((x + y).val() < 16);
            assert!((x - y).val() < 16);
            assert!((x * y).val() < 16);
        }
    }
}

#[test]
fn additive_identity_and_inverse_gf16() {
    let f = field_new(4, 19, 2).unwrap();
    let zero = f.element(0);
    for a in 0u32..16 {
        let x = f.element(a);
        assert_eq!(x + zero, x);
        assert_eq!(x + x, zero);
        assert_eq!(x - x, zero);
    }
}

#[test]
fn multiplicative_identity_and_inverse_gf16() {
    let f = field_new(4, 19, 2).unwrap();
    let one = f.element(1);
    for a in 0u32..16 {
        let x = f.element(a);
        assert_eq!(x * one, x);
        assert_eq!(one * x, x);
        if a != 0 {
            let inv = one / x;
            assert_ne!(inv.val(), 0);
            assert_eq!(x * inv, one);
        }
    }
}

#[test]
fn commutativity_associativity_distributivity_gf16() {
    let f = field_new(4, 19, 2).unwrap();
    for a in 0u32..16 {
        for b in 0u32..16 {
            let x = f.element(a);
            let y = f.element(b);
            assert_eq!(x + y, y + x);
            assert_eq!(x * y, y * x);
            for c in 0u32..16 {
                let z = f.element(c);
                assert_eq!((x + y) + z, x + (y + z));
                assert_eq!((x * y) * z, x * (y * z));
                assert_eq!(x * (y + z), (x * y) + (x * z));
            }
        }
    }
}

#[test]
fn generator_order_gf16() {
    let f = field_new(4, 19, 2).unwrap();
    let g = f.element(2).generator();
    let one = g.one();
    assert_eq!(g.pow(15), one);
    // No earlier power returns to one; in particular not the proper divisors
    // 1, 3 and 5 of 15.
    for k in 1u64..15 {
        assert_ne!(g.pow(k), one);
    }
}

#[test]
fn pow_laws_gf256() {
    let f = field_from_options(8, None, None).unwrap();
    let one = f.element(1);
    for v in [2u32, 7, 100, 255] {
        let x = f.element(v);
        assert_eq!(x.pow(0), one);
        assert_eq!(x.pow(1), x);
        for a in 0u64..12 {
            for b in 0u64..12 {
                assert_eq!(x.pow(a + b), x.pow(a) * x.pow(b));
            }
        }
    }
}

#[test]
fn division_by_zero_refused_for_every_dividend() {
    let f = field_new(4, 19, 2).unwrap();
    for a in 1u32..16 {
        assert_eq!(f.checked_div(a, 0), None);
        assert!(f.checked_div(a, 3).is_some());
    }
    assert_eq!(f.checked_div(0, 0), None);
}

#[test]
fn table_consistency_gf16() {
    let f = field_new(4, 19, 2).unwrap();
    for i in 0u32..15 {
        assert_eq!(f.log_at(f.exp_at(i)), i);
    }
    for v in 1u32..16 {
        assert_eq!(f.exp_at(f.log_at(v)), v);
    }
}

#[test]
fn division_inverts_multiplication_gf256() {
    let f = field_from_options(8, None, None).unwrap();
    for a in (0u32..256).step_by(7) {
        for b in (1u32..256).step_by(5) {
            let x = f.element(a);
            let y = f.element(b);
            assert_eq!((x / y) * y, x);
            assert_eq!((x * y) / y, x);
        }
    }
}

#[test]
fn every_element_is_fixed_by_the_field_size_power() {
    // x^(2^n) == x for every element of GF(2^n).
    let f = field_new(4, 19, 2).unwrap();
    for a in 0u32..16 {
        let x = f.element(a);
        assert_eq!(x.pow(16), x);
        if a != 0 {
            assert_eq!(x.pow(15), f.element(1));
        }
    }
}
