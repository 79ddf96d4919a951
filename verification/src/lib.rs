//! Binary Galois field arithmetic, GF(2^n), with table-based operations.
//!
//! A field is described by a bit width `n`, an irreducible reduction
//! polynomial of degree `n` over GF(2), and a multiplicative generator.
//! `descriptor::validate` confirms the polynomial is irreducible and the
//! generator primitive; `field::build_tables` then builds the exponent and
//! logarithm tables that make every field operation a constant number of
//! lookups; `element::Elem` is the field-element value type, and the
//! `GaloisField` trait is the uniform surface generic numeric code writes
//! against.

use vstd::prelude::*;

pub mod poly;
pub mod descriptor;
pub mod field;
pub mod element;

verus! {

/// Common trait for finite fields.
///
/// Every field-element type carries the full operator set as supertraits,
/// and exposes zero, one and a generator as constructors tied to `self`'s
/// field, plus square-and-multiply exponentiation. An element is `valid`
/// when it belongs to a well-formed field and its representation is in
/// range; every operation preserves validity (closure) and stays inside
/// `self`'s field. The operators' own contracts live on the implementing
/// type's operator impls.
pub trait GaloisField: Sized + Copy + PartialEq + Eq + core::ops::Add<Output = Self> + core::ops::Sub<Output = Self> + core::ops::Mul<Output = Self> + core::ops::Div<Output = Self> {
    /// The element belongs to a well-formed field and is in range.
    spec fn valid(self) -> bool;

    /// The element's integer representation, a value in [0, 2^n).
    spec fn repr(self) -> u32;

    /// The number of elements of this element's field, 2^n.
    spec fn field_size(self) -> int;

    /// Both elements belong to one and the same field.
    spec fn same_field(self, other: Self) -> bool;

    /// The representation multiplication returns.
    spec fn mul_repr(self, other: Self) -> u32;

    /// The representation division returns.
    spec fn div_repr(self, other: Self) -> u32;

    /// The representation the `k`-th power returns.
    spec fn pow_repr(self, k: nat) -> u32;

    /// The representation of the field's generator.
    spec fn generator_repr(self) -> u32;

    /// The value 0: the additive identity of `self`'s field.
    fn zero(self) -> (r: Self)
        requires
            self.valid(),
        ensures
            r.valid(),
            r.same_field(self),
            r.repr() == 0,
    ;

    /// The value 1: the multiplicative identity of `self`'s field.
    fn one(self) -> (r: Self)
        requires
            self.valid(),
        ensures
            r.valid(),
            r.same_field(self),
            r.repr() == 1,
    ;

    /// A generator of the multiplicative group of `self`'s field: its powers
    /// produce every nonzero element.
    fn generator(self) -> (r: Self)
        requires
            self.valid(),
        ensures
            r.valid(),
            r.same_field(self),
            r.repr() == self.generator_repr(),
            1 <= r.repr(),
    ;

    /// The p-th power of the element, by square-and-multiply.
    fn pow(self, p: u64) -> (r: Self)
        requires
            self.valid(),
        ensures
            r.valid(),
            r.same_field(self),
            r.repr() == self.pow_repr(p as nat),
    ;
}

} // verus!
