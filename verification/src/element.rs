//! The field-element value type: an integer representation tagged with a
//! reference to its field's shared tables. Elements are plain values; every
//! arithmetic operation reads the tables and never mutates them.

use vstd::prelude::*;
use crate::field::{Field, lemma_size_facts};
use crate::GaloisField;

verus! {

/// One value of a Galois field.
#[derive(Debug, Clone, Copy)]
pub struct Elem<'a> {
    pub field: &'a Field,
    pub value: u32,
}

/// An element of a well-formed field, with its representation in range, in
/// the same field as `other`: the precondition of every binary operator.
pub open spec fn operands_ok(e: Elem<'_>, other: Elem<'_>) -> bool {
    &&& e.field.wf()
    &&& (e.value as int) < e.field.size()
    &&& (other.value as int) < other.field.size()
    &&& e.field == other.field
}

impl<'a> Elem<'a> {
    /// The integer encoding of the element.
    pub fn val(&self) -> (r: u32)
        ensures
            r == self.value,
    {
        self.value
    }
}

impl<'a> PartialEq for Elem<'a> {
    /// Exact value equality on the underlying representation: the
    /// representations are already canonical residues.
    fn eq(&self, other: &Elem<'a>) -> (r: bool) {
        self.value == other.value
    }
}

impl<'a> Eq for Elem<'a> {

}

impl<'a> vstd::std_specs::cmp::PartialEqSpecImpl for Elem<'a> {
    open spec fn obeys_eq_spec() -> bool {
        true
    }

    open spec fn eq_spec(&self, other: &Elem<'a>) -> bool {
        self.value == other.value
    }
}

impl<'a> core::ops::Add for Elem<'a> {
    type Output = Elem<'a>;

    /// `+` is field addition: XOR of the representations, exact and
    /// carry-free.
    fn add(self, rhs: Elem<'a>) -> (r: Elem<'a>) {
        Elem { field: self.field, value: self.field.add(self.value, rhs.value) }
    }
}

impl<'a> vstd::std_specs::ops::AddSpecImpl for Elem<'a> {
    open spec fn obeys_add_spec() -> bool {
        true
    }

    open spec fn add_req(self, rhs: Elem<'a>) -> bool {
        operands_ok(self, rhs)
    }

    open spec fn add_spec(self, rhs: Elem<'a>) -> Elem<'a> {
        Elem { field: self.field, value: self.field.spec_add(self.value, rhs.value) }
    }
}

impl<'a> core::ops::Sub for Elem<'a> {
    type Output = Elem<'a>;

    /// `-` is the same XOR as `+`: every element is its own negation.
    fn sub(self, rhs: Elem<'a>) -> (r: Elem<'a>) {
        Elem { field: self.field, value: self.field.sub(self.value, rhs.value) }
    }
}

impl<'a> vstd::std_specs::ops::SubSpecImpl for Elem<'a> {
    open spec fn obeys_sub_spec() -> bool {
        true
    }

    open spec fn sub_req(self, rhs: Elem<'a>) -> bool {
        operands_ok(self, rhs)
    }

    open spec fn sub_spec(self, rhs: Elem<'a>) -> Elem<'a> {
        Elem { field: self.field, value: self.field.spec_add(self.value, rhs.value) }
    }
}

impl<'a> core::ops::Mul for Elem<'a> {
    type Output = Elem<'a>;

    /// `*` is table-based field multiplication.
    fn mul(self, rhs: Elem<'a>) -> (r: Elem<'a>) {
        Elem { field: self.field, value: self.field.mul(self.value, rhs.value) }
    }
}

impl<'a> vstd::std_specs::ops::MulSpecImpl for Elem<'a> {
    open spec fn obeys_mul_spec() -> bool {
        true
    }

    open spec fn mul_req(self, rhs: Elem<'a>) -> bool {
        operands_ok(self, rhs)
    }

    open spec fn mul_spec(self, rhs: Elem<'a>) -> Elem<'a> {
        Elem { field: self.field, value: self.field.spec_mul(self.value, rhs.value) }
    }
}

impl<'a> core::ops::Div for Elem<'a> {
    type Output = Elem<'a>;

    /// `/` is table-based field division. A zero divisor is a contract
    /// violation - the field has no inverse for zero - excluded by the
    /// operator's precondition.
    fn div(self, rhs: Elem<'a>) -> (r: Elem<'a>) {
        Elem { field: self.field, value: self.field.div(self.value, rhs.value) }
    }
}

impl<'a> vstd::std_specs::ops::DivSpecImpl for Elem<'a> {
    open spec fn obeys_div_spec() -> bool {
        true
    }

    open spec fn div_req(self, rhs: Elem<'a>) -> bool {
        operands_ok(self, rhs) && rhs.value != 0
    }

    open spec fn div_spec(self, rhs: Elem<'a>) -> Elem<'a> {
        Elem { field: self.field, value: self.field.spec_div(self.value, rhs.value) }
    }
}

impl<'a> GaloisField for Elem<'a> {
    open spec fn valid(self) -> bool {
        self.field.wf() && (self.value as int) < self.field.size()
    }

    open spec fn repr(self) -> u32 {
        self.value
    }

    open spec fn field_size(self) -> int {
        self.field.size()
    }

    open spec fn same_field(self, other: Self) -> bool {
        self.field == other.field
    }

    open spec fn mul_repr(self, other: Self) -> u32 {
        self.field.spec_mul(self.value, other.value)
    }

    open spec fn div_repr(self, other: Self) -> u32 {
        self.field.spec_div(self.value, other.value)
    }

    open spec fn pow_repr(self, k: nat) -> u32 {
        self.field.spec_pow(self.value, k)
    }

    open spec fn generator_repr(self) -> u32 {
        self.field.generator
    }

    fn zero(self) -> (r: Self) {
        proof {
            lemma_size_facts(self.field.degree);
        }
        Elem { field: self.field, value: 0 }
    }

    fn one(self) -> (r: Self) {
        proof {
            lemma_size_facts(self.field.degree);
        }
        Elem { field: self.field, value: 1 }
    }

    fn generator(self) -> (r: Self) {
        Elem { field: self.field, value: self.field.generator }
    }

    fn pow(self, p: u64) -> (r: Self) {
        Elem { field: self.field, value: self.field.pow(self.value, p) }
    }
}

impl Field {
    /// View the integer `v` as an element of this field. An encoding outside
    /// [0, 2^n) is a caller error, excluded here by precondition;
    /// `checked_element` rejects it at run time instead.
    pub fn element<'a>(&'a self, v: u32) -> (r: Elem<'a>)
        requires
            self.wf(),
            (v as int) < self.size(),
        ensures
            r.valid(),
            r.repr() == v,
            r.field == self,
    {
        Elem { field: self, value: v }
    }

    /// Conversion from the raw integer encoding that rejects an out-of-range
    /// value: `None` exactly when `v` is not a field value.
    pub fn checked_element<'a>(&'a self, v: u32) -> (r: Option<Elem<'a>>)
        requires
            self.wf(),
        ensures
            r is None <==> (v as int) >= self.size(),
            (v as int) < self.size() ==> (r matches Some(e) && e.valid() && e.repr() == v
                && e.field == self),
    {
        let size = self.size_val();
        if v < size {
            Some(Elem { field: self, value: v })
        } else {
            None
        }
    }
}

} // verus!
