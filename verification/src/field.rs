//! The table builder and the table-backed field type. A `Field` owns the
//! exponent table (`exp[i] == generator^i`) and the logarithm table (its
//! exact inverse on the nonzero elements); after the one-time O(2^n) build,
//! every arithmetic operation is a constant number of table lookups.

use vstd::prelude::*;
use vstd::arithmetic::power2::pow2;
use crate::poly::{gf_pow, gf_multiply, lemma_pmod_scan_small, lemma_pmul_one_left};
use crate::descriptor::{
    Descriptor, FieldError, field_size, mult_order, degree_exact, generator_in_range,
    passes_trial_division, order_is_maximal, valid_triple, validate, default_modulus,
    default_generator, spec_default_modulus, spec_default_generator,
};

verus! {

/// Bridge between the exec size computation and the spec field size.
pub proof fn lemma_size_facts(n: u32)
    requires
        1 <= n <= 31,
    ensures
        field_size(n as nat) == ((1u32 << n) as int),
        2 <= field_size(n as nat) <= 0x8000_0000,
{
    assert(((1u32 << n) as u64) == (1u64 << (n as u64)) && 2 <= (1u64 << (n as u64)) && (1u64 << (
    n as u64)) <= 0x8000_0000u64) by (bit_vector)
        requires
            1 <= n <= 31,
    ;
}

/// There is some exponent `i` below `2^n - 1` with `g^i == v`.
pub open spec fn some_power_hits(g: u64, m: u64, n: nat, v: u64) -> bool {
    exists|i: nat| i < mult_order(n) && gf_pow(g, i, m, n) == v
}

/// The powers `g^0 .. g^(2^n - 2)` are distinct nonzero field values, cover
/// every nonzero field value, and return to one at exponent `2^n - 1`: the
/// exact condition under which the table build succeeds.
pub open spec fn generator_enumerates(g: u64, m: u64, n: nat) -> bool {
    &&& forall|i: nat, j: nat|
        i < j < mult_order(n) ==> #[trigger] gf_pow(g, i, m, n) != #[trigger] gf_pow(g, j, m, n)
    &&& forall|i: nat| i < mult_order(n) ==> 1 <= #[trigger] gf_pow(g, i, m, n) < field_size(n)
    &&& forall|v: u64| 1 <= v < field_size(n) ==> #[trigger] some_power_hits(g, m, n, v)
    &&& gf_pow(g, mult_order(n) as nat, m, n) == 1
}

/// One binary Galois field GF(2^n): the validated triple together with the
/// exponent and logarithm tables built from it. Built once, never mutated.
#[derive(Debug)]
pub struct Field {
    pub degree: u32,
    pub modulus: u32,
    pub generator: u32,
    pub exp: Vec<u32>,
    pub log: Vec<u32>,
}

impl Field {
    /// The exponent table: entry `i` holds `generator^i`.
    pub open spec fn exp_seq(self) -> Seq<u32> {
        self.exp@
    }

    /// The logarithm table: entry `v` holds the discrete logarithm of `v`.
    pub open spec fn log_seq(self) -> Seq<u32> {
        self.log@
    }

    /// Number of field elements, 2^n.
    pub open spec fn size(self) -> int {
        field_size(self.degree as nat)
    }

    /// Number of nonzero field elements, 2^n - 1: the order of the
    /// multiplicative group and the length of the exponent table.
    pub open spec fn order(self) -> int {
        mult_order(self.degree as nat)
    }

    /// Table well-formedness: the exponent table holds the generator's
    /// powers, all nonzero elements appear exactly once, and the logarithm
    /// table is its exact inverse.
    pub open spec fn wf(self) -> bool {
        &&& 1 <= self.degree <= 31
        &&& degree_exact(self.modulus as u64, self.degree as nat)
        &&& 1 <= (self.generator as int) < self.size()
        &&& self.exp_seq().len() == self.order()
        &&& self.log_seq().len() == self.size()
        &&& self.exp_seq()[0] == 1
        &&& forall|i: int| 0 <= i < self.order() ==> 1 <= #[trigger] self.exp_seq()[i] < self.size()
        &&& forall|i: int|
            0 <= i < self.order() ==> (#[trigger] self.exp_seq()[i]) as u64 == gf_pow(
                self.generator as u64,
                i as nat,
                self.modulus as u64,
                self.degree as nat,
            )
        &&& forall|i: int|
            0 <= i < self.order() ==> #[trigger] self.log_seq()[self.exp_seq()[i] as int] == i
        &&& forall|v: int|
            1 <= v < self.size() ==> 0 <= #[trigger] self.log_seq()[v] < self.order()
                && self.exp_seq()[self.log_seq()[v] as int] == v
        &&& gf_pow(
            self.generator as u64,
            self.order() as nat,
            self.modulus as u64,
            self.degree as nat,
        ) == 1
    }

    /// Field addition: XOR of the representations (characteristic 2).
    pub open spec fn spec_add(self, a: u32, b: u32) -> u32 {
        a ^ b
    }

    /// Table-based multiplication: zero absorbs everything; otherwise look up
    /// the sum of the discrete logarithms, reduced modulo 2^n - 1.
    pub open spec fn spec_mul(self, a: u32, b: u32) -> u32 {
        if a == 0 || b == 0 {
            0
        } else {
            self.exp_seq()[(self.log_seq()[a as int] + self.log_seq()[b as int]) % self.order()]
        }
    }

    /// Table-based division: zero divided by anything is zero; otherwise look
    /// up the difference of the discrete logarithms, shifted by 2^n - 1 to
    /// stay nonnegative. Only meaningful for a nonzero divisor.
    pub open spec fn spec_div(self, a: u32, b: u32) -> u32 {
        if a == 0 || b == 0 {
            0
        } else {
            self.exp_seq()[(self.log_seq()[a as int] - self.log_seq()[b as int] + self.order())
                % self.order()]
        }
    }

    /// Exponentiation: `k`-fold multiplication by `x`, starting from one.
    pub open spec fn spec_pow(self, x: u32, k: nat) -> u32
        decreases k,
    {
        if k == 0 {
            1
        } else {
            self.spec_mul(self.spec_pow(x, (k - 1) as nat), x)
        }
    }
}

impl Field {
    /// The number of field elements, 2^n, as a value.
    pub fn size_val(&self) -> (r: u32)
        requires
            self.wf(),
        ensures
            r as int == self.size(),
            r >= 2,
    {
        proof {
            lemma_size_facts(self.degree);
        }
        1u32 << self.degree
    }

    /// The order of the multiplicative group, 2^n - 1, as a value.
    pub fn order_val(&self) -> (r: u32)
        requires
            self.wf(),
        ensures
            r as int == self.order(),
            r >= 1,
    {
        proof {
            lemma_size_facts(self.degree);
        }
        (1u32 << self.degree) - 1
    }

    /// Field addition: bitwise XOR of the representations. Exact, carry-free,
    /// and closed: the sum of two field values is a field value.
    pub fn add(&self, a: u32, b: u32) -> (r: u32)
        requires
            self.wf(),
            (a as int) < self.size(),
            (b as int) < self.size(),
        ensures
            r == self.spec_add(a, b),
            (r as int) < self.size(),
    {
        proof {
            self.lemma_add_closed(a, b);
        }
        a ^ b
    }

    /// Field subtraction: identical to addition in characteristic 2.
    pub fn sub(&self, a: u32, b: u32) -> (r: u32)
        requires
            self.wf(),
            (a as int) < self.size(),
            (b as int) < self.size(),
        ensures
            r == self.spec_add(a, b),
            (r as int) < self.size(),
    {
        self.add(a, b)
    }

    /// Field multiplication: zero if either operand is zero, otherwise the
    /// exponent-table entry at the sum of the discrete logarithms modulo
    /// 2^n - 1. The modular reduction keeps the index inside the table.
    pub fn mul(&self, a: u32, b: u32) -> (r: u32)
        requires
            self.wf(),
            (a as int) < self.size(),
            (b as int) < self.size(),
        ensures
            r == self.spec_mul(a, b),
            (r as int) < self.size(),
    {
        proof {
            lemma_size_facts(self.degree);
        }
        if a == 0 || b == 0 {
            return 0;
        }
        let la: u32 = self.log[a as usize];
        let lb: u32 = self.log[b as usize];
        let ord: u32 = (1u32 << self.degree) - 1;
        proof {
            vstd::arithmetic::div_mod::lemma_mod_bound((la + lb) as int, ord as int);
        }
        let idx: u32 = (((la as u64) + (lb as u64)) % (ord as u64)) as u32;
        self.exp[idx as usize]
    }

    /// Field division by a nonzero divisor: the exponent-table entry at the
    /// difference of the discrete logarithms, shifted up by 2^n - 1 before
    /// the modulo so the index never goes negative. A zero divisor is a
    /// contract violation (the field has no inverse for zero), excluded here
    /// by precondition; `checked_div` refuses it at run time.
    pub fn div(&self, a: u32, b: u32) -> (r: u32)
        requires
            self.wf(),
            (a as int) < self.size(),
            (b as int) < self.size(),
            b != 0,
        ensures
            r == self.spec_div(a, b),
            (r as int) < self.size(),
    {
        proof {
            lemma_size_facts(self.degree);
        }
        if a == 0 {
            return 0;
        }
        let la: u32 = self.log[a as usize];
        let lb: u32 = self.log[b as usize];
        let ord: u32 = (1u32 << self.degree) - 1;
        proof {
            vstd::arithmetic::div_mod::lemma_mod_bound((la + ord - lb) as int, ord as int);
        }
        let idx: u32 = (((la as u64) + (ord as u64) - (lb as u64)) % (ord as u64)) as u32;
        self.exp[idx as usize]
    }

    /// Division that reports a zero divisor instead of demanding its absence:
    /// returns `None` exactly when the divisor is zero.
    pub fn checked_div(&self, a: u32, b: u32) -> (r: Option<u32>)
        requires
            self.wf(),
            (a as int) < self.size(),
            (b as int) < self.size(),
        ensures
            r is None <==> b == 0,
            b != 0 ==> r == Some(self.spec_div(a, b)),
    {
        if b == 0 {
            None
        } else {
            Some(self.div(a, b))
        }
    }

    /// Entry `i` of the exponent table: the generator's `i`-th power.
    pub fn exp_at(&self, i: u32) -> (r: u32)
        requires
            self.wf(),
            (i as int) < self.order(),
        ensures
            r == self.exp_seq()[i as int],
            1 <= (r as int) < self.size(),
    {
        self.exp[i as usize]
    }

    /// The discrete logarithm of the nonzero value `v`.
    pub fn log_at(&self, v: u32) -> (r: u32)
        requires
            self.wf(),
            1 <= (v as int) < self.size(),
        ensures
            r == self.log_seq()[v as int],
            (r as int) < self.order(),
            self.exp_seq()[r as int] == v,
    {
        self.log[v as usize]
    }

    /// Law: zero is the additive identity and every element is its own
    /// additive inverse (characteristic 2): `a + 0 == a` and `a + a == 0`.
    pub proof fn lemma_add_identity_inverse(self, a: u32)
        ensures
            self.spec_add(a, 0) == a,
            self.spec_add(0, a) == a,
            self.spec_add(a, a) == 0,
    {
        assert((a ^ 0) == a && (0 ^ a) == a && (a ^ a) == 0) by (bit_vector);
    }

    /// Law: addition commutes and associates.
    pub proof fn lemma_add_comm_assoc(self, a: u32, b: u32, c: u32)
        ensures
            self.spec_add(a, b) == self.spec_add(b, a),
            self.spec_add(self.spec_add(a, b), c) == self.spec_add(a, self.spec_add(b, c)),
    {
        assert((a ^ b) == (b ^ a) && ((a ^ b) ^ c) == (a ^ (b ^ c))) by (bit_vector);
    }

    /// Law: addition is closed over the field values.
    pub proof fn lemma_add_closed(self, a: u32, b: u32)
        requires
            self.wf(),
            (a as int) < self.size(),
            (b as int) < self.size(),
        ensures
            (self.spec_add(a, b) as int) < self.size(),
    {
        lemma_size_facts(self.degree);
        let n = self.degree;
        assert(a < (1u32 << n) && b < (1u32 << n) ==> (a ^ b) < (1u32 << n)) by (bit_vector)
            requires
                n <= 31,
        ;
    }

    /// The table invariant pins the discrete logarithm of one at zero.
    proof fn lemma_log_one(self)
        requires
            self.wf(),
        ensures
            1 < self.size(),
            self.log_seq()[1] == 0,
    {
        lemma_size_facts(self.degree);
        assert(self.log_seq()[self.exp_seq()[0] as int] == 0);
    }

    /// Law: multiplication is closed, and a product is zero exactly when one
    /// of its factors is zero.
    pub proof fn lemma_mul_closed(self, a: u32, b: u32)
        requires
            self.wf(),
            (a as int) < self.size(),
            (b as int) < self.size(),
        ensures
            (self.spec_mul(a, b) as int) < self.size(),
            self.spec_mul(a, b) == 0 <==> (a == 0 || b == 0),
    {
        lemma_size_facts(self.degree);
        if a != 0 && b != 0 {
            let la = self.log_seq()[a as int] as int;
            let lb = self.log_seq()[b as int] as int;
            vstd::arithmetic::div_mod::lemma_mod_bound(la + lb, self.order());
        }
    }

    /// Law: one is the multiplicative identity: `a * 1 == a` and `1 * a == a`.
    pub proof fn lemma_mul_identity(self, a: u32)
        requires
            self.wf(),
            (a as int) < self.size(),
        ensures
            self.spec_mul(a, 1) == a,
            self.spec_mul(1, a) == a,
    {
        lemma_size_facts(self.degree);
        self.lemma_log_one();
        if a != 0 {
            let la = self.log_seq()[a as int];
            vstd::arithmetic::div_mod::lemma_small_mod(la as nat, self.order() as nat);
        }
    }

    /// Law: multiplication commutes.
    pub proof fn lemma_mul_comm(self, a: u32, b: u32)
        ensures
            self.spec_mul(a, b) == self.spec_mul(b, a),
    {
    }

    /// Law: multiplication associates.
    pub proof fn lemma_mul_assoc(self, a: u32, b: u32, c: u32)
        requires
            self.wf(),
            (a as int) < self.size(),
            (b as int) < self.size(),
            (c as int) < self.size(),
        ensures
            self.spec_mul(self.spec_mul(a, b), c) == self.spec_mul(a, self.spec_mul(b, c)),
    {
        lemma_size_facts(self.degree);
        self.lemma_mul_closed(a, b);
        self.lemma_mul_closed(b, c);
        if a != 0 && b != 0 && c != 0 {
            let ord = self.order();
            let la = self.log_seq()[a as int] as int;
            let lb = self.log_seq()[b as int] as int;
            let lc = self.log_seq()[c as int] as int;
            vstd::arithmetic::div_mod::lemma_mod_bound(la + lb, ord);
            vstd::arithmetic::div_mod::lemma_mod_bound(lb + lc, ord);
            assert(self.log_seq()[self.exp_seq()[(la + lb) % ord] as int] == (la + lb) % ord);
            assert(self.log_seq()[self.exp_seq()[(lb + lc) % ord] as int] == (lb + lc) % ord);
            vstd::arithmetic::div_mod::lemma_small_mod(lc as nat, ord as nat);
            vstd::arithmetic::div_mod::lemma_add_mod_noop(la + lb, lc, ord);
            vstd::arithmetic::div_mod::lemma_small_mod(la as nat, ord as nat);
            vstd::arithmetic::div_mod::lemma_add_mod_noop(la, lb + lc, ord);
        }
    }

    /// Law: division inverts multiplication: for nonzero `b`,
    /// `(a / b) * b == a`, and the quotient is zero only for `a == 0`.
    pub proof fn lemma_div_mul(self, a: u32, b: u32)
        requires
            self.wf(),
            (a as int) < self.size(),
            (b as int) < self.size(),
            b != 0,
        ensures
            self.spec_mul(self.spec_div(a, b), b) == a,
            (self.spec_div(a, b) as int) < self.size(),
            self.spec_div(a, b) == 0 <==> a == 0,
    {
        lemma_size_facts(self.degree);
        if a != 0 {
            let ord = self.order();
            let la = self.log_seq()[a as int] as int;
            let lb = self.log_seq()[b as int] as int;
            let idx = (la - lb + ord) % ord;
            vstd::arithmetic::div_mod::lemma_mod_bound(la - lb + ord, ord);
            assert(self.log_seq()[self.exp_seq()[idx] as int] == idx);
            vstd::arithmetic::div_mod::lemma_small_mod(lb as nat, ord as nat);
            vstd::arithmetic::div_mod::lemma_add_mod_noop(la - lb + ord, lb, ord);
            vstd::arithmetic::div_mod::lemma_mod_add_multiples_vanish(la, ord);
            vstd::arithmetic::div_mod::lemma_small_mod(la as nat, ord as nat);
        }
    }

    /// Law: every nonzero element has the multiplicative inverse `1 / a`:
    /// `a * (1 / a) == 1`.
    pub proof fn lemma_mul_inverse(self, a: u32)
        requires
            self.wf(),
            1 <= (a as int) < self.size(),
        ensures
            self.spec_mul(a, self.spec_div(1, a)) == 1,
            self.spec_div(1, a) != 0,
    {
        lemma_size_facts(self.degree);
        self.lemma_div_mul(1, a);
        self.lemma_mul_comm(a, self.spec_div(1, a));
    }

    /// Law: exponentiation is closed over the field values.
    pub proof fn lemma_pow_closed(self, x: u32, k: nat)
        requires
            self.wf(),
            (x as int) < self.size(),
        ensures
            (self.spec_pow(x, k) as int) < self.size(),
        decreases k,
    {
        lemma_size_facts(self.degree);
        if k != 0 {
            self.lemma_pow_closed(x, (k - 1) as nat);
            self.lemma_mul_closed(self.spec_pow(x, (k - 1) as nat), x);
        }
    }

    /// Law: the zeroth power is one and the first power is the base itself.
    pub proof fn lemma_pow_zero_one(self, x: u32)
        requires
            self.wf(),
            (x as int) < self.size(),
        ensures
            self.spec_pow(x, 0) == 1,
            self.spec_pow(x, 1) == x,
    {
        assert(self.spec_pow(x, 0) == 1);
        self.lemma_mul_identity(x);
    }

    /// Law: exponents add: `x^(s+t) == x^s * x^t`.
    pub proof fn lemma_pow_add(self, x: u32, s: nat, t: nat)
        requires
            self.wf(),
            (x as int) < self.size(),
        ensures
            self.spec_pow(x, s + t) == self.spec_mul(self.spec_pow(x, s), self.spec_pow(x, t)),
        decreases t,
    {
        self.lemma_pow_closed(x, s);
        if t == 0 {
            self.lemma_mul_identity(self.spec_pow(x, s));
        } else {
            self.lemma_pow_add(x, s, (t - 1) as nat);
            self.lemma_pow_closed(x, (t - 1) as nat);
            self.lemma_mul_assoc(self.spec_pow(x, s), self.spec_pow(x, (t - 1) as nat), x);
        }
    }

    /// The generator's powers walk the exponent table: `g^k == exp[k mod
    /// (2^n - 1)]`.
    pub proof fn lemma_generator_pow(self, k: nat)
        requires
            self.wf(),
        ensures
            self.spec_pow(self.generator, k) == self.exp_seq()[(k as int) % self.order()],
        decreases k,
    {
        lemma_size_facts(self.degree);
        let ord = self.order();
        if k == 0 {
            vstd::arithmetic::div_mod::lemma_small_mod(0, ord as nat);
        } else {
            self.lemma_generator_pow((k - 1) as nat);
            vstd::arithmetic::div_mod::lemma_mod_bound((k - 1) as int, ord);
            let pi = ((k - 1) as int) % ord;
            assert(self.log_seq()[self.exp_seq()[pi] as int] == pi);
            if ord == 1 {
                // GF(2): the generator is one, and every index reduces to 0.
                vstd::arithmetic::div_mod::lemma_mod_bound(k as int, ord);
                self.lemma_log_one();
            } else {
                // exp[1] is the generator itself: g^1 reduces to g.
                lemma_pmul_one_left(self.generator as u64);
                lemma_pmod_scan_small(
                    self.generator as u64,
                    self.modulus as u64,
                    self.degree as nat,
                    62,
                );
                assert(self.exp_seq()[1] as u64 == gf_pow(
                    self.generator as u64,
                    1,
                    self.modulus as u64,
                    self.degree as nat,
                ));
                assert(self.log_seq()[self.exp_seq()[1] as int] == 1);
                vstd::arithmetic::div_mod::lemma_small_mod(1, ord as nat);
                vstd::arithmetic::div_mod::lemma_add_mod_noop((k - 1) as int, 1, ord);
            }
        }
    }

    /// Law: the generator's multiplicative order is exactly 2^n - 1: raising
    /// it to 2^n - 1 gives one, and no smaller positive power does.
    pub proof fn lemma_generator_order(self)
        requires
            self.wf(),
        ensures
            self.spec_pow(self.generator, self.order() as nat) == 1,
            forall|k: nat|
                1 <= k < self.order() ==> #[trigger] self.spec_pow(self.generator, k) != 1,
    {
        lemma_size_facts(self.degree);
        let ord = self.order();
        self.lemma_generator_pow(ord as nat);
        vstd::arithmetic::div_mod::lemma_mod_self_0(ord);
        assert forall|k: nat| 1 <= k < ord implies #[trigger] self.spec_pow(self.generator, k)
            != 1 by {
            self.lemma_generator_pow(k);
            vstd::arithmetic::div_mod::lemma_small_mod(k, ord as nat);
            if self.exp_seq()[k as int] == 1 {
                assert(self.log_seq()[self.exp_seq()[k as int] as int] == k as int);
                assert(self.log_seq()[self.exp_seq()[0] as int] == 0);
            }
        }
    }

    /// Law: the exponent and logarithm tables are mutual inverses:
    /// `log[exp[i]] == i` for every index, `exp[log[v]] == v` for every
    /// nonzero value.
    pub proof fn lemma_table_consistency(self)
        requires
            self.wf(),
        ensures
            forall|i: int|
                0 <= i < self.order() ==> #[trigger] self.log_seq()[self.exp_seq()[i] as int] == i,
            forall|v: int|
                1 <= v < self.size() ==> #[trigger] self.exp_seq()[self.log_seq()[v] as int] == v,
    {
    }

    /// The p-th power of x: square-and-multiply, scanning the bits of `p`
    /// from the most significant position of the exponent word downward. The
    /// very first iteration squares the accumulator while it is still one, a
    /// deliberate no-op that keeps the loop body uniform for every bit
    /// position.
    pub fn pow(&self, x: u32, p: u64) -> (r: u32)
        requires
            self.wf(),
            (x as int) < self.size(),
        ensures
            r == self.spec_pow(x, p as nat),
            (r as int) < self.size(),
    {
        let mut val: u32 = 1;
        let mut pow_pos: u64 = 1u64 << 63;
        let ghost mut bits: nat = 64;
        proof {
            lemma_size_facts(self.degree);
            vstd::bits::lemma_u64_pow2_no_overflow(63);
            vstd::bits::lemma_u64_shl_is_mul(1u64, 63);
            vstd::arithmetic::power2::lemma2_to64();
            vstd::arithmetic::power2::lemma2_to64_rest();
            vstd::arithmetic::div_mod::lemma_basic_div(p as int, pow2(64) as int);
        }
        while pow_pos > 0
            invariant
                self.wf(),
                (x as int) < self.size(),
                (val as int) < self.size(),
                bits <= 64,
                pow_pos != 0 ==> bits >= 1 && pow_pos as nat == pow2((bits - 1) as nat),
                pow_pos == 0 ==> bits == 0,
                val == self.spec_pow(x, (p as nat) / pow2(bits)),
            decreases pow_pos,
        {
            let ghost e: nat = (p as nat) / pow2(bits);
            let ghost s: nat = (bits - 1) as nat;
            let ghost q: nat = (p as nat) / pow2(s);
            val = self.mul(val, val);
            proof {
                self.lemma_pow_add(x, e, e);
            }
            if pow_pos & p > 0 {
                val = self.mul(val, x);
                proof {
                    self.lemma_pow_add(x, e + e, 1);
                    self.lemma_pow_zero_one(x);
                }
            }
            proof {
                vstd::arithmetic::power2::lemma_pow2_pos(s);
                vstd::arithmetic::power2::lemma_pow2_adds(s, 1);
                vstd::arithmetic::power2::lemma2_to64();
                vstd::arithmetic::div_mod::lemma_div_denominator(p as int, pow2(s) as int, 2);
                vstd::arithmetic::div_mod::lemma_fundamental_div_mod(q as int, 2);
                vstd::bits::lemma_u64_shr_is_div(p, s as u64);
                vstd::bits::lemma_u64_pow2_no_overflow(s);
                vstd::bits::lemma_u64_shl_is_mul(1u64, s as u64);
                let sv: u64 = s as u64;
                assert((((1u64 << sv) & p > 0) <==> ((p >> sv) & 1 == 1)) && ((p >> sv) & 1 == (p
                    >> sv) % 2)) by (bit_vector);
                // The processed exponent gains the scanned bit at the bottom.
                assert(q == e + e + ((p >> sv) % 2));
            }
            pow_pos = pow_pos >> 1;
            proof {
                vstd::bits::lemma_u64_shr_is_div(pow2(s) as u64, 1);
                if s == 0 {
                    bits = 0;
                    assert(pow2(0) == 1 && pow2(1) == 2) by {
                        vstd::arithmetic::power2::lemma2_to64();
                    }
                } else {
                    bits = s;
                    vstd::arithmetic::power2::lemma_pow2_adds((s - 1) as nat, 1);
                    vstd::arithmetic::div_mod::lemma_div_by_multiple(
                        pow2((s - 1) as nat) as int,
                        2,
                    );
                }
            }
        }
        proof {
            vstd::arithmetic::power2::lemma2_to64();
            vstd::arithmetic::div_mod::lemma_div_basics_2(p as int);
        }
        val
    }
}

/// Build the exponent and logarithm tables for a descriptor: walk the powers
/// of the generator, recording each in the exponent table and its index in
/// the logarithm table. Returns `None` exactly when the powers fail to
/// enumerate the nonzero elements - the internal invariant that a validated
/// generator rules out.
pub fn build_tables(d: &Descriptor) -> (r: Option<Field>)
    requires
        1 <= d.degree <= 31,
        degree_exact(d.modulus as u64, d.degree as nat),
        generator_in_range(d.generator as u64, d.degree as nat),
    ensures
        r is Some <==> generator_enumerates(d.generator as u64, d.modulus as u64, d.degree as nat),
        match r {
            Some(f) => f.wf() && f.degree == d.degree && f.modulus == d.modulus && f.generator
                == d.generator,
            None => true,
        },
{
    let n = d.degree;
    let m = d.modulus;
    let g = d.generator;
    proof {
        lemma_size_facts(n);
        assert((m as u64) >> (n as u64) == 1 ==> m >> n == 1) by (bit_vector)
            requires
                n < 32,
        ;
    }
    let size32: u32 = 1u32 << n;
    let ord: u32 = size32 - 1;
    let mut log: Vec<u32> = Vec::new();
    let mut w: u32 = 0;
    while w < size32
        invariant
            w <= size32,
            log@.len() == w as int,
            forall|t: int| 0 <= t < w as int ==> log@[t] == ord,
        decreases size32 - w,
    {
        log.push(ord);
        w = w + 1;
    }
    let mut exp: Vec<u32> = Vec::new();
    let mut cur: u32 = 1;
    let mut i: u32 = 0;
    while i < ord
        invariant
            n == d.degree,
            m == d.modulus,
            g == d.generator,
            1 <= n <= 31,
            m >> n == 1,
            (m as u64) >> (n as u64) == 1,
            1 <= (g as int) < field_size(n as nat),
            size32 == 1u32 << n,
            size32 as int == field_size(n as nat),
            ord as int == mult_order(n as nat),
            i <= ord,
            exp@.len() == i as int,
            log@.len() == size32 as int,
            cur as u64 == gf_pow(g as u64, i as nat, m as u64, n as nat),
            cur < size32,
            forall|t: int| 0 <= t < i as int ==> 1 <= #[trigger] exp@[t] < size32,
            forall|t: int|
                0 <= t < i as int ==> (#[trigger] exp@[t]) as u64 == gf_pow(
                    g as u64,
                    t as nat,
                    m as u64,
                    n as nat,
                ),
            forall|t: int| 0 <= t < i as int ==> #[trigger] log@[exp@[t] as int] == t,
            forall|v: int|
                0 <= v < size32 as int && log@[v] != ord ==> 0 <= #[trigger] log@[v] < i as int
                    && exp@[log@[v] as int] == v,
        decreases ord - i,
    {
        if cur == 0 {
            proof {
                if generator_enumerates(g as u64, m as u64, n as nat) {
                    assert(1 <= gf_pow(g as u64, i as nat, m as u64, n as nat));
                }
            }
            return None;
        }
        let li: u32 = log[cur as usize];
        if li != ord {
            proof {
                // The current power repeats an earlier one.
                assert(exp@[li as int] as u64 == gf_pow(g as u64, li as nat, m as u64, n as nat));
                assert(gf_pow(g as u64, li as nat, m as u64, n as nat) == gf_pow(
                    g as u64,
                    i as nat,
                    m as u64,
                    n as nat,
                ));
                if generator_enumerates(g as u64, m as u64, n as nat) {
                    assert(gf_pow(g as u64, li as nat, m as u64, n as nat) != gf_pow(
                        g as u64,
                        i as nat,
                        m as u64,
                        n as nat,
                    ));
                }
            }
            return None;
        }
        log[cur as usize] = i;
        exp.push(cur);
        cur = gf_multiply(cur, g, m, n);
        i = i + 1;
    }
    if cur != 1 {
        proof {
            if generator_enumerates(g as u64, m as u64, n as nat) {
                assert(gf_pow(g as u64, mult_order(n as nat) as nat, m as u64, n as nat) == 1);
            }
        }
        return None;
    }
    let mut v: u32 = 1;
    while v < size32
        invariant
            n == d.degree,
            m == d.modulus,
            g == d.generator,
            1 <= n <= 31,
            1 <= (g as int) < field_size(n as nat),
            size32 as int == field_size(n as nat),
            ord as int == mult_order(n as nat),
            exp@.len() == ord as int,
            log@.len() == size32 as int,
            1 <= v <= size32,
            gf_pow(g as u64, ord as nat, m as u64, n as nat) == 1,
            forall|t: int| 0 <= t < ord as int ==> 1 <= #[trigger] exp@[t] < size32,
            forall|t: int|
                0 <= t < ord as int ==> (#[trigger] exp@[t]) as u64 == gf_pow(
                    g as u64,
                    t as nat,
                    m as u64,
                    n as nat,
                ),
            forall|t: int| 0 <= t < ord as int ==> #[trigger] log@[exp@[t] as int] == t,
            forall|u: int|
                0 <= u < size32 as int && log@[u] != ord ==> 0 <= #[trigger] log@[u] < ord as int
                    && exp@[log@[u] as int] == u,
            forall|u: int| 1 <= u < v as int ==> #[trigger] log@[u] != ord,
        decreases size32 - v,
    {
        if log[v as usize] == ord {
            proof {
                // No power ever reached the nonzero value v.
                if some_power_hits(g as u64, m as u64, n as nat, v as u64) {
                    let t = choose|t: nat|
                        t < mult_order(n as nat) && #[trigger] gf_pow(g as u64, t, m as u64, n as nat)
                            == v as u64;
                    assert(exp@[t as int] as u64 == gf_pow(g as u64, t, m as u64, n as nat));
                    assert(exp@[t as int] == v);
                    assert(log@[exp@[t as int] as int] == t as int);
                    assert(false);
                }
                assert(!generator_enumerates(g as u64, m as u64, n as nat));
            }
            return None;
        }
        v = v + 1;
    }
    let f = Field { degree: n, modulus: m, generator: g, exp, log };
    proof {
        assert(f.exp_seq()[0] as u64 == gf_pow(g as u64, 0, m as u64, n as nat));
        assert forall|i0: nat| i0 < mult_order(n as nat) implies 1 <= #[trigger] gf_pow(
            g as u64,
            i0,
            m as u64,
            n as nat,
        ) < field_size(n as nat) by {
            assert(f.exp_seq()[i0 as int] as u64 == gf_pow(g as u64, i0, m as u64, n as nat));
            assert(1 <= f.exp_seq()[i0 as int] < size32);
        }
        // The build checked everything `generator_enumerates` states.
        assert forall|i0: nat, j0: nat| i0 < j0 < mult_order(n as nat) implies #[trigger] gf_pow(
            g as u64,
            i0,
            m as u64,
            n as nat,
        ) != #[trigger] gf_pow(g as u64, j0, m as u64, n as nat) by {
            if gf_pow(g as u64, i0, m as u64, n as nat) == gf_pow(g as u64, j0, m as u64, n as nat) {
                assert(f.exp_seq()[i0 as int] as u64 == gf_pow(g as u64, i0, m as u64, n as nat));
                assert(f.exp_seq()[j0 as int] as u64 == gf_pow(g as u64, j0, m as u64, n as nat));
                assert(f.log_seq()[f.exp_seq()[i0 as int] as int] == i0 as int);
                assert(f.log_seq()[f.exp_seq()[j0 as int] as int] == j0 as int);
            }
        }
        assert forall|u: u64| 1 <= u < field_size(n as nat) implies #[trigger] some_power_hits(
            g as u64,
            m as u64,
            n as nat,
            u,
        ) by {
            let t = f.log_seq()[u as int];
            assert(f.exp_seq()[t as int] == u);
            assert(gf_pow(g as u64, t as nat, m as u64, n as nat) == u);
        }
    }
    Some(f)
}

/// Validate a `(degree, modulus, generator)` triple and build its field in
/// one step: the constructor behind every generated field type.
pub fn field_new(n: u32, modulus: u32, generator: u32) -> (r: Result<Field, FieldError>)
    requires
        1 <= n <= 31,
    ensures
        r is Ok <==> (valid_triple(n as nat, modulus as u64, generator as u64)
            && generator_enumerates(generator as u64, modulus as u64, n as nat)),
        match r {
            Ok(f) => f.degree == n && f.modulus == modulus && f.generator == generator && f.wf(),
            Err(FieldError::ReducibleModulus(v)) => v == modulus && !(degree_exact(
                modulus as u64,
                n as nat,
            ) && passes_trial_division(modulus as u64, n as nat)),
            Err(FieldError::NonPrimitiveGenerator(v)) => v == generator && degree_exact(
                modulus as u64,
                n as nat,
            ) && passes_trial_division(modulus as u64, n as nat) && !(generator_in_range(
                generator as u64,
                n as nat,
            ) && order_is_maximal(generator as u64, modulus as u64, n as nat)
                && generator_enumerates(generator as u64, modulus as u64, n as nat)),
        },
{
    let d = match validate(n, modulus, generator) {
        Ok(d) => d,
        Err(e) => {
            return Err(e);
        },
    };
    match build_tables(&d) {
        Some(f) => Ok(f),
        None => Err(FieldError::NonPrimitiveGenerator(generator)),
    }
}

/// Construct a field from a degree and optional overrides: the canonical
/// modulus and generator fill in whatever is absent.
pub fn field_from_options(n: u32, modulus: Option<u32>, generator: Option<u32>) -> (r: Result<
    Field,
    FieldError,
>)
    requires
        1 <= n <= 31,
        modulus is None ==> n <= 16,
    ensures
        ({
            let m = match modulus {
                Some(m0) => m0,
                None => spec_default_modulus(n as nat),
            };
            let g = match generator {
                Some(g0) => g0,
                None => spec_default_generator(n as nat),
            };
            &&& (r is Ok <==> (valid_triple(n as nat, m as u64, g as u64)
                && generator_enumerates(g as u64, m as u64, n as nat)))
            &&& (r matches Ok(f) ==> f.degree == n && f.modulus == m && f.generator == g
                && f.wf())
        }),
{
    let m: u32 = match modulus {
        Some(m0) => m0,
        None => default_modulus(n),
    };
    let g: u32 = match generator {
        Some(g0) => g0,
        None => default_generator(n),
    };
    field_new(n, m, g)
}

} // verus!
