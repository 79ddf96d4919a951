//! Polynomials over GF(2), encoded as bit patterns: bit `i` of a word is the
//! coefficient of `x^i`. Addition is XOR; multiplication is carry-less
//! (XOR-accumulated) shifting; reduction repeatedly cancels the leading term
//! with a shifted copy of the modulus.

use vstd::prelude::*;

verus! {

/// Carry-less product of `a` and `b`: the XOR of `b << i` over every set bit
/// `i` of `a`.
pub open spec fn pmul(a: u64, b: u64) -> u64
    decreases a,
    via pmul_decreases
{
    if a == 0 {
        0
    } else {
        (if a & 1 == 1 {
            b
        } else {
            0
        }) ^ pmul(a >> 1, b << 1)
    }
}

#[via_fn]
proof fn pmul_decreases(a: u64, b: u64) {
    assert(a != 0 ==> (a >> 1u64) < a) by (bit_vector);
}

/// One reduction step at bit position `k`: if bit `k` of `a` is set, cancel
/// it by XOR-ing in the modulus `m` (of degree `n`) shifted so that its
/// leading term lines up with bit `k`.
pub open spec fn reduce_step(a: u64, m: u64, n: nat, k: nat) -> u64 {
    if (a >> (k as u64)) & 1 == 1 {
        a ^ (m << ((k - n) as u64))
    } else {
        a
    }
}

/// Remainder of `a` modulo the degree-`n` polynomial `m`, scanning bit
/// positions `k, k-1, ..., n` and cancelling each leading term in turn.
pub open spec fn pmod_scan(a: u64, m: u64, n: nat, k: nat) -> u64
    decreases k,
{
    if k < n {
        a
    } else if k == 0 {
        reduce_step(a, m, n, k)
    } else {
        pmod_scan(reduce_step(a, m, n, k), m, n, (k - 1) as nat)
    }
}

/// Polynomial remainder modulo `m` of degree `n`, for any `a` of degree at
/// most 62 (every carry-less product of two 32-bit operands qualifies).
pub open spec fn pmod(a: u64, m: u64, n: nat) -> u64 {
    pmod_scan(a, m, n, 62)
}

/// Product in GF(2^n): carry-less multiplication followed by reduction.
pub open spec fn gf_mul(a: u64, b: u64, m: u64, n: nat) -> u64 {
    pmod(pmul(a, b), m, n)
}

/// `g` raised to the `k`-th power in GF(2^n), by repeated multiplication.
pub open spec fn gf_pow(g: u64, k: nat, m: u64, n: nat) -> u64
    decreases k,
{
    if k == 0 {
        1
    } else {
        gf_mul(gf_pow(g, (k - 1) as nat, m, n), g, m, n)
    }
}

/// A reduction step at position `k` clears bit `k` and leaves higher bits
/// alone, so the result drops below `2^k`.
proof fn lemma_reduce_step_bound(a: u64, m: u64, n: nat, k: nat)
    requires
        1 <= n <= k <= 62,
        m >> (n as u64) == 1,
        a < (1u64 << ((k + 1) as u64)),
    ensures
        reduce_step(a, m, n, k) < (1u64 << (k as u64)),
{
    let nn: u64 = n as u64;
    let kk: u64 = k as u64;
    let kk1: u64 = (k + 1) as u64;
    let sh: u64 = (k - n) as u64;
    if (a >> kk) & 1 == 1 {
        assert(a ^ (m << sh) < (1u64 << kk)) by (bit_vector)
            requires
                1 <= nn <= kk <= 62,
                kk1 == kk + 1,
                sh == kk - nn,
                m >> nn == 1,
                a < (1u64 << kk1),
                (a >> kk) & 1 == 1,
        ;
    } else {
        assert(a < (1u64 << kk)) by (bit_vector)
            requires
                kk <= 62,
                kk1 == kk + 1,
                a < (1u64 << kk1),
                (a >> kk) & 1 != 1,
        ;
    }
}

/// A value already of degree below `n` is its own remainder.
pub proof fn lemma_pmod_scan_small(a: u64, m: u64, n: nat, k: nat)
    requires
        1 <= n,
        k <= 62,
        a < (1u64 << (n as u64)),
    ensures
        pmod_scan(a, m, n, k) == a,
    decreases k,
{
    if k < n {
    } else {
        let nn: u64 = n as u64;
        let kk: u64 = k as u64;
        assert((a >> kk) & 1 == 0) by (bit_vector)
            requires
                nn <= kk <= 62,
                a < (1u64 << nn),
        ;
        lemma_pmod_scan_small(a, m, n, (k - 1) as nat);
    }
}

/// The carry-less product of values below `2^i` and `2^j` stays below
/// `2^(i+j-1)`.
pub proof fn lemma_pmul_bound(a: u64, b: u64, i: nat, j: nat)
    requires
        1 <= i,
        1 <= j,
        i + j <= 64,
        a < (1u64 << (i as u64)),
        b < (1u64 << (j as u64)),
    ensures
        pmul(a, b) < (1u64 << ((i + j - 1) as u64)),
    decreases a,
{
    let ii: u64 = i as u64;
    let jj: u64 = j as u64;
    let e1: u64 = (i + j - 1) as u64;
    if a == 0 {
        assert(0 < (1u64 << e1)) by (bit_vector)
            requires
                e1 <= 63,
        ;
    } else {
        if a >> 1u64 == 0 {
            // pmul(a, b) == (a & 1 ? b : 0) ^ 0
            assert(pmul(a >> 1u64, b << 1u64) == 0);
            assert((b ^ 0u64) == b && (0u64 ^ 0u64) == 0 && b < (1u64 << e1)) by (bit_vector)
                requires
                    jj <= e1 <= 63,
                    b < (1u64 << jj),
            ;
        } else {
            let im1: u64 = (i - 1) as u64;
            let jp1: u64 = (j + 1) as u64;
            assert((a >> 1u64) < (1u64 << im1) && 2 <= ii && (b << 1u64) < (1u64 << jp1))
                by (bit_vector)
                requires
                    1 <= ii && 1 <= jj && ii + jj <= 64,
                    im1 == ii - 1,
                    jp1 == jj + 1,
                    a < (1u64 << ii),
                    b < (1u64 << jj),
                    (a >> 1u64) != 0,
            ;
            assert(a != 0 ==> (a >> 1u64) < a) by (bit_vector);
            lemma_pmul_bound(a >> 1u64, b << 1u64, (i - 1) as nat, (j + 1) as nat);
            let rest = pmul(a >> 1u64, b << 1u64);
            assert((b ^ rest) < (1u64 << e1) && (0u64 ^ rest) < (1u64 << e1)) by (bit_vector)
                requires
                    jj <= e1 <= 63,
                    b < (1u64 << jj),
                    rest < (1u64 << e1),
            ;
        }
    }
}

/// A reduction step treats an XOR of two values componentwise: the scanned
/// bit of `x ^ y` is the XOR of the scanned bits, and the cancelling terms
/// cancel each other.
proof fn lemma_reduce_step_linear(x: u64, y: u64, m: u64, n: nat, k: nat)
    requires
        n <= k <= 62,
    ensures
        reduce_step(x ^ y, m, n, k) == reduce_step(x, m, n, k) ^ reduce_step(y, m, n, k),
{
    let kk: u64 = k as u64;
    let sh: u64 = (k - n) as u64;
    let s: u64 = m << sh;
    assert((((x ^ y) >> kk) & 1) == (((x >> kk) & 1) ^ ((y >> kk) & 1)) && ((x >> kk) & 1 == 0 || (
    x >> kk) & 1 == 1) && ((y >> kk) & 1 == 0 || (y >> kk) & 1 == 1) && (1u64 ^ 1u64) == 0 && (1u64
        ^ 0u64) == 1 && (0u64 ^ 1u64) == 1 && (0u64 ^ 0u64) == 0) by (bit_vector);
    if (x >> kk) & 1 == 1 && (y >> kk) & 1 == 1 {
        assert((x ^ s) ^ (y ^ s) == x ^ y) by (bit_vector);
    } else if (x >> kk) & 1 == 1 {
        assert((x ^ y) ^ s == (x ^ s) ^ y) by (bit_vector);
    } else if (y >> kk) & 1 == 1 {
        assert((x ^ y) ^ s == x ^ (y ^ s)) by (bit_vector);
    }
}

/// Polynomial reduction is linear over XOR.
pub proof fn lemma_pmod_scan_linear(x: u64, y: u64, m: u64, n: nat, k: nat)
    requires
        1 <= n,
        k <= 62,
    ensures
        pmod_scan(x ^ y, m, n, k) == pmod_scan(x, m, n, k) ^ pmod_scan(y, m, n, k),
    decreases k,
{
    if k < n {
    } else {
        lemma_reduce_step_linear(x, y, m, n, k);
        lemma_pmod_scan_linear(
            reduce_step(x, m, n, k),
            reduce_step(y, m, n, k),
            m,
            n,
            (k - 1) as nat,
        );
    }
}

/// Carry-less multiplication distributes over XOR in its right operand.
pub proof fn lemma_pmul_distrib(a: u64, b: u64, c: u64)
    ensures
        pmul(a, b ^ c) == pmul(a, b) ^ pmul(a, c),
    decreases a,
{
    if a == 0 {
        assert((0u64 ^ 0u64) == 0) by (bit_vector);
    } else {
        assert(((b ^ c) << 1u64) == ((b << 1u64) ^ (c << 1u64)) && (a != 0 ==> (a >> 1u64) < a)
            && (0u64 ^ 0u64) == 0) by (bit_vector);
        lemma_pmul_distrib(a >> 1u64, b << 1u64, c << 1u64);
        let tb: u64 = if a & 1 == 1 {
            b
        } else {
            0u64
        };
        let tc: u64 = if a & 1 == 1 {
            c
        } else {
            0u64
        };
        let rb = pmul(a >> 1u64, b << 1u64);
        let rc = pmul(a >> 1u64, c << 1u64);
        assert(((tb ^ tc) ^ (rb ^ rc)) == ((tb ^ rb) ^ (tc ^ rc))) by (bit_vector);
    }
}

/// Law: multiplication distributes over addition in the polynomial model of
/// GF(2^n): the product against an XOR is the XOR of the products.
pub proof fn lemma_gf_mul_distrib(a: u64, b: u64, c: u64, m: u64, n: nat)
    requires
        1 <= n,
    ensures
        gf_mul(a, b ^ c, m, n) == gf_mul(a, b, m, n) ^ gf_mul(a, c, m, n),
{
    lemma_pmul_distrib(a, b, c);
    lemma_pmod_scan_linear(pmul(a, b), pmul(a, c), m, n, 62);
}

/// Multiplying by the constant one polynomial is the identity.
pub proof fn lemma_pmul_one_left(b: u64)
    ensures
        pmul(1, b) == b,
{
    assert(1u64 & 1 == 1 && 1u64 >> 1 == 0) by (bit_vector);
    assert(pmul(0, b << 1u64) == 0);
    assert(b ^ 0 == b) by (bit_vector);
}

/// XOR is associative; used to re-associate loop accumulators.
proof fn lemma_xor_assoc(x: u64, y: u64, z: u64)
    by (bit_vector)
    ensures
        (x ^ y) ^ z == x ^ (y ^ z),
{
}

/// Zero is the XOR identity.
proof fn lemma_xor_zero(x: u64)
    by (bit_vector)
    ensures
        0u64 ^ x == x,
        x ^ 0u64 == x,
{
}

/// Carry-less multiplication, the exec mirror of `pmul`: scan the bits of
/// `a` from least significant up, XOR-ing in a copy of `b` shifted to match.
pub fn clmul(a: u64, b: u64) -> (r: u64)
    ensures
        r == pmul(a, b),
{
    let mut acc: u64 = 0;
    let mut x: u64 = a;
    let mut y: u64 = b;
    proof {
        lemma_xor_zero(pmul(a, b));
    }
    while x > 0
        invariant
            acc ^ pmul(x, y) == pmul(a, b),
        decreases x,
    {
        let ghost x0: u64 = x;
        let ghost y0: u64 = y;
        let ghost acc0: u64 = acc;
        let ghost t: u64 = if x & 1 == 1 {
            y
        } else {
            0u64
        };
        if x & 1 == 1 {
            acc = acc ^ y;
        }
        proof {
            if x0 & 1 != 1 {
                assert(acc0 ^ 0 == acc0) by (bit_vector);
            }
            assert(pmul(x0, y0) == t ^ pmul(x0 >> 1u64, y0 << 1u64));
            lemma_xor_assoc(acc0, t, pmul(x0 >> 1u64, y0 << 1u64));
            assert(x0 != 0 ==> (x0 >> 1u64) < x0) by (bit_vector);
        }
        x = x >> 1u64;
        y = y << 1u64;
    }
    proof {
        assert(pmul(0, y) == 0);
        assert(acc ^ 0 == acc) by (bit_vector);
    }
    acc
}

/// Polynomial reduction, the exec mirror of `pmod`: scan bit positions 62
/// down to `n`, cancelling each set leading term with a shifted modulus.
pub fn reduce(a: u64, m: u64, n: u64) -> (r: u64)
    requires
        1 <= n <= 31,
        m >> n == 1,
        a < (1u64 << 63),
    ensures
        r == pmod(a, m, n as nat),
        r < (1u64 << n),
{
    let mut cur: u64 = a;
    let mut j: u64 = 0;
    while j < 63 - n
        invariant
            1 <= n <= 31,
            m >> n == 1,
            j <= 63 - n,
            cur < (1u64 << (63 - j)),
            pmod_scan(cur, m, n as nat, (62 - j) as nat) == pmod(a, m, n as nat),
        decreases 63 - n - j,
    {
        let k: u64 = 62 - j;
        let ghost cur0: u64 = cur;
        if (cur >> k) & 1 == 1 {
            cur = cur ^ (m << (k - n));
        }
        proof {
            assert(cur == reduce_step(cur0, m, n as nat, k as nat));
            lemma_reduce_step_bound(cur0, m, n as nat, k as nat);
            assert(pmod_scan(cur0, m, n as nat, k as nat) == pmod_scan(
                cur,
                m,
                n as nat,
                (k - 1) as nat,
            ));
        }
        j = j + 1;
    }
    proof {
        assert(pmod_scan(cur, m, n as nat, (n - 1) as nat) == cur);
    }
    cur
}

/// Multiplication in GF(2^n): carry-less product, then reduction modulo the
/// degree-`n` polynomial `m`. The heart of the one-time table build.
pub fn gf_multiply(a: u32, b: u32, m: u32, n: u32) -> (r: u32)
    requires
        1 <= n <= 31,
        m >> n == 1,
    ensures
        r as u64 == gf_mul(a as u64, b as u64, m as u64, n as nat),
        (r as u64) < (1u64 << (n as u64)),
        r < (1u32 << n),
{
    let nn: u64 = n as u64;
    proof {
        assert((m as u64) >> nn == 1 && (a as u64) < (1u64 << 32) && (b as u64) < (1u64 << 32))
            by (bit_vector)
            requires
                m >> n == 1,
                n < 32,
                nn == n as u64,
        ;
        lemma_pmul_bound(a as u64, b as u64, 32, 32);
    }
    let p: u64 = clmul(a as u64, b as u64);
    let r: u64 = reduce(p, m as u64, nn);
    proof {
        assert(r < (1u64 << nn) && nn <= 31 ==> r < 0x1_0000_0000 && (r as u32) < (1u32 << (
        nn as u32))) by (bit_vector);
    }
    r as u32
}

} // verus!
