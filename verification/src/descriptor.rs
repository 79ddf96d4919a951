//! Field descriptor and its validator: a degree `n`, a reduction polynomial
//! of degree exactly `n` that passes trial division (no factor of degree
//! 1..=n/2), and a generator whose multiplicative order is exactly `2^n - 1`.

use vstd::prelude::*;
use crate::poly::{pmod, gf_pow, gf_multiply, reduce};

verus! {

/// Number of elements of GF(2^n).
pub open spec fn field_size(n: nat) -> int {
    (1u64 << (n as u64)) as int
}

/// Order of the multiplicative group of GF(2^n): every nonzero element.
pub open spec fn mult_order(n: nat) -> int {
    field_size(n) - 1
}

/// The modulus has degree exactly `n`: its leading coefficient is bit `n`.
pub open spec fn degree_exact(m: u64, n: nat) -> bool {
    m >> (n as u64) == 1
}

/// Trial division finds no factor: no polynomial of degree 1..=n/2 divides
/// `m`. A reducible polynomial of degree `n` always has such a factor.
pub open spec fn passes_trial_division(m: u64, n: nat) -> bool {
    forall|d: u64, e: nat|
        1 <= e && 2 * e <= n && d >> (e as u64) == 1 ==> #[trigger] pmod(m, d, e) != 0
}

/// The generator is a field element other than zero.
pub open spec fn generator_in_range(g: u64, n: nat) -> bool {
    1 <= g < field_size(n)
}

/// The generator's multiplicative order is exactly `2^n - 1`: its powers
/// first return to one at exponent `2^n - 1`.
pub open spec fn order_is_maximal(g: u64, m: u64, n: nat) -> bool {
    &&& gf_pow(g, mult_order(n) as nat, m, n) == 1
    &&& forall|k: nat| 1 <= k < mult_order(n) ==> #[trigger] gf_pow(g, k, m, n) != 1
}

/// Everything the validator confirms of a `(degree, modulus, generator)`
/// triple.
pub open spec fn valid_triple(n: nat, m: u64, g: u64) -> bool {
    &&& 1 <= n <= 31
    &&& degree_exact(m, n)
    &&& passes_trial_division(m, n)
    &&& generator_in_range(g, n)
    &&& order_is_maximal(g, m, n)
}

/// The canonical reduction polynomial for each degree up to 16: a primitive
/// polynomial, so that the canonical generator 2 (the polynomial x) has
/// maximal order.
pub open spec fn spec_default_modulus(n: nat) -> u32 {
    if n == 1 {
        3u32
    } else if n == 2 {
        7u32
    } else if n == 3 {
        11u32
    } else if n == 4 {
        19u32
    } else if n == 5 {
        37u32
    } else if n == 6 {
        67u32
    } else if n == 7 {
        131u32
    } else if n == 8 {
        285u32
    } else if n == 9 {
        529u32
    } else if n == 10 {
        1033u32
    } else if n == 11 {
        2053u32
    } else if n == 12 {
        4179u32
    } else if n == 13 {
        8219u32
    } else if n == 14 {
        17475u32
    } else if n == 15 {
        32771u32
    } else if n == 16 {
        69643u32
    } else {
        0u32
    }
}

/// The canonical generator: the polynomial x (encoded 2), except in GF(2),
/// whose only nonzero element is 1.
pub open spec fn spec_default_generator(n: nat) -> u32 {
    if n == 1 {
        1u32
    } else {
        2u32
    }
}

/// The canonical degree-n reduction polynomial, for degrees up to 16.
pub fn default_modulus(n: u32) -> (r: u32)
    requires
        1 <= n <= 16,
    ensures
        r == spec_default_modulus(n as nat),
        degree_exact(r as u64, n as nat),
{
    proof {
        assert((3u64 >> 1) == 1 && (7u64 >> 2) == 1 && (11u64 >> 3) == 1 && (19u64 >> 4) == 1 && (
        37u64 >> 5) == 1 && (67u64 >> 6) == 1 && (131u64 >> 7) == 1 && (285u64 >> 8) == 1 && (
        529u64 >> 9) == 1 && (1033u64 >> 10) == 1 && (2053u64 >> 11) == 1 && (4179u64 >> 12) == 1
            && (8219u64 >> 13) == 1 && (17475u64 >> 14) == 1 && (32771u64 >> 15) == 1 && (69643u64
            >> 16) == 1) by (bit_vector);
    }
    match n {
        1 => 3,
        2 => 7,
        3 => 11,
        4 => 19,
        5 => 37,
        6 => 67,
        7 => 131,
        8 => 285,
        9 => 529,
        10 => 1033,
        11 => 2053,
        12 => 4179,
        13 => 8219,
        14 => 17475,
        15 => 32771,
        _ => 69643,
    }
}

/// The canonical generator for a degree-n field.
pub fn default_generator(n: u32) -> (r: u32)
    requires
        1 <= n <= 31,
    ensures
        r == spec_default_generator(n as nat),
{
    if n == 1 {
        1
    } else {
        2
    }
}

/// Construction-time validation failure; carries the offending value.
#[derive(Clone, Copy, Debug, PartialEq, Eq, Structural)]
pub enum FieldError {
    /// The modulus is not an irreducible polynomial of the requested degree.
    ReducibleModulus(u32),
    /// The generator's multiplicative order is not `2^n - 1`.
    NonPrimitiveGenerator(u32),
}

/// A validated field description: degree, reduction polynomial, generator.
/// Immutable once produced by `validate`.
#[derive(Clone, Copy, Debug, PartialEq, Eq, Structural)]
pub struct Descriptor {
    pub degree: u32,
    pub modulus: u32,
    pub generator: u32,
}

impl Descriptor {
    /// The validator's guarantee, as a predicate on the stored triple.
    pub open spec fn wf(self) -> bool {
        valid_triple(self.degree as nat, self.modulus as u64, self.generator as u64)
    }
}

/// Check the triple: the modulus must be an irreducible polynomial of degree
/// exactly `n`, and the generator a primitive element, that is, of
/// multiplicative order exactly `2^n - 1`. Returns the validated descriptor,
/// or the error naming the first offending input.
pub fn validate(n: u32, modulus: u32, generator: u32) -> (r: Result<Descriptor, FieldError>)
    requires
        1 <= n <= 31,
    ensures
        r is Ok <==> valid_triple(n as nat, modulus as u64, generator as u64),
        match r {
            Ok(d) => d.degree == n && d.modulus == modulus && d.generator == generator && d.wf(),
            Err(FieldError::ReducibleModulus(v)) => v == modulus && !(degree_exact(
                modulus as u64,
                n as nat,
            ) && passes_trial_division(modulus as u64, n as nat)),
            Err(FieldError::NonPrimitiveGenerator(v)) => v == generator && degree_exact(
                modulus as u64,
                n as nat,
            ) && passes_trial_division(modulus as u64, n as nat) && !(generator_in_range(
                generator as u64,
                n as nat,
            ) && order_is_maximal(generator as u64, modulus as u64, n as nat)),
        },
{
    // Degree check: the leading coefficient must sit at bit n exactly.
    if (modulus >> n) != 1 {
        proof {
            assert((modulus >> n) != 1 ==> (modulus as u64) >> (n as u64) != 1) by (bit_vector)
                requires
                    n < 32,
            ;
        }
        return Err(FieldError::ReducibleModulus(modulus));
    }
    proof {
        assert((modulus >> n) == 1 ==> (modulus as u64) >> (n as u64) == 1) by (bit_vector)
            requires
                n < 32,
        ;
    }
    // Trial division by every polynomial of degree 1..=n/2.
    let half: u32 = n / 2;
    let mut e: u32 = 1;
    while e <= half
        invariant
            1 <= n <= 31,
            half == n / 2,
            1 <= e <= half + 1,
            forall|dd: u64, ee: nat|
                1 <= ee < e && dd >> (ee as u64) == 1 ==> #[trigger] pmod(
                    modulus as u64,
                    dd,
                    ee,
                ) != 0,
        decreases half + 1 - e,
    {
        let mut d: u32 = 1u32 << e;
        let lim: u32 = 1u32 << (e + 1);
        proof {
            assert((1u32 << e) < (1u32 << (e + 1)) && (1u32 << e) >= 1) by (bit_vector)
                requires
                    1 <= e <= 15,
            ;
            assert forall|dd: u64| #[trigger] (dd >> (e as u64)) == 1 implies dd >= ((1u32 << e)
                as u64) by {
                assert(dd >> (e as u64) == 1 ==> dd >= ((1u32 << e) as u64)) by (bit_vector)
                    requires
                        1 <= e <= 15,
                ;
            }
        }
        while d < lim
            invariant
                1 <= n <= 31,
                1 <= e <= n / 2,
                lim == (1u32 << (e + 1)),
                (1u32 << e) <= d <= lim,
                forall|dd: u64, ee: nat|
                    1 <= ee < e && dd >> (ee as u64) == 1 ==> #[trigger] pmod(
                        modulus as u64,
                        dd,
                        ee,
                    ) != 0,
                forall|dd: u64|
                    dd >> (e as u64) == 1 && dd < d as u64 ==> #[trigger] pmod(
                        modulus as u64,
                        dd,
                        e as nat,
                    ) != 0,
            decreases lim - d,
        {
            proof {
                assert((d as u64) >> (e as u64) == 1 && (modulus as u64) < (1u64 << 63))
                    by (bit_vector)
                    requires
                        1 <= e <= 15,
                        (1u32 << e) <= d < (1u32 << (e + 1)),
                ;
            }
            let rem: u64 = reduce(modulus as u64, d as u64, e as u64);
            if rem == 0 {
                return Err(FieldError::ReducibleModulus(modulus));
            }
            d = d + 1;
        }
        proof {
            assert forall|dd: u64, ee: nat|
                1 <= ee < e + 1 && dd >> (ee as u64) == 1 implies #[trigger] pmod(
                modulus as u64,
                dd,
                ee,
            ) != 0 by {
                if ee == e as nat {
                    assert(dd >> (e as u64) == 1 ==> dd < ((1u32 << (e + 1)) as u64))
                        by (bit_vector)
                        requires
                            1 <= e <= 15,
                    ;
                }
            }
        }
        e = e + 1;
    }
    proof {
        assert forall|dd: u64, ee: nat|
            1 <= ee && 2 * ee <= n as nat && dd >> (ee as u64) == 1 implies #[trigger] pmod(
            modulus as u64,
            dd,
            ee,
        ) != 0 by {
            assert(ee <= (n / 2) as nat);
        }
    }
    // Generator range: nonzero and below 2^n.
    proof {
        assert(((generator == 0 || (generator >> n) != 0) <==> !(1u64 <= generator as u64
            && (generator as u64) < (1u64 << (n as u64)))) && (1u64 << (n as u64)) == ((1u32
            << n) as u64)) by (bit_vector)
            requires
                1 <= n <= 31,
        ;
    }
    if generator == 0 || (generator >> n) != 0 {
        return Err(FieldError::NonPrimitiveGenerator(generator));
    }
    // Order check: powers of the generator must first return to one exactly
    // at exponent 2^n - 1.
    let size: u32 = 1u32 << n;
    let ord: u32 = size - 1;
    proof {
        assert((1u32 << n) >= 2) by (bit_vector)
            requires
                1 <= n <= 31,
        ;
    }
    let mut cur: u32 = 1;
    let mut k: u32 = 0;
    while k < ord
        invariant
            1 <= n <= 31,
            (modulus as u64) >> (n as u64) == 1,
            modulus >> n == 1,
            passes_trial_division(modulus as u64, n as nat),
            generator_in_range(generator as u64, n as nat),
            ord as int == mult_order(n as nat),
            k <= ord,
            cur as u64 == gf_pow(generator as u64, k as nat, modulus as u64, n as nat),
            forall|t: nat|
                1 <= t < k as nat ==> #[trigger] gf_pow(
                    generator as u64,
                    t,
                    modulus as u64,
                    n as nat,
                ) != 1,
            (1 <= k && k < ord) ==> cur != 1,
        decreases ord - k,
    {
        cur = gf_multiply(cur, generator, modulus, n);
        k = k + 1;
        proof {
            assert(cur as u64 == gf_pow(generator as u64, k as nat, modulus as u64, n as nat));
        }
        if cur == 1 && k < ord {
            proof {
                assert(!order_is_maximal(generator as u64, modulus as u64, n as nat));
            }
            return Err(FieldError::NonPrimitiveGenerator(generator));
        }
    }
    if cur != 1 {
        return Err(FieldError::NonPrimitiveGenerator(generator));
    }
    Ok(Descriptor { degree: n, modulus, generator })
}

} // verus!
