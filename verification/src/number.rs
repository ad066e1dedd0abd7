//! JSON numbers, and which integer one is.

use vstd::prelude::*;
use vstd::arithmetic::power2::pow2;
use vstd::arithmetic::power2::lemma_pow2_pos;
use vstd::arithmetic::power2::lemma_pow2_unfold;
use vstd::arithmetic::power2::lemma_pow2_strictly_increases;
use vstd::arithmetic::power2::lemma2_to64;
use vstd::arithmetic::power2::lemma2_to64_rest;

verus! {

/// A JSON number, in one of the three shapes a parser hands out.
#[derive(Clone, Copy, Debug, PartialEq, Eq)]
pub enum Number {
    /// A non-negative integer.
    PosInt(u64),
    /// An integer, by convention a negative one.
    NegInt(i64),
    /// Any other number, as the bit pattern of an IEEE 754 binary64.
    Float(u64),
}

/// Two to the power 52: the weight of a binary64's hidden bit.
pub const HIDDEN_BIT: u64 = 0x10_0000_0000_0000;

/// Two to the power 63: the weight of a binary64's sign bit.
pub const SIGN_BIT: u64 = 0x8000_0000_0000_0000;

/// Whether the sign bit of a binary64 is set.
pub open spec fn binary64_negative(bits: u64) -> bool {
    bits >= SIGN_BIT
}

/// The biased exponent of a binary64: its bits 52 to 62.
pub open spec fn binary64_exponent(bits: u64) -> int {
    ((bits / HIDDEN_BIT) % 2048) as int
}

/// The fraction of a binary64: its low 52 bits.
pub open spec fn binary64_fraction(bits: u64) -> int {
    (bits % HIDDEN_BIT) as int
}

/// The integer that `m * 2^e` is, if it is one.
pub open spec fn scaled_integer(m: nat, e: int) -> Option<int> {
    if e >= 0 {
        Some(m as int * pow2(e as nat) as int)
    } else if m % pow2((-e) as nat) == 0 {
        Some(m as int / pow2((-e) as nat) as int)
    } else {
        None
    }
}

/// The integer that a binary64 denotes, if it denotes one. Infinities and
/// NaNs denote none; both zeros denote 0.
pub open spec fn binary64_integer(bits: u64) -> Option<int> {
    let e = binary64_exponent(bits);
    let f = binary64_fraction(bits);
    if e == 2047 {
        None
    } else {
        let magnitude = if e == 0 {
            scaled_integer(f as nat, -1074)
        } else {
            scaled_integer((f + HIDDEN_BIT) as nat, e - 1075)
        };
        match magnitude {
            Some(v) => Some(
                if binary64_negative(bits) {
                    -v
                } else {
                    v
                },
            ),
            None => None,
        }
    }
}

impl Number {
    /// The integer that this number is, if its fractional part is zero.
    pub open spec fn integer_value(self) -> Option<int> {
        match self {
            Number::PosInt(u) => Some(u as int),
            Number::NegInt(i) => Some(i as int),
            Number::Float(bits) => binary64_integer(bits),
        }
    }

    /// Whether this number is an integer between `min` and `max`.
    pub fn is_integer_within(&self, min: i64, max: i64) -> (ok: bool)
        ensures
            ok == (self.integer_value() matches Some(v) && min <= v <= max),
    {
        match self {
            Number::PosInt(u) => max >= 0 && min as i128 <= *u as i128 && *u as i128 <= max as i128,
            Number::NegInt(i) => min <= *i && *i <= max,
            Number::Float(bits) => binary64_is_integer_within(*bits, min, max),
        }
    }
}

/// Two to the power `k`.
fn power_of_two(k: u64) -> (p: u64)
    requires
        k < 64,
    ensures
        p == pow2(k as nat),
        p >= 1,
{
    let mut p: u64 = 1;
    let mut i: u64 = 0;
    proof {
        lemma2_to64();
    }
    while i < k
        invariant
            i <= k,
            k < 64,
            p == pow2(i as nat),
            p >= 1,
        decreases k - i,
    {
        proof {
            lemma_pow2_unfold((i + 1) as nat);
            lemma_pow2_strictly_increases((i + 1) as nat, 64);
            lemma2_to64_rest();
        }
        p = p * 2;
        i = i + 1;
    }
    p
}

/// Whether a binary64 denotes an integer between `min` and `max`.
pub fn binary64_is_integer_within(bits: u64, min: i64, max: i64) -> (ok: bool)
    ensures
        ok == (binary64_integer(bits) matches Some(v) && min <= v <= max),
{
    let negative = bits >= SIGN_BIT;
    let e = (bits / HIDDEN_BIT) % 2048;
    let f = bits % HIDDEN_BIT;
    if e == 2047 {
        return false;
    }
    if e == 0 {
        proof {
            lemma2_to64_rest();
            lemma_pow2_strictly_increases(52, 1074);
            if f != 0 {
                vstd::arithmetic::div_mod::lemma_small_mod(f as nat, pow2(1074));
            } else {
                lemma_pow2_pos(1074);
                assert(0int / (pow2(1074) as int) == 0) by (nonlinear_arith)
                    requires
                        pow2(1074) > 0,
                ;
            }
        }
        return f == 0 && min <= 0 && 0 <= max;
    }
    let m = f + HIDDEN_BIT;
    if e >= 1075 {
        let k = e - 1075;
        if k > 11 {
            proof {
                lemma2_to64();
                if k > 12 {
                    lemma_pow2_strictly_increases(12, k as nat);
                }
                assert(m * pow2(k as nat) >= 0x10_0000_0000_0000 * 4096) by (nonlinear_arith)
                    requires
                        m >= 0x10_0000_0000_0000,
                        pow2(k as nat) >= 4096,
                ;
            }
            return false;
        }
        let p = power_of_two(k);
        proof {
            lemma2_to64();
            if k < 11 {
                lemma_pow2_strictly_increases(k as nat, 11);
            }
            assert(m * p <= 0x20_0000_0000_0000 * 2048) by (nonlinear_arith)
                requires
                    m < 0x20_0000_0000_0000,
                    p <= 2048,
            ;
        }
        let magnitude: i128 = m as i128 * p as i128;
        let v: i128 = if negative {
            -magnitude
        } else {
            magnitude
        };
        min as i128 <= v && v <= max as i128
    } else {
        let k = 1075 - e;
        if k > 52 {
            proof {
                lemma2_to64_rest();
                if k > 53 {
                    lemma_pow2_strictly_increases(53, k as nat);
                }
                vstd::arithmetic::div_mod::lemma_small_mod(m as nat, pow2(k as nat));
            }
            return false;
        }
        let p = power_of_two(k);
        if m % p != 0 {
            return false;
        }
        let magnitude: i64 = (m / p) as i64;
        let v: i64 = if negative {
            -magnitude
        } else {
            magnitude
        };
        min <= v && v <= max
    }
}

} // verus!
