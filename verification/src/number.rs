//! The whole part of a binary64 number, read from its bits.

use vstd::prelude::*;
use vstd::arithmetic::div_mod::{lemma_basic_div, lemma_div_nonincreasing};
use vstd::arithmetic::mul::lemma_mul_inequality;
use vstd::arithmetic::power2::{lemma2_to64, lemma2_to64_rest, lemma_pow2_strictly_increases, pow2};
use vstd::bits::{lemma_u64_shl_is_mul, lemma_u64_shr_is_div};

verus! {

/// The exponent field of a binary64 number: bits 52 to 62.
pub open spec fn exponent(bits: u64) -> nat {
    ((bits / 0x10_0000_0000_0000) % 0x800) as nat
}

/// The fraction field of a binary64 number: its low 52 bits.
pub open spec fn fraction(bits: u64) -> nat {
    (bits % 0x10_0000_0000_0000) as nat
}

/// Whether the sign bit is set.
pub open spec fn is_negative(bits: u64) -> bool {
    bits >= 0x8000_0000_0000_0000
}

/// Whether the bits stand for no number at all.
pub open spec fn is_nan(bits: u64) -> bool {
    exponent(bits) == 0x7ff && fraction(bits) != 0
}

/// The magnitude of the number, rounded down to a whole number. A number with
/// exponent field `e > 0` and fraction field `f` has the magnitude
/// `(2^52 + f) * 2^(e - 1075)`; with `e == 0` it is below one. An infinity
/// counts by the same formula, which puts it beyond every 64-bit integer.
pub open spec fn whole_magnitude(bits: u64) -> nat {
    let e = exponent(bits);
    let m = 0x10_0000_0000_0000 + fraction(bits);
    if e == 0 {
        0
    } else if e >= 1075 {
        m * pow2((e - 1075) as nat)
    } else {
        m / pow2((1075 - e) as nat)
    }
}

/// The number truncated toward zero, as a 64-bit integer: the nearest bound
/// where it lies beyond the integers' range, and zero where the bits stand
/// for no number.
pub open spec fn truncated(bits: u64) -> i64 {
    let w = whole_magnitude(bits);
    if is_nan(bits) {
        0
    } else if is_negative(bits) {
        if w >= 0x8000_0000_0000_0000 {
            i64::MIN
        } else {
            (-(w as int)) as i64
        }
    } else {
        if w > i64::MAX {
            i64::MAX
        } else {
            w as i64
        }
    }
}

/// Truncates the binary64 number with the given bits toward zero.
pub fn truncate(bits: u64) -> (r: i64)
    ensures
        r == truncated(bits),
{
    let e: u64 = (bits / 0x10_0000_0000_0000) % 0x800;
    let f: u64 = bits % 0x10_0000_0000_0000;
    let negative: bool = bits >= 0x8000_0000_0000_0000;
    let m: u64 = 0x10_0000_0000_0000 + f;
    proof {
        lemma2_to64();
        lemma2_to64_rest();
    }
    if e == 0x7ff && f != 0 {
        0
    } else if e < 1023 {
        proof {
            if e != 0 {
                let k = (1075 - e) as nat;
                if k > 53 {
                    lemma_pow2_strictly_increases(53, k);
                }
                lemma_basic_div(m as int, pow2(k) as int);
            }
        }
        0
    } else if e >= 1086 {
        proof {
            let k = (e - 1075) as nat;
            if k > 11 {
                lemma_pow2_strictly_increases(11, k);
            }
            lemma_mul_inequality(0x800, pow2(k) as int, m as int);
            assert(m * pow2(k) == pow2(k) * m) by (nonlinear_arith);
            assert(m * pow2(k) >= 0x800 * m);
        }
        if negative {
            i64::MIN
        } else {
            i64::MAX
        }
    } else {
        let w: u64 = if e >= 1075 {
            let k: u64 = e - 1075;
            proof {
                if k < 10 {
                    lemma_pow2_strictly_increases(k as nat, 10);
                }
                lemma_mul_inequality(pow2(k as nat) as int, 0x400, m as int);
                assert(m * pow2(k as nat) == pow2(k as nat) * m) by (nonlinear_arith);
                assert(m * pow2(k as nat) <= 0x400 * m);
                lemma_u64_shl_is_mul(m, k);
            }
            m << k
        } else {
            let k: u64 = 1075 - e;
            proof {
                lemma_u64_shr_is_div(m, k);
                lemma_div_nonincreasing(m as int, pow2(k as nat) as int);
            }
            m >> k
        };
        assert(w == whole_magnitude(bits));
        assert(w < 0x8000_0000_0000_0000);
        if negative {
            -(w as i64)
        } else {
            w as i64
        }
    }
}

} // verus!
