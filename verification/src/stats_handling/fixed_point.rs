//! Readings that arrive as binary floating-point numbers, taken in as whole
//! millionths.
//!
//! A binary64 number is read from its 64 bits: the sign in the highest bit,
//! then eleven bits of exponent, then 52 bits of fraction. Nothing here
//! computes in floating point.

use vstd::prelude::*;
use vstd::arithmetic::div_mod::*;
use vstd::arithmetic::power2::{
    lemma2_to64,
    lemma_pow2_adds,
    lemma_pow2_pos,
    lemma_pow2_strictly_increases,
    lemma_pow2_unfold,
    pow2,
};

verus! {

/// Millionths in one.
pub const MILLION: u128 = 1_000_000;

/// Two to the power of 52: the bit that stands before the fraction of a
/// normal number.
pub const HIDDEN_BIT: u64 = 0x10_0000_0000_0000;

/// The bit of the sign.
pub const SIGN_BIT: u64 = 0x8000_0000_0000_0000;

/// The exponent field of `bits`.
pub open spec fn exponent_of(bits: u64) -> nat {
    ((bits / HIDDEN_BIT) % 2048) as nat
}

/// The fraction field of `bits`.
pub open spec fn fraction_of(bits: u64) -> nat {
    (bits % HIDDEN_BIT) as nat
}

/// How many millionths the magnitude of a finite number holds, rounded
/// down. A number with the exponent field `e` and the fraction `f` is
/// `(2^52 + f) * 2^(e - 1075)`, and `f * 2^(-1074)` where `e` is zero.
pub open spec fn magnitude_millionths(bits: u64) -> nat
    recommends
        exponent_of(bits) != 2047,
{
    let exponent = exponent_of(bits);
    let fraction = fraction_of(bits);
    if exponent == 0 {
        fraction * MILLION as nat / pow2(1074)
    } else if exponent >= 1075 {
        (HIDDEN_BIT as nat + fraction) * MILLION as nat * pow2((exponent - 1075) as nat)
    } else {
        (HIDDEN_BIT as nat + fraction) * MILLION as nat / pow2((1075 - exponent) as nat)
    }
}

/// The binary64 number `bits` in millionths, rounded toward zero. A
/// magnitude beyond `i64::MAX`, that of infinity included, counts as
/// `i64::MAX`, and what is no number counts as zero.
pub open spec fn float_millionths(bits: u64) -> i64 {
    let limited: i64 = if exponent_of(bits) == 2047 {
        if fraction_of(bits) == 0 {
            i64::MAX
        } else {
            0
        }
    } else if magnitude_millionths(bits) > i64::MAX {
        i64::MAX
    } else {
        magnitude_millionths(bits) as i64
    };
    if bits >= SIGN_BIT {
        (-limited) as i64
    } else {
        limited
    }
}

/// Two to the power of 74, which no significand in millionths reaches.
proof fn lemma_pow2_74()
    ensures
        pow2(74) == 0x400_0000_0000_0000_0000,
{
    lemma2_to64();
    lemma_pow2_adds(64, 10);
    assert(0x10000000000000000 * 0x400 == 0x400_0000_0000_0000_0000) by (nonlinear_arith);
}

/// Two to the power of `shift`, for a power below the 74th.
fn power_of_two(shift: u64) -> (power: u128)
    requires
        shift < 74,
    ensures
        power == pow2(shift as nat),
        power < 0x400_0000_0000_0000_0000,
{
    let mut power: u128 = 1;
    let mut i: u64 = 0;
    proof {
        lemma2_to64();
        lemma_pow2_74();
    }
    while i < shift
        invariant
            i <= shift < 74,
            power == pow2(i as nat),
            pow2(74) == 0x400_0000_0000_0000_0000,
        decreases shift - i,
    {
        proof {
            lemma_pow2_unfold((i + 1) as nat);
            lemma_pow2_strictly_increases((i + 1) as nat, 74);
        }
        power = power * 2;
        i = i + 1;
    }
    proof {
        lemma_pow2_strictly_increases(shift as nat, 74);
    }
    power
}

/// Reads the binary64 number `bits` in millionths.
pub fn millionths(bits: u64) -> (reading: i64)
    ensures
        reading == float_millionths(bits),
{
    let exponent: u64 = (bits / HIDDEN_BIT) % 2048;
    let fraction: u64 = bits % HIDDEN_BIT;
    let limited: i64 = if exponent == 2047 {
        if fraction == 0 {
            i64::MAX
        } else {
            0
        }
    } else if exponent == 0 {
        proof {
            lemma_pow2_74();
            lemma_pow2_strictly_increases(74, 1074);
            assert(fraction * MILLION < 0x400_0000_0000_0000_0000) by (nonlinear_arith)
                requires
                    fraction < 0x10_0000_0000_0000,
                    MILLION == 1_000_000,
            ;
            lemma_basic_div((fraction * MILLION) as int, pow2(1074) as int);
        }
        0
    } else if exponent >= 1075 {
        proof {
            let power = pow2((exponent - 1075) as nat);
            lemma_pow2_pos((exponent - 1075) as nat);
            assert((HIDDEN_BIT + fraction) * MILLION * power > i64::MAX) by (nonlinear_arith)
                requires
                    HIDDEN_BIT == 0x10_0000_0000_0000,
                    MILLION == 1_000_000,
                    fraction >= 0,
                    power >= 1,
            ;
        }
        i64::MAX
    } else {
        let shift: u64 = 1075 - exponent;
        let scaled: u128 = (HIDDEN_BIT as u128 + fraction as u128) * MILLION;
        assert(scaled < 0x400_0000_0000_0000_0000) by (nonlinear_arith)
            requires
                scaled == (HIDDEN_BIT + fraction) * MILLION,
                HIDDEN_BIT == 0x10_0000_0000_0000,
                fraction < 0x10_0000_0000_0000,
                MILLION == 1_000_000,
        ;
        if shift >= 74 {
            proof {
                lemma_pow2_74();
                if shift > 74 {
                    lemma_pow2_strictly_increases(74, shift as nat);
                }
                lemma_basic_div(scaled as int, pow2(shift as nat) as int);
            }
            0
        } else {
            let power = power_of_two(shift);
            proof {
                lemma_pow2_pos(shift as nat);
                lemma_div_pos_is_pos(scaled as int, power as int);
            }
            let whole: u128 = scaled / power;
            if whole > i64::MAX as u128 {
                i64::MAX
            } else {
                whole as i64
            }
        }
    };
    if bits >= SIGN_BIT {
        -limited
    } else {
        limited
    }
}

} // verus!
