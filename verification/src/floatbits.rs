//! Integer semantics of IEEE-754 binary64 bit patterns.
//!
//! The crate carries every floating-point quantity as its bit pattern, so the
//! one conversion the integer-side logic needs — rounding a value toward zero
//! into `u64`, saturating at the ends — is defined here directly over the
//! sign, exponent and fraction fields.  This is the projection every model
//! uses to turn a real-valued prediction into an index: negative values and
//! NaN go to zero, values at or above 2^64 go to `u64::MAX`, and anything
//! else keeps its integer part, so it equals `floor(max(0, x))` clamped into
//! the `u64` range.

use vstd::prelude::*;

verus! {

/// Biased exponent field of a binary64 bit pattern.
pub open spec fn f64_bits_exp(bits: u64) -> u64 {
    (bits >> 52) & 0x7ff
}

/// Fraction field of a binary64 bit pattern.
pub open spec fn f64_bits_frac(bits: u64) -> u64 {
    bits & 0xf_ffff_ffff_ffff
}

/// The value of a binary64 bit pattern, rounded toward zero into `u64`.
///
/// Negative values, NaN and everything below 1 give 0; positive infinity and
/// finite values at or above 2^64 give `u64::MAX`; otherwise the significand
/// `2^52 + frac` is shifted by the unbiased exponent.
pub open spec fn f64_bits_trunc(bits: u64) -> u64 {
    let e = f64_bits_exp(bits);
    let m = f64_bits_frac(bits);
    if bits >> 63 == 1 {
        0
    } else if e == 0x7ff {
        if m == 0 {
            u64::MAX
        } else {
            0
        }
    } else if e < 1023 {
        0
    } else if e >= 1087 {
        u64::MAX
    } else {
        let full = m | 0x10_0000_0000_0000;
        if e >= 1075 {
            full << (e - 1075)
        } else {
            full >> (1075 - e)
        }
    }
}

/// Round the value carried by a binary64 bit pattern toward zero into `u64`.
///
/// This is both the `key as u64` conversion for float keys and the
/// `floor(max(0, prediction))` projection from a real-valued prediction to an
/// index, saturated to the `u64` range.
pub fn f64_bits_to_u64_trunc(bits: u64) -> (r: u64)
    ensures
        r == f64_bits_trunc(bits),
{
    let e = (bits >> 52) & 0x7ff;
    let m = bits & 0xf_ffff_ffff_ffff;
    if bits >> 63 == 1 {
        0
    } else if e == 0x7ff {
        if m == 0 {
            u64::MAX
        } else {
            0
        }
    } else if e < 1023 {
        0
    } else if e >= 1087 {
        u64::MAX
    } else {
        let full = m | 0x10_0000_0000_0000;
        if e >= 1075 {
            proof {
                assert(e - 1075 < 64) by (bit_vector)
                    requires
                        1075 <= e < 1087,
                ;
            }
            full << ((e - 1075) as usize as u64)
        } else {
            proof {
                assert(1075 - e < 64) by (bit_vector)
                    requires
                        1023 <= e < 1075,
                ;
            }
            full >> ((1075 - e) as u64)
        }
    }
}

} // verus!
