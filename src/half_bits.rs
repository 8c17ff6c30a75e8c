use vstd::prelude::*;

verus! {

/// Bits of the largest finite half-precision value.
pub const F16_MAX_BITS: u16 = 0x7bff;

/// Bits of the smallest (most negative) finite half-precision value.
pub const F16_MIN_BITS: u16 = 0xfbff;

/// Bits of positive zero.
pub const F16_ZERO_BITS: u16 = 0;

/// The half-precision value with bits `b` is NaN: all exponent bits set and a
/// non-zero mantissa.
pub open spec fn is_nan_bits(b: u16) -> bool {
    b & 0x7fff > 0x7c00
}

/// The half-precision value with bits `b` is an infinity: all exponent bits
/// set and a zero mantissa.
pub open spec fn is_infinite_bits(b: u16) -> bool {
    b & 0x7fff == 0x7c00
}

/// The half-precision value with bits `b` is neither infinite nor NaN.
pub open spec fn is_finite_bits(b: u16) -> bool {
    b & 0x7c00 != 0x7c00
}

/// The sign bit of the half-precision value with bits `b` is set.
pub open spec fn is_sign_negative_bits(b: u16) -> bool {
    b & 0x8000 != 0
}

/// Every bit pattern is exactly one of finite, infinite and NaN.
pub proof fn lemma_bits_classified(b: u16)
    ensures
        is_finite_bits(b) <==> !is_infinite_bits(b) && !is_nan_bits(b),
        !(is_infinite_bits(b) && is_nan_bits(b)),
{
    assert((b & 0x7c00 != 0x7c00) <==> !(b & 0x7fff == 0x7c00) && !(b & 0x7fff > 0x7c00))
        by (bit_vector);
}

/// Maps any bit pattern to a finite half-precision value: finite values are
/// kept, positive infinity becomes the largest finite value, negative infinity
/// the smallest, and NaN becomes zero.
pub fn finite_f16_bits(bits: u16) -> (r: u16)
    ensures
        is_finite_bits(r),
        is_finite_bits(bits) ==> r == bits,
        is_infinite_bits(bits) && !is_sign_negative_bits(bits) ==> r == F16_MAX_BITS,
        is_infinite_bits(bits) && is_sign_negative_bits(bits) ==> r == F16_MIN_BITS,
        is_nan_bits(bits) ==> r == F16_ZERO_BITS,
{
    proof {
        lemma_bits_classified(bits);
        assert(0x7bffu16 & 0x7c00 != 0x7c00 && 0xfbffu16 & 0x7c00 != 0x7c00 && 0u16 & 0x7c00
            != 0x7c00) by (bit_vector);
    }
    let magnitude = bits & 0x7fff;
    if magnitude == 0x7c00 && bits & 0x8000 == 0 {
        F16_MAX_BITS
    } else if magnitude == 0x7c00 {
        F16_MIN_BITS
    } else if magnitude > 0x7c00 {
        F16_ZERO_BITS
    } else {
        bits
    }
}

} // verus!
