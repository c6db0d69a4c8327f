//! IEEE-754 binary32 numbers as their bit patterns.
//!
//! A pattern is what `f32::to_bits` returns. The comparisons below are
//! the IEEE comparisons: a NaN compares with nothing, and the two zeros
//! are equal.

use vstd::prelude::*;

verus! {

/// `0.0`
pub const ZERO: u32 = 0x0000_0000;

/// `1.0`
pub const ONE: u32 = 0x3f80_0000;

/// `-0.5`
pub const NEG_HALF: u32 = 0xbf00_0000;

/// `1/sqrt(2)`, rounded to binary32.
pub const FRAC_1_SQRT_2: u32 = 0x3f35_04f3;

/// `-1/sqrt(2)`, rounded to binary32.
pub const NEG_FRAC_1_SQRT_2: u32 = 0xbf35_04f3;

/// `2*pi`, rounded to binary32.
pub const TWO_PI: u32 = 0x40c9_0fdb;

/// `pi/2`, rounded to binary32.
pub const FRAC_PI_2: u32 = 0x3fc9_0fdb;

/// `-pi/2`, rounded to binary32.
pub const NEG_FRAC_PI_2: u32 = 0xbfc9_0fdb;

/// The pattern of positive infinity: the largest magnitude that is a number.
pub const INFINITY: u32 = 0x7f80_0000;

/// The lowest pattern with the sign bit set (`-0.0`).
pub const SIGN_BIT: u32 = 0x8000_0000;

/// The pattern without its sign bit.
pub open spec fn magnitude(bits: u32) -> int {
    bits as int % 0x8000_0000
}

/// The sign bit is set.
pub open spec fn sign_set(bits: u32) -> bool {
    bits >= SIGN_BIT
}

/// The pattern is a NaN: its magnitude lies above that of infinity.
pub open spec fn is_nan(bits: u32) -> bool {
    magnitude(bits) > INFINITY
}

/// An integer that orders the numbers as IEEE-754 does: the magnitude,
/// negated where the sign bit is set. Both zeros map to 0.
pub open spec fn order_key(bits: u32) -> int {
    if sign_set(bits) {
        -magnitude(bits)
    } else {
        magnitude(bits)
    }
}

/// `a < b` as floating-point numbers.
pub open spec fn lt(a: u32, b: u32) -> bool {
    !is_nan(a) && !is_nan(b) && order_key(a) < order_key(b)
}

/// `a == b` as floating-point numbers.
pub open spec fn eq(a: u32, b: u32) -> bool {
    !is_nan(a) && !is_nan(b) && order_key(a) == order_key(b)
}

/// The number limited to `[0, 1]`: 0 where it is below 0, 1 where it is
/// above 1, and itself otherwise (a NaN and `-0.0` stay as they are).
pub open spec fn clamp_unit(bits: u32) -> u32 {
    if lt(bits, ZERO) {
        ZERO
    } else if lt(ONE, bits) {
        ONE
    } else {
        bits
    }
}

/// Whether the pattern is a NaN.
pub fn nan(bits: u32) -> (r: bool)
    ensures
        r == is_nan(bits),
{
    bits % SIGN_BIT > INFINITY
}

/// Whether `a < b` as floating-point numbers.
pub fn less_than(a: u32, b: u32) -> (r: bool)
    ensures
        r == lt(a, b),
{
    if nan(a) || nan(b) {
        return false;
    }
    let ma: u32 = a % SIGN_BIT;
    let mb: u32 = b % SIGN_BIT;
    if a >= SIGN_BIT {
        if b >= SIGN_BIT {
            mb < ma
        } else {
            ma > 0 || mb > 0
        }
    } else {
        if b >= SIGN_BIT {
            false
        } else {
            ma < mb
        }
    }
}

/// Whether the number equals 1.
pub fn is_one(bits: u32) -> (r: bool)
    ensures
        r == eq(bits, ONE),
        r == (bits == ONE),
{
    bits == ONE
}

/// Whether the number is greater than 0.
pub fn is_positive(bits: u32) -> (r: bool)
    ensures
        r == lt(ZERO, bits),
        r == (0 < bits <= INFINITY),
{
    0 < bits && bits <= INFINITY
}

/// Limits the number to `[0, 1]`.
pub fn clamp_to_unit(bits: u32) -> (r: u32)
    ensures
        r == clamp_unit(bits),
{
    if less_than(bits, ZERO) {
        ZERO
    } else if less_than(ONE, bits) {
        ONE
    } else {
        bits
    }
}

/// A clamped number is a NaN or lies in `[0, 1]`, and clamping it again
/// changes nothing.
pub proof fn lemma_clamp_unit_range(bits: u32)
    ensures
        is_nan(bits) ==> clamp_unit(bits) == bits,
        !is_nan(bits) ==> !lt(clamp_unit(bits), ZERO) && !lt(ONE, clamp_unit(bits)),
        clamp_unit(clamp_unit(bits)) == clamp_unit(bits),
{
}

} // verus!
