//! The number model: a value is the bit pattern of an IEEE-754 double.
//!
//! Bit 63 is the sign, bits 62 to 52 the exponent, bits 51 to 0 the
//! fraction. Sign, zero, NaN and the order of two values can be read off
//! the pattern with integer arithmetic alone, which is what this module does.

use vstd::prelude::*;

verus! {

/// The pattern with only the sign bit set, which is also `-0.0`.
pub const SIGN_BIT: u64 = 0x8000_0000_0000_0000;

/// The pattern of `+0.0`.
pub const POSITIVE_ZERO: u64 = 0;

/// The pattern of `1.0`.
pub const ONE: u64 = 0x3FF0_0000_0000_0000;

/// The pattern of `2.0`.
pub const TWO: u64 = 0x4000_0000_0000_0000;

/// The pattern of `100.0`.
pub const HUNDRED: u64 = 0x4059_0000_0000_0000;

/// The pattern of positive infinity. Every larger magnitude is a NaN.
pub const POSITIVE_INFINITY: u64 = 0x7FF0_0000_0000_0000;

/// The key under which every NaN is ordered: just above positive infinity.
pub const NAN_KEY: i64 = 0x7FF0_0000_0000_0001;

/// The pattern without its sign bit.
pub open spec fn spec_magnitude(x: u64) -> u64 {
    if x >= SIGN_BIT {
        (x - SIGN_BIT) as u64
    } else {
        x
    }
}

/// Whether the sign bit is set.
pub open spec fn spec_is_negative(x: u64) -> bool {
    x >= SIGN_BIT
}

/// Whether the pattern is a NaN: exponent all ones, fraction not zero.
pub open spec fn spec_is_nan(x: u64) -> bool {
    spec_magnitude(x) > POSITIVE_INFINITY
}

/// Whether the pattern is `+0.0` or `-0.0`.
pub open spec fn spec_is_zero(x: u64) -> bool {
    spec_magnitude(x) == 0
}

/// The integer by which a pattern is ordered.
///
/// Two patterns that are not NaN compare as numbers exactly as their keys
/// compare as integers; in particular both zeros have key 0. Every NaN has
/// the one key `NAN_KEY`, so a NaN is ordered after every number and level
/// with every other NaN.
pub open spec fn order_key(x: u64) -> int {
    if spec_is_nan(x) {
        NAN_KEY as int
    } else if spec_is_negative(x) {
        -(spec_magnitude(x) as int)
    } else {
        spec_magnitude(x) as int
    }
}

/// `x < y` as numbers: false as soon as either is a NaN.
pub open spec fn spec_is_less(x: u64, y: u64) -> bool {
    !spec_is_nan(x) && !spec_is_nan(y) && order_key(x) < order_key(y)
}

/// `x > y` as numbers: false as soon as either is a NaN.
pub open spec fn spec_is_greater(x: u64, y: u64) -> bool {
    spec_is_less(y, x)
}

/// `x <= y` as numbers: false as soon as either is a NaN.
pub open spec fn spec_is_at_most(x: u64, y: u64) -> bool {
    !spec_is_nan(x) && !spec_is_nan(y) && order_key(x) <= order_key(y)
}

/// Clears the sign bit.
#[verifier::when_used_as_spec(spec_magnitude)]
pub fn magnitude(x: u64) -> (m: u64)
    ensures
        m == spec_magnitude(x),
{
    if x >= SIGN_BIT {
        x - SIGN_BIT
    } else {
        x
    }
}

/// Tests the sign bit.
#[verifier::when_used_as_spec(spec_is_negative)]
pub fn is_negative(x: u64) -> (b: bool)
    ensures
        b == spec_is_negative(x),
{
    x >= SIGN_BIT
}

/// Tests for a NaN.
#[verifier::when_used_as_spec(spec_is_nan)]
pub fn is_nan(x: u64) -> (b: bool)
    ensures
        b == spec_is_nan(x),
{
    magnitude(x) > POSITIVE_INFINITY
}

/// Tests for a zero of either sign.
#[verifier::when_used_as_spec(spec_is_zero)]
pub fn is_zero(x: u64) -> (b: bool)
    ensures
        b == spec_is_zero(x),
{
    magnitude(x) == 0
}

/// Computes the key by which a pattern is ordered.
pub fn key(x: u64) -> (k: i64)
    ensures
        k == order_key(x),
{
    let m: u64 = magnitude(x);
    if m > POSITIVE_INFINITY {
        NAN_KEY
    } else if is_negative(x) {
        -(m as i64)
    } else {
        m as i64
    }
}

/// Tests `x < y` as numbers.
#[verifier::when_used_as_spec(spec_is_less)]
pub fn is_less(x: u64, y: u64) -> (b: bool)
    ensures
        b == spec_is_less(x, y),
{
    !is_nan(x) && !is_nan(y) && key(x) < key(y)
}

/// Tests `x > y` as numbers.
#[verifier::when_used_as_spec(spec_is_greater)]
pub fn is_greater(x: u64, y: u64) -> (b: bool)
    ensures
        b == spec_is_greater(x, y),
{
    is_less(y, x)
}

/// Tests `x <= y` as numbers.
#[verifier::when_used_as_spec(spec_is_at_most)]
pub fn is_at_most(x: u64, y: u64) -> (b: bool)
    ensures
        b == spec_is_at_most(x, y),
{
    !is_nan(x) && !is_nan(y) && key(x) <= key(y)
}

} // verus!
