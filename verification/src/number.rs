//! Tests on the bit patterns of 64-bit IEEE-754 numbers.
//!
//! A pattern holds a sign bit, eleven exponent bits and fifty-two fraction
//! bits. Patterns whose lower sixty-three bits exceed those of infinity
//! are not-a-number; the two patterns whose lower bits are all zero are
//! the two zeros, which compare equal.

use vstd::prelude::*;

verus! {

/// The sign bit.
pub const SIGN: u64 = 0x8000_0000_0000_0000;

/// The pattern of positive infinity.
pub const INFINITY: u64 = 0x7ff0_0000_0000_0000;

/// The pattern of positive zero.
pub const ZERO: u64 = 0;

/// The pattern of one.
pub const ONE: u64 = 0x3ff0_0000_0000_0000;

/// The pattern without its sign bit.
pub open spec fn magnitude(bits: u64) -> u64 {
    if bits >= SIGN {
        (bits - SIGN) as u64
    } else {
        bits
    }
}

pub open spec fn negative(bits: u64) -> bool {
    bits >= SIGN
}

pub open spec fn nan(bits: u64) -> bool {
    magnitude(bits) > INFINITY
}

/// Whether the pattern is one of the two zeros.
pub open spec fn zero(bits: u64) -> bool {
    magnitude(bits) == 0
}

/// Where the number stands on the number line: among patterns that are
/// not not-a-number, a greater number has a greater rank, and the two
/// zeros share rank zero.
pub open spec fn rank(bits: u64) -> int {
    if negative(bits) {
        -(magnitude(bits) as int)
    } else {
        magnitude(bits) as int
    }
}

/// Numeric equality: false where either side is not-a-number.
pub open spec fn equal(a: u64, b: u64) -> bool {
    !nan(a) && !nan(b) && rank(a) == rank(b)
}

/// Numeric `a <= b`: false where either side is not-a-number.
pub open spec fn at_most(a: u64, b: u64) -> bool {
    !nan(a) && !nan(b) && rank(a) <= rank(b)
}

/// Numeric `a >= b`: false where either side is not-a-number.
pub open spec fn at_least(a: u64, b: u64) -> bool {
    at_most(b, a)
}

/// The pattern with its sign bit flipped.
pub open spec fn negation(bits: u64) -> u64 {
    if bits >= SIGN {
        (bits - SIGN) as u64
    } else {
        (bits + SIGN) as u64
    }
}

/// Whether the number lies between zero (included) and one (excluded):
/// the patterns of these numbers are those below the pattern of one.
pub open spec fn fraction(bits: u64) -> bool {
    bits < ONE
}

/// One for true and zero for false, as the comparisons leave them on the
/// stack.
pub open spec fn truth(holds: bool) -> u64 {
    if holds {
        ONE
    } else {
        ZERO
    }
}

fn without_sign(bits: u64) -> (m: u64)
    ensures
        m == magnitude(bits),
{
    if bits >= SIGN {
        bits - SIGN
    } else {
        bits
    }
}

pub fn is_nan(bits: u64) -> (b: bool)
    ensures
        b == nan(bits),
{
    without_sign(bits) > INFINITY
}

pub fn is_zero(bits: u64) -> (b: bool)
    ensures
        b == zero(bits),
{
    without_sign(bits) == 0
}

pub fn is_at_most(a: u64, b: u64) -> (holds: bool)
    ensures
        holds == at_most(a, b),
{
    if is_nan(a) || is_nan(b) {
        false
    } else if a >= SIGN {
        if b >= SIGN {
            without_sign(a) >= without_sign(b)
        } else {
            true
        }
    } else if b >= SIGN {
        a == 0 && without_sign(b) == 0
    } else {
        a <= b
    }
}

pub fn is_at_least(a: u64, b: u64) -> (holds: bool)
    ensures
        holds == at_least(a, b),
{
    is_at_most(b, a)
}

pub fn is_equal(a: u64, b: u64) -> (holds: bool)
    ensures
        holds == equal(a, b),
{
    if is_nan(a) || is_nan(b) {
        false
    } else {
        a == b || (without_sign(a) == 0 && without_sign(b) == 0)
    }
}

pub fn is_fraction(bits: u64) -> (b: bool)
    ensures
        b == fraction(bits),
{
    bits < ONE
}

pub fn negate(bits: u64) -> (flipped: u64)
    ensures
        flipped == negation(bits),
{
    if bits >= SIGN {
        bits - SIGN
    } else {
        bits + SIGN
    }
}

} // verus!
