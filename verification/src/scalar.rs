//! Scalars of the renderer, carried as ordered codes.
//!
//! A scalar is an IEEE 754 binary64 value. The verified core never does
//! arithmetic on scalars; it stores them, hands them on and compares them. It
//! therefore keeps each scalar as a signed 64-bit *code*: the bit pattern of the
//! value, with the low 63 bits inverted when the sign bit is set. Codes order
//! as the values do: negative NaNs, negative infinity, the negative numbers,
//! `-0`, `+0`, the positive numbers, positive infinity, positive NaNs.
//!
//! The comparison predicates below are the IEEE comparisons, read off the codes:
//! a NaN compares false with everything, and the two zeros compare equal.

use vstd::prelude::*;

verus! {

/// Code of positive infinity.
pub const INFINITY: i64 = 0x7FF0_0000_0000_0000;

/// Code of negative infinity.
pub const NEG_INFINITY: i64 = -0x7FF0_0000_0000_0001;

/// Code of `+0`.
pub const ZERO: i64 = 0;

/// Code of `-0`.
pub const NEG_ZERO: i64 = -1;

/// Code of one.
pub const ONE: i64 = 0x3FF0_0000_0000_0000;

/// Code of `1e-8`, the bound under which a component counts as vanishing.
pub const TINY: i64 = 0x3E45_798E_E230_8C3A;

/// The code that stands for a bit pattern.
pub open spec fn code_of_bits(bits: u64) -> i64 {
    if bits < 0x8000_0000_0000_0000 {
        bits as i64
    } else {
        (0x7FFF_FFFF_FFFF_FFFF - bits) as i64
    }
}

/// The bit pattern that a code stands for.
pub open spec fn bits_of_code(code: i64) -> u64 {
    if code >= 0 {
        code as u64
    } else {
        (0x7FFF_FFFF_FFFF_FFFF - code) as u64
    }
}

/// Whether the code stands for a NaN.
pub open spec fn is_nan(code: i64) -> bool {
    code > INFINITY || code < NEG_INFINITY
}

/// Position of a code on the number line. The two zeros share position 0;
/// apart from them, distinct codes of numbers have distinct positions.
pub open spec fn rank(code: i64) -> int {
    if code < 0 {
        code + 1
    } else {
        code as int
    }
}

/// IEEE `<` on codes.
pub open spec fn lt(a: i64, b: i64) -> bool {
    !is_nan(a) && !is_nan(b) && rank(a) < rank(b)
}

/// IEEE `<=` on codes.
pub open spec fn le(a: i64, b: i64) -> bool {
    !is_nan(a) && !is_nan(b) && rank(a) <= rank(b)
}

/// The smaller of two codes, a NaN giving way to the other argument. Of two
/// zeros of different sign, `-0` is the smaller.
pub open spec fn min_of(a: i64, b: i64) -> i64 {
    if is_nan(a) {
        b
    } else if is_nan(b) {
        a
    } else if b < a {
        b
    } else {
        a
    }
}

/// The larger of two codes, a NaN giving way to the other argument. Of two
/// zeros of different sign, `+0` is the larger.
pub open spec fn max_of(a: i64, b: i64) -> i64 {
    if is_nan(a) {
        b
    } else if is_nan(b) {
        a
    } else if b > a {
        b
    } else {
        a
    }
}

/// Code of the negated value: the sign bit flipped, NaNs included.
pub open spec fn negation_of(code: i64) -> i64 {
    (-1 - code) as i64
}

/// Code of the absolute value: the sign bit cleared, NaNs included.
pub open spec fn magnitude_of(code: i64) -> i64 {
    if code < 0 {
        negation_of(code)
    } else {
        code
    }
}

pub fn from_bits(bits: u64) -> (code: i64)
    ensures
        code == code_of_bits(bits),
{
    if bits < 0x8000_0000_0000_0000 {
        bits as i64
    } else {
        let low: u64 = bits - 0x8000_0000_0000_0000;
        -1 - (low as i64)
    }
}

pub fn to_bits(code: i64) -> (bits: u64)
    ensures
        bits == bits_of_code(code),
{
    if code >= 0 {
        code as u64
    } else {
        let low: i64 = -1 - code;
        (low as u64) + 0x8000_0000_0000_0000
    }
}

pub fn nan(code: i64) -> (yes: bool)
    ensures
        yes == is_nan(code),
{
    code > INFINITY || code < NEG_INFINITY
}

pub fn less(a: i64, b: i64) -> (yes: bool)
    ensures
        yes == lt(a, b),
{
    if nan(a) || nan(b) {
        false
    } else if a == NEG_ZERO {
        ZERO < b
    } else {
        a < b
    }
}

pub fn less_eq(a: i64, b: i64) -> (yes: bool)
    ensures
        yes == le(a, b),
{
    if nan(a) || nan(b) {
        false
    } else if b == NEG_ZERO {
        a <= ZERO
    } else {
        a <= b
    }
}

pub fn minimum(a: i64, b: i64) -> (low: i64)
    ensures
        low == min_of(a, b),
{
    if nan(a) {
        b
    } else if nan(b) {
        a
    } else if b < a {
        b
    } else {
        a
    }
}

pub fn maximum(a: i64, b: i64) -> (high: i64)
    ensures
        high == max_of(a, b),
{
    if nan(a) {
        b
    } else if nan(b) {
        a
    } else if b > a {
        b
    } else {
        a
    }
}

pub fn negate(code: i64) -> (flipped: i64)
    ensures
        flipped == negation_of(code),
{
    -1 - code
}

pub fn magnitude(code: i64) -> (cleared: i64)
    ensures
        cleared == magnitude_of(code),
{
    if code < 0 {
        negate(code)
    } else {
        code
    }
}

/// Bit patterns and codes correspond one to one.
pub proof fn lemma_bits_round_trip(bits: u64, code: i64)
    ensures
        bits_of_code(code_of_bits(bits)) == bits,
        code_of_bits(bits_of_code(code)) == code,
{
}

} // verus!
