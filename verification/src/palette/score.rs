//! Relevance scores.
//!
//! A score is an IEEE 754 double between zero and one, held as its bit pattern.
//! The functions here order and limit scores by what the patterns stand for.

use vstd::arithmetic::power2::pow2;
use vstd::prelude::*;

verus! {

/// The bit pattern of 1.0.
pub const ONE: u64 = 0x3FF0_0000_0000_0000;

/// The bit pattern of 0.5.
pub const HALF: u64 = 0x3FE0_0000_0000_0000;

/// The sign bit; every pattern from here on is that of a negative number.
pub const SIGN: u64 = 0x8000_0000_0000_0000;

/// The bit pattern of positive infinity.
pub const INFINITY: u64 = 0x7FF0_0000_0000_0000;

/// Whether a bit pattern is that of a number.
pub open spec fn is_number(bits: u64) -> bool {
    bits <= INFINITY || SIGN <= bits <= SIGN + INFINITY
}

/// Where a number stands in the order of the numbers: doubles of one sign order
/// as their patterns do, and the two zeros are equal. What is no number stands
/// beyond the infinities.
pub open spec fn rank(bits: u64) -> int {
    if bits < SIGN {
        bits as int
    } else {
        SIGN - bits
    }
}

/// A number limited to the range from zero to one. What is no number stays as it
/// is.
pub open spec fn clamped(bits: u64) -> u64 {
    if !is_number(bits) {
        bits
    } else if rank(bits) < 0 {
        0
    } else if rank(bits) > ONE {
        ONE
    } else {
        bits
    }
}

/// Whether one number is less than another.
pub fn less(a: u64, b: u64) -> (r: bool)
    ensures
        r == (rank(a) < rank(b)),
{
    if a < SIGN {
        b < SIGN && a < b
    } else if b < SIGN {
        b > 0 || a > SIGN
    } else {
        b < a
    }
}

/// Limits a number to the range from zero to one. What is no number stays as it
/// is.
pub fn clamp(bits: u64) -> (r: u64)
    ensures
        r == clamped(bits),
{
    if bits > SIGN && bits <= SIGN + INFINITY {
        0
    } else if bits > ONE && bits <= INFINITY {
        ONE
    } else {
        bits
    }
}

/// Limiting gives a number between zero and one, and keeps the order.
pub proof fn law_clamping_keeps_the_order(a: u64, b: u64)
    requires
        is_number(a),
        is_number(b),
        rank(a) <= rank(b),
    ensures
        0 <= rank(clamped(a)) <= rank(clamped(b)) <= rank(ONE),
{
}

/// Whether a bit pattern is that of a double within two units of its last place of
/// `num / den`: the pattern holds fifty-two bits of the fraction, a leading one that is
/// not written, and a power of two.
pub open spec fn near(bits: u64, num: int, den: int) -> bool {
    let fraction = bits as int % 0x10_0000_0000_0000 + 0x10_0000_0000_0000;
    let halvings = 1075 - bits as int / 0x10_0000_0000_0000;
    let off = fraction * den - num * pow2(halvings as nat);
    0 <= halvings && -2 * den <= off <= 2 * den
}

/// What is limited is the number itself where it lies between zero and one, the nearer of
/// the two where it does not, and what is no number stays.
pub proof fn law_limits(bits: u64)
    ensures
        bits <= 0x3FF0_0000_0000_0000 ==> clamped(bits) == bits,
        0x3FF0_0000_0000_0000 < bits <= 0x7FF0_0000_0000_0000 ==> clamped(bits)
            == 0x3FF0_0000_0000_0000,
        0x8000_0000_0000_0000 < bits <= 0xFFF0_0000_0000_0000 ==> clamped(bits) == 0,
        0x7FF0_0000_0000_0000 < bits < 0x8000_0000_0000_0000 || 0xFFF0_0000_0000_0000 < bits
            ==> clamped(bits) == bits,
{
}

/// Numbers order as their patterns do where they are not negative, and the other way round
/// where they are; those that are negative come before the others.
pub proof fn law_order_of_numbers(a: u64, b: u64)
    requires
        a <= 0x7FF0_0000_0000_0000 || 0x8000_0000_0000_0000 < a <= 0xFFF0_0000_0000_0000,
        b <= 0x7FF0_0000_0000_0000 || 0x8000_0000_0000_0000 < b <= 0xFFF0_0000_0000_0000,
    ensures
        a <= 0x7FF0_0000_0000_0000 && b <= 0x7FF0_0000_0000_0000 ==> (rank(a) < rank(b) <==> a < b),
        a > 0x8000_0000_0000_0000 && b <= 0x7FF0_0000_0000_0000 ==> rank(a) < rank(b),
        a > 0x8000_0000_0000_0000 && b > 0x8000_0000_0000_0000 ==> (rank(a) < rank(b) <==> b < a),
        is_number(a) && is_number(b),
{
}

} // verus!
