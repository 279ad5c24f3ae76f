//! Single precision numbers, held by their IEEE 754 bits.
//!
//! Similarities, confidences and centralities are computed elsewhere; here they
//! are only compared.

use vstd::prelude::*;

verus! {

/// The bits without the sign.
pub open spec fn magnitude(bits: u32) -> int {
    if bits >= 0x8000_0000 {
        bits - 0x8000_0000
    } else {
        bits as int
    }
}

/// The bits stand for no number.
pub open spec fn is_nan(bits: u32) -> bool {
    magnitude(bits) > 0x7F80_0000
}

/// An integer by which numbers are ordered: both zeros are zero.
pub open spec fn number_rank(bits: u32) -> int {
    if bits >= 0x8000_0000 {
        -magnitude(bits)
    } else {
        magnitude(bits)
    }
}

/// An integer by which all bits are ordered: as numbers are, with the negative
/// zero before the positive one, and what is no number at the two ends.
pub open spec fn total_rank(bits: u32) -> int {
    if bits >= 0x8000_0000 {
        -magnitude(bits) - 1
    } else {
        magnitude(bits)
    }
}

/// The number of `a` is at least that of `b`; nothing is at least, or less than,
/// what is no number.
pub open spec fn at_least(a: u32, b: u32) -> bool {
    !is_nan(a) && !is_nan(b) && number_rank(a) >= number_rank(b)
}

/// The number of `a` is less than that of `b`.
pub open spec fn less_than(a: u32, b: u32) -> bool {
    !is_nan(a) && !is_nan(b) && number_rank(a) < number_rank(b)
}

/// The greater of two numbers; of one that is none and another, the other.
pub open spec fn greater_of(a: u32, b: u32) -> u32 {
    if is_nan(a) {
        b
    } else if is_nan(b) || total_rank(a) >= total_rank(b) {
        a
    } else {
        b
    }
}

fn size_of(bits: u32) -> (r: u32)
    ensures
        r == magnitude(bits),
{
    if bits >= 0x8000_0000 {
        bits - 0x8000_0000
    } else {
        bits
    }
}

/// Whether the bits stand for no number.
pub fn not_a_number(bits: u32) -> (r: bool)
    ensures
        r == is_nan(bits),
{
    size_of(bits) > 0x7F80_0000
}

fn rank_of(bits: u32) -> (r: i64)
    ensures
        r == number_rank(bits),
{
    let size = size_of(bits);
    if bits >= 0x8000_0000 {
        -(size as i64)
    } else {
        size as i64
    }
}

/// The integer by which all bits are ordered.
pub fn total_rank_of(bits: u32) -> (r: i64)
    ensures
        r == total_rank(bits),
{
    let size = size_of(bits);
    if bits >= 0x8000_0000 {
        -(size as i64) - 1
    } else {
        size as i64
    }
}

/// Whether the number of `a` is at least that of `b`.
pub fn is_at_least(a: u32, b: u32) -> (r: bool)
    ensures
        r == at_least(a, b),
{
    !not_a_number(a) && !not_a_number(b) && rank_of(a) >= rank_of(b)
}

/// Whether the number of `a` is less than that of `b`.
pub fn is_less_than(a: u32, b: u32) -> (r: bool)
    ensures
        r == less_than(a, b),
{
    !not_a_number(a) && !not_a_number(b) && rank_of(a) < rank_of(b)
}

/// The greater of two numbers.
pub fn greater(a: u32, b: u32) -> (r: u32)
    ensures
        r == greater_of(a, b),
{
    if not_a_number(a) {
        b
    } else if not_a_number(b) || total_rank_of(a) >= total_rank_of(b) {
        a
    } else {
        b
    }
}

/// Numbers are compared by their value. Without the sign bit the bits grow with the
/// number, with it they shrink, and nothing is at least, or less than, what is no
/// number; the two zeros are equal.
pub proof fn law_numbers_are_compared(a: u32, b: u32)
    ensures
        a <= 0x7F80_0000 && b <= 0x7F80_0000 ==> (at_least(a, b) <==> a >= b),
        0x8000_0000 <= a <= 0xFF80_0000 && 0x8000_0000 <= b <= 0xFF80_0000 ==> (at_least(a, b)
            <==> a <= b),
        a <= 0x7F80_0000 && 0x8000_0000 <= b <= 0xFF80_0000 ==> at_least(a, b),
        0x8000_0000 <= a <= 0xFF80_0000 && b <= 0x7F80_0000 ==> (at_least(a, b) <==> a
            == 0x8000_0000 && b == 0),
        0x7F80_0000 < a < 0x8000_0000 || a > 0xFF80_0000 || 0x7F80_0000 < b < 0x8000_0000 || b
            > 0xFF80_0000 ==> !at_least(a, b) && !less_than(a, b),
        !(0x7F80_0000 < a < 0x8000_0000 || a > 0xFF80_0000 || 0x7F80_0000 < b < 0x8000_0000 || b
            > 0xFF80_0000) ==> less_than(a, b) == !at_least(a, b),
{
}

/// Of two numbers that are not negative the greater one is that with the greater
/// bits. What is greater of any two bits is one of them, and it is a number where
/// one of them is.
pub proof fn law_greater_of_two(a: u32, b: u32)
    ensures
        a <= 0x7F80_0000 && b <= 0x7F80_0000 ==> greater_of(a, b) == if a >= b {
            a
        } else {
            b
        },
        greater_of(a, b) == a || greater_of(a, b) == b,
        at_least(a, a) ==> at_least(greater_of(a, b), a),
        at_least(b, b) ==> at_least(greater_of(a, b), b),
{
}

} // verus!
