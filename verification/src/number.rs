//! Numbers are IEEE-754 doubles, held as their 64-bit patterns: one sign bit,
//! eleven exponent bits, fifty-two fraction bits. Comparison is decided on the
//! pattern alone; arithmetic is left to the host of the machine.

use vstd::prelude::*;

verus! {

/// The exponent field with every bit set: infinities and NaNs.
pub const EXPONENT_MASK: u64 = 0x7ff0_0000_0000_0000;

/// The fraction field.
pub const FRACTION_MASK: u64 = 0x000f_ffff_ffff_ffff;

/// Everything but the sign bit.
pub const MAGNITUDE_MASK: u64 = 0x7fff_ffff_ffff_ffff;

/// A pattern is a NaN when its exponent is all ones and its fraction is not zero.
pub open spec fn is_nan(bits: u64) -> bool {
    (bits & EXPONENT_MASK) == EXPONENT_MASK && (bits & FRACTION_MASK) != 0
}

/// The sign bit is set.
pub open spec fn is_negative(bits: u64) -> bool {
    (bits >> 63) == 1
}

/// The pattern with the sign bit cleared, as an integer. Among patterns of one
/// sign that are not NaN, a larger magnitude is a number further from zero.
pub open spec fn magnitude(bits: u64) -> int {
    (bits & MAGNITUDE_MASK) as int
}

/// The place of a pattern that is not a NaN on the number line: both zeros
/// share place 0, negative numbers have negative places.
pub open spec fn rank(bits: u64) -> int {
    if is_negative(bits) {
        -magnitude(bits)
    } else {
        magnitude(bits)
    }
}

/// IEEE-754 equality: a NaN equals nothing, the two zeros are equal, and any
/// other two patterns are equal only when they are the same pattern.
pub open spec fn numbers_equal(a: u64, b: u64) -> bool {
    !is_nan(a) && !is_nan(b) && rank(a) == rank(b)
}

/// IEEE-754 `<`: false when either side is a NaN.
pub open spec fn numbers_less(a: u64, b: u64) -> bool {
    !is_nan(a) && !is_nan(b) && rank(a) < rank(b)
}

/// IEEE-754 `<=`: false when either side is a NaN.
pub open spec fn numbers_less_or_equal(a: u64, b: u64) -> bool {
    !is_nan(a) && !is_nan(b) && rank(a) <= rank(b)
}

/// Whether a pattern is a NaN.
pub fn number_is_nan(bits: u64) -> (r: bool)
    ensures
        r == is_nan(bits),
{
    (bits & EXPONENT_MASK) == EXPONENT_MASK && (bits & FRACTION_MASK) != 0
}

/// Compares the places of two patterns on the number line: the result is
/// negative, zero or positive as `rank(a)` is below, at or above `rank(b)`.
fn rank_order(a: u64, b: u64) -> (r: i8)
    ensures
        r < 0 <==> rank(a) < rank(b),
        r == 0 <==> rank(a) == rank(b),
        -1 <= r <= 1,
{
    let a_magnitude: u64 = a & MAGNITUDE_MASK;
    let b_magnitude: u64 = b & MAGNITUDE_MASK;
    let a_negative: bool = (a >> 63) == 1;
    let b_negative: bool = (b >> 63) == 1;
    if a_negative {
        if b_negative {
            if b_magnitude < a_magnitude {
                -1
            } else if b_magnitude == a_magnitude {
                0
            } else {
                1
            }
        } else if a_magnitude == 0 && b_magnitude == 0 {
            0
        } else {
            -1
        }
    } else if b_negative {
        if a_magnitude == 0 && b_magnitude == 0 {
            0
        } else {
            1
        }
    } else if a_magnitude < b_magnitude {
        -1
    } else if a_magnitude == b_magnitude {
        0
    } else {
        1
    }
}

/// Decides `==` on two doubles given by their patterns.
pub fn number_eq(a: u64, b: u64) -> (r: bool)
    ensures
        r == numbers_equal(a, b),
{
    !number_is_nan(a) && !number_is_nan(b) && rank_order(a, b) == 0
}

/// Decides `<` on two doubles given by their patterns.
pub fn number_lt(a: u64, b: u64) -> (r: bool)
    ensures
        r == numbers_less(a, b),
{
    !number_is_nan(a) && !number_is_nan(b) && rank_order(a, b) < 0
}

/// Decides `<=` on two doubles given by their patterns.
pub fn number_le(a: u64, b: u64) -> (r: bool)
    ensures
        r == numbers_less_or_equal(a, b),
{
    !number_is_nan(a) && !number_is_nan(b) && rank_order(a, b) <= 0
}

/// Numbers that are no NaN are in one order: of two of them one is less than
/// the other, or they are equal, and never both.
pub proof fn law_numbers_are_ordered(a: u64, b: u64)
    requires
        !is_nan(a),
        !is_nan(b),
    ensures
        numbers_less(a, b) || numbers_equal(a, b) || numbers_less(b, a),
        !(numbers_less(a, b) && numbers_equal(a, b)),
        !(numbers_less(a, b) && numbers_less(b, a)),
        numbers_less_or_equal(a, b) == (numbers_less(a, b) || numbers_equal(a, b)),
{
}

/// The order of numbers goes on: what is less than something that is less
/// than a third is less than the third.
pub proof fn law_order_is_transitive(a: u64, b: u64, c: u64)
    requires
        numbers_less(a, b),
        numbers_less(b, c),
    ensures
        numbers_less(a, c),
{
}

/// A NaN is in no order with anything, and equal to nothing, itself included.
pub proof fn law_nan_compares_false(a: u64, b: u64)
    requires
        is_nan(a) || is_nan(b),
    ensures
        !numbers_equal(a, b),
        !numbers_less(a, b),
        !numbers_less_or_equal(a, b),
{
}

/// The exponent field of a pattern.
pub open spec fn exponent_field(bits: u64) -> u64 {
    (bits >> 52) & 0x7ff
}

/// The fraction field of a pattern with the hidden bit of a normal number set.
pub open spec fn significand(bits: u64) -> u64 {
    (bits & FRACTION_MASK) | 0x0010_0000_0000_0000
}

/// The list index that a number names: its integer part, 0 for a NaN and for
/// anything below 1, and `None` where the integer part is 2^63 or more, which
/// is beyond the end of any list.
///
/// A finite number of exponent field `e` at least 1023 is its significand
/// times two to the power `e - 1075`, and the integer part of that is a shift.
pub open spec fn number_index(bits: u64) -> Option<u64> {
    if is_nan(bits) || is_negative(bits) || exponent_field(bits) < 1023 {
        Some(0)
    } else if exponent_field(bits) >= 1086 {
        None
    } else if exponent_field(bits) >= 1075 {
        Some(significand(bits) << ((exponent_field(bits) - 1075) as u64))
    } else {
        Some(significand(bits) >> ((1075 - exponent_field(bits)) as u64))
    }
}

/// Computes the list index that a number names.
pub fn index_of_number(bits: u64) -> (r: Option<u64>)
    ensures
        r == number_index(bits),
{
    let exponent: u64 = (bits >> 52) & 0x7ff;
    let fraction: u64 = (bits & FRACTION_MASK) | 0x0010_0000_0000_0000;
    assert(exponent <= 0x7ff) by (bit_vector)
        requires
            exponent == (bits >> 52) & 0x7ff,
    ;
    if number_is_nan(bits) || (bits >> 63) == 1 || exponent < 1023 {
        Some(0)
    } else if exponent >= 1086 {
        None
    } else if exponent >= 1075 {
        Some(fraction << (exponent - 1075))
    } else {
        Some(fraction >> (1075 - exponent))
    }
}

} // verus!
