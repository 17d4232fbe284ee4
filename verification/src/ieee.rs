//! IEEE-754 values held as bit patterns
//!
//! The engine stores single-precision samples and atom values as `u32` and
//! double-precision timestamps as `u64`. This module says what equality and
//! order mean on those patterns: the comparisons of IEEE-754, in which a NaN
//! is unordered and unequal to everything, and the two zeros are equal.

use vstd::prelude::*;

verus! {

/// Mask of the exponent and fraction bits of a single-precision pattern
pub const SINGLE_MAGNITUDE: u32 = 0x7fff_ffff;

/// Pattern of positive infinity in single precision
pub const SINGLE_INFINITY: u32 = 0x7f80_0000;

/// Mask of the exponent and fraction bits of a double-precision pattern
pub const DOUBLE_MAGNITUDE: u64 = 0x7fff_ffff_ffff_ffff;

/// Pattern of positive infinity in double precision
pub const DOUBLE_INFINITY: u64 = 0x7ff0_0000_0000_0000;

/// Is this single-precision pattern a NaN?
pub open spec fn single_is_nan(bits: u32) -> bool {
    (bits & SINGLE_MAGNITUDE) > SINGLE_INFINITY
}

/// IEEE-754 equality of two single-precision patterns
pub open spec fn single_eq(a: u32, b: u32) -> bool {
    &&& !single_is_nan(a)
    &&& !single_is_nan(b)
    &&& (a == b || ((a & SINGLE_MAGNITUDE) == 0 && (b & SINGLE_MAGNITUDE) == 0))
}

/// The place of a single-precision pattern on the number line: patterns
/// that are not NaN compare as their keys do.
pub open spec fn single_key(bits: u32) -> int {
    if bits > SINGLE_MAGNITUDE {
        -((bits & SINGLE_MAGNITUDE) as int)
    } else {
        bits as int
    }
}

/// IEEE-754 `<` of two single-precision patterns
pub open spec fn single_lt(a: u32, b: u32) -> bool {
    !single_is_nan(a) && !single_is_nan(b) && single_key(a) < single_key(b)
}

/// Is this double-precision pattern a NaN?
pub open spec fn double_is_nan(bits: u64) -> bool {
    (bits & DOUBLE_MAGNITUDE) > DOUBLE_INFINITY
}

/// The place of a double-precision pattern on the number line: patterns
/// that are not NaN compare as their keys do.
pub open spec fn double_key(bits: u64) -> int {
    if bits > DOUBLE_MAGNITUDE {
        -((bits & DOUBLE_MAGNITUDE) as int)
    } else {
        bits as int
    }
}

/// IEEE-754 `<` of two double-precision patterns
pub open spec fn double_lt(a: u64, b: u64) -> bool {
    !double_is_nan(a) && !double_is_nan(b) && double_key(a) < double_key(b)
}

/// IEEE-754 `==` of two double-precision patterns
pub open spec fn double_eq(a: u64, b: u64) -> bool {
    !double_is_nan(a) && !double_is_nan(b) && double_key(a) == double_key(b)
}

/// Is this single-precision pattern a NaN?
pub fn is_nan_single(bits: u32) -> (r: bool)
    ensures
        r == single_is_nan(bits),
{
    (bits & SINGLE_MAGNITUDE) > SINGLE_INFINITY
}

/// IEEE-754 equality of two single-precision patterns
pub fn eq_single(a: u32, b: u32) -> (r: bool)
    ensures
        r == single_eq(a, b),
{
    !is_nan_single(a) && !is_nan_single(b) && (a == b || ((a & SINGLE_MAGNITUDE) == 0 && (b
        & SINGLE_MAGNITUDE) == 0))
}

/// IEEE-754 `<` of two single-precision patterns
pub fn lt_single(a: u32, b: u32) -> (r: bool)
    ensures
        r == single_lt(a, b),
{
    if is_nan_single(a) || is_nan_single(b) {
        return false;
    }
    let a_negative = a > SINGLE_MAGNITUDE;
    let b_negative = b > SINGLE_MAGNITUDE;
    let a_magnitude = a & SINGLE_MAGNITUDE;
    let b_magnitude = b & SINGLE_MAGNITUDE;
    proof {
        assert(a <= SINGLE_MAGNITUDE ==> (a & SINGLE_MAGNITUDE) == a) by (bit_vector);
        assert(b <= SINGLE_MAGNITUDE ==> (b & SINGLE_MAGNITUDE) == b) by (bit_vector);
    }
    if a_negative {
        if b_negative {
            b_magnitude < a_magnitude
        } else {
            a_magnitude != 0 || b_magnitude != 0
        }
    } else {
        if b_negative {
            false
        } else {
            a_magnitude < b_magnitude
        }
    }
}

/// Is this double-precision pattern a NaN?
pub fn is_nan_double(bits: u64) -> (r: bool)
    ensures
        r == double_is_nan(bits),
{
    (bits & DOUBLE_MAGNITUDE) > DOUBLE_INFINITY
}

/// IEEE-754 `<` of two double-precision patterns
pub fn lt_double(a: u64, b: u64) -> (r: bool)
    ensures
        r == double_lt(a, b),
{
    if is_nan_double(a) || is_nan_double(b) {
        return false;
    }
    let a_negative = a > DOUBLE_MAGNITUDE;
    let b_negative = b > DOUBLE_MAGNITUDE;
    let a_magnitude = a & DOUBLE_MAGNITUDE;
    let b_magnitude = b & DOUBLE_MAGNITUDE;
    proof {
        assert(a <= DOUBLE_MAGNITUDE ==> (a & DOUBLE_MAGNITUDE) == a) by (bit_vector);
        assert(b <= DOUBLE_MAGNITUDE ==> (b & DOUBLE_MAGNITUDE) == b) by (bit_vector);
    }
    if a_negative {
        if b_negative {
            b_magnitude < a_magnitude
        } else {
            a_magnitude != 0 || b_magnitude != 0
        }
    } else {
        if b_negative {
            false
        } else {
            a_magnitude < b_magnitude
        }
    }
}

/// IEEE-754 `==` of two double-precision patterns
pub fn eq_double(a: u64, b: u64) -> (r: bool)
    ensures
        r == double_eq(a, b),
{
    if is_nan_double(a) || is_nan_double(b) {
        return false;
    }
    let a_magnitude = a & DOUBLE_MAGNITUDE;
    let b_magnitude = b & DOUBLE_MAGNITUDE;
    proof {
        assert(a <= DOUBLE_MAGNITUDE ==> (a & DOUBLE_MAGNITUDE) == a) by (bit_vector);
        assert(b <= DOUBLE_MAGNITUDE ==> (b & DOUBLE_MAGNITUDE) == b) by (bit_vector);
        assert(a > DOUBLE_MAGNITUDE && b > DOUBLE_MAGNITUDE && (a & DOUBLE_MAGNITUDE) == (b
            & DOUBLE_MAGNITUDE) ==> a == b) by (bit_vector);
    }
    a == b || (a_magnitude == 0 && b_magnitude == 0)
}

/// `<` on patterns is irreflexive and transitive, and never relates a NaN.
pub proof fn lemma_double_lt_strict_order(a: u64, b: u64, c: u64)
    ensures
        !double_lt(a, a),
        double_lt(a, b) && double_lt(b, c) ==> double_lt(a, c),
        double_lt(a, b) ==> !double_lt(b, a),
        double_is_nan(a) ==> !double_lt(a, b) && !double_lt(b, a),
{
}

/// Patterns that are equal hold the same place in the order.
pub proof fn lemma_double_eq_same_place(a: u64, b: u64, c: u64)
    requires
        double_eq(a, b),
    ensures
        double_lt(a, c) == double_lt(b, c),
        double_lt(c, a) == double_lt(c, b),
{
}

} // verus!
