//! Comparing single-precision values given by their IEEE 754 bit patterns,
//! as `compare_values` compares them: NaN is unordered, `-0` equals `+0`,
//! otherwise values order by sign and magnitude.

use vstd::prelude::*;

verus! {

/// The result of a three-way comparison.
#[derive(Clone, Copy, Debug, PartialEq, Eq, Structural)]
pub enum Order3 {
    Less,
    Equal,
    Greater,
}

/// The sign bit's weight.
pub const SIGN_BIT: u32 = 0x8000_0000u32;

/// The bits of positive infinity.
pub const INFINITY_BITS: u32 = 0x7f80_0000u32;

/// The bits of `1.0`.
pub const ONE_BITS: u32 = 0x3f80_0000u32;

/// Whether the bits encode a NaN: all exponent bits set and a non-zero
/// mantissa.
pub open spec fn is_nan(b: u32) -> bool {
    b % SIGN_BIT > INFINITY_BITS
}

/// An integer ordered as the values are: the magnitude bits, negated for
/// negative values (so both zeros give 0).
pub open spec fn order_key(b: u32) -> int {
    if b < SIGN_BIT {
        b as int
    } else {
        -((b - SIGN_BIT) as int)
    }
}

/// `compare_values` of the values that two bit patterns encode.
pub open spec fn value_order(a: u32, b: u32) -> Option<Order3> {
    if is_nan(a) || is_nan(b) {
        None
    } else if order_key(a) < order_key(b) {
        Some(Order3::Less)
    } else if order_key(a) == order_key(b) {
        Some(Order3::Equal)
    } else {
        Some(Order3::Greater)
    }
}

/// Whether the bits encode a NaN.
pub fn nan(b: u32) -> (r: bool)
    ensures
        r == is_nan(b),
{
    b % SIGN_BIT > INFINITY_BITS
}

/// The order key of a bit pattern.
pub fn key(b: u32) -> (k: i64)
    ensures
        k == order_key(b),
{
    if b < SIGN_BIT {
        b as i64
    } else {
        -((b - SIGN_BIT) as i64)
    }
}

/// `compare_values` of the values that two bit patterns encode.
pub fn compare_values(a: u32, b: u32) -> (r: Option<Order3>)
    ensures
        r == value_order(a, b),
{
    if nan(a) || nan(b) {
        None
    } else {
        let ka = key(a);
        let kb = key(b);
        if ka < kb {
            Some(Order3::Less)
        } else if ka == kb {
            Some(Order3::Equal)
        } else {
            Some(Order3::Greater)
        }
    }
}

/// Whether the value of `a` is greater than that of `b` (false if either is
/// NaN).
pub fn gt(a: u32, b: u32) -> (r: bool)
    ensures
        r == (value_order(a, b) == Some(Order3::Greater)),
{
    match compare_values(a, b) {
        Some(Order3::Greater) => true,
        _ => false,
    }
}

} // verus!
