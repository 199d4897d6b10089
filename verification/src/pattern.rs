//! Single-precision numbers as their bit patterns.
//!
//! The sign is the highest bit, the exponent the eight bits below it. What the
//! engine asks of a coordinate or a radius can be read off these bits.

use vstd::prelude::*;

verus! {

/// The sign bit of a pattern.
pub const SIGN: u32 = 0x8000_0000;

/// The pattern of positive infinity: the exponent bits all set, no others.
pub const INFINITY: u32 = 0x7f80_0000;

/// The sign aside, the pattern lies below that of infinity: it stands for a
/// finite number.
pub open spec fn is_finite(pattern: u32) -> bool {
    pattern % SIGN < INFINITY
}

/// The pattern stands for a radius: its sign is clear and it is a number, so
/// it is zero, a positive number or positive infinity. Among such patterns
/// the larger number has the larger pattern.
pub open spec fn is_radius(pattern: u32) -> bool {
    pattern <= INFINITY
}

/// Whether the pattern stands for a finite number.
pub fn finite(pattern: u32) -> (r: bool)
    ensures
        r == is_finite(pattern),
{
    pattern % SIGN < INFINITY
}

/// The weight that ranks a radius among radii: its pattern. There is none for
/// a pattern that is negative or not a number.
pub fn radius_weight(pattern: u32) -> (r: Option<u32>)
    ensures
        is_radius(pattern) ==> r == Some(pattern),
        !is_radius(pattern) ==> r is None,
{
    if pattern <= INFINITY {
        Some(pattern)
    } else {
        None
    }
}

} // verus!
