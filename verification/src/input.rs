//! What is asked of a path before it is analyzed.
//!
//! Coordinates come here as their bit patterns, which is all that the entry
//! check reads.

use crate::pattern::{finite, is_finite};
use crate::period::Period;
use vstd::prelude::*;

verus! {

/// Why a path is refused.
#[derive(Clone, Copy, Debug, PartialEq, Eq, Structural)]
pub enum InputError {
    /// The path has no point.
    Empty,
    /// Some coordinate is an infinity or not a number.
    NonFinite,
}

/// Both coordinates of every point are finite.
pub open spec fn all_finite(points: Seq<(u32, u32)>) -> bool {
    forall|i: int| 0 <= i < points.len() ==> is_finite(points[i].0) && is_finite(points[i].1)
}

/// The revolution that a path spans, one sample time for each point. A path
/// without points is refused as empty, any other with a coordinate that is
/// not finite as such.
pub fn check_path(points: &Vec<(u32, u32)>) -> (r: Result<Period, InputError>)
    ensures
        points.len() == 0 ==> r == Err::<Period, InputError>(InputError::Empty),
        points.len() > 0 && !all_finite(points@) ==> r == Err::<Period, InputError>(
            InputError::NonFinite,
        ),
        points.len() > 0 && all_finite(points@) ==> r is Ok && r->Ok_0@ == points.len(),
{
    let mut i: usize = 0;
    while i < points.len()
        invariant
            i <= points.len(),
            all_finite(points@.take(i as int)),
        decreases points.len() - i,
    {
        let (x, y) = points[i];
        if !finite(x) || !finite(y) {
            return Err(InputError::NonFinite);
        }
        i += 1;
    }
    assert(points@.take(points.len() as int) =~= points@);
    Period::new(points.len())
}

} // verus!
