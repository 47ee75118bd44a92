//! The pipeline's randomness, drawn through one narrow gate.
//!
//! Every humanization decision takes its draw as an argument; these helpers
//! produce the draws.  Nothing more than the range can be promised of a
//! random value.

use vstd::prelude::*;

verus! {

/// Relies on `rand::random_range`: returns a uniform value in the given
/// range; the range `0..bound` is never empty here.
#[verifier::external_body]
pub fn draw_below(bound: u64) -> (r: u64)
    requires
        bound > 0,
    ensures
        r < bound,
{
    rand::random_range(0..bound)
}

/// A uniform draw below one whole unit, for probability checks in micro
/// units.
pub fn draw_micro() -> (r: u64)
    ensures
        r < crate::SCALE,
{
    draw_below(crate::SCALE)
}

/// A uniform draw below one hundred, for percentage checks.
pub fn draw_percent() -> (r: u64)
    ensures
        r < 100,
{
    draw_below(100)
}

} // verus!
