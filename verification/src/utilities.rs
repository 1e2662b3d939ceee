//! The random source of the integer logic.

use rand::Rng;
use vstd::prelude::*;

verus! {

/// A whole number drawn from `min..=max`.
///
/// Calls `rand::rng()` and `Rng::random_range` on the inclusive range. All
/// that is claimed of the draw is that it lies in the range; `random_range`
/// does not return on an empty range, which the precondition leaves out.
#[verifier::external_body]
pub(crate) fn random_int(min: i32, max: i32) -> (drawn: i32)
    requires
        min <= max,
    ensures
        min <= drawn <= max,
{
    rand::rng().random_range(min..=max)
}

} // verus!
