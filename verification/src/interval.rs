//! Closed ranges of scalars.

use vstd::prelude::*;
use crate::scalar::{le, less, less_eq, lt, max_of, maximum, min_of, minimum, INFINITY, NEG_INFINITY};

verus! {

/// The range `[min, max]`. A range whose `min` lies above its `max` holds
/// nothing.
#[derive(Clone, Copy, Debug)]
pub struct Interval {
    pub min: i64,
    pub max: i64,
}

/// The range that holds nothing.
pub open spec fn empty() -> Interval {
    Interval { min: INFINITY, max: NEG_INFINITY }
}

/// The range that holds every number.
pub open spec fn universe() -> Interval {
    Interval { min: NEG_INFINITY, max: INFINITY }
}

impl Interval {
    /// The smallest range that holds both `self` and `other`.
    pub open spec fn hull(self, other: Interval) -> Interval {
        Interval { min: min_of(self.min, other.min), max: max_of(self.max, other.max) }
    }

    /// `x` lies in the range, ends included.
    pub open spec fn holds(self, x: i64) -> bool {
        le(self.min, x) && le(x, self.max)
    }

    /// `x` lies strictly between the ends.
    pub open spec fn encloses(self, x: i64) -> bool {
        lt(self.min, x) && lt(x, self.max)
    }

    /// The point of the range nearest to `x`.
    pub open spec fn nearest_to(self, x: i64) -> i64 {
        if lt(x, self.min) {
            self.min
        } else if lt(self.max, x) {
            self.max
        } else {
            x
        }
    }

    pub fn new(min: i64, max: i64) -> (interval: Self)
        ensures
            interval == (Interval { min, max }),
    {
        Self { min, max }
    }

    pub fn empty() -> (interval: Self)
        ensures
            interval == empty(),
    {
        Self { min: INFINITY, max: NEG_INFINITY }
    }

    pub fn universe() -> (interval: Self)
        ensures
            interval == universe(),
    {
        Self { min: NEG_INFINITY, max: INFINITY }
    }

    pub fn new_from_children(a: &Interval, b: &Interval) -> (interval: Self)
        ensures
            interval == a.hull(*b),
    {
        Self { min: minimum(a.min, b.min), max: maximum(a.max, b.max) }
    }

    pub fn contains(&self, x: i64) -> (yes: bool)
        ensures
            yes == self.holds(x),
    {
        less_eq(self.min, x) && less_eq(x, self.max)
    }

    pub fn surrounds(&self, x: i64) -> (yes: bool)
        ensures
            yes == self.encloses(x),
    {
        less(self.min, x) && less(x, self.max)
    }

    pub fn clamp(&self, x: i64) -> (clamped: i64)
        ensures
            clamped == self.nearest_to(x),
    {
        if less(x, self.min) {
            return self.min;
        }
        if less(self.max, x) {
            return self.max;
        }
        x
    }
}

impl Default for Interval {
    fn default() -> (interval: Self)
        ensures
            interval == empty(),
    {
        Self { min: INFINITY, max: NEG_INFINITY }
    }
}

/// The empty range is neutral for `hull` on ranges of numbers, and `hull`
/// holds whatever either range holds.
pub proof fn lemma_hull(a: Interval, b: Interval, x: i64)
    ensures
        !crate::scalar::is_nan(a.min) && !crate::scalar::is_nan(a.max) ==> empty().hull(a) == a,
        a.holds(x) || b.holds(x) ==> a.hull(b).holds(x),
{
}

} // verus!
