//! Ranges of ray parameters.

use crate::fixed::Fixed;
use vstd::prelude::*;

verus! {

/// A range of ray parameters between `min` and `max`.
#[derive(Copy, Clone, Debug, PartialEq, Eq, Structural)]
pub struct Interval {
    pub min: Fixed,
    pub max: Fixed,
}

impl Interval {
    /// Whether `val` lies in the range, bounds included.
    pub open spec fn contains_including_spec(self, val: Fixed) -> bool {
        self.min@ <= val@ <= self.max@
    }

    /// Whether `val` lies strictly between the bounds.
    pub open spec fn surrounds_spec(self, val: Fixed) -> bool {
        self.min@ < val@ < self.max@
    }

    /// The same range with its upper bound replaced.
    pub open spec fn up_to(self, max: Fixed) -> Interval {
        Interval { min: self.min, max }
    }

    /// The range from `min` to `max`.
    pub fn new(min: Fixed, max: Fixed) -> (r: Self)
        ensures
            r == (Interval { min, max }),
    {
        Interval { min, max }
    }

    /// Whether `val` lies in the range, bounds included.
    pub fn contains_including(&self, val: Fixed) -> (r: bool)
        ensures
            r == self.contains_including_spec(val),
    {
        self.min <= val && self.max >= val
    }

    /// Whether `val` lies strictly inside the range. Intersection tests use
    /// this, so that a root on a bound is never taken.
    pub fn surrounds(&self, val: Fixed) -> (r: bool)
        ensures
            r == self.surrounds_spec(val),
    {
        self.min < val && val < self.max
    }
}

} // verus!
