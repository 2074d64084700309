//! Ranges of numbers, used both for the extent of a box along one axis and
//! for the stretch of a ray in which a hit is looked for.
use crate::scalar::{Scalar, RAW_MAX};
use vstd::prelude::*;

verus! {

/// The numbers from `start` to `end`.
#[derive(Clone, Copy, Debug, PartialEq, Eq, Structural)]
pub struct Interval {
    pub start: Scalar,
    pub end: Scalar,
}

impl Interval {
    pub open spec fn spec_new(start: Scalar, end: Scalar) -> Interval {
        Interval { start, end }
    }

    /// The interval from `start` to `end`.
    #[verifier::when_used_as_spec(spec_new)]
    pub fn new(start: Scalar, end: Scalar) -> (r: Interval)
        ensures
            r == Self::spec_new(start, end),
    {
        Interval { start, end }
    }

    pub open spec fn spec_empty() -> Interval {
        Interval { start: Scalar { raw: RAW_MAX }, end: Scalar { raw: i64::MIN } }
    }

    /// The interval that holds nothing and that any merge leaves
    /// unchanged.
    #[verifier::when_used_as_spec(spec_empty)]
    pub fn empty() -> (r: Interval)
        ensures
            r == Self::spec_empty(),
    {
        Interval { start: Scalar { raw: RAW_MAX }, end: Scalar { raw: i64::MIN } }
    }

    /// Whether `start` does not lie behind `end`.
    pub open spec fn is_ordered(self) -> bool {
        self.start.raw <= self.end.raw
    }

    pub open spec fn spec_contains(self, t: Scalar) -> bool {
        self.start.raw <= t.raw < self.end.raw
    }

    /// Whether `t` lies in the interval, the start counted in and the end
    /// counted out.
    #[verifier::when_used_as_spec(spec_contains)]
    pub fn contains(self, t: Scalar) -> (r: bool)
        ensures
            r == self.spec_contains(t),
    {
        self.start.raw <= t.raw && t.raw < self.end.raw
    }

    /// Whether every number between the ends of `inner` lies between the
    /// ends of `self`.
    pub open spec fn encloses(self, inner: Interval) -> bool {
        self.start.raw <= inner.start.raw && inner.end.raw <= self.end.raw
    }

    pub open spec fn spec_merge(self, other: Interval) -> Interval {
        Interval { start: self.start.min(other.start), end: self.end.max(other.end) }
    }

    /// The smallest interval that encloses both.
    #[verifier::when_used_as_spec(spec_merge)]
    pub fn merge(self, other: Interval) -> (r: Interval)
        ensures
            r == self.spec_merge(other),
    {
        Interval { start: self.start.min(other.start), end: self.end.max(other.end) }
    }

    pub open spec fn spec_size(self) -> Scalar {
        self.end.minus(self.start)
    }

    /// The length of the interval.
    #[verifier::when_used_as_spec(spec_size)]
    pub fn size(self) -> (r: Scalar)
        ensures
            r == self.spec_size(),
    {
        self.end.minus(self.start)
    }

    pub open spec fn spec_until(self, end: Scalar) -> Interval {
        Interval { start: self.start, end }
    }

    /// The interval with the same start and the given end.
    #[verifier::when_used_as_spec(spec_until)]
    pub fn until(self, end: Scalar) -> (r: Interval)
        ensures
            r == self.spec_until(end),
    {
        Interval { start: self.start, end }
    }
}

} // verus!
