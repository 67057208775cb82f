//! Closed numeric ranges over fixed-point coordinates, used for hit-time
//! windows and the per-axis extents of bounding boxes.
//!
//! An empty interval is represented as `[i64::MAX, i64::MIN]`, so that the
//! union (`enclose`) of the empty interval with any other interval is that
//! other interval.

use vstd::prelude::*;

verus! {

#[derive(Clone, Copy, Debug, PartialEq, Eq, Structural)]
pub struct Interval {
    pub min: i64,
    pub max: i64,
}

impl Interval {
    /// The interval containing nothing: union identity for `enclose`.
    pub open spec fn spec_empty() -> Interval {
        Interval { min: i64::MAX, max: i64::MIN }
    }

    /// The pairwise min/max union of two intervals.
    pub open spec fn spec_enclose(self, other: Interval) -> Interval {
        Interval {
            min: if self.min <= other.min { self.min } else { other.min },
            max: if self.max >= other.max { self.max } else { other.max },
        }
    }

    /// Strict containment: deliberately excludes both endpoints, so a hit
    /// exactly at the window boundary is rejected.
    pub open spec fn spec_surrounds(self, value: i64) -> bool {
        self.min < value && value < self.max
    }

    pub fn new(min: i64, max: i64) -> (r: Interval)
        ensures
            r == (Interval { min, max }),
    {
        Interval { min, max }
    }

    pub fn empty() -> (r: Interval)
        ensures
            r == Interval::spec_empty(),
    {
        Interval { min: i64::MAX, max: i64::MIN }
    }

    pub fn surrounds(self, value: i64) -> (r: bool)
        ensures
            r == self.spec_surrounds(value),
    {
        self.min < value && value < self.max
    }

    /// Saturate `value` into `[min, max]`. Requires a non-degenerate
    /// interval, as the underlying clamp is undefined when `min > max`.
    pub fn clamp(self, value: i64) -> (r: i64)
        requires
            self.min <= self.max,
        ensures
            r == if value < self.min {
                self.min
            } else if value > self.max {
                self.max
            } else {
                value
            },
            self.min <= r <= self.max,
    {
        if value < self.min {
            self.min
        } else if value > self.max {
            self.max
        } else {
            value
        }
    }

    pub fn enclose(self, other: Interval) -> (r: Interval)
        ensures
            r == self.spec_enclose(other),
    {
        Interval {
            min: if self.min <= other.min { self.min } else { other.min },
            max: if self.max >= other.max { self.max } else { other.max },
        }
    }

    /// The span `max - min`, widened so that the sentinel empty interval
    /// needs no special case.
    pub fn size(self) -> (r: i128)
        ensures
            r == self.max - self.min,
    {
        self.max as i128 - self.min as i128
    }
}

/// Union with the empty interval changes nothing: the empty interval is the
/// identity of `enclose` on both sides.
pub proof fn lemma_enclose_empty_identity(a: Interval)
    ensures
        a.spec_enclose(Interval::spec_empty()) == a,
        Interval::spec_empty().spec_enclose(a) == a,
{
}

/// `enclose` is commutative.
pub proof fn lemma_enclose_commutative(a: Interval, b: Interval)
    ensures
        a.spec_enclose(b) == b.spec_enclose(a),
{
}

/// `enclose` is associative, so folding a collection of intervals into a
/// single union gives the same result whatever the fold order.
pub proof fn lemma_enclose_associative(a: Interval, b: Interval, c: Interval)
    ensures
        a.spec_enclose(b).spec_enclose(c) == a.spec_enclose(b.spec_enclose(c)),
{
}

/// Strict containment rejects both endpoints and accepts interior points.
pub proof fn lemma_surrounds_strict(a: Interval, v: i64)
    ensures
        !a.spec_surrounds(a.min),
        !a.spec_surrounds(a.max),
        a.min < v < a.max ==> a.spec_surrounds(v),
{
}

} // verus!
