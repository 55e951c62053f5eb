//! Closed integer intervals `[start, end]` with `start <= end`.

use vstd::prelude::*;
use crate::error::GffError;

verus! {

/// `bio::utils::Interval::new` accepts a range whose end is not before its
/// start and keeps both bounds as they are; it refuses every other range.
#[verifier::external_body]
fn checked_bounds(start: usize, end: usize) -> (r: Option<(usize, usize)>)
    ensures
        r == (if start <= end {
            Some((start, end))
        } else {
            None
        }),
{
    match bio::utils::Interval::new(start..end) {
        Ok(interval) => Some((interval.start, interval.end)),
        Err(_) => None,
    }
}

/// An interval of coordinates that includes both of its bounds.
#[derive(Clone, Copy, Debug)]
pub struct Interval {
    start: usize,
    end: usize,
}

impl View for Interval {
    type V = (int, int);

    closed spec fn view(&self) -> (int, int) {
        (self.start as int, self.end as int)
    }
}

impl Interval {
    #[verifier::type_invariant]
    spec fn ordered(&self) -> bool {
        self.start <= self.end
    }

    /// The first coordinate of the interval.
    pub open spec fn lo(&self) -> int {
        self@.0
    }

    /// The last coordinate of the interval.
    pub open spec fn hi(&self) -> int {
        self@.1
    }

    /// Whether two intervals share a coordinate.
    pub open spec fn meets(&self, other: &Interval) -> bool {
        self.lo() <= other.hi() && self.hi() >= other.lo()
    }

    /// Whether every coordinate of `other` belongs to this interval.
    pub open spec fn covers(&self, other: &Interval) -> bool {
        self.lo() <= other.lo() && self.hi() >= other.hi()
    }

    /// Both bounds are machine words.
    pub proof fn lemma_bounds(&self)
        ensures
            0 <= self.lo() <= usize::MAX,
            0 <= self.hi() <= usize::MAX,
    {
    }

    /// The interval from `r.start` to `r.end`, both included. A range whose
    /// start lies behind its end is refused.
    pub fn new(r: std::ops::Range<usize>) -> (res: Result<Interval, GffError>)
        ensures
            match res {
                Ok(i) => r.start <= r.end && i@ == (r.start as int, r.end as int),
                Err(e) => r.start > r.end && e == (GffError::InvalidRange {
                    start: r.start,
                    end: r.end,
                }),
            },
    {
        match checked_bounds(r.start, r.end) {
            Some((start, end)) => Ok(Interval { start, end }),
            None => Err(GffError::InvalidRange { start: r.start, end: r.end }),
        }
    }

    /// The interval that holds the coordinate `0` alone.
    pub fn empty() -> (i: Interval)
        ensures
            i@ == (0int, 0int),
    {
        Interval { start: 0, end: 0 }
    }

    /// The first coordinate.
    pub fn start(&self) -> (s: usize)
        ensures
            s == self.lo(),
            self.lo() <= self.hi(),
    {
        proof {
            use_type_invariant(self);
        }
        self.start
    }

    /// The last coordinate.
    pub fn end(&self) -> (e: usize)
        ensures
            e == self.hi(),
            self.lo() <= self.hi(),
    {
        proof {
            use_type_invariant(self);
        }
        self.end
    }

    /// Moves the first coordinate to `start`. A start behind the end is
    /// refused, and the interval stays as it is.
    pub fn set_start(&mut self, start: usize) -> (r: Result<(), GffError>)
        ensures
            match r {
                Ok(()) => start <= old(self).hi() && final(self)@ == (start as int, old(self).hi()),
                Err(e) => start > old(self).hi() && final(self)@ == old(self)@ && e == (
                GffError::InvalidRange { start, end: old(self).hi() as usize }),
            },
    {
        if start <= self.end {
            self.start = start;
            Ok(())
        } else {
            Err(GffError::InvalidRange { start, end: self.end })
        }
    }

    /// Moves the last coordinate to `end`. An end before the start is
    /// refused, and the interval stays as it is.
    pub fn set_end(&mut self, end: usize) -> (r: Result<(), GffError>)
        ensures
            match r {
                Ok(()) => old(self).lo() <= end && final(self)@ == (old(self).lo(), end as int),
                Err(e) => old(self).lo() > end && final(self)@ == old(self)@ && e == (
                GffError::InvalidRange { start: old(self).lo() as usize, end }),
            },
    {
        if self.start <= end {
            self.end = end;
            Ok(())
        } else {
            Err(GffError::InvalidRange { start: self.start, end })
        }
    }

    /// The number of coordinates in the interval.
    pub fn len(&self) -> (n: usize)
        requires
            self.hi() - self.lo() < usize::MAX,
        ensures
            n == self.hi() - self.lo() + 1,
    {
        proof {
            use_type_invariant(self);
        }
        self.end - self.start + 1
    }

    /// Whether the two intervals share a coordinate.
    pub fn overlaps(&self, other: &Interval) -> (b: bool)
        ensures
            b == self.meets(other),
    {
        self.start <= other.end && self.end >= other.start
    }

    /// Whether every coordinate of `other` belongs to this interval.
    pub fn contains(&self, other: &Interval) -> (b: bool)
        ensures
            b == self.covers(other),
    {
        self.start <= other.start && self.end >= other.end
    }

    /// Whether the two intervals have the same bounds.
    pub fn same(&self, other: &Interval) -> (b: bool)
        ensures
            b == (self@ == other@),
    {
        self.start == other.start && self.end == other.end
    }

    /// The smallest interval that covers both intervals.
    pub fn hull(&self, other: &Interval) -> (h: Interval)
        ensures
            h.lo() == (if self.lo() <= other.lo() {
                self.lo()
            } else {
                other.lo()
            }),
            h.hi() == (if self.hi() >= other.hi() {
                self.hi()
            } else {
                other.hi()
            }),
    {
        proof {
            use_type_invariant(self);
            use_type_invariant(other);
        }
        let start = if self.start <= other.start {
            self.start
        } else {
            other.start
        };
        let end = if self.end >= other.end {
            self.end
        } else {
            other.end
        };
        Interval { start, end }
    }
}

} // verus!
