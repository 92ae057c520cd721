use vstd::prelude::*;

verus! {

/// A half-open range of ticks `[start, stop)`.
#[derive(Debug, Clone, Copy, PartialEq, Eq, Structural)]
pub struct TickRange {
    pub start: u32,
    pub stop: u32,
}

/// Whether `tick` lies in `[start, stop)`.
pub open spec fn range_contains(start: int, stop: int, tick: int) -> bool {
    start <= tick && tick < stop
}

/// Whether the ranges `[a_start, a_stop)` and `[b_start, b_stop)` share a tick.
pub open spec fn ranges_overlap(a_start: int, a_stop: int, b_start: int, b_stop: int) -> bool {
    a_start < b_stop && a_stop > b_start
}

impl TickRange {
    pub fn new(start: u32, stop: u32) -> (r: Self)
        ensures
            r.start == start,
            r.stop == stop,
    {
        TickRange { start, stop }
    }

    /// Whether `tick` falls within this range.
    pub fn contains(&self, tick: u32) -> (r: bool)
        ensures
            r == range_contains(self.start as int, self.stop as int, tick as int),
    {
        self.start <= tick && tick < self.stop
    }

    /// Whether this range and `other` share at least one tick.
    pub fn overlaps(&self, other: &TickRange) -> (r: bool)
        ensures
            r == ranges_overlap(self.start as int, self.stop as int, other.start as int, other.stop as int),
    {
        self.start < other.stop && self.stop > other.start
    }

    /// This range moved `offset` ticks later.
    pub fn plus(&self, offset: u32) -> (r: TickRange)
        requires
            self.start + offset <= u32::MAX,
            self.stop + offset <= u32::MAX,
        ensures
            r.start == self.start + offset,
            r.stop == self.stop + offset,
    {
        TickRange { start: self.start + offset, stop: self.stop + offset }
    }

    /// Number of ticks in this range.
    pub fn length(&self) -> (r: u32)
        requires
            self.start <= self.stop,
        ensures
            r == self.stop - self.start,
    {
        self.stop - self.start
    }
}

} // verus!
