use vstd::prelude::*;

use crate::tick_range::TickRange;

verus! {

/// The span of ticks a process cycle covers.
#[derive(Debug, Clone, Copy)]
pub struct Cycle {
    pub start: u32,
    pub end: u32,
}

/// What the logic reads of a process cycle: the ticks it covers, its start and stop in
/// microseconds, whether the transport is rolling, and its number of frames.
#[derive(Debug, Clone, Copy)]
pub struct ProcessCycle {
    pub tick_range: TickRange,
    pub time_stop: u64,
    pub time_start: u64,
    pub is_rolling: bool,
    pub n_frames: u32,
}

impl ProcessCycle {
    /// Microseconds the cycle lasts.
    pub fn usecs(&self) -> (r: u64)
        requires
            self.time_start <= self.time_stop,
        ensures
            r == self.time_stop - self.time_start,
    {
        self.time_stop - self.time_start
    }

    /// Ticks the cycle lasts.
    pub fn ticks(&self) -> (r: u32)
        requires
            self.tick_range.start <= self.tick_range.stop,
        ensures
            r == self.tick_range.stop - self.tick_range.start,
    {
        self.tick_range.stop - self.tick_range.start
    }
}

} // verus!
