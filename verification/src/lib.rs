use vstd::prelude::*;

pub mod tick_range;
pub mod events;
pub mod loopable;
pub mod controller;
pub mod message;
pub mod display;
pub mod memory;
pub mod note;
pub mod playable;
pub mod cycle;
pub mod pattern;
pub mod phrase;
pub mod scroller;
pub mod track;
pub mod sequence;
pub mod sequencer;
pub mod surface;
pub mod mixer;
pub mod hardware;
pub mod router;

verus! {

/// Number of ticks in one beat of the transport.
pub const TICKS_PER_BEAT: u32 = 1920;

/// Number of beats in one bar.
pub const BEATS_PER_BAR: u32 = 4;

} // verus!
