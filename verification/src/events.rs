use vstd::prelude::*;

use crate::tick_range::TickRange;

verus! {

/// An event is looping when it stops at or before the tick it starts on: it runs to the end of
/// its container and continues from the container's start.
pub open spec fn span_is_looping(start: u32, stop: Option<u32>) -> bool {
    match stop {
        Some(s) => s <= start,
        None => false,
    }
}

/// Number of ticks an event covers inside a container of `container_length` ticks.
pub open spec fn span_length(start: u32, stop: u32, container_length: u32) -> int {
    if stop <= start {
        stop + container_length - start
    } else {
        stop - start
    }
}

/// Whether an event covering `[start, stop)` (wrapping when looping) overlaps the plain range
/// `[range_start, range_stop)`.
pub open spec fn span_overlaps_range(start: u32, stop: Option<u32>, range_start: u32, range_stop: u32) -> bool {
    match stop {
        Some(s) => if s <= start {
            !(range_start >= s && range_stop <= start)
        } else {
            start < range_stop && s > range_start
        },
        None => false,
    }
}

/// Whether the first span wholly contains the second inside a container of `max_length` ticks.
/// A span that stops where it starts runs round the whole container, so it contains every
/// span that has stopped. A span that stops at 0 counts as looping but covers nothing past
/// the container's end, so a plain span that starts no later and reaches the end contains it.
pub open spec fn span_contains(
    s_start: u32,
    s_stop: Option<u32>,
    o_start: u32,
    o_stop: Option<u32>,
    max_length: u32,
) -> bool {
    match (s_stop, o_stop) {
        (Some(ss), Some(os)) => {
            let s_loops = ss <= s_start;
            let o_loops = os <= o_start;
            if ss == s_start {
                true
            } else if s_loops == o_loops {
                s_start <= o_start && ss >= os
            } else if s_loops {
                s_start <= o_start || ss >= os
            } else {
                (s_start == 0 || (os == 0 && s_start <= o_start)) && ss == max_length
            }
        },
        _ => false,
    }
}

/// Where a stop tick lies on the loop of `length` ticks: a stop at the end is the start again.
pub open spec fn loop_position(tick: u32, length: u32) -> u32 {
    if tick >= length {
        0
    } else {
        tick
    }
}

/// How far tick `b` lies after tick `a` going forward around the loop of `length` ticks.
pub open spec fn loop_distance(a: u32, b: u32, length: u32) -> int {
    if b >= a {
        b - a
    } else {
        b + length - a
    }
}

/// Whether the span from `start` to `stop` (wrapping when looping) covers tick `tick` of a
/// loop of `length` ticks.
pub open spec fn span_covers(start: u32, stop: u32, length: u32, tick: u32) -> bool {
    loop_distance(start, tick, length) < span_length(start, stop, length)
}

/// Whether a span lies on the loop of `length` ticks: it has stopped, starts on the loop and
/// stops no later than its end.
pub open spec fn span_on_loop(start: u32, stop: Option<u32>, length: u32) -> bool {
    &&& stop is Some
    &&& start < length
    &&& stop.unwrap() <= length
}

/// Something drawn on a row of the grid that starts at a tick and may stop at a later one.
pub trait LoopableEvent: Sized + Copy {
    /// The tick the event starts at.
    spec fn start_tick(&self) -> u32;

    /// The tick the event stops at, when it has been closed.
    spec fn stop_tick(&self) -> Option<u32>;

    /// The row (note, pattern or phrase) the event belongs to.
    spec fn row_key(&self) -> u8;

    /// The same event with another start tick.
    spec fn with_start(&self, tick: u32) -> Self;

    /// The same event, closed at another tick.
    spec fn with_stop(&self, tick: u32) -> Self;

    fn start(&self) -> (r: u32)
        ensures
            r == self.start_tick(),
    ;

    fn stop(&self) -> (r: Option<u32>)
        ensures
            r == self.stop_tick(),
    ;

    fn set_stop(&mut self, stop: u32)
        ensures
            *final(self) == old(self).with_stop(stop),
            final(self).stop_tick() == Some(stop),
            (*final(self)).start_tick() == (*old(self)).start_tick(),
            (*final(self)).row_key() == (*old(self)).row_key(),
    ;

    fn set_start(&mut self, start: u32)
        ensures
            *final(self) == old(self).with_start(start),
            final(self).start_tick() == start,
            (*final(self)).stop_tick() == (*old(self)).stop_tick(),
            (*final(self)).row_key() == (*old(self)).row_key(),
    ;

    fn is_on_row(&self, index: u8) -> (r: bool)
        ensures
            r == (self.row_key() == index),
    ;

    fn is_on_same_row(&self, other: &Self) -> (r: bool)
        ensures
            r == (self.row_key() == other.row_key()),
    ;

    fn row(&self, offset: u8) -> (r: u8)
        requires
            self.row_key() >= offset,
        ensures
            r == self.row_key() - offset,
    ;

    fn is_looping(&self) -> (r: bool)
        ensures
            r == span_is_looping(self.start_tick(), self.stop_tick()),
    {
        match self.stop() {
            Some(stop) => stop <= self.start(),
            _ => false,
        }
    }

    /// Ticks covered by the event in a container of `container_length` ticks; a looping event
    /// wraps around the end of the container.
    fn length(&self, container_length: u32) -> (r: u32)
        requires
            self.stop_tick() is Some,
            span_is_looping(self.start_tick(), self.stop_tick()) ==> self.stop_tick().unwrap()
                + container_length <= u32::MAX && self.stop_tick().unwrap() + container_length
                >= self.start_tick(),
        ensures
            r == span_length(self.start_tick(), self.stop_tick().unwrap(), container_length),
    {
        let mut stop = self.stop().unwrap();
        if self.is_looping() {
            stop = stop + container_length;
        }
        stop - self.start()
    }

    fn overlaps_tick_range(&self, start: u32, stop: u32) -> (r: bool)
        ensures
            r == span_overlaps_range(self.start_tick(), self.stop_tick(), start, stop),
    {
        if let Some(self_stop) = self.stop() {
            if self.is_looping() {
                !(start >= self_stop && stop <= self.start())
            } else {
                self.start() < stop && self_stop > start
            }
        } else {
            false
        }
    }

    /// Does this event wholly contain `other`?
    fn contains(&self, other: &Self, max_length: u32) -> (r: bool)
        ensures
            r == span_contains(
                self.start_tick(),
                self.stop_tick(),
                other.start_tick(),
                other.stop_tick(),
                max_length,
            ),
    {
        match (self.stop(), other.stop()) {
            (Some(self_stop), Some(other_stop)) => {
                if self_stop == self.start() {
                    true
                } else if !self.is_looping() && !other.is_looping() || self.is_looping()
                    && other.is_looping() {
                    self.start() <= other.start() && self_stop >= other_stop
                } else {
                    if self.is_looping() && !other.is_looping() {
                        self.start() <= other.start() || self_stop >= other_stop
                    } else {
                        (self.start() == 0 || (other_stop == 0 && self.start() <= other.start()))
                            && self_stop == max_length
                    }
                }
            },
            _ => false,
        }
    }

    /// Move this event out of the way of `other` on a loop of `max_length` ticks: keep what
    /// of it `other` does not cover. When `other` covers its start, it starts where `other`
    /// stops (and stops where `other` starts, if `other` starts again before its end);
    /// otherwise it stops where `other` starts, and the part after `other`, if any, is split
    /// off and returned. Where `other` stops at the end of the loop, what starts after it
    /// starts at tick 0, the same place: the loop's ticks run below its end, so an event
    /// starting at the end itself would never be played.
    fn resize_to_fit(&mut self, other: &Self, max_length: u32) -> (split: Option<Self>)
        ensures
            ({
                let event = *old(self);
                match (event.stop_tick(), other.stop_tick()) {
                    (Some(stop), Some(other_stop)) => {
                        let start = event.start_tick();
                        let other_start = other.start_tick();
                        let other_stop_position = loop_position(other_stop, max_length);
                        let self_length = span_length(start, stop, max_length);
                        let other_length = span_length(other_start, other_stop, max_length);
                        let to_other_start = loop_distance(start, other_start, max_length);
                        let to_other_stop = loop_distance(start, other_stop_position, max_length);
                        if loop_distance(other_start, start, max_length) >= other_length {
                            if to_other_start >= self_length {
                                *final(self) == event && split is None
                            } else if to_other_stop > to_other_start && to_other_stop < self_length {
                                *final(self) == event.with_stop(other_start) && split == Some(
                                    event.with_start(other_stop_position),
                                )
                            } else {
                                *final(self) == event.with_stop(other_start) && split is None
                            }
                        } else if to_other_stop >= self_length {
                            *final(self) == event && split is None
                        } else if to_other_start > to_other_stop && to_other_start < self_length {
                            *final(self) == event.with_start(other_stop_position).with_stop(other_start)
                                && split is None
                        } else {
                            *final(self) == event.with_start(other_stop_position) && split is None
                        }
                    },
                    _ => *final(self) == event && split is None,
                }
            }),
            other.stop_tick() == Some(max_length) && split is Some ==> split == Some(
                old(self).with_start(0),
            ),
    {
        match (self.stop(), other.stop()) {
            (Some(self_stop), Some(other_stop)) => {
                let length = max_length as i64;
                let start = self.start() as i64;
                let stop = self_stop as i64;
                let other_start = other.start() as i64;
                let other_stop_position = if other_stop >= max_length {
                    0
                } else {
                    other_stop
                };
                let self_length = if stop <= start {
                    stop + length - start
                } else {
                    stop - start
                };
                let other_length = if other_stop as i64 <= other_start {
                    other_stop as i64 + length - other_start
                } else {
                    other_stop as i64 - other_start
                };
                let to_other_start = if other_start >= start {
                    other_start - start
                } else {
                    other_start + length - start
                };
                let to_other_stop = if other_stop_position as i64 >= start {
                    other_stop_position as i64 - start
                } else {
                    other_stop_position as i64 + length - start
                };
                let start_from_other = if start >= other_start {
                    start - other_start
                } else {
                    start + length - other_start
                };
                if start_from_other >= other_length {
                    if to_other_start >= self_length {
                        None
                    } else if to_other_stop > to_other_start && to_other_stop < self_length {
                        let mut split = *self;
                        split.set_start(other_stop_position);
                        self.set_stop(other.start());
                        Some(split)
                    } else {
                        self.set_stop(other.start());
                        None
                    }
                } else if to_other_stop >= self_length {
                    None
                } else if to_other_start > to_other_stop && to_other_start < self_length {
                    self.set_start(other_stop_position);
                    self.set_stop(other.start());
                    None
                } else {
                    self.set_start(other_stop_position);
                    None
                }
            },
            _ => None,
        }
    }
}

/// What `resize_to_fit` leaves of `event` when `other` is placed on the same row of a loop
/// of `max_length` ticks, and the part split off after `other`, if any.
pub open spec fn resize_outcome<E: LoopableEvent>(event: E, other: E, max_length: u32) -> (E, Option<E>) {
    match (event.stop_tick(), other.stop_tick()) {
        (Some(stop), Some(other_stop)) => {
            let start = event.start_tick();
            let other_start = other.start_tick();
            let other_stop_position = loop_position(other_stop, max_length);
            let self_length = span_length(start, stop, max_length);
            let other_length = span_length(other_start, other_stop, max_length);
            let to_other_start = loop_distance(start, other_start, max_length);
            let to_other_stop = loop_distance(start, other_stop_position, max_length);
            if loop_distance(other_start, start, max_length) >= other_length {
                if to_other_start >= self_length {
                    (event, None)
                } else if to_other_stop > to_other_start && to_other_stop < self_length {
                    (event.with_stop(other_start), Some(event.with_start(other_stop_position)))
                } else {
                    (event.with_stop(other_start), None)
                }
            } else if to_other_stop >= self_length {
                (event, None)
            } else if to_other_start > to_other_stop && to_other_start < self_length {
                (event.with_start(other_stop_position).with_stop(other_start), None)
            } else {
                (event.with_start(other_stop_position), None)
            }
        },
        _ => (event, None),
    }
}

/// A note in a pattern, with the velocities it starts and stops with.
#[derive(Debug, Clone, Copy)]
pub struct LoopableNoteEvent {
    pub note: u8,
    pub start: u32,
    pub start_velocity: u8,
    pub stop: Option<u32>,
    pub stop_velocity: Option<u8>,
}

impl LoopableEvent for LoopableNoteEvent {
    open spec fn start_tick(&self) -> u32 {
        self.start
    }

    open spec fn stop_tick(&self) -> Option<u32> {
        self.stop
    }

    open spec fn row_key(&self) -> u8 {
        self.note
    }

    open spec fn with_start(&self, tick: u32) -> Self {
        LoopableNoteEvent { start: tick, ..*self }
    }

    open spec fn with_stop(&self, tick: u32) -> Self {
        LoopableNoteEvent { stop: Some(tick), ..*self }
    }

    fn start(&self) -> (r: u32) {
        self.start
    }

    fn stop(&self) -> (r: Option<u32>) {
        self.stop
    }

    fn set_start(&mut self, start: u32) {
        self.start = start;
        assert(self.row_key() == old(self).row_key());
    }

    fn set_stop(&mut self, stop: u32) {
        self.stop = Some(stop);
        assert(self.row_key() == old(self).row_key());
    }

    fn is_on_row(&self, index: u8) -> (r: bool) {
        self.note == index
    }

    fn is_on_same_row(&self, other: &Self) -> (r: bool) {
        self.note == other.note
    }

    fn row(&self, offset: u8) -> (r: u8) {
        self.note - offset
    }
}

impl LoopableNoteEvent {
    pub fn new(start: u32, note: u8, start_velocity: u8) -> (r: Self)
        ensures
            r == (LoopableNoteEvent { start, note, start_velocity, stop: None, stop_velocity: None }),
    {
        Self { start, note, start_velocity, stop: None, stop_velocity: None }
    }
}

/// A pattern played inside a phrase.
#[derive(Debug, Clone, Copy)]
pub struct LoopablePatternEvent {
    pub start: u32,
    pub stop: Option<u32>,
    pub pattern: u8,
}

impl LoopableEvent for LoopablePatternEvent {
    open spec fn start_tick(&self) -> u32 {
        self.start
    }

    open spec fn stop_tick(&self) -> Option<u32> {
        self.stop
    }

    open spec fn row_key(&self) -> u8 {
        self.pattern
    }

    open spec fn with_start(&self, tick: u32) -> Self {
        LoopablePatternEvent { start: tick, ..*self }
    }

    open spec fn with_stop(&self, tick: u32) -> Self {
        LoopablePatternEvent { stop: Some(tick), ..*self }
    }

    fn start(&self) -> (r: u32) {
        self.start
    }

    fn stop(&self) -> (r: Option<u32>) {
        self.stop
    }

    fn set_start(&mut self, start: u32) {
        self.start = start;
        assert(self.row_key() == old(self).row_key());
    }

    fn set_stop(&mut self, stop: u32) {
        self.stop = Some(stop);
        assert(self.row_key() == old(self).row_key());
    }

    fn is_on_row(&self, index: u8) -> (r: bool) {
        self.pattern == index
    }

    fn is_on_same_row(&self, other: &Self) -> (r: bool) {
        self.pattern == other.pattern
    }

    fn row(&self, offset: u8) -> (r: u8) {
        self.pattern - offset
    }
}

/// The plain ranges a pattern event covers inside a phrase of `phrase_length` ticks, each with
/// the tick offset into the pattern at which the range begins.
pub open spec fn pattern_event_ranges(event: LoopablePatternEvent, phrase_length: u32) -> Seq<(TickRange, u32, u8)> {
    let stop = event.stop.unwrap();
    if stop <= event.start {
        seq![
            (TickRange { start: 0, stop }, (phrase_length - event.start) as u32, event.pattern),
            (TickRange { start: event.start, stop: phrase_length }, 0u32, event.pattern),
        ]
    } else {
        seq![(TickRange { start: event.start, stop }, 0u32, event.pattern)]
    }
}

impl LoopablePatternEvent {
    pub fn new(start: u32, pattern: u8) -> (r: Self)
        ensures
            r == (LoopablePatternEvent { start, stop: None, pattern }),
    {
        LoopablePatternEvent { start, stop: None, pattern }
    }

    /// Split a looping event into the part at the start of the phrase and the part at its end.
    pub fn absolute_tick_ranges(&self, phrase_length: u32) -> (r: Vec<(TickRange, u32, u8)>)
        requires
            self.stop is Some,
            span_is_looping(self.start, self.stop) ==> self.start <= phrase_length,
        ensures
            r@ == pattern_event_ranges(*self, phrase_length),
    {
        if self.is_looping() {
            let offset = phrase_length - self.start();
            let r = vec![
                (TickRange::new(0, self.stop().unwrap()), offset, self.pattern),
                (TickRange::new(self.start(), phrase_length), 0, self.pattern),
            ];
            assert(r@ =~= pattern_event_ranges(*self, phrase_length));
            r
        } else {
            let r = vec![(TickRange::new(self.start(), self.stop().unwrap()), 0, self.pattern)];
            assert(r@ =~= pattern_event_ranges(*self, phrase_length));
            r
        }
    }
}

/// A phrase played on a channel's timeline.
#[derive(Debug, Clone, Copy)]
pub struct LoopablePhraseEvent {
    pub start: u32,
    pub stop: Option<u32>,
    pub phrase: u8,
}

impl LoopableEvent for LoopablePhraseEvent {
    open spec fn start_tick(&self) -> u32 {
        self.start
    }

    open spec fn stop_tick(&self) -> Option<u32> {
        self.stop
    }

    open spec fn row_key(&self) -> u8 {
        self.phrase
    }

    open spec fn with_start(&self, tick: u32) -> Self {
        LoopablePhraseEvent { start: tick, ..*self }
    }

    open spec fn with_stop(&self, tick: u32) -> Self {
        LoopablePhraseEvent { stop: Some(tick), ..*self }
    }

    fn start(&self) -> (r: u32) {
        self.start
    }

    fn stop(&self) -> (r: Option<u32>) {
        self.stop
    }

    fn set_start(&mut self, start: u32) {
        self.start = start;
        assert(self.row_key() == old(self).row_key());
    }

    fn set_stop(&mut self, stop: u32) {
        self.stop = Some(stop);
        assert(self.row_key() == old(self).row_key());
    }

    fn is_on_row(&self, index: u8) -> (r: bool) {
        self.phrase == index
    }

    fn is_on_same_row(&self, other: &Self) -> (r: bool) {
        self.phrase == other.phrase
    }

    fn row(&self, offset: u8) -> (r: u8) {
        self.phrase - offset
    }
}

impl LoopablePhraseEvent {
    pub fn new(start: u32, stop: u32, phrase: u8) -> (r: Self)
        ensures
            r == (LoopablePhraseEvent { start, stop: Some(stop), phrase }),
    {
        LoopablePhraseEvent { start, stop: Some(stop), phrase }
    }
}

/// A note that has started playing and the tick at which it stops; its start is kept so
/// that it can be shown as well.
#[derive(Debug, Clone, Copy)]
pub struct PlayingNoteEvent {
    pub start: u32,
    pub stop: u32,
    pub note: u8,
    pub start_velocity: u8,
    pub stop_velocity: u8,
}

} // verus!
