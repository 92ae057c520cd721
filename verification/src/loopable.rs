use vstd::prelude::*;

use crate::events::{LoopableEvent, LoopableNoteEvent, LoopablePatternEvent, LoopablePhraseEvent, PlayingNoteEvent, resize_outcome, span_contains, span_covers, span_length, span_on_loop, loop_position, loop_distance};
use crate::tick_range::{TickRange, range_contains, ranges_overlap};
use crate::TICKS_PER_BEAT;

verus! {

/// The ranges `range` maps to inside a container of `length` ticks that repeats forever, each
/// paired with the tick at which that repetition of the container starts.
pub open spec fn looping_ranges_of(length: u32, range: TickRange) -> Seq<(TickRange, u32)> {
    let iteration = range.start / length;
    let start = range.start % length;
    let stop = if range.stop % length == 0 { length } else { (range.stop % length) as u32 };
    if start > stop {
        seq![
            (TickRange { start: start as u32, stop: length }, (iteration * length) as u32),
            (TickRange { start: 0, stop }, ((iteration + 1) * length) as u32),
        ]
    } else {
        seq![(TickRange { start: start as u32, stop }, (iteration * length) as u32)]
    }
}

/// Whether the repetition after the one `range` starts in can be counted in a `u32`.
pub open spec fn looping_ranges_fit(length: u32, range: TickRange) -> bool {
    let start = range.start % length;
    let stop = if range.stop % length == 0 { length as int } else { (range.stop % length) as int };
    start > stop ==> (range.start / length + 1) * length <= u32::MAX
}

/// The last event on the row `key`, if any.
pub open spec fn last_on_row<E: LoopableEvent>(events: Seq<E>, key: u8) -> Option<E>
    decreases events.len(),
{
    if events.len() == 0 {
        None
    } else if events.last().row_key() == key {
        Some(events.last())
    } else {
        last_on_row(events.drop_last(), key)
    }
}

/// Index of the last event on the row `key`, or -1.
pub open spec fn last_index_on_row<E: LoopableEvent>(events: Seq<E>, key: u8) -> int
    decreases events.len(),
{
    if events.len() == 0 {
        -1
    } else if events.last().row_key() == key {
        events.len() - 1
    } else {
        last_index_on_row(events.drop_last(), key)
    }
}

/// Events that are not wholly contained in `event` on its own row.
pub open spec fn outside_of<E: LoopableEvent>(events: Seq<E>, event: E, length: u32) -> Seq<E>
    decreases events.len(),
{
    if events.len() == 0 {
        Seq::empty()
    } else {
        let o = events.last();
        let rest = outside_of(events.drop_last(), event, length);
        if event.row_key() == o.row_key() && span_contains(
            event.start_tick(),
            event.stop_tick(),
            o.start_tick(),
            o.stop_tick(),
            length,
        ) {
            rest
        } else {
            rest.push(o)
        }
    }
}

/// Events on the row of `event` cut so that they do not overlap it; others unchanged.
pub open spec fn fitted_around<E: LoopableEvent>(events: Seq<E>, event: E, length: u32) -> Seq<E>
    decreases events.len(),
{
    if events.len() == 0 {
        Seq::empty()
    } else {
        let o = events.last();
        let rest = fitted_around(events.drop_last(), event, length);
        if o.row_key() == event.row_key() {
            rest.push(resize_outcome(o, event, length).0)
        } else {
            rest.push(o)
        }
    }
}

/// The parts split off events on the row of `event` that contain it.
pub open spec fn split_off_by<E: LoopableEvent>(events: Seq<E>, event: E, length: u32) -> Seq<E>
    decreases events.len(),
{
    if events.len() == 0 {
        Seq::empty()
    } else {
        let o = events.last();
        let rest = split_off_by(events.drop_last(), event, length);
        if o.row_key() == event.row_key() && resize_outcome(o, event, length).1 is Some {
            rest.push(resize_outcome(o, event, length).1.unwrap())
        } else {
            rest
        }
    }
}

/// The events after adding the complete `event`: events it contains on its row are dropped,
/// the others on its row are cut around it (adding the parts split off after it), and
/// `event` comes last.
pub open spec fn with_complete_event<E: LoopableEvent>(events: Seq<E>, event: E, length: u32) -> Seq<E> {
    let kept = outside_of(events, event, length);
    fitted_around(kept, event, length) + split_off_by(kept, event, length) + seq![event]
}

/// Whether an event on row `key` starts inside `range`.
pub open spec fn has_event_starting_in<E: LoopableEvent>(events: Seq<E>, range: TickRange, key: u8) -> bool {
    exists|i: int|
        0 <= i < events.len() && #[trigger] events[i].row_key() == key && range_contains(
            range.start as int,
            range.stop as int,
            events[i].start_tick() as int,
        )
}

/// The events, in order, without those on row `key` that start inside `range`.
pub open spec fn without_starting_in<E: LoopableEvent>(events: Seq<E>, range: TickRange, key: u8) -> Seq<E>
    decreases events.len(),
{
    if events.len() == 0 {
        Seq::empty()
    } else {
        let rest = without_starting_in(events.drop_last(), range, key);
        let o = events.last();
        if o.row_key() == key && range_contains(range.start as int, range.stop as int, o.start_tick() as int) {
            rest
        } else {
            rest.push(o)
        }
    }
}

/// Something that holds events on rows and repeats with a length in ticks.
pub trait Loopable {
    type Event: LoopableEvent;

    /// Whether the length can be computed without overflow.
    spec fn length_defined(&self) -> bool;

    /// The length in ticks.
    spec fn length_ticks(&self) -> u32;

    /// The events held.
    spec fn event_seq(&self) -> Seq<Self::Event>;

    fn length(&self) -> (r: u32)
        requires
            self.length_defined(),
        ensures
            r == self.length_ticks(),
    ;

    fn events(&self) -> (r: &Vec<Self::Event>)
        ensures
            r@ == self.event_seq(),
    ;

    /// The length that was set, if any.
    spec fn length_setting(&self) -> Option<u32>;

    /// Remove the events on row `index` that start inside `range`, keeping the order of the
    /// others.
    fn remove_events_starting_in(&mut self, range: TickRange, index: u8)
        ensures
            final(self).event_seq() == without_starting_in(old(self).event_seq(), range, index),
            final(self).length_setting() == old(self).length_setting(),
    ;

    /// Whether an event on row `index` starts inside `range`.
    fn contains_events_starting_in(&self, range: TickRange, index: u8) -> (r: bool)
        ensures
            r == has_event_starting_in(self.event_seq(), range, index),
    {
        let events = self.events();
        let mut i: usize = 0;
        while i < events.len()
            invariant
                0 <= i <= events@.len(),
                events@ == self.event_seq(),
                forall|j: int|
                    0 <= j < i ==> !(#[trigger] events@[j].row_key() == index && range_contains(
                        range.start as int,
                        range.stop as int,
                        events@[j].start_tick() as int,
                    )),
            decreases events@.len() - i,
        {
            if events[i].is_on_row(index) && range.contains(events[i].start()) {
                return true;
            }
            i += 1;
        }
        false
    }

    /// The ranges `range` maps to when this loopable repeats forever, each with the tick at
    /// which its repetition starts.
    fn looping_ranges(&self, range: &TickRange) -> (r: Vec<(TickRange, u32)>)
        requires
            self.length_defined(),
            self.length_ticks() > 0,
            looping_ranges_fit(self.length_ticks(), *range),
        ensures
            r@ == looping_ranges_of(self.length_ticks(), *range),
    {
        let length = self.length();
        let iteration = range.start / length;
        let start = range.start % length;
        let mut stop = range.stop % length;
        if stop == 0 {
            stop = length;
        }
        if start > stop {
            assert(iteration * length <= range.start) by (nonlinear_arith)
                requires
                    iteration == range.start / length,
                    length > 0,
            ;
            assert(iteration + 1 <= (iteration + 1) * length) by (nonlinear_arith)
                requires
                    length > 0,
            ;
            let r = vec![
                (TickRange::new(start, length), iteration * length),
                (TickRange::new(0, stop), (iteration + 1) * length),
            ];
            assert(r@ =~= looping_ranges_of(length, *range));
            r
        } else {
            assert(iteration * length <= range.start) by (nonlinear_arith)
                requires
                    iteration == range.start / length,
                    length > 0,
            ;
            let r = vec![(TickRange::new(start, stop), iteration * length)];
            assert(r@ =~= looping_ranges_of(length, *range));
            r
        }
    }
}

/// Remove all events.
fn clear_all<E>(events: &mut Vec<E>)
    ensures
        final(events)@ == Seq::<E>::empty(),
{
    events.clear();
}

/// Push a starting `event` unless the last event on its row has not stopped yet.
fn add_starting<E: LoopableEvent>(events: &mut Vec<E>, event: E)
    ensures
        (match last_on_row(old(events)@, event.row_key()) {
            Some(p) => p.stop_tick() is None,
            None => false,
        }) ==> final(events)@ == old(events)@,
        !(match last_on_row(old(events)@, event.row_key()) {
            Some(p) => p.stop_tick() is None,
            None => false,
        }) ==> final(events)@ == old(events)@.push(event),
{
    let mut previous: Option<E> = None;
    let mut i: usize = 0;
    while i < events.len()
        invariant
            0 <= i <= events@.len(),
            events@ == old(events)@,
            previous == last_on_row(events@.take(i as int), event.row_key()),
        decreases events@.len() - i,
    {
        assert(events@.take(i + 1).drop_last() =~= events@.take(i as int));
        if events[i].is_on_same_row(&event) {
            previous = Some(events[i]);
        }
        i += 1;
    }
    assert(events@.take(i as int) =~= events@);
    if let Some(p) = previous {
        if p.stop().is_none() {
            return ;
        }
    }
    events.push(event);
}

/// Take the last event on row `index` out of `events`, moving the final event into its place.
fn take_last_on_row<E: LoopableEvent>(events: &mut Vec<E>, index: u8) -> (r: E)
    requires
        last_index_on_row(old(events)@, index) >= 0,
    ensures
        ({
            let j = last_index_on_row(old(events)@, index);
            &&& r == old(events)@[j]
            &&& final(events)@ == old(events)@.update(j, old(events)@.last()).drop_last()
        }),
{
    let mut found: usize = 0;
    let mut i: usize = 0;
    proof {
        lemma_last_index_bounds(events@, index);
    }
    while i < events.len()
        invariant
            0 <= i <= events@.len(),
            events@ == old(events)@,
            last_index_on_row(events@.take(i as int), index) >= 0 ==> found
                == last_index_on_row(events@.take(i as int), index),
            last_index_on_row(events@.take(i as int), index) < 0 ==> found == 0,
        decreases events@.len() - i,
    {
        assert(events@.take(i + 1).drop_last() =~= events@.take(i as int));
        if events[i].is_on_row(index) {
            found = i;
        }
        i += 1;
    }
    assert(events@.take(i as int) =~= events@);
    events.swap_remove(found)
}

proof fn lemma_last_index_bounds<E: LoopableEvent>(events: Seq<E>, key: u8)
    ensures
        -1 <= last_index_on_row(events, key) < events.len(),
        last_index_on_row(events, key) >= 0 ==> events[last_index_on_row(events, key)].row_key()
            == key,
    decreases events.len(),
{
    if events.len() > 0 && events.last().row_key() != key {
        lemma_last_index_bounds(events.drop_last(), key);
    }
}

/// Add the complete `event` (one that has stopped) to `events`, making room for it on its row.
fn add_complete<E: LoopableEvent>(events: &mut Vec<E>, event: E, length: u32)
    ensures
        final(events)@ == with_complete_event(old(events)@, event, length),
{
    let mut kept: Vec<E> = Vec::new();
    let mut i: usize = 0;
    while i < events.len()
        invariant
            0 <= i <= events@.len(),
            events@ == old(events)@,
            kept@ == outside_of(events@.take(i as int), event, length),
        decreases events@.len() - i,
    {
        assert(events@.take(i + 1).drop_last() =~= events@.take(i as int));
        let other = events[i];
        if !(event.is_on_same_row(&other) && event.contains(&other, length)) {
            kept.push(other);
        }
        i += 1;
    }
    assert(events@.take(i as int) =~= events@);
    let ghost kept_seq = kept@;
    let mut fitted: Vec<E> = Vec::new();
    let mut split_events: Vec<E> = Vec::new();
    let mut k: usize = 0;
    while k < kept.len()
        invariant
            0 <= k <= kept@.len(),
            kept@ == kept_seq,
            fitted@ == fitted_around(kept_seq.take(k as int), event, length),
            split_events@ == split_off_by(kept_seq.take(k as int), event, length),
        decreases kept@.len() - k,
    {
        assert(kept_seq.take(k + 1).drop_last() =~= kept_seq.take(k as int));
        let mut other = kept[k];
        if other.is_on_same_row(&event) {
            let split = other.resize_to_fit(&event, length);
            if let Some(s) = split {
                split_events.push(s);
            }
        }
        fitted.push(other);
        k += 1;
    }
    assert(kept_seq.take(k as int) =~= kept_seq);
    fitted.append(&mut split_events);
    fitted.push(event);
    *events = fitted;
}

/// Remove the events on row `index` starting inside `range`, keeping the order of the others.
fn remove_starting_in<E: LoopableEvent>(events: &mut Vec<E>, range: TickRange, index: u8)
    ensures
        final(events)@ == without_starting_in(old(events)@, range, index),
{
    let mut kept: Vec<E> = Vec::new();
    let mut i: usize = 0;
    while i < events.len()
        invariant
            0 <= i <= events@.len(),
            events@ == old(events)@,
            kept@ == without_starting_in(events@.take(i as int), range, index),
        decreases events@.len() - i,
    {
        assert(events@.take(i + 1).drop_last() =~= events@.take(i as int));
        if !(events[i].is_on_row(index) && range.contains(events[i].start())) {
            kept.push(events[i]);
        }
        i += 1;
    }
    assert(events@.take(i as int) =~= events@);
    *events = kept;
}

} // verus!

verus! {

/// The latest stop tick among the events that have stopped.
pub open spec fn max_stop<E: LoopableEvent>(events: Seq<E>) -> Option<u32>
    decreases events.len(),
{
    if events.len() == 0 {
        None
    } else {
        let rest = max_stop(events.drop_last());
        match events.last().stop_tick() {
            Some(s) => match rest {
                Some(m) => Some(if s > m { s } else { m }),
                None => Some(s),
            },
            None => rest,
        }
    }
}

/// Length of a phrase when none is set: four bars.
pub open spec fn default_phrase_length() -> u32 {
    (TICKS_PER_BEAT * 4 * 4) as u32
}

/// Length of a timeline: the latest stop of its phrases plus four phrases of padding, or
/// eight phrases when no phrase has stopped.
pub open spec fn timeline_length(events: Seq<LoopablePhraseEvent>) -> int {
    match max_stop(events) {
        Some(m) => m + default_phrase_length() * 4,
        None => default_phrase_length() * 8,
    }
}

/// The phrases played on a channel over time.
pub struct Timeline {
    pub phrase_events: Vec<LoopablePhraseEvent>,
}

impl Clone for Timeline {
    fn clone(&self) -> (r: Self)
        ensures
            r.phrase_events@ == self.phrase_events@,
    {
        Timeline { phrase_events: copy_events(&self.phrase_events) }
    }
}

/// A copy of `events`.
fn copy_events<E: LoopableEvent>(events: &Vec<E>) -> (r: Vec<E>)
    ensures
        r@ == events@,
{
    let mut out: Vec<E> = Vec::new();
    let mut i: usize = 0;
    while i < events.len()
        invariant
            0 <= i <= events@.len(),
            out@ == events@.take(i as int),
        decreases events@.len() - i,
    {
        out.push(events[i]);
        assert(out@ =~= events@.take(i + 1));
        i += 1;
    }
    assert(events@.take(i as int) =~= events@);
    out
}

impl Loopable for Timeline {
    type Event = LoopablePhraseEvent;

    open spec fn length_defined(&self) -> bool {
        timeline_length(self.phrase_events@) <= u32::MAX
    }

    open spec fn length_ticks(&self) -> u32 {
        timeline_length(self.phrase_events@) as u32
    }

    open spec fn event_seq(&self) -> Seq<LoopablePhraseEvent> {
        self.phrase_events@
    }

    /// The latest stop tick plus some padding.
    fn length(&self) -> (r: u32) {
        let m = latest_stop(&self.phrase_events);
        match m {
            Some(m) => m + Phrase::default_length() * 4,
            None => Phrase::default_length() * 8,
        }
    }

    fn events(&self) -> (r: &Vec<LoopablePhraseEvent>) {
        &self.phrase_events
    }

    open spec fn length_setting(&self) -> Option<u32> {
        None
    }

    /// Remove the phrase events on row `index` that start inside `range`.
    fn remove_events_starting_in(&mut self, range: TickRange, index: u8) {
        remove_starting_in(&mut self.phrase_events, range, index);
    }
}

/// The latest stop tick among `events`.
fn latest_stop<E: LoopableEvent>(events: &Vec<E>) -> (r: Option<u32>)
    ensures
        r == max_stop(events@),
{
    let mut m: Option<u32> = None;
    let mut i: usize = 0;
    while i < events.len()
        invariant
            0 <= i <= events@.len(),
            m == max_stop(events@.take(i as int)),
        decreases events@.len() - i,
    {
        assert(events@.take(i + 1).drop_last() =~= events@.take(i as int));
        if let Some(s) = events[i].stop() {
            m = match m {
                Some(x) => Some(if s > x { s } else { x }),
                None => Some(s),
            };
        }
        i += 1;
    }
    assert(events@.take(i as int) =~= events@);
    m
}

impl Timeline {
    pub fn new() -> (r: Self)
        ensures
            r.phrase_events@ == Seq::<LoopablePhraseEvent>::empty(),
    {
        Timeline { phrase_events: Vec::new() }
    }

    /// The latest stop tick of the phrases on the timeline, or 0.
    pub fn get_last_stop(&self) -> (r: u32)
        ensures
            r == match max_stop(self.phrase_events@) {
                Some(m) => m,
                None => 0,
            },
    {
        match latest_stop(&self.phrase_events) {
            Some(m) => m,
            None => 0,
        }
    }

    pub fn clear_events(&mut self)
        ensures
            final(self).phrase_events@ == Seq::<LoopablePhraseEvent>::empty(),
    {
        clear_all(&mut self.phrase_events);
    }

    /// Open a phrase event unless the last one on its row is still open.
    pub fn try_add_starting_event(&mut self, event: LoopablePhraseEvent)
        ensures
            (match last_on_row(old(self).phrase_events@, event.phrase) {
                Some(p) => p.stop is None,
                None => false,
            }) ==> final(self).phrase_events@ == old(self).phrase_events@,
            !(match last_on_row(old(self).phrase_events@, event.phrase) {
                Some(p) => p.stop is None,
                None => false,
            }) ==> final(self).phrase_events@ == old(self).phrase_events@.push(event),
    {
        add_starting(&mut self.phrase_events, event);
    }

    /// Take out the last phrase event on row `index`.
    pub fn get_last_event_on_row(&mut self, index: u8) -> (r: LoopablePhraseEvent)
        requires
            last_index_on_row(old(self).phrase_events@, index) >= 0,
        ensures
            ({
                let s = old(self).phrase_events@;
                let j = last_index_on_row(s, index);
                &&& r == s[j]
                &&& final(self).phrase_events@ == s.update(j, s.last()).drop_last()
            }),
    {
        take_last_on_row(&mut self.phrase_events, index)
    }

    /// Add a complete phrase event, making room for it on its row.
    pub fn add_complete_event(&mut self, event: LoopablePhraseEvent)
        requires
            old(self).length_defined(),
        ensures
            final(self).phrase_events@ == with_complete_event(
                old(self).phrase_events@,
                event,
                old(self).length_ticks(),
            ),
    {
        let length = self.length();
        add_complete(&mut self.phrase_events, event, length);
    }

}

/// Whether moving the start or the stop of an event of type `E` changes nothing else.
pub open spec fn spans_move<E: LoopableEvent>() -> bool {
    &&& forall|e: E, t: u32|
        #[trigger] e.with_start(t).start_tick() == t && e.with_start(t).stop_tick() == e.stop_tick()
            && e.with_start(t).row_key() == e.row_key()
    &&& forall|e: E, t: u32|
        #[trigger] e.with_stop(t).stop_tick() == Some(t) && e.with_stop(t).start_tick() == e.start_tick()
            && e.with_stop(t).row_key() == e.row_key()
}

/// Notes move their start and stop only.
pub proof fn lemma_notes_move()
    ensures
        spans_move::<LoopableNoteEvent>(),
{
}

/// Pattern events move their start and stop only.
pub proof fn lemma_pattern_events_move()
    ensures
        spans_move::<LoopablePatternEvent>(),
{
}

/// Phrase events move their start and stop only.
pub proof fn lemma_phrase_events_move()
    ensures
        spans_move::<LoopablePhraseEvent>(),
{
}

/// Whether every event on row `key` among `events` has stopped and lies on the loop of
/// `length` ticks.
pub open spec fn row_on_loop<E: LoopableEvent>(events: Seq<E>, key: u8, length: u32) -> bool {
    forall|i: int|
        0 <= i < events.len() && (#[trigger] events[i]).row_key() == key ==> span_on_loop(
            events[i].start_tick(),
            events[i].stop_tick(),
            length,
        )
}

/// Whether the stopped events `a` and `b` share a tick of the loop of `length` ticks.
pub open spec fn share_a_tick<E: LoopableEvent>(a: E, b: E, length: u32) -> bool {
    exists|t: u32|
        t < length && #[trigger] span_covers(a.start_tick(), a.stop_tick().unwrap(), length, t) && span_covers(
            b.start_tick(),
            b.stop_tick().unwrap(),
            length,
            t,
        )
}

/// Whether every tick of the loop of `length` ticks the stopped event `a` covers, `b` covers.
pub open spec fn covered_by<E: LoopableEvent>(a: E, b: E, length: u32) -> bool {
    forall|t: u32|
        t < length && #[trigger] span_covers(a.start_tick(), a.stop_tick().unwrap(), length, t) ==> span_covers(
            b.start_tick(),
            b.stop_tick().unwrap(),
            length,
            t,
        )
}

/// Whether no event on the row of `event` among `events` shares a tick of the loop of
/// `length` ticks with it.
pub open spec fn clear_of<E: LoopableEvent>(events: Seq<E>, event: E, length: u32) -> bool {
    forall|i: int|
        0 <= i < events.len() && (#[trigger] events[i]).row_key() == event.row_key() ==> {
            &&& events[i].stop_tick() is Some
            &&& !share_a_tick(events[i], event, length)
        }
}

/// What `resize_to_fit` leaves of an event on the loop, and what it splits off, share no tick
/// with the event placed, unless that event contains it.
proof fn lemma_resize_clears<E: LoopableEvent>(o: E, event: E, length: u32)
    requires
        spans_move::<E>(),
        span_on_loop(o.start_tick(), o.stop_tick(), length),
        span_on_loop(event.start_tick(), event.stop_tick(), length),
        !span_contains(event.start_tick(), event.stop_tick(), o.start_tick(), o.stop_tick(), length),
    ensures
        resize_outcome(o, event, length).0.stop_tick() is Some,
        !share_a_tick(resize_outcome(o, event, length).0, event, length),
        covered_by(resize_outcome(o, event, length).0, o, length),
        resize_outcome(o, event, length).0.row_key() == o.row_key(),
        resize_outcome(o, event, length).1 matches Some(p) ==> {
            &&& p.stop_tick() is Some
            &&& !share_a_tick(p, event, length)
            &&& covered_by(p, o, length)
            &&& p.row_key() == o.row_key()
            &&& !share_a_tick(resize_outcome(o, event, length).0, p, length)
        },
{
    let (a, b) = resize_outcome(o, event, length);
    let os = o.start_tick();
    let oe = o.stop_tick().unwrap();
    let ns = event.start_tick();
    let ne = event.stop_tick().unwrap();
    let pos = loop_position(ne, length);
    assert(ns != ne);
    assert(o.with_stop(ns).stop_tick() == Some(ns) && o.with_stop(ns).start_tick() == os
        && o.with_stop(ns).row_key() == o.row_key());
    assert(o.with_start(pos).stop_tick() == Some(oe) && o.with_start(pos).start_tick() == pos
        && o.with_start(pos).row_key() == o.row_key());
    let w = o.with_start(pos);
    let ws = w.with_stop(ns);
    assert(ws.stop_tick() == Some(ns));
    assert(ws.start_tick() == w.start_tick());
    assert(ws.row_key() == w.row_key());
    assert(ws.start_tick() == pos && ws.row_key() == o.row_key());
    assert(a.stop_tick() is Some);
    assert forall|t: u32| t < length && #[trigger] span_covers(a.start_tick(), a.stop_tick().unwrap(), length, t)
        implies !span_covers(ns, ne, length, t) && span_covers(os, oe, length, t) by {
        assert(span_covers(os, oe, length, t) || !span_covers(os, oe, length, t));
    }
    if let Some(p) = b {
        assert forall|t: u32| t < length && #[trigger] span_covers(p.start_tick(), p.stop_tick().unwrap(), length, t)
            implies !span_covers(ns, ne, length, t) && span_covers(os, oe, length, t) by {
            assert(span_covers(os, oe, length, t) || !span_covers(os, oe, length, t));
        }
        assert forall|t: u32| t < length && #[trigger] span_covers(a.start_tick(), a.stop_tick().unwrap(), length, t)
            implies !span_covers(p.start_tick(), p.stop_tick().unwrap(), length, t) by {
            assert(span_covers(os, oe, length, t) || !span_covers(os, oe, length, t));
        }
    }
}

/// The events kept when `event` is placed lie on the loop, and `event` contains none of
/// those on its row.
proof fn lemma_outside_of_on_loop<E: LoopableEvent>(events: Seq<E>, event: E, length: u32)
    requires
        row_on_loop(events, event.row_key(), length),
    ensures
        row_on_loop(outside_of(events, event, length), event.row_key(), length),
        forall|i: int|
            0 <= i < outside_of(events, event, length).len() && (#[trigger] outside_of(events, event, length)[i]).row_key()
                == event.row_key() ==> !span_contains(
                event.start_tick(),
                event.stop_tick(),
                outside_of(events, event, length)[i].start_tick(),
                outside_of(events, event, length)[i].stop_tick(),
                length,
            ),
    decreases events.len(),
{
    if events.len() > 0 {
        let rest = events.drop_last();
        assert(row_on_loop(rest, event.row_key(), length)) by {
            assert forall|i: int| 0 <= i < rest.len() && (#[trigger] rest[i]).row_key() == event.row_key() implies span_on_loop(
                rest[i].start_tick(),
                rest[i].stop_tick(),
                length,
            ) by {
                assert(rest[i] == events[i]);
            }
        }
        lemma_outside_of_on_loop(rest, event, length);
        assert(events.last() == events[events.len() - 1]);
        let out = outside_of(events, event, length);
        let out_rest = outside_of(rest, event, length);
        assert forall|i: int| 0 <= i < out.len() && i < out_rest.len() implies out[i] == out_rest[i] by {}
    }
}

proof fn lemma_fitted_clear<E: LoopableEvent>(events: Seq<E>, event: E, length: u32)
    requires
        spans_move::<E>(),
        row_on_loop(events, event.row_key(), length),
        span_on_loop(event.start_tick(), event.stop_tick(), length),
        forall|i: int|
            0 <= i < events.len() && (#[trigger] events[i]).row_key() == event.row_key() ==> !span_contains(
                event.start_tick(),
                event.stop_tick(),
                events[i].start_tick(),
                events[i].stop_tick(),
                length,
            ),
    ensures
        clear_of(fitted_around(events, event, length), event, length),
        fitted_around(events, event, length).len() == events.len(),
    decreases events.len(),
{
    if events.len() > 0 {
        let rest = events.drop_last();
        assert forall|i: int| 0 <= i < rest.len() && (#[trigger] rest[i]).row_key() == event.row_key() implies span_on_loop(
            rest[i].start_tick(),
            rest[i].stop_tick(),
            length,
        ) && !span_contains(
            event.start_tick(),
            event.stop_tick(),
            rest[i].start_tick(),
            rest[i].stop_tick(),
            length,
        ) by {
            assert(rest[i] == events[i]);
        }
        lemma_fitted_clear(rest, event, length);
        let o = events.last();
        assert(o == events[events.len() - 1]);
        if o.row_key() == event.row_key() {
            lemma_resize_clears(o, event, length);
        }
        let out = fitted_around(events, event, length);
        let out_rest = fitted_around(rest, event, length);
        assert forall|i: int| 0 <= i < out.len() && (#[trigger] out[i]).row_key() == event.row_key() implies {
            &&& out[i].stop_tick() is Some
            &&& !share_a_tick(out[i], event, length)
        } by {
            if i < out_rest.len() {
                assert(out[i] == out_rest[i]);
            } else {
                assert(out[i] == resize_outcome(o, event, length).0 || out[i] == o);
            }
        }
    }
}

proof fn lemma_split_clear<E: LoopableEvent>(events: Seq<E>, event: E, length: u32)
    requires
        spans_move::<E>(),
        row_on_loop(events, event.row_key(), length),
        span_on_loop(event.start_tick(), event.stop_tick(), length),
        forall|i: int|
            0 <= i < events.len() && (#[trigger] events[i]).row_key() == event.row_key() ==> !span_contains(
                event.start_tick(),
                event.stop_tick(),
                events[i].start_tick(),
                events[i].stop_tick(),
                length,
            ),
    ensures
        clear_of(split_off_by(events, event, length), event, length),
    decreases events.len(),
{
    if events.len() > 0 {
        let rest = events.drop_last();
        assert forall|i: int| 0 <= i < rest.len() && (#[trigger] rest[i]).row_key() == event.row_key() implies span_on_loop(
            rest[i].start_tick(),
            rest[i].stop_tick(),
            length,
        ) && !span_contains(
            event.start_tick(),
            event.stop_tick(),
            rest[i].start_tick(),
            rest[i].stop_tick(),
            length,
        ) by {
            assert(rest[i] == events[i]);
        }
        lemma_split_clear(rest, event, length);
        let o = events.last();
        assert(o == events[events.len() - 1]);
        if o.row_key() == event.row_key() {
            lemma_resize_clears(o, event, length);
        }
        let out = split_off_by(events, event, length);
        let out_rest = split_off_by(rest, event, length);
        assert forall|i: int| 0 <= i < out.len() && (#[trigger] out[i]).row_key() == event.row_key() implies {
            &&& out[i].stop_tick() is Some
            &&& !share_a_tick(out[i], event, length)
        } by {
            if i < out_rest.len() {
                assert(out[i] == out_rest[i]);
            } else {
                assert(out[i] == resize_outcome(o, event, length).1.unwrap());
            }
        }
    }
}

/// Events do not overlap on a row: once an event is added to a loop of `length` ticks, no
/// other event on its row shares a tick with it. The events on its row it contains are
/// dropped, the others are cut around it, looping ones included, and it comes last; one that
/// stops where it starts runs round the whole loop and drops them all. This holds when the
/// events on its row and the added event have stopped and lie on the loop.
pub proof fn law_complete_event_overlaps_nothing<E: LoopableEvent>(events: Seq<E>, event: E, length: u32)
    requires
        spans_move::<E>(),
        row_on_loop(events, event.row_key(), length),
        span_on_loop(event.start_tick(), event.stop_tick(), length),
    ensures
        ({
            let result = with_complete_event(events, event, length);
            &&& result.last() == event
            &&& clear_of(result.drop_last(), event, length)
        }),
{
    let kept = outside_of(events, event, length);
    lemma_outside_of_on_loop(events, event, length);
    lemma_fitted_clear(kept, event, length);
    lemma_split_clear(kept, event, length);
    let a = fitted_around(kept, event, length);
    let b = split_off_by(kept, event, length);
    let result = with_complete_event(events, event, length);
    assert(result.drop_last() =~= a + b);
    assert forall|i: int| 0 <= i < (a + b).len() && (#[trigger] (a + b)[i]).row_key() == event.row_key() implies {
        &&& (a + b)[i].stop_tick() is Some
        &&& !share_a_tick((a + b)[i], event, length)
    } by {
        if i < a.len() {
            assert((a + b)[i] == a[i]);
        } else {
            assert((a + b)[i] == b[i - a.len()]);
        }
    }
}

/// Whether no two events on row `key` among `events` share a tick of the loop of `length`
/// ticks.
pub open spec fn row_apart<E: LoopableEvent>(events: Seq<E>, key: u8, length: u32) -> bool {
    forall|i: int, j: int|
        0 <= i < events.len() && 0 <= j < events.len() && i != j && (#[trigger] events[i]).row_key() == key
            && (#[trigger] events[j]).row_key() == key ==> !share_a_tick(events[i], events[j], length)
}

/// Events inside two events that share no tick share none either.
proof fn lemma_covered_apart<E: LoopableEvent>(x: E, big_x: E, y: E, big_y: E, length: u32)
    requires
        covered_by(x, big_x, length),
        covered_by(y, big_y, length),
        !share_a_tick(big_x, big_y, length),
    ensures
        !share_a_tick(x, y, length),
{
    if share_a_tick(x, y, length) {
        let t = choose|t: u32|
            t < length && #[trigger] span_covers(x.start_tick(), x.stop_tick().unwrap(), length, t) && span_covers(
                y.start_tick(),
                y.stop_tick().unwrap(),
                length,
                t,
            );
        assert(span_covers(big_x.start_tick(), big_x.stop_tick().unwrap(), length, t));
        assert(span_covers(y.start_tick(), y.stop_tick().unwrap(), length, t));
        assert(span_covers(big_y.start_tick(), big_y.stop_tick().unwrap(), length, t));
    }
}

/// The events kept when `event` is placed are events of `events`, and keep apart what was
/// apart.
proof fn lemma_outside_of_apart<E: LoopableEvent>(events: Seq<E>, event: E, length: u32, key: u8)
    requires
        row_apart(events, key, length),
    ensures
        row_apart(outside_of(events, event, length), key, length),
        forall|i: int|
            0 <= i < outside_of(events, event, length).len() ==> events.contains(
                #[trigger] outside_of(events, event, length)[i],
            ),
    decreases events.len(),
{
    if events.len() > 0 {
        let rest = events.drop_last();
        assert forall|i: int, j: int|
            0 <= i < rest.len() && 0 <= j < rest.len() && i != j && (#[trigger] rest[i]).row_key() == key
                && (#[trigger] rest[j]).row_key() == key implies !share_a_tick(rest[i], rest[j], length) by {
            assert(rest[i] == events[i] && rest[j] == events[j]);
        }
        lemma_outside_of_apart(rest, event, length, key);
        let o = events.last();
        let n = events.len() - 1;
        assert(o == events[n]);
        let out = outside_of(events, event, length);
        let out_rest = outside_of(rest, event, length);
        assert forall|i: int| 0 <= i < out.len() implies events.contains(#[trigger] out[i]) by {
            if i < out_rest.len() {
                assert(out[i] == out_rest[i]);
                let k = choose|k: int| 0 <= k < rest.len() && rest[k] == out_rest[i];
                assert(events[k] == rest[k]);
            } else {
                assert(out[i] == o);
            }
        }
        assert forall|i: int, j: int|
            0 <= i < out.len() && 0 <= j < out.len() && i != j && (#[trigger] out[i]).row_key() == key
                && (#[trigger] out[j]).row_key() == key implies !share_a_tick(out[i], out[j], length) by {
            if i < out_rest.len() && j < out_rest.len() {
                assert(out[i] == out_rest[i] && out[j] == out_rest[j]);
            } else if i < out_rest.len() {
                assert(out[i] == out_rest[i] && out[j] == o);
                assert(rest.contains(out_rest[i]));
                let k = choose|k: int| 0 <= k < rest.len() && rest[k] == out_rest[i];
                assert(events[k] == rest[k]);
                assert(!share_a_tick(events[k], events[n], length));
            } else {
                assert(out[i] == o && out[j] == out_rest[j]);
                assert(rest.contains(out_rest[j]));
                let k = choose|k: int| 0 <= k < rest.len() && rest[k] == out_rest[j];
                assert(events[k] == rest[k]);
                assert(!share_a_tick(events[n], events[k], length));
            }
        }
    }
}

/// Each event that `fitted_around` gives is what it made of the event at the same place.
proof fn lemma_fitted_index<E: LoopableEvent>(events: Seq<E>, event: E, length: u32)
    ensures
        fitted_around(events, event, length).len() == events.len(),
        forall|i: int|
            0 <= i < events.len() ==> #[trigger] fitted_around(events, event, length)[i] == if events[i].row_key()
                == event.row_key() {
                resize_outcome(events[i], event, length).0
            } else {
                events[i]
            },
    decreases events.len(),
{
    if events.len() > 0 {
        let rest = events.drop_last();
        lemma_fitted_index(rest, event, length);
        let out = fitted_around(events, event, length);
        assert forall|i: int| 0 <= i < events.len() implies #[trigger] out[i] == if events[i].row_key()
            == event.row_key() {
            resize_outcome(events[i], event, length).0
        } else {
            events[i]
        } by {
            if i < rest.len() {
                assert(rest[i] == events[i]);
            }
        }
    }
}

/// Each part that `split_off_by` gives was split off an event on the row of `event`, and as
/// many parts come before it as the events before that one gave.
proof fn lemma_split_source<E: LoopableEvent>(events: Seq<E>, event: E, length: u32)
    ensures
        forall|j: int|
            #![trigger split_off_by(events, event, length)[j]]
            0 <= j < split_off_by(events, event, length).len() ==> exists|k: int|
                {
                    &&& 0 <= k < events.len()
                    &&& (#[trigger] events[k]).row_key() == event.row_key()
                    &&& resize_outcome(events[k], event, length).1 == Some(split_off_by(events, event, length)[j])
                    &&& split_off_by(events.take(k), event, length).len() == j
                },
    decreases events.len(),
{
    if events.len() > 0 {
        let rest = events.drop_last();
        lemma_split_source(rest, event, length);
        let out = split_off_by(events, event, length);
        let out_rest = split_off_by(rest, event, length);
        let n = events.len() - 1;
        assert forall|j: int| #![trigger out[j]] 0 <= j < out.len() implies exists|k: int|
            {
                &&& 0 <= k < events.len()
                &&& (#[trigger] events[k]).row_key() == event.row_key()
                &&& resize_outcome(events[k], event, length).1 == Some(out[j])
                &&& split_off_by(events.take(k), event, length).len() == j
            } by {
            if j < out_rest.len() {
                assert(out[j] == out_rest[j]);
                let k = choose|k: int|
                    {
                        &&& 0 <= k < rest.len()
                        &&& (#[trigger] rest[k]).row_key() == event.row_key()
                        &&& resize_outcome(rest[k], event, length).1 == Some(out_rest[j])
                        &&& split_off_by(rest.take(k), event, length).len() == j
                    };
                assert(rest[k] == events[k]);
                assert(rest.take(k) =~= events.take(k));
            } else {
                assert(events.take(n) =~= rest);
                assert(events[n] == events.last());
            }
        }
    }
}

/// Events do not overlap on any row: when no two events on a row share a tick of a loop of
/// `length` ticks, none do once an event is added, whether on that row or on another. This
/// holds when the events on the added event's row and the added event have stopped and lie on
/// the loop.
pub proof fn law_complete_event_keeps_rows_apart<E: LoopableEvent>(events: Seq<E>, event: E, length: u32, key: u8)
    requires
        spans_move::<E>(),
        row_on_loop(events, event.row_key(), length),
        span_on_loop(event.start_tick(), event.stop_tick(), length),
        row_apart(events, key, length),
    ensures
        row_apart(with_complete_event(events, event, length), key, length),
{
    let kept = outside_of(events, event, length);
    let a = fitted_around(kept, event, length);
    let b = split_off_by(kept, event, length);
    let result = with_complete_event(events, event, length);
    law_complete_event_overlaps_nothing(events, event, length);
    lemma_outside_of_on_loop(events, event, length);
    lemma_outside_of_apart(events, event, length, key);
    lemma_fitted_index(kept, event, length);
    lemma_split_source(kept, event, length);
    let body = a + b;
    assert(result.drop_last() =~= body);
    assert(result =~= body.push(event));
    // Where each part on the row comes from among the kept events, and that it lies inside it.
    assert forall|p: int| 0 <= p < body.len() && (#[trigger] body[p]).row_key() == key implies exists|k: int|
        {
            &&& 0 <= k < kept.len()
            &&& (#[trigger] kept[k]).row_key() == key
            &&& (key == event.row_key() ==> covered_by(body[p], kept[k], length))
            &&& (key != event.row_key() ==> body[p] == kept[k])
            &&& (p < a.len() ==> k == p)
            &&& (p >= a.len() ==> key == event.row_key() && resize_outcome(kept[k], event, length).1 == Some(body[p])
                && split_off_by(kept.take(k), event, length).len() == p - a.len())
        } by {
        if p < a.len() {
            assert(body[p] == a[p]);
            if kept[p].row_key() == event.row_key() {
                lemma_resize_clears(kept[p], event, length);
            }
        } else {
            let j = p - a.len();
            assert(body[p] == b[j]);
            let k = choose|k: int|
                {
                    &&& 0 <= k < kept.len()
                    &&& (#[trigger] kept[k]).row_key() == event.row_key()
                    &&& resize_outcome(kept[k], event, length).1 == Some(b[j])
                    &&& split_off_by(kept.take(k), event, length).len() == j
                };
            lemma_resize_clears(kept[k], event, length);
        }
    }
    assert forall|i: int, j: int|
        0 <= i < result.len() && 0 <= j < result.len() && i != j && (#[trigger] result[i]).row_key() == key
            && (#[trigger] result[j]).row_key() == key implies !share_a_tick(result[i], result[j], length) by {
        let n = body.len() as int;
        if i == n || j == n {
            if i == n {
                assert(result[i] == event && result[j] == body[j]);
            } else {
                assert(result[j] == event && result[i] == body[i]);
            }
        } else {
            assert(result[i] == body[i] && result[j] == body[j]);
            let ki = choose|k: int|
                {
                    &&& 0 <= k < kept.len()
                    &&& (#[trigger] kept[k]).row_key() == key
                    &&& (key == event.row_key() ==> covered_by(body[i], kept[k], length))
                    &&& (key != event.row_key() ==> body[i] == kept[k])
                    &&& (i < a.len() ==> k == i)
                    &&& (i >= a.len() ==> key == event.row_key() && resize_outcome(kept[k], event, length).1 == Some(body[i])
                        && split_off_by(kept.take(k), event, length).len() == i - a.len())
                };
            let kj = choose|k: int|
                {
                    &&& 0 <= k < kept.len()
                    &&& (#[trigger] kept[k]).row_key() == key
                    &&& (key == event.row_key() ==> covered_by(body[j], kept[k], length))
                    &&& (key != event.row_key() ==> body[j] == kept[k])
                    &&& (j < a.len() ==> k == j)
                    &&& (j >= a.len() ==> key == event.row_key() && resize_outcome(kept[k], event, length).1 == Some(body[j])
                        && split_off_by(kept.take(k), event, length).len() == j - a.len())
                };
            if ki != kj {
                assert(!share_a_tick(kept[ki], kept[kj], length));
                if key == event.row_key() {
                    lemma_covered_apart(body[i], kept[ki], body[j], kept[kj], length);
                }
            } else {
                lemma_resize_clears(kept[ki], event, length);
                if i < a.len() {
                    assert(body[i] == resize_outcome(kept[ki], event, length).0);
                } else {
                    assert(body[j] == resize_outcome(kept[ki], event, length).0);
                }
            }
        }
    }
}

/// The latest stop is the stop of one of the events, and there is one exactly when some event
/// has stopped.
pub proof fn lemma_max_stop_attained<E: LoopableEvent>(events: Seq<E>)
    ensures
        max_stop(events) is Some <==> exists|i: int| 0 <= i < events.len() && (#[trigger] events[i].stop_tick()) is Some,
        max_stop(events) matches Some(m) ==> exists|i: int|
            0 <= i < events.len() && #[trigger] events[i].stop_tick() == Some(m),
    decreases events.len(),
{
    if events.len() > 0 {
        let rest = events.drop_last();
        lemma_max_stop_attained(rest);
        assert forall|i: int| 0 <= i < rest.len() implies rest[i] == events[i] by {}
        let last = events.len() - 1;
        assert(events.last() == events[last]);
        if max_stop(rest) is Some {
            let w = choose|i: int| 0 <= i < rest.len() && #[trigger] rest[i].stop_tick() == Some(max_stop(rest).unwrap());
            assert(events[w] == rest[w]);
        }
        if exists|i: int| 0 <= i < events.len() && (#[trigger] events[i].stop_tick()) is Some {
            let w = choose|i: int| 0 <= i < events.len() && (#[trigger] events[i].stop_tick()) is Some;
            if w < last {
                assert(rest[w] == events[w]);
            }
        }
    }
}

/// A timeline is as long as its latest phrase stop plus four default phrases, or eight
/// default phrases while no phrase on it has stopped; no phrase stops later than that stop.
pub proof fn law_timeline_length(timeline: Timeline)
    ensures
        (exists|i: int|
            0 <= i < timeline.phrase_events@.len() && (#[trigger] timeline.phrase_events@[i].stop) is Some) ==> {
            let m = max_stop(timeline.phrase_events@).unwrap();
            &&& max_stop(timeline.phrase_events@) is Some
            &&& timeline_length(timeline.phrase_events@) == m + default_phrase_length() * 4
            &&& stops_within(timeline.phrase_events@, m as int)
            &&& exists|i: int| 0 <= i < timeline.phrase_events@.len() && #[trigger] timeline.phrase_events@[i].stop == Some(m)
        },
        !(exists|i: int|
            0 <= i < timeline.phrase_events@.len() && (#[trigger] timeline.phrase_events@[i].stop) is Some)
            ==> timeline_length(timeline.phrase_events@) == default_phrase_length() * 8,
{
    let events = timeline.phrase_events@;
    lemma_max_stop_attained(events);
    lemma_max_stop_bounds(events);
    if exists|i: int| 0 <= i < events.len() && (#[trigger] events[i].stop) is Some {
        let w = choose|i: int| 0 <= i < events.len() && (#[trigger] events[i].stop) is Some;
        assert(events[w].stop_tick() is Some);
        let m = max_stop(events).unwrap();
        let v = choose|i: int| 0 <= i < events.len() && #[trigger] events[i].stop_tick() == Some(m);
        assert(events[v].stop == Some(m));
    } else {
        assert forall|i: int| 0 <= i < events.len() implies (#[trigger] events[i].stop_tick()) is None by {
            assert(events[i].stop_tick() == events[i].stop);
        }
    }
}

/// Setting a length on a pattern and unsetting it again gives back the length its notes give
/// it: an explicit length is the length, and without one the notes decide.
pub proof fn law_unset_length_restores(before: Pattern, set: Pattern, unset: Pattern, length: u32)
    requires
        before.length is None,
        set.length == Some(length),
        set.note_events@ == before.note_events@,
        unset.length is None,
        unset.note_events@ == set.note_events@,
    ensures
        set.length_ticks() == length,
        unset.length_ticks() == before.length_ticks(),
{
}

/// Whether every stopped event among `events` stops at or before `bound`.
pub open spec fn stops_within<E: LoopableEvent>(events: Seq<E>, bound: int) -> bool {
    forall|i: int|
        0 <= i < events.len() ==> match #[trigger] events[i].stop_tick() {
            Some(s) => s <= bound,
            None => true,
        }
}

/// The latest stop is the bound of all stops.
pub proof fn lemma_max_stop_bounds<E: LoopableEvent>(events: Seq<E>)
    ensures
        match max_stop(events) {
            Some(m) => stops_within(events, m as int),
            None => forall|i: int| 0 <= i < events.len() ==> (#[trigger] events[i].stop_tick()) is None,
        },
    decreases events.len(),
{
    if events.len() > 0 {
        let rest = events.drop_last();
        lemma_max_stop_bounds(rest);
        assert forall|i: int| 0 <= i < events.len() - 1 implies events[i] == rest[i] by {}
    }
}

/// A bound on all stops bounds the latest stop.
pub proof fn lemma_max_stop_within<E: LoopableEvent>(events: Seq<E>, bound: int)
    requires
        stops_within(events, bound),
    ensures
        max_stop(events) matches Some(m) ==> m <= bound,
    decreases events.len(),
{
    if events.len() > 0 {
        let rest = events.drop_last();
        assert(stops_within(rest, bound)) by {
            assert forall|i: int| 0 <= i < rest.len() implies match #[trigger] rest[i].stop_tick() {
                Some(s) => s <= bound,
                None => true,
            } by {
                assert(rest[i] == events[i]);
            }
        }
        lemma_max_stop_within(rest, bound);
        assert(events.last() == events[events.len() - 1]);
    }
}

proof fn lemma_outside_of_within(events: Seq<LoopablePhraseEvent>, event: LoopablePhraseEvent, length: u32, bound: int)
    requires
        stops_within(events, bound),
    ensures
        stops_within(outside_of(events, event, length), bound),
    decreases events.len(),
{
    if events.len() > 0 {
        let rest = events.drop_last();
        assert(stops_within(rest, bound)) by {
            assert forall|i: int| 0 <= i < rest.len() implies match #[trigger] rest[i].stop_tick() {
                Some(s) => s <= bound,
                None => true,
            } by {
                assert(rest[i] == events[i]);
            }
        }
        lemma_outside_of_within(rest, event, length, bound);
        assert(events.last() == events[events.len() - 1]);
        let out = outside_of(events, event, length);
        let out_rest = outside_of(rest, event, length);
        assert forall|i: int| 0 <= i < out.len() implies match #[trigger] out[i].stop_tick() {
            Some(s) => s <= bound,
            None => true,
        } by {
            if i < out_rest.len() {
                assert(out[i] == out_rest[i]);
            }
        }
    }
}

proof fn lemma_fitted_around_within(events: Seq<LoopablePhraseEvent>, event: LoopablePhraseEvent, length: u32, bound: int)
    requires
        stops_within(events, bound),
        event.start <= bound,
    ensures
        stops_within(fitted_around(events, event, length), bound),
    decreases events.len(),
{
    if events.len() > 0 {
        let rest = events.drop_last();
        assert(stops_within(rest, bound)) by {
            assert forall|i: int| 0 <= i < rest.len() implies match #[trigger] rest[i].stop_tick() {
                Some(s) => s <= bound,
                None => true,
            } by {
                assert(rest[i] == events[i]);
            }
        }
        lemma_fitted_around_within(rest, event, length, bound);
        assert(events.last() == events[events.len() - 1]);
        let out = fitted_around(events, event, length);
        let out_rest = fitted_around(rest, event, length);
        assert forall|i: int| 0 <= i < out.len() implies match #[trigger] out[i].stop_tick() {
            Some(s) => s <= bound,
            None => true,
        } by {
            if i < out_rest.len() {
                assert(out[i] == out_rest[i]);
            }
        }
    }
}

proof fn lemma_split_off_by_within(events: Seq<LoopablePhraseEvent>, event: LoopablePhraseEvent, length: u32, bound: int)
    requires
        stops_within(events, bound),
    ensures
        stops_within(split_off_by(events, event, length), bound),
    decreases events.len(),
{
    if events.len() > 0 {
        let rest = events.drop_last();
        assert(stops_within(rest, bound)) by {
            assert forall|i: int| 0 <= i < rest.len() implies match #[trigger] rest[i].stop_tick() {
                Some(s) => s <= bound,
                None => true,
            } by {
                assert(rest[i] == events[i]);
            }
        }
        lemma_split_off_by_within(rest, event, length, bound);
        assert(events.last() == events[events.len() - 1]);
        let out = split_off_by(events, event, length);
        let out_rest = split_off_by(rest, event, length);
        assert forall|i: int| 0 <= i < out.len() implies match #[trigger] out[i].stop_tick() {
            Some(s) => s <= bound,
            None => true,
        } by {
            if i < out_rest.len() {
                assert(out[i] == out_rest[i]);
            }
        }
    }
}

/// Adding a complete phrase event to a timeline moves no stop past the latest of the old
/// stops and the event's own start and stop.
pub proof fn lemma_complete_event_stops_within(
    events: Seq<LoopablePhraseEvent>,
    event: LoopablePhraseEvent,
    length: u32,
    bound: int,
)
    requires
        stops_within(events, bound),
        event.start <= bound,
        event.stop matches Some(s) ==> s <= bound,
    ensures
        stops_within(with_complete_event(events, event, length), bound),
{
    let kept = outside_of(events, event, length);
    lemma_outside_of_within(events, event, length, bound);
    lemma_fitted_around_within(kept, event, length, bound);
    lemma_split_off_by_within(kept, event, length, bound);
    let a = fitted_around(kept, event, length);
    let b = split_off_by(kept, event, length);
    let all = with_complete_event(events, event, length);
    assert(all == a + b + seq![event]);
    assert forall|i: int| 0 <= i < all.len() implies match #[trigger] all[i].stop_tick() {
        Some(s) => s <= bound,
        None => true,
    } by {
        if i < a.len() {
            assert(all[i] == a[i]);
        } else if i < a.len() + b.len() {
            assert(all[i] == b[i - a.len()]);
        } else {
            assert(all[i] == event);
        }
    }
}

/// Pattern events kept when a phrase is cut to `length` ticks: those starting inside it, with
/// their stop clamped to `length`.
pub open spec fn cut_to_length(events: Seq<LoopablePatternEvent>, length: u32) -> Seq<LoopablePatternEvent>
    decreases events.len(),
{
    if events.len() == 0 {
        Seq::empty()
    } else {
        let rest = cut_to_length(events.drop_last(), length);
        let e = events.last();
        if e.start < length {
            rest.push(
                match e.stop {
                    Some(s) => if s > length {
                        LoopablePatternEvent { stop: Some(length), ..e }
                    } else {
                        e
                    },
                    None => e,
                },
            )
        } else {
            rest
        }
    }
}

/// Patterns arranged over a number of bars.
pub struct Phrase {
    length: u32,
    pub pattern_events: Vec<LoopablePatternEvent>,
}

impl Clone for Phrase {
    fn clone(&self) -> (r: Self)
        ensures
            r.length_ticks() == self.length_ticks(),
            r.event_seq() == self.event_seq(),
    {
        Phrase { length: self.length, pattern_events: copy_events(&self.pattern_events) }
    }
}

impl Loopable for Phrase {
    type Event = LoopablePatternEvent;

    open spec fn length_defined(&self) -> bool {
        true
    }

    closed spec fn length_ticks(&self) -> u32 {
        self.length
    }

    closed spec fn event_seq(&self) -> Seq<LoopablePatternEvent> {
        self.pattern_events@
    }

    fn length(&self) -> (r: u32) {
        self.length
    }

    fn events(&self) -> (r: &Vec<LoopablePatternEvent>) {
        &self.pattern_events
    }

    closed spec fn length_setting(&self) -> Option<u32> {
        Some(self.length)
    }

    /// Remove the pattern events on row `index` that start inside `range`.
    fn remove_events_starting_in(&mut self, range: TickRange, index: u8)
        ensures
            final(self).length_ticks() == old(self).length_ticks(),
    {
        remove_starting_in(&mut self.pattern_events, range, index);
    }
}

/// Phrases with the same length setting have the same length.
pub proof fn lemma_phrase_length_setting(a: Phrase, b: Phrase)
    ensures
        a.length_setting() == b.length_setting() ==> a.length_ticks() == b.length_ticks(),
{
}

impl Phrase {
    pub fn new() -> (r: Self)
        ensures
            r.length_ticks() == default_phrase_length(),
            r.event_seq() == Seq::<LoopablePatternEvent>::empty(),
    {
        Phrase { length: Self::default_length(), pattern_events: Vec::new() }
    }

    /// Four bars.
    pub fn default_length() -> (r: u32)
        ensures
            r == default_phrase_length(),
    {
        TICKS_PER_BEAT * 4 * 4
    }

    /// Set the length, dropping pattern events that start outside it and cutting those that
    /// stop after it.
    pub fn set_length(&mut self, length: u32)
        ensures
            final(self).length_ticks() == length,
            final(self).event_seq() == cut_to_length(old(self).event_seq(), length),
    {
        self.length = length;
        let mut kept: Vec<LoopablePatternEvent> = Vec::new();
        let mut i: usize = 0;
        while i < self.pattern_events.len()
            invariant
                0 <= i <= self.pattern_events@.len(),
                self.pattern_events@ == old(self).event_seq(),
                self.length == length,
                kept@ == cut_to_length(self.pattern_events@.take(i as int), length),
            decreases self.pattern_events@.len() - i,
        {
            assert(self.pattern_events@.take(i + 1).drop_last() =~= self.pattern_events@.take(
                i as int,
            ));
            let mut event = self.pattern_events[i];
            if event.start < length {
                if let Some(stop) = event.stop {
                    if stop > length {
                        event.stop = Some(length);
                    }
                }
                kept.push(event);
            }
            i += 1;
        }
        assert(self.pattern_events@.take(i as int) =~= self.pattern_events@);
        self.pattern_events = kept;
    }

    pub fn clear_events(&mut self)
        ensures
            final(self).event_seq() == Seq::<LoopablePatternEvent>::empty(),
            final(self).length_ticks() == old(self).length_ticks(),
    {
        clear_all(&mut self.pattern_events);
    }

    /// Open a pattern event unless the last one on its row is still open.
    pub fn try_add_starting_event(&mut self, event: LoopablePatternEvent)
        ensures
            final(self).length_ticks() == old(self).length_ticks(),
            (match last_on_row(old(self).event_seq(), event.pattern) {
                Some(p) => p.stop is None,
                None => false,
            }) ==> final(self).event_seq() == old(self).event_seq(),
            !(match last_on_row(old(self).event_seq(), event.pattern) {
                Some(p) => p.stop is None,
                None => false,
            }) ==> final(self).event_seq() == old(self).event_seq().push(event),
    {
        add_starting(&mut self.pattern_events, event);
    }

    /// Take out the last pattern event on row `index`.
    pub fn get_last_event_on_row(&mut self, index: u8) -> (r: LoopablePatternEvent)
        requires
            last_index_on_row(old(self).event_seq(), index) >= 0,
        ensures
            final(self).length_ticks() == old(self).length_ticks(),
            ({
                let s = old(self).event_seq();
                let j = last_index_on_row(s, index);
                &&& r == s[j]
                &&& final(self).event_seq() == s.update(j, s.last()).drop_last()
            }),
    {
        take_last_on_row(&mut self.pattern_events, index)
    }

    /// Add a complete pattern event, making room for it on its row.
    pub fn add_complete_event(&mut self, event: LoopablePatternEvent)
        ensures
            final(self).length_ticks() == old(self).length_ticks(),
            final(self).event_seq() == with_complete_event(
                old(self).event_seq(),
                event,
                old(self).length_ticks(),
            ),
    {
        let length = self.length;
        add_complete(&mut self.pattern_events, event, length);
    }

}

/// The latest tick a note in `events` starts or stops at, or 0.
pub open spec fn max_tick(events: Seq<LoopableNoteEvent>) -> u32
    decreases events.len(),
{
    if events.len() == 0 {
        0
    } else {
        let rest = max_tick(events.drop_last());
        let e = events.last();
        let m = if e.start > rest { e.start } else { rest };
        match e.stop {
            Some(s) => if s > m { s } else { m },
            None => m,
        }
    }
}

/// One bar.
pub open spec fn minimum_pattern_length() -> u32 {
    (TICKS_PER_BEAT * 4) as u32
}

/// Length of a pattern without an explicit length: the whole bars up to and including the
/// bar of its latest tick, doubled.
pub open spec fn natural_pattern_length(events: Seq<LoopableNoteEvent>) -> int {
    (max_tick(events) / minimum_pattern_length() + 1) * 2 * minimum_pattern_length()
}

/// Notes arranged over a number of ticks.
pub struct Pattern {
    pub note_events: Vec<LoopableNoteEvent>,
    pub length: Option<u32>,
}

impl Clone for Pattern {
    fn clone(&self) -> (r: Self)
        ensures
            r.note_events@ == self.note_events@,
            r.length == self.length,
    {
        Pattern { note_events: copy_events(&self.note_events), length: self.length }
    }
}

impl Loopable for Pattern {
    type Event = LoopableNoteEvent;

    open spec fn length_defined(&self) -> bool {
        self.length is Some || natural_pattern_length(self.note_events@) <= u32::MAX
    }

    open spec fn length_ticks(&self) -> u32 {
        match self.length {
            Some(l) => l,
            None => natural_pattern_length(self.note_events@) as u32,
        }
    }

    open spec fn event_seq(&self) -> Seq<LoopableNoteEvent> {
        self.note_events@
    }

    /// The explicit length, or one that follows the latest tick of the notes.
    fn length(&self) -> (r: u32) {
        match self.length {
            Some(l) => l,
            None => {
                let mut m: u32 = 0;
                let mut i: usize = 0;
                while i < self.note_events.len()
                    invariant
                        0 <= i <= self.note_events@.len(),
                        m == max_tick(self.note_events@.take(i as int)),
                    decreases self.note_events@.len() - i,
                {
                    assert(self.note_events@.take(i + 1).drop_last() =~= self.note_events@.take(
                        i as int,
                    ));
                    let e = self.note_events[i];
                    if e.start > m {
                        m = e.start;
                    }
                    if let Some(s) = e.stop {
                        if s > m {
                            m = s;
                        }
                    }
                    i += 1;
                }
                assert(self.note_events@.take(i as int) =~= self.note_events@);
                let minimum = Self::minimum_length();
                assert((m / minimum + 1) * 2 <= (m / minimum + 1) * 2 * minimum) by (nonlinear_arith)
                    requires
                        minimum >= 1,
                ;
                (m / minimum + 1) * 2 * minimum
            },
        }
    }

    fn events(&self) -> (r: &Vec<LoopableNoteEvent>) {
        &self.note_events
    }

    open spec fn length_setting(&self) -> Option<u32> {
        self.length
    }

    /// Remove the notes on row `index` that start inside `range`.
    fn remove_events_starting_in(&mut self, range: TickRange, index: u8) {
        remove_starting_in(&mut self.note_events, range, index);
    }
}

} // verus!

verus! {

/// The ranges of a pattern to play for `relative_range`: the range itself when the pattern
/// has no explicit length, otherwise the ranges it maps to when the pattern repeats.
pub open spec fn pattern_play_ranges(length: Option<u32>, relative_range: TickRange) -> Seq<(TickRange, u32)> {
    match length {
        None => seq![(relative_range, 0u32)],
        Some(l) => looping_ranges_of(l, relative_range),
    }
}

/// The tick at which note `e` stops when its repetition starts at `offset`; a looping note
/// stops `loop_length` ticks later.
pub open spec fn note_stop_at(e: LoopableNoteEvent, offset: u32, loop_length: u32) -> int {
    offset + e.stop.unwrap() + if e.stop.unwrap() <= e.start { loop_length as int } else { 0 }
}

/// The playing note for `e`, in the repetition starting at `offset`, moved from the relative
/// range starting at `relative_start` to `absolute_start`.
pub open spec fn started_note(
    e: LoopableNoteEvent,
    offset: u32,
    relative_start: u32,
    absolute_start: u32,
    loop_length: u32,
) -> PlayingNoteEvent {
    PlayingNoteEvent {
        start: (absolute_start + (offset + e.start - relative_start)) as u32,
        stop: (absolute_start + (note_stop_at(e, offset, loop_length) - relative_start)) as u32,
        note: e.note,
        start_velocity: e.start_velocity,
        stop_velocity: e.stop_velocity.unwrap(),
    }
}

/// Whether `started_note` can be computed: the note has stopped, has a stop velocity, and its
/// ticks fit without wrapping.
pub open spec fn started_note_defined(
    e: LoopableNoteEvent,
    offset: u32,
    relative_start: u32,
    absolute_start: u32,
    loop_length: u32,
) -> bool {
    &&& e.stop is Some
    &&& e.stop_velocity is Some
    &&& offset + e.start <= u32::MAX
    &&& offset + e.stop.unwrap() <= u32::MAX
    &&& note_stop_at(e, offset, loop_length) <= u32::MAX
    &&& offset + e.start >= relative_start
    &&& note_stop_at(e, offset, loop_length) >= relative_start
    &&& absolute_start + (offset + e.start - relative_start) <= u32::MAX
    &&& absolute_start + (note_stop_at(e, offset, loop_length) - relative_start) <= u32::MAX
}

/// The playing notes for the notes of `events` that start inside `range`.
pub open spec fn notes_started_in(
    events: Seq<LoopableNoteEvent>,
    range: TickRange,
    offset: u32,
    relative_start: u32,
    absolute_start: u32,
    loop_length: u32,
) -> Seq<PlayingNoteEvent>
    decreases events.len(),
{
    if events.len() == 0 {
        Seq::empty()
    } else {
        let rest = notes_started_in(
            events.drop_last(),
            range,
            offset,
            relative_start,
            absolute_start,
            loop_length,
        );
        let e = events.last();
        if range_contains(range.start as int, range.stop as int, e.start as int) {
            rest.push(started_note(e, offset, relative_start, absolute_start, loop_length))
        } else {
            rest
        }
    }
}

/// The playing notes for each of `ranges` in turn.
pub open spec fn notes_for_ranges(
    events: Seq<LoopableNoteEvent>,
    ranges: Seq<(TickRange, u32)>,
    relative_start: u32,
    absolute_start: u32,
    loop_length: u32,
) -> Seq<PlayingNoteEvent>
    decreases ranges.len(),
{
    if ranges.len() == 0 {
        Seq::empty()
    } else {
        notes_for_ranges(events, ranges.drop_last(), relative_start, absolute_start, loop_length)
            + notes_started_in(
            events,
            ranges.last().0,
            ranges.last().1,
            relative_start,
            absolute_start,
            loop_length,
        )
    }
}

/// Whether every note starting in one of `ranges` can be played.
pub open spec fn notes_for_ranges_defined(
    events: Seq<LoopableNoteEvent>,
    ranges: Seq<(TickRange, u32)>,
    relative_start: u32,
    absolute_start: u32,
    loop_length: u32,
) -> bool {
    forall|k: int, i: int|
        0 <= k < ranges.len() && 0 <= i < events.len() && range_contains(
            ranges[k].0.start as int,
            ranges[k].0.stop as int,
            #[trigger] events[i].start as int,
        ) ==> #[trigger] started_note_defined(
            events[i],
            ranges[k].1,
            relative_start,
            absolute_start,
            loop_length,
        )
}

/// Each note `notes_started_in` gives is the started note of one of `events` that starts in
/// `range`.
proof fn lemma_started_in_sources(
    events: Seq<LoopableNoteEvent>,
    range: TickRange,
    offset: u32,
    relative_start: u32,
    absolute_start: u32,
    loop_length: u32,
)
    ensures
        forall|j: int|
            0 <= j < notes_started_in(events, range, offset, relative_start, absolute_start, loop_length).len()
                ==> exists|i: int|
                0 <= i < events.len() && range_contains(range.start as int, range.stop as int, events[i].start as int)
                    && #[trigger] notes_started_in(events, range, offset, relative_start, absolute_start, loop_length)[j]
                    == started_note(events[i], offset, relative_start, absolute_start, loop_length),
    decreases events.len(),
{
    if events.len() > 0 {
        let rest = events.drop_last();
        lemma_started_in_sources(rest, range, offset, relative_start, absolute_start, loop_length);
        let out = notes_started_in(events, range, offset, relative_start, absolute_start, loop_length);
        let out_rest = notes_started_in(rest, range, offset, relative_start, absolute_start, loop_length);
        assert forall|j: int| 0 <= j < out.len() implies exists|i: int|
            0 <= i < events.len() && range_contains(range.start as int, range.stop as int, events[i].start as int)
                && #[trigger] out[j] == started_note(events[i], offset, relative_start, absolute_start, loop_length) by {
            if j < out_rest.len() {
                assert(out[j] == out_rest[j]);
                let i = choose|i: int|
                    0 <= i < rest.len() && range_contains(range.start as int, range.stop as int, rest[i].start as int)
                        && #[trigger] out_rest[j] == started_note(rest[i], offset, relative_start, absolute_start, loop_length);
                assert(rest[i] == events[i]);
            } else {
                assert(events.last() == events[events.len() - 1]);
            }
        }
    }
}

/// Whether `played` is the started note of one of `events` that starts in one of `ranges`, in
/// the repetition of that range.
spec fn started_from_ranges(
    played: PlayingNoteEvent,
    events: Seq<LoopableNoteEvent>,
    ranges: Seq<(TickRange, u32)>,
    relative_start: u32,
    absolute_start: u32,
    loop_length: u32,
) -> bool {
    exists|k: int, i: int|
        #![trigger events[i], ranges[k]]
        0 <= k < ranges.len() && 0 <= i < events.len() && range_contains(
            ranges[k].0.start as int,
            ranges[k].0.stop as int,
            events[i].start as int,
        ) && played == started_note(events[i], ranges[k].1, relative_start, absolute_start, loop_length)
}

/// Each note `notes_for_ranges` gives is the started note of one of `events` that starts in
/// one of `ranges`, in the repetition of that range.
proof fn lemma_ranges_sources(
    events: Seq<LoopableNoteEvent>,
    ranges: Seq<(TickRange, u32)>,
    relative_start: u32,
    absolute_start: u32,
    loop_length: u32,
)
    ensures
        forall|j: int|
            0 <= j < notes_for_ranges(events, ranges, relative_start, absolute_start, loop_length).len()
                ==> started_from_ranges(
                #[trigger] notes_for_ranges(events, ranges, relative_start, absolute_start, loop_length)[j],
                events,
                ranges,
                relative_start,
                absolute_start,
                loop_length,
            ),
    decreases ranges.len(),
{
    if ranges.len() > 0 {
        let before = ranges.drop_last();
        lemma_ranges_sources(events, before, relative_start, absolute_start, loop_length);
        let last = ranges.last();
        lemma_started_in_sources(events, last.0, last.1, relative_start, absolute_start, loop_length);
        let a = notes_for_ranges(events, before, relative_start, absolute_start, loop_length);
        let b = notes_started_in(events, last.0, last.1, relative_start, absolute_start, loop_length);
        let out = notes_for_ranges(events, ranges, relative_start, absolute_start, loop_length);
        assert(out == a + b);
        assert forall|j: int| 0 <= j < out.len() implies started_from_ranges(
            #[trigger] out[j],
            events,
            ranges,
            relative_start,
            absolute_start,
            loop_length,
        ) by {
            if j < a.len() {
                assert(out[j] == a[j]);
                assert(started_from_ranges(a[j], events, before, relative_start, absolute_start, loop_length));
                let (k, i) = choose|k: int, i: int|
                    #![trigger events[i], before[k]]
                    0 <= k < before.len() && 0 <= i < events.len() && range_contains(
                        before[k].0.start as int,
                        before[k].0.stop as int,
                        events[i].start as int,
                    ) && a[j] == started_note(events[i], before[k].1, relative_start, absolute_start, loop_length);
                assert(before[k] == ranges[k]);
                assert(events[i] == events[i]);
            } else {
                assert(out[j] == b[j - a.len()]);
                let i = choose|i: int|
                    0 <= i < events.len() && range_contains(last.0.start as int, last.0.stop as int, events[i].start as int)
                        && #[trigger] b[j - a.len()] == started_note(events[i], last.1, relative_start, absolute_start, loop_length);
                let k = ranges.len() - 1;
                assert(ranges[k] == last);
                assert(events[i] == events[i]);
            }
        }
    }
}

/// Whether `played` plays note `e` in the repetition starting at `offset`, moved from the
/// relative range starting at `relative_start` to `absolute_start`: its note, from where `e`
/// starts in that repetition, for as many ticks as `e` lasts in a loop of `loop_length`
/// ticks, and so stopping after it starts when `e` starts inside the loop.
pub open spec fn plays_note(
    played: PlayingNoteEvent,
    e: LoopableNoteEvent,
    offset: u32,
    relative_start: u32,
    absolute_start: u32,
    loop_length: u32,
) -> bool {
    &&& played.note == e.note
    &&& played.start == absolute_start + offset + e.start - relative_start
    &&& played.stop == played.start + span_length(e.start, e.stop.unwrap(), loop_length)
    &&& e.start < loop_length ==> played.start < played.stop
}

/// Whether `played` plays one of `events` that starts in one of `ranges`, in the repetition
/// of that range.
pub open spec fn played_with_length(
    played: PlayingNoteEvent,
    events: Seq<LoopableNoteEvent>,
    ranges: Seq<(TickRange, u32)>,
    relative_start: u32,
    absolute_start: u32,
    loop_length: u32,
) -> bool {
    exists|k: int, i: int|
        #![trigger events[i], ranges[k]]
        0 <= k < ranges.len() && 0 <= i < events.len() && range_contains(
            ranges[k].0.start as int,
            ranges[k].0.stop as int,
            events[i].start as int,
        ) && plays_note(played, events[i], ranges[k].1, relative_start, absolute_start, loop_length)
}

/// The started note of each note of `events` that starts in `range` is among those
/// `notes_started_in` gives.
proof fn lemma_started_in_complete(
    events: Seq<LoopableNoteEvent>,
    range: TickRange,
    offset: u32,
    relative_start: u32,
    absolute_start: u32,
    loop_length: u32,
)
    ensures
        forall|i: int|
            0 <= i < events.len() && range_contains(range.start as int, range.stop as int, (#[trigger] events[i]).start as int)
                ==> notes_started_in(events, range, offset, relative_start, absolute_start, loop_length).contains(
                started_note(events[i], offset, relative_start, absolute_start, loop_length),
            ),
    decreases events.len(),
{
    if events.len() > 0 {
        let rest = events.drop_last();
        lemma_started_in_complete(rest, range, offset, relative_start, absolute_start, loop_length);
        let out = notes_started_in(events, range, offset, relative_start, absolute_start, loop_length);
        let out_rest = notes_started_in(rest, range, offset, relative_start, absolute_start, loop_length);
        assert forall|i: int|
            0 <= i < events.len() && range_contains(range.start as int, range.stop as int, (#[trigger] events[i]).start as int)
                implies out.contains(started_note(events[i], offset, relative_start, absolute_start, loop_length)) by {
            let n = started_note(events[i], offset, relative_start, absolute_start, loop_length);
            if i < rest.len() {
                assert(rest[i] == events[i]);
                let j = choose|j: int| 0 <= j < out_rest.len() && out_rest[j] == n;
                assert(out[j] == out_rest[j]);
            } else {
                assert(events.last() == events[i]);
                assert(out[out.len() - 1] == n);
            }
        }
    }
}

/// The started note of each note of `events` that starts in one of `ranges`, in the
/// repetition of that range, is among those `notes_for_ranges` gives.
proof fn lemma_ranges_complete(
    events: Seq<LoopableNoteEvent>,
    ranges: Seq<(TickRange, u32)>,
    relative_start: u32,
    absolute_start: u32,
    loop_length: u32,
)
    ensures
        forall|k: int, i: int|
            #![trigger events[i], ranges[k]]
            0 <= k < ranges.len() && 0 <= i < events.len() && range_contains(
                ranges[k].0.start as int,
                ranges[k].0.stop as int,
                events[i].start as int,
            ) ==> notes_for_ranges(events, ranges, relative_start, absolute_start, loop_length).contains(
                started_note(events[i], ranges[k].1, relative_start, absolute_start, loop_length),
            ),
    decreases ranges.len(),
{
    if ranges.len() > 0 {
        let before = ranges.drop_last();
        lemma_ranges_complete(events, before, relative_start, absolute_start, loop_length);
        let last = ranges.last();
        lemma_started_in_complete(events, last.0, last.1, relative_start, absolute_start, loop_length);
        let a = notes_for_ranges(events, before, relative_start, absolute_start, loop_length);
        let b = notes_started_in(events, last.0, last.1, relative_start, absolute_start, loop_length);
        let out = notes_for_ranges(events, ranges, relative_start, absolute_start, loop_length);
        assert(out == a + b);
        assert forall|k: int, i: int|
            #![trigger events[i], ranges[k]]
            0 <= k < ranges.len() && 0 <= i < events.len() && range_contains(
                ranges[k].0.start as int,
                ranges[k].0.stop as int,
                events[i].start as int,
            ) implies out.contains(started_note(events[i], ranges[k].1, relative_start, absolute_start, loop_length)) by {
            let n = started_note(events[i], ranges[k].1, relative_start, absolute_start, loop_length);
            if k < before.len() {
                assert(before[k] == ranges[k]);
                assert(events[i] == events[i]);
                let j = choose|j: int| 0 <= j < a.len() && a[j] == n;
                assert(out[j] == a[j]);
            } else {
                assert(ranges[k] == last);
                assert(b.contains(n));
                let j = choose|j: int| 0 <= j < b.len() && b[j] == n;
                assert(out[a.len() + j] == b[j]);
            }
        }
    }
}

/// A pattern plays each note for as long as it lasts in the loop: every note it starts in a
/// cycle is one of its notes, starting where that note starts in the repetition it plays in,
/// and stopping the note's length later, a looping note running on past the end of the loop
/// by its stop. So each note stops after it starts, unless it starts past the loop's end. And
/// every one of its notes that starts in a range played is started so.
pub proof fn law_started_notes_last_their_length(
    events: Seq<LoopableNoteEvent>,
    ranges: Seq<(TickRange, u32)>,
    relative_start: u32,
    absolute_start: u32,
    loop_length: u32,
)
    requires
        notes_for_ranges_defined(events, ranges, relative_start, absolute_start, loop_length),
    ensures
        forall|j: int|
            0 <= j < notes_for_ranges(events, ranges, relative_start, absolute_start, loop_length).len()
                ==> played_with_length(
                #[trigger] notes_for_ranges(events, ranges, relative_start, absolute_start, loop_length)[j],
                events,
                ranges,
                relative_start,
                absolute_start,
                loop_length,
            ),
        forall|k: int, i: int|
            #![trigger events[i], ranges[k]]
            0 <= k < ranges.len() && 0 <= i < events.len() && range_contains(
                ranges[k].0.start as int,
                ranges[k].0.stop as int,
                events[i].start as int,
            ) ==> exists|j: int|
                0 <= j < notes_for_ranges(events, ranges, relative_start, absolute_start, loop_length).len() && plays_note(
                    #[trigger] notes_for_ranges(events, ranges, relative_start, absolute_start, loop_length)[j],
                    events[i],
                    ranges[k].1,
                    relative_start,
                    absolute_start,
                    loop_length,
                ),
{
    lemma_ranges_sources(events, ranges, relative_start, absolute_start, loop_length);
    lemma_ranges_complete(events, ranges, relative_start, absolute_start, loop_length);
    let out = notes_for_ranges(events, ranges, relative_start, absolute_start, loop_length);
    assert forall|j: int| 0 <= j < out.len() implies played_with_length(
        #[trigger] out[j],
        events,
        ranges,
        relative_start,
        absolute_start,
        loop_length,
    ) by {
        assert(started_from_ranges(out[j], events, ranges, relative_start, absolute_start, loop_length));
        let (k, i) = choose|k: int, i: int|
            #![trigger events[i], ranges[k]]
            0 <= k < ranges.len() && 0 <= i < events.len() && range_contains(
                ranges[k].0.start as int,
                ranges[k].0.stop as int,
                events[i].start as int,
            ) && out[j] == started_note(events[i], ranges[k].1, relative_start, absolute_start, loop_length);
        let e = events[i];
        let offset = ranges[k].1;
        assert(started_note_defined(e, offset, relative_start, absolute_start, loop_length));
        let played = out[j];
        assert(played.start == absolute_start + offset + e.start - relative_start);
        assert(played.stop == absolute_start + note_stop_at(e, offset, loop_length) - relative_start);
        assert(played.stop == played.start + span_length(e.start, e.stop.unwrap(), loop_length));
        assert(events[i] == e && ranges[k] == ranges[k]);
    }
    assert forall|k: int, i: int|
        #![trigger events[i], ranges[k]]
        0 <= k < ranges.len() && 0 <= i < events.len() && range_contains(
            ranges[k].0.start as int,
            ranges[k].0.stop as int,
            events[i].start as int,
        ) implies exists|j: int|
            0 <= j < out.len() && plays_note(
                #[trigger] out[j],
                events[i],
                ranges[k].1,
                relative_start,
                absolute_start,
                loop_length,
            ) by {
        let e = events[i];
        let offset = ranges[k].1;
        let n = started_note(e, offset, relative_start, absolute_start, loop_length);
        assert(out.contains(n));
        let j = choose|j: int| 0 <= j < out.len() && out[j] == n;
        assert(started_note_defined(e, offset, relative_start, absolute_start, loop_length));
        assert(plays_note(out[j], e, offset, relative_start, absolute_start, loop_length));
    }
}

/// Append the playing notes for the notes of `events` that start inside `range`.
fn collect_started_notes(
    events: &Vec<LoopableNoteEvent>,
    range: TickRange,
    offset: u32,
    relative_start: u32,
    absolute_start: u32,
    loop_length: u32,
    out: &mut Vec<PlayingNoteEvent>,
)
    requires
        forall|i: int|
            0 <= i < events@.len() && range_contains(
                range.start as int,
                range.stop as int,
                #[trigger] events@[i].start as int,
            ) ==> started_note_defined(
                events@[i],
                offset,
                relative_start,
                absolute_start,
                loop_length,
            ),
    ensures
        final(out)@ == old(out)@ + notes_started_in(
            events@,
            range,
            offset,
            relative_start,
            absolute_start,
            loop_length,
        ),
{
    let ghost start_out = out@;
    let mut i: usize = 0;
    while i < events.len()
        invariant
            0 <= i <= events@.len(),
            forall|j: int|
                0 <= j < events@.len() && range_contains(
                    range.start as int,
                    range.stop as int,
                    #[trigger] events@[j].start as int,
                ) ==> started_note_defined(
                    events@[j],
                    offset,
                    relative_start,
                    absolute_start,
                    loop_length,
                ),
            out@ == start_out + notes_started_in(
                events@.take(i as int),
                range,
                offset,
                relative_start,
                absolute_start,
                loop_length,
            ),
        decreases events@.len() - i,
    {
        assert(events@.take(i + 1).drop_last() =~= events@.take(i as int));
        let note_event = events[i];
        if range.contains(note_event.start()) {
            let note_start = offset + note_event.start();
            let note_stop = offset + note_event.stop().unwrap() + if note_event.is_looping() {
                loop_length
            } else {
                0
            };
            let start_tick = note_start - relative_start;
            let stop_tick = note_stop - relative_start;
            out.push(
                PlayingNoteEvent {
                    start: absolute_start + start_tick,
                    stop: absolute_start + stop_tick,
                    note: note_event.note,
                    start_velocity: note_event.start_velocity,
                    stop_velocity: note_event.stop_velocity.unwrap(),
                },
            );
        }
        i += 1;
    }
    assert(events@.take(i as int) =~= events@);
}

impl Pattern {
    /// One bar.
    pub fn minimum_length() -> (r: u32)
        ensures
            r == minimum_pattern_length(),
    {
        TICKS_PER_BEAT * 4
    }

    pub fn new() -> (r: Self)
        ensures
            r.note_events@ == Seq::<LoopableNoteEvent>::empty(),
            r.length is None,
    {
        Pattern { note_events: Vec::new(), length: None }
    }

    pub fn has_explicit_length(&self) -> (r: bool)
        ensures
            r == self.length is Some,
    {
        self.length.is_some()
    }

    pub fn unset_length(&mut self)
        ensures
            final(self).length is None,
            final(self).note_events@ == old(self).note_events@,
    {
        self.length = None;
    }

    pub fn set_length(&mut self, length: u32)
        ensures
            final(self).length == Some(length),
            final(self).note_events@ == old(self).note_events@,
    {
        self.length = Some(length);
    }

    pub fn clear_events(&mut self)
        ensures
            final(self).note_events@ == Seq::<LoopableNoteEvent>::empty(),
            final(self).length == old(self).length,
    {
        clear_all(&mut self.note_events);
    }

    /// Open a note unless the last one on its row is still open.
    pub fn try_add_starting_event(&mut self, event: LoopableNoteEvent)
        ensures
            final(self).length == old(self).length,
            (match last_on_row(old(self).note_events@, event.note) {
                Some(p) => p.stop is None,
                None => false,
            }) ==> final(self).note_events@ == old(self).note_events@,
            !(match last_on_row(old(self).note_events@, event.note) {
                Some(p) => p.stop is None,
                None => false,
            }) ==> final(self).note_events@ == old(self).note_events@.push(event),
    {
        add_starting(&mut self.note_events, event);
    }

    /// Take out the last note on row `index`.
    pub fn get_last_event_on_row(&mut self, index: u8) -> (r: LoopableNoteEvent)
        requires
            last_index_on_row(old(self).note_events@, index) >= 0,
        ensures
            final(self).length == old(self).length,
            ({
                let s = old(self).note_events@;
                let j = last_index_on_row(s, index);
                &&& r == s[j]
                &&& final(self).note_events@ == s.update(j, s.last()).drop_last()
            }),
    {
        take_last_on_row(&mut self.note_events, index)
    }

    /// Add a complete note, making room for it on its row.
    pub fn add_complete_event(&mut self, event: LoopableNoteEvent)
        requires
            old(self).length_defined(),
        ensures
            final(self).length == old(self).length,
            final(self).note_events@ == with_complete_event(
                old(self).note_events@,
                event,
                old(self).length_ticks(),
            ),
    {
        let length = self.length();
        add_complete(&mut self.note_events, event, length);
    }


    /// The notes of this pattern that start in `relative_range`, as playing notes that start
    /// from `absolute_start`. A pattern with an explicit length repeats, and a looping note is
    /// held for the pattern length (or `pattern_event_length` without an explicit length).
    pub fn starting_notes(
        &self,
        absolute_start: u32,
        relative_range: TickRange,
        pattern_event_length: u32,
    ) -> (r: Vec<PlayingNoteEvent>)
        requires
            self.length matches Some(l) ==> l > 0 && looping_ranges_fit(l, relative_range),
            notes_for_ranges_defined(
                self.note_events@,
                pattern_play_ranges(self.length, relative_range),
                relative_range.start,
                absolute_start,
                match self.length {
                    Some(l) => l,
                    None => pattern_event_length,
                },
            ),
        ensures
            r@ == notes_for_ranges(
                self.note_events@,
                pattern_play_ranges(self.length, relative_range),
                relative_range.start,
                absolute_start,
                match self.length {
                    Some(l) => l,
                    None => pattern_event_length,
                },
            ),
    {
        let ranges = if !self.has_explicit_length() {
            let r = vec![(relative_range, 0)];
            assert(r@ =~= pattern_play_ranges(self.length, relative_range));
            r
        } else {
            self.looping_ranges(&relative_range)
        };
        let looping_note_length = if self.has_explicit_length() {
            self.length()
        } else {
            pattern_event_length
        };
        let ghost ranges_seq = ranges@;
        let mut out: Vec<PlayingNoteEvent> = Vec::new();
        let mut k: usize = 0;
        while k < ranges.len()
            invariant
                0 <= k <= ranges@.len(),
                ranges@ == ranges_seq,
                ranges_seq == pattern_play_ranges(self.length, relative_range),
                looping_note_length == match self.length {
                    Some(l) => l,
                    None => pattern_event_length,
                },
                notes_for_ranges_defined(
                    self.note_events@,
                    ranges_seq,
                    relative_range.start,
                    absolute_start,
                    looping_note_length,
                ),
                out@ == notes_for_ranges(
                    self.note_events@,
                    ranges_seq.take(k as int),
                    relative_range.start,
                    absolute_start,
                    looping_note_length,
                ),
            decreases ranges@.len() - k,
        {
            assert(ranges_seq.take(k + 1).drop_last() =~= ranges_seq.take(k as int));
            let (range, offset) = ranges[k];
            collect_started_notes(
                &self.note_events,
                range,
                offset,
                relative_range.start,
                absolute_start,
                looping_note_length,
                &mut out,
            );
            k += 1;
        }
        assert(ranges_seq.take(k as int) =~= ranges_seq);
        out
    }
}

} // verus!
