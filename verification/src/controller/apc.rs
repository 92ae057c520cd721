use vstd::prelude::*;

use crate::controller::input::{cue_delta, trunc_div, trunc_rem, ButtonType, CueKnob, FaderType, InputEvent, InputEventType, KnobType};
use crate::controller::lights::{
    are_note_messages, grid_changes, grid_index, light_status, row_changes, Drawable, Grid, Side,
    Single, WideRow,
};
use crate::message::{Message, TimedMessage};
use crate::events::{LoopableEvent, LoopableNoteEvent, LoopablePhraseEvent};
use crate::loopable::{last_index_on_row, last_on_row, max_tick, natural_pattern_length, with_complete_event, Pattern, Phrase, Timeline};
use crate::events::LoopablePatternEvent;
use crate::sequence::Sequence;
use crate::loopable::{has_event_starting_in, without_starting_in, Loopable};
use crate::tick_range::TickRange;
use crate::cycle::ProcessCycle;
use crate::sequencer::{phrase_patterns_defined, phrases_playing, plays_of_phrase, timeline_end_of, Sequencer};
use crate::track::{are_note_offs, are_note_ons, Channel, Track};
use crate::surface::{first_other_press, registered, released, ButtonPress, snapped_offset, latest_occurrence, occurred_of_kinds, EventKind, EventMemory, GridView, OccurredInputEvent, Surface};
use crate::hardware::APCType;

verus! {

/// The drawing of the main grid after `value` is drawn at column `x`, row `y` counted from the
/// bottom, when `x` is not left of the grid.
pub open spec fn grid_try_draw(drawing: Seq<u8>, x: i32, y: u8, value: u8) -> Seq<u8> {
    if x >= 0 && (x as u8) < 8 && y < 5 {
        drawing.update(grid_index((x as u8) as int, 4 - y), value)
    } else {
        drawing
    }
}

/// The drawing of the main grid after `color` is drawn on row `y` at every column from `from`
/// up to, not including, `to`.
pub open spec fn grid_tail(drawing: Seq<u8>, from: int, to: int, y: u8, color: u8) -> Seq<u8>
    decreases to - from,
{
    if from >= to {
        drawing
    } else {
        grid_tail(grid_try_draw(drawing, from as i32, y, color), from + 1, to, y, color)
    }
}

/// The light at column `c` of row `y` after a tail is drawn from column `from` up to `to`: the
/// tail's color when `c` lies between them, unchanged otherwise.
proof fn lemma_grid_tail_light(drawing: Seq<u8>, from: int, to: int, y: u8, color: u8, c: int)
    requires
        drawing.len() == 40,
        0 <= from,
        to <= 256,
        y < 5,
        0 <= c < 8,
    ensures
        grid_tail(drawing, from, to, y, color).len() == 40,
        grid_tail(drawing, from, to, y, color)[grid_index(c, 4 - y)] == if from <= c < to {
            color
        } else {
            drawing[grid_index(c, 4 - y)]
        },
    decreases to - from,
{
    if from < to {
        let next = grid_try_draw(drawing, from as i32, y, color);
        assert(from as i32 == from);
        assert((from as i32) as u8 == from);
        if from < 8 {
            assert(next == drawing.update(grid_index(from, 4 - y), color));
        } else {
            assert(next == drawing);
        }
        lemma_grid_tail_light(next, from + 1, to, y, color, c);
    }
}

/// Events are drawn with a head and a tail: once the events are drawn, the last of them,
/// when it starts on the grid and stops after it starts (within 256 buttons of the grid's
/// start, as button columns are counted in a byte), shows its head color at the column of its
/// start and its tail color at every column after that, on the grid, before the column of its
/// stop.
pub proof fn law_drawn_event_has_head_and_tail<E: LoopableEvent>(
    drawing: Seq<u8>,
    events: Seq<E>,
    offset_x: u32,
    offset_y: u8,
    ticks_in_grid: u32,
    head_color: u8,
    tail_color: u8,
    c: int,
)
    requires
        drawing.len() == 40,
        ticks_in_grid >= 8,
        events.len() > 0,
        ({
            let e = events.last();
            &&& e.stop_tick() is Some
            &&& offset_x <= e.start_tick() < e.stop_tick().unwrap() <= i32::MAX
            &&& e.start_tick() < offset_x + ticks_in_grid
            &&& e.stop_tick().unwrap() - offset_x < 256 * (ticks_in_grid / 8)
            &&& offset_y <= e.row_key() < offset_y + 5
        }),
        0 <= c < 8,
    ensures
        ({
            let e = events.last();
            let ticks_per_button = (ticks_in_grid / 8) as int;
            let start_button = (e.start_tick() - offset_x) / ticks_per_button;
            let stop_button = (e.stop_tick().unwrap() - offset_x) / ticks_per_button;
            let light = grid_events(drawing, events, offset_x, offset_y, ticks_in_grid, head_color, tail_color)[grid_index(
                c,
                4 - (e.row_key() - offset_y),
            )];
            &&& c == start_button ==> light == head_color
            &&& start_button < c < stop_button ==> light == tail_color
        }),
{
    let e = events.last();
    let before = grid_events(drawing, events.drop_last(), offset_x, offset_y, ticks_in_grid, head_color, tail_color);
    lemma_grid_events_len(drawing, events.drop_last(), offset_x, offset_y, ticks_in_grid, head_color, tail_color);
    let ticks_per_button = (ticks_in_grid / 8) as int;
    let start_button = (e.start_tick() - offset_x) / ticks_per_button;
    let stop_button = (e.stop_tick().unwrap() - offset_x) / ticks_per_button;
    let row = (e.row_key() - offset_y) as u8;
    assert(ticks_per_button >= 1);
    assert(trunc_div(e.start_tick() - offset_x, ticks_per_button) == start_button);
    assert(trunc_div(e.stop_tick().unwrap() - offset_x, ticks_per_button) == stop_button);
    assert(start_button <= stop_button) by (nonlinear_arith)
        requires
            ticks_per_button >= 1,
            0 <= e.start_tick() - offset_x <= e.stop_tick().unwrap() - offset_x,
            start_button == (e.start_tick() - offset_x) / ticks_per_button,
            stop_button == (e.stop_tick().unwrap() - offset_x) / ticks_per_button,
    ;
    assert(stop_button < 256) by (nonlinear_arith)
        requires
            ticks_per_button >= 1,
            0 <= e.stop_tick().unwrap() - offset_x < 256 * ticks_per_button,
            stop_button == (e.stop_tick().unwrap() - offset_x) / ticks_per_button,
    ;
    assert(0 <= start_button) by (nonlinear_arith)
        requires
            ticks_per_button >= 1,
            0 <= e.start_tick() - offset_x,
            start_button == (e.start_tick() - offset_x) / ticks_per_button,
    ;
    assert(event_in_grid(e, offset_x, offset_x + ticks_in_grid));
    let with_head = grid_try_draw(before, start_button as i32, row, head_color);
    assert(start_button as i32 == start_button);
    assert((start_button as i32) as u8 == start_button);
    assert(before.len() == 40);
    assert(with_head.len() == 40);
    assert(with_head[grid_index(c, 4 - row)] == if c == start_button { head_color } else { before[grid_index(c, 4 - row)] });
    lemma_grid_tail_light(with_head, start_button + 1, stop_button, row, tail_color, c);
}

/// A looping event is drawn round the grid: once the events are drawn, the last of them, when
/// it loops (stops at or before it starts, both on or after the grid's start and within 256
/// buttons of it), shows its head color at the column of its start, and its tail color at
/// every column after that up to the grid's end and at every column from the grid's start up
/// to, not including, the column of its stop.
pub proof fn law_drawn_looping_event_wraps<E: LoopableEvent>(
    drawing: Seq<u8>,
    events: Seq<E>,
    offset_x: u32,
    offset_y: u8,
    ticks_in_grid: u32,
    head_color: u8,
    tail_color: u8,
    c: int,
)
    requires
        drawing.len() == 40,
        ticks_in_grid >= 8,
        events.len() > 0,
        ({
            let e = events.last();
            &&& e.stop_tick() is Some
            &&& offset_x <= e.stop_tick().unwrap() <= e.start_tick() <= i32::MAX
            &&& e.start_tick() - offset_x < 256 * (ticks_in_grid / 8)
            &&& offset_y <= e.row_key() < offset_y + 5
        }),
        0 <= c < 8,
    ensures
        ({
            let e = events.last();
            let ticks_per_button = (ticks_in_grid / 8) as int;
            let start_button = (e.start_tick() - offset_x) / ticks_per_button;
            let stop_button = (e.stop_tick().unwrap() - offset_x) / ticks_per_button;
            let light = grid_events(drawing, events, offset_x, offset_y, ticks_in_grid, head_color, tail_color)[grid_index(
                c,
                4 - (e.row_key() - offset_y),
            )];
            &&& stop_button < start_button && c == start_button ==> light == head_color
            &&& stop_button < start_button && (c > start_button || c < stop_button) ==> light == tail_color
        }),
{
    let e = events.last();
    let before = grid_events(drawing, events.drop_last(), offset_x, offset_y, ticks_in_grid, head_color, tail_color);
    lemma_grid_events_len(drawing, events.drop_last(), offset_x, offset_y, ticks_in_grid, head_color, tail_color);
    let ticks_per_button = (ticks_in_grid / 8) as int;
    let start_button = (e.start_tick() - offset_x) / ticks_per_button;
    let stop_button = (e.stop_tick().unwrap() - offset_x) / ticks_per_button;
    let row = (e.row_key() - offset_y) as u8;
    assert(ticks_per_button >= 1);
    assert(trunc_div(e.start_tick() - offset_x, ticks_per_button) == start_button);
    assert(trunc_div(e.stop_tick().unwrap() - offset_x, ticks_per_button) == stop_button);
    assert(0 <= stop_button <= start_button < 256) by (nonlinear_arith)
        requires
            ticks_per_button >= 1,
            0 <= e.stop_tick().unwrap() - offset_x <= e.start_tick() - offset_x < 256 * ticks_per_button,
            start_button == (e.start_tick() - offset_x) / ticks_per_button,
            stop_button == (e.stop_tick().unwrap() - offset_x) / ticks_per_button,
    ;
    assert(event_in_grid(e, offset_x, offset_x + ticks_in_grid));
    if stop_button < start_button {
        let with_head = grid_try_draw(before, start_button as i32, row, head_color);
        assert(start_button as i32 == start_button);
        assert((start_button as i32) as u8 == start_button);
        assert(with_head.len() == 40);
        assert(with_head[grid_index(c, 4 - row)] == if c == start_button { head_color } else { before[grid_index(c, 4 - row)] });
        lemma_grid_tail_light(with_head, start_button + 1, 8, row, tail_color, c);
        let wrapped = grid_tail(with_head, start_button + 1, 8, row, tail_color);
        lemma_grid_tail_light(wrapped, 0, stop_button, row, tail_color, c);
    }
}

/// Drawing events keeps the grid's 40 lights.
proof fn lemma_grid_events_len<E: LoopableEvent>(
    drawing: Seq<u8>,
    events: Seq<E>,
    offset_x: u32,
    offset_y: u8,
    ticks_in_grid: u32,
    head_color: u8,
    tail_color: u8,
)
    requires
        drawing.len() == 40,
    ensures
        grid_events(drawing, events, offset_x, offset_y, ticks_in_grid, head_color, tail_color).len() == 40,
    decreases events.len(),
{
    if events.len() > 0 {
        lemma_grid_events_len(drawing, events.drop_last(), offset_x, offset_y, ticks_in_grid, head_color, tail_color);
        let before = grid_events(drawing, events.drop_last(), offset_x, offset_y, ticks_in_grid, head_color, tail_color);
        let e = events.last();
        let ticks_per_button = (ticks_in_grid / 8) as int;
        let start_button = trunc_div(e.start_tick() - offset_x, ticks_per_button);
        let stop_button = match e.stop_tick() {
            None => start_button + 1,
            Some(s) => trunc_div(s - offset_x, ticks_per_button),
        };
        let row = (e.row_key() - offset_y) as u8;
        let with_head = grid_try_draw(before, start_button as i32, row, head_color);
        lemma_grid_tail_len(with_head, start_button + 1, stop_button, row, tail_color);
        lemma_grid_tail_len(with_head, start_button + 1, 8, row, tail_color);
        lemma_grid_tail_len(grid_tail(with_head, start_button + 1, 8, row, tail_color), 0, stop_button, row, tail_color);
    }
}

/// Drawing a tail keeps the grid's 40 lights.
proof fn lemma_grid_tail_len(drawing: Seq<u8>, from: int, to: int, y: u8, color: u8)
    requires
        drawing.len() == 40,
    ensures
        grid_tail(drawing, from, to, y, color).len() == 40,
    decreases to - from,
{
    if from < to {
        lemma_grid_tail_len(grid_try_draw(drawing, from as i32, y, color), from + 1, to, y, color);
    }
}

/// Whether an event is drawn on a grid showing `[offset_x, grid_stop)`: it overlaps it, or it
/// loops.
pub open spec fn event_in_grid<E: LoopableEvent>(event: E, offset_x: u32, grid_stop: int) -> bool {
    (event.start_tick() < grid_stop && match event.stop_tick() {
        None => true,
        Some(s) => s > offset_x,
    }) || match event.stop_tick() {
        Some(s) => s <= event.start_tick(),
        None => false,
    }
}

/// The drawing of the main grid after `event` is drawn: its head at its first button, its
/// tail up to its last button, wrapping around the grid when the last button comes first.
pub open spec fn grid_event<E: LoopableEvent>(
    drawing: Seq<u8>,
    event: E,
    offset_x: u32,
    offset_y: u8,
    ticks_per_button: int,
    head_color: u8,
    tail_color: u8,
) -> Seq<u8> {
    let start_button = trunc_div(event.start_tick() - offset_x, ticks_per_button);
    let stop_button = match event.stop_tick() {
        None => start_button + 1,
        Some(s) => trunc_div(s - offset_x, ticks_per_button),
    };
    let row = (event.row_key() - offset_y) as u8;
    let with_head = grid_try_draw(drawing, start_button as i32, row, head_color);
    if stop_button >= start_button {
        grid_tail(with_head, start_button + 1, stop_button, row, tail_color)
    } else {
        grid_tail(grid_tail(with_head, start_button + 1, 8, row, tail_color), 0, stop_button, row, tail_color)
    }
}

/// The drawing of the main grid after the events among `events` that it shows are drawn, one
/// after the other.
pub open spec fn grid_events<E: LoopableEvent>(
    drawing: Seq<u8>,
    events: Seq<E>,
    offset_x: u32,
    offset_y: u8,
    ticks_in_grid: u32,
    head_color: u8,
    tail_color: u8,
) -> Seq<u8>
    decreases events.len(),
{
    if events.len() == 0 {
        drawing
    } else {
        let before = grid_events(drawing, events.drop_last(), offset_x, offset_y, ticks_in_grid, head_color, tail_color);
        let e = events.last();
        if event_in_grid(e, offset_x, offset_x + ticks_in_grid) {
            grid_event(before, e, offset_x, offset_y, (ticks_in_grid / 8) as int, head_color, tail_color)
        } else {
            before
        }
    }
}

/// Whether the events can be drawn as they are: their ticks fit in the signed ticks the
/// drawing computes with, and each shown one lies on a row from `offset_y` up.
pub open spec fn events_drawable<E: LoopableEvent>(events: Seq<E>, offset_x: u32, offset_y: u8, ticks_in_grid: u32) -> bool {
    forall|i: int|
        0 <= i < events.len() ==> {
            let e = #[trigger] events[i];
            &&& e.start_tick() < i32::MAX
            &&& e.stop_tick() matches Some(s) ==> s <= i32::MAX
            &&& event_in_grid(e, offset_x, offset_x + ticks_in_grid) ==> e.row_key() >= offset_y
        }
}

/// Whether `event` can be drawn on a grid that shows `ticks_in_grid` ticks from `offset_x`, its
/// row counted from `offset_y`.
fn event_is_drawable<E: LoopableEvent>(event: &E, offset_x: u32, offset_y: u8, ticks_in_grid: u32) -> (r: bool)
    ensures
        r == {
            &&& event.start_tick() < i32::MAX
            &&& event.stop_tick() matches Some(s) ==> s <= i32::MAX
            &&& event_in_grid(*event, offset_x, offset_x + ticks_in_grid) ==> event.row_key() >= offset_y
        },
{
    let start = event.start();
    let stop = event.stop();
    let grid_stop: u64 = offset_x as u64 + ticks_in_grid as u64;
    let stop_fits = match stop {
        Some(s) => s <= 0x7fff_ffff,
        None => true,
    };
    let in_grid = ((start as u64) < grid_stop && match stop {
        None => true,
        Some(s) => s > offset_x,
    }) || match stop {
        Some(s) => s <= start,
        None => false,
    };
    start < 0x7fff_ffff && stop_fits && (!in_grid || event.row(0) >= offset_y)
}

/// Whether every event of `events` can be drawn (see `events_drawable`).
fn all_events_drawable<E: LoopableEvent>(events: &Vec<E>, offset_x: u32, offset_y: u8, ticks_in_grid: u32) -> (r: bool)
    ensures
        r == events_drawable(events@, offset_x, offset_y, ticks_in_grid),
{
    let mut i: usize = 0;
    while i < events.len()
        invariant
            0 <= i <= events@.len(),
            events_drawable(events@.take(i as int), offset_x, offset_y, ticks_in_grid),
        decreases events@.len() - i,
    {
        if !event_is_drawable(&events[i], offset_x, offset_y, ticks_in_grid) {
            return false;
        }
        proof {
            let next = events@.take(i + 1);
            assert forall|j: int| 0 <= j < next.len() implies {
                let e = #[trigger] next[j];
                &&& e.start_tick() < i32::MAX
                &&& e.stop_tick() matches Some(s) ==> s <= i32::MAX
                &&& event_in_grid(e, offset_x, offset_x + ticks_in_grid) ==> e.row_key() >= offset_y
            } by {
                if j < i {
                    assert(next[j] == events@.take(i as int)[j]);
                }
            }
        }
        i += 1;
    }
    assert(events@.take(i as int) =~= events@);
    true
}

/// Whether the notes of `events` within two notes of `base` can all be drawn (see
/// `events_drawable`).
fn notes_around_drawable(events: &Vec<LoopableNoteEvent>, base: u8, offset_x: u32, offset_y: u8, ticks_in_grid: u32) -> (r: bool)
    requires
        2 <= base <= 253,
    ensures
        r == events_drawable(notes_around(events@, base), offset_x, offset_y, ticks_in_grid),
{
    let mut i: usize = 0;
    while i < events.len()
        invariant
            0 <= i <= events@.len(),
            2 <= base <= 253,
            events_drawable(notes_around(events@.take(i as int), base), offset_x, offset_y, ticks_in_grid),
        decreases events@.len() - i,
    {
        let ghost before = notes_around(events@.take(i as int), base);
        assert(events@.take(i + 1).drop_last() =~= events@.take(i as int));
        let e = &events[i];
        if e.note >= base - 2 && e.note <= base + 2 {
            assert(notes_around(events@.take(i + 1), base) == before.push(*e));
            if !event_is_drawable(e, offset_x, offset_y, ticks_in_grid) {
                proof {
                    lemma_notes_around_prefix(events@, base, i + 1);
                    let whole = notes_around(events@, base);
                    assert(whole[before.len() as int] == *e);
                }
                return false;
            }
            proof {
                let next = before.push(*e);
                assert forall|j: int| 0 <= j < next.len() implies {
                    let x = #[trigger] next[j];
                    &&& x.start_tick() < i32::MAX
                    &&& x.stop_tick() matches Some(s) ==> s <= i32::MAX
                    &&& event_in_grid(x, offset_x, offset_x + ticks_in_grid) ==> x.row_key() >= offset_y
                } by {
                    if j < before.len() {
                        assert(next[j] == before[j]);
                    }
                }
            }
        } else {
            assert(notes_around(events@.take(i + 1), base) == before);
        }
        i += 1;
    }
    assert(events@.take(i as int) =~= events@);
    true
}

/// The notes around a base note of a prefix of `events` come first among those of `events`.
proof fn lemma_notes_around_prefix(events: Seq<LoopableNoteEvent>, base: u8, n: int)
    requires
        0 <= n <= events.len(),
    ensures
        notes_around(events.take(n), base).len() <= notes_around(events, base).len(),
        forall|j: int|
            0 <= j < notes_around(events.take(n), base).len() ==> #[trigger] notes_around(events, base)[j]
                == notes_around(events.take(n), base)[j],
    decreases events.len() - n,
{
    if n < events.len() {
        lemma_notes_around_prefix(events, base, n + 1);
        assert(events.take(n + 1).drop_last() =~= events.take(n));
    } else {
        assert(events.take(n) =~= events);
    }
}

/// Whether `pattern` has a length that fits in a `u32`.
fn pattern_length_fits(pattern: &Pattern) -> (r: bool)
    ensures
        r == pattern.length_defined(),
{
    if pattern.length.is_some() {
        return true;
    }
    let mut m: u32 = 0;
    let mut i: usize = 0;
    while i < pattern.note_events.len()
        invariant
            0 <= i <= pattern.note_events@.len(),
            m == max_tick(pattern.note_events@.take(i as int)),
        decreases pattern.note_events@.len() - i,
    {
        assert(pattern.note_events@.take(i + 1).drop_last() =~= pattern.note_events@.take(i as int));
        let e = pattern.note_events[i];
        if e.start > m {
            m = e.start;
        }
        if let Some(s) = e.stop {
            if s > m {
                m = s;
            }
        }
        i += 1;
    }
    assert(pattern.note_events@.take(i as int) =~= pattern.note_events@);
    let minimum: u64 = 7680;
    let bars: u64 = m as u64 / minimum + 1;
    bars * 2 * minimum <= 0xffff_ffff
}

/// The drawing of the main grid after the phrases `phrases` of the 8 channels from `offset`
/// are drawn: a light in column `i` on the row of the phrase channel `offset + i` plays.
pub open spec fn grid_phrases(drawing: Seq<u8>, phrases: Seq<Option<u8>>, offset: int, n: int) -> Seq<u8>
    decreases n,
{
    if n <= 0 {
        drawing
    } else {
        let before = grid_phrases(drawing, phrases, offset, n - 1);
        match phrases[offset + n - 1] {
            Some(phrase) => grid_try_draw(before, (n - 1) as i32, phrase, 1),
            None => before,
        }
    }
}

/// The drawing of a row of 8 lights after `value` is drawn at each of the buttons `i as u8`
/// for `i` below `n`.
pub open spec fn row_lit(drawing: Seq<u8>, n: int, value: u8) -> Seq<u8>
    decreases n,
{
    if n <= 0 {
        drawing
    } else {
        let before = row_lit(drawing, n - 1, value);
        if ((n - 1) as u8) < 8 {
            before.update((n - 1) as u8 as int, value)
        } else {
            before
        }
    }
}

/// The notes among `events` within two notes of `base_note`, in order.
pub open spec fn notes_around(events: Seq<LoopableNoteEvent>, base_note: u8) -> Seq<LoopableNoteEvent>
    decreases events.len(),
{
    if events.len() == 0 {
        Seq::empty()
    } else {
        let rest = notes_around(events.drop_last(), base_note);
        let e = events.last();
        if e.note >= base_note - 2 && e.note <= base_note + 2 {
            rest.push(e)
        } else {
            rest
        }
    }
}

/// The drawing of a row of 8 lights after `value` is drawn at button `index`.
pub open spec fn row_draw(drawing: Seq<u8>, index: int, value: u8) -> Seq<u8> {
    if 0 <= index < 8 {
        drawing.update(index, value)
    } else {
        drawing
    }
}

/// The drawing of the side column after `value` is drawn at button `index`, counted from the
/// bottom.
pub open spec fn side_draw(drawing: Seq<u8>, index: int, value: u8) -> Seq<u8> {
    if 0 <= index < 5 {
        drawing.update(4 - index, value)
    } else {
        drawing
    }
}

/// The message a single light sends when `drawn` differs from what it shows.
pub open spec fn single_changes(shown: u8, drawn: u8, note: u8) -> Seq<(u8, u8, u8)> {
    if drawn != shown {
        seq![(light_status(drawn == 1, 0), note, drawn)]
    } else {
        Seq::empty()
    }
}

/// Note messages for two lists of lights, one after the other, are the note messages for
/// both lists.
pub proof fn lemma_note_messages_concat(a: Seq<TimedMessage>, x: Seq<(u8, u8, u8)>, b: Seq<TimedMessage>, y: Seq<(u8, u8, u8)>, frame: u32)
    requires
        are_note_messages(a, x, frame),
        are_note_messages(b, y, frame),
    ensures
        are_note_messages(a + b, x + y, frame),
{
    assert forall|i: int| 0 <= i < (x + y).len() implies crate::message::is_note_message(#[trigger] (a + b)[i], frame, (x + y)[i]) by {
        if i < x.len() {
            assert((a + b)[i] == a[i]);
            assert((x + y)[i] == x[i]);
        } else {
            assert((a + b)[i] == b[i - a.len()]);
            assert((x + y)[i] == y[i - x.len()]);
        }
    }
}

/// Whether `m` asks a device for its ids.
pub open spec fn is_device_inquiry(m: Message) -> bool {
    m matches Message::Inquiry(b) && b@ == seq![0xF0u8, 0x7E, 0x00, 0x06, 0x01, 0xF7]
}

/// Whether `m` introduces us to the APC with ids `local_id` and `device_id`, asking it to let
/// us light all its leds.
pub open spec fn is_apc_introduction(m: Message, local_id: u8, device_id: u8) -> bool {
    m matches Message::Introduction(b) && b@ == seq![
        0xF0u8, 0x47, local_id, device_id, 0x60, 0x00, 0x04, 0x41, 0x00, 0x00, 0x00, 0xF7,
    ]
}

/// When in a process cycle lights are switched: at a frame, or at the fraction `n / d` of
/// the cycle's frames.
#[derive(Debug, PartialEq, Eq, Structural, Clone, Copy)]
pub enum CycleFrame {
    Frame(u32),
    Between(u32, u32),
}

/// The patterns of the pattern plays of the phrase plays `phrase_plays` of `channel`, in
/// order.
pub open spec fn pattern_indexes_of(channel: Channel, phrase_plays: Seq<(TickRange, u32, u8)>) -> Seq<u8>
    decreases phrase_plays.len(),
{
    if phrase_plays.len() == 0 {
        Seq::empty()
    } else {
        pattern_indexes_of(channel, phrase_plays.drop_last()) + plays_of_phrase(
            channel,
            phrase_plays.last(),
        ).map_values(|p: (u8, u32, TickRange, u32, u32)| p.0)
    }
}

/// Whether the pattern plays of all `phrase_plays` of `channel` can be computed.
pub open spec fn all_patterns_defined(channel: Channel, phrase_plays: Seq<(TickRange, u32, u8)>) -> bool {
    forall|i: int| 0 <= i < phrase_plays.len() ==> phrase_patterns_defined(channel, #[trigger] phrase_plays[i])
}

/// The phrase plays among `phrase_plays` of phrase `phrase`, each as its range and the tick
/// at which the current repetition of the phrase started.
pub open spec fn phrase_ranges_of(phrase_plays: Seq<(TickRange, u32, u8)>, phrase: u8, length: u32) -> Seq<(TickRange, u32)>
    decreases phrase_plays.len(),
{
    if phrase_plays.len() == 0 {
        Seq::empty()
    } else {
        let rest = phrase_ranges_of(phrase_plays.drop_last(), phrase, length);
        let pp = phrase_plays.last();
        if pp.2 == phrase {
            rest.push((pp.0, (pp.1 + ((pp.0.start - pp.1) / (length as int)) * length) as u32))
        } else {
            rest
        }
    }
}

/// The pattern plays among `plays` of pattern `pattern`, each as its range in the song and the
/// tick at which the current repetition of the pattern started.
pub open spec fn plays_ranges_of(plays: Seq<(u8, u32, TickRange, u32, u32)>, pattern: u8, length: Option<u32>) -> Seq<(TickRange, u32)>
    decreases plays.len(),
{
    if plays.len() == 0 {
        Seq::empty()
    } else {
        let rest = plays_ranges_of(plays.drop_last(), pattern, length);
        let p = plays.last();
        if p.0 == pattern {
            rest.push((
                TickRange { start: (p.2.start + p.1) as u32, stop: (p.2.stop + p.1) as u32 },
                match length {
                    Some(l) => (p.1 + ((p.2.start as int) / (l as int)) * l) as u32,
                    None => p.1,
                },
            ))
        } else {
            rest
        }
    }
}

/// The pattern ranges of the phrase plays `phrase_plays` of `channel`, in order.
pub open spec fn pattern_ranges_of(channel: Channel, phrase_plays: Seq<(TickRange, u32, u8)>, pattern: u8) -> Seq<(TickRange, u32)>
    decreases phrase_plays.len(),
{
    if phrase_plays.len() == 0 {
        Seq::empty()
    } else {
        pattern_ranges_of(channel, phrase_plays.drop_last(), pattern) + plays_ranges_of(
            plays_of_phrase(channel, phrase_plays.last()),
            pattern,
            channel.patterns[pattern as int].length,
        )
    }
}

/// Whether the pattern ranges of pattern `pattern` can be computed for all `phrase_plays`.
pub open spec fn pattern_ranges_fit(channel: Channel, phrase_plays: Seq<(TickRange, u32, u8)>, pattern: u8) -> bool {
    forall|i: int, k: int|
        #![trigger plays_of_phrase(channel, phrase_plays[i])[k]]
        0 <= i < phrase_plays.len() && 0 <= k < plays_of_phrase(channel, phrase_plays[i]).len()
            && plays_of_phrase(channel, phrase_plays[i])[k].0 == pattern ==> {
            let p = plays_of_phrase(channel, phrase_plays[i])[k];
            &&& p.2.start + p.1 <= u32::MAX
            &&& p.2.stop + p.1 <= u32::MAX
            &&& channel.patterns[pattern as int].length matches Some(l) ==> l > 0 && p.1 + p.2.start <= u32::MAX
        }
}

/// The side column after `value` is drawn at each of `indexes` in turn.
pub open spec fn side_lit(drawing: Seq<u8>, indexes: Seq<u8>, value: u8) -> Seq<u8>
    decreases indexes.len(),
{
    if indexes.len() == 0 {
        drawing
    } else {
        side_draw(side_lit(drawing, indexes.drop_last(), value), indexes.last() as int, value)
    }
}

/// A light that blinks with `period` ticks on and `period` ticks off: its value at `tick`.
pub open spec fn blink(tick: u32, period: u32) -> u8 {
    (1 - (tick / period) % 2) as u8
}

/// When a light blinking every `period` ticks switches in the cycle covering `range`: at the
/// fraction of the cycle where a period ends, if one ends in it, else at its start.
pub open spec fn switch_frame(range: TickRange, period: u32) -> CycleFrame {
    if range.stop % period < range.stop - range.start {
        CycleFrame::Between(range.stop % period, (range.stop - range.start) as u32)
    } else {
        CycleFrame::Frame(0)
    }
}

/// The row after `value` is drawn at every button from `from` up to, not including, `to`.
pub open spec fn row_span(drawing: Seq<u8>, from: int, to: int, value: u8) -> Seq<u8>
    decreases to - from,
{
    if from >= to {
        drawing
    } else {
        row_span(row_draw(drawing, from, value), from + 1, to, value)
    }
}

/// The indicator row after the transport position in each of `ranges` is drawn, for a grid
/// showing from button `offset_buttons` with `ticks_per_button` ticks per button.
pub open spec fn indicator_positions(drawing: Seq<u8>, ranges: Seq<(TickRange, u32)>, offset_buttons: u32, ticks_per_button: u32) -> Seq<u8>
    decreases ranges.len(),
{
    if ranges.len() == 0 {
        drawing
    } else {
        let before = indicator_positions(drawing, ranges.drop_last(), offset_buttons, ticks_per_button);
        let (range, start) = ranges.last();
        let button = (range.stop - start) / (ticks_per_button as int);
        if button >= offset_buttons {
            row_draw(before, (button - offset_buttons) as u8 as int, 1)
        } else {
            before
        }
    }
}

/// When the indicator switches in a cycle playing `ranges`: where a button ends inside the
/// last range that has one, else `frame`.
pub open spec fn positions_frame(ranges: Seq<(TickRange, u32)>, ticks_per_button: u32, frame: CycleFrame) -> CycleFrame
    decreases ranges.len(),
{
    if ranges.len() == 0 {
        frame
    } else {
        let before = positions_frame(ranges.drop_last(), ticks_per_button, frame);
        let range = ranges.last().0;
        if range.stop % ticks_per_button < range.stop - range.start {
            CycleFrame::Between(range.stop % ticks_per_button, (range.stop - range.start) as u32)
        } else {
            before
        }
    }
}

/// Whether the transport positions in `ranges` can be computed.
pub open spec fn positions_defined(ranges: Seq<(TickRange, u32)>) -> bool {
    forall|i: int|
        0 <= i < ranges.len() ==> (#[trigger] ranges[i]).1 <= ranges[i].0.stop && ranges[i].0.start
            <= ranges[i].0.stop
}

/// The latest event found is not before the time looked from.
pub proof fn lemma_latest_occurrence_after(events: Seq<OccurredInputEvent>, usecs: u64, pick: spec_fn(OccurredInputEvent) -> bool)
    ensures
        latest_occurrence(events, usecs, pick) matches Some(t) ==> t >= usecs,
    decreases events.len(),
{
    if events.len() > 0 {
        lemma_latest_occurrence_after(events.drop_last(), usecs, pick);
    }
}

/// The steps a turn of the cue knob to `value` makes, with `accumulated` turned before and
/// `first` when no turn came shortly before.
pub open spec fn cue_steps(accumulated: int, value: u8, first: bool) -> int {
    if first {
        if cue_delta(value) > 0 {
            1
        } else {
            -1
        }
    } else {
        trunc_div(accumulated + cue_delta(value), 6)
    }
}

/// What the cue knob keeps of the turn.
pub open spec fn cue_kept(accumulated: int, value: u8, first: bool) -> int {
    if first {
        0
    } else {
        let sum = accumulated + cue_delta(value);
        if trunc_div(sum, 6) != 0 {
            trunc_rem(sum, 6)
        } else {
            sum
        }
    }
}


/// The events after `event` is opened: unless the last event on its row is still open, it is
/// added at the end.
pub open spec fn with_started<E: LoopableEvent>(events: Seq<E>, event: E) -> Seq<E> {
    if (match last_on_row(events, event.row_key()) {
        Some(p) => p.stop_tick() is None,
        None => false,
    }) {
        events
    } else {
        events.push(event)
    }
}

/// The events once the last event on row `key` is taken out.
pub open spec fn without_last_on_row<E: LoopableEvent>(events: Seq<E>, key: u8) -> Seq<E> {
    let j = last_index_on_row(events, key);
    events.update(j, events.last()).drop_last()
}

/// The last event on row `key`.
pub open spec fn last_event_on_row<E: LoopableEvent>(events: Seq<E>, key: u8) -> E {
    events[last_index_on_row(events, key)]
}

/// The notes of a pattern once a note `note` is opened at `start` (with velocity 127) and then
/// taken out again, before it is completed.
pub open spec fn notes_with_open_note(events: Seq<LoopableNoteEvent>, start: u32, note: u8) -> Seq<LoopableNoteEvent> {
    without_last_on_row(
        with_started(events, LoopableNoteEvent { start, note, start_velocity: 127, stop: None, stop_velocity: None }),
        note,
    )
}

/// The note completed at `stop`, with stop velocity 127.
pub open spec fn completed_note(events: Seq<LoopableNoteEvent>, start: u32, stop: u32, note: u8) -> LoopableNoteEvent {
    let open = last_event_on_row(
        with_started(events, LoopableNoteEvent { start, note, start_velocity: 127, stop: None, stop_velocity: None }),
        note,
    );
    LoopableNoteEvent { stop: Some(stop), stop_velocity: Some(127), ..open }
}

/// The length of a pattern with these notes and this explicit length.
pub open spec fn pattern_length_of(events: Seq<LoopableNoteEvent>, length: Option<u32>) -> int {
    match length {
        Some(l) => l as int,
        None => natural_pattern_length(events),
    }
}

/// The notes of a pattern once a note `note` from `start` to `stop` is added by hand.
pub open spec fn notes_with_note(events: Seq<LoopableNoteEvent>, length: Option<u32>, start: u32, stop: u32, note: u8) -> Seq<LoopableNoteEvent> {
    let rest = notes_with_open_note(events, start, note);
    with_complete_event(rest, completed_note(events, start, stop, note), pattern_length_of(rest, length) as u32)
}

/// The pattern events of a phrase once a pattern event of `pattern` is opened at `start` and
/// then taken out again, before it is completed.
pub open spec fn patterns_with_open_event(events: Seq<LoopablePatternEvent>, start: u32, pattern: u8) -> Seq<LoopablePatternEvent> {
    without_last_on_row(with_started(events, LoopablePatternEvent { start, stop: None, pattern }), pattern)
}

/// The pattern events of a phrase of `length` ticks once a pattern event of `pattern` from
/// `start` to `stop` is added by hand.
pub open spec fn patterns_with_event(events: Seq<LoopablePatternEvent>, length: u32, start: u32, stop: u32, pattern: u8) -> Seq<LoopablePatternEvent> {
    let open = last_event_on_row(with_started(events, LoopablePatternEvent { start, stop: None, pattern }), pattern);
    with_complete_event(
        patterns_with_open_event(events, start, pattern),
        LoopablePatternEvent { stop: Some(stop), ..open },
        length,
    )
}

/// After an event is opened, its row has a last event.
pub proof fn lemma_started_has_last<E: LoopableEvent>(events: Seq<E>, event: E)
    ensures
        last_index_on_row(with_started(events, event), event.row_key()) >= 0,
{
    lemma_last_on_row_index(events, event.row_key());
    assert(with_started(events, event) == events || with_started(events, event) == events.push(event));
    if with_started(events, event) == events.push(event) {
        assert(events.push(event).last() == event);
    }
}

/// The last event on a row exists exactly when its index does.
pub proof fn lemma_last_on_row_index<E: LoopableEvent>(events: Seq<E>, key: u8)
    ensures
        last_on_row(events, key) is Some <==> last_index_on_row(events, key) >= 0,
    decreases events.len(),
{
    if events.len() > 0 {
        lemma_last_on_row_index(events.drop_last(), key);
    }
}

/// What is left to do after an input event, where it takes more than the library: what to
/// show of the mixer and the knobs, what to do with the crossfader, and what to do with the
/// transport.
pub enum ApcAction {
    Nothing,
    FaderMoved { index: u8, value: u8 },
    KnobTurned { index: u8, value: u8 },
    CrossfaderMoved(u8),
    StartTransport(Vec<Vec<TimedMessage>>),
    StopTransport(Vec<Vec<TimedMessage>>),
    RepositionTransport,
}

/// What the transport is doing: whether it rolls, and whether it stands at its very start.
#[derive(Debug, PartialEq, Eq, Structural, Clone, Copy)]
pub struct TransportState {
    pub rolling: bool,
    pub at_start: bool,
}

/// Whether `after` is `before` with the timeline of every channel emptied.
pub open spec fn timelines_cleared(before: Sequencer, after: Sequencer) -> bool {
    &&& forall|i: int|
        0 <= i < 16 ==> (#[trigger] after.channels[i]).timeline.phrase_events@.len() == 0
            && after.channels[i].patterns == before.channels[i].patterns && after.channels[i].phrases
            == before.channels[i].phrases && after.channels[i].playing_notes == before.channels[i].playing_notes
    &&& after == (Sequencer { channels: after.channels, ..before })
}

/// Whether `after` is `before` with the playing notes of every channel forgotten.
pub open spec fn notes_forgotten(before: Sequencer, after: Sequencer) -> bool {
    &&& forall|i: int|
        0 <= i < 16 ==> (#[trigger] after.channels[i]).playing_notes@.len() == 0
            && after.channels[i].patterns == before.channels[i].patterns && after.channels[i].phrases
            == before.channels[i].phrases && after.channels[i].timeline == before.channels[i].timeline
    &&& after == (Sequencer { channels: after.channels, ..before })
}

/// Channels whose timelines are the same have timelines that end at the same tick.
pub proof fn lemma_same_timelines_same_end(a: Seq<Channel>, b: Seq<Channel>, n: int)
    requires
        forall|i: int| 0 <= i < n ==> (#[trigger] a[i]).timeline == b[i].timeline,
        1 <= n <= a.len(),
        n <= b.len(),
    ensures
        timeline_end_of(a, n) == timeline_end_of(b, n),
    decreases n,
{
    if n > 1 {
        lemma_same_timelines_same_end(a, b, n - 1);
    }
    assert(a[0].timeline == b[0].timeline);
    if n >= 1 {
        assert(a[n - 1].timeline == b[n - 1].timeline);
    }
}

/// The state of an APC controller: how far its identification got, its ids, its cue knob and
/// its lights.
pub struct APCController {
    pub apc_type: APCType,
    pub identified_cycles: u8,
    pub device_id: u8,
    pub local_id: u8,
    pub cue_knob: CueKnob,
    pub master: Single,
    pub grid: Grid,
    pub side: Side,
    pub indicator: WideRow,
    pub channel: WideRow,
    pub activator: WideRow,
    pub solo: WideRow,
}

impl APCController {
    /// Where this controller's channels start: the APC40 shows channels 8 to 15, the APC20
    /// channels 0 to 7.
    pub open spec fn channel_offset_of(apc_type: APCType) -> u8 {
        match apc_type {
            APCType::APC40 => 8,
            APCType::APC20 => 0,
        }
    }

    /// Color of the first button of an event: the APC40 draws notes in 1, the APC20 patterns
    /// in 3.
    pub open spec fn head_color_of(apc_type: APCType) -> u8 {
        match apc_type {
            APCType::APC40 => 1,
            APCType::APC20 => 3,
        }
    }

    /// A controller that is not identified yet, with nothing shown.
    pub fn new(apc_type: APCType) -> (r: Self)
        ensures
            r.apc_type == apc_type,
            r.identified_cycles == 0,
            r.device_id == 0,
            r.local_id == 0,
            r.cue_knob.accumulated() == 0,
            r.master.shown() == 9 && r.master.drawing() == 0 && r.master.button_note() == 0x50,
            r.grid.shown() == Seq::new(40, |i: int| 9u8),
            r.grid.drawing() == Seq::new(40, |i: int| 0u8),
            r.side.shown() == Seq::new(5, |i: int| 9u8),
            r.side.drawing() == Seq::new(5, |i: int| 0u8),
            r.indicator.shown() == Seq::new(8, |i: int| 9u8) && r.indicator.drawing() == Seq::new(8, |i: int| 0u8) && r.indicator.row_note() == 0x34,
            r.channel.shown() == Seq::new(8, |i: int| 9u8) && r.channel.drawing() == Seq::new(8, |i: int| 0u8) && r.channel.row_note() == 0x33,
            r.activator.shown() == Seq::new(8, |i: int| 9u8) && r.activator.drawing() == Seq::new(8, |i: int| 0u8) && r.activator.row_note() == 0x32,
            r.solo.shown() == Seq::new(8, |i: int| 9u8) && r.solo.drawing() == Seq::new(8, |i: int| 0u8) && r.solo.row_note() == 0x31,
    {
        APCController {
            apc_type,
            identified_cycles: 0,
            local_id: 0,
            device_id: 0,
            cue_knob: CueKnob::new(),
            master: Single::new(0x50),
            grid: Grid::new(),
            side: Side::new(),
            indicator: WideRow::new(0x34),
            channel: WideRow::new(0x33),
            activator: WideRow::new(0x32),
            solo: WideRow::new(0x31),
        }
    }

    pub fn channel_offset(&self) -> (r: u8)
        ensures
            r == Self::channel_offset_of(self.apc_type),
    {
        match self.apc_type {
            APCType::APC40 => 8,
            APCType::APC20 => 0,
        }
    }

    pub fn head_color(&self) -> (r: u8)
        ensures
            r == Self::head_color_of(self.apc_type),
    {
        match self.apc_type {
            APCType::APC40 => 1,
            APCType::APC20 => 3,
        }
    }

    /// Color of the rest of an event.
    pub fn tail_color(&self) -> (r: u8)
        ensures
            r == 5,
    {
        5
    }

    /// Whether the surface shows a loopable this controller can show: a channel that exists,
    /// and its pattern (APC40) or phrase (APC20) at a zoom level above 0.
    pub open spec fn shows_loopable(&self, sequencer: &Sequencer, surface: &Surface) -> bool {
        let c = surface.channel_shown as int;
        &&& c < 16
        &&& match self.apc_type {
            APCType::APC40 => surface.pattern_zoom_level > 0 && surface.shown_pattern_defined(sequencer, c),
            APCType::APC20 => surface.phrase_zoom_level > 0 && surface.phrase_shown[c] < 5,
        }
    }

    /// Ticks per button of the shown loopable.
    pub open spec fn loopable_button_ticks(&self, surface: &Surface) -> u32 {
        match self.apc_type {
            APCType::APC40 => surface.pattern_button_ticks(),
            APCType::APC20 => surface.phrase_button_ticks(),
        }
    }

    /// Offset of the shown loopable.
    pub open spec fn loopable_offset(&self, surface: &Surface) -> u32 {
        match self.apc_type {
            APCType::APC40 => surface.pattern_offsets[surface.channel_shown as int],
            APCType::APC20 => surface.phrase_offsets[surface.channel_shown as int],
        }
    }

    /// Index of the shown loopable.
    pub open spec fn loopable_index(&self, surface: &Surface) -> u8 {
        match self.apc_type {
            APCType::APC40 => surface.pattern_shown[surface.channel_shown as int],
            APCType::APC20 => surface.phrase_shown[surface.channel_shown as int],
        }
    }

    /// Length of the shown loopable.
    pub open spec fn loopable_length(&self, sequencer: &Sequencer, surface: &Surface) -> u32 {
        let channel = sequencer.channels[surface.channel_shown as int];
        match self.apc_type {
            APCType::APC40 => channel.patterns[self.loopable_index(surface) as int].length_ticks(),
            APCType::APC20 => channel.phrases[self.loopable_index(surface) as int].length_ticks(),
        }
    }

    pub fn loopable_ticks_per_button(&self, surface: &Surface) -> (r: u32)
        requires
            self.apc_type == APCType::APC40 ==> surface.pattern_zoom_level > 0,
            self.apc_type == APCType::APC20 ==> surface.phrase_zoom_level > 0,
        ensures
            r == self.loopable_button_ticks(surface),
    {
        match self.apc_type {
            APCType::APC40 => surface.pattern_ticks_per_button(),
            APCType::APC20 => surface.phrase_ticks_per_button(),
        }
    }

    pub fn loopable_ticks_in_grid(&self, surface: &Surface) -> (r: u32)
        requires
            self.apc_type == APCType::APC40 ==> surface.pattern_zoom_level > 0,
            self.apc_type == APCType::APC20 ==> surface.phrase_zoom_level > 0,
        ensures
            r == self.loopable_button_ticks(surface) * 8,
    {
        match self.apc_type {
            APCType::APC40 => surface.pattern_ticks_in_grid(),
            APCType::APC20 => surface.phrase_ticks_in_grid(),
        }
    }

    pub fn loopable_zoom_level(&self, surface: &Surface) -> (r: u8)
        ensures
            self.apc_type == APCType::APC40 ==> r == surface.pattern_zoom_level,
            self.apc_type == APCType::APC20 ==> r == surface.phrase_zoom_level,
    {
        match self.apc_type {
            APCType::APC40 => surface.pattern_zoom_level(),
            APCType::APC20 => surface.phrase_zoom_level(),
        }
    }

    pub fn shown_loopable_offset(&self, surface: &Surface) -> (r: u32)
        requires
            surface.channel_shown < 16,
        ensures
            r == self.loopable_offset(surface),
    {
        match self.apc_type {
            APCType::APC40 => surface.pattern_offset(surface.channel_shown()),
            APCType::APC20 => surface.phrase_offset(surface.channel_shown()),
        }
    }

    pub fn shown_loopable_index(&self, surface: &Surface) -> (r: u8)
        requires
            surface.channel_shown < 16,
        ensures
            r == self.loopable_index(surface),
    {
        match self.apc_type {
            APCType::APC40 => surface.pattern_shown(surface.channel_shown()),
            APCType::APC20 => surface.phrase_shown(surface.channel_shown()),
        }
    }

    /// Length of the shown loopable.
    pub fn shown_loopable_length(&self, sequencer: &Sequencer, surface: &Surface) -> (r: u32)
        requires
            self.shows_loopable(sequencer, surface),
        ensures
            r == self.loopable_length(sequencer, surface),
    {
        let channel = sequencer.channel(surface.channel_shown());
        match self.apc_type {
            APCType::APC40 => channel.pattern(self.shown_loopable_index(surface)).length(),
            APCType::APC20 => channel.phrase(self.shown_loopable_index(surface)).length(),
        }
    }

    /// Zoom the shown loopables of every channel to `zoom_level`.
    pub fn set_loopable_zoom_level(&self, sequencer: &Sequencer, surface: &mut Surface, zoom_level: u8)
        requires
            zoom_level > 0,
            self.apc_type == APCType::APC40 ==> forall|c: int| 0 <= c < 16 ==> old(surface).shown_pattern_defined(sequencer, c),
            self.apc_type == APCType::APC20 ==> forall|c: int| 0 <= c < 16 ==> old(surface).phrase_shown[c] < 5,
        ensures
            self.apc_type == APCType::APC40 ==> {
                &&& final(surface).pattern_zoom_level == zoom_level
                &&& forall|c: int|
                    0 <= c < 16 ==> #[trigger] final(surface).pattern_offsets[c] == crate::surface::snapped_offset(
                        old(surface).pattern_offsets[c],
                        final(surface).pattern_button_ticks(),
                        final(surface).pattern_offset_max(sequencer, c),
                    )
                &&& *final(surface) == (Surface {
                    pattern_zoom_level: zoom_level,
                    pattern_offsets: final(surface).pattern_offsets,
                    ..*old(surface)
                })
            },
            self.apc_type == APCType::APC20 ==> {
                &&& final(surface).phrase_zoom_level == zoom_level
                &&& forall|c: int|
                    0 <= c < 16 ==> #[trigger] final(surface).phrase_offsets[c] == crate::surface::snapped_offset(
                        old(surface).phrase_offsets[c],
                        final(surface).phrase_button_ticks(),
                        final(surface).phrase_offset_max(sequencer, c),
                    )
                &&& *final(surface) == (Surface {
                    phrase_zoom_level: zoom_level,
                    phrase_offsets: final(surface).phrase_offsets,
                    ..*old(surface)
                })
            },
    {
        match self.apc_type {
            APCType::APC40 => surface.set_pattern_zoom_level(sequencer, zoom_level),
            APCType::APC20 => surface.set_phrase_zoom_level(sequencer, zoom_level),
        }
    }

    /// Show the shown loopable of the shown channel from `offset`.
    pub fn set_shown_loopable_offset(&self, sequencer: &Sequencer, surface: &mut Surface, offset: u32)
        requires
            self.shows_loopable(sequencer, old(surface)),
        ensures
            self.apc_type == APCType::APC40 ==> {
                &&& final(surface).pattern_offsets@ == old(surface).pattern_offsets@.update(
                    old(surface).channel_shown as int,
                    crate::surface::snapped_offset(
                        offset,
                        old(surface).pattern_button_ticks(),
                        old(surface).pattern_offset_max(sequencer, old(surface).channel_shown as int),
                    ),
                )
                &&& *final(surface) == (Surface { pattern_offsets: final(surface).pattern_offsets, ..*old(surface) })
            },
            self.apc_type == APCType::APC20 ==> {
                &&& final(surface).phrase_offsets@ == old(surface).phrase_offsets@.update(
                    old(surface).channel_shown as int,
                    crate::surface::snapped_offset(
                        offset,
                        old(surface).phrase_button_ticks(),
                        old(surface).phrase_offset_max(sequencer, old(surface).channel_shown as int),
                    ),
                )
                &&& *final(surface) == (Surface { phrase_offsets: final(surface).phrase_offsets, ..*old(surface) })
            },
    {
        let channel = surface.channel_shown();
        match self.apc_type {
            APCType::APC40 => surface.set_pattern_offset(sequencer, channel, offset),
            APCType::APC20 => surface.set_phrase_offset(sequencer, channel, offset),
        }
    }

    /// Forget what every light shows, so that the next output sends them all.
    pub fn reset_grids(&mut self)
        ensures
            final(self).master.shown() == 9 && final(self).master.drawing() == old(self).master.drawing()
                && final(self).master.button_note() == old(self).master.button_note(),
            final(self).grid.shown() == Seq::new(40, |i: int| 9u8) && final(self).grid.drawing() == old(self).grid.drawing(),
            final(self).side.shown() == Seq::new(5, |i: int| 9u8) && final(self).side.drawing() == old(self).side.drawing(),
            final(self).channel.shown() == Seq::new(8, |i: int| 9u8) && final(self).channel.drawing() == old(self).channel.drawing()
                && final(self).channel.row_note() == old(self).channel.row_note(),
            final(self).indicator.shown() == Seq::new(8, |i: int| 9u8) && final(self).indicator.drawing() == old(self).indicator.drawing()
                && final(self).indicator.row_note() == old(self).indicator.row_note(),
            final(self).activator.shown() == Seq::new(8, |i: int| 9u8) && final(self).activator.drawing() == old(self).activator.drawing()
                && final(self).activator.row_note() == old(self).activator.row_note(),
            final(self).solo.shown() == Seq::new(8, |i: int| 9u8) && final(self).solo.drawing() == old(self).solo.drawing()
                && final(self).solo.row_note() == old(self).solo.row_note(),
            final(self).apc_type == old(self).apc_type,
            final(self).identified_cycles == old(self).identified_cycles,
            final(self).device_id == old(self).device_id,
            final(self).local_id == old(self).local_id,
            final(self).cue_knob == old(self).cue_knob,
    {
        self.master.reset();
        self.grid.reset();
        self.side.reset();
        self.channel.reset();
        self.indicator.reset();
        self.activator.reset();
        self.solo.reset();
    }

    /// Draw which phrase each of this controller's 8 channels plays in `phrases`.
    pub fn draw_phrases(&mut self, phrases: &[Option<u8>; 16])
        ensures
            final(self).grid.drawing() == grid_phrases(
                old(self).grid.drawing(),
                phrases@,
                Self::channel_offset_of(old(self).apc_type) as int,
                8,
            ),
            final(self).grid.shown() == old(self).grid.shown(),
            *final(self) == (APCController { grid: final(self).grid, ..*old(self) }),
            final(self).apc_type == old(self).apc_type,
    {
        let offset = self.channel_offset() as usize;
        let mut index: usize = 0;
        while index < 8
            invariant
                0 <= index <= 8,
                offset == Self::channel_offset_of(old(self).apc_type),
                offset + 8 <= 16,
                self.grid.drawing() == grid_phrases(old(self).grid.drawing(), phrases@, offset as int, index as int),
                self.grid.shown() == old(self).grid.shown(),
                self.apc_type == old(self).apc_type,
                *self == (APCController { grid: self.grid, ..*old(self) }),
            decreases 8 - index,
        {
            if let Some(phrase) = phrases[offset + index] {
                self.try_draw_to_grid(index as i32, phrase, 1);
            }
            index += 1;
        }
    }

    /// Draw the timeline of the shown channel, from its offset, over the 8 columns of this
    /// controller.
    pub fn draw_timeline(&mut self, sequencer: &Sequencer, surface: &Surface)
        requires
            surface.channel_shown < 16,
            15360 * 8 + surface.timeline_offset + 122880 <= i32::MAX,
            events_drawable(
                sequencer.channels[surface.channel_shown as int].timeline.phrase_events@,
                (15360 * Self::channel_offset_of(old(self).apc_type) + surface.timeline_offset) as u32,
                0,
                122880,
            ),
        ensures
            final(self).grid.drawing() == grid_events(
                old(self).grid.drawing(),
                sequencer.channels[surface.channel_shown as int].timeline.phrase_events@,
                (15360 * Self::channel_offset_of(old(self).apc_type) + surface.timeline_offset) as u32,
                0,
                122880,
                1,
                3,
            ),
            final(self).grid.shown() == old(self).grid.shown(),
            *final(self) == (APCController { grid: final(self).grid, ..*old(self) }),
            final(self).apc_type == old(self).apc_type,
    {
        let channel = sequencer.channel(surface.channel_shown());
        let events = channel.timeline.events();
        let offset = 15360 * self.channel_offset() as u32 + surface.timeline_offset();
        self.draw_loopable_events(events, offset, 0, 15360 * 8, 1, 3);
    }

    /// Light the first `n` buttons of the activator row (the button count wrapping at 256).
    fn light_activators(&mut self, n: u32)
        ensures
            final(self).activator.drawing() == row_lit(old(self).activator.drawing(), n as int, 1),
            final(self).activator.shown() == old(self).activator.shown(),
            final(self).activator.row_note() == old(self).activator.row_note(),
            final(self).grid == old(self).grid,
            *final(self) == (APCController { activator: final(self).activator, ..*old(self) }),
            final(self).apc_type == old(self).apc_type,
    {
        let mut index: u32 = 0;
        while index < n
            invariant
                0 <= index <= n,
                self.activator.drawing() == row_lit(old(self).activator.drawing(), index as int, 1),
                self.activator.shown() == old(self).activator.shown(),
                self.activator.row_note() == old(self).activator.row_note(),
                self.grid == old(self).grid,
                self.apc_type == old(self).apc_type,
                *self == (APCController { activator: self.activator, ..*old(self) }),
            decreases n - index,
        {
            self.activator.draw(index as u8, 1);
            index += 1;
        }
    }

    /// Draw what this model shows of the channel view: the APC40 the notes of the shown
    /// pattern within two notes of its base note, and one activator per bar of its explicit
    /// length; the APC20 the patterns of the shown phrase, and one activator per four bars of
    /// its length. Nothing else in the other views.
    pub fn draw(&mut self, sequencer: &Sequencer, surface: &Surface)
        requires
            surface.view == GridView::Channel ==> {
                &&& old(self).shows_loopable(sequencer, surface)
                &&& old(self).loopable_offset(surface) + old(self).loopable_button_ticks(surface) * 8 <= u32::MAX
                &&& old(self).loopable_offset(surface) <= i32::MAX
                &&& old(self).apc_type == APCType::APC40 ==> {
                    let base = surface.pattern_base_notes[surface.channel_shown as int];
                    let pattern = sequencer.channels[surface.channel_shown as int].patterns[old(self).loopable_index(surface) as int];
                    &&& 2 <= base <= 253
                    &&& events_drawable(
                        notes_around(pattern.note_events@, base),
                        old(self).loopable_offset(surface),
                        (base - 2) as u8,
                        (old(self).loopable_button_ticks(surface) * 8) as u32,
                    )
                }
                &&& old(self).apc_type == APCType::APC20 ==> events_drawable(
                    sequencer.channels[surface.channel_shown as int].phrases[old(self).loopable_index(surface) as int].event_seq(),
                    old(self).loopable_offset(surface),
                    0,
                    (old(self).loopable_button_ticks(surface) * 8) as u32,
                )
            },
        ensures
            *final(self) == (APCController { grid: final(self).grid, activator: final(self).activator, ..*old(self) }),
            final(self).apc_type == old(self).apc_type,
            final(self).grid.shown() == old(self).grid.shown(),
            final(self).activator.shown() == old(self).activator.shown(),
            final(self).activator.row_note() == old(self).activator.row_note(),
            surface.view != GridView::Channel ==> *final(self) == *old(self),
            surface.view == GridView::Channel && old(self).apc_type == APCType::APC40 ==> {
                let base = surface.pattern_base_notes[surface.channel_shown as int];
                let pattern = sequencer.channels[surface.channel_shown as int].patterns[old(self).loopable_index(surface) as int];
                &&& final(self).grid.drawing() == grid_events(
                    old(self).grid.drawing(),
                    notes_around(pattern.note_events@, base),
                    old(self).loopable_offset(surface),
                    (base - 2) as u8,
                    (old(self).loopable_button_ticks(surface) * 8) as u32,
                    1,
                    5,
                )
                &&& final(self).activator.drawing() == match pattern.length {
                    Some(l) => row_lit(old(self).activator.drawing(), (l / 7680) as int, 1),
                    None => old(self).activator.drawing(),
                }
            },
            surface.view == GridView::Channel && old(self).apc_type == APCType::APC20 ==> {
                let phrase = sequencer.channels[surface.channel_shown as int].phrases[old(self).loopable_index(surface) as int];
                &&& final(self).grid.drawing() == grid_events(
                    old(self).grid.drawing(),
                    phrase.event_seq(),
                    old(self).loopable_offset(surface),
                    0,
                    (old(self).loopable_button_ticks(surface) * 8) as u32,
                    3,
                    5,
                )
                &&& final(self).activator.drawing() == row_lit(
                    old(self).activator.drawing(),
                    (phrase.length_ticks() / 30720) as int,
                    1,
                )
            },
    {
        if surface.view != GridView::Channel {
            return;
        }
        let channel = sequencer.channel(surface.channel_shown());
        let offset = self.shown_loopable_offset(surface);
        let ticks_in_grid = self.loopable_ticks_in_grid(surface);
        assert(ticks_in_grid >= 8) by {
            assert(3840int / (surface.pattern_zoom_level as int) >= 1 || self.apc_type != APCType::APC40) by (nonlinear_arith)
                requires
                    self.apc_type == APCType::APC40 ==> 0 < surface.pattern_zoom_level <= 255,
            ;
            assert(15360int / (surface.phrase_zoom_level as int) >= 1 || self.apc_type != APCType::APC20) by (nonlinear_arith)
                requires
                    self.apc_type == APCType::APC20 ==> 0 < surface.phrase_zoom_level <= 255,
            ;
        }
        match self.apc_type {
            APCType::APC40 => {
                let pattern = channel.pattern(self.shown_loopable_index(surface));
                let base_note = surface.pattern_base_note(surface.channel_shown());
                let events = pattern.events();
                let mut shown: Vec<LoopableNoteEvent> = Vec::new();
                let mut i: usize = 0;
                while i < events.len()
                    invariant
                        0 <= i <= events@.len(),
                        2 <= base_note <= 253,
                        shown@ == notes_around(events@.take(i as int), base_note),
                    decreases events@.len() - i,
                {
                    assert(events@.take(i + 1).drop_last() =~= events@.take(i as int));
                    let e = events[i];
                    if e.note >= base_note - 2 && e.note <= base_note + 2 {
                        shown.push(e);
                    }
                    i += 1;
                }
                assert(events@.take(i as int) =~= events@);
                self.draw_loopable_events(&shown, offset, base_note - 2, ticks_in_grid, 1, 5);
                if pattern.has_explicit_length() {
                    let bars = pattern.length() / 7680;
                    self.light_activators(bars);
                }
            },
            APCType::APC20 => {
                let phrase = channel.phrase(self.shown_loopable_index(surface));
                self.draw_loopable_events(phrase.events(), offset, 0, ticks_in_grid, 3, 5);
                let lengths = phrase.length() / 30720;
                self.light_activators(lengths);
            },
        }
    }

    /// The main grid drawn by `draw` in the channel view.
    pub open spec fn grid_of_channel_view(&self, sequencer: &Sequencer, surface: &Surface) -> Seq<u8> {
        let channel = sequencer.channels[surface.channel_shown as int];
        let ticks_in_grid = (self.loopable_button_ticks(surface) * 8) as u32;
        match self.apc_type {
            APCType::APC40 => {
                let base = surface.pattern_base_notes[surface.channel_shown as int];
                grid_events(
                    self.grid.drawing(),
                    notes_around(channel.patterns[self.loopable_index(surface) as int].note_events@, base),
                    self.loopable_offset(surface),
                    (base - 2) as u8,
                    ticks_in_grid,
                    1,
                    5,
                )
            },
            APCType::APC20 => grid_events(
                self.grid.drawing(),
                channel.phrases[self.loopable_index(surface) as int].event_seq(),
                self.loopable_offset(surface),
                0,
                ticks_in_grid,
                3,
                5,
            ),
        }
    }

    /// The activator row drawn by `draw` in the channel view.
    pub open spec fn activator_of_channel_view(&self, sequencer: &Sequencer, surface: &Surface) -> Seq<u8> {
        let channel = sequencer.channels[surface.channel_shown as int];
        match self.apc_type {
            APCType::APC40 => match channel.patterns[self.loopable_index(surface) as int].length {
                Some(l) => row_lit(self.activator.drawing(), (l / 7680) as int, 1),
                None => self.activator.drawing(),
            },
            APCType::APC20 => row_lit(
                self.activator.drawing(),
                (channel.phrases[self.loopable_index(surface) as int].length_ticks() / 30720) as int,
                1,
            ),
        }
    }

    /// The main grid once everything of the view is drawn.
    pub open spec fn grid_drawn(&self, sequencer: &Sequencer, surface: &Surface) -> Seq<u8> {
        match surface.view {
            GridView::Channel => self.grid_of_channel_view(sequencer, surface),
            GridView::Timeline => grid_events(
                self.grid.drawing(),
                sequencer.channels[surface.channel_shown as int].timeline.phrase_events@,
                (15360 * Self::channel_offset_of(self.apc_type) + surface.timeline_offset) as u32,
                0,
                122880,
                1,
                3,
            ),
            GridView::Sequence => grid_phrases(
                self.grid.drawing(),
                sequencer.sequences[surface.sequence_shown as int].phrase_seq(),
                Self::channel_offset_of(self.apc_type) as int,
                8,
            ),
        }
    }

    /// The activator row once everything of the view is drawn.
    pub open spec fn activator_drawn(&self, sequencer: &Sequencer, surface: &Surface) -> Seq<u8> {
        if surface.view == GridView::Channel {
            self.activator_of_channel_view(sequencer, surface)
        } else {
            self.activator.drawing()
        }
    }

    /// The channel row once the shown channel is drawn, outside the sequence view.
    pub open spec fn channel_drawn(&self, surface: &Surface) -> Seq<u8> {
        let offset = Self::channel_offset_of(self.apc_type);
        if surface.channel_shown >= offset && surface.view != GridView::Sequence {
            row_draw(self.channel.drawing(), surface.channel_shown - offset, 1)
        } else {
            self.channel.drawing()
        }
    }

    /// The solo row once the zoom level is drawn, in the channel view.
    pub open spec fn solo_drawn(&self, surface: &Surface) -> Seq<u8> {
        if surface.view == GridView::Channel {
            let zoom = match self.apc_type {
                APCType::APC40 => surface.pattern_zoom_level,
                APCType::APC20 => surface.phrase_zoom_level,
            };
            row_lit(self.solo.drawing(), zoom as int, 1)
        } else {
            self.solo.drawing()
        }
    }

    /// The master light once drawn: lit in the sequence view.
    pub open spec fn master_drawn(&self, surface: &Surface) -> u8 {
        if surface.view == GridView::Sequence {
            1
        } else {
            self.master.drawing()
        }
    }

    /// The side column once the shown sequence is drawn, in the sequence view.
    pub open spec fn side_drawn(&self, surface: &Surface) -> Seq<u8> {
        if surface.view == GridView::Sequence {
            side_draw(self.side.drawing(), surface.sequence_shown as u8 as int, 1)
        } else {
            self.side.drawing()
        }
    }

    /// Whether everything of the view can be drawn without an arithmetic overflow or an index
    /// out of bounds.
    pub open spec fn view_drawable(&self, sequencer: &Sequencer, surface: &Surface) -> bool {
        match surface.view {
            GridView::Channel => {
                &&& self.shows_loopable(sequencer, surface)
                &&& self.loopable_offset(surface) + self.loopable_button_ticks(surface) * 8 <= u32::MAX
                &&& self.loopable_offset(surface) <= i32::MAX
                &&& self.apc_type == APCType::APC40 ==> {
                    let base = surface.pattern_base_notes[surface.channel_shown as int];
                    let pattern = sequencer.channels[surface.channel_shown as int].patterns[self.loopable_index(surface) as int];
                    &&& 2 <= base <= 253
                    &&& events_drawable(
                        notes_around(pattern.note_events@, base),
                        self.loopable_offset(surface),
                        (base - 2) as u8,
                        (self.loopable_button_ticks(surface) * 8) as u32,
                    )
                }
                &&& self.apc_type == APCType::APC20 ==> events_drawable(
                    sequencer.channels[surface.channel_shown as int].phrases[self.loopable_index(surface) as int].event_seq(),
                    self.loopable_offset(surface),
                    0,
                    (self.loopable_button_ticks(surface) * 8) as u32,
                )
            },
            GridView::Timeline => {
                &&& surface.channel_shown < 16
                &&& 15360 * 8 + surface.timeline_offset + 122880 <= i32::MAX
                &&& events_drawable(
                    sequencer.channels[surface.channel_shown as int].timeline.phrase_events@,
                    (15360 * Self::channel_offset_of(self.apc_type) + surface.timeline_offset) as u32,
                    0,
                    122880,
                )
            },
            GridView::Sequence => surface.sequence_shown < 5,
        }
    }

    /// Tests `view_drawable`: whether everything of the view can be drawn without an
    /// arithmetic overflow or an index out of bounds.
    pub fn view_is_drawable(&self, sequencer: &Sequencer, surface: &Surface) -> (r: bool)
        ensures
            r == self.view_drawable(sequencer, surface),
    {
        match surface.view {
            GridView::Channel => {
                let c = surface.channel_shown as usize;
                if c >= 16 {
                    return false;
                }
                match self.apc_type {
                    APCType::APC40 => {
                        let index = surface.pattern_shown[c];
                        if surface.pattern_zoom_level == 0 || index >= 5 {
                            return false;
                        }
                        let pattern = sequencer.channel(c).pattern(index);
                        if !pattern_length_fits(pattern) {
                            return false;
                        }
                        let ticks = surface.pattern_ticks_per_button();
                        let offset = surface.pattern_offsets[c];
                        if offset as u64 + ticks as u64 * 8 > 0xffff_ffff || offset > 0x7fff_ffff {
                            return false;
                        }
                        let base = surface.pattern_base_notes[c];
                        if base < 2 || base > 253 {
                            return false;
                        }
                        notes_around_drawable(&pattern.note_events, base, offset, base - 2, ticks * 8)
                    },
                    APCType::APC20 => {
                        let index = surface.phrase_shown[c];
                        if surface.phrase_zoom_level == 0 || index >= 5 {
                            return false;
                        }
                        let ticks = surface.phrase_ticks_per_button();
                        let offset = surface.phrase_offsets[c];
                        if offset as u64 + ticks as u64 * 8 > 0xffff_ffff || offset > 0x7fff_ffff {
                            return false;
                        }
                        let phrase = sequencer.channel(c).phrase(index);
                        all_events_drawable(phrase.events(), offset, 0, ticks * 8)
                    },
                }
            },
            GridView::Timeline => {
                let c = surface.channel_shown as usize;
                if c >= 16 || surface.timeline_offset as u64 + 15360 * 8 + 122880 > 0x7fff_ffff {
                    return false;
                }
                let offset = 15360 * self.channel_offset() as u32 + surface.timeline_offset;
                all_events_drawable(&sequencer.channel(c).timeline.phrase_events, offset, 0, 122880)
            },
            GridView::Sequence => surface.sequence_shown < 5,
        }
    }

    /// The messages for the controller in a cycle, apart from the side column and the
    /// indicator row, which depend on timing (see `draw_side` and `draw_indicator`). Until the
    /// controller is identified it is asked for its ids; once it answered, it is introduced
    /// and a few cycles pass; then the view is drawn and the changed lights are sent, in the
    /// order: channel row, master, solo row, main grid, activator row.
    pub fn output_midi(&mut self, sequencer: &Sequencer, surface: &Surface) -> (r: Vec<TimedMessage>)
        requires
            old(self).identified_cycles >= 3 ==> old(self).view_drawable(sequencer, surface),
        ensures
            old(self).identified_cycles == 0 ==> {
                &&& r@.len() == 1
                &&& r@[0].time == 0
                &&& is_device_inquiry(r@[0].message)
                &&& *final(self) == *old(self)
            },
            0 < old(self).identified_cycles < 3 ==> {
                &&& old(self).identified_cycles == 1 ==> r@.len() == 1 && r@[0].time == 0
                    && is_apc_introduction(r@[0].message, old(self).local_id, old(self).device_id)
                &&& old(self).identified_cycles == 2 ==> r@.len() == 0
                &&& *final(self) == (APCController {
                    identified_cycles: (old(self).identified_cycles + 1) as u8,
                    ..*old(self)
                })
            },
            old(self).identified_cycles >= 3 ==> {
                let channel = old(self).channel_drawn(surface);
                let master = old(self).master_drawn(surface);
                let solo = old(self).solo_drawn(surface);
                let grid = old(self).grid_drawn(sequencer, surface);
                let activator = old(self).activator_drawn(sequencer, surface);
                &&& are_note_messages(
                    r@,
                    row_changes(old(self).channel.shown(), channel, old(self).channel.row_note(), 8)
                        + single_changes(old(self).master.shown(), master, old(self).master.button_note())
                        + row_changes(old(self).solo.shown(), solo, old(self).solo.row_note(), 8)
                        + grid_changes(old(self).grid.shown(), grid, 40)
                        + row_changes(old(self).activator.shown(), activator, old(self).activator.row_note(), 8),
                    0,
                )
                &&& final(self).channel.shown() == channel && final(self).channel.drawing() == Seq::new(8, |i: int| 0u8)
                    && final(self).channel.row_note() == old(self).channel.row_note()
                &&& final(self).master.shown() == master && final(self).master.drawing() == 0
                    && final(self).master.button_note() == old(self).master.button_note()
                &&& final(self).solo.shown() == solo && final(self).solo.drawing() == Seq::new(8, |i: int| 0u8)
                    && final(self).solo.row_note() == old(self).solo.row_note()
                &&& final(self).grid.shown() == grid && final(self).grid.drawing() == Seq::new(40, |i: int| 0u8)
                &&& final(self).activator.shown() == activator && final(self).activator.drawing() == Seq::new(8, |i: int| 0u8)
                    && final(self).activator.row_note() == old(self).activator.row_note()
                &&& final(self).side.shown() == old(self).side.shown()
                &&& final(self).side.drawing() == old(self).side_drawn(surface)
                &&& final(self).indicator == old(self).indicator
                &&& final(self).apc_type == old(self).apc_type
                &&& final(self).identified_cycles == old(self).identified_cycles
                &&& final(self).local_id == old(self).local_id
                &&& final(self).device_id == old(self).device_id
                &&& final(self).cue_knob == old(self).cue_knob
            },
    {
        let mut messages: Vec<TimedMessage> = Vec::new();
        if self.identified_cycles == 0 {
            let bytes = [0xF0, 0x7E, 0x00, 0x06, 0x01, 0xF7];
            assert(bytes@ =~= seq![0xF0u8, 0x7E, 0x00, 0x06, 0x01, 0xF7]);
            messages.push(TimedMessage::new(0, Message::Inquiry(bytes)));
            return messages;
        }
        if self.identified_cycles < 3 {
            if self.identified_cycles == 1 {
                let bytes = [0xF0, 0x47, self.local_id, self.device_id, 0x60, 0x00, 0x04, 0x41, 0x00, 0x00, 0x00, 0xF7];
                assert(bytes@ =~= seq![0xF0u8, 0x47, self.local_id, self.device_id, 0x60, 0x00, 0x04, 0x41, 0x00, 0x00, 0x00, 0xF7]);
                messages.push(TimedMessage::new(0, Message::Introduction(bytes)));
            }
            self.identified_cycles = self.identified_cycles + 1;
            return messages;
        }
        let ghost start = *self;
        self.draw(sequencer, surface);
        let offset = self.channel_offset();
        if surface.channel_shown() >= offset as usize && surface.view != GridView::Sequence {
            let channel = surface.channel_shown() - offset as usize;
            self.channel.draw(channel as u8, 1);
        }
        let ghost channel_pending = self.channel.pending_output();
        let mut channel_messages = self.channel.output_messages(0);
        messages.append(&mut channel_messages);
        let ghost mid = *self;
        match surface.view {
            GridView::Channel => {
                let zoom = self.loopable_zoom_level(surface);
                let mut index: u8 = 0;
                while index < zoom
                    invariant
                        0 <= index <= zoom,
                        self.solo.drawing() == row_lit(mid.solo.drawing(), index as int, 1),
                        self.solo.shown() == mid.solo.shown(),
                        self.solo.row_note() == mid.solo.row_note(),
                        *self == (APCController { solo: self.solo, ..mid }),
                    decreases zoom - index,
                {
                    self.solo.draw(index, 1);
                    index += 1;
                }
            },
            GridView::Timeline => {
                self.draw_timeline(sequencer, surface);
            },
            GridView::Sequence => {
                self.master.draw(1);
                let phrases = sequencer.sequences[surface.sequence_shown()].phrases();
                self.draw_phrases(phrases);
                self.side.draw(surface.sequence_shown() as u8, 1);
            },
        }
        let ghost master_pending = self.master.pending_output();
        let ghost solo_pending = self.solo.pending_output();
        let ghost grid_pending = self.grid.pending_output();
        let ghost activator_pending = self.activator.pending_output();
        let ghost before_master = messages@;
        let mut master_messages = self.master.output_messages(0);
        let mut solo_messages = self.solo.output_messages(0);
        let mut grid_messages = self.grid.output_messages(0);
        let mut activator_messages = self.activator.output_messages(0);
        proof {
            lemma_note_messages_concat(before_master, channel_pending, master_messages@, master_pending, 0);
            lemma_note_messages_concat(before_master + master_messages@, channel_pending + master_pending, solo_messages@, solo_pending, 0);
            lemma_note_messages_concat(
                before_master + master_messages@ + solo_messages@,
                channel_pending + master_pending + solo_pending,
                grid_messages@,
                grid_pending,
                0,
            );
            lemma_note_messages_concat(
                before_master + master_messages@ + solo_messages@ + grid_messages@,
                channel_pending + master_pending + solo_pending + grid_pending,
                activator_messages@,
                activator_pending,
                0,
            );
        }
        messages.append(&mut master_messages);
        messages.append(&mut solo_messages);
        messages.append(&mut grid_messages);
        messages.append(&mut activator_messages);
        messages
    }

    /// The loopables of the shown channel that play during `range`: the phrases playing on
    /// its timeline (APC20), or the patterns these phrases play (APC40).
    pub open spec fn playing_indexes(&self, sequencer: &Sequencer, surface: &Surface, range: TickRange) -> Seq<u8> {
        let channel = sequencer.channels[surface.channel_shown as int];
        let phrase_plays = phrases_playing(channel.timeline.phrase_events@, range);
        match self.apc_type {
            APCType::APC40 => pattern_indexes_of(channel, phrase_plays),
            APCType::APC20 => phrase_plays.map_values(|pp: (TickRange, u32, u8)| pp.2),
        }
    }

    /// Whether the loopables playing during `range` can be computed.
    pub open spec fn playing_indexes_defined(&self, sequencer: &Sequencer, surface: &Surface, range: TickRange) -> bool {
        let channel = sequencer.channels[surface.channel_shown as int];
        &&& surface.channel_shown < 16
        &&& self.apc_type == APCType::APC40 ==> all_patterns_defined(
            channel,
            phrases_playing(channel.timeline.phrase_events@, range),
        )
    }

    /// The loopables of the shown channel that play during the cycle.
    pub fn playing_loopable_indexes(&self, cycle: &ProcessCycle, sequencer: &Sequencer, surface: &Surface) -> (r: Vec<u8>)
        requires
            self.playing_indexes_defined(sequencer, surface, cycle.tick_range),
        ensures
            r@ == self.playing_indexes(sequencer, surface, cycle.tick_range),
    {
        let channel_index = surface.channel_shown();
        let phrase_plays = sequencer.playing_phrases(channel_index, &cycle.tick_range);
        let ghost channel = sequencer.channels[channel_index as int];
        let mut out: Vec<u8> = Vec::new();
        let mut i: usize = 0;
        while i < phrase_plays.len()
            invariant
                0 <= i <= phrase_plays@.len(),
                channel_index < 16,
                channel == sequencer.channels[channel_index as int],
                phrase_plays@ == phrases_playing(channel.timeline.phrase_events@, cycle.tick_range),
                self.apc_type == APCType::APC40 ==> all_patterns_defined(channel, phrase_plays@),
                self.apc_type == APCType::APC40 ==> out@ == pattern_indexes_of(channel, phrase_plays@.take(i as int)),
                self.apc_type == APCType::APC20 ==> out@ == phrase_plays@.take(i as int).map_values(|pp: (TickRange, u32, u8)| pp.2),
            decreases phrase_plays@.len() - i,
        {
            assert(phrase_plays@.take(i + 1).drop_last() =~= phrase_plays@.take(i as int));
            let (range, sequence_start, phrase_index) = phrase_plays[i];
            assert(phrase_plays@[i as int] == (range, sequence_start, phrase_index));
            match self.apc_type {
                APCType::APC40 => {
                    assert(phrase_patterns_defined(channel, phrase_plays@[i as int]));
                    let plays = sequencer.playing_patterns(&range, channel_index, phrase_index, sequence_start);
                    let ghost before = out@;
                    let mut k: usize = 0;
                    while k < plays.len()
                        invariant
                            0 <= k <= plays@.len(),
                            out@ == before + plays@.take(k as int).map_values(|p: (u8, u32, TickRange, u32, u32)| p.0),
                        decreases plays@.len() - k,
                    {
                        out.push(plays[k].0);
                        assert(out@ =~= before + plays@.take(k + 1).map_values(|p: (u8, u32, TickRange, u32, u32)| p.0));
                        k += 1;
                    }
                    assert(plays@.take(k as int) =~= plays@);
                    assert(out@ =~= pattern_indexes_of(channel, phrase_plays@.take(i + 1)));
                },
                APCType::APC20 => {
                    out.push(phrase_index);
                    assert(out@ =~= phrase_plays@.take(i + 1).map_values(|pp: (TickRange, u32, u8)| pp.2));
                },
            }
            i += 1;
        }
        assert(phrase_plays@.take(i as int) =~= phrase_plays@);
        out
    }

    /// The ranges of the cycle during which the shown loopable of the shown channel plays,
    /// each with the tick at which its current repetition started.
    pub open spec fn playing_ranges(&self, sequencer: &Sequencer, surface: &Surface, range: TickRange) -> Seq<(TickRange, u32)> {
        let channel = sequencer.channels[surface.channel_shown as int];
        let phrase_plays = phrases_playing(channel.timeline.phrase_events@, range);
        let index = self.loopable_index(surface);
        match self.apc_type {
            APCType::APC40 => pattern_ranges_of(channel, phrase_plays, index),
            APCType::APC20 => phrase_ranges_of(phrase_plays, index, channel.phrases[index as int].length_ticks()),
        }
    }

    /// Whether those ranges can be computed.
    pub open spec fn playing_ranges_defined(&self, sequencer: &Sequencer, surface: &Surface, range: TickRange) -> bool {
        let channel = sequencer.channels[surface.channel_shown as int];
        let phrase_plays = phrases_playing(channel.timeline.phrase_events@, range);
        let index = self.loopable_index(surface);
        &&& surface.channel_shown < 16
        &&& index < 5
        &&& match self.apc_type {
            APCType::APC40 => all_patterns_defined(channel, phrase_plays) && pattern_ranges_fit(channel, phrase_plays, index),
            APCType::APC20 => forall|i: int|
                0 <= i < phrase_plays.len() && (#[trigger] phrase_plays[i]).2 == index ==> phrase_plays[i].1
                    <= phrase_plays[i].0.start && channel.phrases[index as int].length_ticks() > 0,
        }
    }

    /// The ranges of the cycle during which the shown loopable plays, each with the tick at
    /// which its current repetition started.
    pub fn playing_loopable_ranges(&self, cycle: &ProcessCycle, sequencer: &Sequencer, surface: &Surface) -> (r: Vec<(TickRange, u32)>)
        requires
            self.playing_ranges_defined(sequencer, surface, cycle.tick_range),
        ensures
            r@ == self.playing_ranges(sequencer, surface, cycle.tick_range),
    {
        let channel_index = surface.channel_shown();
        let shown_index = self.shown_loopable_index(surface);
        let phrase_plays = sequencer.playing_phrases(channel_index, &cycle.tick_range);
        let channel = sequencer.channel(channel_index);
        let mut out: Vec<(TickRange, u32)> = Vec::new();
        let mut i: usize = 0;
        while i < phrase_plays.len()
            invariant
                0 <= i <= phrase_plays@.len(),
                channel_index < 16,
                shown_index < 5,
                shown_index == self.loopable_index(surface),
                *channel == sequencer.channels[channel_index as int],
                phrase_plays@ == phrases_playing(channel.timeline.phrase_events@, cycle.tick_range),
                self.playing_ranges_defined(sequencer, surface, cycle.tick_range),
                channel_index == surface.channel_shown,
                self.apc_type == APCType::APC40 ==> out@ == pattern_ranges_of(*channel, phrase_plays@.take(i as int), shown_index),
                self.apc_type == APCType::APC20 ==> out@ == phrase_ranges_of(
                    phrase_plays@.take(i as int),
                    shown_index,
                    channel.phrases[shown_index as int].length_ticks(),
                ),
            decreases phrase_plays@.len() - i,
        {
            assert(phrase_plays@.take(i + 1).drop_last() =~= phrase_plays@.take(i as int));
            let (range, sequence_start, phrase_index) = phrase_plays[i];
            assert(phrase_plays@[i as int] == (range, sequence_start, phrase_index));
            match self.apc_type {
                APCType::APC40 => {
                    assert(phrase_patterns_defined(*channel, phrase_plays@[i as int]));
                    let plays = sequencer.playing_patterns(&range, channel_index, phrase_index, sequence_start);
                    let pattern = channel.pattern(shown_index);
                    let ghost before = out@;
                    let mut k: usize = 0;
                    while k < plays.len()
                        invariant
                            0 <= k <= plays@.len(),
                            *pattern == channel.patterns[shown_index as int],
                            plays@ == plays_of_phrase(*channel, phrase_plays@[i as int]),
                            0 <= i < phrase_plays@.len(),
                            pattern_ranges_fit(*channel, phrase_plays@, shown_index),
                            out@ == before + plays_ranges_of(plays@.take(k as int), shown_index, pattern.length),
                        decreases plays@.len() - k,
                    {
                        assert(plays@.take(k + 1).drop_last() =~= plays@.take(k as int));
                        let (pattern_index, absolute_start, relative_range, _, _) = plays[k];
                        if pattern_index == shown_index {
                            assert(plays_of_phrase(*channel, phrase_plays@[i as int])[k as int] == plays@[k as int]);
                            let absolute_range = relative_range.plus(absolute_start);
                            let start = if pattern.has_explicit_length() {
                                let length = pattern.length();
                                let iterations = relative_range.start / length;
                                assert(iterations * length <= relative_range.start) by (nonlinear_arith)
                                    requires
                                        iterations == relative_range.start / length,
                                        length > 0,
                                ;
                                absolute_start + iterations * length
                            } else {
                                absolute_start
                            };
                            out.push((absolute_range, start));
                        }
                        k += 1;
                    }
                    assert(plays@.take(k as int) =~= plays@);
                    assert(out@ =~= pattern_ranges_of(*channel, phrase_plays@.take(i + 1), shown_index));
                },
                APCType::APC20 => {
                    if phrase_index == shown_index {
                        let length = channel.phrase(shown_index).length();
                        let iterations = (range.start - sequence_start) / length;
                        assert(iterations * length <= range.start - sequence_start) by (nonlinear_arith)
                            requires
                                iterations == (range.start - sequence_start) as int / (length as int),
                                length > 0,
                        ;
                        out.push((range, sequence_start + iterations * length));
                    }
                },
            }
            i += 1;
        }
        assert(phrase_plays@.take(i as int) =~= phrase_plays@);
        out
    }

    /// The side column once the playing loopables or sequences blink in it.
    pub open spec fn side_of_cycle(&self, cycle: &ProcessCycle, sequencer: &Sequencer, surface: &Surface) -> Seq<u8> {
        let start = cycle.tick_range.start;
        match surface.view {
            GridView::Channel => side_draw(
                side_lit(self.side.drawing(), self.playing_indexes(sequencer, surface, cycle.tick_range), blink(start, 1920)),
                self.loopable_index(surface) as int,
                1,
            ),
            GridView::Sequence => {
                let playing = side_draw(self.side.drawing(), sequencer.sequence_playing as u8 as int, blink(start, 1920));
                let shown = side_draw(playing, surface.sequence_shown as int, 1);
                match sequencer.sequence_queued {
                    Some(i) => side_draw(shown, i as u8 as int, blink(start, 960)),
                    None => shown,
                }
            },
            GridView::Timeline => self.side.drawing(),
        }
    }

    /// Draw in the side column what plays: in the channel view the playing loopables of the
    /// shown channel blink a beat on and a beat off and the shown one is lit; in the sequence
    /// view the playing sequence blinks the same way, the shown one is lit, and a queued one
    /// blinks twice as fast. Gives when in the cycle the lights switch.
    pub fn draw_side(&mut self, cycle: &ProcessCycle, sequencer: &Sequencer, surface: &Surface) -> (r: CycleFrame)
        requires
            surface.view == GridView::Channel ==> old(self).playing_indexes_defined(sequencer, surface, cycle.tick_range),
            surface.view != GridView::Timeline ==> cycle.tick_range.start <= cycle.tick_range.stop,
        ensures
            final(self).side.drawing() == old(self).side_of_cycle(cycle, sequencer, surface),
            final(self).side.shown() == old(self).side.shown(),
            *final(self) == (APCController { side: final(self).side, ..*old(self) }),
            r == match surface.view {
                GridView::Timeline => CycleFrame::Frame(0),
                _ => switch_frame(cycle.tick_range, 1920),
            },
    {
        let mut frame = CycleFrame::Frame(0);
        match surface.view {
            GridView::Channel => {
                let playing_indexes = self.playing_loopable_indexes(cycle, sequencer, surface);
                let showed_index = self.shown_loopable_index(surface);
                let state = 1 - (cycle.tick_range.start / 1920) % 2;
                let ghost start = *self;
                let mut i: usize = 0;
                while i < playing_indexes.len()
                    invariant
                        0 <= i <= playing_indexes@.len(),
                        state == blink(cycle.tick_range.start, 1920),
                        self.side.drawing() == side_lit(start.side.drawing(), playing_indexes@.take(i as int), state as u8),
                        self.side.shown() == start.side.shown(),
                        *self == (APCController { side: self.side, ..start }),
                    decreases playing_indexes@.len() - i,
                {
                    assert(playing_indexes@.take(i + 1).drop_last() =~= playing_indexes@.take(i as int));
                    self.side.draw(playing_indexes[i], state as u8);
                    i += 1;
                }
                assert(playing_indexes@.take(i as int) =~= playing_indexes@);
                self.side.draw(showed_index, 1);
                if cycle.tick_range.stop % 1920 < cycle.tick_range.length() {
                    frame = CycleFrame::Between(cycle.tick_range.stop % 1920, cycle.tick_range.length());
                }
            },
            GridView::Sequence => {
                let playing_state = 1 - (cycle.tick_range.start / 1920) % 2;
                self.side.draw(sequencer.sequence_playing as u8, playing_state as u8);
                self.side.draw(surface.sequence_shown() as u8, 1);
                if let Some(index) = sequencer.sequence_queued {
                    let queued_state = 1 - (cycle.tick_range.start / 960) % 2;
                    self.side.draw(index as u8, queued_state as u8);
                }
                if cycle.tick_range.stop % 1920 < cycle.tick_range.length() {
                    frame = CycleFrame::Between(cycle.tick_range.stop % 1920, cycle.tick_range.length());
                }
            },
            GridView::Timeline => {},
        }
        frame
    }

    /// The time of the latest event since `usecs` that changed what part of the loopable is
    /// shown: a turn of the cue knob or a press of a solo, activator, right or left button on
    /// this controller, or else a move of the crossfader on any controller.
    pub open spec fn view_change_time(&self, memory: &EventMemory, usecs: u64) -> Option<u64> {
        let offset = Self::channel_offset_of(self.apc_type);
        let kinds = seq![
            EventKind::CueKnob,
            EventKind::SoloButton,
            EventKind::ActivatorButton,
            EventKind::RightButton,
            EventKind::LeftButton,
        ];
        match latest_occurrence(memory.occurred(), usecs, |e: OccurredInputEvent| occurred_of_kinds(e, Some(offset), kinds)) {
            Some(t) => Some(t),
            None => latest_occurrence(
                memory.occurred(),
                usecs,
                |e: OccurredInputEvent| occurred_of_kinds(e, None, seq![EventKind::Crossfader]),
            ),
        }
    }

    /// Whether the length of the shown loopable can be computed.
    pub open spec fn loopable_length_defined(&self, sequencer: &Sequencer, surface: &Surface) -> bool {
        &&& surface.channel_shown < 16
        &&& self.loopable_index(surface) < 5
        &&& self.apc_type == APCType::APC40 ==> sequencer.channels[surface.channel_shown as int].patterns[self.loopable_index(
            surface,
        ) as int].length_defined()
    }

    /// Buttons of the indicator row that show the length of the loopable: the part of it the
    /// grid shows.
    pub open spec fn length_buttons(&self, sequencer: &Sequencer, surface: &Surface) -> u8 {
        ((8 * self.loopable_button_ticks(surface) * 8) / (self.loopable_length(sequencer, surface) as int)) as u8
    }

    /// First button of the indicator row that shows the length of the loopable.
    pub open spec fn length_start_button(&self, sequencer: &Sequencer, surface: &Surface) -> int {
        let offset_buttons = self.loopable_offset(surface) / self.loopable_button_ticks(surface);
        ((offset_buttons as u8) * self.length_buttons(sequencer, surface)) / 8
    }

    /// Microseconds until the length indicator hides, when an event shows it.
    pub open spec fn hide_in(cycle: &ProcessCycle, t: u64) -> int {
        200000 - (cycle.time_stop - t)
    }

    /// The indicator row once drawn for the cycle.
    pub open spec fn indicator_of_cycle(&self, cycle: &ProcessCycle, sequencer: &Sequencer, surface: &Surface) -> Seq<u8> {
        let drawing = self.indicator.drawing();
        match surface.view {
            GridView::Channel => match self.view_change_time(&surface.event_memory, (cycle.time_stop - 200000) as u64) {
                Some(t) => if Self::hide_in(cycle, t) < cycle.time_stop - cycle.time_start {
                    drawing
                } else {
                    let start = self.length_start_button(sequencer, surface);
                    row_span(drawing, start, start + self.length_buttons(sequencer, surface), 1)
                },
                None => indicator_positions(
                    drawing,
                    self.playing_ranges(sequencer, surface, cycle.tick_range),
                    self.loopable_offset(surface) / self.loopable_button_ticks(surface),
                    self.loopable_button_ticks(surface),
                ),
            },
            GridView::Timeline => {
                let button = cycle.tick_range.start / 15360;
                let offset_buttons = surface.timeline_offset / 15360 + Self::channel_offset_of(self.apc_type);
                if button >= offset_buttons {
                    row_draw(drawing, (button - offset_buttons) as u8 as int, 1)
                } else {
                    drawing
                }
            },
            GridView::Sequence => drawing,
        }
    }

    /// When the indicator row switches in the cycle.
    pub open spec fn indicator_frame(&self, cycle: &ProcessCycle, sequencer: &Sequencer, surface: &Surface) -> CycleFrame {
        match surface.view {
            GridView::Channel => match self.view_change_time(&surface.event_memory, (cycle.time_stop - 200000) as u64) {
                Some(t) => if Self::hide_in(cycle, t) < cycle.time_stop - cycle.time_start {
                    CycleFrame::Frame(
                        (((Self::hide_in(cycle, t) as u32) * cycle.n_frames) as int / (((cycle.time_stop - cycle.time_start) as u32) as int)) as u32,
                    )
                } else {
                    CycleFrame::Frame(0)
                },
                None => positions_frame(
                    self.playing_ranges(sequencer, surface, cycle.tick_range),
                    self.loopable_button_ticks(surface),
                    CycleFrame::Frame(0),
                ),
            },
            GridView::Timeline => switch_frame(cycle.tick_range, 15360),
            GridView::Sequence => CycleFrame::Frame(0),
        }
    }

    /// Whether the indicator row can be drawn for the cycle without an arithmetic overflow or
    /// an index out of bounds.
    pub open spec fn indicator_drawable(&self, cycle: &ProcessCycle, sequencer: &Sequencer, surface: &Surface) -> bool {
        &&& self.loopable_length_defined(sequencer, surface)
        &&& surface.view == GridView::Channel ==> {
            &&& self.shows_loopable(sequencer, surface)
            &&& cycle.time_stop >= 200000
            &&& cycle.time_start <= cycle.time_stop
            &&& match self.view_change_time(&surface.event_memory, (cycle.time_stop - 200000) as u64) {
                Some(t) => {
                    &&& t <= cycle.time_stop
                    &&& if Self::hide_in(cycle, t) < cycle.time_stop - cycle.time_start {
                        &&& ((cycle.time_stop - cycle.time_start) as u32) > 0
                        &&& (Self::hide_in(cycle, t) as u32) * cycle.n_frames <= u32::MAX
                    } else {
                        &&& self.loopable_length(sequencer, surface) > 0
                        &&& self.length_start_button(sequencer, surface) <= 255
                        &&& self.length_start_button(sequencer, surface) + self.length_buttons(sequencer, surface) <= 255
                        &&& ((self.loopable_offset(surface) / self.loopable_button_ticks(surface)) as u8) * self.length_buttons(
                            sequencer,
                            surface,
                        ) <= 255
                    }
                },
                None => {
                    &&& self.playing_ranges_defined(sequencer, surface, cycle.tick_range)
                    &&& positions_defined(self.playing_ranges(sequencer, surface, cycle.tick_range))
                },
            }
        }
        &&& surface.view == GridView::Timeline ==> cycle.tick_range.start <= cycle.tick_range.stop
    }

    /// Draw the indicator row: in the channel view, for a while after the shown part of the
    /// loopable changed, which part of it the grid shows, and otherwise the transport
    /// position in it; in the timeline view, the transport position on the timeline. Gives
    /// when in the cycle the lights switch.
    pub fn draw_indicator(&mut self, cycle: &ProcessCycle, sequencer: &Sequencer, surface: &Surface) -> (r: CycleFrame)
        requires
            old(self).indicator_drawable(cycle, sequencer, surface),
        ensures
            final(self).indicator.drawing() == old(self).indicator_of_cycle(cycle, sequencer, surface),
            final(self).indicator.shown() == old(self).indicator.shown(),
            final(self).indicator.row_note() == old(self).indicator.row_note(),
            *final(self) == (APCController { indicator: final(self).indicator, ..*old(self) }),
            r == old(self).indicator_frame(cycle, sequencer, surface),
    {
        let mut frame = CycleFrame::Frame(0);
        let loopable_length = {
            let channel = sequencer.channel(surface.channel_shown());
            match self.apc_type {
                APCType::APC40 => channel.pattern(self.shown_loopable_index(surface)).length(),
                APCType::APC20 => channel.phrase(self.shown_loopable_index(surface)).length(),
            }
        };
        let ghost start_state = *self;
        match surface.view {
            GridView::Channel => {
                let usecs = cycle.time_stop - 200000;
                let ticks_per_button = self.loopable_ticks_per_button(surface);
                assert(ticks_per_button > 0) by {
                    assert(3840int / (surface.pattern_zoom_level as int) >= 1 || self.apc_type != APCType::APC40) by (nonlinear_arith)
                        requires
                            self.apc_type == APCType::APC40 ==> 0 < surface.pattern_zoom_level <= 255,
                    ;
                    assert(15360int / (surface.phrase_zoom_level as int) >= 1 || self.apc_type != APCType::APC20) by (nonlinear_arith)
                        requires
                            self.apc_type == APCType::APC20 ==> 0 < surface.phrase_zoom_level <= 255,
                    ;
                }
                let offset_buttons = self.shown_loopable_offset(surface) / ticks_per_button;
                let offset = self.channel_offset();
                let controller_kinds = [
                    EventKind::CueKnob,
                    EventKind::SoloButton,
                    EventKind::ActivatorButton,
                    EventKind::RightButton,
                    EventKind::LeftButton,
                ];
                assert(controller_kinds@ =~= seq![
                    EventKind::CueKnob,
                    EventKind::SoloButton,
                    EventKind::ActivatorButton,
                    EventKind::RightButton,
                    EventKind::LeftButton,
                ]);
                let global_kinds = [EventKind::Crossfader];
                assert(global_kinds@ =~= seq![EventKind::Crossfader]);
                let last_occurred = match surface.event_memory.last_occurred_event_of_kinds(Some(offset), &controller_kinds, usecs) {
                    Some(t) => Some(t),
                    None => surface.event_memory.last_occurred_event_of_kinds(None, &global_kinds, usecs),
                };
                assert(last_occurred == self.view_change_time(&surface.event_memory, usecs));
                match last_occurred {
                    Some(t) => {
                        proof {
                            let kinds = seq![
                                EventKind::CueKnob,
                                EventKind::SoloButton,
                                EventKind::ActivatorButton,
                                EventKind::RightButton,
                                EventKind::LeftButton,
                            ];
                            lemma_latest_occurrence_after(
                                surface.event_memory.occurred(),
                                usecs,
                                |e: OccurredInputEvent| occurred_of_kinds(e, Some(offset), kinds),
                            );
                            lemma_latest_occurrence_after(
                                surface.event_memory.occurred(),
                                usecs,
                                |e: OccurredInputEvent| occurred_of_kinds(e, None, seq![EventKind::Crossfader]),
                            );
                        }
                        let usecs_ago = cycle.time_stop - t;
                        let hide_in_usecs = 200000 - usecs_ago;
                        if hide_in_usecs < cycle.usecs() {
                            frame = CycleFrame::Frame(hide_in_usecs as u32 * cycle.n_frames / cycle.usecs() as u32);
                        } else {
                            let ticks_in_grid = self.loopable_ticks_in_grid(surface);
                            let length_buttons = (8 * ticks_in_grid / loopable_length) as u8;
                            let start_button = offset_buttons as u8 * length_buttons / 8;
                            let stop_button = start_button + length_buttons;
                            let mut index = start_button;
                            while index < stop_button
                                invariant
                                    start_button <= index <= stop_button,
                                    row_span(start_state.indicator.drawing(), start_button as int, stop_button as int, 1)
                                        == row_span(self.indicator.drawing(), index as int, stop_button as int, 1),
                                    self.indicator.shown() == start_state.indicator.shown(),
                                    self.indicator.row_note() == start_state.indicator.row_note(),
                                    *self == (APCController { indicator: self.indicator, ..start_state }),
                                decreases stop_button - index,
                            {
                                self.indicator.draw(index, 1);
                                index += 1;
                            }
                        }
                    },
                    None => {
                        let ranges = self.playing_loopable_ranges(cycle, sequencer, surface);
                        let mut i: usize = 0;
                        while i < ranges.len()
                            invariant
                                0 <= i <= ranges@.len(),
                                ticks_per_button > 0,
                                positions_defined(ranges@),
                                self.indicator.drawing() == indicator_positions(
                                    start_state.indicator.drawing(),
                                    ranges@.take(i as int),
                                    offset_buttons,
                                    ticks_per_button,
                                ),
                                frame == positions_frame(ranges@.take(i as int), ticks_per_button, CycleFrame::Frame(0)),
                                self.indicator.shown() == start_state.indicator.shown(),
                                self.indicator.row_note() == start_state.indicator.row_note(),
                                *self == (APCController { indicator: self.indicator, ..start_state }),
                            decreases ranges@.len() - i,
                        {
                            assert(ranges@.take(i + 1).drop_last() =~= ranges@.take(i as int));
                            let (range, start) = ranges[i];
                            assert(ranges@[i as int] == (range, start));
                            let ticks_into_playable = range.stop - start;
                            let button = ticks_into_playable / ticks_per_button;
                            if button >= offset_buttons {
                                self.indicator.draw((button - offset_buttons) as u8, 1);
                            }
                            if range.stop % ticks_per_button < range.length() {
                                frame = CycleFrame::Between(range.stop % ticks_per_button, range.length());
                            }
                            i += 1;
                        }
                        assert(ranges@.take(i as int) =~= ranges@);
                    },
                }
            },
            GridView::Timeline => {
                let button = cycle.tick_range.start / 15360;
                let offset_buttons = surface.timeline_offset() / 15360 + self.channel_offset() as u32;
                if button >= offset_buttons {
                    self.indicator.draw((button - offset_buttons) as u8, 1);
                }
                if cycle.tick_range.stop % 15360 < cycle.tick_range.length() {
                    frame = CycleFrame::Between(cycle.tick_range.stop % 15360, cycle.tick_range.length());
                }
            },
            GridView::Sequence => {},
        }
        frame
    }

    /// Whether `after` is `before` with the shown loopable of the shown channel shown from
    /// `offset` (rounded down to a button, but no further than its largest offset).
    pub open spec fn loopable_offset_set(&self, sequencer: &Sequencer, before: Surface, after: Surface, offset: u32) -> bool {
        let c = before.channel_shown as int;
        match self.apc_type {
            APCType::APC40 => {
                &&& after.pattern_offsets@ == before.pattern_offsets@.update(
                    c,
                    snapped_offset(offset, before.pattern_button_ticks(), before.pattern_offset_max(sequencer, c)),
                )
                &&& after == (Surface { pattern_offsets: after.pattern_offsets, ..before })
            },
            APCType::APC20 => {
                &&& after.phrase_offsets@ == before.phrase_offsets@.update(
                    c,
                    snapped_offset(offset, before.phrase_button_ticks(), before.phrase_offset_max(sequencer, c)),
                )
                &&& after == (Surface { phrase_offsets: after.phrase_offsets, ..before })
            },
        }
    }

    /// Whether the cue knob of this controller was not turned within 200 ms before `time`.
    pub open spec fn first_cue_turn(&self, surface: &Surface, time: u64) -> bool {
        latest_occurrence(
            surface.event_memory.occurred(),
            (time - 200000) as u64,
            |e: OccurredInputEvent| occurred_of_kinds(e, Some(Self::channel_offset_of(self.apc_type)), seq![EventKind::CueKnob]),
        ) is None
    }

    /// Whether a turn of the cue knob to `value` at `time` can be handled without an
    /// arithmetic overflow or an index out of bounds.
    pub open spec fn cue_turn_defined(&self, sequencer: &Sequencer, surface: &Surface, value: u8, time: u64) -> bool {
        let steps = cue_steps(self.cue_knob.accumulated(), value, self.first_cue_turn(surface, time));
        &&& time >= 200000
        &&& surface.view == GridView::Channel ==> {
            &&& self.shows_loopable(sequencer, surface)
            &&& i32::MIN <= (self.loopable_offset(surface) as i32) + steps * (self.loopable_button_ticks(surface) as i32) <= i32::MAX
        }
        &&& surface.view == GridView::Timeline ==> {
            &&& i32::MIN <= (surface.timeline_offset as i32) + steps * 15360 <= i32::MAX
            &&& timeline_end_of(sequencer.channels@, 16) + 15360 * 12 <= u32::MAX
        }
    }

    /// Whether `after` (and this controller's cue knob in `knob_after`) is what a turn of the
    /// cue knob to `value` at `time` makes of `before`: the shown loopable, or the timeline,
    /// moves by the steps the knob made, not before its start.
    pub open spec fn cue_turned(
        &self,
        sequencer: &Sequencer,
        before: Surface,
        after: Surface,
        knob_after: CueKnob,
        value: u8,
        time: u64,
    ) -> bool {
        let first = self.first_cue_turn(&before, time);
        let steps = cue_steps(self.cue_knob.accumulated(), value, first);
        &&& knob_after.accumulated() == cue_kept(self.cue_knob.accumulated(), value, first)
        &&& match before.view {
            GridView::Channel => {
                let moved = (self.loopable_offset(&before) as i32) + steps * (self.loopable_button_ticks(&before) as i32);
                self.loopable_offset_set(sequencer, before, after, if moved < 0 { 0 } else { moved as u32 })
            },
            GridView::Timeline => {
                let moved = (before.timeline_offset as i32) + steps * 15360;
                if moved >= 0 {
                    after == (Surface {
                        timeline_offset: snapped_offset(moved as u32, 15360, before.timeline_offset_max(sequencer)),
                        ..before
                    })
                } else {
                    after == before
                }
            },
            GridView::Sequence => after == before,
        }
    }

    /// Handle a turn of the cue knob to `value` at `time`, in microseconds: move the shown
    /// loopable, or the timeline, by the steps the knob makes.
    pub fn process_cue_turn(&mut self, value: u8, time: u64, sequencer: &Sequencer, surface: &mut Surface)
        requires
            old(self).cue_turn_defined(sequencer, old(surface), value, time),
        ensures
            old(self).cue_turned(sequencer, *old(surface), *final(surface), final(self).cue_knob, value, time),
            *final(self) == (APCController { cue_knob: final(self).cue_knob, ..*old(self) }),
    {
        let usecs = time - 200000;
        let kinds = [EventKind::CueKnob];
        assert(kinds@ =~= seq![EventKind::CueKnob]);
        let offset = self.channel_offset();
        let is_first_turn = surface.event_memory.last_occurred_event_of_kinds(Some(offset), &kinds, usecs).is_none();
        let delta_buttons = self.cue_knob.process_turn(value, is_first_turn);
        match surface.view {
            GridView::Channel => {
                let ticks_per_button = self.loopable_ticks_per_button(surface);
                assert(ticks_per_button <= 15360) by {
                    assert(3840int / (surface.pattern_zoom_level as int) <= 3840 || self.apc_type != APCType::APC40) by (nonlinear_arith)
                        requires
                            self.apc_type == APCType::APC40 ==> 0 < surface.pattern_zoom_level,
                    ;
                    assert(15360int / (surface.phrase_zoom_level as int) <= 15360 || self.apc_type != APCType::APC20) by (nonlinear_arith)
                        requires
                            self.apc_type == APCType::APC20 ==> 0 < surface.phrase_zoom_level,
                    ;
                }
                assert(-184320 <= (delta_buttons as int) * (ticks_per_button as int) <= 184320) by (nonlinear_arith)
                    requires
                        -12 <= delta_buttons <= 12,
                        0 <= ticks_per_button <= 15360,
                ;
                let delta_ticks = delta_buttons as i32 * ticks_per_button as i32;
                let new_offset = self.shown_loopable_offset(surface) as i32 + delta_ticks;
                let offset = if new_offset < 0 {
                    0
                } else {
                    new_offset as u32
                };
                self.set_shown_loopable_offset(sequencer, surface, offset);
            },
            GridView::Timeline => {
                let new_offset = surface.timeline_offset() as i32 + (delta_buttons as i32 * 15360);
                if new_offset >= 0 {
                    surface.set_timeline_offset(sequencer, new_offset as u32);
                }
            },
            GridView::Sequence => {},
        }
    }

    /// Whether the button `button_type` of this controller was pressed within 300 ms before
    /// `time_stop`.
    pub open spec fn pressed_shortly_before(&self, surface: &Surface, button_type: ButtonType, time_stop: u64) -> bool {
        latest_occurrence(
            surface.event_memory.occurred(),
            (time_stop - 300000) as u64,
            |e: OccurredInputEvent|
                occurred_of_kinds(
                    e,
                    Some(Self::channel_offset_of(self.apc_type)),
                    seq![EventKind::Exactly(InputEventType::ButtonPressed(button_type))],
                ),
        ) is Some
    }

    /// Whether a press of `button_type` in the sequence view can be handled without an
    /// arithmetic overflow or an index out of bounds.
    pub open spec fn sequence_button_defined(&self, surface: &Surface, button_type: ButtonType, time_stop: u64) -> bool {
        let offset = Self::channel_offset_of(self.apc_type);
        &&& surface.sequence_shown < 5
        &&& button_type matches ButtonType::Grid(x, _) ==> x + offset < 16
        &&& button_type matches ButtonType::Activator(c) ==> c + offset < 16
        &&& button_type is Side ==> time_stop >= 300000
    }

    /// Whether `seq_after` and `after` are what a press of `button_type` in the sequence view
    /// makes of `seq_before` and `before`: a grid button sets the phrase of its channel in
    /// the shown sequence to its row, or unsets it when it was set to that row; a side button
    /// sets every channel to its phrase when shift is held, queues its sequence when pressed
    /// twice, and shows its sequence otherwise; an activator switches its channel on or off.
    pub open spec fn sequence_button_pressed(
        &self,
        button_type: ButtonType,
        global_modifier: Option<ButtonPress>,
        double: bool,
        seq_before: Sequencer,
        seq_after: Sequencer,
        before: Surface,
        after: Surface,
    ) -> bool {
        let offset = Self::channel_offset_of(self.apc_type);
        let i = before.sequence_shown as int;
        let s = seq_before.sequences[i];
        let t = seq_after.sequences[i];
        let others_same = forall|j: int| 0 <= j < 5 && j != i ==> #[trigger] seq_after.sequences[j] == seq_before.sequences[j];
        match button_type {
            ButtonType::Grid(x, row) => {
                let channel = (x + offset) as int;
                &&& t.phrase_seq() == if s.phrase_seq()[channel] == Some(row) {
                    s.phrase_seq().update(channel, None)
                } else {
                    s.phrase_seq().update(channel, Some(row))
                }
                &&& t.active_seq() == s.active_seq()
                &&& others_same
                &&& seq_after == (Sequencer { sequences: seq_after.sequences, ..seq_before })
                &&& after == before
            },
            ButtonType::Side(index) => if global_modifier matches Some(ButtonPress { button_type: ButtonType::Shift, .. }) {
                &&& t.phrase_seq() == Seq::new(16, |c: int| Some(index))
                &&& t.active_seq() == s.active_seq()
                &&& others_same
                &&& seq_after == (Sequencer { sequences: seq_after.sequences, ..seq_before })
                &&& after == before
            } else if double {
                &&& seq_after == (Sequencer { sequence_queued: Some(index as usize), ..seq_before })
                &&& after == before
            } else {
                &&& seq_after == seq_before
                &&& after == (Surface { sequence_shown: index, ..before })
            },
            ButtonType::Activator(c) => {
                let channel = (c + offset) as int;
                &&& t.active_seq() == s.active_seq().update(channel, !s.active_seq()[channel])
                &&& t.phrase_seq() == s.phrase_seq()
                &&& others_same
                &&& seq_after == (Sequencer { sequences: seq_after.sequences, ..seq_before })
                &&& after == before
            },
            _ => seq_after == seq_before && after == before,
        }
    }

    /// Handle a press of `button_type` in the sequence view.
    pub fn process_sequence_button(
        &self,
        button_type: ButtonType,
        global_modifier: Option<ButtonPress>,
        time_stop: u64,
        sequencer: &mut Sequencer,
        surface: &mut Surface,
    )
        requires
            self.sequence_button_defined(old(surface), button_type, time_stop),
        ensures
            self.sequence_button_pressed(
                button_type,
                global_modifier,
                self.pressed_shortly_before(old(surface), button_type, time_stop),
                *old(sequencer),
                *final(sequencer),
                *old(surface),
                *final(surface),
            ),
    {
        let offset = self.channel_offset();
        let index = surface.sequence_shown();
        match button_type {
            ButtonType::Grid(x, row) => {
                let channel = (x + offset) as usize;
                let sequence = sequencer.get_sequence(index);
                proof {
                    sequence.lemma_sixteen_channels();
                }
                if sequence.get_phrase(channel) == Some(row) {
                    sequence.unset_phrase(channel);
                } else {
                    sequence.set_phrase(channel, row);
                }
            },
            ButtonType::Side(side_index) => {
                let kinds = [EventKind::Exactly(InputEventType::ButtonPressed(button_type))];
                assert(kinds@ =~= seq![EventKind::Exactly(InputEventType::ButtonPressed(button_type))]);
                let usecs = time_stop - 300000;
                let last_occurred_event = surface.event_memory.last_occurred_event_of_kinds(Some(offset), &kinds, usecs);
                let shift_held = match global_modifier {
                    Some(ButtonPress { button_type: ButtonType::Shift, .. }) => true,
                    _ => false,
                };
                if shift_held {
                    let sequence = sequencer.get_sequence(index);
                    sequence.set_phrases(side_index);
                } else if last_occurred_event.is_some() {
                    sequencer.sequence_queued = Some(side_index as usize);
                } else {
                    surface.show_sequence(side_index);
                }
            },
            ButtonType::Activator(channel) => {
                let sequence = sequencer.get_sequence(index);
                sequence.toggle_active((channel + offset) as usize);
            },
            _ => {},
        }
    }

    /// Whether a press of grid button `x`, `y` in the timeline view can be handled without an
    /// arithmetic overflow or an index out of bounds.
    pub open spec fn timeline_button_defined(&self, sequencer: &Sequencer, surface: &Surface, x: u8, y: u8, global_modifier: Option<ButtonPress>) -> bool {
        let offset = Self::channel_offset_of(self.apc_type);
        let timeline = sequencer.channels[surface.channel_shown as int].timeline;
        let start = (offset + x) * 15360 + surface.timeline_offset;
        let range = TickRange { start: start as u32, stop: (start + 15360) as u32 };
        &&& surface.channel_shown < 16
        &&& offset + x <= 255
        &&& start + 15360 <= u32::MAX
        &&& global_modifier matches Some(ButtonPress { button_type: ButtonType::Grid(mod_x, mod_y), controller_channel_offset })
            ==> mod_y == y ==> mod_x + controller_channel_offset <= 255 && (mod_x + controller_channel_offset) * 15360
            + surface.timeline_offset + 15360 <= u32::MAX
        &&& !(global_modifier is None && has_event_starting_in(timeline.phrase_events@, range, y))
            ==> timeline.length_defined()
    }

    /// The phrase event a press of grid button `x`, `y` in the timeline view adds: over the
    /// button, reaching back (or forward) to a held grid button on the same row, of this or
    /// another controller.
    pub open spec fn timeline_event(&self, surface: &Surface, x: u8, y: u8, global_modifier: Option<ButtonPress>) -> LoopablePhraseEvent {
        let offset = Self::channel_offset_of(self.apc_type);
        let start = (offset + x) * 15360 + surface.timeline_offset;
        let stop = start + 15360;
        let from = match global_modifier {
            Some(ButtonPress { button_type: ButtonType::Grid(mod_x, mod_y), controller_channel_offset }) => if mod_y == y {
                (mod_x + controller_channel_offset) * 15360 + surface.timeline_offset
            } else {
                start
            },
            _ => start,
        };
        if from > stop {
            LoopablePhraseEvent { start: (stop - 15360) as u32, stop: Some((from + 15360) as u32), phrase: y }
        } else {
            LoopablePhraseEvent { start: from as u32, stop: Some(stop as u32), phrase: y }
        }
    }

    /// A phrase drawn between two grid buttons on one row of the timeline: while grid button
    /// `mod_x` of the controller at `held_offset` is held, a press of grid button `x` on the
    /// same row adds, last on the timeline, the phrase of the row from the start of the earlier
    /// of the two buttons to the end of the later one, so it covers both and all between. When
    /// the held button is the one right after the pressed one, the phrase starts and stops at
    /// the same tick, the start of the held button, and so runs round the whole timeline.
    pub proof fn law_held_grid_button_spans_the_phrase(
        &self,
        surface: Surface,
        x: u8,
        y: u8,
        mod_x: u8,
        held_offset: u8,
        events: Seq<LoopablePhraseEvent>,
        length: u32,
    )
        requires
            ({
                let a = mod_x + held_offset;
                let b = Self::channel_offset_of(self.apc_type) + x;
                let last = if a > b { a } else { b };
                (last + 1) * 15360 + surface.timeline_offset <= u32::MAX
            }),
        ensures
            ({
                let held = ButtonPress { controller_channel_offset: held_offset, button_type: ButtonType::Grid(mod_x, y) };
                let added = with_complete_event(events, self.timeline_event(&surface, x, y, Some(held)), length).last();
                let a = mod_x + held_offset;
                let b = Self::channel_offset_of(self.apc_type) + x;
                let o = surface.timeline_offset;
                &&& added.phrase == y
                &&& a <= b ==> added.start == a * 15360 + o && added.stop == Some(((b + 1) * 15360 + o) as u32)
                &&& a > b + 1 ==> added.start == b * 15360 + o && added.stop == Some(((a + 1) * 15360 + o) as u32)
                &&& a == b + 1 ==> added.start == a * 15360 + o && added.stop == Some((a * 15360 + o) as u32)
            }),
    {
        let held = ButtonPress { controller_channel_offset: held_offset, button_type: ButtonType::Grid(mod_x, y) };
        let e = self.timeline_event(&surface, x, y, Some(held));
        assert(with_complete_event(events, e, length).last() == e);
    }

    /// Without a grid button held on the same row, a press of grid button `x` on row `y` of
    /// the timeline adds, last on the timeline, the phrase of the row over that one button.
    pub proof fn law_lone_grid_button_covers_its_button(
        &self,
        surface: Surface,
        x: u8,
        y: u8,
        global_modifier: Option<ButtonPress>,
        events: Seq<LoopablePhraseEvent>,
        length: u32,
    )
        requires
            !(global_modifier matches Some(ButtonPress { button_type: ButtonType::Grid(_, mod_y), .. }) && mod_y == y),
            (Self::channel_offset_of(self.apc_type) + x + 1) * 15360 + surface.timeline_offset <= u32::MAX,
        ensures
            ({
                let added = with_complete_event(events, self.timeline_event(&surface, x, y, global_modifier), length).last();
                let b = Self::channel_offset_of(self.apc_type) + x;
                let o = surface.timeline_offset;
                &&& added.phrase == y
                &&& added.start == b * 15360 + o
                &&& added.stop == Some(((b + 1) * 15360 + o) as u32)
            }),
    {
        let e = self.timeline_event(&surface, x, y, global_modifier);
        assert(with_complete_event(events, e, length).last() == e);
    }

    /// Handle a press of grid button `x`, `y` in the timeline view: with no other button held
    /// it removes the phrases on row `y` starting under the button, if there are any;
    /// otherwise it adds the phrase of row `y` over the button.
    pub fn process_timeline_button(
        &self,
        x: u8,
        y: u8,
        global_modifier: Option<ButtonPress>,
        sequencer: &mut Sequencer,
        surface: &Surface,
    )
        requires
            self.timeline_button_defined(old(sequencer), surface, x, y, global_modifier),
        ensures
            ({
                let c = surface.channel_shown as int;
                let timeline = old(sequencer).channels[c].timeline;
                let offset = Self::channel_offset_of(self.apc_type);
                let start = ((offset + x) * 15360 + surface.timeline_offset) as u32;
                let range = TickRange { start, stop: (start + 15360) as u32 };
                &&& final(sequencer).channels[c].timeline.phrase_events@ == if global_modifier is None
                    && has_event_starting_in(timeline.phrase_events@, range, y) {
                    without_starting_in(timeline.phrase_events@, range, y)
                } else {
                    with_complete_event(
                        timeline.phrase_events@,
                        self.timeline_event(surface, x, y, global_modifier),
                        timeline.length_ticks(),
                    )
                }
                &&& final(sequencer).channels[c].patterns == old(sequencer).channels[c].patterns
                &&& final(sequencer).channels[c].phrases == old(sequencer).channels[c].phrases
                &&& final(sequencer).channels[c].playing_notes == old(sequencer).channels[c].playing_notes
                &&& forall|j: int| 0 <= j < 16 && j != c ==> #[trigger] final(sequencer).channels[j] == old(sequencer).channels[j]
                &&& *final(sequencer) == (Sequencer { channels: final(sequencer).channels, ..*old(sequencer) })
            }),
    {
        let offset = self.channel_offset();
        let channel = sequencer.channel_mut(surface.channel_shown());
        let start = (offset + x) as u32 * 15360 + surface.timeline_offset();
        let mut tick_range = TickRange::new(start, start + 15360);
        let contains = channel.timeline.contains_events_starting_in(tick_range, y);
        if global_modifier.is_none() && contains {
            channel.timeline.remove_events_starting_in(tick_range, y);
        } else {
            if let Some(ButtonPress { button_type: ButtonType::Grid(mod_x, mod_y), controller_channel_offset }) = global_modifier {
                if mod_y == y {
                    tick_range.start = (mod_x + controller_channel_offset) as u32 * 15360 + surface.timeline_offset();
                }
            }
            if tick_range.start > tick_range.stop {
                let start = tick_range.start;
                tick_range.start = tick_range.stop - 15360;
                tick_range.stop = start + 15360;
            }
            channel.timeline.add_complete_event(LoopablePhraseEvent::new(tick_range.start, tick_range.stop, y));
        }
    }

    /// Whether `after` is what a press of `button_type` makes of the view of `before`: a
    /// channel button shows its channel, or, when it is shown already, switches between the
    /// channel and timeline views (from the sequence view it shows the channel's timeline);
    /// the master button switches to the sequence view, and from it back to the channel view.
    pub open spec fn view_button_pressed(&self, button_type: ButtonType, before: Surface, after: Surface) -> bool {
        let offset = Self::channel_offset_of(self.apc_type);
        match button_type {
            ButtonType::Track(index) => {
                let channel = (index + offset) as u8;
                match before.view {
                    GridView::Sequence => after == (Surface { view: GridView::Timeline, channel_shown: channel, ..before }),
                    _ => if before.channel_shown == channel {
                        after == (Surface {
                            view: if before.view == GridView::Timeline {
                                GridView::Channel
                            } else {
                                GridView::Timeline
                            },
                            ..before
                        })
                    } else {
                        after == (Surface { channel_shown: channel, ..before })
                    },
                }
            },
            ButtonType::Master => after == (Surface {
                view: if before.view == GridView::Sequence {
                    GridView::Channel
                } else {
                    GridView::Sequence
                },
                ..before
            }),
            _ => after == before,
        }
    }

    /// Handle a press of a channel button or the master button.
    pub fn process_view_button(&self, button_type: ButtonType, surface: &mut Surface)
        requires
            button_type matches ButtonType::Track(index) ==> index + Self::channel_offset_of(self.apc_type) <= 255,
        ensures
            self.view_button_pressed(button_type, *old(surface), *final(surface)),
    {
        let offset = self.channel_offset();
        match button_type {
            ButtonType::Track(index) => {
                match surface.view {
                    GridView::Channel | GridView::Timeline => {
                        if surface.channel_shown() == (index + offset) as usize {
                            let view = if surface.view == GridView::Timeline {
                                GridView::Channel
                            } else {
                                GridView::Timeline
                            };
                            surface.switch_view(view);
                        } else {
                            surface.show_channel(index + offset);
                        }
                    },
                    GridView::Sequence => {
                        surface.switch_view(GridView::Timeline);
                        surface.show_channel(index + offset);
                    },
                }
            },
            ButtonType::Master => {
                let view = if surface.view == GridView::Sequence {
                    GridView::Channel
                } else {
                    GridView::Sequence
                };
                surface.switch_view(view);
            },
            _ => {},
        }
    }

    /// Whether a press of `button_type` in the channel view of an APC40 can be handled without an
    /// arithmetic overflow or an index out of bounds.
    pub open spec fn apc40_button_defined(
        &self,
        button_type: ButtonType,
        modifier: Option<ButtonType>,
        global_modifier: Option<ButtonPress>,
        sequencer: &Sequencer,
        surface: &Surface,
    ) -> bool {
        let c = surface.channel_shown as int;
        let p = surface.pattern_shown[c];
        let pattern = sequencer.channels[c].patterns[p as int];
        let base = surface.pattern_base_notes[c];
        let offset = surface.pattern_offsets[c];
        let tpb = surface.pattern_button_ticks();
        &&& c < 16
        &&& match button_type {
            ButtonType::Grid(x, y) => {
                let note = base - 2 + y;
                let start = (x * tpb + offset) as u32;
                let range = TickRange { start, stop: (start + tpb) as u32 };
                let removes = modifier is None && has_event_starting_in(pattern.note_events@, range, note as u8);
                &&& p < 5
                &&& surface.pattern_zoom_level > 0
                &&& 2 <= base
                &&& note <= 255
                &&& x * tpb + offset + tpb <= u32::MAX
                &&& modifier matches Some(ButtonType::Grid(mod_x, mod_y)) ==> mod_y == y ==> mod_x * tpb + offset <= u32::MAX
                &&& !removes ==> {
                    let from = match modifier {
                        Some(ButtonType::Grid(mod_x, mod_y)) => if mod_y == y {
                            (mod_x * tpb + offset) as u32
                        } else {
                            start
                        },
                        _ => start,
                    };
                    pattern_length_of(notes_with_open_note(pattern.note_events@, from, note as u8), pattern.length) <= u32::MAX
                }
            },
            ButtonType::Side(index) => match modifier {
                Some(ButtonType::Side(modifier_index)) => modifier_index < 5 && index < 5,
                _ => global_modifier matches Some(ButtonPress { button_type: ButtonType::Shift, .. }) ==> index < 5
                    && surface.pattern_zoom_level > 0 && surface.shown_pattern_defined(sequencer, c),
            },
            ButtonType::Activator(_) => p < 5,
            ButtonType::Up => base + 4 <= 255,
            ButtonType::Down => base >= 4,
            ButtonType::Right => surface.pattern_zoom_level > 0 && surface.shown_pattern_defined(sequencer, c)
                && offset + tpb * 8 <= u32::MAX,
            ButtonType::Left => surface.pattern_zoom_level > 0 && surface.shown_pattern_defined(sequencer, c)
                && i32::MIN <= (offset as i32) - tpb * 8,
            _ => true,
        }
    }

    /// Whether `seq_after` and `after` are what a press of `button_type` in the channel view
    /// of an APC40 makes of `seq_before` and `before`: a grid button adds a note (from a held
    /// grid button on its row) or removes the notes starting under it; a side button copies
    /// the held side button's pattern to its own, clears its pattern with shift held (showing
    /// the shown pattern from its start), or shows its pattern; an activator sets the length
    /// of the shown pattern to its number of bars, or unsets it when already so; up and down
    /// move the notes shown by four; right and left move the shown part of the pattern by a
    /// grid.
    pub open spec fn apc40_button_pressed(
        &self,
        button_type: ButtonType,
        modifier: Option<ButtonType>,
        global_modifier: Option<ButtonPress>,
        seq_before: Sequencer,
        seq_after: Sequencer,
        before: Surface,
        after: Surface,
    ) -> bool {
        let c = before.channel_shown as int;
        let p = before.pattern_shown[c] as int;
        let channel = seq_before.channels[c];
        let pattern = channel.patterns[p];
        let base = before.pattern_base_notes[c];
        let offset = before.pattern_offsets[c];
        let tpb = before.pattern_button_ticks();
        let new_pattern = seq_after.channels[c].patterns[p];
        let only_pattern_changed = {
            &&& seq_after == (Sequencer { channels: seq_after.channels, ..seq_before })
            &&& forall|j: int| 0 <= j < 16 && j != c ==> #[trigger] seq_after.channels[j] == seq_before.channels[j]
            &&& seq_after.channels[c] == (Track { patterns: seq_after.channels[c].patterns, ..channel })
            &&& forall|k: int| 0 <= k < 5 && k != p ==> #[trigger] seq_after.channels[c].patterns[k] == channel.patterns[k]
        };
        match button_type {
            ButtonType::Grid(x, y) => {
                let note = (base - 2 + y) as u8;
                let start = (x * tpb + offset) as u32;
                let range = TickRange { start, stop: (start + tpb) as u32 };
                &&& only_pattern_changed
                &&& after == before
                &&& new_pattern.length == pattern.length
                &&& new_pattern.note_events@ == if modifier is None && has_event_starting_in(pattern.note_events@, range, note) {
                    without_starting_in(pattern.note_events@, range, note)
                } else {
                    let from = match modifier {
                        Some(ButtonType::Grid(mod_x, mod_y)) => if mod_y == y {
                            (mod_x * tpb + offset) as u32
                        } else {
                            start
                        },
                        _ => start,
                    };
                    notes_with_note(pattern.note_events@, pattern.length, from, range.stop, note)
                }
            },
            ButtonType::Side(index) => match modifier {
                Some(ButtonType::Side(modifier_index)) => {
                    &&& after == before
                    &&& seq_after == (Sequencer { channels: seq_after.channels, ..seq_before })
                    &&& forall|j: int| 0 <= j < 16 && j != c ==> #[trigger] seq_after.channels[j] == seq_before.channels[j]
                    &&& seq_after.channels[c] == (Track { patterns: seq_after.channels[c].patterns, ..channel })
                    &&& forall|k: int| 0 <= k < 5 && k != index ==> #[trigger] seq_after.channels[c].patterns[k] == channel.patterns[k]
                    &&& seq_after.channels[c].patterns[index as int].note_events@ == channel.patterns[modifier_index as int].note_events@
                    &&& seq_after.channels[c].patterns[index as int].length == channel.patterns[modifier_index as int].length
                },
                _ => if global_modifier matches Some(ButtonPress { button_type: ButtonType::Shift, .. }) {
                    &&& after.pattern_offsets@ == before.pattern_offsets@.update(
                        c,
                        snapped_offset(0, before.pattern_button_ticks(), before.pattern_offset_max(&seq_before, c)),
                    )
                    &&& after == (Surface { pattern_offsets: after.pattern_offsets, ..before })
                    &&& seq_after == (Sequencer { channels: seq_after.channels, ..seq_before })
                    &&& forall|j: int| 0 <= j < 16 && j != c ==> #[trigger] seq_after.channels[j] == seq_before.channels[j]
                    &&& seq_after.channels[c] == (Track { patterns: seq_after.channels[c].patterns, ..channel })
                    &&& forall|k: int| 0 <= k < 5 && k != index ==> #[trigger] seq_after.channels[c].patterns[k] == channel.patterns[k]
                    &&& seq_after.channels[c].patterns[index as int].note_events@.len() == 0
                    &&& seq_after.channels[c].patterns[index as int].length == channel.patterns[index as int].length
                } else {
                    &&& seq_after == seq_before
                    &&& after.pattern_shown@ == before.pattern_shown@.update(c, index)
                    &&& after == (Surface { pattern_shown: after.pattern_shown, ..before })
                },
            },
            ButtonType::Activator(index) => {
                let length = 7680 * (index + 1);
                &&& only_pattern_changed
                &&& after == before
                &&& new_pattern.note_events@ == pattern.note_events@
                &&& new_pattern.length == if pattern.length == Some(length as u32) {
                    None
                } else {
                    Some(length as u32)
                }
            },
            ButtonType::Up => {
                let note = base + 4;
                &&& seq_after == seq_before
                &&& after.pattern_base_notes@ == if 22 <= note <= 118 {
                    before.pattern_base_notes@.update(c, note as u8)
                } else {
                    before.pattern_base_notes@
                }
                &&& after == (Surface { pattern_base_notes: after.pattern_base_notes, ..before })
            },
            ButtonType::Down => {
                let note = base - 4;
                &&& seq_after == seq_before
                &&& after.pattern_base_notes@ == if 22 <= note <= 118 {
                    before.pattern_base_notes@.update(c, note as u8)
                } else {
                    before.pattern_base_notes@
                }
                &&& after == (Surface { pattern_base_notes: after.pattern_base_notes, ..before })
            },
            ButtonType::Right => {
                &&& seq_after == seq_before
                &&& after.pattern_offsets@ == before.pattern_offsets@.update(
                    c,
                    snapped_offset((offset + tpb * 8) as u32, tpb, before.pattern_offset_max(&seq_before, c)),
                )
                &&& after == (Surface { pattern_offsets: after.pattern_offsets, ..before })
            },
            ButtonType::Left => {
                let moved = (offset as i32) - tpb * 8;
                &&& seq_after == seq_before
                &&& after.pattern_offsets@ == before.pattern_offsets@.update(
                    c,
                    snapped_offset(if moved >= 0 { moved as u32 } else { 0 }, tpb, before.pattern_offset_max(&seq_before, c)),
                )
                &&& after == (Surface { pattern_offsets: after.pattern_offsets, ..before })
            },
            _ => seq_after == seq_before && after == before,
        }
    }

    /// Handle a press of `button_type` in the channel view of an APC40.
    pub fn process_apc40_button(
        &self,
        button_type: ButtonType,
        modifier: Option<ButtonType>,
        global_modifier: Option<ButtonPress>,
        sequencer: &mut Sequencer,
        surface: &mut Surface,
    )
        requires
            self.apc40_button_defined(button_type, modifier, global_modifier, old(sequencer), old(surface)),
        ensures
            self.apc40_button_pressed(
                button_type,
                modifier,
                global_modifier,
                *old(sequencer),
                *final(sequencer),
                *old(surface),
                *final(surface),
            ),
    {
        let c = surface.channel_shown();
        match button_type {
            ButtonType::Grid(x, y) => {
                let p = surface.pattern_shown(c) as usize;
                let offset = surface.pattern_offset(c);
                let note = surface.pattern_base_note(c) - 2 + y;
                let ticks_per_button = surface.pattern_ticks_per_button();
                let ghost events = sequencer.channels[c as int].patterns[p as int].note_events@;
                let added = self.should_add_event(
                    &mut sequencer.channels[c].patterns[p],
                    modifier,
                    ticks_per_button,
                    x,
                    y,
                    offset,
                    note,
                );
                if let Some(tick_range) = added {
                    sequencer.channels[c].patterns[p].try_add_starting_event(LoopableNoteEvent::new(tick_range.start, note, 127));
                    proof {
                        lemma_started_has_last(
                            events,
                            LoopableNoteEvent { start: tick_range.start, note, start_velocity: 127, stop: None, stop_velocity: None },
                        );
                    }
                    let mut event = sequencer.channels[c].patterns[p].get_last_event_on_row(note);
                    event.set_stop(tick_range.stop);
                    event.stop_velocity = Some(127);
                    sequencer.channels[c].patterns[p].add_complete_event(event);
                }
            },
            ButtonType::Side(index) => {
                let modifier_side = match modifier {
                    Some(ButtonType::Side(modifier_index)) => Some(modifier_index),
                    _ => None,
                };
                let shift_held = match global_modifier {
                    Some(ButtonPress { button_type: ButtonType::Shift, .. }) => true,
                    _ => false,
                };
                if let Some(modifier_index) = modifier_side {
                    sequencer.channels[c].clone_pattern(modifier_index, index);
                } else if shift_held {
                    surface.set_pattern_offset(sequencer, c, 0);
                    sequencer.channels[c].patterns[index as usize].clear_events();
                } else {
                    surface.show_pattern(c, index);
                }
            },
            ButtonType::Activator(index) => {
                let p = surface.pattern_shown(c) as usize;
                let length = 7680 * (index as u32 + 1);
                if sequencer.channels[c].patterns[p].has_explicit_length() && sequencer.channels[c].patterns[p].length()
                    == length {
                    sequencer.channels[c].patterns[p].unset_length();
                } else {
                    sequencer.channels[c].patterns[p].set_length(length);
                }
            },
            ButtonType::Up => {
                let base_note = surface.pattern_base_note(c);
                surface.set_pattern_base_note(c, base_note + 4);
            },
            ButtonType::Down => {
                let base_note = surface.pattern_base_note(c);
                surface.set_pattern_base_note(c, base_note - 4);
            },
            ButtonType::Right => {
                let ticks_per_button = surface.pattern_ticks_per_button();
                let offset = surface.pattern_offset(c);
                surface.set_pattern_offset(sequencer, c, offset + ticks_per_button * 8);
            },
            ButtonType::Left => {
                let ticks_per_button = surface.pattern_ticks_per_button();
                let offset = surface.pattern_offset(c);
                assert(ticks_per_button * 8 <= 30720) by {
                    assert(3840int / (surface.pattern_zoom_level as int) <= 3840) by (nonlinear_arith)
                        requires
                            0 < surface.pattern_zoom_level,
                    ;
                }
                let new_offset = offset as i32 - (ticks_per_button * 8) as i32;
                let offset = if new_offset >= 0 {
                    new_offset as u32
                } else {
                    0
                };
                surface.set_pattern_offset(sequencer, c, offset);
            },
            _ => {},
        }
    }

    /// Whether a press of `button_type` in the channel view of an APC20 can be handled without an
    /// arithmetic overflow or an index out of bounds.
    pub open spec fn apc20_button_defined(
        &self,
        button_type: ButtonType,
        modifier: Option<ButtonType>,
        sequencer: &Sequencer,
        surface: &Surface,
    ) -> bool {
        let c = surface.channel_shown as int;
        let p = surface.phrase_shown[c];
        let phrase = sequencer.channels[c].phrases[p as int];
        let offset = surface.phrase_offsets[c];
        let tpb = surface.phrase_button_ticks();
        &&& c < 16
        &&& p < 5
        &&& match button_type {
            ButtonType::Grid(x, y) => {
                let start = (x * tpb + offset) as u32;
                let range = TickRange { start, stop: (start + tpb) as u32 };
                &&& surface.phrase_zoom_level > 0
                &&& x * tpb + offset + tpb <= u32::MAX
                &&& modifier matches Some(ButtonType::Grid(mod_x, mod_y)) ==> mod_y == y ==> mod_x * tpb + offset <= u32::MAX
            },
            ButtonType::Side(index) => match modifier {
                Some(ButtonType::Side(modifier_index)) => modifier_index < 5 && index < 5,
                _ => index < 5,
            },
            _ => true,
        }
    }

    /// Whether `seq_after` and `after` are what a press of `button_type` in the channel view
    /// of an APC20 makes of `seq_before` and `before`: a grid button adds a pattern event
    /// (from a held grid button on its row) or removes the pattern events starting under it;
    /// a side button copies the held side button's phrase to its own, clears its phrase with
    /// shift held, or shows its phrase; an activator sets the length of the shown phrase to
    /// its number of phrases of four bars.
    pub open spec fn apc20_button_pressed(
        &self,
        button_type: ButtonType,
        modifier: Option<ButtonType>,
        global_modifier: Option<ButtonPress>,
        seq_before: Sequencer,
        seq_after: Sequencer,
        before: Surface,
        after: Surface,
    ) -> bool {
        let c = before.channel_shown as int;
        let p = before.phrase_shown[c] as int;
        let channel = seq_before.channels[c];
        let phrase = channel.phrases[p];
        let offset = before.phrase_offsets[c];
        let tpb = before.phrase_button_ticks();
        let new_phrase = seq_after.channels[c].phrases[p];
        let only_phrase_changed = |k: int| {
            &&& seq_after == (Sequencer { channels: seq_after.channels, ..seq_before })
            &&& forall|j: int| 0 <= j < 16 && j != c ==> #[trigger] seq_after.channels[j] == seq_before.channels[j]
            &&& seq_after.channels[c] == (Track { phrases: seq_after.channels[c].phrases, ..channel })
            &&& forall|q: int| 0 <= q < 5 && q != k ==> #[trigger] seq_after.channels[c].phrases[q] == channel.phrases[q]
        };
        match button_type {
            ButtonType::Grid(x, y) => {
                let start = (x * tpb + offset) as u32;
                let range = TickRange { start, stop: (start + tpb) as u32 };
                &&& only_phrase_changed(p)
                &&& after == before
                &&& new_phrase.length_ticks() == phrase.length_ticks()
                &&& new_phrase.event_seq() == if modifier is None && has_event_starting_in(phrase.event_seq(), range, y) {
                    without_starting_in(phrase.event_seq(), range, y)
                } else {
                    let from = match modifier {
                        Some(ButtonType::Grid(mod_x, mod_y)) => if mod_y == y {
                            (mod_x * tpb + offset) as u32
                        } else {
                            start
                        },
                        _ => start,
                    };
                    patterns_with_event(phrase.event_seq(), phrase.length_ticks(), from, range.stop, y)
                }
            },
            ButtonType::Side(index) => match modifier {
                Some(ButtonType::Side(modifier_index)) => {
                    &&& after == before
                    &&& only_phrase_changed(index as int)
                    &&& seq_after.channels[c].phrases[index as int].event_seq() == channel.phrases[modifier_index as int].event_seq()
                    &&& seq_after.channels[c].phrases[index as int].length_ticks() == channel.phrases[modifier_index as int].length_ticks()
                },
                _ => if global_modifier matches Some(ButtonPress { button_type: ButtonType::Shift, .. }) {
                    &&& after == before
                    &&& only_phrase_changed(index as int)
                    &&& seq_after.channels[c].phrases[index as int].event_seq().len() == 0
                    &&& seq_after.channels[c].phrases[index as int].length_ticks() == channel.phrases[index as int].length_ticks()
                } else {
                    &&& seq_after == seq_before
                    &&& after.phrase_shown@ == before.phrase_shown@.update(c, index)
                    &&& after == (Surface { phrase_shown: after.phrase_shown, ..before })
                },
            },
            ButtonType::Activator(index) => {
                let length = (30720 * (index + 1)) as u32;
                &&& only_phrase_changed(p)
                &&& after == before
                &&& new_phrase.length_ticks() == length
                &&& new_phrase.event_seq() == crate::loopable::cut_to_length(phrase.event_seq(), length)
            },
            _ => seq_after == seq_before && after == before,
        }
    }

    /// Handle a press of `button_type` in the channel view of an APC20.
    pub fn process_apc20_button(
        &self,
        button_type: ButtonType,
        modifier: Option<ButtonType>,
        global_modifier: Option<ButtonPress>,
        sequencer: &mut Sequencer,
        surface: &mut Surface,
    )
        requires
            self.apc20_button_defined(button_type, modifier, old(sequencer), old(surface)),
        ensures
            self.apc20_button_pressed(
                button_type,
                modifier,
                global_modifier,
                *old(sequencer),
                *final(sequencer),
                *old(surface),
                *final(surface),
            ),
    {
        let c = surface.channel_shown();
        let p = surface.phrase_shown(c) as usize;
        match button_type {
            ButtonType::Grid(x, y) => {
                let offset = surface.phrase_offset(c);
                let ticks_per_button = surface.phrase_ticks_per_button();
                let ghost events = sequencer.channels[c as int].phrases[p as int].event_seq();
                let added = self.should_add_event(
                    &mut sequencer.channels[c].phrases[p],
                    modifier,
                    ticks_per_button,
                    x,
                    y,
                    offset,
                    y,
                );
                proof {
                    crate::loopable::lemma_phrase_length_setting(
                        sequencer.channels[c as int].phrases[p as int],
                        old(sequencer).channels[c as int].phrases[p as int],
                    );
                }
                if let Some(tick_range) = added {
                    sequencer.channels[c].phrases[p].try_add_starting_event(LoopablePatternEvent::new(tick_range.start, y));
                    proof {
                        lemma_started_has_last(events, LoopablePatternEvent { start: tick_range.start, stop: None, pattern: y });
                    }
                    let mut event = sequencer.channels[c].phrases[p].get_last_event_on_row(y);
                    event.set_stop(tick_range.stop);
                    sequencer.channels[c].phrases[p].add_complete_event(event);
                }
            },
            ButtonType::Side(index) => {
                let modifier_side = match modifier {
                    Some(ButtonType::Side(modifier_index)) => Some(modifier_index),
                    _ => None,
                };
                let shift_held = match global_modifier {
                    Some(ButtonPress { button_type: ButtonType::Shift, .. }) => true,
                    _ => false,
                };
                if let Some(modifier_index) = modifier_side {
                    sequencer.channels[c].clone_phrase(modifier_index, index);
                } else if shift_held {
                    sequencer.channels[c].phrases[index as usize].clear_events();
                } else {
                    surface.show_phrase(c, index);
                }
            },
            ButtonType::Activator(index) => {
                sequencer.channels[c].phrases[p].set_length(30720 * (index as u32 + 1));
            },
            _ => {},
        }
    }

    /// Whether a press of `button_type` handled by this controller's model leads from
    /// `seq_before` and `before`, through `q` and `m` once the channel view handled it, to
    /// `seq_after`, `after` and `action`.
    pub open spec fn button_processed(
        &self,
        button_type: ButtonType,
        modifier: Option<ButtonType>,
        global_modifier: Option<ButtonPress>,
        transport: TransportState,
        seq_before: Sequencer,
        q: Sequencer,
        seq_after: Sequencer,
        before: Surface,
        m: Surface,
        after: Surface,
        action: ApcAction,
    ) -> bool {
        &&& if before.view == GridView::Channel {
            match self.apc_type {
                APCType::APC40 => self.apc40_button_pressed(button_type, modifier, global_modifier, seq_before, q, before, m),
                APCType::APC20 => self.apc20_button_pressed(button_type, modifier, global_modifier, seq_before, q, before, m),
            }
        } else {
            q == seq_before && m == before
        }
        &&& if self.apc_type == APCType::APC40 && button_type == ButtonType::Play {
            &&& seq_after == q
            &&& after == m
            &&& action matches ApcAction::StartTransport(messages) && messages@.len() == 16
                && forall|i: int| 0 <= i < 16 ==> are_note_ons(#[trigger] messages@[i]@, q.channels[i].playing())
        } else if self.apc_type == APCType::APC40 && button_type == ButtonType::Stop {
            if global_modifier matches Some(ButtonPress { button_type: ButtonType::Shift, .. }) && transport.at_start {
                &&& timelines_cleared(q, seq_after)
                &&& after == m
                &&& action is Nothing
            } else if transport.rolling {
                &&& seq_after == q
                &&& after == m
                &&& action matches ApcAction::StopTransport(messages) && messages@.len() == 16
                    && forall|i: int| 0 <= i < 16 ==> are_note_offs(#[trigger] messages@[i]@, q.channels[i].playing())
            } else {
                &&& notes_forgotten(q, seq_after)
                &&& after == (Surface { timeline_offset: snapped_offset(0, 15360, m.timeline_offset_max(&seq_after)), ..m })
                &&& action is RepositionTransport
            }
        } else {
            &&& seq_after == q
            &&& after == m
            &&& action is Nothing
        }
    }

    /// Whether an event this controller handles by its model can be handled without an
    /// arithmetic overflow or an index out of bounds.
    pub open spec fn inputevent_defined(
        &self,
        event_type: InputEventType,
        modifier: Option<ButtonType>,
        global_modifier: Option<ButtonPress>,
        transport: TransportState,
        sequencer: &Sequencer,
        surface: &Surface,
    ) -> bool {
        match self.apc_type {
            APCType::APC40 => match event_type {
                InputEventType::ButtonPressed(button_type) => {
                    &&& surface.view == GridView::Channel ==> self.apc40_button_defined(
                        button_type,
                        modifier,
                        global_modifier,
                        sequencer,
                        surface,
                    )
                    &&& button_type == ButtonType::Stop && !(global_modifier matches Some(
                        ButtonPress { button_type: ButtonType::Shift, .. },
                    ) && transport.at_start) && !transport.rolling ==> timeline_end_of(sequencer.channels@, 16)
                        + 15360 * 12 <= u32::MAX
                },
                _ => true,
            },
            APCType::APC20 => {
                &&& surface.channel_shown < 16
                &&& surface.phrase_shown[surface.channel_shown as int] < 5
                &&& event_type matches InputEventType::ButtonPressed(button_type) ==> surface.view == GridView::Channel
                    ==> self.apc20_button_defined(button_type, modifier, sequencer, surface)
            },
        }
    }

    /// Whether `seq_after`, `after` and `action` are what this controller's model makes of an
    /// event it handles itself: the APC40 leaves crossfader moves to the caller, handles its
    /// buttons in the channel view, starts the transport with play, and with stop empties the
    /// timelines (with shift held, at the start of the transport), stops the transport when it
    /// rolls, or else moves it back to its start and shows the timeline from its start; the
    /// APC20 handles its buttons in the channel view.
    pub open spec fn inputevent_processed(
        &self,
        event_type: InputEventType,
        modifier: Option<ButtonType>,
        global_modifier: Option<ButtonPress>,
        transport: TransportState,
        seq_before: Sequencer,
        seq_after: Sequencer,
        before: Surface,
        after: Surface,
        action: ApcAction,
    ) -> bool {
        match event_type {
            InputEventType::ButtonPressed(button_type) => exists|q: Sequencer, m: Surface|
                #[trigger] self.button_processed(
                    button_type,
                    modifier,
                    global_modifier,
                    transport,
                    seq_before,
                    q,
                    seq_after,
                    before,
                    m,
                    after,
                    action,
                ),
            InputEventType::FaderMoved { value, fader_type: FaderType::CrossFade } => {
                &&& seq_after == seq_before
                &&& after == before
                &&& action == if self.apc_type == APCType::APC40 {
                    ApcAction::CrossfaderMoved(value)
                } else {
                    ApcAction::Nothing
                }
            },
            _ => seq_after == seq_before && after == before && action is Nothing,
        }
    }

    /// Handle an event by this controller's model.
    pub fn process_inputevent(
        &self,
        event_type: InputEventType,
        modifier: Option<ButtonType>,
        global_modifier: Option<ButtonPress>,
        transport: TransportState,
        sequencer: &mut Sequencer,
        surface: &mut Surface,
    ) -> (action: ApcAction)
        requires
            self.inputevent_defined(event_type, modifier, global_modifier, transport, old(sequencer), old(surface)),
        ensures
            self.inputevent_processed(
                event_type,
                modifier,
                global_modifier,
                transport,
                *old(sequencer),
                *final(sequencer),
                *old(surface),
                *final(surface),
                action,
            ),
    {
        match event_type {
            InputEventType::ButtonPressed(button_type) => {
                if surface.view == GridView::Channel {
                    match self.apc_type {
                        APCType::APC40 => self.process_apc40_button(button_type, modifier, global_modifier, sequencer, surface),
                        APCType::APC20 => self.process_apc20_button(button_type, modifier, global_modifier, sequencer, surface),
                    }
                }
                let ghost q = *sequencer;
                let ghost m = *surface;
                let action = if self.apc_type == APCType::APC40 && button_type == ButtonType::Play {
                    ApcAction::StartTransport(sequencer.start())
                } else if self.apc_type == APCType::APC40 && button_type == ButtonType::Stop {
                    let shift_held = match global_modifier {
                        Some(ButtonPress { button_type: ButtonType::Shift, .. }) => true,
                        _ => false,
                    };
                    if shift_held && transport.at_start {
                        sequencer.reset_timeline();
                        ApcAction::Nothing
                    } else if transport.rolling {
                        ApcAction::StopTransport(sequencer.stop())
                    } else {
                        sequencer.reset();
                        proof {
                            lemma_same_timelines_same_end(old(sequencer).channels@, sequencer.channels@, 16);
                        }
                        surface.set_timeline_offset(sequencer, 0);
                        ApcAction::RepositionTransport
                    }
                } else {
                    ApcAction::Nothing
                };
                proof {
                    assert(self.button_processed(
                        button_type,
                        modifier,
                        global_modifier,
                        transport,
                        *old(sequencer),
                        q,
                        *sequencer,
                        *old(surface),
                        m,
                        *surface,
                        action,
                    ));
                }
                action
            },
            InputEventType::FaderMoved { value, fader_type: FaderType::CrossFade } => {
                if self.apc_type == APCType::APC40 {
                    ApcAction::CrossfaderMoved(value)
                } else {
                    ApcAction::Nothing
                }
            },
            _ => ApcAction::Nothing,
        }
    }

    /// Whether `after` is `before` with `button_type` held on this controller.
    pub open spec fn pressed_on(&self, before: Surface, after: Surface, button_type: ButtonType) -> bool {
        &&& after.button_memory.pressed() == before.button_memory.pressed().push(
            ButtonPress { controller_channel_offset: Self::channel_offset_of(self.apc_type), button_type },
        )
        &&& after == (Surface { button_memory: after.button_memory, ..before })
    }

    /// Whether `after` is `before` once the event of `event_type` at `time` is remembered.
    pub open spec fn remembered(&self, before: Surface, after: Surface, time: u64, event_type: InputEventType) -> bool {
        &&& after.event_memory.occurred() == registered(
            before.event_memory.occurred(),
            Self::channel_offset_of(self.apc_type),
            time,
            event_type,
        )
        &&& after == (Surface { event_memory: after.event_memory, ..before })
    }

    /// The held button of this controller other than `button_type` that modifies it.
    pub open spec fn modifier_of(&self, surface: Surface, button_type: ButtonType) -> Option<ButtonType> {
        match first_other_press(surface.button_memory.pressed(), Some(Self::channel_offset_of(self.apc_type)), button_type) {
            Some(p) => Some(p.button_type),
            None => None,
        }
    }

    /// Whether a press of `button_type` can be handled by the view without an
    /// arithmetic overflow or an index out of bounds.
    pub open spec fn view_step_defined(
        &self,
        button_type: ButtonType,
        global_modifier: Option<ButtonPress>,
        time_stop: u64,
        sequencer: &Sequencer,
        surface: &Surface,
    ) -> bool {
        match surface.view {
            GridView::Channel => button_type matches ButtonType::Solo(index) ==> {
                &&& index + 1 <= 255
                &&& index + 1 != 7 ==> match self.apc_type {
                    APCType::APC40 => forall|c: int| 0 <= c < 16 ==> surface.shown_pattern_defined(sequencer, c),
                    APCType::APC20 => forall|c: int| 0 <= c < 16 ==> surface.phrase_shown[c] < 5,
                }
            },
            GridView::Sequence => self.sequence_button_defined(surface, button_type, time_stop),
            GridView::Timeline => button_type matches ButtonType::Grid(x, y) ==> self.timeline_button_defined(
                sequencer,
                surface,
                x,
                y,
                global_modifier,
            ),
        }
    }

    /// Whether `seq_after` and `after` are what the view makes of a press of `button_type`:
    /// in the channel view a solo button zooms the shown loopables (the seventh does
    /// nothing); the sequence and timeline views handle their buttons.
    pub open spec fn view_step(
        &self,
        button_type: ButtonType,
        global_modifier: Option<ButtonPress>,
        time_stop: u64,
        seq_before: Sequencer,
        seq_after: Sequencer,
        before: Surface,
        after: Surface,
    ) -> bool {
        match before.view {
            GridView::Channel => match button_type {
                ButtonType::Solo(index) => if index + 1 != 7 {
                    let zoom = (index + 1) as u8;
                    &&& seq_after == seq_before
                    &&& match self.apc_type {
                        APCType::APC40 => {
                            &&& after.pattern_zoom_level == zoom
                            &&& forall|c: int|
                                0 <= c < 16 ==> #[trigger] after.pattern_offsets[c] == snapped_offset(
                                    before.pattern_offsets[c],
                                    after.pattern_button_ticks(),
                                    after.pattern_offset_max(&seq_before, c),
                                )
                            &&& after == (Surface { pattern_zoom_level: zoom, pattern_offsets: after.pattern_offsets, ..before })
                        },
                        APCType::APC20 => {
                            &&& after.phrase_zoom_level == zoom
                            &&& forall|c: int|
                                0 <= c < 16 ==> #[trigger] after.phrase_offsets[c] == snapped_offset(
                                    before.phrase_offsets[c],
                                    after.phrase_button_ticks(),
                                    after.phrase_offset_max(&seq_before, c),
                                )
                            &&& after == (Surface { phrase_zoom_level: zoom, phrase_offsets: after.phrase_offsets, ..before })
                        },
                    }
                } else {
                    seq_after == seq_before && after == before
                },
                _ => seq_after == seq_before && after == before,
            },
            GridView::Sequence => self.sequence_button_pressed(
                button_type,
                global_modifier,
                self.pressed_shortly_before(&before, button_type, time_stop),
                seq_before,
                seq_after,
                before,
                after,
            ),
            GridView::Timeline => match button_type {
                ButtonType::Grid(x, y) => {
                    let c = before.channel_shown as int;
                    let timeline = seq_before.channels[c].timeline;
                    let offset = Self::channel_offset_of(self.apc_type);
                    let start = ((offset + x) * 15360 + before.timeline_offset) as u32;
                    let range = TickRange { start, stop: (start + 15360) as u32 };
                    &&& after == before
                    &&& seq_after.channels[c].timeline.phrase_events@ == if global_modifier is None
                        && has_event_starting_in(timeline.phrase_events@, range, y) {
                        without_starting_in(timeline.phrase_events@, range, y)
                    } else {
                        with_complete_event(
                            timeline.phrase_events@,
                            self.timeline_event(&before, x, y, global_modifier),
                            timeline.length_ticks(),
                        )
                    }
                    &&& seq_after.channels[c].patterns == seq_before.channels[c].patterns
                    &&& seq_after.channels[c].phrases == seq_before.channels[c].phrases
                    &&& seq_after.channels[c].playing_notes == seq_before.channels[c].playing_notes
                    &&& forall|j: int| 0 <= j < 16 && j != c ==> #[trigger] seq_after.channels[j] == seq_before.channels[j]
                    &&& seq_after == (Sequencer { channels: seq_after.channels, ..seq_before })
                },
                _ => seq_after == seq_before && after == before,
            },
        }
    }

    /// Whether the second step of a press of `button_type` can be handled without an
    /// arithmetic overflow or an index out of bounds.
    pub open spec fn press_step_defined(
        &self,
        button_type: ButtonType,
        global_modifier: Option<ButtonPress>,
        transport: TransportState,
        sequencer: &Sequencer,
        surface: &Surface,
    ) -> bool {
        match button_type {
            ButtonType::Track(index) => index + Self::channel_offset_of(self.apc_type) <= 255,
            ButtonType::Master => true,
            _ => self.inputevent_defined(
                InputEventType::ButtonPressed(button_type),
                self.modifier_of(*surface, button_type),
                global_modifier,
                transport,
                sequencer,
                surface,
            ),
        }
    }

    /// Whether `seq_after`, `after` and `action` are what the second step of a press of
    /// `button_type` makes of `seq_before` and `before`: channel buttons and the master button
    /// switch what is shown, other buttons are handled by the model.
    pub open spec fn press_step(
        &self,
        button_type: ButtonType,
        global_modifier: Option<ButtonPress>,
        transport: TransportState,
        seq_before: Sequencer,
        seq_after: Sequencer,
        before: Surface,
        after: Surface,
        action: ApcAction,
    ) -> bool {
        match button_type {
            ButtonType::Track(_) | ButtonType::Master => {
                &&& self.view_button_pressed(button_type, before, after)
                &&& seq_after == seq_before
                &&& action is Nothing
            },
            _ => self.inputevent_processed(
                InputEventType::ButtonPressed(button_type),
                self.modifier_of(before, button_type),
                global_modifier,
                transport,
                seq_before,
                seq_after,
                before,
                after,
                action,
            ),
        }
    }

    /// Whether the event can be handled without an arithmetic overflow or an index out of
    /// bounds.
    pub open spec fn midi_input_defined(
        &self,
        event_type: InputEventType,
        time: u64,
        time_stop: u64,
        transport: TransportState,
        sequencer: &Sequencer,
        surface: &Surface,
    ) -> bool {
        let offset = Self::channel_offset_of(self.apc_type);
        match event_type {
            InputEventType::InquiryResponse(_, _) => true,
            InputEventType::FaderMoved { fader_type: FaderType::Track(index), .. } => index + offset <= 255,
            InputEventType::KnobTurned { knob_type: KnobType::Effect(_), .. } => true,
            InputEventType::KnobTurned { value, knob_type: KnobType::Cue } => self.cue_turn_defined(sequencer, surface, value, time),
            InputEventType::ButtonPressed(button_type) => forall|s1: Surface|
                #[trigger] self.pressed_on(*surface, s1, button_type) ==> {
                    &&& self.view_step_defined(
                        button_type,
                        first_other_press(s1.button_memory.pressed(), None, button_type),
                        time_stop,
                        sequencer,
                        &s1,
                    )
                    &&& forall|q: Sequencer, s2: Surface|
                        #[trigger] self.view_step(
                            button_type,
                            first_other_press(s1.button_memory.pressed(), None, button_type),
                            time_stop,
                            *sequencer,
                            q,
                            s1,
                            s2,
                        ) ==> self.press_step_defined(
                            button_type,
                            first_other_press(s1.button_memory.pressed(), None, button_type),
                            transport,
                            &q,
                            &s2,
                        )
                },
            InputEventType::ButtonReleased(_) => true,
            _ => self.inputevent_defined(event_type, None, None, transport, sequencer, surface),
        }
    }

    /// Whether `self_after`, `seq_after`, `after` and `action` are what the event of
    /// `event_type` at `time` (in microseconds; the cycle stopping at `time_stop`) makes of
    /// this controller, `seq_before` and `before`. A reply to our inquiry gives the ids and
    /// restarts the identification with every light unknown; channel faders and effect knobs
    /// are left to the caller; the cue knob moves what is shown; a press is held, handled by
    /// the view and then by channel, master or model buttons; a release is no longer held;
    /// other events are handled by the model. Every event is then remembered.
    pub open spec fn midi_input_processed(
        &self,
        self_after: APCController,
        event_type: InputEventType,
        time: u64,
        time_stop: u64,
        transport: TransportState,
        seq_before: Sequencer,
        seq_after: Sequencer,
        before: Surface,
        after: Surface,
        action: ApcAction,
    ) -> bool {
        let offset = Self::channel_offset_of(self.apc_type);
        match event_type {
            InputEventType::InquiryResponse(local_id, device_id) => {
                &&& self_after.local_id == local_id
                &&& self_after.device_id == device_id
                &&& self_after.identified_cycles == 1
                &&& self_after.apc_type == self.apc_type
                &&& self_after.cue_knob == self.cue_knob
                &&& self_after.master.shown() == 9 && self_after.master.drawing() == self.master.drawing()
                    && self_after.master.button_note() == self.master.button_note()
                &&& self_after.grid.shown() == Seq::new(40, |i: int| 9u8) && self_after.grid.drawing() == self.grid.drawing()
                &&& self_after.side.shown() == Seq::new(5, |i: int| 9u8) && self_after.side.drawing() == self.side.drawing()
                &&& self_after.channel.shown() == Seq::new(8, |i: int| 9u8) && self_after.channel.drawing() == self.channel.drawing()
                    && self_after.channel.row_note() == self.channel.row_note()
                &&& self_after.indicator.shown() == Seq::new(8, |i: int| 9u8) && self_after.indicator.drawing() == self.indicator.drawing()
                    && self_after.indicator.row_note() == self.indicator.row_note()
                &&& self_after.activator.shown() == Seq::new(8, |i: int| 9u8) && self_after.activator.drawing() == self.activator.drawing()
                    && self_after.activator.row_note() == self.activator.row_note()
                &&& self_after.solo.shown() == Seq::new(8, |i: int| 9u8) && self_after.solo.drawing() == self.solo.drawing()
                    && self_after.solo.row_note() == self.solo.row_note()
                &&& seq_after == seq_before
                &&& self.remembered(before, after, time, event_type)
                &&& action is Nothing
            },
            InputEventType::FaderMoved { value, fader_type: FaderType::Track(index) } => {
                &&& self_after == *self
                &&& seq_after == seq_before
                &&& self.remembered(before, after, time, event_type)
                &&& action == ApcAction::FaderMoved { index: (index + offset) as u8, value }
            },
            InputEventType::KnobTurned { value, knob_type: KnobType::Effect(index) } => {
                &&& self_after == *self
                &&& seq_after == seq_before
                &&& self.remembered(before, after, time, event_type)
                &&& action == ApcAction::KnobTurned { index, value }
            },
            InputEventType::KnobTurned { value, knob_type: KnobType::Cue } => exists|s1: Surface|
                {
                    &&& #[trigger] self.cue_turned(&seq_before, before, s1, self_after.cue_knob, value, time)
                    &&& self_after == (APCController { cue_knob: self_after.cue_knob, ..*self })
                    &&& seq_after == seq_before
                    &&& self.remembered(s1, after, time, event_type)
                    &&& action is Nothing
                },
            InputEventType::ButtonPressed(button_type) => exists|s1: Surface, s2: Surface, s3: Surface, q: Sequencer|
                #![trigger self.pressed_on(before, s1, button_type), self.press_step(button_type, first_other_press(s1.button_memory.pressed(), None, button_type), transport, q, seq_after, s2, s3, action)]
                {
                    &&& self.pressed_on(before, s1, button_type)
                    &&& self.view_step(
                        button_type,
                        first_other_press(s1.button_memory.pressed(), None, button_type),
                        time_stop,
                        seq_before,
                        q,
                        s1,
                        s2,
                    )
                    &&& self.press_step(
                        button_type,
                        first_other_press(s1.button_memory.pressed(), None, button_type),
                        transport,
                        q,
                        seq_after,
                        s2,
                        s3,
                        action,
                    )
                    &&& self.remembered(s3, after, time, event_type)
                    &&& self_after == *self
                },
            InputEventType::ButtonReleased(button_type) => exists|s1: Surface|
                {
                    &&& #[trigger] s1.button_memory.pressed() == released(before.button_memory.pressed(), offset, button_type)
                    &&& s1 == (Surface { button_memory: s1.button_memory, ..before })
                    &&& self.remembered(s1, after, time, event_type)
                    &&& self_after == *self
                    &&& seq_after == seq_before
                    &&& action is Nothing
                },
            _ => exists|s1: Surface|
                {
                    &&& #[trigger] self.inputevent_processed(event_type, None, None, transport, seq_before, seq_after, before, s1, action)
                    &&& self.remembered(s1, after, time, event_type)
                    &&& self_after == *self
                },
        }
    }

    /// Handle one input event of this controller, at `time` in microseconds, in a cycle that
    /// stops at `time_stop`, with the transport in state `transport`; gives what is left for
    /// the caller to do.
    pub fn process_midi_input(
        &mut self,
        event: &InputEvent,
        time: u64,
        time_stop: u64,
        transport: TransportState,
        sequencer: &mut Sequencer,
        surface: &mut Surface,
    ) -> (action: ApcAction)
        requires
            old(self).midi_input_defined(event.event_type, time, time_stop, transport, old(sequencer), old(surface)),
        ensures
            old(self).midi_input_processed(
                *final(self),
                event.event_type,
                time,
                time_stop,
                transport,
                *old(sequencer),
                *final(sequencer),
                *old(surface),
                *final(surface),
                action,
            ),
    {
        let offset = self.channel_offset();
        let ghost start = *self;
        let action = match event.event_type {
            InputEventType::InquiryResponse(local_id, device_id) => {
                self.device_id = device_id;
                self.local_id = local_id;
                self.reset_grids();
                self.identified_cycles = 1;
                ApcAction::Nothing
            },
            InputEventType::FaderMoved { value, fader_type: FaderType::Track(index) } => {
                ApcAction::FaderMoved { index: index + offset, value }
            },
            InputEventType::KnobTurned { value, knob_type: KnobType::Effect(index) } => {
                ApcAction::KnobTurned { index, value }
            },
            InputEventType::KnobTurned { value, knob_type: KnobType::Cue } => {
                self.process_cue_turn(value, time, sequencer, surface);
                ApcAction::Nothing
            },
            InputEventType::ButtonPressed(button_type) => {
                surface.button_memory.press(offset, button_type);
                let ghost s1 = *surface;
                let global_modifier = match surface.button_memory.global_modifier(button_type) {
                    Some(press) => Some(*press),
                    None => None,
                };
                assert(self.pressed_on(*old(surface), s1, button_type));
                match surface.view {
                    GridView::Channel => {
                        if let ButtonType::Solo(index) = button_type {
                            let zoom_level = index + 1;
                            if zoom_level != 7 {
                                self.set_loopable_zoom_level(sequencer, surface, zoom_level);
                            }
                        }
                    },
                    GridView::Sequence => {
                        self.process_sequence_button(button_type, global_modifier, time_stop, sequencer, surface);
                    },
                    GridView::Timeline => {
                        if let ButtonType::Grid(x, y) = button_type {
                            self.process_timeline_button(x, y, global_modifier, sequencer, surface);
                        }
                    },
                }
                let ghost q = *sequencer;
                let ghost s2 = *surface;
                assert(self.view_step(button_type, global_modifier, time_stop, *old(sequencer), q, s1, s2));
                let action = match button_type {
                    ButtonType::Track(_) | ButtonType::Master => {
                        self.process_view_button(button_type, surface);
                        ApcAction::Nothing
                    },
                    _ => {
                        let modifier = surface.button_memory.modifier(offset, button_type);
                        self.process_inputevent(event.event_type, modifier, global_modifier, transport, sequencer, surface)
                    },
                };
                let ghost s3 = *surface;
                assert(self.press_step(button_type, global_modifier, transport, q, *sequencer, s2, s3, action));
                action
            },
            InputEventType::ButtonReleased(button_type) => {
                surface.button_memory.release(offset, time, button_type);
                ApcAction::Nothing
            },
            _ => {
                self.process_inputevent(event.event_type, None, None, transport, sequencer, surface)
            },
        };
        surface.event_memory.register_event(offset, time, event.event_type);
        action
    }

    /// What a press of grid button `x`, `y` does to `loopable`, whose buttons stand for
    /// `ticks_per_button` ticks from `offset`: with no other button held, it removes the
    /// events on row `row` that start under the button, if there are any, and gives `None`.
    /// Otherwise it gives the ticks of the button, reaching back to the start of the held grid
    /// button when that is on the same row.
    pub fn should_add_event<L: Loopable>(
        &self,
        loopable: &mut L,
        modifier: Option<ButtonType>,
        ticks_per_button: u32,
        x: u8,
        y: u8,
        offset: u32,
        row: u8,
    ) -> (r: Option<TickRange>)
        requires
            x * ticks_per_button + offset + ticks_per_button <= u32::MAX,
            modifier matches Some(ButtonType::Grid(mod_x, mod_y)) ==> mod_y == y ==> mod_x
                * ticks_per_button + offset <= u32::MAX,
        ensures
            ({
                let start = (x * ticks_per_button + offset) as u32;
                let range = TickRange { start, stop: (start + ticks_per_button) as u32 };
                if modifier is None && has_event_starting_in(old(loopable).event_seq(), range, row) {
                    &&& r is None
                    &&& final(loopable).event_seq() == without_starting_in(old(loopable).event_seq(), range, row)
                    &&& final(loopable).length_setting() == old(loopable).length_setting()
                } else {
                    &&& *final(loopable) == *old(loopable)
                    &&& r == Some(TickRange {
                        start: match modifier {
                            Some(ButtonType::Grid(mod_x, mod_y)) => if mod_y == y {
                                (mod_x * ticks_per_button + offset) as u32
                            } else {
                                start
                            },
                            _ => start,
                        },
                        stop: range.stop,
                    })
                }
            }),
    {
        let start = x as u32 * ticks_per_button + offset;
        let mut tick_range = TickRange::new(start, start + ticks_per_button);
        let contains = loopable.contains_events_starting_in(tick_range, row);
        if modifier.is_none() && contains {
            loopable.remove_events_starting_in(tick_range, row);
            None
        } else {
            if let Some(ButtonType::Grid(mod_x, mod_y)) = modifier {
                if mod_y == y {
                    tick_range.start = mod_x as u32 * ticks_per_button + offset;
                }
            }
            Some(tick_range)
        }
    }

    /// Draw `value` at column `x` of the main grid, when `x` is not left of it.
    pub fn try_draw_to_grid(&mut self, x: i32, y: u8, value: u8)
        ensures
            final(self).grid.drawing() == grid_try_draw(old(self).grid.drawing(), x, y, value),
            final(self).grid.shown() == old(self).grid.shown(),
            *final(self) == (APCController { grid: final(self).grid, ..*old(self) }),
            final(self).apc_type == old(self).apc_type,
    {
        if x >= 0 {
            self.grid.draw(x as u8, y, value);
        }
    }

    /// Draw `color` on row `y` at every column from `start` up to, not including, `stop`.
    pub fn draw_tail(&mut self, start: i32, stop: i32, y: u8, color: u8)
        ensures
            final(self).grid.drawing() == grid_tail(old(self).grid.drawing(), start as int, stop as int, y, color),
            final(self).grid.shown() == old(self).grid.shown(),
            *final(self) == (APCController { grid: final(self).grid, ..*old(self) }),
            final(self).apc_type == old(self).apc_type,
    {
        let mut x = start;
        while x < stop
            invariant
                start <= x <= stop || (x == start && start >= stop),
                grid_tail(old(self).grid.drawing(), start as int, stop as int, y, color) == grid_tail(
                    self.grid.drawing(),
                    x as int,
                    stop as int,
                    y,
                    color,
                ),
                self.grid.shown() == old(self).grid.shown(),
                self.apc_type == old(self).apc_type,
                *self == (APCController { grid: self.grid, ..*old(self) }),
            decreases stop - x,
        {
            self.try_draw_to_grid(x, y, color);
            x = x + 1;
        }
    }

    /// Draw the events among `events` that the grid shows from `offset_x`, with
    /// `ticks_in_grid` ticks over its 8 columns, their rows counted from `offset_y`.
    pub fn draw_loopable_events<E: LoopableEvent>(
        &mut self,
        events: &Vec<E>,
        offset_x: u32,
        offset_y: u8,
        ticks_in_grid: u32,
        head_color: u8,
        tail_color: u8,
    )
        requires
            ticks_in_grid >= 8,
            offset_x + ticks_in_grid <= u32::MAX,
            offset_x <= i32::MAX,
            events_drawable(events@, offset_x, offset_y, ticks_in_grid),
        ensures
            final(self).grid.drawing() == grid_events(
                old(self).grid.drawing(),
                events@,
                offset_x,
                offset_y,
                ticks_in_grid,
                head_color,
                tail_color,
            ),
            final(self).grid.shown() == old(self).grid.shown(),
            *final(self) == (APCController { grid: final(self).grid, ..*old(self) }),
            final(self).apc_type == old(self).apc_type,
    {
        let grid_stop = offset_x + ticks_in_grid;
        let ticks_per_button = (ticks_in_grid / 8) as i32;
        let mut i: usize = 0;
        while i < events.len()
            invariant
                0 <= i <= events@.len(),
                grid_stop == offset_x + ticks_in_grid,
                ticks_in_grid >= 8,
                ticks_per_button == ticks_in_grid / 8,
                offset_x <= i32::MAX,
                events_drawable(events@, offset_x, offset_y, ticks_in_grid),
                self.grid.drawing() == grid_events(
                    old(self).grid.drawing(),
                    events@.take(i as int),
                    offset_x,
                    offset_y,
                    ticks_in_grid,
                    head_color,
                    tail_color,
                ),
                self.grid.shown() == old(self).grid.shown(),
                self.apc_type == old(self).apc_type,
                *self == (APCController { grid: self.grid, ..*old(self) }),
            decreases events@.len() - i,
        {
            assert(events@.take(i + 1).drop_last() =~= events@.take(i as int));
            let event = &events[i];
            assert(events@[i as int] == *event);
            let grid_contains_event = event.start() < grid_stop && match event.stop() {
                None => true,
                Some(stop) => stop > offset_x,
            };
            if grid_contains_event || event.is_looping() {
                assert(trunc_div(event.start_tick() - offset_x, ticks_per_button as int) < i32::MAX) by (nonlinear_arith)
                    requires
                        event.start_tick() < i32::MAX,
                        ticks_per_button >= 1,
                ;
                let start_button = (event.start() as i32 - offset_x as i32) / ticks_per_button;
                let stop_button = match event.stop() {
                    None => start_button + 1,
                    Some(stop) => (stop as i32 - offset_x as i32) / ticks_per_button,
                };
                let row = event.row(offset_y);
                let head = start_button;
                self.try_draw_to_grid(head, row, head_color);
                if stop_button >= start_button {
                    self.draw_tail(start_button + 1, stop_button, row, tail_color);
                } else {
                    self.draw_tail(start_button + 1, 8, row, tail_color);
                    self.draw_tail(0, stop_button, row, tail_color);
                }
            }
            i += 1;
        }
        assert(events@.take(i as int) =~= events@);
    }
}

} // verus!
