use vstd::prelude::*;

use crate::cycle::Cycle;
use crate::events::LoopableNoteEvent;
use crate::note::Note;
use crate::playable::{Playable, PlayableModel, all_note_leds, note_leds_defined, ticks_offset_of, ticks_per_led_of};
use crate::TICKS_PER_BEAT;

verus! {

/// A note of a pattern as it is recorded.
pub type NoteEvent = LoopableNoteEvent;

/// A pattern played inside a phrase between two ticks.
#[derive(Debug, Clone, Copy)]
pub struct PlayedPattern {
    /// Index in the instrument's patterns
    pub index: usize,
    pub start: u32,
    pub end: u32,
}

/// A pattern of an instrument playing between two ticks.
#[derive(Debug, Clone, Copy)]
pub struct PlayingPattern {
    pub instrument: usize,
    pub pattern: usize,
    pub start: u32,
    pub end: u32,
}

/// The values a pattern holds.
pub struct PatternModel {
    pub note_events: Seq<NoteEvent>,
    pub playable: PlayableModel,
    pub channel: u8,
    pub notes: Seq<Note>,
    pub base_note: u8,
    pub is_recording: bool,
}

/// The base note a pattern starts with, shown in the centre of the grid.
pub open spec fn default_base_note() -> u8 {
    49
}

/// Ticks in one bar.
pub open spec fn bar_ticks() -> u32 {
    (TICKS_PER_BEAT * 4) as u32
}

/// A pattern of notes of an instrument.
#[derive(Clone)]
pub struct Pattern {
    note_events: Vec<NoteEvent>,
    pub playable: Playable,
    channel: u8,
    pub notes: Vec<Note>,
    pub base_note: u8,
    pub is_recording: bool,
}

/// The grid coordinates of the notes: start tick, end tick and row below the base note.
pub open spec fn note_coordinates(notes: Seq<Note>, base_note: u8) -> Seq<(u32, u32, i32)> {
    notes.map_values(|n: Note| (n.start, n.end, (base_note - n.key) as i32))
}

/// The notes of a pattern that start inside the cycle and before `end`, with the tick at
/// which they start counted from the start of the cycle; the pattern starts at `start`.
pub open spec fn notes_playing_in(notes: Seq<Note>, cycle: Cycle, start: u32, end: u32) -> Seq<(u32, Note)>
    decreases notes.len(),
{
    if notes.len() == 0 {
        Seq::empty()
    } else {
        let rest = notes_playing_in(notes.drop_last(), cycle, start, end);
        let note = notes.last();
        let note_start = note.start + start;
        if note_start >= cycle.start && note_start < cycle.end && note_start < end {
            rest.push(((note_start - cycle.start) as u32, note))
        } else {
            rest
        }
    }
}

/// `tick` moved to the nearest multiple of a beat divided by `quantize_level`; halfway
/// rounds up.
pub open spec fn quantized(tick: u32, quantize_level: u8) -> int {
    let step = TICKS_PER_BEAT as int / quantize_level as int;
    let offset = tick as int % step;
    if offset < step / 2 {
        tick - offset
    } else {
        tick - offset + step
    }
}

impl View for Pattern {
    type V = PatternModel;

    closed spec fn view(&self) -> PatternModel {
        PatternModel {
            note_events: self.note_events@,
            playable: self.playable@,
            channel: self.channel,
            notes: self.notes@,
            base_note: self.base_note,
            is_recording: self.is_recording,
        }
    }
}

impl Pattern {
    const BASE_NOTE: u8 = 49;

    fn create(channel: u8, notes: Vec<Note>) -> (r: Self)
        ensures
            r@ == (PatternModel {
                note_events: Seq::empty(),
                playable: PlayableModel {
                    minimum_length: bar_ticks(),
                    length: bar_ticks(),
                    zoom: 1,
                    offset: 0,
                    head: 1,
                    tail: 5,
                },
                channel,
                notes: notes@,
                base_note: default_base_note(),
                is_recording: false,
            }),
    {
        Pattern {
            note_events: Vec::new(),
            playable: Playable::new(TICKS_PER_BEAT * 4, TICKS_PER_BEAT * 4, 1, 5),
            channel,
            notes,
            base_note: Self::BASE_NOTE,
            is_recording: false,
        }
    }

    /// An empty pattern one bar long on `channel`.
    pub fn new(channel: u8) -> (r: Self)
        ensures
            r@ == (PatternModel {
                note_events: Seq::empty(),
                playable: PlayableModel {
                    minimum_length: bar_ticks(),
                    length: bar_ticks(),
                    zoom: 1,
                    offset: 0,
                    head: 1,
                    tail: 5,
                },
                channel,
                notes: Seq::empty(),
                base_note: default_base_note(),
                is_recording: false,
            }),
    {
        Pattern::create(channel, Vec::new())
    }

    /// Length in ticks of the pattern's playable.
    pub(crate) fn playable_length(&self) -> (r: u32)
        ensures
            r == self@.playable.length,
    {
        self.playable.length
    }

    pub fn clear_note_events(&mut self)
        ensures
            final(self)@ == (PatternModel { note_events: Seq::empty(), ..old(self)@ }),
    {
        self.note_events = Vec::new();
    }

    pub fn add_note_event(&mut self, event: NoteEvent)
        ensures
            final(self)@ == (PatternModel {
                note_events: old(self)@.note_events.push(event),
                ..old(self)@
            }),
    {
        self.note_events.push(event)
    }

    /// The leds of the notes, each on the row of its key below the base note.
    pub fn led_states(&mut self) -> (r: Vec<(i32, i32, u8)>)
        requires
            old(self)@.playable.zoom > 0,
            ticks_per_led_of(old(self)@.playable) > 0,
            ticks_offset_of(old(self)@.playable) <= u32::MAX,
            forall|i: int|
                0 <= i < old(self)@.notes.len() ==> note_leds_defined(
                    old(self)@.playable,
                    (#[trigger] old(self)@.notes[i]).start,
                    old(self)@.notes[i].end,
                ),
        ensures
            final(self)@ == old(self)@,
            r@ == all_note_leds(
                old(self)@.playable,
                note_coordinates(old(self)@.notes, old(self)@.base_note),
            ),
    {
        let mut coords: Vec<(u32, u32, i32)> = Vec::new();
        let mut i: usize = 0;
        while i < self.notes.len()
            invariant
                0 <= i <= self.notes@.len(),
                coords@ =~= note_coordinates(self.notes@.take(i as int), self.base_note),
            decreases self.notes@.len() - i,
        {
            let note = self.notes[i];
            coords.push((note.start, note.end, self.base_note as i32 - note.key as i32));
            proof {
                assert(note_coordinates(self.notes@.take(i + 1), self.base_note) =~= note_coordinates(
                    self.notes@.take(i as int),
                    self.base_note,
                ).push((note.start, note.end, (self.base_note - note.key) as i32)));
            }
            i += 1;
        }
        assert(self.notes@.take(i as int) =~= self.notes@);
        assert forall|k: int| 0 <= k < coords@.len() implies note_leds_defined(
            self.playable@,
            #[trigger] coords@[k].0,
            coords@[k].1,
        ) by {
            assert(coords@[k].0 == self@.notes[k].start);
        }
        self.playable.led_states(coords)
    }

    /// Back to the default base note, without notes.
    pub fn reset(&mut self)
        ensures
            final(self)@ == (PatternModel {
                base_note: default_base_note(),
                notes: Seq::empty(),
                ..old(self)@
            }),
    {
        self.base_note = Self::BASE_NOTE;
        self.notes = Vec::new();
    }

    /// Move the base note by `delta` when it stays between notes 25 and 127.
    pub fn change_base_note(&mut self, delta: i32)
        requires
            old(self)@.base_note + delta <= i32::MAX,
            old(self)@.base_note + delta >= i32::MIN,
        ensures
            ({
                let base_note = old(self)@.base_note + delta;
                final(self)@ == if 25 <= base_note <= 127 {
                    PatternModel { base_note: base_note as u8, ..old(self)@ }
                } else {
                    old(self)@
                }
            }),
    {
        let base_note = self.base_note as i32 + delta;
        if base_note >= 25 && base_note <= 127 {
            self.base_note = base_note as u8;
        }
    }

    /// Start or stop recording notes from input into the pattern.
    pub fn switch_recording_state(&mut self)
        ensures
            final(self)@ == (PatternModel { is_recording: !old(self)@.is_recording, ..old(self)@ }),
    {
        self.is_recording = !self.is_recording;
    }

    /// `tick` moved to the nearest multiple of a beat divided by `quantize_level`.
    pub fn quantize(&self, tick: u32, quantize_level: u8) -> (r: u32)
        requires
            0 < quantize_level as int <= TICKS_PER_BEAT,
            quantized(tick, quantize_level) <= u32::MAX,
        ensures
            r == quantized(tick, quantize_level),
    {
        let quantize_by_ticks = TICKS_PER_BEAT / quantize_level as u32;
        assert(quantize_by_ticks >= 1) by (nonlinear_arith)
            requires
                quantize_by_ticks == 1920int / quantize_level as int,
                0 < quantize_level <= 1920,
        ;
        let offset = tick % quantize_by_ticks;
        assert(offset <= tick) by (nonlinear_arith)
            requires
                offset == tick % quantize_by_ticks,
                quantize_by_ticks >= 1,
        ;
        if offset < quantize_by_ticks / 2 {
            tick - offset
        } else {
            (tick - offset) + quantize_by_ticks
        }
    }

    /// The notes starting in the cycle and before `end` when the pattern starts at `start`,
    /// each with its tick counted from the cycle's start.
    pub fn playing_notes(&self, cycle: &Cycle, start: u32, end: u32) -> (r: Vec<(u32, &Note)>)
        requires
            forall|i: int| 0 <= i < self@.notes.len() ==> (#[trigger] self@.notes[i]).start + start <= u32::MAX,
        ensures
            r@.map_values(|p: (u32, &Note)| (p.0, *p.1)) == notes_playing_in(self@.notes, *cycle, start, end),
    {
        let mut playing: Vec<(u32, &Note)> = Vec::new();
        let mut i: usize = 0;
        while i < self.notes.len()
            invariant
                0 <= i <= self.notes@.len(),
                forall|j: int| 0 <= j < self@.notes.len() ==> (#[trigger] self@.notes[j]).start + start <= u32::MAX,
                self@.notes == self.notes@,
                playing@.map_values(|p: (u32, &Note)| (p.0, *p.1)) == notes_playing_in(
                    self.notes@.take(i as int),
                    *cycle,
                    start,
                    end,
                ),
            decreases self.notes@.len() - i,
        {
            assert(self.notes@.take(i + 1).drop_last() =~= self.notes@.take(i as int));
            let note = &self.notes[i];
            let note_start = note.start + start;
            if note_start >= cycle.start && note_start < cycle.end && note_start < end {
                let delta_ticks = note_start - cycle.start;
                let ghost before = playing@;
                playing.push((delta_ticks, note));
                assert(playing@.map_values(|p: (u32, &Note)| (p.0, *p.1)) =~= before.map_values(
                    |p: (u32, &Note)| (p.0, *p.1),
                ).push((delta_ticks, *note)));
            }
            i += 1;
        }
        assert(self.notes@.take(i as int) =~= self.notes@);
        playing
    }
}

} // verus!
