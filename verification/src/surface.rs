use vstd::prelude::*;

use crate::controller::input::{ButtonType, FaderType, InputEvent, InputEventType, KnobType};
use crate::controller::Controller;
use crate::loopable::Loopable;
use crate::memory::{accepted_by, any_filter, filters_callable, filters_decide};
use crate::sequencer::{timeline_end_of, Sequencer};

verus! {

/// What the grid of the controllers shows.
#[derive(Debug, PartialEq, Eq, Structural, Clone, Copy)]
pub enum GridView {
    Channel,
    Sequence,
    Timeline,
}

/// The largest offset showing `length` ticks through a grid of `in_grid` ticks.
pub open spec fn max_offset(length: u32, in_grid: u32) -> u32 {
    if in_grid < length {
        (length - in_grid) as u32
    } else {
        0
    }
}

/// `ticks` rounded down to a whole button of `per_button` ticks, but no further than `max`.
pub open spec fn snapped_offset(ticks: u32, per_button: u32, max: u32) -> u32 {
    let adjusted = (ticks / per_button) * per_button;
    if adjusted < max {
        adjusted as u32
    } else {
        max
    }
}

/// What is shown on the controllers, and what they remember of their input.
pub struct Surface {
    pub controllers: Vec<Controller>,
    pub view: GridView,
    pub button_memory: ButtonMemory,
    pub event_memory: EventMemory,
    pub channel_shown: u8,
    pub sequence_shown: u8,
    pub timeline_offset: u32,
    pub phrase_shown: [u8; 16],
    pub phrase_zoom_level: u8,
    pub phrase_offsets: [u32; 16],
    pub pattern_shown: [u8; 16],
    pub pattern_zoom_level: u8,
    pub pattern_offsets: [u32; 16],
    pub pattern_base_notes: [u8; 16],
}

impl Surface {
    pub const PATTERN_TICKS_PER_BUTTON: u32 = 3840;
    pub const PHRASE_TICKS_PER_BUTTON: u32 = 15360;
    pub const TIMELINE_TICKS_PER_BUTTON: u32 = 15360;

    /// Ticks a button stands for in the shown patterns.
    pub open spec fn pattern_button_ticks(&self) -> u32 {
        (3840int / (self.pattern_zoom_level as int)) as u32
    }

    /// Ticks a button stands for in the shown phrases.
    pub open spec fn phrase_button_ticks(&self) -> u32 {
        (15360int / (self.phrase_zoom_level as int)) as u32
    }

    /// Largest timeline offset, for the timelines of `sequencer`.
    pub open spec fn timeline_offset_max(&self, sequencer: &Sequencer) -> u32 {
        max_offset((timeline_end_of(sequencer.channels@, 16) + 15360 * 12) as u32, 245760u32)
    }

    /// Largest offset of the pattern shown for channel `c`.
    pub open spec fn pattern_offset_max(&self, sequencer: &Sequencer, c: int) -> u32 {
        max_offset(
            sequencer.channels[c].patterns[self.pattern_shown[c] as int].length_ticks(),
            (self.pattern_button_ticks() * 8) as u32,
        )
    }

    /// Largest offset of the phrase shown for channel `c`.
    pub open spec fn phrase_offset_max(&self, sequencer: &Sequencer, c: int) -> u32 {
        max_offset(
            sequencer.channels[c].phrases[self.phrase_shown[c] as int].length_ticks(),
            (self.phrase_button_ticks() * 8) as u32,
        )
    }

    /// Whether the pattern shown for channel `c` exists and its length can be computed.
    pub open spec fn shown_pattern_defined(&self, sequencer: &Sequencer, c: int) -> bool {
        &&& self.pattern_shown[c] < 5
        &&& sequencer.channels[c].patterns[self.pattern_shown[c] as int].length_defined()
    }

    /// Channel view of channel 0, sequence 0 and the timeline from its start; every channel
    /// shows its first phrase and pattern from the start at zoom level 4, patterns from
    /// middle C.
    pub fn new() -> (r: Self)
        ensures
            r.controllers@.len() == 0,
            r.view == GridView::Channel,
            r.button_memory.pressed() == Seq::<ButtonPress>::empty(),
            r.event_memory.occurred() == Seq::<OccurredInputEvent>::empty(),
            r.channel_shown == 0,
            r.sequence_shown == 0,
            r.timeline_offset == 0,
            r.phrase_shown@ == Seq::new(16, |i: int| 0u8),
            r.phrase_zoom_level == 4,
            r.phrase_offsets@ == Seq::new(16, |i: int| 0u32),
            r.pattern_shown@ == Seq::new(16, |i: int| 0u8),
            r.pattern_zoom_level == 4,
            r.pattern_offsets@ == Seq::new(16, |i: int| 0u32),
            r.pattern_base_notes@ == Seq::new(16, |i: int| 60u8),
    {
        let r = Surface {
            controllers: Vec::new(),
            view: GridView::Channel,
            button_memory: ButtonMemory::new(),
            event_memory: EventMemory::new(),
            channel_shown: 0,
            sequence_shown: 0,
            timeline_offset: 0,
            phrase_shown: [0; 16],
            phrase_zoom_level: 4,
            phrase_offsets: [0; 16],
            pattern_shown: [0; 16],
            pattern_zoom_level: 4,
            pattern_offsets: [0; 16],
            pattern_base_notes: [60; 16],
        };
        assert(r.phrase_shown@ =~= Seq::new(16, |i: int| 0u8));
        assert(r.phrase_offsets@ =~= Seq::new(16, |i: int| 0u32));
        assert(r.pattern_shown@ =~= Seq::new(16, |i: int| 0u8));
        assert(r.pattern_offsets@ =~= Seq::new(16, |i: int| 0u32));
        assert(r.pattern_base_notes@ =~= Seq::new(16, |i: int| 60u8));
        r
    }

    pub fn switch_view(&mut self, view: GridView)
        ensures
            *final(self) == (Surface { view, ..*old(self) }),
    {
        self.view = view;
    }

    pub fn show_channel(&mut self, index: u8)
        ensures
            *final(self) == (Surface { channel_shown: index, ..*old(self) }),
    {
        self.channel_shown = index;
    }

    pub fn channel_shown(&self) -> (r: usize)
        ensures
            r == self.channel_shown,
    {
        self.channel_shown as usize
    }

    pub fn show_sequence(&mut self, index: u8)
        ensures
            *final(self) == (Surface { sequence_shown: index, ..*old(self) }),
    {
        self.sequence_shown = index;
    }

    pub fn sequence_shown(&self) -> (r: usize)
        ensures
            r == self.sequence_shown,
    {
        self.sequence_shown as usize
    }

    pub fn phrase_shown(&self, channel_index: usize) -> (r: u8)
        requires
            channel_index < 16,
        ensures
            r == self.phrase_shown[channel_index as int],
    {
        self.phrase_shown[channel_index]
    }

    pub fn show_phrase(&mut self, channel_index: usize, index: u8)
        requires
            channel_index < 16,
        ensures
            final(self).phrase_shown@ == old(self).phrase_shown@.update(channel_index as int, index),
            *final(self) == (Surface { phrase_shown: final(self).phrase_shown, ..*old(self) }),
    {
        self.phrase_shown[channel_index] = index;
    }

    pub fn pattern_shown(&self, channel_index: usize) -> (r: u8)
        requires
            channel_index < 16,
        ensures
            r == self.pattern_shown[channel_index as int],
    {
        self.pattern_shown[channel_index]
    }

    pub fn show_pattern(&mut self, channel_index: usize, index: u8)
        requires
            channel_index < 16,
        ensures
            final(self).pattern_shown@ == old(self).pattern_shown@.update(channel_index as int, index),
            *final(self) == (Surface { pattern_shown: final(self).pattern_shown, ..*old(self) }),
    {
        self.pattern_shown[channel_index] = index;
    }

    /// Ticks a grid button stands for in the shown patterns: two beats, divided by the zoom
    /// level.
    pub fn pattern_ticks_per_button(&self) -> (r: u32)
        requires
            self.pattern_zoom_level > 0,
        ensures
            r == self.pattern_button_ticks(),
    {
        Self::PATTERN_TICKS_PER_BUTTON / self.pattern_zoom_level as u32
    }

    pub fn pattern_ticks_in_grid(&self) -> (r: u32)
        requires
            self.pattern_zoom_level > 0,
        ensures
            r == self.pattern_button_ticks() * 8,
    {
        self.pattern_ticks_per_button() * 8
    }

    /// Ticks a grid button stands for in the shown phrases: two bars, divided by the zoom
    /// level.
    pub fn phrase_ticks_per_button(&self) -> (r: u32)
        requires
            self.phrase_zoom_level > 0,
        ensures
            r == self.phrase_button_ticks(),
    {
        Self::PHRASE_TICKS_PER_BUTTON / self.phrase_zoom_level as u32
    }

    pub fn phrase_ticks_in_grid(&self) -> (r: u32)
        requires
            self.phrase_zoom_level > 0,
        ensures
            r == self.phrase_button_ticks() * 8,
    {
        self.phrase_ticks_per_button() * 8
    }

    /// The timeline spans the grids of two controllers.
    pub fn timeline_ticks_in_grid(&self) -> (r: u32)
        ensures
            r == 15360 * 16,
    {
        Self::TIMELINE_TICKS_PER_BUTTON * 16
    }

    pub fn timeline_offset(&self) -> (r: u32)
        ensures
            r == self.timeline_offset,
    {
        self.timeline_offset
    }

    /// Show the timeline from `offset`, rounded down to a button, but no further than its
    /// largest offset.
    pub fn set_timeline_offset(&mut self, sequencer: &Sequencer, offset: u32)
        requires
            timeline_end_of(sequencer.channels@, 16) + 15360 * 12 <= u32::MAX,
        ensures
            *final(self) == (Surface {
                timeline_offset: snapped_offset(offset, 15360, old(self).timeline_offset_max(sequencer)),
                ..*old(self)
            }),
    {
        let max_offset = self.max_timeline_offset(sequencer);
        let adjusted_offset = (offset / Self::TIMELINE_TICKS_PER_BUTTON) * Self::TIMELINE_TICKS_PER_BUTTON;
        self.timeline_offset = if adjusted_offset < max_offset {
            adjusted_offset
        } else {
            max_offset
        };
    }

    /// The timeline shown: up to its end, and 12 buttons more.
    pub fn get_timeline_length(&self, sequencer: &Sequencer) -> (r: u32)
        requires
            timeline_end_of(sequencer.channels@, 16) + 15360 * 12 <= u32::MAX,
        ensures
            r == timeline_end_of(sequencer.channels@, 16) + 15360 * 12,
    {
        let timeline_end = sequencer.get_timeline_end();
        timeline_end + Self::TIMELINE_TICKS_PER_BUTTON * 12
    }

    pub fn max_timeline_offset(&self, sequencer: &Sequencer) -> (r: u32)
        requires
            timeline_end_of(sequencer.channels@, 16) + 15360 * 12 <= u32::MAX,
        ensures
            r == self.timeline_offset_max(sequencer),
    {
        let timeline_length = self.get_timeline_length(sequencer);
        if self.timeline_ticks_in_grid() < timeline_length {
            timeline_length - self.timeline_ticks_in_grid()
        } else {
            0
        }
    }

    pub fn pattern_offset(&self, index: usize) -> (r: u32)
        requires
            index < 16,
        ensures
            r == self.pattern_offsets[index as int],
    {
        self.pattern_offsets[index]
    }

    /// Largest offset of the pattern shown for `channel_index`: its length less what the
    /// grid shows.
    pub fn max_pattern_offset(&self, sequencer: &Sequencer, channel_index: usize) -> (r: u32)
        requires
            channel_index < 16,
            self.pattern_zoom_level > 0,
            self.shown_pattern_defined(sequencer, channel_index as int),
        ensures
            r == self.pattern_offset_max(sequencer, channel_index as int),
    {
        let pattern_length = sequencer.channel(channel_index).pattern(self.pattern_shown(channel_index)).length();
        if self.pattern_ticks_in_grid() < pattern_length {
            pattern_length - self.pattern_ticks_in_grid()
        } else {
            0
        }
    }

    /// Show the pattern of `channel_index` from `ticks`, rounded down to a button, but no
    /// further than its largest offset.
    pub fn set_pattern_offset(&mut self, sequencer: &Sequencer, channel_index: usize, ticks: u32)
        requires
            channel_index < 16,
            0 < old(self).pattern_zoom_level,
            old(self).shown_pattern_defined(sequencer, channel_index as int),
        ensures
            final(self).pattern_offsets@ == old(self).pattern_offsets@.update(
                channel_index as int,
                snapped_offset(
                    ticks,
                    old(self).pattern_button_ticks(),
                    old(self).pattern_offset_max(sequencer, channel_index as int),
                ),
            ),
            *final(self) == (Surface { pattern_offsets: final(self).pattern_offsets, ..*old(self) }),
    {
        let max_offset = self.max_pattern_offset(sequencer, channel_index);
        let per_button = self.pattern_ticks_per_button();
        assert(3840int / (self.pattern_zoom_level as int) > 0) by (nonlinear_arith)
            requires
                0 < self.pattern_zoom_level <= 255,
        ;
        assert((ticks / per_button) * per_button <= ticks) by (nonlinear_arith)
            requires
                per_button > 0,
        ;
        let adjusted_offset = (ticks / per_button) * per_button;
        self.pattern_offsets[channel_index] = if adjusted_offset < max_offset {
            adjusted_offset
        } else {
            max_offset
        };
    }

    pub fn pattern_zoom_level(&self) -> (r: u8)
        ensures
            r == self.pattern_zoom_level,
    {
        self.pattern_zoom_level
    }

    /// Zoom the shown patterns to `level`, keeping each offset within its new largest offset.
    pub fn set_pattern_zoom_level(&mut self, sequencer: &Sequencer, level: u8)
        requires
            level > 0,
            forall|c: int| 0 <= c < 16 ==> old(self).shown_pattern_defined(sequencer, c),
        ensures
            final(self).pattern_zoom_level == level,
            forall|c: int|
                0 <= c < 16 ==> #[trigger] final(self).pattern_offsets[c] == snapped_offset(
                    old(self).pattern_offsets[c],
                    final(self).pattern_button_ticks(),
                    final(self).pattern_offset_max(sequencer, c),
                ),
            *final(self) == (Surface {
                pattern_zoom_level: level,
                pattern_offsets: final(self).pattern_offsets,
                ..*old(self)
            }),
    {
        self.pattern_zoom_level = level;
        let mut channel_index: usize = 0;
        while channel_index < 16
            invariant
                0 <= channel_index <= 16,
                level > 0,
                *self == (Surface {
                    pattern_zoom_level: level,
                    pattern_offsets: self.pattern_offsets,
                    ..*old(self)
                }),
                forall|c: int| 0 <= c < 16 ==> old(self).shown_pattern_defined(sequencer, c),
                forall|c: int|
                    0 <= c < channel_index ==> #[trigger] self.pattern_offsets[c] == snapped_offset(
                        old(self).pattern_offsets[c],
                        self.pattern_button_ticks(),
                        self.pattern_offset_max(sequencer, c),
                    ),
                forall|c: int| channel_index <= c < 16 ==> #[trigger] self.pattern_offsets[c] == old(self).pattern_offsets[c],
            decreases 16 - channel_index,
        {
            let offset = self.pattern_offset(channel_index);
            assert(old(self).shown_pattern_defined(sequencer, channel_index as int));
            self.set_pattern_offset(sequencer, channel_index, offset);
            channel_index += 1;
        }
    }

    pub fn pattern_base_note(&self, index: usize) -> (r: u8)
        requires
            index < 16,
        ensures
            r == self.pattern_base_notes[index as int],
    {
        self.pattern_base_notes[index]
    }

    /// Show the pattern of `channel_index` from `base_note`, when that keeps the grid between
    /// notes 22 and 125.
    pub fn set_pattern_base_note(&mut self, channel_index: usize, base_note: u8)
        requires
            channel_index < 16,
        ensures
            22 <= base_note <= 118 ==> final(self).pattern_base_notes@ == old(self).pattern_base_notes@.update(
                channel_index as int,
                base_note,
            ),
            !(22 <= base_note <= 118) ==> final(self).pattern_base_notes == old(self).pattern_base_notes,
            *final(self) == (Surface { pattern_base_notes: final(self).pattern_base_notes, ..*old(self) }),
    {
        if base_note <= 118 && base_note >= 22 {
            self.pattern_base_notes[channel_index] = base_note;
        }
    }

    pub fn phrase_offset(&self, channel_index: usize) -> (r: u32)
        requires
            channel_index < 16,
        ensures
            r == self.phrase_offsets[channel_index as int],
    {
        self.phrase_offsets[channel_index]
    }

    /// Largest offset of the phrase shown for `channel_index`: its length less what the grid
    /// shows.
    pub fn max_phrase_offset(&self, sequencer: &Sequencer, channel_index: usize) -> (r: u32)
        requires
            channel_index < 16,
            self.phrase_zoom_level > 0,
            self.phrase_shown[channel_index as int] < 5,
        ensures
            r == self.phrase_offset_max(sequencer, channel_index as int),
    {
        let phrase_length = sequencer.channel(channel_index).phrase(self.phrase_shown(channel_index)).length();
        if self.phrase_ticks_in_grid() < phrase_length {
            phrase_length - self.phrase_ticks_in_grid()
        } else {
            0
        }
    }

    /// Show the phrase of `channel_index` from `ticks`, rounded down to a button, but no
    /// further than its largest offset.
    pub fn set_phrase_offset(&mut self, sequencer: &Sequencer, channel_index: usize, ticks: u32)
        requires
            channel_index < 16,
            0 < old(self).phrase_zoom_level,
            old(self).phrase_shown[channel_index as int] < 5,
        ensures
            final(self).phrase_offsets@ == old(self).phrase_offsets@.update(
                channel_index as int,
                snapped_offset(
                    ticks,
                    old(self).phrase_button_ticks(),
                    old(self).phrase_offset_max(sequencer, channel_index as int),
                ),
            ),
            *final(self) == (Surface { phrase_offsets: final(self).phrase_offsets, ..*old(self) }),
    {
        let max_offset = self.max_phrase_offset(sequencer, channel_index);
        let per_button = self.phrase_ticks_per_button();
        assert(15360int / (self.phrase_zoom_level as int) > 0) by (nonlinear_arith)
            requires
                0 < self.phrase_zoom_level <= 255,
        ;
        assert((ticks / per_button) * per_button <= ticks) by (nonlinear_arith)
            requires
                per_button > 0,
        ;
        let adjusted_offset = (ticks / per_button) * per_button;
        self.phrase_offsets[channel_index] = if adjusted_offset < max_offset {
            adjusted_offset
        } else {
            max_offset
        };
    }

    pub fn phrase_zoom_level(&self) -> (r: u8)
        ensures
            r == self.phrase_zoom_level,
    {
        self.phrase_zoom_level
    }

    /// Zoom the shown phrases to `level`, keeping each offset within its new largest offset.
    pub fn set_phrase_zoom_level(&mut self, sequencer: &Sequencer, level: u8)
        requires
            level > 0,
            forall|c: int| 0 <= c < 16 ==> old(self).phrase_shown[c] < 5,
        ensures
            final(self).phrase_zoom_level == level,
            forall|c: int|
                0 <= c < 16 ==> #[trigger] final(self).phrase_offsets[c] == snapped_offset(
                    old(self).phrase_offsets[c],
                    final(self).phrase_button_ticks(),
                    final(self).phrase_offset_max(sequencer, c),
                ),
            *final(self) == (Surface {
                phrase_zoom_level: level,
                phrase_offsets: final(self).phrase_offsets,
                ..*old(self)
            }),
    {
        self.phrase_zoom_level = level;
        let mut channel_index: usize = 0;
        while channel_index < 16
            invariant
                0 <= channel_index <= 16,
                level > 0,
                *self == (Surface {
                    phrase_zoom_level: level,
                    phrase_offsets: self.phrase_offsets,
                    ..*old(self)
                }),
                forall|c: int| 0 <= c < 16 ==> old(self).phrase_shown[c] < 5,
                forall|c: int|
                    0 <= c < channel_index ==> #[trigger] self.phrase_offsets[c] == snapped_offset(
                        old(self).phrase_offsets[c],
                        self.phrase_button_ticks(),
                        self.phrase_offset_max(sequencer, c),
                    ),
                forall|c: int| channel_index <= c < 16 ==> #[trigger] self.phrase_offsets[c] == old(self).phrase_offsets[c],
            decreases 16 - channel_index,
        {
            let offset = self.phrase_offset(channel_index);
            self.set_phrase_offset(sequencer, channel_index, offset);
            channel_index += 1;
        }
    }
}

/// When an input event of a controller last occurred.
#[derive(Debug, Clone, Copy)]
pub struct OccurredInputEvent {
    pub controller_channel_offset: u8,
    pub time: u64,
    pub event_type: InputEventType,
}

/// Remembers when each kind of input event last occurred on each controller, to recognise
/// double clicks and to show what was touched.
pub struct EventMemory {
    occurred_events: Vec<OccurredInputEvent>,
}

/// Kinds of input events the controllers look back on.
#[derive(Debug, PartialEq, Eq, Structural, Clone, Copy)]
pub enum EventKind {
    CueKnob,
    SoloButton,
    ActivatorButton,
    RightButton,
    LeftButton,
    Crossfader,
    Exactly(InputEventType),
}

/// Whether `event_type` is of kind `kind`.
pub open spec fn is_of_kind(kind: EventKind, event_type: InputEventType) -> bool {
    match kind {
        EventKind::CueKnob => event_type matches InputEventType::KnobTurned { knob_type: KnobType::Cue, .. },
        EventKind::SoloButton => event_type matches InputEventType::ButtonPressed(ButtonType::Solo(_)),
        EventKind::ActivatorButton => event_type matches InputEventType::ButtonPressed(ButtonType::Activator(_)),
        EventKind::RightButton => event_type matches InputEventType::ButtonPressed(ButtonType::Right),
        EventKind::LeftButton => event_type matches InputEventType::ButtonPressed(ButtonType::Left),
        EventKind::Crossfader => event_type matches InputEventType::FaderMoved { fader_type: FaderType::CrossFade, .. },
        EventKind::Exactly(t) => event_type == t,
    }
}

/// Whether `event_type` is of one of `kinds`.
pub open spec fn is_of_kinds(kinds: Seq<EventKind>, event_type: InputEventType) -> bool {
    exists|i: int| 0 <= i < kinds.len() && is_of_kind(#[trigger] kinds[i], event_type)
}

/// Whether an occurred event is of one of `kinds`, on the controller at `controller` when it
/// is given.
pub open spec fn occurred_of_kinds(e: OccurredInputEvent, controller: Option<u8>, kinds: Seq<EventKind>) -> bool {
    &&& controller matches Some(o) ==> e.controller_channel_offset == o
    &&& is_of_kinds(kinds, e.event_type)
}

fn is_of_kind_exec(kind: &EventKind, event_type: &InputEventType) -> (r: bool)
    ensures
        r == is_of_kind(*kind, *event_type),
{
    match kind {
        EventKind::CueKnob => InputEvent::is_cue_knob(event_type),
        EventKind::SoloButton => InputEvent::is_solo_button(event_type),
        EventKind::ActivatorButton => InputEvent::is_activator_button(event_type),
        EventKind::RightButton => InputEvent::is_right_button(event_type),
        EventKind::LeftButton => InputEvent::is_left_button(event_type),
        EventKind::Crossfader => InputEvent::is_crossfader(event_type),
        EventKind::Exactly(t) => *event_type == *t,
    }
}

fn is_of_kinds_exec(kinds: &[EventKind], event_type: &InputEventType) -> (r: bool)
    ensures
        r == is_of_kinds(kinds@, *event_type),
{
    let mut i: usize = 0;
    while i < kinds.len()
        invariant
            0 <= i <= kinds@.len(),
            forall|j: int| 0 <= j < i ==> !is_of_kind(#[trigger] kinds@[j], *event_type),
        decreases kinds@.len() - i,
    {
        if is_of_kind_exec(&kinds[i], event_type) {
            return true;
        }
        i += 1;
    }
    false
}

/// Index of the first remembered event of `event_type` on the controller at
/// `controller_channel_offset`, or -1.
pub open spec fn first_occurrence(
    events: Seq<OccurredInputEvent>,
    controller_channel_offset: u8,
    event_type: InputEventType,
) -> int
    decreases events.len(),
{
    if events.len() == 0 {
        -1
    } else {
        let rest = first_occurrence(events.drop_last(), controller_channel_offset, event_type);
        if rest >= 0 {
            rest
        } else if events.last().controller_channel_offset == controller_channel_offset
            && events.last().event_type == event_type {
            events.len() - 1
        } else {
            -1
        }
    }
}

/// The remembered events once an event of `event_type` on the controller at
/// `controller_channel_offset` is remembered at `time`: the first remembered one of the same
/// kind on that controller gets the new time, or else the event is added.
pub open spec fn registered(
    events: Seq<OccurredInputEvent>,
    controller_channel_offset: u8,
    time: u64,
    event_type: InputEventType,
) -> Seq<OccurredInputEvent> {
    let j = first_occurrence(events, controller_channel_offset, event_type);
    let e = OccurredInputEvent { controller_channel_offset, time, event_type };
    if j >= 0 {
        events.update(j, e)
    } else {
        events.push(e)
    }
}

/// Latest time, not before `usecs`, among the events that `pick` accepts.
pub open spec fn latest_occurrence(
    events: Seq<OccurredInputEvent>,
    usecs: u64,
    pick: spec_fn(OccurredInputEvent) -> bool,
) -> Option<u64>
    decreases events.len(),
{
    if events.len() == 0 {
        None
    } else {
        let rest = latest_occurrence(events.drop_last(), usecs, pick);
        let e = events.last();
        if e.time >= usecs && pick(e) {
            match rest {
                Some(m) => Some(if e.time > m { e.time } else { m }),
                None => Some(e.time),
            }
        } else {
            rest
        }
    }
}

proof fn lemma_first_occurrence_bounds(events: Seq<OccurredInputEvent>, offset: u8, event_type: InputEventType)
    ensures
        -1 <= first_occurrence(events, offset, event_type) < events.len(),
        first_occurrence(events, offset, event_type) >= 0 ==> ({
            let k = first_occurrence(events, offset, event_type);
            events[k].controller_channel_offset == offset && events[k].event_type == event_type
        }),
    decreases events.len(),
{
    if events.len() > 0 {
        lemma_first_occurrence_bounds(events.drop_last(), offset, event_type);
    }
}

impl EventMemory {
    pub closed spec fn occurred(&self) -> Seq<OccurredInputEvent> {
        self.occurred_events@
    }

    /// At most one event is remembered per controller and kind of event.
    #[verifier::type_invariant]
    spec fn one_record_each(&self) -> bool {
        records_unique(self.occurred_events@)
    }

    fn new() -> (r: Self)
        ensures
            r.occurred() == Seq::<OccurredInputEvent>::empty(),
    {
        Self { occurred_events: Vec::new() }
    }

    /// Remember that an event of `event_type` occurred at `time` on the controller at
    /// `controller_channel_offset`.
    pub fn register_event(&mut self, controller_channel_offset: u8, time: u64, event_type: InputEventType)
        ensures
            final(self).occurred() == registered(old(self).occurred(), controller_channel_offset, time, event_type),
            records_unique(final(self).occurred()),
            latest_occurrence(
                final(self).occurred(),
                time,
                records_of(controller_channel_offset, event_type),
            ) == Some(time),
    {
        proof {
            use_type_invariant(&*self);
            law_remembered_event_occurred_then(self.occurred_events@, controller_channel_offset, time, event_type);
        }
        let mut events: Vec<OccurredInputEvent> = Vec::new();
        std::mem::swap(&mut events, &mut self.occurred_events);
        let ghost s = events@;
        let mut i: usize = 0;
        while i < events.len()
            invariant
                0 <= i <= s.len(),
                events@ == s,
                s == old(self).occurred_events@,
                first_occurrence(s.take(i as int), controller_channel_offset, event_type) == -1,
                records_unique(registered(s, controller_channel_offset, time, event_type)),
                latest_occurrence(
                    registered(s, controller_channel_offset, time, event_type),
                    time,
                    records_of(controller_channel_offset, event_type),
                ) == Some(time),
            decreases s.len() - i,
        {
            assert(s.take(i + 1).drop_last() =~= s.take(i as int));
            let e = events[i];
            if e.controller_channel_offset == controller_channel_offset && e.event_type == event_type {
                proof {
                    assert(first_occurrence(s.take(i + 1), controller_channel_offset, event_type) == i);
                    lemma_first_prefix(s, controller_channel_offset, event_type, i + 1);
                    lemma_first_occurrence_bounds(s, controller_channel_offset, event_type);
                }
                events.set(i, OccurredInputEvent { controller_channel_offset, time, event_type });
                self.occurred_events = events;
                return;
            }
            i += 1;
        }
        assert(s.take(i as int) =~= s);
        events.push(OccurredInputEvent { controller_channel_offset, time, event_type });
        self.occurred_events = events;
    }

    /// The latest time, not before `usecs`, at which an event of one of `kinds` occurred, on
    /// the controller at `controller` when it is given, on any controller otherwise.
    pub fn last_occurred_event_of_kinds(&self, controller: Option<u8>, kinds: &[EventKind], usecs: u64) -> (r: Option<u64>)
        ensures
            r == latest_occurrence(
                self.occurred(),
                usecs,
                |e: OccurredInputEvent| occurred_of_kinds(e, controller, kinds@),
            ),
    {
        let mut latest: Option<u64> = None;
        let mut i: usize = 0;
        while i < self.occurred_events.len()
            invariant
                0 <= i <= self.occurred_events@.len(),
                latest == latest_occurrence(
                    self.occurred_events@.take(i as int),
                    usecs,
                    |e: OccurredInputEvent| occurred_of_kinds(e, controller, kinds@),
                ),
            decreases self.occurred_events@.len() - i,
        {
            assert(self.occurred_events@.take(i + 1).drop_last() =~= self.occurred_events@.take(i as int));
            let event = self.occurred_events[i];
            let on_controller = match controller {
                Some(o) => event.controller_channel_offset == o,
                None => true,
            };
            if on_controller && event.time >= usecs && is_of_kinds_exec(kinds, &event.event_type) {
                latest = match latest {
                    Some(m) => Some(if event.time > m { event.time } else { m }),
                    None => Some(event.time),
                };
            }
            i += 1;
        }
        assert(self.occurred_events@.take(i as int) =~= self.occurred_events@);
        latest
    }

    /// The latest time, not before `usecs`, at which an event that one of `filters` accepts
    /// occurred on any controller.
    pub fn last_occurred_global_event_after<F>(&self, filters: &[F], usecs: u64) -> (r: Option<u64>) where
        F: Fn(&InputEventType) -> bool,

        requires
            filters_callable(filters@),
        ensures
            r matches Some(t) ==> t >= usecs && exists|k: int|
                0 <= k < self.occurred().len() && self.occurred()[k].time == t && accepted_by(
                    filters@,
                    self.occurred()[k].event_type,
                ),
            filters_decide(filters@) ==> r == latest_occurrence(
                self.occurred(),
                usecs,
                |e: OccurredInputEvent| accepted_by(filters@, e.event_type),
            ),
    {
        let mut latest: Option<u64> = None;
        let mut i: usize = 0;
        while i < self.occurred_events.len()
            invariant
                0 <= i <= self.occurred_events@.len(),
                filters_callable(filters@),
                latest matches Some(t) ==> t >= usecs && exists|k: int|
                    0 <= k < self.occurred_events@.len() && self.occurred_events@[k].time == t
                        && accepted_by(filters@, self.occurred_events@[k].event_type),
                filters_decide(filters@) ==> latest == latest_occurrence(
                    self.occurred_events@.take(i as int),
                    usecs,
                    |e: OccurredInputEvent| accepted_by(filters@, e.event_type),
                ),
            decreases self.occurred_events@.len() - i,
        {
            assert(self.occurred_events@.take(i + 1).drop_last() =~= self.occurred_events@.take(i as int));
            let event = self.occurred_events[i];
            if event.time >= usecs && any_filter(filters, &event.event_type) {
                latest = match latest {
                    Some(m) => Some(if event.time > m { event.time } else { m }),
                    None => Some(event.time),
                };
            }
            i += 1;
        }
        assert(self.occurred_events@.take(i as int) =~= self.occurred_events@);
        latest
    }

    /// The latest time, not before `usecs`, at which an event that one of `filters` accepts
    /// occurred on the controller at `controller_channel_offset`.
    pub fn last_occurred_controller_event_after<F>(
        &self,
        controller_channel_offset: u8,
        filters: &[F],
        usecs: u64,
    ) -> (r: Option<u64>) where F: Fn(&InputEventType) -> bool,

        requires
            filters_callable(filters@),
        ensures
            r matches Some(t) ==> t >= usecs && exists|k: int|
                0 <= k < self.occurred().len() && self.occurred()[k].time == t
                    && self.occurred()[k].controller_channel_offset == controller_channel_offset
                    && accepted_by(filters@, self.occurred()[k].event_type),
            filters_decide(filters@) ==> r == latest_occurrence(
                self.occurred(),
                usecs,
                |e: OccurredInputEvent|
                    e.controller_channel_offset == controller_channel_offset && accepted_by(
                        filters@,
                        e.event_type,
                    ),
            ),
    {
        let mut latest: Option<u64> = None;
        let mut i: usize = 0;
        while i < self.occurred_events.len()
            invariant
                0 <= i <= self.occurred_events@.len(),
                filters_callable(filters@),
                latest matches Some(t) ==> t >= usecs && exists|k: int|
                    0 <= k < self.occurred_events@.len() && self.occurred_events@[k].time == t
                        && self.occurred_events@[k].controller_channel_offset == controller_channel_offset
                        && accepted_by(filters@, self.occurred_events@[k].event_type),
                filters_decide(filters@) ==> latest == latest_occurrence(
                    self.occurred_events@.take(i as int),
                    usecs,
                    |e: OccurredInputEvent|
                        e.controller_channel_offset == controller_channel_offset && accepted_by(
                            filters@,
                            e.event_type,
                        ),
                ),
            decreases self.occurred_events@.len() - i,
        {
            assert(self.occurred_events@.take(i + 1).drop_last() =~= self.occurred_events@.take(i as int));
            let event = self.occurred_events[i];
            if controller_channel_offset == event.controller_channel_offset && event.time >= usecs
                && any_filter(filters, &event.event_type) {
                latest = match latest {
                    Some(m) => Some(if event.time > m { event.time } else { m }),
                    None => Some(event.time),
                };
            }
            i += 1;
        }
        assert(self.occurred_events@.take(i as int) =~= self.occurred_events@);
        latest
    }
}

/// Once the first occurrence lies inside a prefix, it is the first occurrence of the whole.
proof fn lemma_first_prefix(events: Seq<OccurredInputEvent>, offset: u8, event_type: InputEventType, n: int)
    requires
        0 <= n <= events.len(),
        first_occurrence(events.take(n), offset, event_type) >= 0,
    ensures
        first_occurrence(events, offset, event_type) == first_occurrence(events.take(n), offset, event_type),
    decreases events.len() - n,
{
    if n < events.len() {
        assert(events.take(n + 1).drop_last() =~= events.take(n));
        lemma_first_prefix(events, offset, event_type, n + 1);
    } else {
        assert(events.take(n) =~= events);
    }
}

/// A held button and the channel offset of the controller it is on.
#[derive(Debug, Clone, Copy)]
pub struct ButtonPress {
    pub controller_channel_offset: u8,
    pub button_type: ButtonType,
}

/// Remembers the held buttons of all controllers, so that a button can modify what another
/// one does.
pub struct ButtonMemory {
    pressed_buttons: Vec<ButtonPress>,
}

/// Index of the last press of `button_type` on the controller at `controller_channel_offset`,
/// or -1.
pub open spec fn last_press(pressed: Seq<ButtonPress>, controller_channel_offset: u8, button_type: ButtonType) -> int
    decreases pressed.len(),
{
    if pressed.len() == 0 {
        -1
    } else if pressed.last().button_type == button_type && pressed.last().controller_channel_offset
        == controller_channel_offset {
        pressed.len() - 1
    } else {
        last_press(pressed.drop_last(), controller_channel_offset, button_type)
    }
}

/// The held buttons once `button_type` is released on the controller at
/// `controller_channel_offset`: its last press is forgotten, if there is one.
pub open spec fn released(pressed: Seq<ButtonPress>, controller_channel_offset: u8, button_type: ButtonType) -> Seq<ButtonPress> {
    let j = last_press(pressed, controller_channel_offset, button_type);
    if j >= 0 {
        pressed.remove(j)
    } else {
        pressed
    }
}

/// The first held button other than `button_type`, on the controller at `offset` when it is
/// given, on any controller otherwise.
pub open spec fn first_other_press(pressed: Seq<ButtonPress>, offset: Option<u8>, button_type: ButtonType) -> Option<ButtonPress>
    decreases pressed.len(),
{
    if pressed.len() == 0 {
        None
    } else {
        match first_other_press(pressed.drop_last(), offset, button_type) {
            Some(p) => Some(p),
            None => {
                let p = pressed.last();
                if p.button_type != button_type && (match offset {
                    Some(o) => p.controller_channel_offset == o,
                    None => true,
                }) {
                    Some(p)
                } else {
                    None
                }
            },
        }
    }
}

proof fn lemma_last_press_bounds(pressed: Seq<ButtonPress>, offset: u8, button_type: ButtonType)
    ensures
        -1 <= last_press(pressed, offset, button_type) < pressed.len(),
    decreases pressed.len(),
{
    if pressed.len() > 0 {
        lemma_last_press_bounds(pressed.drop_last(), offset, button_type);
    }
}

proof fn lemma_first_other_prefix(pressed: Seq<ButtonPress>, offset: Option<u8>, button_type: ButtonType, n: int)
    requires
        0 <= n <= pressed.len(),
        first_other_press(pressed.take(n), offset, button_type) is Some,
    ensures
        first_other_press(pressed, offset, button_type) == first_other_press(pressed.take(n), offset, button_type),
    decreases pressed.len() - n,
{
    if n < pressed.len() {
        assert(pressed.take(n + 1).drop_last() =~= pressed.take(n));
        lemma_first_other_prefix(pressed, offset, button_type, n + 1);
    } else {
        assert(pressed.take(n) =~= pressed);
    }
}

impl ButtonMemory {
    pub closed spec fn pressed(&self) -> Seq<ButtonPress> {
        self.pressed_buttons@
    }

    pub fn new() -> (r: Self)
        ensures
            r.pressed() == Seq::<ButtonPress>::empty(),
    {
        Self { pressed_buttons: Vec::new() }
    }

    /// Remember that `button_type` is held on the controller at `controller_channel_offset`.
    pub fn press(&mut self, controller_channel_offset: u8, button_type: ButtonType)
        ensures
            final(self).pressed() == old(self).pressed().push(ButtonPress { controller_channel_offset, button_type }),
    {
        self.pressed_buttons.push(ButtonPress { controller_channel_offset, button_type });
    }

    /// Forget the last press of `button_type` on the controller at
    /// `controller_channel_offset`, if there is one.
    pub fn release(&mut self, controller_channel_offset: u8, _end: u64, button_type: ButtonType)
        ensures
            final(self).pressed() == released(old(self).pressed(), controller_channel_offset, button_type),
    {
        let mut found: Option<usize> = None;
        let mut i: usize = 0;
        proof {
            lemma_last_press_bounds(self.pressed_buttons@, controller_channel_offset, button_type);
        }
        while i < self.pressed_buttons.len()
            invariant
                0 <= i <= self.pressed_buttons@.len(),
                self.pressed_buttons@ == old(self).pressed_buttons@,
                found matches Some(k) ==> k == last_press(self.pressed_buttons@.take(i as int), controller_channel_offset, button_type),
                found is None ==> last_press(self.pressed_buttons@.take(i as int), controller_channel_offset, button_type) == -1,
            decreases self.pressed_buttons@.len() - i,
        {
            assert(self.pressed_buttons@.take(i + 1).drop_last() =~= self.pressed_buttons@.take(i as int));
            let p = self.pressed_buttons[i];
            if p.button_type == button_type && p.controller_channel_offset == controller_channel_offset {
                found = Some(i);
            }
            i += 1;
        }
        assert(self.pressed_buttons@.take(i as int) =~= self.pressed_buttons@);
        if let Some(index) = found {
            self.pressed_buttons.remove(index);
        }
    }

    /// The first held button other than `button_type` on the controller at
    /// `controller_channel_offset`.
    pub fn modifier(&self, controller_channel_offset: u8, button_type: ButtonType) -> (r: Option<ButtonType>)
        ensures
            r == match first_other_press(self.pressed(), Some(controller_channel_offset), button_type) {
                Some(p) => Some(p.button_type),
                None => None,
            },
    {
        let mut i: usize = 0;
        while i < self.pressed_buttons.len()
            invariant
                0 <= i <= self.pressed_buttons@.len(),
                first_other_press(self.pressed_buttons@.take(i as int), Some(controller_channel_offset), button_type) is None,
            decreases self.pressed_buttons@.len() - i,
        {
            assert(self.pressed_buttons@.take(i + 1).drop_last() =~= self.pressed_buttons@.take(i as int));
            let p = self.pressed_buttons[i];
            if p.button_type != button_type && p.controller_channel_offset == controller_channel_offset {
                proof {
                    lemma_first_other_prefix(self.pressed_buttons@, Some(controller_channel_offset), button_type, i + 1);
                }
                return Some(p.button_type);
            }
            i += 1;
        }
        assert(self.pressed_buttons@.take(i as int) =~= self.pressed_buttons@);
        None
    }

    /// The first held button other than `button_type`, on any controller.
    pub fn global_modifier(&self, button_type: ButtonType) -> (r: Option<&ButtonPress>)
        ensures
            match r {
                Some(p) => first_other_press(self.pressed(), None, button_type) == Some(*p),
                None => first_other_press(self.pressed(), None, button_type) is None,
            },
    {
        let mut i: usize = 0;
        while i < self.pressed_buttons.len()
            invariant
                0 <= i <= self.pressed_buttons@.len(),
                first_other_press(self.pressed_buttons@.take(i as int), None, button_type) is None,
            decreases self.pressed_buttons@.len() - i,
        {
            assert(self.pressed_buttons@.take(i + 1).drop_last() =~= self.pressed_buttons@.take(i as int));
            if self.pressed_buttons[i].button_type != button_type {
                proof {
                    lemma_first_other_prefix(self.pressed_buttons@, None, button_type, i + 1);
                }
                return Some(&self.pressed_buttons[i]);
            }
            i += 1;
        }
        assert(self.pressed_buttons@.take(i as int) =~= self.pressed_buttons@);
        None
    }
}

/// A press undone: releasing a button just pressed on a controller leaves the held buttons as
/// they were before the press.
pub proof fn law_release_undoes_press(pressed: Seq<ButtonPress>, controller_channel_offset: u8, button_type: ButtonType)
    ensures
        released(pressed.push(ButtonPress { controller_channel_offset, button_type }), controller_channel_offset, button_type)
            == pressed,
{
    let s = pressed.push(ButtonPress { controller_channel_offset, button_type });
    assert(s.drop_last() == pressed);
    assert(last_press(s, controller_channel_offset, button_type) == pressed.len());
    assert(s.remove(pressed.len() as int) =~= pressed);
}

/// Remembering an event again only changes when it last occurred: remembering it at `t1` and
/// then at `t2` is remembering it at `t2`.
pub proof fn law_remembering_again_moves_time(
    events: Seq<OccurredInputEvent>,
    controller_channel_offset: u8,
    t1: u64,
    t2: u64,
    event_type: InputEventType,
)
    ensures
        registered(registered(events, controller_channel_offset, t1, event_type), controller_channel_offset, t2, event_type)
            == registered(events, controller_channel_offset, t2, event_type),
{
    let once = registered(events, controller_channel_offset, t1, event_type);
    lemma_first_occurrence_bounds(events, controller_channel_offset, event_type);
    let j = first_occurrence(events, controller_channel_offset, event_type);
    if j >= 0 {
        lemma_first_occurrence_same(events, once, controller_channel_offset, event_type);
        assert(once.update(j, OccurredInputEvent { controller_channel_offset, time: t2, event_type })
            =~= events.update(j, OccurredInputEvent { controller_channel_offset, time: t2, event_type }));
    } else {
        lemma_first_occurrence_pushed(events, OccurredInputEvent { controller_channel_offset, time: t1, event_type });
        assert(once.update(events.len() as int, OccurredInputEvent { controller_channel_offset, time: t2, event_type })
            =~= events.push(OccurredInputEvent { controller_channel_offset, time: t2, event_type }));
    }
}

/// Updating the first occurrence with another time keeps it the first occurrence.
proof fn lemma_first_occurrence_same(
    events: Seq<OccurredInputEvent>,
    updated: Seq<OccurredInputEvent>,
    offset: u8,
    event_type: InputEventType,
)
    requires
        first_occurrence(events, offset, event_type) >= 0,
        updated.len() == events.len(),
        forall|i: int|
            0 <= i < events.len() ==> (#[trigger] updated[i]).controller_channel_offset
                == events[i].controller_channel_offset && updated[i].event_type == events[i].event_type,
    ensures
        first_occurrence(updated, offset, event_type) == first_occurrence(events, offset, event_type),
    decreases events.len(),
{
    let rest = events.drop_last();
    let urest = updated.drop_last();
    if first_occurrence(rest, offset, event_type) >= 0 {
        assert forall|i: int| 0 <= i < rest.len() implies (#[trigger] urest[i]).controller_channel_offset
            == rest[i].controller_channel_offset && urest[i].event_type == rest[i].event_type by {
            assert(urest[i] == updated[i]);
            assert(rest[i] == events[i]);
        }
        lemma_first_occurrence_same(rest, urest, offset, event_type);
    } else {
        lemma_first_occurrence_none(rest, urest, offset, event_type);
        assert(updated.last() == updated[updated.len() - 1]);
        assert(events.last() == events[events.len() - 1]);
    }
}

proof fn lemma_first_occurrence_none(
    events: Seq<OccurredInputEvent>,
    updated: Seq<OccurredInputEvent>,
    offset: u8,
    event_type: InputEventType,
)
    requires
        first_occurrence(events, offset, event_type) < 0,
        updated.len() == events.len(),
        forall|i: int|
            0 <= i < events.len() ==> (#[trigger] updated[i]).controller_channel_offset
                == events[i].controller_channel_offset && updated[i].event_type == events[i].event_type,
    ensures
        first_occurrence(updated, offset, event_type) < 0,
    decreases events.len(),
{
    if events.len() > 0 {
        let rest = events.drop_last();
        let urest = updated.drop_last();
        lemma_first_occurrence_bounds(rest, offset, event_type);
        assert forall|i: int| 0 <= i < rest.len() implies (#[trigger] urest[i]).controller_channel_offset
            == rest[i].controller_channel_offset && urest[i].event_type == rest[i].event_type by {
            assert(urest[i] == updated[i]);
            assert(rest[i] == events[i]);
        }
        lemma_first_occurrence_none(rest, urest, offset, event_type);
        assert(updated.last() == updated[updated.len() - 1]);
        assert(events.last() == events[events.len() - 1]);
    }
}

proof fn lemma_first_occurrence_pushed(events: Seq<OccurredInputEvent>, e: OccurredInputEvent)
    requires
        first_occurrence(events, e.controller_channel_offset, e.event_type) < 0,
    ensures
        first_occurrence(events.push(e), e.controller_channel_offset, e.event_type) == events.len(),
{
    assert(events.push(e).drop_last() =~= events);
}

/// Picks the records of `event_type` on the controller at `controller_channel_offset`.
pub open spec fn records_of(controller_channel_offset: u8, event_type: InputEventType) -> spec_fn(OccurredInputEvent) -> bool {
    |e: OccurredInputEvent| occurred_of_kinds(e, Some(controller_channel_offset), seq![EventKind::Exactly(event_type)])
}

/// Whether the remembered events hold at most one record per controller and kind of event.
pub open spec fn records_unique(events: Seq<OccurredInputEvent>) -> bool {
    forall|i: int, j: int|
        #![trigger events[i], events[j]]
        0 <= i < j < events.len() ==> !(events[i].controller_channel_offset == events[j].controller_channel_offset
            && events[i].event_type == events[j].event_type)
}

proof fn lemma_no_occurrence(events: Seq<OccurredInputEvent>, offset: u8, event_type: InputEventType)
    requires
        first_occurrence(events, offset, event_type) < 0,
    ensures
        forall|i: int|
            0 <= i < events.len() ==> !((#[trigger] events[i]).controller_channel_offset == offset
                && events[i].event_type == event_type),
    decreases events.len(),
{
    if events.len() > 0 {
        let rest = events.drop_last();
        lemma_first_occurrence_bounds(rest, offset, event_type);
        lemma_no_occurrence(rest, offset, event_type);
        assert forall|i: int| 0 <= i < events.len() - 1 implies events[i] == rest[i] by {}
    }
}

/// The latest time at which the one event `pick` accepts occurred is its time.
proof fn lemma_latest_of_one(events: Seq<OccurredInputEvent>, usecs: u64, pick: spec_fn(OccurredInputEvent) -> bool, k: int)
    requires
        0 <= k < events.len(),
        pick(events[k]),
        events[k].time >= usecs,
        forall|i: int| 0 <= i < events.len() && i != k ==> !pick(#[trigger] events[i]),
    ensures
        latest_occurrence(events, usecs, pick) == Some(events[k].time),
    decreases events.len(),
{
    let rest = events.drop_last();
    if k < events.len() - 1 {
        assert forall|i: int| 0 <= i < rest.len() && i != k implies !pick(#[trigger] rest[i]) by {
            assert(rest[i] == events[i]);
        }
        assert(rest[k] == events[k]);
        lemma_latest_of_one(rest, usecs, pick, k);
        assert(!pick(events[events.len() - 1]));
    } else {
        assert forall|i: int| 0 <= i < rest.len() implies !pick(#[trigger] rest[i]) by {
            assert(rest[i] == events[i]);
        }
        lemma_latest_of_none(rest, usecs, pick);
    }
}

proof fn lemma_latest_of_none(events: Seq<OccurredInputEvent>, usecs: u64, pick: spec_fn(OccurredInputEvent) -> bool)
    requires
        forall|i: int| 0 <= i < events.len() ==> !pick(#[trigger] events[i]),
    ensures
        latest_occurrence(events, usecs, pick) is None,
    decreases events.len(),
{
    if events.len() > 0 {
        let rest = events.drop_last();
        assert forall|i: int| 0 <= i < rest.len() implies !pick(#[trigger] rest[i]) by {
            assert(rest[i] == events[i]);
        }
        lemma_latest_of_none(rest, usecs, pick);
        assert(!pick(events[events.len() - 1]));
    }
}

/// Remembering an event keeps one record per controller and kind of event, and the event is
/// then remembered to have occurred on its controller at the time given, and at no later time.
pub proof fn law_remembered_event_occurred_then(
    events: Seq<OccurredInputEvent>,
    controller_channel_offset: u8,
    time: u64,
    event_type: InputEventType,
)
    requires
        records_unique(events),
    ensures
        records_unique(registered(events, controller_channel_offset, time, event_type)),
        latest_occurrence(
            registered(events, controller_channel_offset, time, event_type),
            time,
            records_of(controller_channel_offset, event_type),
        ) == Some(time),
{
    let after = registered(events, controller_channel_offset, time, event_type);
    let pick = records_of(controller_channel_offset, event_type);
    let kinds = seq![EventKind::Exactly(event_type)];
    lemma_first_occurrence_bounds(events, controller_channel_offset, event_type);
    let j = first_occurrence(events, controller_channel_offset, event_type);
    let k = if j >= 0 {
        j
    } else {
        events.len() as int
    };
    if j < 0 {
        lemma_no_occurrence(events, controller_channel_offset, event_type);
    }
    assert forall|i: int| 0 <= i < after.len() implies (pick(#[trigger] after[i]) <==> i == k) by {
        if is_of_kinds(kinds, after[i].event_type) {
            assert(is_of_kind(kinds[0], after[i].event_type));
        }
        if i == k {
            assert(is_of_kind(kinds[0], after[i].event_type));
        }
        if j >= 0 && i != j {
            if i < j {
                assert(!(events[i].controller_channel_offset == events[j].controller_channel_offset
                    && events[i].event_type == events[j].event_type));
            } else {
                assert(!(events[j].controller_channel_offset == events[i].controller_channel_offset
                    && events[j].event_type == events[i].event_type));
            }
        }
    }
    assert(after[k].time == time);
    lemma_latest_of_one(after, time, pick, k);
    assert forall|a: int, b: int| 0 <= a < b < after.len() implies !(#[trigger] after[a].controller_channel_offset
        == after[b].controller_channel_offset && after[a].event_type == (#[trigger] after[b]).event_type) by {
        if j >= 0 {
            if a != j && b != j {
                assert(after[a] == events[a] && after[b] == events[b]);
            } else if a == j {
                assert(after[b] == events[b]);
            } else {
                assert(after[a] == events[a]);
            }
        } else if b < events.len() {
            assert(after[a] == events[a] && after[b] == events[b]);
        } else {
            assert(after[a] == events[a]);
        }
    }
}

/// Offsets stay in bounds: an offset set from any number of ticks is at most the largest
/// offset, and below it, it is a whole number of buttons no further than those ticks.
pub proof fn law_snapped_offset_in_bounds(ticks: u32, per_button: u32, max: u32)
    requires
        per_button > 0,
    ensures
        snapped_offset(ticks, per_button, max) <= max,
        snapped_offset(ticks, per_button, max) < max ==> snapped_offset(ticks, per_button, max) % per_button == 0
            && snapped_offset(ticks, per_button, max) <= ticks,
{
    let adjusted = (ticks / per_button) * per_button;
    assert(adjusted <= ticks) by (nonlinear_arith)
        requires
            adjusted == (ticks / per_button) * per_button,
            per_button > 0,
    ;
    assert(adjusted % (per_button as int) == 0) by (nonlinear_arith)
        requires
            adjusted == (ticks / per_button) * per_button,
            per_button > 0,
    ;
}

} // verus!
