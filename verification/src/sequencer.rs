use vstd::prelude::*;

use crate::cycle::ProcessCycle;
use crate::events::{
    pattern_event_ranges, span_is_looping, span_length, LoopableEvent, LoopablePatternEvent,
    LoopablePhraseEvent, PlayingNoteEvent,
};
use crate::loopable::{
    default_phrase_length, lemma_complete_event_stops_within, lemma_max_stop_bounds,
    lemma_max_stop_within, max_stop, stops_within, timeline_length, with_complete_event, Loopable,
    looping_ranges_fit, looping_ranges_of, notes_for_ranges, notes_for_ranges_defined,
    pattern_play_ranges, Phrase,
};
use crate::message::{Message, TimedMessage};
use crate::sequence::{law_longest_phrase_is_longest, longest_phrase, phrases_exist, played_phrase_length, Sequence};
use crate::tick_range::{range_contains, ranges_overlap, TickRange};
use crate::track::{
    are_note_offs, are_note_ons, are_ticked_notes, notes_playing_on, notes_stopping_in, Channel,
    Track,
};

verus! {

/// The timeline `events` after the phrase `phrase`, `length` ticks long, is placed from tick
/// `from` over and over until tick `stop`, the last time cut short at `stop`.
pub open spec fn with_phrase_repeats(
    events: Seq<LoopablePhraseEvent>,
    from: int,
    stop: int,
    length: int,
    phrase: u8,
) -> Seq<LoopablePhraseEvent>
    decreases (if from < stop {
        stop - from
    } else {
        0
    }),
{
    if length > 0 && from < stop {
        let event_stop = if from + length > stop {
            stop
        } else {
            from + length
        };
        let event = LoopablePhraseEvent {
            start: from as u32,
            stop: Some(event_stop as u32),
            phrase,
        };
        with_phrase_repeats(
            with_complete_event(events, event, timeline_length(events) as u32),
            from + length,
            stop,
            length,
            phrase,
        )
    } else {
        events
    }
}

/// Repeating a phrase up to `stop` places no phrase past `stop`: a timeline whose phrases all
/// stop by `bound`, at or after `stop`, still has them all stop by `bound` afterwards.
pub proof fn law_phrase_repeats_stop_in_time(
    events: Seq<LoopablePhraseEvent>,
    from: int,
    stop: int,
    length: int,
    phrase: u8,
    bound: int,
)
    requires
        stops_within(events, bound),
        0 <= from,
        stop <= bound,
        bound <= u32::MAX,
    ensures
        stops_within(with_phrase_repeats(events, from, stop, length, phrase), bound),
    decreases (if from < stop {
        stop - from
    } else {
        0
    }),
{
    if length > 0 && from < stop {
        let event_stop = if from + length > stop {
            stop
        } else {
            from + length
        };
        let event = LoopablePhraseEvent { start: from as u32, stop: Some(event_stop as u32), phrase };
        lemma_complete_event_stops_within(events, event, timeline_length(events) as u32, bound);
        law_phrase_repeats_stop_in_time(
            with_complete_event(events, event, timeline_length(events) as u32),
            from + length,
            stop,
            length,
            phrase,
            bound,
        );
    }
}

/// How long a sequence plays: its longest phrase, or the default phrase length.
pub open spec fn sequence_length(sequence: Sequence, channels: Seq<Channel>) -> u32 {
    match longest_phrase(sequence.phrase_seq(), channels, 16) {
        Some(m) => m,
        None => default_phrase_length(),
    }
}

/// The tick at which a channel's timeline stops: its latest phrase stop, or 0.
pub open spec fn last_stop(channel: Channel) -> u32 {
    match max_stop(channel.timeline.phrase_events@) {
        Some(m) => m,
        None => 0,
    }
}

/// The latest of the timeline stops of the first `n` channels.
pub open spec fn timeline_end_of(channels: Seq<Channel>, n: int) -> u32
    decreases n,
{
    if n <= 1 {
        last_stop(channels[0])
    } else {
        let rest = timeline_end_of(channels, n - 1);
        let s = last_stop(channels[n - 1]);
        if s > rest {
            s
        } else {
            rest
        }
    }
}

/// What of the phrase event `event` plays during `range`: the part of `range` it covers
/// (from the start of `range` when it began earlier, up to the end of `range` when it stops
/// later), the tick it started at, and its phrase.
pub open spec fn phrase_play(event: LoopablePhraseEvent, range: TickRange) -> (TickRange, u32, u8) {
    let stop = event.stop.unwrap();
    if range_contains(range.start as int, range.stop as int, stop as int) {
        (TickRange { start: range.start, stop }, event.start, event.phrase)
    } else if range_contains(range.start as int, range.stop as int, event.start as int) {
        (TickRange { start: event.start, stop: range.stop }, event.start, event.phrase)
    } else {
        (range, event.start, event.phrase)
    }
}

/// What the stopped phrase events among `events` that overlap `range` play during it, in
/// order.
pub open spec fn phrases_playing(events: Seq<LoopablePhraseEvent>, range: TickRange) -> Seq<(TickRange, u32, u8)>
    decreases events.len(),
{
    if events.len() == 0 {
        Seq::empty()
    } else {
        let rest = phrases_playing(events.drop_last(), range);
        let e = events.last();
        if e.stop is Some && ranges_overlap(
            range.start as int,
            range.stop as int,
            e.start as int,
            e.stop.unwrap() as int,
        ) {
            rest.push(phrase_play(e, range))
        } else {
            rest
        }
    }
}

/// Tick at which a part `part` of a pattern event starts to play inside `phrase_range`.
pub open spec fn play_start(part: TickRange, phrase_range: TickRange) -> int {
    if range_contains(part.start as int, part.stop as int, phrase_range.start as int) {
        phrase_range.start as int
    } else {
        part.start as int
    }
}

/// Tick at which a part `part` of a pattern event stops playing inside `phrase_range`.
pub open spec fn play_stop(part: TickRange, phrase_range: TickRange) -> int {
    if range_contains(part.start as int, part.stop as int, phrase_range.stop as int) {
        phrase_range.stop as int
    } else {
        part.stop as int
    }
}

/// Whether what `pattern_play` computes fits in the ticks it is held in.
pub open spec fn pattern_play_fits(
    event: LoopablePatternEvent,
    part: (TickRange, u32, u8),
    phrase_range: TickRange,
    phrase_offset: u32,
    sequence_start: u32,
    phrase_length: u32,
) -> bool {
    let start = play_start(part.0, phrase_range);
    let stop = play_stop(part.0, phrase_range);
    &&& stop >= part.0.start
    &&& start - part.0.start + part.1 <= u32::MAX
    &&& stop - part.0.start + part.1 <= u32::MAX
    &&& phrase_offset + sequence_start <= u32::MAX
    &&& span_is_looping(event.start, event.stop) ==> event.stop.unwrap() + phrase_length <= u32::MAX
        && event.stop.unwrap() + phrase_length >= event.start
}

/// What part `part` of the pattern event `event` plays inside `phrase_range` of a phrase
/// repetition that starts `phrase_offset` ticks into a sequence started at `sequence_start`:
/// the pattern, the tick at which it starts to play, the range of the pattern that plays, the
/// length of the event and the tick at which the phrase repetition starts.
pub open spec fn pattern_play(
    event: LoopablePatternEvent,
    part: (TickRange, u32, u8),
    phrase_range: TickRange,
    phrase_offset: u32,
    sequence_start: u32,
    phrase_length: u32,
) -> (u8, u32, TickRange, u32, u32) {
    let start = play_start(part.0, phrase_range);
    let stop = play_stop(part.0, phrase_range);
    (
        event.pattern,
        start as u32,
        TickRange {
            start: (start - part.0.start + part.1) as u32,
            stop: (stop - part.0.start + part.1) as u32,
        },
        span_length(event.start, event.stop.unwrap(), phrase_length) as u32,
        (phrase_offset + sequence_start) as u32,
    )
}

/// What the parts `parts` of `event` that overlap `phrase_range` play, in order.
pub open spec fn parts_playing(
    event: LoopablePatternEvent,
    parts: Seq<(TickRange, u32, u8)>,
    phrase_range: TickRange,
    phrase_offset: u32,
    sequence_start: u32,
    phrase_length: u32,
) -> Seq<(u8, u32, TickRange, u32, u32)>
    decreases parts.len(),
{
    if parts.len() == 0 {
        Seq::empty()
    } else {
        let rest = parts_playing(event, parts.drop_last(), phrase_range, phrase_offset, sequence_start, phrase_length);
        let part = parts.last();
        if ranges_overlap(part.0.start as int, part.0.stop as int, phrase_range.start as int, phrase_range.stop as int) {
            rest.push(pattern_play(event, part, phrase_range, phrase_offset, sequence_start, phrase_length))
        } else {
            rest
        }
    }
}

/// Whether what the parts of `event` play fits in ticks.
pub open spec fn parts_fit(
    event: LoopablePatternEvent,
    parts: Seq<(TickRange, u32, u8)>,
    phrase_range: TickRange,
    phrase_offset: u32,
    sequence_start: u32,
    phrase_length: u32,
) -> bool {
    forall|q: int|
        #![trigger parts[q]]
        0 <= q < parts.len() && ranges_overlap(
            parts[q].0.start as int,
            parts[q].0.stop as int,
            phrase_range.start as int,
            phrase_range.stop as int,
        ) ==> pattern_play_fits(event, parts[q], phrase_range, phrase_offset, sequence_start, phrase_length)
}

/// What the stopped pattern events among `events` that start inside the phrase play inside
/// `phrase_range`, in order.
pub open spec fn events_playing(
    events: Seq<LoopablePatternEvent>,
    phrase_range: TickRange,
    phrase_offset: u32,
    sequence_start: u32,
    phrase_length: u32,
) -> Seq<(u8, u32, TickRange, u32, u32)>
    decreases events.len(),
{
    if events.len() == 0 {
        Seq::empty()
    } else {
        let rest = events_playing(events.drop_last(), phrase_range, phrase_offset, sequence_start, phrase_length);
        let e = events.last();
        if e.stop is Some && e.start < phrase_length {
            rest + parts_playing(
                e,
                pattern_event_ranges(e, phrase_length),
                phrase_range,
                phrase_offset,
                sequence_start,
                phrase_length,
            )
        } else {
            rest
        }
    }
}

/// Whether what `events` play inside `phrase_range` fits in ticks.
pub open spec fn events_fit(
    events: Seq<LoopablePatternEvent>,
    phrase_range: TickRange,
    phrase_offset: u32,
    sequence_start: u32,
    phrase_length: u32,
) -> bool {
    forall|e: int|
        #![trigger events[e]]
        0 <= e < events.len() && events[e].stop is Some && events[e].start < phrase_length
            ==> parts_fit(
            events[e],
            pattern_event_ranges(events[e], phrase_length),
            phrase_range,
            phrase_offset,
            sequence_start,
            phrase_length,
        )
}

/// What the pattern events `events` of a phrase play inside each of the phrase ranges
/// `ranges`, in order.
pub open spec fn patterns_playing(
    events: Seq<LoopablePatternEvent>,
    ranges: Seq<(TickRange, u32)>,
    sequence_start: u32,
    phrase_length: u32,
) -> Seq<(u8, u32, TickRange, u32, u32)>
    decreases ranges.len(),
{
    if ranges.len() == 0 {
        Seq::empty()
    } else {
        patterns_playing(events, ranges.drop_last(), sequence_start, phrase_length) + events_playing(
            events,
            ranges.last().0,
            ranges.last().1,
            sequence_start,
            phrase_length,
        )
    }
}

/// Whether what `events` play inside each of `ranges` fits in ticks.
pub open spec fn patterns_fit(
    events: Seq<LoopablePatternEvent>,
    ranges: Seq<(TickRange, u32)>,
    sequence_start: u32,
    phrase_length: u32,
) -> bool {
    forall|k: int|
        #![trigger ranges[k]]
        0 <= k < ranges.len() ==> events_fit(events, ranges[k].0, ranges[k].1, sequence_start, phrase_length)
}

/// Append what the parts of `event` play inside `phrase_range` to `out`.
fn push_event_plays(
    event: &LoopablePatternEvent,
    phrase_range: TickRange,
    phrase_offset: u32,
    sequence_start: u32,
    phrase_length: u32,
    out: &mut Vec<(u8, u32, TickRange, u32, u32)>,
)
    requires
        event.stop is Some,
        event.start < phrase_length,
        parts_fit(*event, pattern_event_ranges(*event, phrase_length), phrase_range, phrase_offset, sequence_start, phrase_length),
    ensures
        final(out)@ == old(out)@ + parts_playing(
            *event,
            pattern_event_ranges(*event, phrase_length),
            phrase_range,
            phrase_offset,
            sequence_start,
            phrase_length,
        ),
{
    let parts = event.absolute_tick_ranges(phrase_length);
    let ghost start_out = out@;
    let mut q: usize = 0;
    while q < parts.len()
        invariant
            0 <= q <= parts@.len(),
            event.stop is Some,
            parts@ == pattern_event_ranges(*event, phrase_length),
            parts_fit(*event, parts@, phrase_range, phrase_offset, sequence_start, phrase_length),
            out@ == start_out + parts_playing(*event, parts@.take(q as int), phrase_range, phrase_offset, sequence_start, phrase_length),
        decreases parts@.len() - q,
    {
        assert(parts@.take(q + 1).drop_last() =~= parts@.take(q as int));
        let (part, part_offset, _) = parts[q];
        if part.overlaps(&phrase_range) {
            assert(pattern_play_fits(*event, parts@[q as int], phrase_range, phrase_offset, sequence_start, phrase_length));
            let event_length = event.length(phrase_length);
            let absolute_offset = phrase_offset + sequence_start;
            let absolute_start = if part.contains(phrase_range.start) {
                phrase_range.start
            } else {
                part.start
            };
            let absolute_stop = if part.contains(phrase_range.stop) {
                phrase_range.stop
            } else {
                part.stop
            };
            let relative_range = TickRange::new(
                absolute_start - part.start + part_offset,
                absolute_stop - part.start + part_offset,
            );
            out.push((event.pattern, absolute_start, relative_range, event_length, absolute_offset));
        }
        assert(out@ =~= start_out + parts_playing(*event, parts@.take(q + 1), phrase_range, phrase_offset, sequence_start, phrase_length));
        q += 1;
    }
    assert(parts@.take(q as int) =~= parts@);
}

/// Append what the pattern events `events` play inside `phrase_range` to `out`.
fn push_range_plays(
    events: &Vec<LoopablePatternEvent>,
    phrase_range: TickRange,
    phrase_offset: u32,
    sequence_start: u32,
    phrase_length: u32,
    out: &mut Vec<(u8, u32, TickRange, u32, u32)>,
)
    requires
        events_fit(events@, phrase_range, phrase_offset, sequence_start, phrase_length),
    ensures
        final(out)@ == old(out)@ + events_playing(events@, phrase_range, phrase_offset, sequence_start, phrase_length),
{
    let ghost start_out = out@;
    let mut e: usize = 0;
    while e < events.len()
        invariant
            0 <= e <= events@.len(),
            events_fit(events@, phrase_range, phrase_offset, sequence_start, phrase_length),
            out@ == start_out + events_playing(events@.take(e as int), phrase_range, phrase_offset, sequence_start, phrase_length),
        decreases events@.len() - e,
    {
        assert(events@.take(e + 1).drop_last() =~= events@.take(e as int));
        let event = &events[e];
        if event.stop().is_some() && event.start() < phrase_length {
            assert(events@[e as int] == *event);
            push_event_plays(event, phrase_range, phrase_offset, sequence_start, phrase_length, out);
        }
        assert(out@ =~= start_out + events_playing(events@.take(e + 1), phrase_range, phrase_offset, sequence_start, phrase_length));
        e += 1;
    }
    assert(events@.take(e as int) =~= events@);
}

/// `notes` moved `offset` ticks later.
pub open spec fn shifted(notes: Seq<PlayingNoteEvent>, offset: u32) -> Seq<PlayingNoteEvent> {
    Seq::new(
        notes.len(),
        |i: int|
            PlayingNoteEvent {
                start: (notes[i].start + offset) as u32,
                stop: (notes[i].stop + offset) as u32,
                ..notes[i]
            },
    )
}

/// Whether `notes` can be moved `offset` ticks later.
pub open spec fn shift_fits(notes: Seq<PlayingNoteEvent>, offset: u32) -> bool {
    forall|i: int|
        0 <= i < notes.len() ==> (#[trigger] notes[i]).start + offset <= u32::MAX && notes[i].stop
            + offset <= u32::MAX
}

/// The notes, before moving them, that the pattern play `play` of `channel` starts.
pub open spec fn play_notes_unshifted(channel: Channel, play: (u8, u32, TickRange, u32, u32)) -> Seq<PlayingNoteEvent> {
    let pattern = channel.patterns[play.0 as int];
    notes_for_ranges(
        pattern.note_events@,
        pattern_play_ranges(pattern.length, play.2),
        play.2.start,
        play.1,
        match pattern.length {
            Some(l) => l,
            None => play.3,
        },
    )
}

/// The notes that the pattern play `play` of `channel` starts, at their ticks in the song.
pub open spec fn play_notes(channel: Channel, play: (u8, u32, TickRange, u32, u32)) -> Seq<PlayingNoteEvent> {
    shifted(play_notes_unshifted(channel, play), play.4)
}

/// Whether the notes of the pattern play `play` can be computed.
pub open spec fn play_notes_defined(channel: Channel, play: (u8, u32, TickRange, u32, u32)) -> bool {
    let pattern = channel.patterns[play.0 as int];
    &&& play.0 < 5
    &&& pattern.length matches Some(l) ==> l > 0 && looping_ranges_fit(l, play.2)
    &&& notes_for_ranges_defined(
        pattern.note_events@,
        pattern_play_ranges(pattern.length, play.2),
        play.2.start,
        play.1,
        match pattern.length {
            Some(l) => l,
            None => play.3,
        },
    )
    &&& shift_fits(play_notes_unshifted(channel, play), play.4)
}

/// The notes the pattern plays `plays` of `channel` start, one play after the other.
pub open spec fn notes_of_plays(channel: Channel, plays: Seq<(u8, u32, TickRange, u32, u32)>) -> Seq<PlayingNoteEvent>
    decreases plays.len(),
{
    if plays.len() == 0 {
        Seq::empty()
    } else {
        notes_of_plays(channel, plays.drop_last()) + play_notes(channel, plays.last())
    }
}

/// The phrase range of a phrase play of `channel`: the part of its range relative to the
/// sequence start.
pub open spec fn phrase_play_range(phrase_play: (TickRange, u32, u8)) -> TickRange {
    TickRange {
        start: (phrase_play.0.start - phrase_play.1) as u32,
        stop: (phrase_play.0.stop - phrase_play.1) as u32,
    }
}

/// The pattern plays of the phrase play `phrase_play` of `channel`.
pub open spec fn plays_of_phrase(channel: Channel, phrase_play: (TickRange, u32, u8)) -> Seq<(u8, u32, TickRange, u32, u32)> {
    let phrase = channel.phrases[phrase_play.2 as int];
    patterns_playing(
        phrase.event_seq(),
        looping_ranges_of(phrase.length_ticks(), phrase_play_range(phrase_play)),
        phrase_play.1,
        phrase.length_ticks(),
    )
}

/// Whether the pattern plays of the phrase play `phrase_play` of `channel` can be computed.
pub open spec fn phrase_patterns_defined(channel: Channel, phrase_play: (TickRange, u32, u8)) -> bool {
    let phrase = channel.phrases[phrase_play.2 as int];
    let length = phrase.length_ticks();
    let range = phrase_play_range(phrase_play);
    &&& phrase_play.2 < 5
    &&& phrase_play.1 <= phrase_play.0.start
    &&& phrase_play.1 <= phrase_play.0.stop
    &&& length > 0
    &&& looping_ranges_fit(length, range)
    &&& patterns_fit(phrase.event_seq(), looping_ranges_of(length, range), phrase_play.1, length)
}

/// Whether the notes of the phrase play `phrase_play` of `channel` can be computed.
pub open spec fn phrase_play_defined(channel: Channel, phrase_play: (TickRange, u32, u8)) -> bool {
    &&& phrase_patterns_defined(channel, phrase_play)
    &&& forall|i: int|
        0 <= i < plays_of_phrase(channel, phrase_play).len() ==> play_notes_defined(
            channel,
            #[trigger] plays_of_phrase(channel, phrase_play)[i],
        )
}

/// The notes the phrase plays `phrase_plays` of `channel` start, one after the other.
pub open spec fn notes_of_phrase_plays(channel: Channel, phrase_plays: Seq<(TickRange, u32, u8)>) -> Seq<PlayingNoteEvent>
    decreases phrase_plays.len(),
{
    if phrase_plays.len() == 0 {
        Seq::empty()
    } else {
        notes_of_phrase_plays(channel, phrase_plays.drop_last()) + notes_of_plays(
            channel,
            plays_of_phrase(channel, phrase_plays.last()),
        )
    }
}

/// The notes `channel` starts during `range`.
pub open spec fn channel_notes(channel: Channel, range: TickRange) -> Seq<PlayingNoteEvent> {
    notes_of_phrase_plays(channel, phrases_playing(channel.timeline.phrase_events@, range))
}

/// Whether the notes `channel` starts during `range` can be computed.
pub open spec fn channel_notes_defined(channel: Channel, range: TickRange) -> bool {
    let plays = phrases_playing(channel.timeline.phrase_events@, range);
    forall|i: int| 0 <= i < plays.len() ==> phrase_play_defined(channel, #[trigger] plays[i])
}

/// The notes the pattern play `play` of `channel` starts.
fn notes_for_play(channel: &Channel, play: (u8, u32, TickRange, u32, u32)) -> (r: Vec<PlayingNoteEvent>)
    requires
        play_notes_defined(*channel, play),
    ensures
        r@ == play_notes(*channel, play),
{
    let (pattern_index, absolute_start, relative_range, pattern_event_length, absolute_offset) = play;
    let pattern = channel.pattern(pattern_index);
    let notes = pattern.starting_notes(absolute_start, relative_range, pattern_event_length);
    let ghost unshifted = notes@;
    let mut out: Vec<PlayingNoteEvent> = Vec::new();
    let mut i: usize = 0;
    while i < notes.len()
        invariant
            0 <= i <= unshifted.len(),
            notes@ == unshifted,
            shift_fits(unshifted, absolute_offset),
            out@ == shifted(unshifted.take(i as int), absolute_offset),
        decreases unshifted.len() - i,
    {
        let mut note = notes[i];
        assert(unshifted[i as int] == note);
        note.start = note.start + absolute_offset;
        note.stop = note.stop + absolute_offset;
        out.push(note);
        assert(out@ =~= shifted(unshifted.take(i + 1), absolute_offset));
        i += 1;
    }
    assert(unshifted.take(i as int) =~= unshifted);
    out
}

/// The 16 channels and the 5 sequences that arrange their phrases.
pub struct Sequencer {
    pub channels: [Channel; 16],
    pub sequences: [Sequence; 5],
    pub sequence_playing: usize,
    pub sequence_queued: Option<usize>,
    pub last_sequence_started: u32,
}

impl Sequencer {
    /// Tick at which sequence `index`, started at `start`, stops.
    pub open spec fn sequence_stop(&self, start: u32, index: int) -> int {
        start + sequence_length(self.sequences[index], self.channels@)
    }

    /// Whether sequence `index` can be played from `start`: its phrases exist and have a
    /// length, and the timelines it fills stay within the range of a tick.
    pub open spec fn can_play_sequence(&self, start: u32, index: int) -> bool {
        let phrases = self.sequences[index].phrase_seq();
        let stop = self.sequence_stop(start, index);
        &&& 0 <= index < 5
        &&& phrases_exist(phrases, self.channels@)
        &&& stop + default_phrase_length() * 4 <= u32::MAX
        &&& forall|c: int|
            #![trigger phrases[c]]
            0 <= c < 16 && phrases[c] is Some ==> {
                let length = self.channels[c].phrases[phrases[c].unwrap() as int].length_ticks();
                &&& length > 0
                &&& stop + length <= u32::MAX
                &&& self.channels[c].timeline.length_defined()
            }
    }

    /// The timeline of channel `c` once sequence `index` is played from `start`.
    pub open spec fn timeline_after_sequence(&self, start: u32, index: int, c: int) -> Seq<LoopablePhraseEvent> {
        let events = self.channels[c].timeline.phrase_events@;
        match self.sequences[index].phrase_seq()[c] {
            Some(p) => with_phrase_repeats(
                events,
                start as int,
                self.sequence_stop(start, index),
                self.channels[c].phrases[p as int].length_ticks() as int,
                p,
            ),
            None => events,
        }
    }

    /// Sixteen new channels, and sequences that play phrase 0 to 4 on every channel.
    pub fn new() -> (r: Self)
        ensures
            forall|i: int| 0 <= i < 16 ==> (#[trigger] r.channels[i]).is_new(),
            forall|i: int|
                0 <= i < 5 ==> (#[trigger] r.sequences[i]).phrase_seq() == Seq::new(
                    16,
                    |c: int| Some(i as u8),
                ) && r.sequences[i].active_seq() == Seq::new(16, |c: int| true),
            r.sequence_playing == 0,
            r.sequence_queued is None,
            r.last_sequence_started == 0,
    {
        let channels = [
            Track::new(),
            Track::new(),
            Track::new(),
            Track::new(),
            Track::new(),
            Track::new(),
            Track::new(),
            Track::new(),
            Track::new(),
            Track::new(),
            Track::new(),
            Track::new(),
            Track::new(),
            Track::new(),
            Track::new(),
            Track::new(),
        ];
        let sequences = [
            Sequence::new(0),
            Sequence::new(1),
            Sequence::new(2),
            Sequence::new(3),
            Sequence::new(4),
        ];
        let r = Sequencer {
            channels,
            sequences,
            sequence_playing: 0,
            sequence_queued: None,
            last_sequence_started: 0,
        };
        assert forall|i: int| 0 <= i < 5 implies (#[trigger] r.sequences[i]).phrase_seq()
            == Seq::new(16, |c: int| Some(i as u8)) by {
            assert(Seq::new(16, |c: int| Some(i as u8)) =~= Seq::new(16, |c: int| Some(i as u8)));
        }
        r
    }

    pub fn channel(&self, index: usize) -> (r: &Channel)
        requires
            index < 16,
        ensures
            *r == self.channels[index as int],
    {
        &self.channels[index]
    }

    pub fn reset_timeline(&mut self)
        ensures
            forall|i: int|
                0 <= i < 16 ==> (#[trigger] final(self).channels[i]).timeline.phrase_events@
                    == Seq::<LoopablePhraseEvent>::empty() && final(self).channels[i].patterns
                    == old(self).channels[i].patterns && final(self).channels[i].phrases
                    == old(self).channels[i].phrases && final(self).channels[i].playing_notes
                    == old(self).channels[i].playing_notes,
            final(self).sequences == old(self).sequences,
            final(self).sequence_playing == old(self).sequence_playing,
            final(self).sequence_queued == old(self).sequence_queued,
            final(self).last_sequence_started == old(self).last_sequence_started,
    {
        let mut i: usize = 0;
        while i < 16
            invariant
                0 <= i <= 16,
                forall|j: int|
                    0 <= j < i ==> (#[trigger] self.channels[j]).timeline.phrase_events@
                        == Seq::<LoopablePhraseEvent>::empty() && self.channels[j].patterns
                        == old(self).channels[j].patterns && self.channels[j].phrases
                        == old(self).channels[j].phrases && self.channels[j].playing_notes
                        == old(self).channels[j].playing_notes,
                forall|j: int| i <= j < 16 ==> (#[trigger] self.channels[j]) == old(self).channels[j],
                self.sequences == old(self).sequences,
                self.sequence_playing == old(self).sequence_playing,
                self.sequence_queued == old(self).sequence_queued,
                self.last_sequence_started == old(self).last_sequence_started,
            decreases 16 - i,
        {
            self.channels[i].timeline.clear_events();
            i += 1;
        }
    }

    /// Tick at which the timelines stop: the latest stop of a phrase on any channel, or 0.
    pub fn get_timeline_end(&self) -> (r: u32)
        ensures
            r == timeline_end_of(self.channels@, 16),
    {
        let mut end = self.channels[0].timeline.get_last_stop();
        let mut i: usize = 1;
        while i < 16
            invariant
                1 <= i <= 16,
                end == timeline_end_of(self.channels@, i as int),
            decreases 16 - i,
        {
            let s = self.channels[i].timeline.get_last_stop();
            if s > end {
                end = s;
            }
            i += 1;
        }
        end
    }

    /// Channel `index`, to be changed.
    pub fn channel_mut(&mut self, index: usize) -> (r: &mut Channel)
        requires
            index < 16,
        ensures
            *r == old(self).channels[index as int],
            final(self).channels@ == old(self).channels@.update(index as int, *final(r)),
            final(self).sequences == old(self).sequences,
            final(self).sequence_playing == old(self).sequence_playing,
            final(self).sequence_queued == old(self).sequence_queued,
            final(self).last_sequence_started == old(self).last_sequence_started,
    {
        &mut self.channels[index]
    }

    /// Sequence `index`, to be changed.
    pub fn get_sequence(&mut self, index: usize) -> (r: &mut Sequence)
        requires
            index < 5,
        ensures
            *r == old(self).sequences[index as int],
            final(self).sequences@ == old(self).sequences@.update(index as int, *final(r)),
            final(self).channels == old(self).channels,
            final(self).sequence_playing == old(self).sequence_playing,
            final(self).sequence_queued == old(self).sequence_queued,
            final(self).last_sequence_started == old(self).last_sequence_started,
    {
        &mut self.sequences[index]
    }

    /// The note on messages each channel sends for its playing notes when the transport
    /// starts halfway through.
    pub fn start(&self) -> (r: Vec<Vec<TimedMessage>>)
        ensures
            r@.len() == 16,
            forall|i: int| 0 <= i < 16 ==> are_note_ons(#[trigger] r@[i]@, self.channels[i].playing()),
    {
        let mut out: Vec<Vec<TimedMessage>> = Vec::new();
        let mut i: usize = 0;
        while i < 16
            invariant
                0 <= i <= 16,
                out@.len() == i,
                forall|j: int| 0 <= j < i ==> are_note_ons(#[trigger] out@[j]@, self.channels[j].playing()),
            decreases 16 - i,
        {
            out.push(self.channels[i].start_playing_notes());
            i += 1;
        }
        out
    }

    /// The note off messages each channel sends for its playing notes when the transport
    /// stops halfway through.
    pub fn stop(&self) -> (r: Vec<Vec<TimedMessage>>)
        ensures
            r@.len() == 16,
            forall|i: int| 0 <= i < 16 ==> are_note_offs(#[trigger] r@[i]@, self.channels[i].playing()),
    {
        let mut out: Vec<Vec<TimedMessage>> = Vec::new();
        let mut i: usize = 0;
        while i < 16
            invariant
                0 <= i <= 16,
                out@.len() == i,
                forall|j: int| 0 <= j < i ==> are_note_offs(#[trigger] out@[j]@, self.channels[j].playing()),
            decreases 16 - i,
        {
            out.push(self.channels[i].stop_playing_notes());
            i += 1;
        }
        out
    }

    /// Forget the playing notes of every channel, as the transport goes back to its start.
    pub fn reset(&mut self)
        ensures
            forall|i: int|
                0 <= i < 16 ==> (#[trigger] final(self).channels[i]).playing_notes@ == Seq::<
                    crate::events::PlayingNoteEvent,
                >::empty() && final(self).channels[i].patterns == old(self).channels[i].patterns
                    && final(self).channels[i].phrases == old(self).channels[i].phrases
                    && final(self).channels[i].timeline == old(self).channels[i].timeline,
            final(self).sequences == old(self).sequences,
            final(self).sequence_playing == old(self).sequence_playing,
            final(self).sequence_queued == old(self).sequence_queued,
            final(self).last_sequence_started == old(self).last_sequence_started,
    {
        let mut i: usize = 0;
        while i < 16
            invariant
                0 <= i <= 16,
                forall|j: int|
                    0 <= j < i ==> (#[trigger] self.channels[j]).playing_notes@ == Seq::<
                        crate::events::PlayingNoteEvent,
                    >::empty() && self.channels[j].patterns == old(self).channels[j].patterns
                        && self.channels[j].phrases == old(self).channels[j].phrases
                        && self.channels[j].timeline == old(self).channels[j].timeline,
                forall|j: int| i <= j < 16 ==> (#[trigger] self.channels[j]) == old(self).channels[j],
                self.sequences == old(self).sequences,
                self.sequence_playing == old(self).sequence_playing,
                self.sequence_queued == old(self).sequence_queued,
                self.last_sequence_started == old(self).last_sequence_started,
            decreases 16 - i,
        {
            self.channels[i].clear_playing_notes();
            i += 1;
        }
    }

    /// What the phrases on the timeline of channel `channel_index` play during `tick_range`.
    pub fn playing_phrases(&self, channel_index: usize, tick_range: &TickRange) -> (r: Vec<(TickRange, u32, u8)>)
        requires
            channel_index < 16,
        ensures
            r@ == phrases_playing(self.channels[channel_index as int].timeline.phrase_events@, *tick_range),
    {
        let events = self.channels[channel_index].timeline.events();
        let mut out: Vec<(TickRange, u32, u8)> = Vec::new();
        let mut i: usize = 0;
        while i < events.len()
            invariant
                0 <= i <= events@.len(),
                out@ == phrases_playing(events@.take(i as int), *tick_range),
            decreases events@.len() - i,
        {
            assert(events@.take(i + 1).drop_last() =~= events@.take(i as int));
            let event = events[i];
            if let Some(stop) = event.stop() {
                if tick_range.overlaps(&TickRange::new(event.start(), stop)) {
                    let play = if tick_range.contains(stop) {
                        (TickRange::new(tick_range.start, stop), event.start(), event.phrase)
                    } else if tick_range.contains(event.start()) {
                        (TickRange::new(event.start(), tick_range.stop), event.start(), event.phrase)
                    } else {
                        (*tick_range, event.start(), event.phrase)
                    };
                    out.push(play);
                }
            }
            i += 1;
        }
        assert(events@.take(i as int) =~= events@);
        out
    }

    /// When the timelines stop during `cycle`, start the queued sequence there (or the one
    /// playing again when none is queued).
    pub fn autoqueue_next_sequence(&mut self, cycle: &ProcessCycle)
        requires
            ({
                let end = timeline_end_of(old(self).channels@, 16);
                let next = match old(self).sequence_queued {
                    Some(i) => i,
                    None => old(self).sequence_playing,
                };
                range_contains(cycle.tick_range.start as int, cycle.tick_range.stop as int, end as int)
                    ==> old(self).can_play_sequence(end, next as int)
            }),
        ensures
            ({
                let end = timeline_end_of(old(self).channels@, 16);
                let next = match old(self).sequence_queued {
                    Some(i) => i,
                    None => old(self).sequence_playing,
                };
                if range_contains(cycle.tick_range.start as int, cycle.tick_range.stop as int, end as int) {
                    &&& final(self).sequence_playing == next
                    &&& final(self).sequence_queued is None
                    &&& forall|c: int|
                        0 <= c < 16 ==> (#[trigger] final(self).channels[c]).timeline.phrase_events@
                            == old(self).timeline_after_sequence(end, next as int, c)
                            && final(self).channels[c].patterns == old(self).channels[c].patterns
                            && final(self).channels[c].phrases == old(self).channels[c].phrases
                            && final(self).channels[c].playing_notes
                            == old(self).channels[c].playing_notes
                    &&& final(self).sequences == old(self).sequences
                    &&& final(self).last_sequence_started == old(self).last_sequence_started
                } else {
                    *final(self) == *old(self)
                }
            }),
    {
        let timeline_end = self.get_timeline_end();
        if cycle.tick_range.contains(timeline_end) {
            if let Some(index) = self.sequence_queued {
                self.sequence_queued = None;
                self.sequence_playing = index;
            }
            self.play_sequence(timeline_end, self.sequence_playing);
        }
    }

    /// What the patterns of phrase `phrase_index` of channel `channel_index` play during
    /// `tick_range`, the phrase being played by a sequence started at `sequence_start`.
    pub fn playing_patterns(
        &self,
        tick_range: &TickRange,
        channel_index: usize,
        phrase_index: u8,
        sequence_start: u32,
    ) -> (r: Vec<(u8, u32, TickRange, u32, u32)>)
        requires
            channel_index < 16,
            phrase_index < 5,
            sequence_start <= tick_range.start,
            sequence_start <= tick_range.stop,
            ({
                let phrase = self.channels[channel_index as int].phrases[phrase_index as int];
                let length = phrase.length_ticks();
                let range = TickRange {
                    start: (tick_range.start - sequence_start) as u32,
                    stop: (tick_range.stop - sequence_start) as u32,
                };
                &&& length > 0
                &&& looping_ranges_fit(length, range)
                &&& patterns_fit(phrase.event_seq(), looping_ranges_of(length, range), sequence_start, length)
            }),
        ensures
            ({
                let phrase = self.channels[channel_index as int].phrases[phrase_index as int];
                let length = phrase.length_ticks();
                let range = TickRange {
                    start: (tick_range.start - sequence_start) as u32,
                    stop: (tick_range.stop - sequence_start) as u32,
                };
                r@ == patterns_playing(phrase.event_seq(), looping_ranges_of(length, range), sequence_start, length)
            }),
    {
        let phrase = &self.channels[channel_index].phrases[phrase_index as usize];
        let sequence_range = TickRange::new(tick_range.start - sequence_start, tick_range.stop - sequence_start);
        let phrase_ranges = phrase.looping_ranges(&sequence_range);
        let phrase_length = phrase.length();
        let events = phrase.events();
        let mut out: Vec<(u8, u32, TickRange, u32, u32)> = Vec::new();
        let mut k: usize = 0;
        while k < phrase_ranges.len()
            invariant
                0 <= k <= phrase_ranges@.len(),
                events@ == phrase.event_seq(),
                phrase_length == phrase.length_ticks(),
                patterns_fit(events@, phrase_ranges@, sequence_start, phrase_length),
                out@ == patterns_playing(events@, phrase_ranges@.take(k as int), sequence_start, phrase_length),
            decreases phrase_ranges@.len() - k,
        {
            assert(phrase_ranges@.take(k + 1).drop_last() =~= phrase_ranges@.take(k as int));
            let (phrase_range, phrase_offset) = phrase_ranges[k];
            assert(phrase_ranges@[k as int] == (phrase_range, phrase_offset));
            push_range_plays(events, phrase_range, phrase_offset, sequence_start, phrase_length, &mut out);
            k += 1;
        }
        assert(phrase_ranges@.take(k as int) =~= phrase_ranges@);
        out
    }

    /// The notes channel `channel_index` starts during `tick_range`.
    fn starting_notes(&self, channel_index: usize, tick_range: &TickRange) -> (r: Vec<PlayingNoteEvent>)
        requires
            channel_index < 16,
            channel_notes_defined(self.channels[channel_index as int], *tick_range),
        ensures
            r@ == channel_notes(self.channels[channel_index as int], *tick_range),
    {
        let ghost channel = self.channels[channel_index as int];
        let phrase_plays = self.playing_phrases(channel_index, tick_range);
        let mut notes: Vec<PlayingNoteEvent> = Vec::new();
        let mut i: usize = 0;
        while i < phrase_plays.len()
            invariant
                0 <= i <= phrase_plays@.len(),
                channel_index < 16,
                channel == self.channels[channel_index as int],
                phrase_plays@ == phrases_playing(channel.timeline.phrase_events@, *tick_range),
                channel_notes_defined(channel, *tick_range),
                notes@ == notes_of_phrase_plays(channel, phrase_plays@.take(i as int)),
            decreases phrase_plays@.len() - i,
        {
            assert(phrase_plays@.take(i + 1).drop_last() =~= phrase_plays@.take(i as int));
            let (range, sequence_start, phrase_index) = phrase_plays[i];
            assert(phrase_plays@[i as int] == (range, sequence_start, phrase_index));
            assert(phrase_play_defined(channel, phrase_plays@[i as int]));
            let plays = self.playing_patterns(&range, channel_index, phrase_index, sequence_start);
            let ghost before = notes@;
            let mut k: usize = 0;
            while k < plays.len()
                invariant
                    0 <= k <= plays@.len(),
                    channel_index < 16,
                    channel == self.channels[channel_index as int],
                    plays@ == plays_of_phrase(channel, (range, sequence_start, phrase_index)),
                    phrase_play_defined(channel, (range, sequence_start, phrase_index)),
                    notes@ == before + notes_of_plays(channel, plays@.take(k as int)),
                decreases plays@.len() - k,
            {
                assert(plays@.take(k + 1).drop_last() =~= plays@.take(k as int));
                let play = plays[k];
                assert(plays@[k as int] == play);
                let mut played = notes_for_play(&self.channels[channel_index], play);
                notes.append(&mut played);
                assert(notes@ =~= before + notes_of_plays(channel, plays@.take(k + 1)));
                k += 1;
            }
            assert(plays@.take(k as int) =~= plays@);
            i += 1;
        }
        assert(phrase_plays@.take(i as int) =~= phrase_plays@);
        notes
    }

    /// When the transport rolls, stop the notes of each channel that stop during `cycle` and
    /// start those its phrases start then. Gives for each channel the messages this takes,
    /// each with the tick at which it is due.
    pub fn output_midi(&mut self, cycle: &ProcessCycle) -> (r: Vec<Vec<(u32, Message)>>)
        requires
            cycle.is_rolling ==> forall|c: int|
                0 <= c < 16 ==> channel_notes_defined(#[trigger] old(self).channels[c], cycle.tick_range),
        ensures
            !cycle.is_rolling ==> r@.len() == 0 && *final(self) == *old(self),
            cycle.is_rolling ==> {
                &&& r@.len() == 16
                &&& forall|c: int|
                    0 <= c < 16 ==> are_ticked_notes(
                        #[trigger] r@[c]@,
                        notes_stopping_in(old(self).channels[c].playing(), cycle.tick_range),
                        channel_notes(old(self).channels[c], cycle.tick_range),
                    ) && final(self).channels[c].playing() == notes_playing_on(
                        old(self).channels[c].playing(),
                        cycle.tick_range,
                    ) + channel_notes(old(self).channels[c], cycle.tick_range)
                        && final(self).channels[c].patterns == old(self).channels[c].patterns
                        && final(self).channels[c].phrases == old(self).channels[c].phrases
                        && final(self).channels[c].timeline == old(self).channels[c].timeline
                &&& final(self).sequences == old(self).sequences
                &&& final(self).sequence_playing == old(self).sequence_playing
                &&& final(self).sequence_queued == old(self).sequence_queued
                &&& final(self).last_sequence_started == old(self).last_sequence_started
            },
    {
        let mut out: Vec<Vec<(u32, Message)>> = Vec::new();
        if !cycle.is_rolling {
            return out;
        }
        let mut c: usize = 0;
        while c < 16
            invariant
                0 <= c <= 16,
                cycle.is_rolling,
                out@.len() == c,
                forall|j: int|
                    0 <= j < 16 ==> channel_notes_defined(#[trigger] old(self).channels[j], cycle.tick_range),
                forall|j: int|
                    0 <= j < c ==> are_ticked_notes(
                        #[trigger] out@[j]@,
                        notes_stopping_in(old(self).channels[j].playing(), cycle.tick_range),
                        channel_notes(old(self).channels[j], cycle.tick_range),
                    ) && self.channels[j].playing() == notes_playing_on(
                        old(self).channels[j].playing(),
                        cycle.tick_range,
                    ) + channel_notes(old(self).channels[j], cycle.tick_range)
                        && self.channels[j].patterns == old(self).channels[j].patterns
                        && self.channels[j].phrases == old(self).channels[j].phrases
                        && self.channels[j].timeline == old(self).channels[j].timeline,
                forall|j: int| c <= j < 16 ==> (#[trigger] self.channels[j]) == old(self).channels[j],
                self.sequences == old(self).sequences,
                self.sequence_playing == old(self).sequence_playing,
                self.sequence_queued == old(self).sequence_queued,
                self.last_sequence_started == old(self).last_sequence_started,
            decreases 16 - c,
        {
            let notes = self.starting_notes(c, &cycle.tick_range);
            let ghost channel = self.channels[c as int];
            let messages = self.channels[c].output_midi(cycle.tick_range, notes);
            let ghost before = out@;
            out.push(messages);
            assert(forall|j: int| 0 <= j < c ==> out@[j] == before[j]);
            assert(out@[c as int] == messages);
            assert(channel == old(self).channels[c as int]);
            assert(are_ticked_notes(
                out@[c as int]@,
                notes_stopping_in(old(self).channels[c as int].playing(), cycle.tick_range),
                channel_notes(old(self).channels[c as int], cycle.tick_range),
            ));
            assert(self.channels[c as int].playing() == notes_playing_on(
                old(self).channels[c as int].playing(),
                cycle.tick_range,
            ) + channel_notes(old(self).channels[c as int], cycle.tick_range));
            c += 1;
        }
        out
    }

    /// Place the phrases of sequence `sequence_index` on the timelines of their channels from
    /// tick `start`, each repeated until the longest of them ends.
    pub fn play_sequence(&mut self, start: u32, sequence_index: usize)
        requires
            old(self).can_play_sequence(start, sequence_index as int),
        ensures
            forall|c: int|
                0 <= c < 16 ==> (#[trigger] final(self).channels[c]).timeline.phrase_events@
                    == old(self).timeline_after_sequence(start, sequence_index as int, c)
                    && final(self).channels[c].patterns == old(self).channels[c].patterns
                    && final(self).channels[c].phrases == old(self).channels[c].phrases
                    && final(self).channels[c].playing_notes == old(self).channels[c].playing_notes,
            final(self).sequences == old(self).sequences,
            final(self).sequence_playing == old(self).sequence_playing,
            final(self).sequence_queued == old(self).sequence_queued,
            final(self).last_sequence_started == old(self).last_sequence_started,
    {
        let sequence_length = self.sequences[sequence_index].length(&self.channels);
        let stop = start + sequence_length;
        let ghost phrases = self.sequences[sequence_index as int].phrase_seq();
        let mut c: usize = 0;
        while c < 16
            invariant
                0 <= c <= 16,
                sequence_index < 5,
                stop == old(self).sequence_stop(start, sequence_index as int),
                phrases == old(self).sequences[sequence_index as int].phrase_seq(),
                old(self).can_play_sequence(start, sequence_index as int),
                forall|j: int|
                    0 <= j < c ==> (#[trigger] self.channels[j]).timeline.phrase_events@
                        == old(self).timeline_after_sequence(start, sequence_index as int, j)
                        && self.channels[j].patterns == old(self).channels[j].patterns
                        && self.channels[j].phrases == old(self).channels[j].phrases
                        && self.channels[j].playing_notes == old(self).channels[j].playing_notes,
                forall|j: int| c <= j < 16 ==> (#[trigger] self.channels[j]) == old(self).channels[j],
                self.sequences == old(self).sequences,
                self.sequence_playing == old(self).sequence_playing,
                self.sequence_queued == old(self).sequence_queued,
                self.last_sequence_started == old(self).last_sequence_started,
            decreases 16 - c,
        {
            if let Some(phrase_index) = self.sequences[sequence_index].get_phrase(c) {
                assert(phrases[c as int] == Some(phrase_index));
                proof {
                    self.sequences[sequence_index as int].lemma_sixteen_channels();
                }
                assert(phrase_index < 5);
                let phrase_length = self.channels[c].phrases[phrase_index as usize].length();
                let ghost initial = self.channels[c as int].timeline.phrase_events@;
                let ghost bound: int = match max_stop(initial) {
                    Some(m) => if m > stop {
                        m as int
                    } else {
                        stop as int
                    },
                    None => stop as int,
                };
                proof {
                    lemma_max_stop_bounds(initial);
                    assert(stops_within(initial, bound));
                }
                let mut phrase_start = start;
                while phrase_start < stop
                    invariant
                        c < 16,
                        sequence_index < 5,
                        phrase_length > 0,
                        stop + phrase_length <= u32::MAX,
                        phrase_start <= stop + phrase_length,
                        bound + default_phrase_length() * 4 <= u32::MAX,
                        stop <= bound,
                        stops_within(self.channels[c as int].timeline.phrase_events@, bound),
                        with_phrase_repeats(
                            initial,
                            start as int,
                            stop as int,
                            phrase_length as int,
                            phrase_index,
                        ) == with_phrase_repeats(
                            self.channels[c as int].timeline.phrase_events@,
                            phrase_start as int,
                            stop as int,
                            phrase_length as int,
                            phrase_index,
                        ),
                        self.channels[c as int].patterns == old(self).channels[c as int].patterns,
                        self.channels[c as int].phrases == old(self).channels[c as int].phrases,
                        self.channels[c as int].playing_notes == old(self).channels[c as int].playing_notes,
                        forall|j: int|
                            0 <= j < 16 && j != c ==> (#[trigger] self.channels[j]) == old(
                                self,
                            ).channels[j] || (j < c && self.channels[j].timeline.phrase_events@
                                == old(self).timeline_after_sequence(start, sequence_index as int, j)
                                && self.channels[j].patterns == old(self).channels[j].patterns
                                && self.channels[j].phrases == old(self).channels[j].phrases
                                && self.channels[j].playing_notes == old(self).channels[j].playing_notes),
                        forall|j: int| c < j < 16 ==> (#[trigger] self.channels[j]) == old(self).channels[j],
                        forall|j: int|
                            0 <= j < c ==> (#[trigger] self.channels[j]).timeline.phrase_events@
                                == old(self).timeline_after_sequence(start, sequence_index as int, j)
                                && self.channels[j].patterns == old(self).channels[j].patterns
                                && self.channels[j].phrases == old(self).channels[j].phrases
                                && self.channels[j].playing_notes == old(self).channels[j].playing_notes,
                        self.sequences == old(self).sequences,
                        self.sequence_playing == old(self).sequence_playing,
                        self.sequence_queued == old(self).sequence_queued,
                        self.last_sequence_started == old(self).last_sequence_started,
                    decreases stop + phrase_length - phrase_start,
                {
                    let phrase_stop = if phrase_start + phrase_length > stop {
                        stop
                    } else {
                        phrase_start + phrase_length
                    };
                    let event = LoopablePhraseEvent::new(phrase_start, phrase_stop, phrase_index);
                    let ghost before = self.channels[c as int].timeline.phrase_events@;
                    proof {
                        lemma_max_stop_within(before, bound);
                        lemma_complete_event_stops_within(
                            before,
                            event,
                            timeline_length(before) as u32,
                            bound,
                        );
                    }
                    self.channels[c].timeline.add_complete_event(event);
                    phrase_start = phrase_start + phrase_length;
                }
            }
            c += 1;
        }
    }
}

/// A timeline whose stops all lie within `bound` and whose last event stops at `bound` ends
/// there.
proof fn lemma_last_stop_is_latest(events: Seq<LoopablePhraseEvent>, bound: u32)
    requires
        events.len() > 0,
        stops_within(events, bound as int),
        events.last().stop == Some(bound),
    ensures
        max_stop(events) == Some(bound),
{
    let rest = events.drop_last();
    assert(stops_within(rest, bound as int)) by {
        assert forall|i: int| 0 <= i < rest.len() implies match #[trigger] rest[i].stop_tick() {
            Some(s) => s <= bound,
            None => true,
        } by {
            assert(rest[i] == events[i]);
        }
    }
    lemma_max_stop_within(rest, bound as int);
}

/// Repeating a phrase up to `stop` over a timeline that ends by `stop` makes the timeline end
/// exactly at `stop`.
proof fn lemma_repeats_end_at_stop(
    events: Seq<LoopablePhraseEvent>,
    from: int,
    stop: int,
    length: int,
    phrase: u8,
)
    requires
        length > 0,
        0 <= from < stop <= u32::MAX,
        stops_within(events, stop),
    ensures
        max_stop(with_phrase_repeats(events, from, stop, length, phrase)) == Some(stop as u32),
    decreases stop - from,
{
    let event_stop = if from + length > stop {
        stop
    } else {
        from + length
    };
    let event = LoopablePhraseEvent { start: from as u32, stop: Some(event_stop as u32), phrase };
    let placed = with_complete_event(events, event, timeline_length(events) as u32);
    lemma_complete_event_stops_within(events, event, timeline_length(events) as u32, stop);
    assert(with_phrase_repeats(events, from, stop, length, phrase) == with_phrase_repeats(
        placed,
        from + length,
        stop,
        length,
        phrase,
    ));
    if from + length < stop {
        lemma_repeats_end_at_stop(placed, from + length, stop, length, phrase);
    } else {
        assert(with_phrase_repeats(placed, from + length, stop, length, phrase) == placed);
        assert(event.stop == Some(stop as u32));
        assert(placed.last() == event);
        lemma_last_stop_is_latest(placed, stop as u32);
    }
}

/// The end of the timelines is the latest of their ends.
proof fn lemma_timeline_end_is_latest(channels: Seq<Channel>, n: int)
    requires
        1 <= n <= channels.len(),
    ensures
        forall|c: int| 0 <= c < n ==> last_stop(#[trigger] channels[c]) <= timeline_end_of(channels, n),
        exists|c: int| 0 <= c < n && last_stop(#[trigger] channels[c]) == timeline_end_of(channels, n),
    decreases n,
{
    if n == 1 {
        assert(last_stop(channels[0]) == timeline_end_of(channels, 1));
    } else {
        lemma_timeline_end_is_latest(channels, n - 1);
        let c = choose|c: int| 0 <= c < n - 1 && last_stop(#[trigger] channels[c]) == timeline_end_of(channels, n - 1);
        if last_stop(channels[n - 1]) > timeline_end_of(channels, n - 1) {
            assert(last_stop(channels[n - 1]) == timeline_end_of(channels, n));
        } else {
            assert(last_stop(channels[c]) == timeline_end_of(channels, n));
        }
    }
}

/// A sequence played from the end of the timelines, or later, makes them end where the
/// sequence stops; a sequence without phrases leaves their end where it was.
pub proof fn law_played_sequence_ends_the_timeline(before: Sequencer, after: Sequencer, start: u32, index: int)
    requires
        before.can_play_sequence(start, index),
        timeline_end_of(before.channels@, 16) <= start,
        forall|c: int|
            0 <= c < 16 ==> (#[trigger] after.channels[c]).timeline.phrase_events@
                == before.timeline_after_sequence(start, index, c),
    ensures
        (exists|c: int| 0 <= c < 16 && (#[trigger] before.sequences[index].phrase_seq()[c]) is Some)
            ==> timeline_end_of(after.channels@, 16) == before.sequence_stop(start, index),
        (forall|c: int| 0 <= c < 16 ==> (#[trigger] before.sequences[index].phrase_seq()[c]) is None)
            ==> timeline_end_of(after.channels@, 16) == timeline_end_of(before.channels@, 16),
{
    let phrases = before.sequences[index].phrase_seq();
    let stop = before.sequence_stop(start, index);
    let end = timeline_end_of(before.channels@, 16);
    before.sequences[index].lemma_sixteen_channels();
    lemma_timeline_end_is_latest(before.channels@, 16);
    lemma_timeline_end_is_latest(after.channels@, 16);
    law_longest_phrase_is_longest(phrases, before.channels@, 16);
    assert forall|c: int| 0 <= c < 16 implies {
        &&& phrases[c] is None ==> last_stop(#[trigger] after.channels[c]) == last_stop(before.channels[c])
        &&& phrases[c] is Some ==> last_stop(after.channels[c]) == stop
    } by {
        let events = before.channels[c].timeline.phrase_events@;
        assert(before.channels@[c] == before.channels[c]);
        assert(last_stop(before.channels@[c]) <= end);
        if phrases[c] is Some {
            let p = phrases[c].unwrap();
            let length = before.channels[c].phrases[p as int].length_ticks();
            assert(length > 0);
            assert(phrases[c] is Some);
            let m = longest_phrase(phrases, before.channels@, 16).unwrap();
            let w = choose|i: int|
                0 <= i < 16 && #[trigger] phrases[i] is Some && played_phrase_length(phrases, before.channels@, i) == m;
            assert(phrases[w] is Some);
            assert(before.channels@[w] == before.channels[w]);
            assert(m > 0);
            assert(stop > start);
            lemma_max_stop_bounds(events);
            assert(stops_within(events, stop)) by {
                match max_stop(events) {
                    Some(m) => {
                        assert forall|i: int| 0 <= i < events.len() implies match #[trigger] events[i].stop_tick() {
                            Some(s) => s <= stop,
                            None => true,
                        } by {
                            assert(stops_within(events, m as int));
                        }
                    },
                    None => {},
                }
            }
            lemma_repeats_end_at_stop(events, start as int, stop, length as int, p);
        }
    }
    if exists|c: int| 0 <= c < 16 && (#[trigger] phrases[c]) is Some {
        let k = choose|k: int| 0 <= k < 16 && (#[trigger] phrases[k]) is Some;
        assert(last_stop(after.channels[k]) == stop);
        assert(after.channels@[k] == after.channels[k]);
        let e = choose|e: int| 0 <= e < 16 && last_stop(#[trigger] after.channels@[e]) == timeline_end_of(after.channels@, 16);
        assert(after.channels@[e] == after.channels[e]);
        assert forall|c: int| 0 <= c < 16 implies last_stop(#[trigger] after.channels@[c]) <= stop by {
            assert(after.channels@[c] == after.channels[c]);
            assert(before.channels@[c] == before.channels[c]);
        }
    } else {
        let e = choose|e: int| 0 <= e < 16 && last_stop(#[trigger] after.channels@[e]) == timeline_end_of(after.channels@, 16);
        let f = choose|f: int| 0 <= f < 16 && last_stop(#[trigger] before.channels@[f]) == end;
        assert(after.channels@[e] == after.channels[e]);
        assert(before.channels@[e] == before.channels[e]);
        assert(after.channels@[f] == after.channels[f]);
        assert(before.channels@[f] == before.channels[f]);
        assert forall|c: int| 0 <= c < 16 implies last_stop(#[trigger] after.channels@[c]) == last_stop(before.channels@[c]) by {
            assert(phrases[c] is None);
            assert(after.channels@[c] == after.channels[c]);
            assert(before.channels@[c] == before.channels[c]);
        }
        assert(last_stop(after.channels@[f]) <= timeline_end_of(after.channels@, 16));
        assert(last_stop(before.channels@[e]) <= end);
    }
}

} // verus!
