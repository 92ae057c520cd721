use vstd::prelude::*;

use crate::events::PlayingNoteEvent;
use crate::loopable::{default_phrase_length, Loopable, Pattern, Phrase, Timeline};
use crate::message::{is_note, is_note_message, note, note_message, Message, TimedMessage};
use crate::tick_range::{range_contains, TickRange};

verus! {

/// The notes among `notes` that stop inside `range`, in order.
pub open spec fn notes_stopping_in(notes: Seq<PlayingNoteEvent>, range: TickRange) -> Seq<PlayingNoteEvent>
    decreases notes.len(),
{
    if notes.len() == 0 {
        Seq::empty()
    } else {
        let rest = notes_stopping_in(notes.drop_last(), range);
        if range_contains(range.start as int, range.stop as int, notes.last().stop as int) {
            rest.push(notes.last())
        } else {
            rest
        }
    }
}

/// The notes among `notes` that do not stop inside `range`, in order.
pub open spec fn notes_playing_on(notes: Seq<PlayingNoteEvent>, range: TickRange) -> Seq<PlayingNoteEvent>
    decreases notes.len(),
{
    if notes.len() == 0 {
        Seq::empty()
    } else {
        let rest = notes_playing_on(notes.drop_last(), range);
        if range_contains(range.start as int, range.stop as int, notes.last().stop as int) {
            rest
        } else {
            rest.push(notes.last())
        }
    }
}

/// Every playing note either stops inside a range or plays on, never both and never neither:
/// the two together are the playing notes, and each keeps its side of the range.
pub proof fn law_notes_stop_or_play_on(notes: Seq<PlayingNoteEvent>, range: TickRange)
    ensures
        notes_stopping_in(notes, range).to_multiset().add(notes_playing_on(notes, range).to_multiset())
            == notes.to_multiset(),
        forall|i: int|
            0 <= i < notes_stopping_in(notes, range).len() ==> range_contains(
                range.start as int,
                range.stop as int,
                (#[trigger] notes_stopping_in(notes, range)[i]).stop as int,
            ),
        forall|i: int|
            0 <= i < notes_playing_on(notes, range).len() ==> !range_contains(
                range.start as int,
                range.stop as int,
                (#[trigger] notes_playing_on(notes, range)[i]).stop as int,
            ),
    decreases notes.len(),
{
    broadcast use vstd::seq_lib::group_to_multiset_ensures;

    if notes.len() == 0 {
        assert(notes.to_multiset() =~= vstd::multiset::Multiset::empty());
        assert(notes_stopping_in(notes, range).to_multiset().add(notes_playing_on(notes, range).to_multiset())
            =~= vstd::multiset::Multiset::empty());
    } else {
        let rest = notes.drop_last();
        law_notes_stop_or_play_on(rest, range);
        assert(notes =~= rest.push(notes.last()));
        let a = notes_stopping_in(rest, range);
        let b = notes_playing_on(rest, range);
        if range_contains(range.start as int, range.stop as int, notes.last().stop as int) {
            assert(a.push(notes.last()).to_multiset().add(b.to_multiset()) =~= a.to_multiset().add(
                b.to_multiset(),
            ).insert(notes.last()));
        } else {
            assert(a.to_multiset().add(b.push(notes.last()).to_multiset()) =~= a.to_multiset().add(
                b.to_multiset(),
            ).insert(notes.last()));
        }
    }
}

/// Whether `messages` are, one for one, the note on messages of `notes`, sent at frame 0.
pub open spec fn are_note_ons(messages: Seq<TimedMessage>, notes: Seq<PlayingNoteEvent>) -> bool {
    &&& messages.len() == notes.len()
    &&& forall|i: int|
        0 <= i < notes.len() ==> #[trigger] is_note_message(
            messages[i],
            0,
            (0x90u8, notes[i].note, notes[i].start_velocity),
        )
}

/// Whether `messages` are, one for one, the note off messages of `notes`, sent at frame 0.
pub open spec fn are_note_offs(messages: Seq<TimedMessage>, notes: Seq<PlayingNoteEvent>) -> bool {
    &&& messages.len() == notes.len()
    &&& forall|i: int|
        0 <= i < notes.len() ==> #[trigger] is_note_message(
            messages[i],
            0,
            (0x80u8, notes[i].note, notes[i].stop_velocity),
        )
}

/// Whether `messages` are, one for one, the note off messages of `stopping` at their stop
/// ticks, followed by the note on messages of `starting` at their start ticks.
pub open spec fn are_ticked_notes(
    messages: Seq<(u32, Message)>,
    stopping: Seq<PlayingNoteEvent>,
    starting: Seq<PlayingNoteEvent>,
) -> bool {
    &&& messages.len() == stopping.len() + starting.len()
    &&& forall|i: int|
        0 <= i < stopping.len() ==> #[trigger] messages[i].0 == stopping[i].stop && is_note(
            messages[i].1,
            (0x80u8, stopping[i].note, stopping[i].stop_velocity),
        )
    &&& forall|i: int|
        0 <= i < starting.len() ==> #[trigger] messages[stopping.len() + i].0 == starting[i].start
            && is_note(
            messages[stopping.len() + i].1,
            (0x90u8, starting[i].note, starting[i].start_velocity),
        )
}

/// What a channel plays: its patterns, the phrases arranging them, the timeline arranging the
/// phrases, and the notes it is playing.
pub struct Track {
    pub patterns: [Pattern; 5],
    pub phrases: [Phrase; 5],
    pub timeline: Timeline,
    pub playing_notes: Vec<PlayingNoteEvent>,
}

/// A channel of the sequencer.
pub type Channel = Track;

/// An instrument played by the sequencer: a track under another name.
pub type Instrument = Track;

impl Track {
    /// The notes that are playing, in the order they started.
    pub open spec fn playing(&self) -> Seq<PlayingNoteEvent> {
        self.playing_notes@
    }

    /// Whether this is a channel as it is made: patterns without notes or explicit length,
    /// empty phrases of the default length, an empty timeline and no playing notes.
    pub open spec fn is_new(&self) -> bool {
        &&& forall|i: int|
            0 <= i < 5 ==> (#[trigger] self.patterns[i]).note_events@ == Seq::<
                crate::events::LoopableNoteEvent,
            >::empty() && self.patterns[i].length is None
        &&& forall|i: int|
            0 <= i < 5 ==> (#[trigger] self.phrases[i]).length_ticks() == default_phrase_length()
                && self.phrases[i].event_seq() == Seq::<crate::events::LoopablePatternEvent>::empty()
        &&& self.timeline.phrase_events@ == Seq::<crate::events::LoopablePhraseEvent>::empty()
        &&& self.playing() == Seq::<PlayingNoteEvent>::empty()
    }

    pub fn new() -> (r: Self)
        ensures
            r.is_new(),
            forall|i: int|
                0 <= i < 5 ==> (#[trigger] r.patterns[i]).note_events@ == Seq::<
                    crate::events::LoopableNoteEvent,
                >::empty() && r.patterns[i].length is None,
            forall|i: int|
                0 <= i < 5 ==> (#[trigger] r.phrases[i]).length_ticks() == default_phrase_length()
                    && r.phrases[i].event_seq() == Seq::<crate::events::LoopablePatternEvent>::empty(),
            r.timeline.phrase_events@ == Seq::<crate::events::LoopablePhraseEvent>::empty(),
            r.playing() == Seq::<PlayingNoteEvent>::empty(),
    {
        let patterns = [Pattern::new(), Pattern::new(), Pattern::new(), Pattern::new(), Pattern::new()];
        let phrases = [Phrase::new(), Phrase::new(), Phrase::new(), Phrase::new(), Phrase::new()];
        Track { phrases, patterns, timeline: Timeline::new(), playing_notes: Vec::new() }
    }

    pub fn pattern(&self, index: u8) -> (r: &Pattern)
        requires
            index < 5,
        ensures
            *r == self.patterns[index as int],
    {
        &self.patterns[index as usize]
    }

    pub fn phrase(&self, index: u8) -> (r: &Phrase)
        requires
            index < 5,
        ensures
            *r == self.phrases[index as int],
    {
        &self.phrases[index as usize]
    }

    /// Pattern `index`, to change in place.
    pub fn pattern_mut(&mut self, index: u8) -> (r: &mut Pattern)
        requires
            index < 5,
        ensures
            *r == old(self).patterns[index as int],
            final(self).patterns@ == old(self).patterns@.update(index as int, *final(r)),
            final(self).phrases == old(self).phrases,
            final(self).timeline == old(self).timeline,
            final(self).playing_notes == old(self).playing_notes,
    {
        &mut self.patterns[index as usize]
    }

    /// Phrase `index`, to change in place.
    pub fn phrase_mut(&mut self, index: u8) -> (r: &mut Phrase)
        requires
            index < 5,
        ensures
            *r == old(self).phrases[index as int],
            final(self).phrases@ == old(self).phrases@.update(index as int, *final(r)),
            final(self).patterns == old(self).patterns,
            final(self).timeline == old(self).timeline,
            final(self).playing_notes == old(self).playing_notes,
    {
        &mut self.phrases[index as usize]
    }

    /// Make pattern `to` a copy of pattern `from`.
    pub fn clone_pattern(&mut self, from: u8, to: u8)
        requires
            from < 5,
            to < 5,
        ensures
            final(self).patterns[to as int].note_events@ == old(self).patterns[from as int].note_events@,
            final(self).patterns[to as int].length == old(self).patterns[from as int].length,
            forall|i: int| 0 <= i < 5 && i != to ==> final(self).patterns[i] == old(self).patterns[i],
            final(self).phrases == old(self).phrases,
            final(self).timeline == old(self).timeline,
            final(self).playing_notes == old(self).playing_notes,
    {
        let copy = self.patterns[from as usize].clone();
        self.patterns[to as usize] = copy;
    }

    /// Make phrase `to` a copy of phrase `from`.
    pub fn clone_phrase(&mut self, from: u8, to: u8)
        requires
            from < 5,
            to < 5,
        ensures
            final(self).phrases[to as int].length_ticks() == old(self).phrases[from as int].length_ticks(),
            final(self).phrases[to as int].event_seq() == old(self).phrases[from as int].event_seq(),
            forall|i: int| 0 <= i < 5 && i != to ==> final(self).phrases[i] == old(self).phrases[i],
            final(self).patterns == old(self).patterns,
            final(self).timeline == old(self).timeline,
            final(self).playing_notes == old(self).playing_notes,
    {
        let copy = self.phrases[from as usize].clone();
        self.phrases[to as usize] = copy;
    }

    pub fn clear_playing_notes(&mut self)
        ensures
            final(self).playing() == Seq::<PlayingNoteEvent>::empty(),
            final(self).patterns == old(self).patterns,
            final(self).phrases == old(self).phrases,
            final(self).timeline == old(self).timeline,
    {
        self.playing_notes = Vec::new();
    }

    /// Note on messages for the playing notes, used when starting halfway through.
    pub fn start_playing_notes(&self) -> (r: Vec<TimedMessage>)
        ensures
            are_note_ons(r@, self.playing()),
    {
        let mut out: Vec<TimedMessage> = Vec::new();
        let mut i: usize = 0;
        while i < self.playing_notes.len()
            invariant
                0 <= i <= self.playing_notes@.len(),
                out@.len() == i,
                forall|j: int|
                    0 <= j < i ==> #[trigger] is_note_message(
                        out@[j],
                        0,
                        (0x90u8, self.playing_notes@[j].note, self.playing_notes@[j].start_velocity),
                    ),
            decreases self.playing_notes@.len() - i,
        {
            let n = self.playing_notes[i];
            out.push(note_message(0, (0x90, n.note, n.start_velocity)));
            i += 1;
        }
        out
    }

    /// Note off messages for the playing notes, used when stopping halfway through.
    pub fn stop_playing_notes(&self) -> (r: Vec<TimedMessage>)
        ensures
            are_note_offs(r@, self.playing()),
    {
        let mut out: Vec<TimedMessage> = Vec::new();
        let mut i: usize = 0;
        while i < self.playing_notes.len()
            invariant
                0 <= i <= self.playing_notes@.len(),
                out@.len() == i,
                forall|j: int|
                    0 <= j < i ==> #[trigger] is_note_message(
                        out@[j],
                        0,
                        (0x80u8, self.playing_notes@[j].note, self.playing_notes@[j].stop_velocity),
                    ),
            decreases self.playing_notes@.len() - i,
        {
            let n = self.playing_notes[i];
            out.push(note_message(0, (0x80, n.note, n.stop_velocity)));
            i += 1;
        }
        out
    }

    /// Stop the playing notes that stop inside `tick_range` and start `starting_notes`. Gives
    /// the messages for this, each with the tick at which it is due: first the note offs, then
    /// the note ons.
    pub fn output_midi(&mut self, tick_range: TickRange, starting_notes: Vec<PlayingNoteEvent>) -> (r: Vec<(u32, Message)>)
        ensures
            are_ticked_notes(
                r@,
                notes_stopping_in(old(self).playing(), tick_range),
                starting_notes@,
            ),
            final(self).playing() == notes_playing_on(old(self).playing(), tick_range)
                + starting_notes@,
            final(self).patterns == old(self).patterns,
            final(self).phrases == old(self).phrases,
            final(self).timeline == old(self).timeline,
    {
        let mut messages: Vec<(u32, Message)> = Vec::new();
        let mut kept: Vec<PlayingNoteEvent> = Vec::new();
        let ghost playing = self.playing_notes@;
        let mut i: usize = 0;
        while i < self.playing_notes.len()
            invariant
                0 <= i <= playing.len(),
                self.playing_notes@ == playing,
                kept@ == notes_playing_on(playing.take(i as int), tick_range),
                ({
                    let stopping = notes_stopping_in(playing.take(i as int), tick_range);
                    &&& messages@.len() == stopping.len()
                    &&& forall|j: int|
                        0 <= j < stopping.len() ==> #[trigger] messages@[j].0 == stopping[j].stop
                            && is_note(
                            messages@[j].1,
                            (0x80u8, stopping[j].note, stopping[j].stop_velocity),
                        )
                }),
            decreases playing.len() - i,
        {
            assert(playing.take(i + 1).drop_last() =~= playing.take(i as int));
            let n = self.playing_notes[i];
            if tick_range.contains(n.stop) {
                messages.push((n.stop, note((0x80, n.note, n.stop_velocity))));
            } else {
                kept.push(n);
            }
            i += 1;
        }
        assert(playing.take(i as int) =~= playing);
        let ghost stopping = notes_stopping_in(playing, tick_range);
        let ghost first = messages@;
        let mut k: usize = 0;
        while k < starting_notes.len()
            invariant
                0 <= k <= starting_notes@.len(),
                first.len() == stopping.len(),
                forall|j: int|
                    0 <= j < stopping.len() ==> #[trigger] first[j].0 == stopping[j].stop
                        && is_note(first[j].1, (0x80u8, stopping[j].note, stopping[j].stop_velocity)),
                messages@.len() == first.len() + k,
                forall|j: int| 0 <= j < first.len() ==> #[trigger] messages@[j] == first[j],
                forall|j: int|
                    0 <= j < k ==> #[trigger] messages@[first.len() + j].0 == starting_notes@[j].start
                        && is_note(
                        messages@[first.len() + j].1,
                        (0x90u8, starting_notes@[j].note, starting_notes@[j].start_velocity),
                    ),
            decreases starting_notes@.len() - k,
        {
            let n = starting_notes[k];
            messages.push((n.start, note((0x90, n.note, n.start_velocity))));
            k += 1;
        }
        assert(forall|j: int| 0 <= j < stopping.len() ==> #[trigger] messages@[j] == first[j]);
        let mut starting = starting_notes;
        kept.append(&mut starting);
        self.playing_notes = kept;
        messages
    }
}

} // verus!
