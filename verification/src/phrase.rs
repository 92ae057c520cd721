use vstd::prelude::*;

use crate::events::{resize_outcome, span_contains, LoopableEvent};
use crate::pattern::{Pattern, PlayedPattern, PlayingPattern};
use crate::playable::{Playable, PlayableModel};
use crate::TICKS_PER_BEAT;

verus! {

/// A phrase of an instrument playing between two ticks.
#[derive(Debug, Clone, Copy)]
pub struct PlayingPhrase {
    /// Index in the sequencer's instruments
    pub instrument: usize,
    /// Index in the instrument's phrases
    pub phrase: usize,
    pub start: u32,
    pub end: u32,
}

/// A pattern started in a phrase, stopped once it has a stop tick.
#[derive(Debug, Clone, Copy)]
pub struct PatternEvent {
    pub start: u32,
    pub stop: Option<u32>,
    pub pattern: usize,
}

impl PatternEvent {
    pub fn new(start: u32, stop: Option<u32>, pattern: usize) -> (r: Self)
        ensures
            r == (PatternEvent { start, stop, pattern }),
    {
        PatternEvent { start, stop, pattern }
    }
}

/// The values a phrase holds.
pub struct PhraseModel {
    pub length: u32,
    pub pattern_events: Seq<PatternEvent>,
    pub playable: PlayableModel,
    pub played_patterns: Seq<PlayedPattern>,
}

/// Four bars.
pub open spec fn phrase_default_length() -> u32 {
    (TICKS_PER_BEAT * 4 * 4) as u32
}

/// Pattern events with their stop cut to `length`.
pub open spec fn stops_cut_to(events: Seq<PatternEvent>, length: u32) -> Seq<PatternEvent> {
    events.map_values(
        |e: PatternEvent|
            match e.stop {
                Some(s) => if s > length {
                    PatternEvent { stop: Some(length), ..e }
                } else {
                    e
                },
                None => e,
            },
    )
}

impl LoopableEvent for PatternEvent {
    open spec fn start_tick(&self) -> u32 {
        self.start
    }

    open spec fn stop_tick(&self) -> Option<u32> {
        self.stop
    }

    /// The row of the grid the pattern is drawn on.
    open spec fn row_key(&self) -> u8 {
        (self.pattern % 256) as u8
    }

    open spec fn with_start(&self, tick: u32) -> Self {
        PatternEvent { start: tick, ..*self }
    }

    open spec fn with_stop(&self, tick: u32) -> Self {
        PatternEvent { stop: Some(tick), ..*self }
    }

    fn start(&self) -> (r: u32) {
        self.start
    }

    fn stop(&self) -> (r: Option<u32>) {
        self.stop
    }

    fn set_stop(&mut self, stop: u32) {
        self.stop = Some(stop);
        assert(self.row_key() == old(self).row_key());
    }

    fn set_start(&mut self, start: u32) {
        self.start = start;
        assert(self.row_key() == old(self).row_key());
    }

    fn is_on_row(&self, index: u8) -> (r: bool) {
        self.pattern % 256 == index as usize
    }

    fn is_on_same_row(&self, other: &Self) -> (r: bool) {
        self.pattern % 256 == other.pattern % 256
    }

    fn row(&self, offset: u8) -> (r: u8) {
        (self.pattern % 256) as u8 - offset
    }
}

/// Index of the last event of `pattern`, or -1.
pub open spec fn last_index_of_pattern(events: Seq<PatternEvent>, pattern: usize) -> int
    decreases events.len(),
{
    if events.len() == 0 {
        -1
    } else if events.last().pattern == pattern {
        events.len() - 1
    } else {
        last_index_of_pattern(events.drop_last(), pattern)
    }
}

/// The events not of the pattern of `event`, and those of it that `event` does not contain.
pub open spec fn not_contained_by(events: Seq<PatternEvent>, event: PatternEvent, length: u32) -> Seq<PatternEvent>
    decreases events.len(),
{
    if events.len() == 0 {
        Seq::empty()
    } else {
        let o = events.last();
        let rest = not_contained_by(events.drop_last(), event, length);
        if o.pattern == event.pattern && span_contains(event.start, event.stop, o.start, o.stop, length) {
            rest
        } else {
            rest.push(o)
        }
    }
}

/// The events of the pattern of `event` cut so that they do not overlap it; others unchanged.
pub open spec fn cut_around(events: Seq<PatternEvent>, event: PatternEvent, length: u32) -> Seq<PatternEvent> {
    events.map_values(
        |o: PatternEvent|
            if o.pattern == event.pattern {
                resize_outcome(o, event, length).0
            } else {
                o
            },
    )
}

/// The parts split off the events of the pattern of `event` that contain it.
pub open spec fn split_off(events: Seq<PatternEvent>, event: PatternEvent, length: u32) -> Seq<PatternEvent>
    decreases events.len(),
{
    if events.len() == 0 {
        Seq::empty()
    } else {
        let o = events.last();
        let rest = split_off(events.drop_last(), event, length);
        if o.pattern == event.pattern && resize_outcome(o, event, length).1 is Some {
            rest.push(resize_outcome(o, event, length).1.unwrap())
        } else {
            rest
        }
    }
}

/// The events once the complete `event` is placed: the events of its pattern that it contains
/// are dropped, the others of its pattern are cut around it, the parts split off them follow,
/// and `event` comes last.
pub open spec fn with_stopped_event(events: Seq<PatternEvent>, event: PatternEvent, length: u32) -> Seq<PatternEvent> {
    let kept = not_contained_by(events, event, length);
    cut_around(kept, event, length) + split_off(kept, event, length) + seq![event]
}

proof fn lemma_last_index_of_pattern(events: Seq<PatternEvent>, pattern: usize)
    ensures
        -1 <= last_index_of_pattern(events, pattern) < events.len(),
        last_index_of_pattern(events, pattern) >= 0 ==> events[last_index_of_pattern(events, pattern)].pattern
            == pattern,
    decreases events.len(),
{
    if events.len() > 0 && events.last().pattern != pattern {
        lemma_last_index_of_pattern(events.drop_last(), pattern);
    }
}

/// Whether `e` is an event of `pattern` starting in `[start, stop)`.
pub open spec fn starts_between(e: PatternEvent, start: u32, stop: u32, pattern: usize) -> bool {
    e.start >= start && e.start < stop && e.pattern == pattern
}

/// The events, in order, without those of `pattern` starting in `[start, stop)`.
pub open spec fn without_between(events: Seq<PatternEvent>, start: u32, stop: u32, pattern: usize) -> Seq<PatternEvent>
    decreases events.len(),
{
    if events.len() == 0 {
        Seq::empty()
    } else {
        let rest = without_between(events.drop_last(), start, stop, pattern);
        if starts_between(events.last(), start, stop, pattern) {
            rest
        } else {
            rest.push(events.last())
        }
    }
}

/// The last event of `pattern`, if any.
pub open spec fn last_of_pattern(events: Seq<PatternEvent>, pattern: usize) -> Option<PatternEvent>
    decreases events.len(),
{
    if events.len() == 0 {
        None
    } else if events.last().pattern == pattern {
        Some(events.last())
    } else {
        last_of_pattern(events.drop_last(), pattern)
    }
}

/// Number of times a pattern of `pattern_length` ticks is played to fill a played pattern.
pub open spec fn iterations_of(played: PlayedPattern, pattern_length: u32) -> int {
    (played.end - played.start + pattern_length - 1) / pattern_length as int
}

/// The `k`-th play of a pattern filling `played`, moved by the phrase's start.
pub open spec fn pattern_iteration(
    played: PlayedPattern,
    pattern_length: u32,
    playing_phrase: PlayingPhrase,
    k: int,
) -> PlayingPattern {
    let start = played.start + k * pattern_length;
    let end = if played.end < start + pattern_length {
        played.end as int
    } else {
        start + pattern_length
    };
    PlayingPattern {
        start: (start + playing_phrase.start) as u32,
        end: (end + playing_phrase.start) as u32,
        pattern: played.index,
        instrument: playing_phrase.instrument,
    }
}

/// The plays of the patterns of `played`, each filled with as many plays of its pattern as
/// fit, the last one cut short.
pub open spec fn patterns_playing(
    played: Seq<PlayedPattern>,
    lengths: Seq<u32>,
    playing_phrase: PlayingPhrase,
) -> Seq<PlayingPattern>
    decreases played.len(),
{
    if played.len() == 0 {
        Seq::empty()
    } else {
        let p = played.last();
        let length = lengths[p.index as int];
        patterns_playing(played.drop_last(), lengths, playing_phrase) + Seq::new(
            iterations_of(p, length) as nat,
            |k: int| pattern_iteration(p, length, playing_phrase, k),
        )
    }
}

/// Whether the plays of `p` can be computed: its pattern exists and has a length, and the
/// ticks fit.
pub open spec fn played_pattern_defined(p: PlayedPattern, lengths: Seq<u32>, playing_phrase: PlayingPhrase) -> bool {
    &&& p.index < lengths.len()
    &&& lengths[p.index as int] > 0
    &&& p.start <= p.end
    &&& p.end - p.start + lengths[p.index as int] <= u32::MAX
    &&& p.start + iterations_of(p, lengths[p.index as int]) * lengths[p.index as int] <= u32::MAX
    &&& p.end + playing_phrase.start <= u32::MAX
}

/// An old style phrase: pattern events, the patterns it plays and its display settings.
#[derive(Clone)]
pub struct Phrase {
    length: u32,
    pub pattern_events: Vec<PatternEvent>,
    pub playable: Playable,
    pub played_patterns: Vec<PlayedPattern>,
}

impl View for Phrase {
    type V = PhraseModel;

    closed spec fn view(&self) -> PhraseModel {
        PhraseModel {
            length: self.length,
            pattern_events: self.pattern_events@,
            playable: self.playable@,
            played_patterns: self.played_patterns@,
        }
    }
}

proof fn lemma_iteration_bounds(length: int, pattern_length: int, iterations: int, k: int)
    requires
        length >= 0,
        pattern_length > 0,
        iterations == (length + pattern_length - 1) / pattern_length,
        0 <= k < iterations,
    ensures
        k * pattern_length < length,
        k * pattern_length + pattern_length <= iterations * pattern_length,
{
    assert(iterations * pattern_length <= length + pattern_length - 1) by (nonlinear_arith)
        requires
            pattern_length > 0,
            iterations == (length + pattern_length - 1) / pattern_length,
    ;
    assert(k * pattern_length + pattern_length <= iterations * pattern_length) by (nonlinear_arith)
        requires
            pattern_length > 0,
            k < iterations,
    ;
}

impl Phrase {
    fn create(played_patterns: Vec<PlayedPattern>) -> (r: Self)
        ensures
            r@ == (PhraseModel {
                length: phrase_default_length(),
                pattern_events: Seq::empty(),
                playable: PlayableModel {
                    minimum_length: phrase_default_length(),
                    length: phrase_default_length(),
                    zoom: 1,
                    offset: 0,
                    head: 3,
                    tail: 5,
                },
                played_patterns: played_patterns@,
            }),
    {
        Phrase {
            length: Self::default_length(),
            pattern_events: Vec::new(),
            playable: Playable::new(TICKS_PER_BEAT * 16, TICKS_PER_BEAT * 16, 3, 5),
            played_patterns,
        }
    }

    /// A phrase that plays pattern `index` over its four bars.
    pub fn new(index: usize) -> (r: Self)
        ensures
            r@ == (PhraseModel {
                length: phrase_default_length(),
                pattern_events: Seq::empty(),
                playable: PlayableModel {
                    minimum_length: phrase_default_length(),
                    length: phrase_default_length(),
                    zoom: 1,
                    offset: 0,
                    head: 3,
                    tail: 5,
                },
                played_patterns: seq![PlayedPattern { index, start: 0, end: phrase_default_length() }],
            }),
    {
        let played = vec![PlayedPattern { index, start: 0, end: TICKS_PER_BEAT * 16 }];
        assert(played@ =~= seq![PlayedPattern { index, start: 0, end: phrase_default_length() }]);
        Phrase::create(played)
    }

    pub fn default_length() -> (r: u32)
        ensures
            r == phrase_default_length(),
    {
        TICKS_PER_BEAT * 4 * 4
    }

    /// Set the length, cutting pattern events that stop after it.
    pub fn set_length(&mut self, length: u32)
        ensures
            final(self)@ == (PhraseModel {
                length,
                pattern_events: stops_cut_to(old(self)@.pattern_events, length),
                ..old(self)@
            }),
    {
        self.length = length;
        let mut i: usize = 0;
        while i < self.pattern_events.len()
            invariant
                0 <= i <= self.pattern_events@.len(),
                self.length == length,
                self.playable == old(self).playable,
                self.played_patterns@ == old(self).played_patterns@,
                self.pattern_events@.len() == old(self).pattern_events@.len(),
                forall|k: int|
                    0 <= k < i ==> #[trigger] self.pattern_events@[k] == stops_cut_to(
                        old(self).pattern_events@,
                        length,
                    )[k],
                forall|k: int|
                    i <= k < self.pattern_events@.len() ==> #[trigger] self.pattern_events@[k]
                        == old(self).pattern_events@[k],
            decreases self.pattern_events@.len() - i,
        {
            let mut event = self.pattern_events[i];
            if let Some(stop) = event.stop {
                if stop > length {
                    event.stop = Some(length);
                }
            }
            self.pattern_events.set(i, event);
            i += 1;
        }
        assert(self.pattern_events@ =~= stops_cut_to(old(self).pattern_events@, length));
    }

    pub fn length(&self) -> (r: u32)
        ensures
            r == self@.length,
    {
        self.length
    }

    /// Whether an event of `pattern` starts in `[start, stop)`.
    pub fn contains_starting_patterns(&self, start: u32, stop: u32, pattern: usize) -> (r: bool)
        ensures
            r == exists|i: int|
                0 <= i < self@.pattern_events.len() && starts_between(
                    #[trigger] self@.pattern_events[i],
                    start,
                    stop,
                    pattern,
                ),
    {
        let mut i: usize = 0;
        while i < self.pattern_events.len()
            invariant
                0 <= i <= self.pattern_events@.len(),
                self@.pattern_events == self.pattern_events@,
                forall|k: int|
                    0 <= k < i ==> !starts_between(
                        #[trigger] self.pattern_events@[k],
                        start,
                        stop,
                        pattern,
                    ),
            decreases self.pattern_events@.len() - i,
        {
            let event = self.pattern_events[i];
            if event.start >= start && event.start < stop && event.pattern == pattern {
                return true;
            }
            i += 1;
        }
        false
    }

    /// Remove the events of `pattern` starting in `[start, stop)`, keeping the order of the
    /// others.
    pub fn remove_patterns_starting_between(&mut self, start: u32, stop: u32, pattern: usize)
        ensures
            final(self)@ == (PhraseModel {
                pattern_events: without_between(old(self)@.pattern_events, start, stop, pattern),
                ..old(self)@
            }),
    {
        let mut kept: Vec<PatternEvent> = Vec::new();
        let mut i: usize = 0;
        while i < self.pattern_events.len()
            invariant
                0 <= i <= self.pattern_events@.len(),
                self.pattern_events@ == old(self).pattern_events@,
                kept@ == without_between(self.pattern_events@.take(i as int), start, stop, pattern),
            decreases self.pattern_events@.len() - i,
        {
            assert(self.pattern_events@.take(i + 1).drop_last() =~= self.pattern_events@.take(
                i as int,
            ));
            let event = self.pattern_events[i];
            if !(event.start >= start && event.start < stop && event.pattern == pattern) {
                kept.push(event);
            }
            i += 1;
        }
        assert(self.pattern_events@.take(i as int) =~= self.pattern_events@);
        self.pattern_events = kept;
    }

    /// Start `pattern` at `start`, unless its last event has not stopped yet.
    pub fn add_pattern_start(&mut self, start: u32, pattern: usize)
        ensures
            final(self)@ == if (match last_of_pattern(old(self)@.pattern_events, pattern) {
                Some(p) => p.stop is None,
                None => false,
            }) {
                old(self)@
            } else {
                PhraseModel {
                    pattern_events: old(self)@.pattern_events.push(
                        PatternEvent { start, stop: None, pattern },
                    ),
                    ..old(self)@
                }
            },
    {
        let mut previous: Option<PatternEvent> = None;
        let mut i: usize = 0;
        while i < self.pattern_events.len()
            invariant
                0 <= i <= self.pattern_events@.len(),
                self.pattern_events@ == old(self).pattern_events@,
                previous == last_of_pattern(self.pattern_events@.take(i as int), pattern),
            decreases self.pattern_events@.len() - i,
        {
            assert(self.pattern_events@.take(i + 1).drop_last() =~= self.pattern_events@.take(
                i as int,
            ));
            if self.pattern_events[i].pattern == pattern {
                previous = Some(self.pattern_events[i]);
            }
            i += 1;
        }
        assert(self.pattern_events@.take(i as int) =~= self.pattern_events@);
        if let Some(PatternEvent { stop: None, .. }) = previous {
            return ;
        }
        self.pattern_events.push(PatternEvent::new(start, None, pattern));
    }

    /// Stop the last event of `pattern` at `stop`: it makes room for itself among the events
    /// of its pattern, and the other events are taken out from where it was by moving the last
    /// one into its place.
    pub fn add_pattern_stop(&mut self, stop: u32, pattern: usize)
        requires
            last_index_of_pattern(old(self)@.pattern_events, pattern) >= 0,
        ensures
            ({
                let s = old(self)@.pattern_events;
                let j = last_index_of_pattern(s, pattern);
                let event = PatternEvent { stop: Some(stop), ..s[j] };
                final(self)@ == (PhraseModel {
                    pattern_events: with_stopped_event(s.update(j, s.last()).drop_last(), event, old(self)@.length),
                    ..old(self)@
                })
            }),
    {
        let ghost s = self.pattern_events@;
        proof {
            lemma_last_index_of_pattern(s, pattern);
        }
        let mut index: usize = 0;
        let mut i: usize = 0;
        while i < self.pattern_events.len()
            invariant
                0 <= i <= s.len(),
                self.pattern_events@ == s,
                last_index_of_pattern(s.take(i as int), pattern) >= 0 ==> index == last_index_of_pattern(
                    s.take(i as int),
                    pattern,
                ),
            decreases s.len() - i,
        {
            assert(s.take(i + 1).drop_last() =~= s.take(i as int));
            if self.pattern_events[i].pattern == pattern {
                index = i;
            }
            i += 1;
        }
        assert(s.take(i as int) =~= s);
        let length = self.length();
        let mut event = self.pattern_events.swap_remove(index);
        event.stop = Some(stop);
        let rest = self.pattern_events.clone();
        assert(rest@ =~= s.update(index as int, s.last()).drop_last());

        let mut kept: Vec<PatternEvent> = Vec::new();
        let mut k: usize = 0;
        while k < rest.len()
            invariant
                0 <= k <= rest@.len(),
                kept@ == not_contained_by(rest@.take(k as int), event, length),
            decreases rest@.len() - k,
        {
            assert(rest@.take(k + 1).drop_last() =~= rest@.take(k as int));
            let other = rest[k];
            if !(event.pattern == other.pattern && event.contains(&other, length)) {
                kept.push(other);
            }
            k += 1;
        }
        assert(rest@.take(k as int) =~= rest@);

        let ghost kept_seq = kept@;
        let mut fitted: Vec<PatternEvent> = Vec::new();
        let mut splits: Vec<PatternEvent> = Vec::new();
        let mut m: usize = 0;
        while m < kept.len()
            invariant
                0 <= m <= kept_seq.len(),
                kept@ == kept_seq,
                fitted@ == cut_around(kept_seq.take(m as int), event, length),
                splits@ == split_off(kept_seq.take(m as int), event, length),
            decreases kept_seq.len() - m,
        {
            assert(kept_seq.take(m + 1).drop_last() =~= kept_seq.take(m as int));
            let mut other = kept[m];
            if other.pattern == event.pattern {
                let split = other.resize_to_fit(&event, length);
                if let Some(part) = split {
                    splits.push(part);
                }
            }
            fitted.push(other);
            assert(fitted@ =~= cut_around(kept_seq.take(m + 1), event, length));
            m += 1;
        }
        assert(kept_seq.take(m as int) =~= kept_seq);
        fitted.append(&mut splits);
        fitted.push(event);
        assert(index == last_index_of_pattern(s, pattern));
        assert(length == old(self)@.length);
        assert(event == PatternEvent { stop: Some(stop), ..s[index as int] });
        assert(fitted@ == with_stopped_event(rest@, event, length));
        self.pattern_events = fitted;
    }

    pub fn clear_pattern_events(&mut self)
        ensures
            final(self)@ == (PhraseModel { pattern_events: Seq::empty(), ..old(self)@ }),
    {
        self.pattern_events = Vec::new();
    }

    /// The plays of the patterns of this phrase while it plays as `playing_phrase`: each
    /// played pattern is filled with as many plays of its pattern as fit, the last one cut
    /// short at the played pattern's end.
    pub fn playing_patterns(&self, patterns: &[Pattern], playing_phrase: &PlayingPhrase) -> (r: Vec<PlayingPattern>)
        requires
            forall|i: int|
                0 <= i < self@.played_patterns.len() ==> played_pattern_defined(
                    #[trigger] self@.played_patterns[i],
                    patterns@.map_values(|p: Pattern| p@.playable.length),
                    *playing_phrase,
                ),
        ensures
            r@ == patterns_playing(
                self@.played_patterns,
                patterns@.map_values(|p: Pattern| p@.playable.length),
                *playing_phrase,
            ),
    {
        let ghost lengths = patterns@.map_values(|p: Pattern| p@.playable.length);
        let mut out: Vec<PlayingPattern> = Vec::new();
        let mut i: usize = 0;
        while i < self.played_patterns.len()
            invariant
                0 <= i <= self.played_patterns@.len(),
                self@.played_patterns == self.played_patterns@,
                lengths == patterns@.map_values(|p: Pattern| p@.playable.length),
                forall|j: int|
                    0 <= j < self.played_patterns@.len() ==> played_pattern_defined(
                        #[trigger] self.played_patterns@[j],
                        lengths,
                        *playing_phrase,
                    ),
                out@ == patterns_playing(
                    self.played_patterns@.take(i as int),
                    lengths,
                    *playing_phrase,
                ),
            decreases self.played_patterns@.len() - i,
        {
            assert(self.played_patterns@.take(i + 1).drop_last() =~= self.played_patterns@.take(
                i as int,
            ));
            let played_pattern = self.played_patterns[i];
            assert(played_pattern_defined(played_pattern, lengths, *playing_phrase));
            let played_pattern_length = played_pattern.end - played_pattern.start;
            let pattern_length = patterns[played_pattern.index].playable_length();
            assert(pattern_length == lengths[played_pattern.index as int]);
            let iterations = (played_pattern_length + pattern_length - 1) / pattern_length;
            let ghost before = out@;
            let mut iteration: u32 = 0;
            while iteration < iterations
                invariant
                    0 <= iteration <= iterations,
                    pattern_length > 0,
                    iterations == iterations_of(played_pattern, pattern_length),
                    played_pattern_length == played_pattern.end - played_pattern.start,
                    played_pattern.start + iterations * pattern_length <= u32::MAX,
                    played_pattern.end + playing_phrase.start <= u32::MAX,
                    out@ == before + Seq::new(
                        iteration as nat,
                        |k: int| pattern_iteration(played_pattern, pattern_length, *playing_phrase, k),
                    ),
                decreases iterations - iteration,
            {
                proof {
                    lemma_iteration_bounds(
                        played_pattern_length as int,
                        pattern_length as int,
                        iterations as int,
                        iteration as int,
                    );
                }
                let start = played_pattern.start + iteration * pattern_length;
                let mut end = start + pattern_length;
                if played_pattern.end < end {
                    end = played_pattern.end;
                }
                out.push(
                    PlayingPattern {
                        start: start + playing_phrase.start,
                        end: end + playing_phrase.start,
                        pattern: played_pattern.index,
                        instrument: playing_phrase.instrument,
                    },
                );
                assert(out@ =~= before + Seq::new(
                    (iteration + 1) as nat,
                    |k: int| pattern_iteration(played_pattern, pattern_length, *playing_phrase, k),
                ));
                iteration += 1;
            }
            i += 1;
        }
        assert(self.played_patterns@.take(i as int) =~= self.played_patterns@);
        out
    }
}

} // verus!
