use octothorpe::cycle::Cycle;
use octothorpe::note::Note;
use octothorpe::pattern::Pattern;
use octothorpe::phrase::{PatternEvent, Phrase, PlayingPhrase};

const BAR: u32 = 4 * 1920;

#[test]
fn new_phrase_plays_its_pattern_for_four_bars() {
    let phrase = Phrase::new(2);
    assert_eq!(Phrase::default_length(), 4 * BAR);
    assert_eq!(phrase.length(), 4 * BAR);
    assert_eq!(phrase.played_patterns.len(), 1);
    assert_eq!((phrase.played_patterns[0].index, phrase.played_patterns[0].start, phrase.played_patterns[0].end), (2, 0, 4 * BAR));
}

#[test]
fn played_pattern_is_filled_with_plays_of_its_pattern() {
    let phrase = Phrase::new(0);
    let mut pattern = Pattern::new(0);
    // A pattern three bars long plays twice in four bars, the second time cut short
    pattern.playable.length = 3 * BAR;
    let playing_phrase = PlayingPhrase { instrument: 7, phrase: 0, start: 100, end: 100 + 4 * BAR };
    let plays = phrase.playing_patterns(&[pattern], &playing_phrase);
    let plays: Vec<(usize, usize, u32, u32)> = plays.iter().map(|p| (p.instrument, p.pattern, p.start, p.end)).collect();
    assert_eq!(plays, vec![(7, 0, 100, 100 + 3 * BAR), (7, 0, 100 + 3 * BAR, 100 + 4 * BAR)]);
}

#[test]
fn pattern_starts_wait_for_the_last_one_to_stop() {
    let mut phrase = Phrase::new(0);
    phrase.add_pattern_start(0, 1);
    phrase.add_pattern_start(10, 1);
    assert_eq!(phrase.pattern_events.len(), 1);
    phrase.pattern_events[0].stop = Some(5);
    phrase.add_pattern_start(10, 1);
    assert_eq!(phrase.pattern_events.len(), 2);
    assert!(phrase.contains_starting_patterns(0, 20, 1));
    assert!(!phrase.contains_starting_patterns(11, 20, 1));
    assert!(!phrase.contains_starting_patterns(0, 20, 2));
    phrase.remove_patterns_starting_between(5, 20, 1);
    assert_eq!(phrase.pattern_events.len(), 1);
    assert_eq!(phrase.pattern_events[0].start, 0);
}

#[test]
fn shorter_phrase_cuts_its_pattern_events() {
    let mut phrase = Phrase::new(0);
    phrase.pattern_events.push(PatternEvent::new(0, Some(3 * BAR), 0));
    phrase.pattern_events.push(PatternEvent::new(BAR, None, 1));
    phrase.set_length(2 * BAR);
    assert_eq!(phrase.length(), 2 * BAR);
    assert_eq!(phrase.pattern_events[0].stop, Some(2 * BAR));
    assert_eq!(phrase.pattern_events[1].stop, None);
    phrase.clear_pattern_events();
    assert!(phrase.pattern_events.is_empty());
}

#[test]
fn pattern_notes_play_in_the_cycle_they_start_in() {
    let mut pattern = Pattern::new(1);
    pattern.notes.push(Note::new(1, 0, 100, 60, 100, 0));
    pattern.notes.push(Note::new(1, 500, 600, 62, 100, 0));
    let playing = pattern.playing_notes(&Cycle { start: 1000, end: 1512 }, 1000, 2000);
    let playing: Vec<(u32, u8)> = playing.iter().map(|(tick, note)| (*tick, note.key)).collect();
    assert_eq!(playing, vec![(0, 60), (500, 62)]);
    // Notes starting at or after the pattern's end do not play
    let playing = pattern.playing_notes(&Cycle { start: 1000, end: 1512 }, 1000, 1400);
    assert_eq!(playing.len(), 1);
}

#[test]
fn pattern_leds_are_placed_below_the_base_note() {
    let mut pattern = Pattern::new(1);
    pattern.notes.push(Note::new(1, 0, BAR / 2, 47, 100, 0));
    // One bar over 8 leds: a note of half a bar is a head and three tails, two rows down
    assert_eq!(pattern.led_states(), vec![(0, 2, 1), (1, 2, 5), (2, 2, 5), (3, 2, 5)]);
}

#[test]
fn base_note_moves_within_the_keyboard() {
    let mut pattern = Pattern::new(1);
    assert_eq!(pattern.base_note, 49);
    pattern.change_base_note(12);
    assert_eq!(pattern.base_note, 61);
    pattern.change_base_note(-40);
    assert_eq!(pattern.base_note, 61);
    pattern.change_base_note(70);
    assert_eq!(pattern.base_note, 61);
    pattern.notes.push(Note::new(1, 0, 10, 60, 100, 0));
    pattern.reset();
    assert_eq!(pattern.base_note, 49);
    assert!(pattern.notes.is_empty());
    pattern.switch_recording_state();
    assert!(pattern.is_recording);
}

#[test]
fn ticks_are_quantized_to_the_nearest_step() {
    let pattern = Pattern::new(1);
    // Quarter beats are 480 ticks
    assert_eq!(pattern.quantize(239, 4), 0);
    assert_eq!(pattern.quantize(240, 4), 480);
    assert_eq!(pattern.quantize(1000, 4), 960);
    assert_eq!(pattern.quantize(1000, 1), 1920);
}

#[test]
fn stopped_pattern_makes_room_among_its_pattern() {
    let mut phrase = Phrase::new(0);
    phrase.add_pattern_start(0, 1);
    phrase.add_pattern_start(0, 2);
    phrase.add_pattern_stop(2 * BAR, 1);
    phrase.add_pattern_stop(2 * BAR, 2);
    phrase.add_pattern_start(BAR, 1);
    phrase.add_pattern_stop(BAR + 100, 1);
    let spans: Vec<(u32, Option<u32>, usize)> = phrase.pattern_events.iter().map(|e| (e.start, e.stop, e.pattern)).collect();
    // The event of pattern 2 is untouched; that of pattern 1 is split around the new one
    assert_eq!(
        spans,
        vec![(0, Some(BAR), 1), (0, Some(2 * BAR), 2), (BAR + 100, Some(2 * BAR), 1), (BAR, Some(BAR + 100), 1)]
    );
}

#[test]
fn removing_pattern_starts_keeps_the_others_in_order() {
    let mut phrase = Phrase::new(0);
    phrase.pattern_events.push(PatternEvent::new(0, Some(5), 1));
    phrase.pattern_events.push(PatternEvent::new(10, Some(15), 1));
    phrase.pattern_events.push(PatternEvent::new(12, Some(15), 2));
    phrase.pattern_events.push(PatternEvent::new(30, Some(35), 1));
    phrase.remove_patterns_starting_between(0, 20, 1);
    let left: Vec<(u32, usize)> = phrase.pattern_events.iter().map(|e| (e.start, e.pattern)).collect();
    assert_eq!(left, vec![(12, 2), (30, 1)]);
}
