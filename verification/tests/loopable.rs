use octothorpe::events::{LoopableEvent, LoopableNoteEvent};
use octothorpe::loopable::{Loopable, Pattern};

#[test]
fn length() {
    let mut pattern = Pattern::new();

    let length = Pattern::minimum_length();
    let half_length = length / 2;

    let mut event = LoopableNoteEvent::new(half_length, 1, 1);
    event.set_stop(half_length + 10);

    pattern.add_complete_event(event);
    assert_eq!(pattern.length(), length * 2);

    let mut event = LoopableNoteEvent::new(length, 1, 1);
    event.set_stop(length + 10);

    pattern.add_complete_event(event);
    assert_eq!(pattern.length(), length * 4);
}

use octothorpe::events::{LoopablePatternEvent, LoopablePhraseEvent};
use octothorpe::loopable::{Phrase, Timeline};
use octothorpe::tick_range::TickRange;

fn note(start: u32, stop: u32, key: u8) -> LoopableNoteEvent {
    let mut event = LoopableNoteEvent::new(start, key, 100);
    event.set_stop(stop);
    event
}

fn spans(pattern: &Pattern) -> Vec<(u32, Option<u32>, u8)> {
    let mut spans: Vec<(u32, Option<u32>, u8)> = pattern.note_events.iter().map(|e| (e.start, e.stop, e.note)).collect();
    spans.sort();
    spans
}

#[test]
fn new_note_shortens_the_note_it_overlaps() {
    let mut pattern = Pattern::new();
    pattern.set_length(1920 * 4);
    pattern.add_complete_event(note(0, 1000, 60));
    pattern.add_complete_event(note(500, 1500, 60));
    assert_eq!(spans(&pattern), vec![(0, Some(500), 60), (500, Some(1500), 60)]);
}

#[test]
fn new_note_splits_the_note_around_it_and_leaves_other_rows() {
    let mut pattern = Pattern::new();
    pattern.set_length(1920 * 4);
    pattern.add_complete_event(note(0, 1000, 60));
    pattern.add_complete_event(note(0, 1000, 61));
    pattern.add_complete_event(note(400, 600, 60));
    assert_eq!(spans(&pattern), vec![(0, Some(400), 60), (0, Some(1000), 61), (400, Some(600), 60), (600, Some(1000), 60)]);
}

#[test]
fn new_note_replaces_the_notes_it_covers() {
    let mut pattern = Pattern::new();
    pattern.set_length(1920 * 4);
    pattern.add_complete_event(note(100, 200, 60));
    pattern.add_complete_event(note(300, 400, 60));
    pattern.add_complete_event(note(0, 1000, 60));
    assert_eq!(spans(&pattern), vec![(0, Some(1000), 60)]);
}

#[test]
fn open_note_waits_for_its_stop() {
    let mut pattern = Pattern::new();
    pattern.try_add_starting_event(LoopableNoteEvent::new(0, 60, 100));
    pattern.try_add_starting_event(LoopableNoteEvent::new(10, 60, 100));
    assert_eq!(pattern.note_events.len(), 1);
    let mut open = pattern.get_last_event_on_row(60);
    assert!(pattern.note_events.is_empty());
    open.set_stop(50);
    open.stop_velocity = Some(0);
    pattern.add_complete_event(open);
    assert_eq!(spans(&pattern), vec![(0, Some(50), 60)]);
    assert!(pattern.contains_events_starting_in(TickRange::new(0, 10), 60));
    assert!(!pattern.contains_events_starting_in(TickRange::new(1, 10), 60));
    pattern.remove_events_starting_in(TickRange::new(0, 10), 60);
    assert!(pattern.note_events.is_empty());
}

#[test]
fn pattern_length_is_explicit_or_follows_its_notes() {
    let mut pattern = Pattern::new();
    assert!(!pattern.has_explicit_length());
    assert_eq!(pattern.length(), 2 * Pattern::minimum_length());
    pattern.set_length(1920);
    assert!(pattern.has_explicit_length());
    assert_eq!(pattern.length(), 1920);
    pattern.unset_length();
    assert_eq!(pattern.length(), 2 * Pattern::minimum_length());
    pattern.add_complete_event(note(0, 10, 1));
    pattern.clear_events();
    assert!(pattern.note_events.is_empty());
}

#[test]
fn looping_ranges_wrap_around_the_length() {
    let mut pattern = Pattern::new();
    pattern.set_length(1000);
    let ranges = pattern.looping_ranges(&TickRange::new(900, 1100));
    let ranges: Vec<(u32, u32, u32)> = ranges.iter().map(|(r, start)| (r.start, r.stop, *start)).collect();
    assert_eq!(ranges, vec![(900, 1000, 0), (0, 100, 1000)]);
}

#[test]
fn phrase_length_cuts_its_pattern_events() {
    let mut phrase = Phrase::new();
    assert_eq!(phrase.length(), Phrase::default_length());
    let mut event = LoopablePatternEvent::new(0, 1);
    event.set_stop(3000);
    phrase.add_complete_event(event);
    phrase.try_add_starting_event(LoopablePatternEvent::new(5000, 2));
    phrase.set_length(2000);
    let spans: Vec<(u32, Option<u32>, u8)> = phrase.pattern_events.iter().map(|e| (e.start, e.stop, e.pattern)).collect();
    assert_eq!(spans, vec![(0, Some(2000), 1)]);
    phrase.clear_events();
    assert!(phrase.pattern_events.is_empty());
}

#[test]
fn timeline_length_pads_its_last_stop() {
    let mut timeline = Timeline::new();
    assert_eq!(timeline.get_last_stop(), 0);
    assert_eq!(timeline.length(), 8 * Phrase::default_length());
    timeline.add_complete_event(LoopablePhraseEvent::new(0, 1000, 2));
    assert_eq!(timeline.get_last_stop(), 1000);
    assert_eq!(timeline.length(), 1000 + 4 * Phrase::default_length());
    timeline.try_add_starting_event(LoopablePhraseEvent { start: 2000, stop: None, phrase: 3 });
    let open = timeline.get_last_event_on_row(3);
    assert_eq!((open.start, open.stop), (2000, None));
    timeline.clear_events();
    assert_eq!(timeline.get_last_stop(), 0);
}

#[test]
fn removing_a_row_range_keeps_every_other_event_in_order() {
    let mut pattern = Pattern::new();
    pattern.add_complete_event(note(0, 5, 0));
    pattern.add_complete_event(note(10, 15, 0));
    pattern.add_complete_event(note(30, 35, 1));
    pattern.add_complete_event(note(40, 45, 0));
    pattern.remove_events_starting_in(TickRange::new(0, 20), 0);
    let left: Vec<(u32, u8)> = pattern.note_events.iter().map(|e| (e.start, e.note)).collect();
    assert_eq!(left, vec![(30, 1), (40, 0)]);
    assert!(!pattern.contains_events_starting_in(TickRange::new(0, 20), 0));
}

#[test]
fn new_note_cuts_a_looping_note_around_it() {
    let mut pattern = Pattern::new();
    pattern.set_length(200);
    pattern.add_complete_event(note(150, 50, 60));
    pattern.add_complete_event(note(40, 160, 60));
    // What is left of the looping note runs from 160 round to 40
    assert_eq!(spans(&pattern), vec![(40, Some(160), 60), (160, Some(40), 60)]);
}

#[test]
fn looping_note_cuts_the_notes_it_covers() {
    let mut pattern = Pattern::new();
    pattern.set_length(200);
    pattern.add_complete_event(note(20, 100, 60));
    pattern.add_complete_event(note(170, 30, 60));
    assert_eq!(spans(&pattern), vec![(30, Some(100), 60), (170, Some(30), 60)]);
}

#[test]
fn note_inside_a_looping_note_splits_it() {
    let mut pattern = Pattern::new();
    pattern.set_length(200);
    pattern.add_complete_event(note(150, 50, 60));
    pattern.add_complete_event(note(10, 20, 60));
    assert_eq!(spans(&pattern), vec![(10, Some(20), 60), (20, Some(50), 60), (150, Some(10), 60)]);
}

#[test]
fn explicit_length_comes_and_goes() {
    let mut pattern = Pattern::new();
    pattern.add_complete_event(note(0, 10, 1));
    let natural = pattern.length();
    pattern.set_length(1920);
    assert_eq!(pattern.length(), 1920);
    pattern.unset_length();
    assert_eq!(pattern.length(), natural);
}

#[test]
fn notes_on_a_row_never_share_a_tick() {
    let mut pattern = Pattern::new();
    pattern.set_length(200);
    pattern.add_complete_event(note(10, 50, 60));
    pattern.add_complete_event(note(60, 100, 60));
    pattern.add_complete_event(note(150, 5, 60));
    pattern.add_complete_event(note(30, 62, 61));
    pattern.add_complete_event(note(40, 70, 60));
    pattern.add_complete_event(note(180, 20, 60));
    let covers = |start: u32, stop: u32, tick: u32| {
        if stop <= start {
            tick >= start || tick < stop
        } else {
            tick >= start && tick < stop
        }
    };
    let spans = spans(&pattern);
    for tick in 0..200 {
        let sharing = spans
            .iter()
            .filter(|(start, stop, row)| *row == 60 && covers(*start, stop.unwrap(), tick))
            .count();
        assert!(sharing <= 1, "tick {} is covered {} times", tick, sharing);
    }
    assert!(spans.contains(&(30, Some(62), 61)));
    assert!(spans.contains(&(180, Some(20), 60)));
    assert!(spans.contains(&(40, Some(70), 60)));
}

#[test]
fn a_note_round_the_whole_loop_replaces_the_notes_on_its_row() {
    let mut pattern = Pattern::new();
    pattern.set_length(200);
    pattern.add_complete_event(note(10, 30, 60));
    pattern.add_complete_event(note(150, 50, 60));
    pattern.add_complete_event(note(40, 60, 61));
    pattern.add_complete_event(note(20, 20, 60));
    assert_eq!(spans(&pattern), vec![(20, Some(20), 60), (40, Some(60), 61)]);
}
