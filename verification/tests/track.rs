use octothorpe::events::{LoopableEvent, LoopableNoteEvent, PlayingNoteEvent};
use octothorpe::loopable::Loopable;
use octothorpe::message::Message;
use octothorpe::tick_range::TickRange;
use octothorpe::track::Track;

fn playing(start: u32, stop: u32, note: u8) -> PlayingNoteEvent {
    PlayingNoteEvent { start, stop, note, start_velocity: 100, stop_velocity: 64 }
}

#[test]
fn new_track_is_empty() {
    let track = Track::new();
    assert!(track.playing_notes.is_empty());
    assert!(track.timeline.phrase_events.is_empty());
    for index in 0..5 {
        assert!(track.pattern(index).note_events.is_empty());
        assert_eq!(track.phrase(index).length(), 4 * 4 * 1920);
    }
}

#[test]
fn notes_stopping_in_the_range_are_stopped_and_new_ones_started() {
    let mut track = Track::new();
    let messages = track.output_midi(TickRange::new(0, 100), vec![playing(10, 150, 60), playing(20, 50, 62)]);
    // Nothing was playing, so only note ons, at their start ticks
    assert_eq!(messages, vec![(10, Message::Note([0x90, 60, 100])), (20, Message::Note([0x90, 62, 100]))]);
    assert_eq!(track.playing_notes.len(), 2);

    let messages = track.output_midi(TickRange::new(100, 200), vec![playing(120, 300, 64)]);
    // The note that stops at 150 is stopped; the note stopping at 50 is not in this range
    assert_eq!(messages, vec![(150, Message::Note([0x80, 60, 64])), (120, Message::Note([0x90, 64, 100]))]);
    let kept: Vec<(u32, u8)> = track.playing_notes.iter().map(|n| (n.stop, n.note)).collect();
    assert_eq!(kept, vec![(50, 62), (300, 64)]);
}

#[test]
fn every_playing_note_stops_or_plays_on() {
    let mut track = Track::new();
    track.playing_notes = vec![playing(0, 10, 1), playing(0, 20, 2), playing(0, 30, 3)];
    let messages = track.output_midi(TickRange::new(15, 25), vec![]);
    assert_eq!(messages.len() + track.playing_notes.len(), 3);
    assert_eq!(messages, vec![(20, Message::Note([0x80, 2, 64]))]);
}

#[test]
fn playing_notes_are_started_and_stopped_at_once() {
    let mut track = Track::new();
    track.playing_notes = vec![playing(0, 10, 60), playing(0, 20, 61)];
    let ons = track.start_playing_notes();
    let offs = track.stop_playing_notes();
    assert_eq!(ons.iter().map(|m| (m.time, &m.message)).collect::<Vec<_>>(), vec![(0, &Message::Note([0x90, 60, 100])), (0, &Message::Note([0x90, 61, 100]))]);
    assert_eq!(offs.iter().map(|m| (m.time, &m.message)).collect::<Vec<_>>(), vec![(0, &Message::Note([0x80, 60, 64])), (0, &Message::Note([0x80, 61, 64]))]);
    track.clear_playing_notes();
    assert!(track.start_playing_notes().is_empty());
}

#[test]
fn patterns_are_changed_in_place_and_copied() {
    let mut track = Track::new();
    let mut event = LoopableNoteEvent::new(0, 60, 100);
    event.set_stop(100);
    track.pattern_mut(1).add_complete_event(event);
    assert_eq!(track.pattern(1).note_events.len(), 1);
    assert!(track.pattern(2).note_events.is_empty());
    track.clone_pattern(1, 2);
    assert_eq!(track.pattern(2).note_events.len(), 1);
    assert_eq!(track.pattern(2).note_events[0].note, 60);
}

#[test]
fn phrases_are_changed_in_place_and_copied() {
    let mut track = Track::new();
    track.phrase_mut(0).set_length(1920);
    assert_eq!(track.phrase(0).length(), 1920);
    assert_eq!(track.phrase(3).length(), 4 * 4 * 1920);
    track.clone_phrase(0, 3);
    assert_eq!(track.phrase(3).length(), 1920);
}
