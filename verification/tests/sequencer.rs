use octothorpe::cycle::ProcessCycle;
use octothorpe::events::{LoopableEvent, LoopableNoteEvent, LoopablePatternEvent};
use octothorpe::loopable::Loopable;
use octothorpe::message::Message;
use octothorpe::sequencer::Sequencer;
use octothorpe::tick_range::TickRange;

const PHRASE: u32 = 4 * 4 * 1920;

fn cycle(start: u32, stop: u32, is_rolling: bool) -> ProcessCycle {
    ProcessCycle { tick_range: TickRange::new(start, stop), time_stop: 0, time_start: 0, is_rolling, n_frames: 256 }
}

fn phrase_spans(sequencer: &Sequencer, channel: usize) -> Vec<(u32, Option<u32>, u8)> {
    sequencer.channel(channel).timeline.phrase_events.iter().map(|e| (e.start, e.stop, e.phrase)).collect()
}

#[test]
fn new_sequencer_has_an_empty_timeline() {
    let sequencer = Sequencer::new();
    assert_eq!(sequencer.get_timeline_end(), 0);
    assert_eq!(sequencer.sequence_playing, 0);
    assert_eq!(sequencer.sequence_queued, None);
    assert_eq!(sequencer.sequences[3].phrases(), &[Some(3); 16]);
}

#[test]
fn played_sequence_fills_the_timeline_until_its_longest_phrase_ends() {
    let mut sequencer = Sequencer::new();
    sequencer.channel_mut(2).phrases[0].set_length(2 * PHRASE);
    sequencer.play_sequence(0, 0);
    // The longest phrase is two default phrases long, so shorter ones repeat
    assert_eq!(phrase_spans(&sequencer, 0), vec![(0, Some(PHRASE), 0), (PHRASE, Some(2 * PHRASE), 0)]);
    assert_eq!(phrase_spans(&sequencer, 2), vec![(0, Some(2 * PHRASE), 0)]);
    assert_eq!(sequencer.get_timeline_end(), 2 * PHRASE);
}

#[test]
fn queued_sequence_starts_where_the_timeline_ends() {
    let mut sequencer = Sequencer::new();
    sequencer.play_sequence(0, 0);
    sequencer.sequence_queued = Some(1);
    // A cycle before the end changes nothing
    sequencer.autoqueue_next_sequence(&cycle(0, 256, true));
    assert_eq!(sequencer.sequence_playing, 0);
    assert_eq!(sequencer.get_timeline_end(), PHRASE);
    // The cycle that holds the end starts the queued sequence there
    sequencer.autoqueue_next_sequence(&cycle(PHRASE - 10, PHRASE + 246, true));
    assert_eq!(sequencer.sequence_playing, 1);
    assert_eq!(sequencer.sequence_queued, None);
    assert_eq!(phrase_spans(&sequencer, 5), vec![(0, Some(PHRASE), 0), (PHRASE, Some(2 * PHRASE), 1)]);
    assert_eq!(sequencer.get_timeline_end(), 2 * PHRASE);
}

#[test]
fn cleared_timeline_ends_at_zero() {
    let mut sequencer = Sequencer::new();
    sequencer.play_sequence(0, 0);
    sequencer.reset_timeline();
    assert_eq!(sequencer.get_timeline_end(), 0);
    assert!(phrase_spans(&sequencer, 0).is_empty());
}

#[test]
fn sequences_are_changed_in_place() {
    let mut sequencer = Sequencer::new();
    sequencer.get_sequence(4).unset_phrase(0);
    assert_eq!(sequencer.sequences[4].get_phrase(0), None);
    assert_eq!(sequencer.sequences[4].get_phrase(1), Some(4));
}

#[test]
fn playing_phrases_are_cut_to_the_range() {
    let mut sequencer = Sequencer::new();
    sequencer.play_sequence(0, 0);
    let plays = sequencer.playing_phrases(0, &TickRange::new(PHRASE - 100, PHRASE + 100));
    let plays: Vec<(u32, u32, u32, u8)> = plays.iter().map(|(r, start, phrase)| (r.start, r.stop, *start, *phrase)).collect();
    assert_eq!(plays, vec![(PHRASE - 100, PHRASE, 0, 0)]);
}

#[test]
fn stopped_transport_outputs_nothing() {
    let mut sequencer = Sequencer::new();
    sequencer.play_sequence(0, 0);
    assert!(sequencer.output_midi(&cycle(0, 256, false)).is_empty());
}

#[test]
fn rolling_transport_plays_the_notes_of_the_patterns() {
    let mut sequencer = Sequencer::new();
    let mut note = LoopableNoteEvent::new(0, 60, 100);
    note.set_stop(100);
    note.stop_velocity = Some(64);
    sequencer.channel_mut(0).patterns[0].add_complete_event(note);
    let mut pattern_event = LoopablePatternEvent::new(0, 0);
    pattern_event.set_stop(PHRASE);
    sequencer.channel_mut(0).phrases[0].add_complete_event(pattern_event);
    sequencer.play_sequence(0, 0);

    let out = sequencer.output_midi(&cycle(0, 256, true));
    assert_eq!(out.len(), 16);
    assert_eq!(out[0], vec![(0, Message::Note([0x90, 60, 100]))]);
    assert!(out[1].is_empty());

    let out = sequencer.output_midi(&cycle(256, 512, true));
    assert!(out[0].is_empty());
    // The note still plays; now stopping and starting the transport sends offs and ons
    let stop = sequencer.stop();
    assert_eq!(stop[0].len(), 1);
    assert_eq!(stop[0][0].message, Message::Note([0x80, 60, 64]));
    let start = sequencer.start();
    assert_eq!(start[0][0].message, Message::Note([0x90, 60, 100]));
    sequencer.reset();
    assert!(sequencer.stop()[0].is_empty());
}
