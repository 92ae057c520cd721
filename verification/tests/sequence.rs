use octothorpe::sequence::Sequence;
use octothorpe::track::Track;

fn channels() -> Vec<Track> {
    (0..16).map(|_| Track::new()).collect()
}

#[test]
fn new_sequence_plays_its_phrase_everywhere() {
    let sequence = Sequence::new(3);
    assert_eq!(sequence.phrases(), &[Some(3); 16]);
    assert_eq!(sequence.get_phrase(15), Some(3));
    assert_eq!(sequence.active_phrase(0), Some(3));
}

#[test]
fn phrases_are_set_and_unset_per_channel() {
    let mut sequence = Sequence::new(0);
    sequence.set_phrase(2, 4);
    sequence.unset_phrase(3);
    assert_eq!(sequence.get_phrase(2), Some(4));
    assert_eq!(sequence.get_phrase(3), None);
    assert_eq!(sequence.get_phrase(4), Some(0));
    sequence.set_phrases(1);
    assert_eq!(sequence.phrases(), &[Some(1); 16]);
}

#[test]
fn switched_off_channel_plays_nothing_and_toggling_twice_restores() {
    let mut sequence = Sequence::new(2);
    sequence.toggle_active(5);
    assert_eq!(sequence.active_phrase(5), None);
    assert_eq!(sequence.get_phrase(5), Some(2));
    sequence.toggle_active(5);
    assert_eq!(sequence.active_phrase(5), Some(2));
}

#[test]
fn sequence_length_is_its_longest_phrase() {
    let mut channels = channels();
    let sequence = Sequence::new(0);
    // New phrases have the default length of 4 bars
    assert_eq!(sequence.length(&channels), 4 * 4 * 1920);
    channels[7].phrases[0].set_length(8 * 4 * 1920);
    assert_eq!(sequence.length(&channels), 8 * 4 * 1920);
}

#[test]
fn sequence_without_phrases_has_the_default_length() {
    let channels = channels();
    let mut sequence = Sequence::new(0);
    for channel in 0..16 {
        sequence.unset_phrase(channel);
    }
    assert_eq!(sequence.length(&channels), 4 * 4 * 1920);
}
