use octothorpe::message::Message;
use octothorpe::mixer::Mixer;

#[test]
fn fader_moves_are_queued_and_handed_out_once() {
    let mut mixer = Mixer::new();
    mixer.fader_adjusted(10, 3, 100);
    mixer.master_adjusted(20, 50);
    let messages = mixer.output_midi();
    assert_eq!(messages.len(), 2);
    assert_eq!((messages[0].time, &messages[0].message), (10, &Message::Note([0xB0, 3, 100])));
    assert_eq!((messages[1].time, &messages[1].message), (20, &Message::Note([0xB0, 127, 50])));
    assert!(mixer.output_midi().is_empty());
}
