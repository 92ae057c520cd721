use octothorpe::controller::Controller;
use octothorpe::events::PlayingNoteEvent;
use octothorpe::message::Message;

#[test]
fn second_press_within_half_a_beat_is_a_double_press() {
    let mut controller = Controller::new();
    assert!(!controller.register_key_press(0, 1, 0x35));
    assert!(controller.register_key_press(959, 1, 0x35));
    // Another key, or another channel, is no double press
    assert!(!controller.register_key_press(960, 1, 0x36));
    assert!(!controller.register_key_press(961, 2, 0x35));
}

#[test]
fn press_half_a_beat_later_is_no_double_press() {
    let mut controller = Controller::new();
    assert!(!controller.register_key_press(0, 1, 0x35));
    assert!(!controller.register_key_press(960, 1, 0x35));
    // Old presses are forgotten
    assert_eq!(controller.key_presses.len(), 1);
}

#[test]
fn inquiry_response_is_answered_with_an_introduction() {
    let mut controller = Controller::new();
    controller.sequencer.channels[0].playing_notes.push(PlayingNoteEvent { start: 0, stop: 10, note: 1, start_velocity: 1, stop_velocity: 1 });
    let response = [0xF0, 0x7E, 0x00, 0x06, 0x02, 0x47, 0x73, 0x00, 0x19, 0x00, 0x01, 0x00, 0x01, 0x05, 0xF7];
    let answer = controller.process_sysex_message(&response).unwrap();
    assert_eq!(answer.len(), 1);
    assert_eq!(answer[0].time, 0);
    assert_eq!(answer[0].message, Message::Introduction([0xF0, 0x47, 0x05, 0x73, 0x60, 0x00, 0x04, 0x41, 0x00, 0x00, 0x00, 0xF7]));
    assert!(controller.sequencer.channels[0].playing_notes.is_empty());
}

#[test]
fn other_sysex_messages_get_no_answer() {
    let mut controller = Controller::new();
    let other = [0xF0, 0x7E, 0x00, 0x06, 0x01, 0x47, 0x73, 0x00, 0x19, 0x00, 0x01, 0x00, 0x01, 0x05, 0xF7];
    assert!(controller.process_sysex_message(&other).is_none());
}
