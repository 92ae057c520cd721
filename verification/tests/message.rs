use octothorpe::message::{time_ordered, Message, TimedMessage};

fn note(time: u32, key: u8) -> TimedMessage {
    TimedMessage::new(time, Message::Note([0x90, key, 127]))
}

fn frames_and_keys(messages: &[TimedMessage]) -> Vec<(u32, u8)> {
    messages
        .iter()
        .map(|m| match m.message {
            Message::Note(bytes) => (m.time, bytes[1]),
            _ => (m.time, 0),
        })
        .collect()
}

#[test]
fn messages_go_out_in_frame_order_keeping_the_order_within_a_frame() {
    let messages = vec![note(30, 1), note(10, 2), note(30, 3), note(0, 4), note(10, 5), note(30, 6)];
    let ordered = time_ordered(messages);
    assert_eq!(frames_and_keys(&ordered), vec![(0, 4), (10, 2), (10, 5), (30, 1), (30, 3), (30, 6)]);
}

#[test]
fn no_messages_stay_none() {
    assert!(time_ordered(vec![]).is_empty());
}
