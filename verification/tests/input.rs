use octothorpe::controller::buttons::Buttons;
use octothorpe::controller::input::{ButtonType, CueKnob, FaderType, InputEvent, InputEventType, KnobType};

#[test]
fn notes_name_buttons() {
    assert_eq!(ButtonType::new(3, 0x35), ButtonType::Grid(3, 4));
    assert_eq!(ButtonType::new(3, 0x39), ButtonType::Grid(3, 0));
    assert_eq!(ButtonType::new(0, 0x52), ButtonType::Side(4));
    assert_eq!(ButtonType::new(0, 0x5B), ButtonType::Play);
    assert_eq!(ButtonType::new(0, 0x62), ButtonType::Shift);
    assert_eq!(ButtonType::new(5, 0x32), ButtonType::Activator(5));
    assert_eq!(ButtonType::new(5, 0x00), ButtonType::Unknown);
}

#[test]
fn midi_bytes_name_input_events() {
    assert_eq!(InputEventType::new(&[0x92, 0x35, 0x7F]), InputEventType::ButtonPressed(ButtonType::Grid(2, 4)));
    assert_eq!(InputEventType::new(&[0x82, 0x5C, 0x7F]), InputEventType::ButtonReleased(ButtonType::Stop));
    assert_eq!(InputEventType::new(&[0xB0, 0x31, 0x40]), InputEventType::KnobTurned { value: 0x40, knob_type: KnobType::Effect(1) });
    assert_eq!(InputEventType::new(&[0xB0, 0x11, 0x40]), InputEventType::KnobTurned { value: 0x40, knob_type: KnobType::Effect(9) });
    assert_eq!(InputEventType::new(&[0xB3, 0x07, 0x10]), InputEventType::FaderMoved { value: 0x10, fader_type: FaderType::Track(3) });
    assert_eq!(InputEventType::new(&[0xB0, 0x0E, 0x10]), InputEventType::FaderMoved { value: 0x10, fader_type: FaderType::Master });
    assert_eq!(InputEventType::new(&[0xB0, 0x2F, 0x01]), InputEventType::KnobTurned { value: 0x01, knob_type: KnobType::Cue });
    assert_eq!(InputEventType::new(&[0xC0, 0x00]), InputEventType::Unknown);
    let response = [0xF0, 0x7E, 0x00, 0x06, 0x02, 0x47, 0x73, 0x00, 0x19, 0x00, 0x01, 0x00, 0x01, 0x05, 0xF7];
    assert_eq!(InputEventType::new(&response), InputEventType::InquiryResponse(0x05, 0x73));
    let event = InputEvent::new(12, &[0x90, 0x51, 0x7F]);
    assert_eq!((event.time, event.event_type), (12, InputEventType::ButtonPressed(ButtonType::Shift)));
}

#[test]
fn input_events_are_told_apart() {
    let cue = InputEventType::KnobTurned { value: 1, knob_type: KnobType::Cue };
    assert!(InputEvent::is_cue_knob(&cue));
    assert!(!InputEvent::is_crossfader(&cue));
    assert!(InputEvent::is_crossfader(&InputEventType::FaderMoved { value: 1, fader_type: FaderType::CrossFade }));
    assert!(InputEvent::is_activator_button(&InputEventType::ButtonPressed(ButtonType::Activator(1))));
    assert!(!InputEvent::is_activator_button(&InputEventType::ButtonReleased(ButtonType::Activator(1))));
    assert!(InputEvent::is_track_button(&InputEventType::ButtonPressed(ButtonType::Track(1))));
    assert!(InputEvent::is_solo_button(&InputEventType::ButtonPressed(ButtonType::Solo(1))));
    assert!(InputEvent::is_grid_button(&InputEventType::ButtonPressed(ButtonType::Grid(1, 2))));
    assert!(InputEvent::is_right_button(&InputEventType::ButtonPressed(ButtonType::Right)));
    assert!(InputEvent::is_left_button(&InputEventType::ButtonPressed(ButtonType::Left)));
}

#[test]
fn cue_knob_moves_one_button_per_six_steps() {
    let mut knob = CueKnob::new();
    // The first turn always moves one button, in its direction
    assert_eq!(knob.process_turn(1, true), 1);
    assert_eq!(knob.process_turn(0x7F, true), -1);
    // Value 4 is a delta of 4: not enough for a button
    assert_eq!(knob.process_turn(4, false), 0);
    // 4 + 4 = 8 is one button, 2 left over
    assert_eq!(knob.process_turn(4, false), 1);
    // 2 + 10 = 12 is two buttons
    assert_eq!(knob.process_turn(10, false), 2);
    // Value 0x7E is a delta of -2, 0x74 one of -12
    assert_eq!(knob.process_turn(0x74, false), -2);
}

#[test]
fn button_pressed_again_soon_after_release_is_a_double_press() {
    let mut buttons = Buttons::new();
    assert!(!buttons.press(0, 17, 0x35));
    // Releases come on the channel 16 below the one of the press
    buttons.release(100, 1, 0x35);
    assert!(buttons.press(500, 17, 0x35));
    buttons.release(600, 1, 0x35);
    assert!(!buttons.press(700, 17, 0x36));
    buttons.release(800, 1, 0x36);
    assert!(!buttons.press(5000, 17, 0x36));
}

#[test]
fn bytes_too_short_for_their_status_are_unreadable() {
    assert!(!InputEvent::is_readable(&[]));
    assert!(!InputEvent::is_readable(&[0x90]));
    assert!(InputEvent::is_readable(&[0x90, 0x35]));
    assert!(!InputEvent::is_readable(&[0xB0, 0x07]));
    assert!(InputEvent::is_readable(&[0xB0, 0x40]));
    assert!(InputEvent::is_readable(&[0xB0, 0x07, 0x10]));
    assert!(!InputEvent::is_readable(&[0xF0, 0x7E, 0x00, 0x06, 0x02, 0x47, 0x73, 0x00]));
    assert!(InputEvent::is_readable(&[0xF0, 0x7E, 0x00, 0x06, 0x01, 0xF7]));
    assert!(InputEvent::is_readable(&[0xC0]));
}

#[test]
fn any_remembered_press_of_the_same_button_makes_a_double_press() {
    let mut buttons = Buttons::new();
    assert!(!buttons.press(0, 0x90, 0x35));
    assert!(!buttons.press(10, 0x90, 0x36));
    assert!(buttons.press(20, 0x90, 0x35));
    assert!(buttons.press(30, 0x90, 0x36));
    assert!(!buttons.press(40, 0x91, 0x35));
}
