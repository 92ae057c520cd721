use octothorpe::controller::apc::{APCController, ApcAction, TransportState};
use octothorpe::controller::input::InputEvent;
use octothorpe::hardware::APCType;
use octothorpe::message::Message;
use octothorpe::sequencer::Sequencer;
use octothorpe::surface::Surface;

const STOPPED: TransportState = TransportState { rolling: false, at_start: true };

fn input(
    controller: &mut APCController,
    bytes: &[u8],
    time: u64,
    sequencer: &mut Sequencer,
    surface: &mut Surface,
) -> ApcAction {
    let event = InputEvent::new(0, bytes);
    controller.process_midi_input(&event, time, time + 1000, STOPPED, sequencer, surface)
}

fn identified(apc_type: APCType, sequencer: &mut Sequencer, surface: &mut Surface) -> APCController {
    let mut controller = APCController::new(apc_type);
    let response = [0xF0, 0x7E, 0x00, 0x06, 0x02, 0x47, 0x73, 0x00, 0x19, 0x00, 0x01, 0x00, 0x01, 0x05, 0xF7];
    input(&mut controller, &response, 1, sequencer, surface);
    controller
}

fn note_spans(sequencer: &Sequencer) -> Vec<(u32, Option<u32>, u8)> {
    sequencer.channels[0].patterns[0].note_events.iter().map(|e| (e.start, e.stop, e.note)).collect()
}

#[test]
fn controllers_show_their_half_of_the_channels() {
    let apc40 = APCController::new(APCType::APC40);
    let apc20 = APCController::new(APCType::APC20);
    assert_eq!((apc40.channel_offset(), apc40.head_color(), apc40.tail_color()), (8, 1, 5));
    assert_eq!((apc20.channel_offset(), apc20.head_color(), apc20.tail_color()), (0, 3, 5));
}

#[test]
fn controller_is_asked_who_it_is_until_it_answers_then_introduced() {
    let mut sequencer = Sequencer::new();
    let mut surface = Surface::new();
    let mut controller = APCController::new(APCType::APC40);
    let messages = controller.output_midi(&sequencer, &surface);
    assert_eq!(messages.len(), 1);
    assert_eq!(messages[0].message, Message::Inquiry([0xF0, 0x7E, 0x00, 0x06, 0x01, 0xF7]));
    assert_eq!(controller.output_midi(&sequencer, &surface).len(), 1);

    let response = [0xF0, 0x7E, 0x00, 0x06, 0x02, 0x47, 0x73, 0x00, 0x19, 0x00, 0x01, 0x00, 0x01, 0x05, 0xF7];
    let action = input(&mut controller, &response, 1, &mut sequencer, &mut surface);
    assert!(matches!(action, ApcAction::Nothing));
    assert_eq!((controller.local_id, controller.device_id, controller.identified_cycles), (0x05, 0x73, 1));

    let messages = controller.output_midi(&sequencer, &surface);
    assert_eq!(messages.len(), 1);
    assert_eq!(messages[0].message, Message::Introduction([0xF0, 0x47, 0x05, 0x73, 0x60, 0x00, 0x04, 0x41, 0x00, 0x00, 0x00, 0xF7]));
    assert!(controller.output_midi(&sequencer, &surface).is_empty());
    assert_eq!(controller.identified_cycles, 3);
    // Every light is drawn the first time
    let messages = controller.output_midi(&sequencer, &surface);
    assert!(messages.len() >= 40 + 8 + 1 + 8 + 8);
    assert!(messages.iter().all(|m| m.time == 0));
}

#[test]
fn grid_press_adds_a_note_and_a_second_press_removes_it() {
    let mut sequencer = Sequencer::new();
    let mut surface = Surface::new();
    let mut controller = identified(APCType::APC40, &mut sequencer, &mut surface);
    // Bottom left button: the base note less two, half a beat long at zoom level 4
    input(&mut controller, &[0x90, 0x39, 0x7F], 10, &mut sequencer, &mut surface);
    input(&mut controller, &[0x80, 0x39, 0x7F], 20, &mut sequencer, &mut surface);
    assert_eq!(note_spans(&sequencer), vec![(0, Some(960), 58)]);
    input(&mut controller, &[0x90, 0x39, 0x7F], 30, &mut sequencer, &mut surface);
    input(&mut controller, &[0x80, 0x39, 0x7F], 40, &mut sequencer, &mut surface);
    assert!(note_spans(&sequencer).is_empty());
}

#[test]
fn holding_a_note_and_pressing_further_along_lengthens_it() {
    let mut sequencer = Sequencer::new();
    let mut surface = Surface::new();
    let mut controller = identified(APCType::APC40, &mut sequencer, &mut surface);
    input(&mut controller, &[0x90, 0x39, 0x7F], 10, &mut sequencer, &mut surface);
    input(&mut controller, &[0x93, 0x39, 0x7F], 20, &mut sequencer, &mut surface);
    input(&mut controller, &[0x83, 0x39, 0x7F], 30, &mut sequencer, &mut surface);
    input(&mut controller, &[0x80, 0x39, 0x7F], 40, &mut sequencer, &mut surface);
    assert_eq!(note_spans(&sequencer), vec![(0, Some(4 * 960), 58)]);
}

#[test]
fn faders_and_knobs_are_left_to_the_caller() {
    let mut sequencer = Sequencer::new();
    let mut surface = Surface::new();
    let mut controller = identified(APCType::APC40, &mut sequencer, &mut surface);
    let action = input(&mut controller, &[0xB2, 0x07, 0x40], 10, &mut sequencer, &mut surface);
    assert!(matches!(action, ApcAction::FaderMoved { index: 10, value: 0x40 }));
    let action = input(&mut controller, &[0xB0, 0x31, 0x20], 10, &mut sequencer, &mut surface);
    assert!(matches!(action, ApcAction::KnobTurned { index: 1, value: 0x20 }));
}

#[test]
fn activator_button_sets_the_pattern_length() {
    let mut sequencer = Sequencer::new();
    let mut surface = Surface::new();
    let mut controller = identified(APCType::APC40, &mut sequencer, &mut surface);
    input(&mut controller, &[0x91, 0x32, 0x7F], 10, &mut sequencer, &mut surface);
    input(&mut controller, &[0x81, 0x32, 0x7F], 20, &mut sequencer, &mut surface);
    assert_eq!(sequencer.channels[0].patterns[0].length, Some(2 * 7680));
    // Pressing it again goes back to the length of the notes
    input(&mut controller, &[0x91, 0x32, 0x7F], 30, &mut sequencer, &mut surface);
    assert_eq!(sequencer.channels[0].patterns[0].length, None);
}

#[test]
fn shift_and_a_side_button_clear_that_pattern() {
    let mut sequencer = Sequencer::new();
    let mut surface = Surface::new();
    let mut controller = identified(APCType::APC40, &mut sequencer, &mut surface);
    input(&mut controller, &[0x90, 0x39, 0x7F], 10, &mut sequencer, &mut surface);
    input(&mut controller, &[0x80, 0x39, 0x7F], 20, &mut sequencer, &mut surface);
    assert_eq!(note_spans(&sequencer).len(), 1);
    // Shift, then the top side button, which stands for pattern 0
    input(&mut controller, &[0x90, 0x62, 0x7F], 30, &mut sequencer, &mut surface);
    input(&mut controller, &[0x90, 0x56, 0x7F], 40, &mut sequencer, &mut surface);
    assert!(note_spans(&sequencer).is_empty());
}

#[test]
fn side_button_shows_another_pattern() {
    let mut sequencer = Sequencer::new();
    let mut surface = Surface::new();
    let mut controller = identified(APCType::APC40, &mut sequencer, &mut surface);
    input(&mut controller, &[0x90, 0x54, 0x7F], 10, &mut sequencer, &mut surface);
    input(&mut controller, &[0x80, 0x54, 0x7F], 20, &mut sequencer, &mut surface);
    assert_eq!(surface.pattern_shown(0), 2);
}

#[test]
fn solo_row_sets_the_zoom_level() {
    let mut sequencer = Sequencer::new();
    let mut surface = Surface::new();
    let mut controller = identified(APCType::APC40, &mut sequencer, &mut surface);
    input(&mut controller, &[0x92, 0x31, 0x7F], 10, &mut sequencer, &mut surface);
    input(&mut controller, &[0x82, 0x31, 0x7F], 20, &mut sequencer, &mut surface);
    assert_eq!(surface.pattern_zoom_level, 3);
}

#[test]
fn bank_buttons_move_the_base_note_and_the_view() {
    let mut sequencer = Sequencer::new();
    sequencer.channels[0].patterns[0].set_length(4 * 7680);
    let mut surface = Surface::new();
    let mut controller = identified(APCType::APC40, &mut sequencer, &mut surface);
    input(&mut controller, &[0x90, 0x5E, 0x7F], 10, &mut sequencer, &mut surface);
    input(&mut controller, &[0x80, 0x5E, 0x7F], 20, &mut sequencer, &mut surface);
    assert_eq!(surface.pattern_base_note(0), 64);
    input(&mut controller, &[0x90, 0x60, 0x7F], 30, &mut sequencer, &mut surface);
    input(&mut controller, &[0x80, 0x60, 0x7F], 40, &mut sequencer, &mut surface);
    // A grid further along: 8 buttons of half a beat
    assert_eq!(surface.pattern_offset(0), 7680);
    input(&mut controller, &[0x90, 0x61, 0x7F], 50, &mut sequencer, &mut surface);
    input(&mut controller, &[0x80, 0x61, 0x7F], 60, &mut sequencer, &mut surface);
    assert_eq!(surface.pattern_offset(0), 0);
}

#[test]
fn a_view_out_of_range_is_not_drawable() {
    let sequencer = Sequencer::new();
    let mut surface = Surface::new();
    let apc40 = APCController::new(APCType::APC40);
    let apc20 = APCController::new(APCType::APC20);
    assert!(apc40.view_is_drawable(&sequencer, &surface));
    assert!(apc20.view_is_drawable(&sequencer, &surface));
    surface.pattern_shown[0] = 5;
    assert!(!apc40.view_is_drawable(&sequencer, &surface));
    assert!(apc20.view_is_drawable(&sequencer, &surface));
    surface.pattern_shown[0] = 0;
    surface.pattern_base_notes[0] = 1;
    assert!(!apc40.view_is_drawable(&sequencer, &surface));
    surface.pattern_base_notes[0] = 60;
    surface.phrase_offsets[0] = 0x8000_0000;
    assert!(apc40.view_is_drawable(&sequencer, &surface));
    assert!(!apc20.view_is_drawable(&sequencer, &surface));
}
