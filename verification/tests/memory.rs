use octothorpe::controller::input::{ButtonType, InputEventType, KnobType};
use octothorpe::memory::{ButtonMemory, EventMemory, Memory};

fn is_cue(event_type: &InputEventType) -> bool {
    matches!(event_type, InputEventType::KnobTurned { knob_type: KnobType::Cue, .. })
}

fn is_shift(event_type: &InputEventType) -> bool {
    matches!(event_type, InputEventType::ButtonPressed(ButtonType::Shift))
}

#[test]
fn held_button_modifies_other_buttons() {
    let mut memory = ButtonMemory::new();
    assert_eq!(memory.modifier(ButtonType::Play), None);
    memory.press(ButtonType::Shift);
    memory.press(ButtonType::Play);
    assert_eq!(memory.modifier(ButtonType::Play), Some(&ButtonType::Shift));
    assert_eq!(memory.modifier(ButtonType::Shift), Some(&ButtonType::Play));
    memory.release(ButtonType::Shift);
    assert_eq!(memory.modifier(ButtonType::Play), None);
}

#[test]
fn releasing_a_button_just_pressed_undoes_the_press() {
    let mut memory = ButtonMemory::new();
    memory.press(ButtonType::Side(1));
    memory.press(ButtonType::Up);
    memory.release(ButtonType::Up);
    assert_eq!(memory.modifier(ButtonType::Up), Some(&ButtonType::Side(1)));
    memory.release(ButtonType::Side(1));
    assert_eq!(memory.modifier(ButtonType::Up), None);
    // Releasing a button that is not held changes nothing
    memory.release(ButtonType::Down);
    assert_eq!(memory.modifier(ButtonType::Up), None);
}

#[test]
fn latest_event_after_a_time_is_found_by_kind() {
    let mut memory = EventMemory::new();
    memory.register_event(100, InputEventType::KnobTurned { value: 1, knob_type: KnobType::Cue });
    memory.register_event(200, InputEventType::ButtonPressed(ButtonType::Shift));
    let filters: [fn(&InputEventType) -> bool; 1] = [is_cue];
    assert_eq!(memory.last_occurred_event_after(&filters, 50), Some(100));
    assert_eq!(memory.last_occurred_event_after(&filters, 150), None);
    let both: [fn(&InputEventType) -> bool; 2] = [is_cue, is_shift];
    assert_eq!(memory.last_occurred_event_after(&both, 50), Some(200));
}

#[test]
fn remembering_an_event_again_moves_its_time() {
    let mut memory = EventMemory::new();
    memory.register_event(100, InputEventType::ButtonPressed(ButtonType::Shift));
    memory.register_event(300, InputEventType::ButtonPressed(ButtonType::Shift));
    let filters: [fn(&InputEventType) -> bool; 1] = [is_shift];
    assert_eq!(memory.last_occurred_event_after(&filters, 0), Some(300));
    assert_eq!(memory.last_occurred_event_after(&filters, 301), None);
}

#[test]
fn new_memory_remembers_nothing() {
    let memory = Memory::new();
    assert_eq!(memory.buttons.modifier(ButtonType::Play), None);
    let filters: [fn(&InputEventType) -> bool; 1] = [is_shift];
    assert_eq!(memory.events.last_occurred_event_after(&filters, 0), None);
}
