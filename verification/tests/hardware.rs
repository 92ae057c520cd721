use octothorpe::hardware::{
    APCType, ButtonState, ButtonSurfaceType, MidiInputEvent, Position, Surface, SurfaceEvent, SurfaceEventType,
    SurfaceType, APC,
};

fn inquiry_response(local_id: u8) -> [u8; 15] {
    [0xF0, 0x7E, 0x00, 0x06, 0x02, 0x47, 0x73, 0x00, 0x19, 0x00, 0x01, 0x00, 0x01, local_id, 0xF7]
}

#[test]
fn apc_rows_come_after_those_of_earlier_devices() {
    let apc = APC::new(APCType::APC20, &[8, 8], &[8]);
    assert_eq!(apc.port_name(), "apc20");
    assert_eq!(apc.surface(ButtonSurfaceType::PatternLength).offset_x, 16);
    assert_eq!(apc.surface(ButtonSurfaceType::PatternZoom).offset_x, 8);
    assert_eq!(apc.surface(ButtonSurfaceType::PatternZoom).width, 8);
    assert_eq!(APC::new(APCType::APC40, &[], &[]).port_name(), "apc40");
}

#[test]
fn unidentified_apc_is_asked_who_it_is_then_introduced_once() {
    let mut apc = APC::new(APCType::APC40, &[], &[]);
    let messages = apc.get_midi_messages(1000);
    assert_eq!(messages.len(), 1);
    assert_eq!(messages[0].bytes, vec![0xF0, 0x7E, 0x00, 0x06, 0x01, 0xF7]);
    assert_eq!(apc.introduced_at, 0);

    let response = inquiry_response(0x05);
    apc.process_midi_inputevent(&MidiInputEvent { bytes: &response, time: 1100 });
    assert_eq!((apc.local_id, apc.device_id), (Some(0x05), Some(0x73)));

    let messages = apc.get_midi_messages(2000);
    assert_eq!(messages[0].frame, 0);
    assert_eq!(messages[0].bytes, vec![0xF0, 0x47, 0x05, 0x73, 0x60, 0x00, 0x04, 0x42, 0x00, 0x00, 0x00, 0xF7]);
    assert_eq!(apc.introduced_at, 2000);
    // Once introduced, nothing more is sent
    assert!(apc.get_midi_messages(3000).is_empty());
}

#[test]
fn row_buttons_are_seen_over_all_devices() {
    let mut apc = APC::new(APCType::APC40, &[8], &[]);
    let pressed = [0x92, 0x32, 0x7F];
    let event = apc.process_midi_inputevent(&MidiInputEvent { bytes: &pressed, time: 5 });
    assert_eq!(
        event,
        Some((ButtonSurfaceType::PatternLength, SurfaceEvent::new(5, Position::new(10, 0), SurfaceEventType::Button(ButtonState::Pressed))))
    );
    let released = [0x83, 0x31, 0x7F];
    let event = apc.process_midi_inputevent(&MidiInputEvent { bytes: &released, time: 6 });
    assert_eq!(
        event,
        Some((ButtonSurfaceType::PatternZoom, SurfaceEvent::new(6, Position::new(3, 0), SurfaceEventType::Button(ButtonState::Released))))
    );
    let other = [0x90, 0x35, 0x7F];
    assert_eq!(apc.process_midi_inputevent(&MidiInputEvent { bytes: &other, time: 7 }), None);
    assert_eq!(apc.recognized_button(2, 0x33), None);
}

#[test]
fn surface_moves_events_by_its_offset() {
    let mut surface = Surface::new(8, 1, SurfaceType::Button(ButtonSurfaceType::PatternZoom));
    surface.set_offset_x(8);
    let event = SurfaceEvent::new(1, Position::new(2, 0), SurfaceEventType::Control(3));
    assert_eq!(surface.process_event(event).position, Position::new(10, 0));
    let mut moved = event;
    moved.offset_x(1);
    assert_eq!(moved.position.x, 3);
}
