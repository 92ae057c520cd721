use octothorpe::controller::input::{ButtonType, InputEventType, KnobType};
use octothorpe::loopable::Loopable;
use octothorpe::sequencer::Sequencer;
use octothorpe::surface::{EventKind, GridView, Surface};

const BAR: u32 = 4 * 1920;

#[test]
fn new_surface_shows_the_first_channel_at_zoom_four() {
    let surface = Surface::new();
    assert_eq!(surface.view, GridView::Channel);
    assert_eq!(surface.channel_shown(), 0);
    assert_eq!(surface.sequence_shown(), 0);
    assert_eq!(surface.pattern_zoom_level(), 4);
    assert_eq!(surface.phrase_zoom_level(), 4);
    assert_eq!(surface.pattern_base_note(3), 60);
    // Two beats per button at zoom one, so half a beat at zoom four
    assert_eq!(surface.pattern_ticks_per_button(), 960);
    assert_eq!(surface.pattern_ticks_in_grid(), 960 * 8);
    assert_eq!(surface.phrase_ticks_per_button(), 3840);
    assert_eq!(surface.phrase_ticks_in_grid(), 3840 * 8);
    assert_eq!(surface.timeline_ticks_in_grid(), 15360 * 16);
}

#[test]
fn shown_things_are_switched() {
    let mut surface = Surface::new();
    surface.switch_view(GridView::Timeline);
    surface.show_channel(5);
    surface.show_sequence(2);
    surface.show_pattern(5, 3);
    surface.show_phrase(5, 4);
    assert_eq!(surface.view, GridView::Timeline);
    assert_eq!(surface.channel_shown(), 5);
    assert_eq!(surface.sequence_shown(), 2);
    assert_eq!(surface.pattern_shown(5), 3);
    assert_eq!(surface.phrase_shown(5), 4);
    assert_eq!(surface.pattern_shown(4), 0);
}

#[test]
fn base_note_stays_within_the_keyboard() {
    let mut surface = Surface::new();
    surface.set_pattern_base_note(0, 22);
    assert_eq!(surface.pattern_base_note(0), 22);
    surface.set_pattern_base_note(0, 21);
    assert_eq!(surface.pattern_base_note(0), 22);
    surface.set_pattern_base_note(0, 119);
    assert_eq!(surface.pattern_base_note(0), 22);
    surface.set_pattern_base_note(0, 118);
    assert_eq!(surface.pattern_base_note(0), 118);
}

#[test]
fn offsets_snap_to_buttons_and_stay_within_the_loopable() {
    let mut sequencer = Sequencer::new();
    sequencer.channels[0].patterns[0].set_length(4 * BAR);
    let mut surface = Surface::new();
    // 4 bars is 32 buttons of half a beat; the grid shows 8 of them
    assert_eq!(surface.max_pattern_offset(&sequencer, 0), 4 * BAR - 7680);
    surface.set_pattern_offset(&sequencer, 0, 1000);
    assert_eq!(surface.pattern_offset(0), 960);
    surface.set_pattern_offset(&sequencer, 0, 100000);
    assert_eq!(surface.pattern_offset(0), 4 * BAR - 7680);
    // Zooming out to a button per two beats shows the whole pattern
    surface.set_pattern_zoom_level(&sequencer, 1);
    assert_eq!(surface.pattern_offset(0), 0);
    // Phrases are 4 bars long; at zoom four the grid shows 4 bars of them
    assert_eq!(surface.max_phrase_offset(&sequencer, 0), 0);
    surface.set_phrase_offset(&sequencer, 0, 5000);
    assert_eq!(surface.phrase_offset(0), 0);
    surface.set_phrase_zoom_level(&sequencer, 8);
    assert_eq!(surface.phrase_zoom_level(), 8);
}

#[test]
fn timeline_shows_twelve_buttons_past_its_end() {
    let mut sequencer = Sequencer::new();
    let mut surface = Surface::new();
    assert_eq!(surface.get_timeline_length(&sequencer), 15360 * 12);
    assert_eq!(surface.max_timeline_offset(&sequencer), 0);
    for _ in 0..6 {
        let end = sequencer.get_timeline_end();
        sequencer.play_sequence(end, 0);
    }
    // Six sequences of 4 bars end at 24 bars, 12 buttons of 2 bars
    assert_eq!(surface.get_timeline_length(&sequencer), 15360 * 24);
    assert_eq!(surface.max_timeline_offset(&sequencer), 15360 * 8);
    surface.set_timeline_offset(&sequencer, 20000);
    assert_eq!(surface.timeline_offset(), 15360);
    surface.set_timeline_offset(&sequencer, 15360 * 20);
    assert_eq!(surface.timeline_offset(), 15360 * 8);
}

#[test]
fn latest_event_of_kinds_is_looked_up_per_controller() {
    let mut surface = Surface::new();
    surface.event_memory.register_event(0, 100, InputEventType::KnobTurned { value: 1, knob_type: KnobType::Cue });
    surface.event_memory.register_event(1, 200, InputEventType::ButtonPressed(ButtonType::Solo(2)));
    surface.event_memory.register_event(0, 300, InputEventType::KnobTurned { value: 5, knob_type: KnobType::Cue });
    let kinds = [EventKind::CueKnob, EventKind::SoloButton];
    assert_eq!(surface.event_memory.last_occurred_event_of_kinds(None, &kinds, 0), Some(300));
    assert_eq!(surface.event_memory.last_occurred_event_of_kinds(Some(1), &kinds, 0), Some(200));
    assert_eq!(surface.event_memory.last_occurred_event_of_kinds(Some(1), &kinds, 201), None);
    let exact = [EventKind::Exactly(InputEventType::ButtonPressed(ButtonType::Solo(2)))];
    assert_eq!(surface.event_memory.last_occurred_event_of_kinds(None, &exact, 0), Some(200));
}

#[test]
fn held_buttons_modify_per_controller_and_globally() {
    let mut surface = Surface::new();
    surface.button_memory.press(0, ButtonType::Shift);
    surface.button_memory.press(1, ButtonType::Play);
    assert_eq!(surface.button_memory.modifier(1, ButtonType::Play), None);
    assert_eq!(surface.button_memory.modifier(0, ButtonType::Play), Some(ButtonType::Shift));
    let global = surface.button_memory.global_modifier(ButtonType::Play).unwrap();
    assert_eq!((global.controller_channel_offset, global.button_type), (0, ButtonType::Shift));
    // Releasing the press just made leaves the held buttons as they were
    surface.button_memory.press(0, ButtonType::Up);
    surface.button_memory.release(0, 0, ButtonType::Up);
    assert_eq!(surface.button_memory.modifier(0, ButtonType::Shift), None);
    surface.button_memory.release(0, 0, ButtonType::Shift);
    assert!(surface.button_memory.global_modifier(ButtonType::Play).is_none());
}
