use octothorpe::display::{DisplayParameters, LedColor, PatternDisplay, PhraseDisplay, TimelineDisplay};
use octothorpe::note::Note;
use octothorpe::message::Message;
use octothorpe::playable::Playable;

const BAR: u32 = 4 * 1920;

#[test]
fn playable_shows_its_length_over_eight_leds() {
    let playable = Playable::new(4 * BAR, BAR, 1, 5);
    assert_eq!(playable.visible_ticks(), 4 * BAR);
    assert_eq!(playable.ticks_per_led(), BAR / 2);
    assert_eq!(playable.ticks_offset(), 0);
    assert_eq!(playable.length_modifier(), 4);
}

#[test]
fn notes_become_a_head_and_a_tail_of_leds() {
    let playable = Playable::new(8 * BAR, BAR, 1, 5);
    // One bar per led: a note of three bars from bar 2 is a head and two tail leds
    let leds = playable.led_states(vec![(2 * BAR, 5 * BAR, 3), (0, 10, 1)]);
    assert_eq!(leds, vec![(2, 3, 1), (3, 3, 5), (4, 3, 5), (0, 1, 1)]);
}

#[test]
fn zoom_buttons_pick_a_part_of_the_playable() {
    let mut playable = Playable::new(8 * BAR, BAR, 1, 5);
    playable.change_zoom(2);
    assert_eq!((playable.zoom, playable.offset), (4, 0));
    playable.change_zoom(5);
    assert_eq!((playable.zoom, playable.offset), (2, 1));
    playable.change_zoom(7);
    assert_eq!((playable.zoom, playable.offset), (4, 3));
    playable.change_zoom(6);
    assert_eq!((playable.zoom, playable.offset), (8, 5));
    assert_eq!(playable.ticks_offset(), 5 * BAR);
    playable.change_zoom(9);
    assert_eq!((playable.zoom, playable.offset), (8, 5));
}

#[test]
fn offset_moves_only_within_the_zoomed_parts() {
    let mut playable = Playable::new(8 * BAR, BAR, 1, 5);
    playable.change_zoom(4);
    playable.change_offset(1);
    assert_eq!(playable.offset, 1);
    playable.change_offset(1);
    assert_eq!(playable.offset, 1);
    playable.change_offset(-2);
    assert_eq!(playable.offset, 1);
    playable.change_offset(-1);
    assert_eq!(playable.offset, 0);
}

#[test]
fn length_changes_by_whole_powers_of_two() {
    let mut playable = Playable::new(8 * BAR, BAR, 1, 5);
    playable.change_zoom(1);
    playable.change_offset(7);
    assert_eq!(playable.change_length(2), Some(2));
    assert_eq!(playable.length, 2 * BAR);
    assert_eq!(playable.change_length(3), None);
    assert_eq!(playable.length, 2 * BAR);
}

#[test]
fn display_parameters_zoom_and_scroll_by_buttons() {
    let mut parameters = DisplayParameters::new(58, 22, 118, 3840, LedColor::Green, LedColor::Orange);
    assert_eq!(parameters.zoom_level(), 4);
    assert_eq!(parameters.ticks_per_button(), 960);
    assert_eq!(parameters.ticks_in_grid(8), 7680);
    assert_eq!(parameters.max_offset_x(4 * BAR, 8), 4 * BAR - 7680);
    assert_eq!(parameters.max_offset_x(BAR / 2, 8), 0);
    assert_eq!(parameters.adjust_offset_x(1000), 960);
    assert_eq!(parameters.adjust_offset_x(-1000), -960);
    parameters.set_offset_x(2000, 4 * BAR, 8);
    assert_eq!(parameters.offset_x(), 1920);
    parameters.set_offset_x(-2000, 4 * BAR, 8);
    assert_eq!(parameters.offset_x(), 1920);
    parameters.set_zoom_level(7);
    assert_eq!(parameters.zoom_level(), 4);
    parameters.set_zoom_level(2);
    assert_eq!(parameters.ticks_per_button(), 1920);
    assert_eq!(parameters.offset_y(), 58);
    assert_eq!(parameters.adjust_offset_y(10), 22);
    assert_eq!(parameters.adjust_offset_y(60), 60);
    assert_eq!(parameters.adjust_offset_y(120), 118);
    assert_eq!(*parameters.head_color(), LedColor::Green);
    assert_eq!(*parameters.tail_color(), LedColor::Orange);
}

#[test]
fn displays_show_the_first_loopable_of_every_track() {
    let patterns = PatternDisplay::new(3840);
    assert_eq!(patterns.shown_pattern(15), 0);
    assert_eq!(patterns.parameters().offset_y(), 58);
    let phrases = PhraseDisplay::new(15360);
    assert_eq!(phrases.shown_phrase(0), 0);
    assert_eq!(*phrases.parameters().head_color(), LedColor::Red);
    let timeline = TimelineDisplay::new(15360);
    assert_eq!(*timeline.parameters().tail_color(), LedColor::Green);
}

#[test]
fn note_messages_use_the_note_or_what_is_given() {
    let note = Note::new(2, 0, 100, 60, 100, 64);
    assert_eq!(note.on_message(0x90, None, None), Message::Note([0x92, 60, 100]));
    assert_eq!(note.on_message(0x90, Some(62), Some(1)), Message::Note([0x92, 62, 1]));
    assert_eq!(note.off_message(0x80, None, None), Message::Note([0x82, 60, 64]));
    assert_eq!(note.off_message(0x80, Some(61), Some(0)), Message::Note([0x82, 61, 0]));
}
