use octothorpe::controller::lights::{Coordinate, Drawable, Grid, IlluminatedButtonGrid, LedState, Side, Single, WideRow};
use octothorpe::message::Message;

#[test]
fn first_grid_output_sends_every_light() {
    let mut grid = Grid::new();
    assert_eq!((grid.width(), grid.height()), (8, 5));
    let output = grid.output();
    // Every light was unknown, so all 40 are switched off, column by column
    assert_eq!(output.len(), 40);
    assert_eq!(output[0], (0x80, 0x35, 0));
    assert_eq!(output[1], (0x80, 0x36, 0));
    assert_eq!(output[5], (0x81, 0x35, 0));
}

#[test]
fn grid_sends_only_what_changed() {
    let mut grid = Grid::new();
    grid.output();
    // Row 0 is the bottom row, which is note 0x39
    grid.draw(2, 0, 1);
    assert_eq!(grid.output(), vec![(0x92, 0x39, 1)]);
    // Drawing the same again sends nothing
    grid.draw(2, 0, 1);
    assert!(grid.output().is_empty());
    // Not drawing it switches it off
    assert_eq!(grid.output(), vec![(0x82, 0x39, 0)]);
}

#[test]
fn drawing_outside_the_grid_does_nothing() {
    let mut grid = Grid::new();
    grid.output();
    grid.draw(8, 0, 1);
    grid.draw(0, 5, 1);
    grid.try_draw(-1, 0, 1);
    assert!(grid.output().is_empty());
    grid.try_draw(7, 4, 5);
    assert_eq!(grid.output(), vec![(0x97, 0x35, 5)]);
}

#[test]
fn reset_grid_sends_every_light_again() {
    let mut grid = Grid::new();
    grid.output();
    grid.reset();
    assert_eq!(grid.output().len(), 40);
}

#[test]
fn grid_messages_carry_the_frame() {
    let mut grid = Grid::new();
    grid.output();
    grid.draw(0, 0, 1);
    let messages = grid.output_messages(17);
    assert_eq!(messages.len(), 1);
    assert_eq!(messages[0].time, 17);
    assert_eq!(messages[0].message, Message::Note([0x90, 0x39, 1]));
}

#[test]
fn side_sends_only_what_changed() {
    let mut side = Side::new();
    assert_eq!(side.height(), 5);
    assert_eq!(side.output().len(), 5);
    side.draw(0, 1);
    assert_eq!(side.output(), vec![(0x90, 0x56, 1)]);
    side.draw(0, 1);
    assert!(side.output().is_empty());
    side.draw(5, 1);
    assert_eq!(side.output(), vec![(0x80, 0x56, 0)]);
}

#[test]
fn wide_row_sends_on_the_channel_of_each_button() {
    let mut row = WideRow::new(0x33);
    assert_eq!(row.width(), 8);
    assert_eq!(row.output().len(), 8);
    row.draw(3, 1);
    assert_eq!(row.output(), vec![(0x93, 0x33, 1)]);
    row.draw(3, 1);
    assert!(row.output().is_empty());
}

#[test]
fn single_light_sends_only_changes() {
    let mut single = Single::new(0x50);
    assert_eq!(single.output(), vec![(0x80, 0x50, 0)]);
    assert!(single.output().is_empty());
    single.draw(1);
    assert_eq!(single.output(), vec![(0x90, 0x50, 1)]);
    single.draw(1);
    assert!(single.output().is_empty());
}

#[test]
fn illuminated_grid_reports_changed_lights() {
    let mut grid = IlluminatedButtonGrid::new(8, 5);
    assert!(grid.changed_state().is_empty());
    grid.set_next_state(Coordinate::new(1, 0), LedState::Green);
    let changed = grid.changed_state();
    assert_eq!(changed, vec![(Coordinate::new(1, 0), LedState::Green)]);
    grid.set_next_state(Coordinate::new(1, 0), LedState::Green);
    assert!(grid.changed_state().is_empty());
    assert_eq!(grid.changed_state(), vec![(Coordinate::new(1, 0), LedState::Off)]);
}

#[test]
fn changed_lights_are_reported_at_their_coordinate() {
    let mut grid = IlluminatedButtonGrid::new(8, 5);
    grid.set_next_state(Coordinate::new(7, 0), LedState::Green);
    grid.set_next_state(Coordinate::new(2, 3), LedState::Red);
    assert_eq!(
        grid.changed_state(),
        vec![(Coordinate::new(7, 0), LedState::Green), (Coordinate::new(2, 3), LedState::Red)]
    );
    assert_eq!(
        grid.changed_state(),
        vec![(Coordinate::new(7, 0), LedState::Off), (Coordinate::new(2, 3), LedState::Off)]
    );
}
