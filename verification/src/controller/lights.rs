use vstd::prelude::*;

use crate::message::{TimedMessage, is_note_message, note_message};

verus! {

/// Whether `messages` are the note messages for `outputs`, all sent at `frame`.
pub open spec fn are_note_messages(messages: Seq<TimedMessage>, outputs: Seq<(u8, u8, u8)>, frame: u32) -> bool {
    &&& messages.len() == outputs.len()
    &&& forall|i: int|
        0 <= i < outputs.len() ==> is_note_message(#[trigger] messages[i], frame, outputs[i])
}

/// Lights that remember what they show, so that only changes are sent to the controller.
pub trait Drawable {
    /// The `(status, note, velocity)` messages the next `output` sends.
    spec fn pending_output(&self) -> Seq<(u8, u8, u8)>;

    /// Whether these lights show what `before` had drawn, with a blank drawing.
    spec fn shows_drawing_of(&self, before: &Self) -> bool;

    /// The note messages for the next output, all sent at `frame`.
    fn output_messages(&mut self, frame: u32) -> (r: Vec<TimedMessage>)
        ensures
            are_note_messages(r@, old(self).pending_output(), frame),
            final(self).shows_drawing_of(old(self)),
    {
        let output = self.output();
        let mut messages: Vec<TimedMessage> = Vec::new();
        let mut i: usize = 0;
        while i < output.len()
            invariant
                0 <= i <= output@.len(),
                messages@.len() == i,
                forall|k: int| 0 <= k < i ==> is_note_message(#[trigger] messages@[k], frame, output@[k]),
            decreases output@.len() - i,
        {
            messages.push(note_message(frame, output[i]));
            i += 1;
        }
        messages
    }

    /// The messages that change the lights to what was drawn since the last output; the
    /// drawing becomes what is shown and a blank drawing starts.
    fn output(&mut self) -> (r: Vec<(u8, u8, u8)>)
        ensures
            r@ == old(self).pending_output(),
            final(self).shows_drawing_of(old(self)),
    ;

    /// Forget what is shown, so that the next output sends every light.
    fn reset(&mut self);
}

/// A position on a grid of buttons.
#[derive(Debug, Clone, Copy, PartialEq, Eq, Structural)]
pub struct Coordinate {
    pub x: u8,
    pub y: u8,
}

impl Coordinate {
    pub fn new(x: u8, y: u8) -> (r: Self)
        ensures
            r == (Coordinate { x, y }),
    {
        Self { x, y }
    }
}

/// What a button light shows.
#[derive(Copy, Clone, Debug, PartialEq, Eq, Structural)]
pub enum LedState {
    Off,
    Green,
    Orange,
    Red,
}

/// Position in the buffer for a coordinate; rows are 8 buttons apart.
pub open spec fn buffer_index(coordinate: Coordinate) -> int {
    coordinate.y * 8 + coordinate.x
}

/// The changed lights among the first `n` of the buffers, each with its coordinate (the one
/// whose buffer index it is: rows are 8 lights apart) and its new state.
pub open spec fn changed_leds(state: Seq<LedState>, next: Seq<LedState>, width: u8, height: u8, n: int) -> Seq<(Coordinate, LedState)>
    decreases n,
{
    if n <= 0 {
        Seq::empty()
    } else {
        let rest = changed_leds(state, next, width, height, n - 1);
        let i = n - 1;
        if state[i] != next[i] {
            rest.push((Coordinate { x: (i % 8) as u8, y: (i / 8) as u8 }, next[i]))
        } else {
            rest
        }
    }
}

/// A grid of lit buttons that only reports the lights that changed since it was last asked.
pub struct IlluminatedButtonGrid {
    width: u8,
    height: u8,
    state: Vec<LedState>,
    next_state: Vec<LedState>,
}

impl IlluminatedButtonGrid {
    /// Both buffers hold one light per button.
    pub closed spec fn well_formed(&self) -> bool {
        &&& self.state@.len() == self.width * self.height
        &&& self.next_state@.len() == self.width * self.height
    }

    pub closed spec fn grid_width(&self) -> u8 {
        self.width
    }

    pub closed spec fn grid_height(&self) -> u8 {
        self.height
    }

    /// What the lights show.
    pub closed spec fn shown(&self) -> Seq<LedState> {
        self.state@
    }

    /// What the lights will show after the next change.
    pub closed spec fn next(&self) -> Seq<LedState> {
        self.next_state@
    }

    pub fn new(width: u8, height: u8) -> (r: Self)
        ensures
            r.well_formed(),
            r.grid_width() == width,
            r.grid_height() == height,
            r.shown() == Seq::new((width * height) as nat, |i: int| LedState::Off),
            r.next() == Seq::new((width * height) as nat, |i: int| LedState::Off),
    {
        let r = Self {
            width,
            height,
            state: vec![LedState::Off; Self::buffer_length(width, height)],
            next_state: vec![LedState::Off; Self::buffer_length(width, height)],
        };
        assert(r.state@ =~= Seq::new((width * height) as nat, |i: int| LedState::Off));
        assert(r.next_state@ =~= Seq::new((width * height) as nat, |i: int| LedState::Off));
        r
    }

    /// Number of lights in a grid.
    fn buffer_length(width: u8, height: u8) -> (r: usize)
        ensures
            r == width * height,
    {
        assert(width * height <= 255 * 255) by (nonlinear_arith)
            requires
                width <= 255,
                height <= 255,
        ;
        width as usize * height as usize
    }

    /// Position in the buffer of a coordinate.
    fn coordinate_to_buffer_index(coordinate: Coordinate) -> (r: usize)
        ensures
            r == buffer_index(coordinate),
    {
        coordinate.y as usize * 8 + coordinate.x as usize
    }

    /// Coordinate of a position in the buffer: the inverse of `coordinate_to_buffer_index`.
    fn buffer_index_to_coordinate(index: usize) -> (r: Coordinate)
        requires
            index < 255 * 255,
        ensures
            r == (Coordinate { x: (index as int % 8) as u8, y: (index as int / 8) as u8 }),
            index < 8 * 256 ==> buffer_index(r) == index,
    {
        Coordinate { x: (index % 8) as u8, y: (index / 8) as u8 }
    }

    /// Whether a coordinate falls within the grid's buffer.
    fn contains(&self, coordinate: Coordinate) -> (r: bool)
        ensures
            r == (buffer_index(coordinate) < self.shown().len()),
    {
        Self::coordinate_to_buffer_index(coordinate) < self.state.len()
    }

    /// Set what a light shows after the next change.
    pub fn set_next_state(&mut self, coordinate: Coordinate, state: LedState)
        requires
            old(self).well_formed(),
            buffer_index(coordinate) < old(self).next().len(),
        ensures
            final(self).well_formed(),
            final(self).next() == old(self).next().update(buffer_index(coordinate), state),
            final(self).shown() == old(self).shown(),
            final(self).grid_width() == old(self).grid_width(),
            final(self).grid_height() == old(self).grid_height(),
    {
        let index = Self::coordinate_to_buffer_index(coordinate);
        self.next_state.set(index, state);
    }

    /// The lights that change, each with its coordinate and new state; the next states
    /// become what is shown and all next states are switched off.
    pub fn changed_state(&mut self) -> (r: Vec<(Coordinate, LedState)>)
        requires
            old(self).well_formed(),
        ensures
            final(self).well_formed(),
            r@ == changed_leds(
                old(self).shown(),
                old(self).next(),
                old(self).grid_width(),
                old(self).grid_height(),
                old(self).shown().len() as int,
            ),
            final(self).shown() == old(self).next(),
            final(self).next() == Seq::new(
                (old(self).grid_width() * old(self).grid_height()) as nat,
                |i: int| LedState::Off,
            ),
            final(self).grid_width() == old(self).grid_width(),
            final(self).grid_height() == old(self).grid_height(),
    {
        let mut changed: Vec<(Coordinate, LedState)> = Vec::new();
        let mut index: usize = 0;
        while index < self.state.len()
            invariant
                0 <= index <= self.state@.len(),
                self.state@.len() == self.width * self.height,
                self.next_state@.len() == self.width * self.height,
                changed@ == changed_leds(
                    self.state@,
                    self.next_state@,
                    self.width,
                    self.height,
                    index as int,
                ),
            decreases self.state@.len() - index,
        {
            if self.state[index] != self.next_state[index] {
                assert(index < 255 * 255) by (nonlinear_arith)
                    requires
                        self.state@.len() == self.width * self.height,
                        index < self.state@.len(),
                        self.width <= 255,
                        self.height <= 255,
                ;
                changed.push((Self::buffer_index_to_coordinate(index), self.next_state[index]));
            }
            index += 1;
        }
        let width = self.width;
        let height = self.height;
        std::mem::swap(&mut self.state, &mut self.next_state);
        self.next_state = vec![LedState::Off; Self::buffer_length(width, height)];
        assert(self.next_state@ =~= Seq::new((width * height) as nat, |i: int| LedState::Off));
        changed
    }
}

} // verus!

verus! {

/// A drawing with every light off.
fn unlit<const N: usize>() -> (r: [u8; N])
    ensures
        r@ == Seq::new(N as nat, |i: int| 0u8),
{
    let mut r: [u8; N] = [0u8; N];
    let mut i: usize = 0;
    while i < N
        invariant
            0 <= i <= N,
            r@.len() == N,
            forall|j: int| 0 <= j < i ==> r@[j] == 0u8,
        decreases N - i,
    {
        r[i] = 0;
        i += 1;
    }
    assert(r@ =~= Seq::new(N as nat, |i: int| 0u8));
    r
}

/// Buffer position in the main grid of the light at column `x`, row `y`.
pub open spec fn grid_index(x: int, y: int) -> int {
    y * 8 + x
}

/// Status byte of the message for a light on MIDI channel `channel`: a note on (`0x90 +
/// channel`) when the light is lit, a note off (`0x80 + channel`) when it is not.
pub open spec fn light_status(lit: bool, channel: int) -> u8 {
    ((if lit { 0x90int } else { 0x80int }) + channel) as u8
}

/// The messages for the changed lights of the main grid among the first `n` lights, visited
/// column by column and, within a column, row by row.
pub open spec fn grid_changes(state: Seq<u8>, next: Seq<u8>, n: int) -> Seq<(u8, u8, u8)>
    decreases n,
{
    if n <= 0 {
        Seq::empty()
    } else {
        let rest = grid_changes(state, next, n - 1);
        let p = n - 1;
        let x = p / 5;
        let y = p % 5;
        let i = grid_index(x, y);
        if next[i] != state[i] {
            rest.push((light_status(next[i] > 0, x), (0x35 + y) as u8, next[i]))
        } else {
            rest
        }
    }
}

/// The main grid of 8 by 5 buttons.
pub struct Grid {
    state: [u8; 40],
    next_state: [u8; 40],
}

impl Grid {
    /// What the lights show.
    pub closed spec fn shown(&self) -> Seq<u8> {
        self.state@
    }

    /// What has been drawn since the last output.
    pub closed spec fn drawing(&self) -> Seq<u8> {
        self.next_state@
    }

    /// A grid whose lights are all unknown (9 is no light value), so the first output sends
    /// every light.
    pub fn new() -> (r: Self)
        ensures
            r.shown() == Seq::new(40, |i: int| 9u8),
            r.drawing() == Seq::new(40, |i: int| 0u8),
    {
        let r = Grid { state: [9; 40], next_state: [0; 40] };
        assert(r.state@ =~= Seq::new(40, |i: int| 9u8));
        assert(r.next_state@ =~= Seq::new(40, |i: int| 0u8));
        r
    }

    pub fn width(&self) -> (r: u8)
        ensures
            r == 8,
    {
        8
    }

    pub fn height(&self) -> (r: u8)
        ensures
            r == 5,
    {
        5
    }

    fn index(x: u8, y: u8) -> (r: usize)
        ensures
            r == grid_index(x as int, y as int),
    {
        y as usize * 8 + x as usize
    }

    /// Draw at column `x` when it is not left of the grid.
    pub fn try_draw(&mut self, x: i32, y: u8, value: u8)
        ensures
            final(self).shown() == old(self).shown(),
            final(self).drawing() == if x >= 0 && (x as u8) < 8 && y < 5 {
                old(self).drawing().update(grid_index((x as u8) as int, 4 - y), value)
            } else {
                old(self).drawing()
            },
    {
        if x >= 0 {
            self.draw(x as u8, y, value);
        }
    }

    /// Draw `value` at column `x`, row `y` counted from the bottom; outside the grid nothing
    /// is drawn.
    pub fn draw(&mut self, x: u8, y: u8, value: u8)
        ensures
            final(self).shown() == old(self).shown(),
            final(self).drawing() == if x < 8 && y < 5 {
                old(self).drawing().update(grid_index(x as int, 4 - y), value)
            } else {
                old(self).drawing()
            },
    {
        if x < self.width() && y < self.height() {
            // The grid is drawn upside down so that higher notes are higher up
            self.next_state[Self::index(x, 4 - y)] = value;
        }
    }
}

impl Drawable for Grid {
    open spec fn pending_output(&self) -> Seq<(u8, u8, u8)> {
        grid_changes(self.shown(), self.drawing(), 40)
    }

    open spec fn shows_drawing_of(&self, before: &Self) -> bool {
        self.shown() == before.drawing() && self.drawing() == Seq::new(40, |i: int| 0u8)
    }

    fn reset(&mut self)
        ensures
            final(self).shown() == Seq::new(40, |i: int| 9u8),
            final(self).drawing() == old(self).drawing(),
    {
        self.state = [9; 40];
        assert(self.state@ =~= Seq::new(40, |i: int| 9u8));
    }

    fn output(&mut self) -> (r: Vec<(u8, u8, u8)>)
        ensures
            final(self).shown() == old(self).drawing(),
            final(self).drawing() == Seq::new(40, |i: int| 0u8),
    {
        let blank: [u8; 40] = unlit();
        let mut output: Vec<(u8, u8, u8)> = Vec::new();
        let mut x: u8 = 0;
        while x < 8
            invariant
                0 <= x <= 8,
                output@ == grid_changes(self.state@, self.next_state@, x * 5),
            decreases 8 - x,
        {
            let mut y: u8 = 0;
            while y < 5
                invariant
                    0 <= x < 8,
                    0 <= y <= 5,
                    output@ == grid_changes(self.state@, self.next_state@, x * 5 + y),
                decreases 5 - y,
            {
                let index = Self::index(x, y);
                assert((x * 5 + y) / 5 == x && (x * 5 + y) % 5 == y);
                if self.next_state[index] != self.state[index] {
                    let channel = x + if self.next_state[index] > 0 {
                        0x90
                    } else {
                        0x80
                    };
                    let note = 0x35 + y;
                    output.push((channel, note, self.next_state[index]));
                }
                y += 1;
            }
            x += 1;
        }
        self.state = self.next_state;
        self.next_state = blank;
        output
    }
}

/// The messages for the changed lights among the first `n` of a column of side buttons.
pub open spec fn side_changes(state: Seq<u8>, next: Seq<u8>, n: int) -> Seq<(u8, u8, u8)>
    decreases n,
{
    if n <= 0 {
        Seq::empty()
    } else {
        let rest = side_changes(state, next, n - 1);
        let i = n - 1;
        if next[i] != state[i] {
            rest.push((light_status(next[i] == 1, 0), (0x52 + i) as u8, next[i]))
        } else {
            rest
        }
    }
}

/// The column of 5 buttons beside the grid.
pub struct Side {
    state: [u8; 5],
    next_state: [u8; 5],
}

impl Side {
    pub closed spec fn shown(&self) -> Seq<u8> {
        self.state@
    }

    pub closed spec fn drawing(&self) -> Seq<u8> {
        self.next_state@
    }

    pub fn new() -> (r: Self)
        ensures
            r.shown() == Seq::new(5, |i: int| 9u8),
            r.drawing() == Seq::new(5, |i: int| 0u8),
    {
        let r = Side { state: [9; 5], next_state: [0; 5] };
        assert(r.state@ =~= Seq::new(5, |i: int| 9u8));
        assert(r.next_state@ =~= Seq::new(5, |i: int| 0u8));
        r
    }

    pub fn height(&self) -> (r: u8)
        ensures
            r == 5,
    {
        5
    }

    /// Draw `value` at button `index` counted from the bottom.
    pub fn draw(&mut self, index: u8, value: u8)
        ensures
            final(self).shown() == old(self).shown(),
            final(self).drawing() == if index < 5 {
                old(self).drawing().update(4 - index, value)
            } else {
                old(self).drawing()
            },
    {
        if index < self.height() {
            self.next_state[4 - index as usize] = value;
        }
    }
}

impl Drawable for Side {
    open spec fn pending_output(&self) -> Seq<(u8, u8, u8)> {
        side_changes(self.shown(), self.drawing(), 5)
    }

    open spec fn shows_drawing_of(&self, before: &Self) -> bool {
        self.shown() == before.drawing() && self.drawing() == Seq::new(5, |i: int| 0u8)
    }

    fn reset(&mut self)
        ensures
            final(self).shown() == Seq::new(5, |i: int| 9u8),
            final(self).drawing() == old(self).drawing(),
    {
        self.state = [9; 5];
        assert(self.state@ =~= Seq::new(5, |i: int| 9u8));
    }

    fn output(&mut self) -> (r: Vec<(u8, u8, u8)>)
        ensures
            final(self).shown() == old(self).drawing(),
            final(self).drawing() == Seq::new(5, |i: int| 0u8),
    {
        let blank: [u8; 5] = unlit();
        let mut output: Vec<(u8, u8, u8)> = Vec::new();
        let mut index: usize = 0;
        while index < 5
            invariant
                0 <= index <= 5,
                output@ == side_changes(self.state@, self.next_state@, index as int),
            decreases 5 - index,
        {
            if self.next_state[index] != self.state[index] {
                let channel = if self.next_state[index] == 1 {
                    0x90
                } else {
                    0x80
                };
                let note = 0x52 + index as u8;
                output.push((channel, note, self.next_state[index]));
            }
            index += 1;
        }
        self.state = self.next_state;
        self.next_state = blank;
        output
    }
}

/// The messages for the changed lights among the first `n` of a row of 8 buttons that share
/// the note `note`, one on each channel.
pub open spec fn row_changes(state: Seq<u8>, next: Seq<u8>, note: u8, n: int) -> Seq<(u8, u8, u8)>
    decreases n,
{
    if n <= 0 {
        Seq::empty()
    } else {
        let rest = row_changes(state, next, note, n - 1);
        let i = n - 1;
        if next[i] != state[i] {
            rest.push((light_status(next[i] == 1, i), note, next[i]))
        } else {
            rest
        }
    }
}

/// A row of 8 buttons with the same note, one on each channel.
pub struct WideRow {
    state: [u8; 8],
    next_state: [u8; 8],
    note: u8,
}

impl WideRow {
    pub closed spec fn shown(&self) -> Seq<u8> {
        self.state@
    }

    pub closed spec fn drawing(&self) -> Seq<u8> {
        self.next_state@
    }

    pub closed spec fn row_note(&self) -> u8 {
        self.note
    }

    pub fn new(note: u8) -> (r: Self)
        ensures
            r.shown() == Seq::new(8, |i: int| 9u8),
            r.drawing() == Seq::new(8, |i: int| 0u8),
            r.row_note() == note,
    {
        let r = WideRow { state: [9; 8], next_state: [0; 8], note };
        assert(r.state@ =~= Seq::new(8, |i: int| 9u8));
        assert(r.next_state@ =~= Seq::new(8, |i: int| 0u8));
        r
    }

    pub fn width(&self) -> (r: u8)
        ensures
            r == 8,
    {
        8
    }

    /// Draw `value` at button `index`.
    pub fn draw(&mut self, index: u8, value: u8)
        ensures
            final(self).shown() == old(self).shown(),
            final(self).row_note() == old(self).row_note(),
            final(self).drawing() == if index < 8 {
                old(self).drawing().update(index as int, value)
            } else {
                old(self).drawing()
            },
    {
        if index < self.width() {
            self.next_state[index as usize] = value;
        }
    }
}

impl Drawable for WideRow {
    open spec fn pending_output(&self) -> Seq<(u8, u8, u8)> {
        row_changes(self.shown(), self.drawing(), self.row_note(), 8)
    }

    open spec fn shows_drawing_of(&self, before: &Self) -> bool {
        &&& self.shown() == before.drawing()
        &&& self.drawing() == Seq::new(8, |i: int| 0u8)
        &&& self.row_note() == before.row_note()
    }

    fn reset(&mut self)
        ensures
            final(self).shown() == Seq::new(8, |i: int| 9u8),
            final(self).drawing() == old(self).drawing(),
            final(self).row_note() == old(self).row_note(),
    {
        self.state = [9; 8];
        assert(self.state@ =~= Seq::new(8, |i: int| 9u8));
    }

    fn output(&mut self) -> (r: Vec<(u8, u8, u8)>)
        ensures
            final(self).shown() == old(self).drawing(),
            final(self).drawing() == Seq::new(8, |i: int| 0u8),
            final(self).row_note() == old(self).row_note(),
    {
        let blank: [u8; 8] = unlit();
        let mut output: Vec<(u8, u8, u8)> = Vec::new();
        let mut index: usize = 0;
        while index < 8
            invariant
                0 <= index <= 8,
                output@ == row_changes(self.state@, self.next_state@, self.note, index as int),
            decreases 8 - index,
        {
            if self.next_state[index] != self.state[index] {
                let channel: u8 = if self.next_state[index] == 1 {
                    0x90
                } else {
                    0x80
                };
                output.push((channel + index as u8, self.note, self.next_state[index]));
            }
            index += 1;
        }
        self.state = self.next_state;
        self.next_state = blank;
        output
    }
}

/// A single lit button.
pub struct Single {
    state: u8,
    next_state: u8,
    note: u8,
}

impl Single {
    pub closed spec fn shown(&self) -> u8 {
        self.state
    }

    pub closed spec fn drawing(&self) -> u8 {
        self.next_state
    }

    pub closed spec fn button_note(&self) -> u8 {
        self.note
    }

    pub fn new(note: u8) -> (r: Self)
        ensures
            r.shown() == 9,
            r.drawing() == 0,
            r.button_note() == note,
    {
        Single { state: 9, next_state: 0, note }
    }

    pub fn draw(&mut self, value: u8)
        ensures
            final(self).shown() == old(self).shown(),
            final(self).drawing() == value,
            final(self).button_note() == old(self).button_note(),
    {
        self.next_state = value;
    }
}

impl Drawable for Single {
    open spec fn pending_output(&self) -> Seq<(u8, u8, u8)> {
        if self.drawing() != self.shown() {
            seq![(light_status(self.drawing() == 1, 0), self.button_note(), self.drawing())]
        } else {
            Seq::empty()
        }
    }

    open spec fn shows_drawing_of(&self, before: &Self) -> bool {
        &&& self.shown() == before.drawing()
        &&& self.drawing() == 0
        &&& self.button_note() == before.button_note()
    }

    fn reset(&mut self)
        ensures
            final(self).shown() == 9,
            final(self).drawing() == old(self).drawing(),
            final(self).button_note() == old(self).button_note(),
    {
        self.state = 9;
    }

    fn output(&mut self) -> (r: Vec<(u8, u8, u8)>)
        ensures
            final(self).shown() == old(self).drawing(),
            final(self).drawing() == 0,
            final(self).button_note() == old(self).button_note(),
    {
        let mut output: Vec<(u8, u8, u8)> = Vec::new();
        if self.next_state != self.state {
            let channel = if self.next_state == 1 {
                0x90
            } else {
                0x80
            };
            output.push((channel, self.note, self.next_state));
        }
        self.state = self.next_state;
        self.next_state = 0;
        output
    }
}


proof fn lemma_grid_changes_empty(state: Seq<u8>, next: Seq<u8>, n: int)
    requires
        0 <= n <= 40,
    ensures
        grid_changes(state, next, n).len() == 0 <==> forall|p: int|
            0 <= p < n ==> #[trigger] next[grid_index(p / 5, p % 5)] == state[grid_index(p / 5, p % 5)],
    decreases n,
{
    if n > 0 {
        lemma_grid_changes_empty(state, next, n - 1);
        let rest = grid_changes(state, next, n - 1);
        assert(grid_changes(state, next, n).len() >= rest.len());
    }
}

/// The main grid sends a message exactly when a light's drawing differs from what it shows:
/// drawing again what is shown sends nothing, and any change is sent.
pub proof fn law_grid_sends_only_changes(state: Seq<u8>, next: Seq<u8>)
    requires
        state.len() == 40,
        next.len() == 40,
    ensures
        grid_changes(state, next, 40).len() == 0 <==> state == next,
{
    lemma_grid_changes_empty(state, next, 40);
    if grid_changes(state, next, 40).len() == 0 {
        assert forall|i: int| 0 <= i < 40 implies state[i] == next[i] by {
            let p = (i % 8) * 5 + i / 8;
            assert(0 <= p < 40);
            assert(p / 5 == i % 8 && p % 5 == i / 8);
            assert(grid_index(p / 5, p % 5) == i);
            assert(next[grid_index(p / 5, p % 5)] == state[grid_index(p / 5, p % 5)]);
        }
        assert(state =~= next);
    }
}

proof fn lemma_side_changes_empty(state: Seq<u8>, next: Seq<u8>, n: int)
    requires
        0 <= n,
    ensures
        side_changes(state, next, n).len() == 0 <==> forall|i: int| 0 <= i < n ==> #[trigger] next[i] == state[i],
    decreases n,
{
    if n > 0 {
        lemma_side_changes_empty(state, next, n - 1);
    }
}

/// The side column sends a message exactly when a light's drawing differs from what it shows.
pub proof fn law_side_sends_only_changes(state: Seq<u8>, next: Seq<u8>)
    requires
        state.len() == 5,
        next.len() == 5,
    ensures
        side_changes(state, next, 5).len() == 0 <==> state == next,
{
    lemma_side_changes_empty(state, next, 5);
    if side_changes(state, next, 5).len() == 0 {
        assert(state =~= next);
    }
}

proof fn lemma_row_changes_empty(state: Seq<u8>, next: Seq<u8>, note: u8, n: int)
    requires
        0 <= n,
    ensures
        row_changes(state, next, note, n).len() == 0 <==> forall|i: int|
            0 <= i < n ==> #[trigger] next[i] == state[i],
    decreases n,
{
    if n > 0 {
        lemma_row_changes_empty(state, next, note, n - 1);
    }
}

/// A wide row sends a message exactly when a light's drawing differs from what it shows.
pub proof fn law_row_sends_only_changes(state: Seq<u8>, next: Seq<u8>, note: u8)
    requires
        state.len() == 8,
        next.len() == 8,
    ensures
        row_changes(state, next, note, 8).len() == 0 <==> state == next,
{
    lemma_row_changes_empty(state, next, note, 8);
    if row_changes(state, next, note, 8).len() == 0 {
        assert(state =~= next);
    }
}

proof fn lemma_changed_leds_empty(state: Seq<LedState>, next: Seq<LedState>, width: u8, height: u8, n: int)
    requires
        0 <= n,
    ensures
        changed_leds(state, next, width, height, n).len() == 0 <==> forall|i: int|
            0 <= i < n ==> #[trigger] next[i] == state[i],
    decreases n,
{
    if n > 0 {
        lemma_changed_leds_empty(state, next, width, height, n - 1);
    }
}

/// A grid of lit buttons reports a change exactly when what it will show differs from what it
/// shows.
pub proof fn law_changed_leds_only_changes(state: Seq<LedState>, next: Seq<LedState>, width: u8, height: u8)
    requires
        state.len() == width * height,
        next.len() == width * height,
    ensures
        changed_leds(state, next, width, height, width * height).len() == 0 <==> state == next,
{
    lemma_changed_leds_empty(state, next, width, height, width * height);
    if changed_leds(state, next, width, height, width * height).len() == 0 {
        assert(state =~= next);
    }
}

} // verus!
