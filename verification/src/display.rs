use vstd::prelude::*;

use crate::controller::input::trunc_div;

verus! {

/// Colour of a button light.
#[derive(Debug, Clone, Copy, PartialEq, Eq, Structural)]
pub enum LedColor {
    Green,
    Orange,
    Red,
}

/// How a loopable is shown on the grid: its offsets, zoom and colours.
pub struct DisplayParameters {
    offset_x: u32,
    offset_y: u8,
    min_offset_y: u8,
    max_offset_y: u8,
    zoom_level: u8,
    ticks_per_button: u32,
    head_color: LedColor,
    tail_color: LedColor,
}

impl DisplayParameters {
    pub closed spec fn horizontal_offset(&self) -> u32 {
        self.offset_x
    }

    pub closed spec fn vertical_offset(&self) -> u8 {
        self.offset_y
    }

    pub closed spec fn vertical_bounds(&self) -> (u8, u8) {
        (self.min_offset_y, self.max_offset_y)
    }

    pub closed spec fn zoom(&self) -> u8 {
        self.zoom_level
    }

    /// Ticks per button when not zoomed.
    pub closed spec fn base_ticks_per_button(&self) -> u32 {
        self.ticks_per_button
    }

    pub closed spec fn colors(&self) -> (LedColor, LedColor) {
        (self.head_color, self.tail_color)
    }

    /// Ticks per button at the current zoom level.
    pub open spec fn zoomed_ticks_per_button(&self) -> int {
        self.base_ticks_per_button() as int / self.zoom() as int
    }

    pub fn new(
        offset_y: u8,
        min_offset_y: u8,
        max_offset_y: u8,
        ticks_per_button: u32,
        head_color: LedColor,
        tail_color: LedColor,
    ) -> (r: Self)
        ensures
            r.horizontal_offset() == 0,
            r.vertical_offset() == offset_y,
            r.vertical_bounds() == (min_offset_y, max_offset_y),
            r.zoom() == 4,
            r.base_ticks_per_button() == ticks_per_button,
            r.colors() == (head_color, tail_color),
    {
        Self {
            offset_x: 0,
            offset_y,
            min_offset_y,
            max_offset_y,
            zoom_level: 4,
            ticks_per_button,
            head_color,
            tail_color,
        }
    }

    pub fn ticks_per_button(&self) -> (r: u32)
        requires
            self.zoom() > 0,
        ensures
            r == self.zoomed_ticks_per_button(),
    {
        self.ticks_per_button / self.zoom_level as u32
    }

    pub fn ticks_in_grid(&self, grid_width: u8) -> (r: u32)
        requires
            self.zoom() > 0,
            self.zoomed_ticks_per_button() * grid_width <= u32::MAX,
        ensures
            r == self.zoomed_ticks_per_button() * grid_width,
    {
        self.ticks_per_button() * grid_width as u32
    }

    pub fn zoom_level(&self) -> (r: u8)
        ensures
            r == self.zoom(),
    {
        self.zoom_level
    }

    /// Set the zoom level; level 7 is refused.
    pub fn set_zoom_level(&mut self, level: u8)
        ensures
            final(self).zoom() == if level != 7 {
                level
            } else {
                old(self).zoom()
            },
            final(self).horizontal_offset() == old(self).horizontal_offset(),
            final(self).vertical_offset() == old(self).vertical_offset(),
            final(self).vertical_bounds() == old(self).vertical_bounds(),
            final(self).base_ticks_per_button() == old(self).base_ticks_per_button(),
            final(self).colors() == old(self).colors(),
    {
        if level != 7 {
            self.zoom_level = level
        };
    }

    pub fn offset_x(&self) -> (r: u32)
        ensures
            r == self.horizontal_offset(),
    {
        self.offset_x
    }

    /// The largest offset at which the grid still shows ticks of a loopable of
    /// `loopable_length` ticks.
    pub fn max_offset_x(&self, loopable_length: u32, grid_width: u8) -> (r: u32)
        requires
            self.zoom() > 0,
            self.zoomed_ticks_per_button() * grid_width <= u32::MAX,
        ensures
            r == if self.zoomed_ticks_per_button() * grid_width < loopable_length {
                loopable_length - self.zoomed_ticks_per_button() * grid_width
            } else {
                0
            },
    {
        let ticks_in_grid = self.ticks_per_button() * grid_width as u32;
        if ticks_in_grid < loopable_length {
            loopable_length - ticks_in_grid
        } else {
            0
        }
    }

    /// `ticks` rounded toward zero to a whole button.
    pub fn adjust_offset_x(&self, ticks: i32) -> (r: i32)
        requires
            self.zoom() > 0,
            0 < self.zoomed_ticks_per_button() <= i32::MAX,
        ensures
            r == trunc_div(ticks as int, self.zoomed_ticks_per_button()) * self.zoomed_ticks_per_button(),
    {
        let per_button = self.ticks_per_button() as i32;
        let buttons = ticks / per_button;
        assert(buttons == trunc_div(ticks as int, per_button as int));
        assert((ticks >= 0 ==> 0 <= buttons * per_button <= ticks) && (ticks < 0 ==> ticks
            <= buttons * per_button <= 0)) by (nonlinear_arith)
            requires
                buttons == trunc_div(ticks as int, per_button as int),
                per_button > 0,
        ;
        buttons * per_button
    }

    /// Move the grid to `ticks`, rounded to a button, when that lies between 0 and the
    /// largest offset.
    pub fn set_offset_x(&mut self, ticks: i32, loopable_length: u32, grid_width: u8)
        requires
            old(self).zoom() > 0,
            0 < old(self).zoomed_ticks_per_button() <= i32::MAX,
            old(self).zoomed_ticks_per_button() * grid_width <= u32::MAX,
        ensures
            ({
                let max_offset = if old(self).zoomed_ticks_per_button() * grid_width
                    < loopable_length {
                    loopable_length - old(self).zoomed_ticks_per_button() * grid_width
                } else {
                    0
                };
                let offset = trunc_div(ticks as int, old(self).zoomed_ticks_per_button())
                    * old(self).zoomed_ticks_per_button();
                final(self).horizontal_offset() == if offset >= 0 && ticks <= (max_offset as u32) as i32 {
                    offset as u32
                } else {
                    old(self).horizontal_offset()
                }
            }),
            final(self).zoom() == old(self).zoom(),
            final(self).vertical_offset() == old(self).vertical_offset(),
            final(self).vertical_bounds() == old(self).vertical_bounds(),
            final(self).base_ticks_per_button() == old(self).base_ticks_per_button(),
            final(self).colors() == old(self).colors(),
    {
        let max_offset = self.max_offset_x(loopable_length, grid_width);
        let offset = self.adjust_offset_x(ticks);
        if offset >= 0 && ticks <= max_offset as i32 {
            self.offset_x = offset as u32;
        }
    }

    pub fn offset_y(&self) -> (r: u8)
        ensures
            r == self.vertical_offset(),
    {
        self.offset_y
    }

    /// `offset` clamped to the vertical bounds.
    pub fn adjust_offset_y(&self, offset: u8) -> (r: u8)
        ensures
            r == if offset > self.vertical_bounds().1 {
                self.vertical_bounds().1
            } else if offset < self.vertical_bounds().0 {
                self.vertical_bounds().0
            } else {
                offset
            },
    {
        if offset > self.max_offset_y {
            self.max_offset_y
        } else if offset < self.min_offset_y {
            self.min_offset_y
        } else {
            offset
        }
    }

    pub fn head_color(&self) -> (r: &LedColor)
        ensures
            *r == self.colors().0,
    {
        &self.head_color
    }

    pub fn tail_color(&self) -> (r: &LedColor)
        ensures
            *r == self.colors().1,
    {
        &self.tail_color
    }
}

/// How the patterns of the tracks are shown.
pub struct PatternDisplay {
    parameters: DisplayParameters,
    shown: [u8; 16],
}

/// How the phrases of the tracks are shown.
pub struct PhraseDisplay {
    parameters: DisplayParameters,
    shown: [u8; 16],
}

/// How the timeline is shown.
pub struct TimelineDisplay {
    parameters: DisplayParameters,
}

impl PatternDisplay {
    pub closed spec fn shown_patterns(&self) -> Seq<u8> {
        self.shown@
    }

    pub closed spec fn display_parameters(&self) -> DisplayParameters {
        self.parameters
    }

    /// Patterns start at note 58 and scroll between notes 22 and 118, green heads and
    /// orange tails; pattern 0 is shown on every track.
    pub fn new(button_ticks: u32) -> (r: Self)
        ensures
            r.shown_patterns() == Seq::new(16, |i: int| 0u8),
            r.display_parameters().vertical_offset() == 58,
            r.display_parameters().vertical_bounds() == (22u8, 118u8),
            r.display_parameters().horizontal_offset() == 0,
            r.display_parameters().zoom() == 4,
            r.display_parameters().base_ticks_per_button() == button_ticks,
            r.display_parameters().colors() == (LedColor::Green, LedColor::Orange),
    {
        let r = Self {
            parameters: DisplayParameters::new(
                58,
                22,
                118,
                button_ticks,
                LedColor::Green,
                LedColor::Orange,
            ),
            shown: [0; 16],
        };
        assert(r.shown@ =~= Seq::new(16, |i: int| 0u8));
        r
    }

    pub fn parameters(&self) -> (r: &DisplayParameters)
        ensures
            *r == self.display_parameters(),
    {
        &self.parameters
    }

    pub fn shown_pattern(&self, track_index: usize) -> (r: u8)
        requires
            track_index < 16,
        ensures
            r == self.shown_patterns()[track_index as int],
    {
        self.shown[track_index]
    }
}

impl PhraseDisplay {
    pub closed spec fn shown_phrases(&self) -> Seq<u8> {
        self.shown@
    }

    pub closed spec fn display_parameters(&self) -> DisplayParameters {
        self.parameters
    }

    /// Phrases scroll between rows 0 and 4, red heads and orange tails; phrase 0 is shown
    /// on every track.
    pub fn new(button_ticks: u32) -> (r: Self)
        ensures
            r.shown_phrases() == Seq::new(16, |i: int| 0u8),
            r.display_parameters().vertical_offset() == 0,
            r.display_parameters().vertical_bounds() == (0u8, 4u8),
            r.display_parameters().horizontal_offset() == 0,
            r.display_parameters().zoom() == 4,
            r.display_parameters().base_ticks_per_button() == button_ticks,
            r.display_parameters().colors() == (LedColor::Red, LedColor::Orange),
    {
        let r = Self {
            parameters: DisplayParameters::new(
                0,
                0,
                4,
                button_ticks,
                LedColor::Red,
                LedColor::Orange,
            ),
            shown: [0; 16],
        };
        assert(r.shown@ =~= Seq::new(16, |i: int| 0u8));
        r
    }

    pub fn parameters(&self) -> (r: &DisplayParameters)
        ensures
            *r == self.display_parameters(),
    {
        &self.parameters
    }

    pub fn shown_phrase(&self, track_index: usize) -> (r: u8)
        requires
            track_index < 16,
        ensures
            r == self.shown_phrases()[track_index as int],
    {
        self.shown[track_index]
    }
}

impl TimelineDisplay {
    pub closed spec fn display_parameters(&self) -> DisplayParameters {
        self.parameters
    }

    /// The timeline scrolls between rows 0 and 4, red heads and green tails.
    pub fn new(button_ticks: u32) -> (r: Self)
        ensures
            r.display_parameters().vertical_offset() == 0,
            r.display_parameters().vertical_bounds() == (0u8, 4u8),
            r.display_parameters().horizontal_offset() == 0,
            r.display_parameters().zoom() == 4,
            r.display_parameters().base_ticks_per_button() == button_ticks,
            r.display_parameters().colors() == (LedColor::Red, LedColor::Green),
    {
        Self {
            parameters: DisplayParameters::new(
                0,
                0,
                4,
                button_ticks,
                LedColor::Red,
                LedColor::Green,
            ),
        }
    }

    pub fn parameters(&self) -> (r: &DisplayParameters)
        ensures
            *r == self.display_parameters(),
    {
        &self.parameters
    }
}

} // verus!
