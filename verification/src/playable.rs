use vstd::prelude::*;

use crate::controller::input::trunc_div;

verus! {

/// The values a playable holds.
pub struct PlayableModel {
    pub minimum_length: u32,
    pub length: u32,
    pub zoom: u32,
    pub offset: u32,
    pub head: u8,
    pub tail: u8,
}

/// The zoom and length settings of a pattern or phrase, and how its notes are shown as leds.
#[derive(Clone, Copy)]
pub struct Playable {
    pub minimum_length: u32,
    pub length: u32,
    pub zoom: u32,
    pub offset: u32,
    pub head: u8,
    pub tail: u8,
}

/// Ticks visible on the grid at once.
pub open spec fn visible_ticks_of(p: PlayableModel) -> int {
    p.length as int / p.zoom as int
}

/// Ticks per led, with 8 leds on a row.
pub open spec fn ticks_per_led_of(p: PlayableModel) -> int {
    visible_ticks_of(p) / 8
}

/// Tick at which the visible part starts.
pub open spec fn ticks_offset_of(p: PlayableModel) -> int {
    p.offset * visible_ticks_of(p)
}

/// The led of the first tick of a note starting at `start`.
pub open spec fn start_led_of(p: PlayableModel, start: u32) -> int {
    trunc_div(
        (start as i32) as int - (ticks_offset_of(p) as u32 as i32) as int,
        ticks_per_led_of(p),
    )
}

/// The leds of a note from `start` to `end` on row `y`: the head led, then a tail led for
/// each further whole led of its length.
pub open spec fn note_leds(p: PlayableModel, start: u32, end: u32, y: i32) -> Seq<(i32, i32, u8)> {
    let first = start_led_of(p, start);
    let total = (end - start) / ticks_per_led_of(p);
    seq![(first as i32, y, p.head)] + Seq::new(
        if total > 1 { (total - 1) as nat } else { 0 },
        |k: int| ((first + k + 1) as i32, y, p.tail),
    )
}

/// Whether the leds of a note can be computed without overflow.
pub open spec fn note_leds_defined(p: PlayableModel, start: u32, end: u32) -> bool {
    let difference = (start as i32) as int - (ticks_offset_of(p) as u32 as i32) as int;
    &&& start <= end
    &&& i32::MIN <= difference <= i32::MAX
    &&& (end - start) / ticks_per_led_of(p) <= i32::MAX
    &&& start_led_of(p, start) + (end - start) / ticks_per_led_of(p) <= i32::MAX
}

/// The leds of every note of `coords`, in order.
pub open spec fn all_note_leds(p: PlayableModel, coords: Seq<(u32, u32, i32)>) -> Seq<(i32, i32, u8)>
    decreases coords.len(),
{
    if coords.len() == 0 {
        Seq::empty()
    } else {
        all_note_leds(p, coords.drop_last()) + note_leds(
            p,
            coords.last().0,
            coords.last().1,
            coords.last().2,
        )
    }
}

impl View for Playable {
    type V = PlayableModel;

    open spec fn view(&self) -> PlayableModel {
        PlayableModel {
            minimum_length: self.minimum_length,
            length: self.length,
            zoom: self.zoom,
            offset: self.offset,
            head: self.head,
            tail: self.tail,
        }
    }
}

impl Playable {
    pub fn new(length: u32, minimum_length: u32, head: u8, tail: u8) -> (r: Self)
        ensures
            r@ == (PlayableModel { minimum_length, length, zoom: 1, offset: 0, head, tail }),
    {
        Playable { minimum_length, length, zoom: 1, offset: 0, head, tail }
    }

    pub fn visible_ticks(&self) -> (r: u32)
        requires
            self@.zoom > 0,
        ensures
            r == visible_ticks_of(self@),
    {
        self.length / self.zoom
    }

    pub fn ticks_per_led(&self) -> (r: u32)
        requires
            self@.zoom > 0,
        ensures
            r == ticks_per_led_of(self@),
    {
        self.visible_ticks() / 8
    }

    pub fn ticks_offset(&self) -> (r: u32)
        requires
            self@.zoom > 0,
            ticks_offset_of(self@) <= u32::MAX,
        ensures
            r == ticks_offset_of(self@),
    {
        self.offset * self.visible_ticks()
    }

    pub fn length_modifier(&self) -> (r: u32)
        requires
            self@.minimum_length > 0,
        ensures
            r == self@.length / self@.minimum_length,
    {
        self.length / self.minimum_length
    }

    /// The leds for notes given as (start tick, end tick, row).
    pub fn led_states(&self, coords: Vec<(u32, u32, i32)>) -> (r: Vec<(i32, i32, u8)>)
        requires
            self@.zoom > 0,
            ticks_per_led_of(self@) > 0,
            ticks_offset_of(self@) <= u32::MAX,
            forall|i: int|
                0 <= i < coords@.len() ==> note_leds_defined(
                    self@,
                    #[trigger] coords@[i].0,
                    coords@[i].1,
                ),
        ensures
            r@ == all_note_leds(self@, coords@),
    {
        let mut leds: Vec<(i32, i32, u8)> = Vec::new();
        let mut i: usize = 0;
        while i < coords.len()
            invariant
                0 <= i <= coords@.len(),
                self@.zoom > 0,
                ticks_per_led_of(self@) > 0,
                ticks_offset_of(self@) <= u32::MAX,
                forall|j: int|
                    0 <= j < coords@.len() ==> note_leds_defined(
                        self@,
                        #[trigger] coords@[j].0,
                        coords@[j].1,
                    ),
                leds@ == all_note_leds(self@, coords@.take(i as int)),
            decreases coords@.len() - i,
        {
            assert(coords@.take(i + 1).drop_last() =~= coords@.take(i as int));
            let (start, end, y) = coords[i];
            assert(note_leds_defined(self@, coords@[i as int].0, coords@[i as int].1));
            let per_led = self.ticks_per_led();
            assert(per_led <= i32::MAX) by {
                assert(self@.length as int / self@.zoom as int <= u32::MAX);
            }
            let offset_ticks = self.ticks_offset();
            let difference = start as i32 - offset_ticks as i32;
            let start_led = difference / per_led as i32;
            assert(start_led as int == start_led_of(self@, start));
            let total_leds = (end - start) / per_led;
            let ghost before = leds@;
            leds.push((start_led, y, self.head));
            let mut led: u32 = 1;
            while led < total_leds
                invariant
                    1 <= led,
                    total_leds >= 1 ==> led <= total_leds,
                    total_leds == 0 ==> led == 1,
                    start_led as int + total_leds <= i32::MAX,
                    total_leds <= i32::MAX,
                    leds@ == before + seq![(start_led, y, self.head)] + Seq::new(
                        (led - 1) as nat,
                        |k: int| ((start_led + k + 1) as i32, y, self.tail),
                    ),
                decreases total_leds - led,
            {
                leds.push((start_led + led as i32, y, self.tail));
                assert(leds@ =~= before + seq![(start_led, y, self.head)] + Seq::new(
                    led as nat,
                    |k: int| ((start_led + k + 1) as i32, y, self.tail),
                ));
                led += 1;
            }
            assert(Seq::new((led - 1) as nat, |k: int| ((start_led + k + 1) as i32, y, self.tail))
                =~= Seq::new(
                if total_leds > 1 { (total_leds - 1) as nat } else { 0 },
                |k: int| ((start_led + k + 1) as i32, y, self.tail),
            ));
            assert(leds@ =~= before + note_leds(self@, start, end, y));
            i += 1;
        }
        assert(coords@.take(i as int) =~= coords@);
        leds
    }

    /// Zoom with one of the 8 zoom buttons: buttons 1, 2, 4 and 8 show the whole length in
    /// 8, 4, 2 or 1 parts from the start; the others zoom into a part of it.
    pub fn change_zoom(&mut self, button: u32)
        ensures
            ({
                let o = old(self)@;
                final(self)@ == if button == 1 || button == 2 || button == 4 || button == 8 {
                    PlayableModel { zoom: (8u32 / button) as u32, offset: 0, ..o }
                } else if button == 5 {
                    PlayableModel { zoom: 2, offset: 1, ..o }
                } else if button == 7 {
                    PlayableModel { zoom: 4, offset: 3, ..o }
                } else if button == 3 || button == 6 {
                    PlayableModel { zoom: 8, offset: (button - 1) as u32, ..o }
                } else {
                    o
                }
            }),
    {
        match button {
            1 | 2 | 4 | 8 => {
                self.zoom = 8 / button;
                self.offset = 0
            },
            5 => {
                self.zoom = 2;
                self.offset = 1
            },
            7 => {
                self.zoom = 4;
                self.offset = 3
            },
            3 | 6 => {
                self.zoom = 8;
                self.offset = button - 1
            },
            _ => (),
        }
    }

    /// Move the visible part by `delta` parts when it stays within the zoomed length.
    pub fn change_offset(&mut self, delta: i32)
        requires
            (old(self)@.offset as i32) + delta <= i32::MAX,
            (old(self)@.offset as i32) + delta >= i32::MIN,
            old(self)@.zoom as i32 > i32::MIN,
        ensures
            ({
                let o = old(self)@;
                let offset = (o.offset as i32) + delta;
                final(self)@ == if offset >= 0 && offset <= (o.zoom as i32) as int - 1 {
                    PlayableModel { offset: offset as u32, ..o }
                } else {
                    o
                }
            }),
    {
        let offset = self.offset as i32 + delta;
        if offset >= 0 && offset <= self.zoom as i32 - 1 {
            self.offset = offset as u32;
        }
    }

    /// Set the length to 1, 2, 4 or 8 times the minimum length, keeping the offset within
    /// the zoom; other modifiers are refused.
    pub fn change_length(&mut self, length_modifier: u32) -> (r: Option<u32>)
        requires
            (length_modifier == 1 || length_modifier == 2 || length_modifier == 4 || length_modifier
                == 8) ==> length_modifier * old(self)@.minimum_length <= u32::MAX && old(self)@.zoom
                >= 1,
        ensures
            ({
                let o = old(self)@;
                if length_modifier == 1 || length_modifier == 2 || length_modifier == 4
                    || length_modifier == 8 {
                    &&& r == Some(length_modifier)
                    &&& final(self)@ == PlayableModel {
                        length: (length_modifier * o.minimum_length) as u32,
                        offset: if o.offset > o.zoom - 1 {
                            (o.zoom - 1) as u32
                        } else {
                            o.offset
                        },
                        ..o
                    }
                } else {
                    r is None && final(self)@ == o
                }
            }),
    {
        match length_modifier {
            1 | 2 | 4 | 8 => {
                self.length = length_modifier * self.minimum_length;
                if self.offset > self.zoom - 1 {
                    self.offset = self.zoom - 1;
                }
                Some(length_modifier)
            },
            _ => None,
        }
    }
}

} // verus!
