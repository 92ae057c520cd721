use vstd::prelude::*;

use crate::TICKS_PER_BEAT;

verus! {

/// A button press: when it started, when it was released, and which button it was.
#[derive(Debug, Clone, Copy)]
pub struct PressedButton {
    pub start: u32,
    pub end: Option<u32>,
    pub channel: u8,
    pub note: u8,
}

impl PressedButton {
    pub fn new(start: u32, channel: u8, note: u8) -> (r: Self)
        ensures
            r == (PressedButton { start, end: None, channel, note }),
    {
        Self { start, end: None, channel, note }
    }
}

/// Ticks within which a second press of the same button counts as a double press.
pub open spec fn double_press_ticks() -> u32 {
    (TICKS_PER_BEAT / 2) as u32
}

/// Whether `previous` is still held, or was released less than a double press ago.
pub open spec fn within_double_press(previous: PressedButton, start: u32) -> bool {
    match previous.end {
        None => true,
        Some(end) => start - end < double_press_ticks(),
    }
}

/// The presses of `pressed` still within double press range of `start`.
pub open spec fn recent_presses(pressed: Seq<PressedButton>, start: u32) -> Seq<PressedButton>
    decreases pressed.len(),
{
    if pressed.len() == 0 {
        Seq::empty()
    } else {
        let rest = recent_presses(pressed.drop_last(), start);
        if within_double_press(pressed.last(), start) {
            rest.push(pressed.last())
        } else {
            rest
        }
    }
}

/// Index of the last press whose press channel is 16 above `channel` and whose note is
/// `note`, or -1.
pub open spec fn release_target(pressed: Seq<PressedButton>, channel: u8, note: u8) -> int
    decreases pressed.len(),
{
    if pressed.len() == 0 {
        -1
    } else if pressed.last().channel - 16 == channel && pressed.last().note == note {
        pressed.len() - 1
    } else {
        release_target(pressed.drop_last(), channel, note)
    }
}

/// Remembers button presses to recognise double presses.
pub struct Buttons {
    pressed: Vec<PressedButton>,
}

impl Buttons {
    const DOUBLE_PRESS_TICKS: u32 = TICKS_PER_BEAT / 2;

    /// The remembered presses, oldest first.
    pub closed spec fn presses(&self) -> Seq<PressedButton> {
        self.pressed@
    }

    pub fn new() -> (r: Self)
        ensures
            r.presses() == Seq::<PressedButton>::empty(),
    {
        Self { pressed: Vec::new() }
    }

    /// Register a press. Presses released longer than a double press ago are forgotten. The
    /// result tells whether this is a double press: whether a press of the same button is still
    /// remembered.
    pub fn press(&mut self, start: u32, channel: u8, note: u8) -> (r: bool)
        requires
            forall|k: int|
                0 <= k < old(self).presses().len() && (#[trigger] old(self).presses()[k]).end
                    is Some ==> old(self).presses()[k].end.unwrap() <= start,
        ensures
            final(self).presses() == recent_presses(old(self).presses(), start).push(
                PressedButton { start, end: None, channel, note },
            ),
            r == exists|k: int|
                0 <= k < recent_presses(old(self).presses(), start).len() && (#[trigger] recent_presses(
                    old(self).presses(),
                    start,
                )[k]).channel == channel && recent_presses(old(self).presses(), start)[k].note == note,
    {
        let mut is_double_pressed = false;
        let mut kept: Vec<PressedButton> = Vec::new();
        let mut i: usize = 0;
        while i < self.pressed.len()
            invariant
                0 <= i <= self.pressed@.len(),
                self.pressed@ == old(self).pressed@,
                forall|k: int|
                    0 <= k < self.pressed@.len() && (#[trigger] self.pressed@[k]).end is Some
                        ==> self.pressed@[k].end.unwrap() <= start,
                kept@ == recent_presses(self.pressed@.take(i as int), start),
                is_double_pressed == exists|k: int|
                    0 <= k < kept@.len() && (#[trigger] kept@[k]).channel == channel && kept@[k].note == note,
            decreases self.pressed@.len() - i,
        {
            assert(self.pressed@.take(i + 1).drop_last() =~= self.pressed@.take(i as int));
            let previous = self.pressed[i];
            let falls_within_double_press_ticks = match previous.end {
                None => true,
                Some(end) => start - end < Buttons::DOUBLE_PRESS_TICKS,
            };
            if falls_within_double_press_ticks {
                let ghost before = kept@;
                kept.push(previous);
                assert(kept@[before.len() as int] == previous);
                assert forall|k: int| 0 <= k < before.len() implies kept@[k] == before[k] by {}
                if previous.channel == channel && previous.note == note {
                    is_double_pressed = true;
                }
            }
            i += 1;
        }
        assert(self.pressed@.take(i as int) =~= self.pressed@);
        kept.push(PressedButton::new(start, channel, note));
        self.pressed = kept;
        is_double_pressed
    }

    /// Mark the last press of the button as released. Release messages come on the channel
    /// 16 below the one of the press.
    pub fn release(&mut self, end: u32, channel: u8, note: u8)
        requires
            release_target(old(self).presses(), channel, note) >= 0,
            forall|k: int|
                release_target(old(self).presses(), channel, note) <= k < old(
                    self,
                ).presses().len() ==> (#[trigger] old(self).presses()[k]).channel >= 16,
        ensures
            ({
                let s = old(self).presses();
                let j = release_target(s, channel, note);
                final(self).presses() == s.update(j, PressedButton { end: Some(end), ..s[j] })
            }),
    {
        let ghost j = release_target(self.pressed@, channel, note);
        proof {
            lemma_release_target(self.pressed@, channel, note);
        }
        let mut i: usize = self.pressed.len();
        while i > 0
            invariant
                j < i <= self.pressed@.len(),
                self.pressed@ == old(self).pressed@,
                j == release_target(self.pressed@, channel, note),
                0 <= j,
                self.pressed@[j].channel - 16 == channel && self.pressed@[j].note == note,
                forall|k: int| j < k < self.pressed@.len() ==> !((#[trigger] self.pressed@[k]).channel
                    - 16 == channel && self.pressed@[k].note == note),
                forall|k: int| j <= k < self.pressed@.len() ==> (#[trigger] self.pressed@[k]).channel >= 16,
                forall|k: int|
                    i <= k < self.pressed@.len() ==> !((#[trigger] self.pressed@[k]).channel - 16
                        == channel && self.pressed@[k].note == note),
            decreases i,
        {
            let candidate = self.pressed[i - 1];
            if candidate.channel - 16 == channel && candidate.note == note {
                let mut pressed_button = candidate;
                pressed_button.end = Some(end);
                self.pressed.set(i - 1, pressed_button);
                assert(i - 1 == j);
                return ;
            }
            i -= 1;
        }
    }
}

proof fn lemma_release_target(pressed: Seq<PressedButton>, channel: u8, note: u8)
    ensures
        -1 <= release_target(pressed, channel, note) < pressed.len(),
        release_target(pressed, channel, note) >= 0 ==> ({
            let j = release_target(pressed, channel, note);
            &&& pressed[j].channel - 16 == channel
            &&& pressed[j].note == note
        }),
        forall|k: int|
            release_target(pressed, channel, note) < k < pressed.len() ==> !((
            #[trigger] pressed[k]).channel - 16 == channel && pressed[k].note == note),
    decreases pressed.len(),
{
    if pressed.len() > 0 && !(pressed.last().channel - 16 == channel && pressed.last().note
        == note) {
        let rest = pressed.drop_last();
        lemma_release_target(rest, channel, note);
        assert forall|k: int|
            release_target(pressed, channel, note) < k < pressed.len() implies !((
            #[trigger] pressed[k]).channel - 16 == channel && pressed[k].note == note) by {
            if k < pressed.len() - 1 {
                assert(pressed[k] == rest[k]);
            }
        }
    }
}

} // verus!
