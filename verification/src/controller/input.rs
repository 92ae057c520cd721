use vstd::prelude::*;

verus! {

/// A button on the controller.
#[derive(Debug, PartialEq, Eq, Structural, Copy, Clone)]
pub enum ButtonType {
    Grid(u8, u8),
    Side(u8),
    Indicator(u8),
    Track(u8),
    Activator(u8),
    Solo(u8),
    Arm(u8),
    Shift,
    Quantization,
    Play,
    Stop,
    Up,
    Down,
    Right,
    Left,
    Master,
    Unknown,
}

/// A fader on the controller.
#[derive(Debug, PartialEq, Eq, Structural, Copy, Clone)]
pub enum FaderType {
    Track(u8),
    CrossFade,
    Master,
}

/// A knob on the controller.
#[derive(Debug, PartialEq, Eq, Structural, Copy, Clone)]
pub enum KnobType {
    Effect(u8),
    Cue,
}

/// What a MIDI message from the controller means.
#[derive(Debug, PartialEq, Eq, Structural, Copy, Clone)]
pub enum InputEventType {
    InquiryResponse(u8, u8),
    ButtonPressed(ButtonType),
    ButtonReleased(ButtonType),
    KnobTurned { value: u8, knob_type: KnobType },
    FaderMoved { value: u8, fader_type: FaderType },
    Unknown,
}

/// A message from the controller at a frame of the process cycle.
pub struct InputEvent {
    pub time: u32,
    pub event_type: InputEventType,
}

/// The button a note number stands for on a channel. The side and grid rows are numbered
/// from the bottom, as notes are drawn with higher notes higher up.
pub open spec fn button_of(channel: u8, note: u8) -> ButtonType {
    if note == 0x5B {
        ButtonType::Play
    } else if note == 0x5C {
        ButtonType::Stop
    } else if note == 0x33 {
        ButtonType::Track(channel)
    } else if note == 0x3F {
        ButtonType::Quantization
    } else if 0x52 <= note <= 0x56 {
        ButtonType::Side((4 - (note - 0x52)) as u8)
    } else if note == 0x51 {
        ButtonType::Shift
    } else if note == 0x50 {
        ButtonType::Master
    } else if 0x35 <= note <= 0x39 {
        ButtonType::Grid(channel, (4 - (note - 0x35)) as u8)
    } else if note == 0x5E {
        ButtonType::Up
    } else if note == 0x5F {
        ButtonType::Down
    } else if note == 0x60 {
        ButtonType::Right
    } else if note == 0x61 {
        ButtonType::Left
    } else if note == 0x62 {
        ButtonType::Shift
    } else if note == 0x30 {
        ButtonType::Arm(channel)
    } else if note == 0x31 {
        ButtonType::Solo(channel)
    } else if note == 0x32 {
        ButtonType::Activator(channel)
    } else {
        ButtonType::Unknown
    }
}

/// Whether a system exclusive message is an inquiry response of an APC40 (0x73) or an
/// APC20 (0x7b) made by Akai (0x47).
pub open spec fn is_apc_inquiry_response(b: Seq<u8>) -> bool {
    b[3] == 0x06 && b[4] == 0x02 && b[5] == 0x47 && (b[6] == 0x73 || b[6] == 0x7b)
}

/// Whether every byte that `InputEventType::new` reads is present: the bytes are read in
/// order and the reading of a system exclusive message stops at the first mismatch.
pub open spec fn readable_input(b: Seq<u8>) -> bool {
    &&& b.len() >= 1
    &&& b[0] == 0xF0 ==> {
        &&& b.len() >= 4
        &&& b[3] == 0x06 ==> b.len() >= 5
        &&& b[3] == 0x06 && b[4] == 0x02 ==> b.len() >= 6
        &&& b[3] == 0x06 && b[4] == 0x02 && b[5] == 0x47 ==> b.len() >= 7
        &&& b.len() >= 7 && is_apc_inquiry_response(b) ==> b.len() >= 14
    }
    &&& 0x80 <= b[0] <= 0x9F ==> b.len() >= 2
    &&& 0xB0 <= b[0] <= 0xB8 ==> b.len() >= 2 && ((0x30 <= b[1] <= 0x37 || 0x10 <= b[1] <= 0x17
        || b[1] == 0x7 || b[1] == 0xE || b[1] == 0xF || b[1] == 0x2F) ==> b.len() >= 3)
}

/// The meaning of the bytes of a MIDI message from the controller.
pub open spec fn event_type_of(b: Seq<u8>) -> InputEventType {
    if b[0] == 0xF0 {
        if is_apc_inquiry_response(b) {
            InputEventType::InquiryResponse(b[13], b[6])
        } else {
            InputEventType::Unknown
        }
    } else if 0x90 <= b[0] <= 0x9F {
        InputEventType::ButtonPressed(button_of((b[0] - 0x90) as u8, b[1]))
    } else if 0x80 <= b[0] <= 0x8F {
        InputEventType::ButtonReleased(button_of((b[0] - 0x80) as u8, b[1]))
    } else if 0xB0 <= b[0] <= 0xB8 {
        if 0x30 <= b[1] <= 0x37 {
            InputEventType::KnobTurned { value: b[2], knob_type: KnobType::Effect((b[1] - 48) as u8) }
        } else if 0x10 <= b[1] <= 0x17 {
            InputEventType::KnobTurned { value: b[2], knob_type: KnobType::Effect((b[1] - 8) as u8) }
        } else if b[1] == 0x7 {
            InputEventType::FaderMoved { value: b[2], fader_type: FaderType::Track((b[0] - 0xB0) as u8) }
        } else if b[1] == 0xE {
            InputEventType::FaderMoved { value: b[2], fader_type: FaderType::Master }
        } else if b[1] == 0xF {
            InputEventType::FaderMoved { value: b[2], fader_type: FaderType::CrossFade }
        } else if b[1] == 0x2F {
            InputEventType::KnobTurned { value: b[2], knob_type: KnobType::Cue }
        } else {
            InputEventType::Unknown
        }
    } else {
        InputEventType::Unknown
    }
}

impl ButtonType {
    /// The button that `note` on `channel` stands for.
    pub fn new(channel: u8, note: u8) -> (r: Self)
        ensures
            r == button_of(channel, note),
    {
        match note {
            0x5B => ButtonType::Play,
            0x5C => ButtonType::Stop,
            0x33 => ButtonType::Track(channel),
            0x3F => ButtonType::Quantization,
            0x52..=0x56 => ButtonType::Side(4 - (note - 0x52)),
            0x51 => ButtonType::Shift,
            0x50 => ButtonType::Master,
            0x35..=0x39 => ButtonType::Grid(channel, 4 - (note - 0x35)),
            0x5E => ButtonType::Up,
            0x5F => ButtonType::Down,
            0x60 => ButtonType::Right,
            0x61 => ButtonType::Left,
            0x62 => ButtonType::Shift,
            0x30 => ButtonType::Arm(channel),
            0x31 => ButtonType::Solo(channel),
            0x32 => ButtonType::Activator(channel),
            _ => ButtonType::Unknown,
        }
    }
}

impl InputEventType {
    /// The meaning of the bytes of a MIDI message.
    pub fn new(bytes: &[u8]) -> (r: Self)
        requires
            readable_input(bytes@),
        ensures
            r == event_type_of(bytes@),
    {
        match bytes[0] {
            0xF0 => {
                if bytes[3] == 0x06 && bytes[4] == 0x02 && bytes[5] == 0x47 && (bytes[6] == 0x73
                    || bytes[6] == 0x7b) {
                    Self::InquiryResponse(bytes[13], bytes[6])
                } else {
                    Self::Unknown
                }
            },
            0x90..=0x9F => Self::ButtonPressed(ButtonType::new(bytes[0] - 0x90, bytes[1])),
            0x80..=0x8F => Self::ButtonReleased(ButtonType::new(bytes[0] - 0x80, bytes[1])),
            0xB0..=0xB8 => {
                match bytes[1] {
                    0x30..=0x37 | 0x10..=0x17 => {
                        // The effect knobs are numbered oddly; number them 0..16
                        let modifier = if 0x30 <= bytes[1] && bytes[1] <= 0x37 {
                            48
                        } else {
                            8
                        };
                        let index = bytes[1] - modifier;
                        Self::KnobTurned { value: bytes[2], knob_type: KnobType::Effect(index) }
                    },
                    0x7 => Self::FaderMoved {
                        value: bytes[2],
                        fader_type: FaderType::Track(bytes[0] - 0xB0),
                    },
                    0xE => Self::FaderMoved { value: bytes[2], fader_type: FaderType::Master },
                    0xF => Self::FaderMoved { value: bytes[2], fader_type: FaderType::CrossFade },
                    0x2F => Self::KnobTurned { value: bytes[2], knob_type: KnobType::Cue },
                    _ => Self::Unknown,
                }
            },
            _ => Self::Unknown,
        }
    }
}

impl InputEvent {
    pub fn new(time: u32, bytes: &[u8]) -> (r: Self)
        requires
            readable_input(bytes@),
        ensures
            r.time == time,
            r.event_type == event_type_of(bytes@),
    {
        Self { time, event_type: InputEventType::new(bytes) }
    }

    /// Whether `bytes` can be read as an input event: long enough for every byte its status
    /// byte makes the reading look at.
    pub fn is_readable(bytes: &[u8]) -> (r: bool)
        ensures
            r == readable_input(bytes@),
    {
        let n = bytes.len();
        if n < 1 {
            return false;
        }
        let status = bytes[0];
        if status == 0xF0 {
            if n < 4 || (bytes[3] == 0x06 && n < 5) {
                return false;
            }
            if bytes[3] == 0x06 && bytes[4] == 0x02 && n < 6 {
                return false;
            }
            if bytes[3] == 0x06 && bytes[4] == 0x02 && bytes[5] == 0x47 && n < 7 {
                return false;
            }
            if n >= 7 && bytes[3] == 0x06 && bytes[4] == 0x02 && bytes[5] == 0x47 && (bytes[6] == 0x73
                || bytes[6] == 0x7b) && n < 14 {
                return false;
            }
            true
        } else if 0x80 <= status && status <= 0x9F {
            n >= 2
        } else if 0xB0 <= status && status <= 0xB8 {
            if n < 2 {
                return false;
            }
            let control = bytes[1];
            let has_value = (0x30 <= control && control <= 0x37) || (0x10 <= control && control <= 0x17)
                || control == 0x7 || control == 0xE || control == 0xF || control == 0x2F;
            !has_value || n >= 3
        } else {
            true
        }
    }

    pub fn is_cue_knob(event_type: &InputEventType) -> (r: bool)
        ensures
            r == (*event_type matches InputEventType::KnobTurned { knob_type: KnobType::Cue, .. }),
    {
        matches!(event_type, InputEventType::KnobTurned { knob_type: KnobType::Cue, .. })
    }

    pub fn is_crossfader(event_type: &InputEventType) -> (r: bool)
        ensures
            r == (*event_type matches InputEventType::FaderMoved {
                fader_type: FaderType::CrossFade,
                ..
            }),
    {
        matches!(event_type, InputEventType::FaderMoved { fader_type: FaderType::CrossFade, .. })
    }

    pub fn is_activator_button(event_type: &InputEventType) -> (r: bool)
        ensures
            r == (*event_type matches InputEventType::ButtonPressed(ButtonType::Activator(_))),
    {
        matches!(event_type, InputEventType::ButtonPressed(ButtonType::Activator(_)))
    }

    pub fn is_track_button(event_type: &InputEventType) -> (r: bool)
        ensures
            r == (*event_type matches InputEventType::ButtonPressed(ButtonType::Track(_))),
    {
        matches!(event_type, InputEventType::ButtonPressed(ButtonType::Track(_)))
    }

    pub fn is_solo_button(event_type: &InputEventType) -> (r: bool)
        ensures
            r == (*event_type matches InputEventType::ButtonPressed(ButtonType::Solo(_))),
    {
        matches!(event_type, InputEventType::ButtonPressed(ButtonType::Solo(_)))
    }

    pub fn is_grid_button(event_type: &InputEventType) -> (r: bool)
        ensures
            r == (*event_type matches InputEventType::ButtonPressed(ButtonType::Grid(_, _))),
    {
        matches!(event_type, InputEventType::ButtonPressed(ButtonType::Grid(_, _)))
    }

    pub fn is_right_button(event_type: &InputEventType) -> (r: bool)
        ensures
            r == (*event_type matches InputEventType::ButtonPressed(ButtonType::Right)),
    {
        matches!(event_type, InputEventType::ButtonPressed(ButtonType::Right))
    }

    pub fn is_left_button(event_type: &InputEventType) -> (r: bool)
        ensures
            r == (*event_type matches InputEventType::ButtonPressed(ButtonType::Left)),
    {
        matches!(event_type, InputEventType::ButtonPressed(ButtonType::Left))
    }
}

/// Division of `a` by a positive `b` rounding toward zero.
pub open spec fn trunc_div(a: int, b: int) -> int {
    if a >= 0 {
        a / b
    } else {
        -((-a) / b)
    }
}

/// Remainder of the division of `a` by a positive `b` rounding toward zero.
pub open spec fn trunc_rem(a: int, b: int) -> int {
    a - trunc_div(a, b) * b
}

/// The signed step a cue knob message value stands for: its bits rotated left by one, read
/// as a signed byte, halved toward zero. Values below 64 turn one way, values from 64 the
/// other.
pub open spec fn cue_delta(value: u8) -> int {
    let rotated = (value % 128) * 2 + value / 128;
    let signed = if rotated >= 128 { rotated - 256 } else { rotated };
    trunc_div(signed, 2)
}

/// Slows the cue knob down: turns are accumulated until they make a whole step.
pub struct CueKnob {
    delta: i8,
}

impl CueKnob {
    const DELTA_PER_BUTTON: i8 = 6;

    #[verifier::type_invariant]
    spec fn delta_below_step(self) -> bool {
        -6 < self.delta < 6
    }

    /// The turn accumulated so far.
    pub closed spec fn accumulated(&self) -> int {
        self.delta as int
    }

    pub fn new() -> (r: Self)
        ensures
            r.accumulated() == 0,
    {
        CueKnob { delta: 0 }
    }

    /// The number of steps a turn of the knob makes. The first turn makes one step in its
    /// direction at once; later turns add up and every six make a step, in either direction.
    pub fn process_turn(&mut self, value: u8, is_first_turn: bool) -> (r: i8)
        ensures
            -12 <= r <= 12,
            is_first_turn ==> final(self).accumulated() == 0 && r == (if cue_delta(value) > 0 {
                1int
            } else {
                -1int
            }),
            !is_first_turn ==> ({
                let sum = old(self).accumulated() + cue_delta(value);
                &&& r == trunc_div(sum, 6)
                &&& final(self).accumulated() == if trunc_div(sum, 6) != 0 {
                    trunc_rem(sum, 6)
                } else {
                    sum
                }
            }),
    {
        proof {
            use_type_invariant(&*self);
        }
        let rotated: i16 = ((value % 128) * 2 + value / 128) as i16;
        let signed: i16 = if rotated >= 128 {
            rotated - 256
        } else {
            rotated
        };
        let half: i16 = if signed >= 0 {
            signed / 2
        } else {
            -((-signed) / 2)
        };
        let delta: i8 = half as i8;
        if is_first_turn {
            self.delta = 0;
            if delta > 0 {
                1
            } else {
                -1
            }
        } else {
            let sum: i8 = self.delta + delta;
            let magnitude: i8 = if sum >= 0 {
                sum
            } else {
                -sum
            };
            let steps_magnitude: i8 = magnitude / Self::DELTA_PER_BUTTON;
            let steps: i8 = if sum >= 0 {
                steps_magnitude
            } else {
                -steps_magnitude
            };
            let remainder: i8 = sum - steps * Self::DELTA_PER_BUTTON;
            if steps != 0 {
                self.delta = remainder;
            } else {
                self.delta = sum;
            }
            steps
        }
    }
}

} // verus!
