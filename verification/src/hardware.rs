use vstd::prelude::*;

verus! {

/// Raw MIDI bytes to send at a frame of the process cycle.
#[derive(Debug)]
pub struct MidiMessage {
    pub frame: u32,
    pub bytes: Vec<u8>,
}

impl MidiMessage {
    pub fn new(frame: u32, bytes: Vec<u8>) -> (r: Self)
        ensures
            r.frame == frame,
            r.bytes@ == bytes@,
    {
        Self { frame, bytes }
    }
}

/// Whether a button went down or up.
#[derive(Debug, PartialEq, Eq, Structural, Clone, Copy)]
pub enum ButtonState {
    Pressed,
    Released,
}

/// How a control reports its position.
#[derive(Debug, PartialEq, Eq, Structural, Clone, Copy)]
pub enum ControlType {
    Absolute,
    Relative,
}

/// What a row of buttons sets.
#[derive(Debug, PartialEq, Eq, Structural, Clone, Copy)]
pub enum ButtonSurfaceType {
    PatternLength,
    PatternZoom,
}

/// What a control sets.
#[derive(Debug, PartialEq, Eq, Structural, Clone, Copy)]
pub enum ControlSurfaceType {
    Parameter,
    Volume,
    HorizontalPosition,
    VerticalPosition,
}

/// Buttons, or a control with the way it reports its position.
#[derive(Debug, PartialEq, Eq, Structural, Clone, Copy)]
pub enum SurfaceType {
    Button(ButtonSurfaceType),
    Control(ControlType, ControlSurfaceType),
}

/// A spot on a surface.
#[derive(Debug, PartialEq, Eq, Structural, Clone, Copy)]
pub struct Position {
    pub x: u8,
    pub y: u8,
}

impl Position {
    pub fn new(x: u8, y: u8) -> (r: Self)
        ensures
            r == (Position { x, y }),
    {
        Self { x, y }
    }
}

/// The size of a surface.
#[derive(Debug, PartialEq, Eq, Structural, Clone, Copy)]
pub struct Dimensions {
    pub width: u8,
    pub height: u8,
}

/// What happened on a surface: a button went down or up, or a control moved to a value.
#[derive(Debug, PartialEq, Eq, Structural, Clone, Copy)]
pub enum SurfaceEventType {
    Button(ButtonState),
    Control(u8),
}

/// Something that happened at a spot of a surface, at a time in microseconds.
#[derive(Debug, PartialEq, Eq, Structural, Clone, Copy)]
pub struct SurfaceEvent {
    pub time: u64,
    pub position: Position,
    pub surface_event_type: SurfaceEventType,
}

impl SurfaceEvent {
    pub fn new(time: u64, position: Position, surface_event_type: SurfaceEventType) -> (r: Self)
        ensures
            r == (SurfaceEvent { time, position, surface_event_type }),
    {
        Self { time, position, surface_event_type }
    }

    /// Move the event `offset` spots to the right.
    pub fn offset_x(&mut self, offset: u8)
        requires
            old(self).position.x + offset <= u8::MAX,
        ensures
            *final(self) == (SurfaceEvent {
                position: Position { x: (old(self).position.x + offset) as u8, ..old(self).position },
                ..*old(self)
            }),
    {
        self.position.x = self.position.x + offset;
    }
}

/// A group of buttons or controls of a device, placed `offset_x` spots to the right of the
/// groups of the same kind on the devices before it.
#[derive(Debug, PartialEq, Eq, Structural, Clone, Copy)]
pub struct Surface {
    pub width: u8,
    pub height: u8,
    pub offset_x: u8,
    pub surface_type: SurfaceType,
}

impl Surface {
    pub fn new(width: u8, height: u8, surface_type: SurfaceType) -> (r: Self)
        ensures
            r == (Surface { width, height, offset_x: 0, surface_type }),
    {
        Self { width, height, offset_x: 0, surface_type }
    }

    pub fn set_offset_x(&mut self, offset_x: u8)
        ensures
            *final(self) == (Surface { offset_x, ..*old(self) }),
    {
        self.offset_x = offset_x;
    }

    /// The event as it is seen over all devices: moved right by this surface's offset.
    pub fn process_event(&self, event: SurfaceEvent) -> (r: SurfaceEvent)
        requires
            event.position.x + self.offset_x <= u8::MAX,
        ensures
            r == (SurfaceEvent {
                position: Position { x: (event.position.x + self.offset_x) as u8, ..event.position },
                ..event
            }),
    {
        let mut event = event;
        event.offset_x(self.offset_x);
        event
    }
}

/// MIDI bytes received at a time in microseconds.
pub struct MidiInputEvent<'a> {
    pub bytes: &'a [u8],
    pub time: u64,
}

/// The two APC models.
#[derive(Debug, PartialEq, Eq, Structural, Clone, Copy)]
pub enum APCType {
    APC40,
    APC20,
}

impl APCType {
    /// Name of the device's MIDI ports.
    pub fn port_name(&self) -> (r: &'static str)
        ensures
            *self == APCType::APC40 ==> r@ == "apc40"@,
            *self == APCType::APC20 ==> r@ == "apc20"@,
    {
        match self {
            APCType::APC40 => "apc40",
            APCType::APC20 => "apc20",
        }
    }
}

/// The sum of `widths`, or 0 when there are none.
pub open spec fn width_sum(widths: Seq<u8>) -> int
    decreases widths.len(),
{
    if widths.len() == 0 {
        0
    } else {
        width_sum(widths.drop_last()) + widths.last()
    }
}

/// Whether `bytes` is an APC's reply to a device inquiry.
pub open spec fn is_apc_inquiry_response(bytes: Seq<u8>) -> bool {
    &&& bytes[0] == 0xF0
    &&& bytes[3] == 0x06
    &&& bytes[4] == 0x02
    &&& bytes[5] == 0x47
    &&& (bytes[6] == 0x73 || bytes[6] == 0x7b)
}

/// Whether the bytes are long enough to be read: a status byte, a second byte for notes,
/// and, for system exclusive messages, the bytes up to the last one the reading looks at.
pub open spec fn readable_apc_input(bytes: Seq<u8>) -> bool {
    &&& bytes.len() >= 1
    &&& 0x80 <= bytes[0] <= 0x9F ==> bytes.len() >= 2
    &&& bytes[0] == 0xF0 ==> bytes.len() >= 7
    &&& bytes[0] == 0xF0 && bytes[3] == 0x06 && bytes[4] == 0x02 && bytes[5] == 0x47 && (
    bytes[6] == 0x73 || bytes[6] == 0x7b) ==> bytes.len() >= 14
}

/// An APC: its model, when it was introduced to us (0 while it was not), its ids once it
/// answered our inquiry, and the rows of buttons it offers.
pub struct APC {
    pub apc_type: APCType,
    pub introduced_at: u64,
    pub local_id: Option<u8>,
    pub device_id: Option<u8>,
    pub pattern_length: Surface,
    pub pattern_zoom: Surface,
}

/// Sum of `widths`.
fn sum_widths(widths: &[u8]) -> (r: u8)
    requires
        width_sum(widths@) <= u8::MAX,
    ensures
        r == width_sum(widths@),
{
    let mut total: u8 = 0;
    let mut i: usize = 0;
    while i < widths.len()
        invariant
            0 <= i <= widths@.len(),
            total == width_sum(widths@.take(i as int)),
            width_sum(widths@) <= u8::MAX,
        decreases widths@.len() - i,
    {
        assert(widths@.take(i + 1).drop_last() =~= widths@.take(i as int));
        proof {
            lemma_width_sum_prefix(widths@, i + 1);
        }
        total = total + widths[i];
        i += 1;
    }
    assert(widths@.take(i as int) =~= widths@);
    total
}

/// A prefix sums to no more than the whole.
proof fn lemma_width_sum_prefix(widths: Seq<u8>, n: int)
    requires
        0 <= n <= widths.len(),
    ensures
        width_sum(widths.take(n)) <= width_sum(widths),
    decreases widths.len() - n,
{
    if n < widths.len() {
        lemma_width_sum_prefix(widths, n + 1);
        assert(widths.take(n + 1).drop_last() =~= widths.take(n));
    } else {
        assert(widths.take(n) =~= widths);
    }
}

impl APC {
    /// A new APC of model `apc_type`, with rows of 8 buttons for pattern length and pattern
    /// zoom, each placed after the rows of the same kind of the devices before it, whose
    /// widths are `pattern_length_widths` and `pattern_zoom_widths`.
    pub fn new(apc_type: APCType, pattern_length_widths: &[u8], pattern_zoom_widths: &[u8]) -> (r: Self)
        requires
            width_sum(pattern_length_widths@) <= u8::MAX,
            width_sum(pattern_zoom_widths@) <= u8::MAX,
        ensures
            r.apc_type == apc_type,
            r.introduced_at == 0,
            r.local_id is None,
            r.device_id is None,
            r.pattern_length == (Surface {
                width: 8,
                height: 1,
                offset_x: width_sum(pattern_length_widths@) as u8,
                surface_type: SurfaceType::Button(ButtonSurfaceType::PatternLength),
            }),
            r.pattern_zoom == (Surface {
                width: 8,
                height: 1,
                offset_x: width_sum(pattern_zoom_widths@) as u8,
                surface_type: SurfaceType::Button(ButtonSurfaceType::PatternZoom),
            }),
    {
        let mut pattern_length = Surface::new(8, 1, SurfaceType::Button(ButtonSurfaceType::PatternLength));
        let mut pattern_zoom = Surface::new(8, 1, SurfaceType::Button(ButtonSurfaceType::PatternZoom));
        pattern_length.set_offset_x(sum_widths(pattern_length_widths));
        pattern_zoom.set_offset_x(sum_widths(pattern_zoom_widths));
        Self { apc_type, introduced_at: 0, local_id: None, device_id: None, pattern_length, pattern_zoom }
    }

    /// Name of the device's MIDI ports.
    pub fn port_name(&self) -> (r: &'static str)
        ensures
            self.apc_type == APCType::APC40 ==> r@ == "apc40"@,
            self.apc_type == APCType::APC20 ==> r@ == "apc20"@,
    {
        self.apc_type.port_name()
    }

    /// The row of buttons of kind `surface_type`.
    pub fn surface(&self, surface_type: ButtonSurfaceType) -> (r: &Surface)
        ensures
            surface_type == ButtonSurfaceType::PatternLength ==> *r == self.pattern_length,
            surface_type == ButtonSurfaceType::PatternZoom ==> *r == self.pattern_zoom,
    {
        match surface_type {
            ButtonSurfaceType::PatternLength => &self.pattern_length,
            ButtonSurfaceType::PatternZoom => &self.pattern_zoom,
        }
    }

    /// The row a button belongs to, and its spot on it: column `channel` of the pattern zoom
    /// row for button 0x31, of the pattern length row for 0x32.
    pub fn recognized_button(&self, channel: u8, byte: u8) -> (r: Option<(ButtonSurfaceType, Position)>)
        ensures
            byte == 0x31 ==> r == Some((ButtonSurfaceType::PatternZoom, Position { x: channel, y: 0 })),
            byte == 0x32 ==> r == Some((ButtonSurfaceType::PatternLength, Position { x: channel, y: 0 })),
            byte != 0x31 && byte != 0x32 ==> r is None,
    {
        match byte {
            0x31 => Some((ButtonSurfaceType::PatternZoom, Position::new(channel, 0))),
            0x32 => Some((ButtonSurfaceType::PatternLength, Position::new(channel, 0))),
            _ => None,
        }
    }

    /// Read MIDI input: remember the ids in a reply to our inquiry, and give the button event,
    /// as seen over all devices, for a press or release of a button of a row.
    pub fn process_midi_inputevent(&mut self, midi_input_event: &MidiInputEvent) -> (r: Option<(ButtonSurfaceType, SurfaceEvent)>)
        requires
            readable_apc_input(midi_input_event.bytes@),
            ({
                let b = midi_input_event.bytes@;
                let channel = if b[0] > 0x8F {
                    b[0] - 0x90
                } else {
                    b[0] - 0x80
                };
                &&& 0x80 <= b[0] <= 0x9F && b[1] == 0x31 ==> channel + old(self).pattern_zoom.offset_x <= u8::MAX
                &&& 0x80 <= b[0] <= 0x9F && b[1] == 0x32 ==> channel + old(self).pattern_length.offset_x <= u8::MAX
            }),
        ensures
            ({
                let b = midi_input_event.bytes@;
                &&& is_apc_inquiry_response(b) ==> final(self).local_id == Some(b[13])
                    && final(self).device_id == Some(b[6])
                &&& !is_apc_inquiry_response(b) ==> final(self).local_id == old(self).local_id
                    && final(self).device_id == old(self).device_id
                &&& final(self).apc_type == old(self).apc_type
                &&& final(self).introduced_at == old(self).introduced_at
                &&& final(self).pattern_length == old(self).pattern_length
                &&& final(self).pattern_zoom == old(self).pattern_zoom
                &&& if 0x80 <= b[0] <= 0x9F && (b[1] == 0x31 || b[1] == 0x32) {
                    let pressed = b[0] > 0x8F;
                    let channel = if pressed {
                        b[0] - 0x90
                    } else {
                        b[0] - 0x80
                    };
                    let kind = if b[1] == 0x31 {
                        ButtonSurfaceType::PatternZoom
                    } else {
                        ButtonSurfaceType::PatternLength
                    };
                    let offset = if b[1] == 0x31 {
                        old(self).pattern_zoom.offset_x
                    } else {
                        old(self).pattern_length.offset_x
                    };
                    r == Some((
                        kind,
                        SurfaceEvent {
                            time: midi_input_event.time,
                            position: Position { x: (channel + offset) as u8, y: 0 },
                            surface_event_type: SurfaceEventType::Button(
                                if pressed {
                                    ButtonState::Pressed
                                } else {
                                    ButtonState::Released
                                },
                            ),
                        },
                    ))
                } else {
                    r is None
                }
            }),
    {
        let b = midi_input_event.bytes;
        if b[0] == 0xF0 && b[3] == 0x06 && b[4] == 0x02 && b[5] == 0x47 && (b[6] == 0x73 || b[6]
            == 0x7b) {
            self.local_id = Some(b[13]);
            self.device_id = Some(b[6]);
        }
        if 0x80 <= b[0] && b[0] <= 0x9F {
            let (channel, button_state) = if b[0] > 0x8F {
                (b[0] - 0x90, ButtonState::Pressed)
            } else {
                (b[0] - 0x80, ButtonState::Released)
            };
            match self.recognized_button(channel, b[1]) {
                Some((kind, position)) => {
                    let event = SurfaceEvent::new(
                        midi_input_event.time,
                        position,
                        SurfaceEventType::Button(button_state),
                    );
                    let surface = self.surface(kind);
                    Some((kind, surface.process_event(event)))
                },
                None => None,
            }
        } else {
            None
        }
    }

    /// The messages to send the APC in a cycle that starts at `time_start`: while it is not
    /// introduced, an inquiry for its ids, or, once they are known, our introduction asking it
    /// to let us light all its leds, which marks it introduced at `time_start`.
    pub fn get_midi_messages(&mut self, time_start: u64) -> (r: Vec<MidiMessage>)
        ensures
            old(self).introduced_at != 0 ==> r@.len() == 0 && *final(self) == *old(self),
            old(self).introduced_at == 0 && old(self).local_id is Some && old(self).device_id is Some
                ==> ({
                &&& r@.len() == 1
                &&& r@[0].frame == 0
                &&& r@[0].bytes@ == seq![
                    0xF0u8, 0x47, old(self).local_id.unwrap(), old(self).device_id.unwrap(), 0x60,
                    0x00, 0x04, 0x42, 0x00, 0x00, 0x00, 0xF7,
                ]
                &&& *final(self) == APC { introduced_at: time_start, ..*old(self) }
            }),
            old(self).introduced_at == 0 && !(old(self).local_id is Some && old(self).device_id is Some)
                ==> ({
                &&& r@.len() == 1
                &&& r@[0].frame == 0
                &&& r@[0].bytes@ == seq![0xF0u8, 0x7E, 0x00, 0x06, 0x01, 0xF7]
                &&& *final(self) == *old(self)
            }),
    {
        let mut messages: Vec<MidiMessage> = Vec::new();
        if self.introduced_at == 0 {
            match (self.local_id, self.device_id) {
                (Some(local_id), Some(device_id)) => {
                    self.introduced_at = time_start;
                    let bytes = vec![0xF0, 0x47, local_id, device_id, 0x60, 0x00, 0x04, 0x42, 0x00, 0x00, 0x00, 0xF7];
                    assert(bytes@ =~= seq![0xF0u8, 0x47, local_id, device_id, 0x60, 0x00, 0x04, 0x42, 0x00, 0x00, 0x00, 0xF7]);
                    messages.push(MidiMessage::new(0, bytes));
                },
                _ => {
                    let bytes = vec![0xF0, 0x7E, 0x00, 0x06, 0x01, 0xF7];
                    assert(bytes@ =~= seq![0xF0u8, 0x7E, 0x00, 0x06, 0x01, 0xF7]);
                    messages.push(MidiMessage::new(0, bytes));
                },
            }
        }
        messages
    }
}

} // verus!
