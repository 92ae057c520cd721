use vstd::prelude::*;

use crate::message::{is_note_message, note_message, TimedMessage};

verus! {

/// Fader positions waiting to be sent as control change messages.
pub struct Mixer {
    pub buffer: Vec<TimedMessage>,
}

impl Mixer {
    pub fn new() -> (r: Self)
        ensures
            r.buffer@.len() == 0,
    {
        Self { buffer: Vec::new() }
    }

    /// Queue the position `value` of channel fader `fader`, moved at `time`.
    pub fn fader_adjusted(&mut self, time: u32, fader: u8, value: u8)
        ensures
            final(self).buffer@.len() == old(self).buffer@.len() + 1,
            final(self).buffer@.drop_last() == old(self).buffer@,
            is_note_message(final(self).buffer@.last(), time, (0xB0u8, fader, value)),
    {
        self.buffer.push(note_message(time, (0xB0, fader, value)));
        assert(self.buffer@.drop_last() =~= old(self).buffer@);
    }

    /// Queue the position `value` of the master fader, moved at `time`.
    pub fn master_adjusted(&mut self, time: u32, value: u8)
        ensures
            final(self).buffer@.len() == old(self).buffer@.len() + 1,
            final(self).buffer@.drop_last() == old(self).buffer@,
            is_note_message(final(self).buffer@.last(), time, (0xB0u8, 127u8, value)),
    {
        self.buffer.push(note_message(time, (0xB0, 127, value)));
        assert(self.buffer@.drop_last() =~= old(self).buffer@);
    }

    /// Hand out the queued messages, emptying the queue.
    pub fn output_midi(&mut self) -> (r: Vec<TimedMessage>)
        ensures
            r@ == old(self).buffer@,
            final(self).buffer@.len() == 0,
    {
        let mut messages: Vec<TimedMessage> = Vec::new();
        std::mem::swap(&mut messages, &mut self.buffer);
        messages
    }
}

} // verus!
