use vstd::prelude::*;

use crate::message::Message;

verus! {

/// A note of a pattern, with the ticks it plays between.
#[derive(Debug, Clone, Copy, Eq, PartialEq, Structural)]
pub struct Note {
    pub start: u32,
    pub end: u32,
    pub key: u8,
    pub velocity_on: u8,
    pub velocity_off: u8,
    pub channel: u8,
}

/// Whether `m` is the three byte note message `bytes`.
pub open spec fn is_note(m: Message, bytes: Seq<u8>) -> bool {
    m matches Message::Note(b) && b@ == bytes
}

impl Note {
    pub fn new(channel: u8, start: u32, end: u32, key: u8, velocity_on: u8, velocity_off: u8) -> (r: Self)
        ensures
            r == (Note { channel, start, end, key, velocity_on, velocity_off }),
    {
        Note { channel, start, end, key, velocity_on, velocity_off }
    }

    /// The message starting this note: `modifier` plus the channel, then `key` or the note's
    /// own key, then `velocity` or the note's on velocity.
    pub fn on_message(&self, modifier: u8, key: Option<u8>, velocity: Option<u8>) -> (r: Message)
        requires
            modifier + self.channel <= u8::MAX,
        ensures
            is_note(
                r,
                seq![
                    (modifier + self.channel) as u8,
                    match key {
                        Some(k) => k,
                        None => self.key,
                    },
                    match velocity {
                        Some(v) => v,
                        None => self.velocity_on,
                    },
                ],
            ),
    {
        let b = [
            modifier + self.channel,
            match key {
                Some(k) => k,
                None => self.key,
            },
            match velocity {
                Some(v) => v,
                None => self.velocity_on,
            },
        ];
        assert(b@ =~= seq![b[0], b[1], b[2]]);
        Message::Note(b)
    }

    /// The message stopping this note: `modifier` plus the channel, then `key` or the note's
    /// own key, then `velocity` or the note's off velocity.
    pub fn off_message(&self, modifier: u8, key: Option<u8>, velocity: Option<u8>) -> (r: Message)
        requires
            modifier + self.channel <= u8::MAX,
        ensures
            is_note(
                r,
                seq![
                    (modifier + self.channel) as u8,
                    match key {
                        Some(k) => k,
                        None => self.key,
                    },
                    match velocity {
                        Some(v) => v,
                        None => self.velocity_off,
                    },
                ],
            ),
    {
        let b = [
            modifier + self.channel,
            match key {
                Some(k) => k,
                None => self.key,
            },
            match velocity {
                Some(v) => v,
                None => self.velocity_off,
            },
        ];
        assert(b@ =~= seq![b[0], b[1], b[2]]);
        Message::Note(b)
    }
}

} // verus!
