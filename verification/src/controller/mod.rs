pub mod buttons;
pub mod input;
pub mod lights;
pub mod apc;

use vstd::prelude::*;

use crate::message::{Message, TimedMessage};
use crate::sequencer::Sequencer;

verus! {

/// A key press of the controller: when, on which MIDI channel, and which key.
#[derive(Debug, Clone, Copy)]
pub struct KeyPress {
    pub time: u32,
    pub channel: u8,
    pub key: u8,
}

/// The key presses among `presses` recent enough at `time` to make a double press, in order.
pub open spec fn recent_key_presses(presses: Seq<KeyPress>, time: u32) -> Seq<KeyPress>
    decreases presses.len(),
{
    if presses.len() == 0 {
        Seq::empty()
    } else {
        let rest = recent_key_presses(presses.drop_last(), time);
        if time - presses.last().time < 960 {
            rest.push(presses.last())
        } else {
            rest
        }
    }
}

/// Whether `message` is the reply of an APC40 to a device inquiry.
pub open spec fn is_inquiry_response(message: Seq<u8>) -> bool {
    message[3] == 0x06 && message[4] == 0x02 && message[5] == 0x47 && message[6] == 0x73
}

/// Whether `m` introduces us to the APC40 whose local id is `local_id`, asking it to let us
/// light all its leds.
pub open spec fn is_introduction(m: Message, local_id: u8) -> bool {
    m matches Message::Introduction(b) && b@ == seq![
        0xF0u8, 0x47, local_id, 0x73, 0x60, 0x00, 0x04, 0x41, 0x00, 0x00, 0x00, 0xF7,
    ]
}

/// The sequencer and the key presses that may still turn into double presses.
pub struct Controller {
    pub sequencer: Sequencer,
    pub key_presses: Vec<KeyPress>,
}

impl Controller {
    /// Ticks within which a second press of a key makes a double press: half a beat.
    pub const DOUBLE_PRESS_TICKS: u32 = 960;

    pub fn new() -> (r: Self)
        ensures
            forall|i: int| 0 <= i < 16 ==> (#[trigger] r.sequencer.channels[i]).is_new(),
            forall|i: int|
                0 <= i < 5 ==> (#[trigger] r.sequencer.sequences[i]).phrase_seq() == Seq::new(
                    16,
                    |c: int| Some(i as u8),
                ) && r.sequencer.sequences[i].active_seq() == Seq::new(16, |c: int| true),
            r.sequencer.sequence_playing == 0,
            r.sequencer.sequence_queued is None,
            r.sequencer.last_sequence_started == 0,
            r.key_presses@ == Seq::<KeyPress>::empty(),
    {
        Controller { sequencer: Sequencer::new(), key_presses: Vec::new() }
    }

    /// Remember that `key` was pressed on MIDI channel `channel` at `time`, forgetting presses
    /// too long ago to make a double press. Tells whether this press makes one: whether the
    /// same key on the same channel was pressed within the last half beat.
    pub fn register_key_press(&mut self, time: u32, channel: u8, key: u8) -> (double: bool)
        requires
            forall|i: int| 0 <= i < old(self).key_presses@.len() ==> (#[trigger] old(self).key_presses@[i]).time <= time,
        ensures
            ({
                let recent = recent_key_presses(old(self).key_presses@, time);
                &&& double == exists|i: int|
                    0 <= i < recent.len() && (#[trigger] recent[i]).channel == channel && recent[i].key == key
                &&& final(self).key_presses@ == recent.push(KeyPress { time, channel, key })
            }),
            final(self).sequencer == old(self).sequencer,
    {
        let ghost presses = self.key_presses@;
        let mut kept: Vec<KeyPress> = Vec::new();
        let mut double = false;
        let mut i: usize = 0;
        while i < self.key_presses.len()
            invariant
                0 <= i <= presses.len(),
                self.key_presses@ == presses,
                forall|j: int| 0 <= j < presses.len() ==> (#[trigger] presses[j]).time <= time,
                kept@ == recent_key_presses(presses.take(i as int), time),
                double == exists|j: int|
                    0 <= j < kept@.len() && (#[trigger] kept@[j]).channel == channel && kept@[j].key == key,
            decreases presses.len() - i,
        {
            assert(presses.take(i + 1).drop_last() =~= presses.take(i as int));
            let previous = self.key_presses[i];
            assert(presses[i as int] == previous);
            if time - previous.time < Self::DOUBLE_PRESS_TICKS {
                let ghost before = kept@;
                kept.push(previous);
                if previous.channel == channel && previous.key == key {
                    assert(kept@[before.len() as int] == previous);
                    double = true;
                } else {
                    assert forall|j: int| 0 <= j < kept@.len() && (#[trigger] kept@[j]).channel == channel && kept@[j].key == key
                        implies 0 <= j < before.len() && before[j].channel == channel && before[j].key == key by {
                        if j < before.len() {
                            assert(kept@[j] == before[j]);
                        }
                    }
                    assert forall|j: int| 0 <= j < before.len() && (#[trigger] before[j]).channel == channel && before[j].key == key
                        implies 0 <= j < kept@.len() && kept@[j].channel == channel && kept@[j].key == key by {
                        assert(kept@[j] == before[j]);
                    }
                }
            }
            i += 1;
        }
        assert(presses.take(i as int) =~= presses);
        kept.push(KeyPress { time, channel, key });
        self.key_presses = kept;
        double
    }

    /// Answer an APC40's reply to a device inquiry: reset the playing notes and introduce
    /// ourselves, asking it to let us light all its leds. Other system exclusive messages get
    /// no answer.
    pub fn process_sysex_message(&mut self, message: &[u8]) -> (r: Option<Vec<TimedMessage>>)
        requires
            message@.len() >= 14,
        ensures
            is_inquiry_response(message@) ==> ({
                &&& r is Some
                &&& r.unwrap()@.len() == 1
                &&& r.unwrap()@[0].time == 0
                &&& is_introduction(r.unwrap()@[0].message, message@[13])
                &&& forall|i: int|
                    0 <= i < 16 ==> (#[trigger] final(self).sequencer.channels[i]).playing_notes@
                        == Seq::<crate::events::PlayingNoteEvent>::empty()
                        && final(self).sequencer.channels[i].patterns == old(self).sequencer.channels[i].patterns
                        && final(self).sequencer.channels[i].phrases == old(self).sequencer.channels[i].phrases
                        && final(self).sequencer.channels[i].timeline == old(self).sequencer.channels[i].timeline
                &&& final(self).sequencer.sequences == old(self).sequencer.sequences
                &&& final(self).key_presses == old(self).key_presses
            }),
            !is_inquiry_response(message@) ==> r is None && *final(self) == *old(self),
    {
        if message[3] == 0x06 && message[4] == 0x02 && message[5] == 0x47 && message[6] == 0x73 {
            let bytes = [0xF0, 0x47, message[13], 0x73, 0x60, 0x00, 0x04, 0x41, 0x00, 0x00, 0x00, 0xF7];
            assert(bytes@ =~= seq![0xF0u8, 0x47, message@[13], 0x73, 0x60, 0x00, 0x04, 0x41, 0x00, 0x00, 0x00, 0xF7]);
            let introduction = TimedMessage::new(0, Message::Introduction(bytes));
            self.sequencer.reset();
            let mut messages: Vec<TimedMessage> = Vec::new();
            messages.push(introduction);
            Some(messages)
        } else {
            None
        }
    }
}

} // verus!
