use vstd::prelude::*;

use crate::loopable::{default_phrase_length, Loopable, Phrase};
use crate::track::Channel;

verus! {

/// The longest among the phrases the first `n` channels play, or `None` when none of them
/// plays a phrase.
pub open spec fn longest_phrase(phrases: Seq<Option<u8>>, channels: Seq<Channel>, n: int) -> Option<u32>
    decreases n,
{
    if n <= 0 {
        None
    } else {
        let rest = longest_phrase(phrases, channels, n - 1);
        match phrases[n - 1] {
            Some(p) => {
                let l = channels[n - 1].phrases[p as int].length_ticks();
                match rest {
                    Some(m) => Some(if l > m { l } else { m }),
                    None => Some(l),
                }
            },
            None => rest,
        }
    }
}

/// Whether every phrase set in `phrases` names one of the 5 phrases of a channel in
/// `channels`.
pub open spec fn phrases_exist(phrases: Seq<Option<u8>>, channels: Seq<Channel>) -> bool {
    forall|i: int|
        #![trigger phrases[i]]
        0 <= i < phrases.len() && phrases[i] is Some ==> i < channels.len() && phrases[i].unwrap() < 5
}

/// The length of a phrase that channel `i` plays.
pub open spec fn played_phrase_length(phrases: Seq<Option<u8>>, channels: Seq<Channel>, i: int) -> u32 {
    channels[i].phrases[phrases[i].unwrap() as int].length_ticks()
}

/// The longest phrase is the longest: it is `None` exactly when no channel plays a phrase, and
/// otherwise no played phrase is longer and one of them is as long.
pub proof fn law_longest_phrase_is_longest(phrases: Seq<Option<u8>>, channels: Seq<Channel>, n: int)
    requires
        0 <= n,
    ensures
        longest_phrase(phrases, channels, n) is None <==> forall|i: int|
            0 <= i < n ==> #[trigger] phrases[i] is None,
        longest_phrase(phrases, channels, n) matches Some(m) ==> {
            &&& forall|i: int|
                0 <= i < n && #[trigger] phrases[i] is Some ==> played_phrase_length(phrases, channels, i) <= m
            &&& exists|i: int|
                0 <= i < n && #[trigger] phrases[i] is Some && played_phrase_length(phrases, channels, i) == m
        },
    decreases n,
{
    if n > 0 {
        law_longest_phrase_is_longest(phrases, channels, n - 1);
        if phrases[n - 1] is Some {
            assert(phrases[n - 1] is Some && played_phrase_length(phrases, channels, n - 1) == channels[n
                - 1].phrases[phrases[n - 1].unwrap() as int].length_ticks());
        }
    }
}

/// Switching a channel twice leaves the switches as they were.
pub proof fn law_toggle_twice_restores(active: Seq<bool>, channel: int)
    requires
        0 <= channel < active.len(),
    ensures
        ({
            let once = active.update(channel, !active[channel]);
            once.update(channel, !once[channel])
        }) == active,
{
    let once = active.update(channel, !active[channel]);
    assert(once.update(channel, !once[channel]) =~= active);
}

/// The phrase each of the 16 channels plays when the sequence plays, and whether it is
/// switched on.
pub struct Sequence {
    phrases: [Option<u8>; 16],
    active: [bool; 16],
}

impl Sequence {
    /// The phrase set for each channel.
    pub closed spec fn phrase_seq(&self) -> Seq<Option<u8>> {
        self.phrases@
    }

    /// Whether each channel is switched on.
    pub closed spec fn active_seq(&self) -> Seq<bool> {
        self.active@
    }

    /// A sequence holds one phrase and one switch for each of the 16 channels.
    pub proof fn lemma_sixteen_channels(&self)
        ensures
            self.phrase_seq().len() == 16,
            self.active_seq().len() == 16,
    {
    }

    /// Every channel plays `phrase` and is switched on.
    pub fn new(phrase: u8) -> (r: Self)
        ensures
            r.phrase_seq() == Seq::new(16, |i: int| Some(phrase)),
            r.active_seq() == Seq::new(16, |i: int| true),
    {
        let r = Sequence { phrases: [Some(phrase); 16], active: [true; 16] };
        assert(r.phrases@ =~= Seq::new(16, |i: int| Some(phrase)));
        assert(r.active@ =~= Seq::new(16, |i: int| true));
        r
    }

    pub fn phrases(&self) -> (r: &[Option<u8>; 16])
        ensures
            r@ == self.phrase_seq(),
    {
        &self.phrases
    }

    pub fn get_phrase(&self, channel: usize) -> (r: Option<u8>)
        requires
            channel < 16,
        ensures
            r == self.phrase_seq()[channel as int],
    {
        self.phrases[channel]
    }

    /// Every channel plays `phrase`.
    pub fn set_phrases(&mut self, phrase: u8)
        ensures
            final(self).phrase_seq() == Seq::new(16, |i: int| Some(phrase)),
            final(self).active_seq() == old(self).active_seq(),
    {
        self.phrases = [Some(phrase); 16];
        assert(self.phrases@ =~= Seq::new(16, |i: int| Some(phrase)));
    }

    pub fn set_phrase(&mut self, channel: usize, phrase: u8)
        requires
            channel < 16,
        ensures
            final(self).phrase_seq() == old(self).phrase_seq().update(channel as int, Some(phrase)),
            final(self).active_seq() == old(self).active_seq(),
    {
        self.phrases[channel] = Some(phrase);
    }

    /// Channel `channel` plays no phrase.
    pub fn unset_phrase(&mut self, channel: usize)
        requires
            channel < 16,
        ensures
            final(self).phrase_seq() == old(self).phrase_seq().update(channel as int, None),
            final(self).active_seq() == old(self).active_seq(),
    {
        self.phrases[channel] = None;
    }

    /// The phrase channel `channel` plays, when it is switched on.
    pub fn active_phrase(&self, channel: usize) -> (r: Option<u8>)
        requires
            channel < 16,
        ensures
            r == (if self.active_seq()[channel as int] {
                self.phrase_seq()[channel as int]
            } else {
                None
            }),
    {
        match self.phrases[channel] {
            Some(phrase) => if self.active[channel] {
                Some(phrase)
            } else {
                None
            },
            None => None,
        }
    }

    /// Switch channel `channel` on or off.
    pub fn toggle_active(&mut self, channel: usize)
        requires
            channel < 16,
        ensures
            final(self).active_seq() == old(self).active_seq().update(
                channel as int,
                !old(self).active_seq()[channel as int],
            ),
            final(self).phrase_seq() == old(self).phrase_seq(),
    {
        self.active[channel] = !self.active[channel];
    }

    /// The length of the longest phrase the sequence plays, or the default phrase length when
    /// it plays none.
    pub fn length(&self, channels: &[Channel]) -> (r: u32)
        requires
            phrases_exist(self.phrase_seq(), channels@),
        ensures
            r == match longest_phrase(self.phrase_seq(), channels@, 16) {
                Some(m) => m,
                None => default_phrase_length(),
            },
    {
        let mut longest: Option<u32> = None;
        let mut i: usize = 0;
        while i < 16
            invariant
                0 <= i <= 16,
                phrases_exist(self.phrases@, channels@),
                longest == longest_phrase(self.phrases@, channels@, i as int),
            decreases 16 - i,
        {
            if let Some(phrase_index) = self.phrases[i] {
                assert(self.phrases@[i as int] is Some);
                let l = channels[i].phrases[phrase_index as usize].length();
                longest = match longest {
                    Some(m) => Some(if l > m { l } else { m }),
                    None => Some(l),
                };
            }
            i += 1;
        }
        match longest {
            Some(m) => m,
            None => Phrase::default_length(),
        }
    }
}

} // verus!
