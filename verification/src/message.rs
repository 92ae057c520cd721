use vstd::prelude::*;

verus! {

/// A MIDI message for the controller or an instrument.
#[derive(Debug, Eq, PartialEq)]
pub enum Message {
    Introduction([u8; 12]),
    Inquiry([u8; 6]),
    Note([u8; 3]),
}

/// A message with the frame of the process cycle at which it is sent.
#[derive(Debug)]
pub struct TimedMessage {
    pub time: u32,
    pub message: Message,
}

impl TimedMessage {
    pub fn new(time: u32, message: Message) -> (r: Self)
        ensures
            r == (TimedMessage { time, message }),
    {
        TimedMessage { time, message }
    }
}

/// Whether `m` is the note message `(status, data1, data2)` sent at `frame`.
pub open spec fn is_note_message(m: TimedMessage, frame: u32, bytes: (u8, u8, u8)) -> bool {
    &&& m.time == frame
    &&& m.message matches Message::Note(b) && b@ == seq![bytes.0, bytes.1, bytes.2]
}

/// Whether `m` is the note message `(status, data1, data2)`.
pub open spec fn is_note(m: Message, bytes: (u8, u8, u8)) -> bool {
    m matches Message::Note(b) && b@ == seq![bytes.0, bytes.1, bytes.2]
}

/// Build the note message `(status, data1, data2)`.
pub(crate) fn note(bytes: (u8, u8, u8)) -> (r: Message)
    ensures
        is_note(r, bytes),
{
    let b = [bytes.0, bytes.1, bytes.2];
    assert(b@ =~= seq![bytes.0, bytes.1, bytes.2]);
    Message::Note(b)
}

/// Build the note message `(status, data1, data2)` sent at `frame`.
pub(crate) fn note_message(frame: u32, bytes: (u8, u8, u8)) -> (r: TimedMessage)
    ensures
        is_note_message(r, frame, bytes),
{
    let b = [bytes.0, bytes.1, bytes.2];
    assert(b@ =~= seq![bytes.0, bytes.1, bytes.2]);
    TimedMessage::new(frame, Message::Note(b))
}


/// The messages of `messages` sent at frame `time`, in their order.
pub open spec fn messages_at(messages: Seq<TimedMessage>, time: u32) -> Seq<TimedMessage>
    decreases messages.len(),
{
    if messages.len() == 0 {
        Seq::empty()
    } else {
        let rest = messages_at(messages.drop_last(), time);
        if messages.last().time == time {
            rest.push(messages.last())
        } else {
            rest
        }
    }
}

/// Whether no message comes before one sent at an earlier frame.
pub open spec fn in_time_order(messages: Seq<TimedMessage>) -> bool {
    forall|i: int, j: int| 0 <= i <= j < messages.len() ==> messages[i].time <= messages[j].time
}

proof fn lemma_messages_at_add(a: Seq<TimedMessage>, b: Seq<TimedMessage>, time: u32)
    ensures
        messages_at(a + b, time) == messages_at(a, time) + messages_at(b, time),
    decreases b.len(),
{
    if b.len() == 0 {
        assert(a + b =~= a);
        assert(messages_at(a, time) + messages_at(b, time) =~= messages_at(a, time));
    } else {
        assert((a + b).drop_last() =~= a + b.drop_last());
        lemma_messages_at_add(a, b.drop_last(), time);
        assert((a + b).last() == b.last());
        if b.last().time == time {
            assert(messages_at(a, time) + messages_at(b.drop_last(), time).push(b.last()) =~= (messages_at(
                a,
                time,
            ) + messages_at(b.drop_last(), time)).push(b.last()));
        }
    }
}

proof fn lemma_messages_at_none(messages: Seq<TimedMessage>, time: u32)
    requires
        forall|i: int| 0 <= i < messages.len() ==> messages[i].time != time,
    ensures
        messages_at(messages, time) == Seq::<TimedMessage>::empty(),
    decreases messages.len(),
{
    if messages.len() > 0 {
        lemma_messages_at_none(messages.drop_last(), time);
    }
}

proof fn lemma_messages_at_one(m: TimedMessage, time: u32)
    ensures
        messages_at(seq![m], time) == if m.time == time {
            seq![m]
        } else {
            Seq::<TimedMessage>::empty()
        },
{
    let one = seq![m];
    assert(one.drop_last() =~= Seq::<TimedMessage>::empty());
    assert(one.last() == m);
    assert(messages_at(one.drop_last(), time) == Seq::<TimedMessage>::empty());
    assert(Seq::<TimedMessage>::empty().push(m) =~= one);
}

/// The messages in the order of their frames, those of one frame in the order they came in:
/// the order in which they are written to a port.
pub fn time_ordered(messages: Vec<TimedMessage>) -> (r: Vec<TimedMessage>)
    ensures
        in_time_order(r@),
        forall|time: u32| #[trigger] messages_at(r@, time) == messages_at(messages@, time),
{
    let ghost all = messages@;
    let n = messages.len();
    let mut rest = messages;
    let mut out: Vec<TimedMessage> = Vec::new();
    while rest.len() > 0
        invariant
            rest.len() <= n,
            n == all.len(),
            rest@ == all.take(rest.len() as int),
            in_time_order(out@),
            forall|time: u32| #[trigger] messages_at(out@, time) == messages_at(all.subrange(rest.len() as int, n as int), time),
        decreases rest.len(),
    {
        let ghost k = rest.len() as int;
        let m = rest.pop().unwrap();
        assert(m == all[k - 1]);
        let mut p: usize = 0;
        while p < out.len() && out[p].time < m.time
            invariant
                0 <= p <= out@.len(),
                forall|q: int| 0 <= q < p ==> out@[q].time < m.time,
            decreases out@.len() - p,
        {
            p += 1;
        }
        let ghost before = out@;
        let ghost t = m.time;
        out.insert(p, m);
        proof {
            assert(rest@ =~= all.take(k - 1));
            assert(out@ =~= before.take(p as int) + seq![m] + before.skip(p as int));
            assert(before =~= before.take(p as int) + before.skip(p as int));
            assert(all.subrange(k - 1, n as int) =~= seq![m] + all.subrange(k, n as int));
            assert forall|time: u32| #[trigger] messages_at(out@, time) == messages_at(all.subrange(k - 1, n as int), time) by {
                lemma_messages_at_add(before.take(p as int) + seq![m], before.skip(p as int), time);
                lemma_messages_at_add(before.take(p as int), seq![m], time);
                lemma_messages_at_add(before.take(p as int), before.skip(p as int), time);
                lemma_messages_at_add(seq![m], all.subrange(k, n as int), time);
                lemma_messages_at_one(m, time);
                if time == t {
                    lemma_messages_at_none(before.take(p as int), time);
                    assert(messages_at(before.take(p as int), time) + seq![m] + messages_at(before.skip(p as int), time)
                        =~= seq![m] + messages_at(before, time));
                } else {
                    assert(messages_at(before.take(p as int), time) + Seq::<TimedMessage>::empty() + messages_at(
                        before.skip(p as int),
                        time,
                    ) =~= messages_at(before, time));
                    assert(Seq::<TimedMessage>::empty() + messages_at(all.subrange(k, n as int), time) =~= messages_at(
                        all.subrange(k, n as int),
                        time,
                    ));
                }
            }
            assert forall|i: int, j: int| 0 <= i <= j < out@.len() implies out@[i].time <= out@[j].time by {
                if j < p {
                } else if i > p {
                    assert(out@[i] == before[i - 1] && out@[j] == before[j - 1]);
                } else if i == p && j > p {
                    assert(out@[j] == before[j - 1]);
                    assert(before[p as int].time >= t);
                } else if i < p && j > p {
                    assert(out@[j] == before[j - 1]);
                    assert(before[i].time < t);
                    assert(before[i].time <= before[j - 1].time);
                }
            }
        }
    }
    proof {
        assert(all.subrange(0, n as int) =~= all);
    }
    out
}

} // verus!
