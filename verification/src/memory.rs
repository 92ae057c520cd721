use vstd::prelude::*;

use crate::controller::input::{ButtonType, InputEventType};

verus! {

/// When an input event last occurred.
#[derive(Debug, Clone, Copy)]
pub struct OccurredInputEvent {
    pub time: u64,
    pub event_type: InputEventType,
}

/// Whether some filter can answer `true` for `event_type`.
pub open spec fn accepted_by<F: Fn(&InputEventType) -> bool>(filters: Seq<F>, event_type: InputEventType) -> bool {
    exists|i: int| 0 <= i < filters.len() && call_ensures(filters[i], (&event_type,), true)
}

/// Whether every filter can be called and gives one answer for each event type.
pub open spec fn filters_decide<F: Fn(&InputEventType) -> bool>(filters: Seq<F>) -> bool {
    forall|i: int, e: InputEventType, b: bool|
        0 <= i < filters.len() && #[trigger] call_ensures(filters[i], (&e,), b) ==> b
            == call_ensures(filters[i], (&e,), true)
}

/// Whether every filter can be called on every event type.
pub open spec fn filters_callable<F: Fn(&InputEventType) -> bool>(filters: Seq<F>) -> bool {
    forall|i: int, e: InputEventType| 0 <= i < filters.len() ==> #[trigger] call_requires(filters[i], (&e,))
}

/// Whether any filter answers `true` for `event_type`, asking each in turn.
pub(crate) fn any_filter<F: Fn(&InputEventType) -> bool>(filters: &[F], event_type: &InputEventType) -> (r: bool)
    requires
        filters_callable(filters@),
    ensures
        r ==> accepted_by(filters@, *event_type),
        filters_decide(filters@) ==> (r == accepted_by(filters@, *event_type)),
{
    let mut acc = false;
    let mut i: usize = 0;
    while i < filters.len()
        invariant
            0 <= i <= filters@.len(),
            filters_callable(filters@),
            acc ==> accepted_by(filters@, *event_type),
            filters_decide(filters@) ==> (acc == exists|j: int|
                0 <= j < i && call_ensures(filters@[j], (event_type,), true)),
        decreases filters@.len() - i,
    {
        let passed = (filters[i])(event_type);
        acc = acc || passed;
        i += 1;
    }
    acc
}

/// Latest time among the events after `usecs` that `pick` accepts.
pub open spec fn latest_time(events: Seq<OccurredInputEvent>, usecs: u64, pick: spec_fn(OccurredInputEvent) -> bool) -> Option<u64>
    decreases events.len(),
{
    if events.len() == 0 {
        None
    } else {
        let rest = latest_time(events.drop_last(), usecs, pick);
        let e = events.last();
        if e.time >= usecs && pick(e) {
            match rest {
                Some(m) => Some(if e.time > m { e.time } else { m }),
                None => Some(e.time),
            }
        } else {
            rest
        }
    }
}

/// Remembers when each kind of input event last occurred, to recognise double clicks and to
/// show what was touched.
pub struct EventMemory {
    occurred_events: Vec<OccurredInputEvent>,
}

/// Index of the first remembered event of `event_type`, or -1.
pub open spec fn first_of_type(events: Seq<OccurredInputEvent>, event_type: InputEventType) -> int {
    if exists|i: int| 0 <= i < events.len() && events[i].event_type == event_type {
        choose|i: int|
            0 <= i < events.len() && events[i].event_type == event_type && forall|j: int|
                0 <= j < i ==> events[j].event_type != event_type
    } else {
        -1
    }
}

impl EventMemory {
    pub closed spec fn occurred(&self) -> Seq<OccurredInputEvent> {
        self.occurred_events@
    }

    pub fn new() -> (r: Self)
        ensures
            r.occurred() == Seq::<OccurredInputEvent>::empty(),
    {
        Self { occurred_events: Vec::new() }
    }

    /// Remember that an event of `event_type` occurred at `time`.
    pub fn register_event(&mut self, time: u64, event_type: InputEventType)
        ensures
            ({
                let s = old(self).occurred();
                let j = first_of_type(s, event_type);
                if j >= 0 {
                    final(self).occurred() == s.update(j, OccurredInputEvent { time, event_type })
                } else {
                    final(self).occurred() == s.push(OccurredInputEvent { time, event_type })
                }
            }),
    {
        let mut i: usize = 0;
        while i < self.occurred_events.len()
            invariant
                0 <= i <= self.occurred_events@.len(),
                self.occurred_events@ == old(self).occurred_events@,
                forall|j: int| 0 <= j < i ==> self.occurred_events@[j].event_type != event_type,
            decreases self.occurred_events@.len() - i,
        {
            if self.occurred_events[i].event_type == event_type {
                self.occurred_events.set(i, OccurredInputEvent { time, event_type });
                proof {
                    let s = old(self).occurred_events@;
                    let j = first_of_type(s, event_type);
                    assert(s[i as int].event_type == event_type);
                    assert(j == i) by {
                        if j != i {
                            assert(j < i || j > i);
                        }
                    }
                }
                return ;
            }
            i += 1;
        }
        self.occurred_events.push(OccurredInputEvent { time, event_type });
    }

    /// The latest time, not before `usecs`, at which an event that one of `filters` accepts
    /// occurred.
    pub fn last_occurred_event_after<F>(&self, filters: &[F], usecs: u64) -> (r: Option<u64>) where
        F: Fn(&InputEventType) -> bool,

        requires
            filters_callable(filters@),
        ensures
            r matches Some(t) ==> t >= usecs && exists|k: int|
                0 <= k < self.occurred().len() && self.occurred()[k].time == t && accepted_by(
                    filters@,
                    self.occurred()[k].event_type,
                ),
            filters_decide(filters@) ==> r == latest_time(
                self.occurred(),
                usecs,
                |e: OccurredInputEvent| accepted_by(filters@, e.event_type),
            ),
    {
        let mut latest: Option<u64> = None;
        let mut i: usize = 0;
        while i < self.occurred_events.len()
            invariant
                0 <= i <= self.occurred_events@.len(),
                filters_callable(filters@),
                latest matches Some(t) ==> t >= usecs && exists|k: int|
                    0 <= k < self.occurred_events@.len() && self.occurred_events@[k].time == t
                        && accepted_by(filters@, self.occurred_events@[k].event_type),
                filters_decide(filters@) ==> latest == latest_time(
                    self.occurred_events@.take(i as int),
                    usecs,
                    |e: OccurredInputEvent| accepted_by(filters@, e.event_type),
                ),
            decreases self.occurred_events@.len() - i,
        {
            assert(self.occurred_events@.take(i + 1).drop_last() =~= self.occurred_events@.take(
                i as int,
            ));
            let event = self.occurred_events[i];
            if event.time >= usecs && any_filter(filters, &event.event_type) {
                latest = match latest {
                    Some(m) => Some(if event.time > m { event.time } else { m }),
                    None => Some(event.time),
                };
            }
            i += 1;
        }
        assert(self.occurred_events@.take(i as int) =~= self.occurred_events@);
        latest
    }
}

/// Index of the last press of `button_type`, or -1.
pub open spec fn last_press_of(pressed: Seq<ButtonType>, button_type: ButtonType) -> int
    decreases pressed.len(),
{
    if pressed.len() == 0 {
        -1
    } else if pressed.last() == button_type {
        pressed.len() - 1
    } else {
        last_press_of(pressed.drop_last(), button_type)
    }
}

/// The first held button other than `button_type`.
pub open spec fn first_other(pressed: Seq<ButtonType>, button_type: ButtonType) -> Option<ButtonType> {
    if exists|i: int| 0 <= i < pressed.len() && pressed[i] != button_type {
        Some(
            pressed[choose|i: int|
                0 <= i < pressed.len() && pressed[i] != button_type && forall|j: int|
                    0 <= j < i ==> pressed[j] == button_type],
        )
    } else {
        None
    }
}

/// Remembers the held buttons, so that a button can modify what another one does.
pub struct ButtonMemory {
    pressed_buttons: Vec<ButtonType>,
}

impl ButtonMemory {
    pub closed spec fn held(&self) -> Seq<ButtonType> {
        self.pressed_buttons@
    }

    pub fn new() -> (r: Self)
        ensures
            r.held() == Seq::<ButtonType>::empty(),
    {
        Self { pressed_buttons: Vec::new() }
    }

    pub fn press(&mut self, button_type: ButtonType)
        ensures
            final(self).held() == old(self).held().push(button_type),
    {
        self.pressed_buttons.push(button_type);
    }

    /// Forget the last press of `button_type`, if there is one.
    pub fn release(&mut self, button_type: ButtonType)
        ensures
            ({
                let j = last_press_of(old(self).held(), button_type);
                if j >= 0 {
                    final(self).held() == old(self).held().remove(j)
                } else {
                    final(self).held() == old(self).held()
                }
            }),
    {
        let mut found: Option<usize> = None;
        let mut i: usize = 0;
        proof {
            lemma_last_press_bounds(self.pressed_buttons@, button_type);
        }
        while i < self.pressed_buttons.len()
            invariant
                0 <= i <= self.pressed_buttons@.len(),
                self.pressed_buttons@ == old(self).pressed_buttons@,
                found matches Some(k) ==> k == last_press_of(self.pressed_buttons@.take(i as int), button_type),
                found is None ==> last_press_of(self.pressed_buttons@.take(i as int), button_type) == -1,
            decreases self.pressed_buttons@.len() - i,
        {
            assert(self.pressed_buttons@.take(i + 1).drop_last() =~= self.pressed_buttons@.take(
                i as int,
            ));
            if self.pressed_buttons[i] == button_type {
                found = Some(i);
            }
            i += 1;
        }
        assert(self.pressed_buttons@.take(i as int) =~= self.pressed_buttons@);
        if let Some(index) = found {
            self.pressed_buttons.remove(index);
        }
    }

    /// The first held button other than `button_type`.
    pub fn modifier(&self, button_type: ButtonType) -> (r: Option<&ButtonType>)
        ensures
            match r {
                Some(b) => first_other(self.held(), button_type) == Some(*b),
                None => first_other(self.held(), button_type) is None,
            },
    {
        let mut i: usize = 0;
        while i < self.pressed_buttons.len()
            invariant
                0 <= i <= self.pressed_buttons@.len(),
                forall|j: int| 0 <= j < i ==> self.pressed_buttons@[j] == button_type,
            decreases self.pressed_buttons@.len() - i,
        {
            if self.pressed_buttons[i] != button_type {
                proof {
                    let s = self.pressed_buttons@;
                    let c = choose|k: int|
                        0 <= k < s.len() && s[k] != button_type && forall|j: int|
                            0 <= j < k ==> s[j] == button_type;
                    assert(c == i) by {
                        if c < i {
                            assert(s[c] == button_type);
                        }
                        if c > i {
                            assert(s[i as int] == button_type);
                        }
                    }
                }
                return Some(&self.pressed_buttons[i]);
            }
            i += 1;
        }
        None
    }
}

/// Releasing a button just pressed leaves the held buttons as they were before the press.
pub proof fn law_release_undoes_press(held: Seq<ButtonType>, button_type: ButtonType)
    ensures
        last_press_of(held.push(button_type), button_type) == held.len(),
        held.push(button_type).remove(held.len() as int) == held,
{
    let s = held.push(button_type);
    assert(s.drop_last() == held);
    assert(s.remove(held.len() as int) =~= held);
}

proof fn lemma_last_press_bounds(pressed: Seq<ButtonType>, button_type: ButtonType)
    ensures
        -1 <= last_press_of(pressed, button_type) < pressed.len(),
    decreases pressed.len(),
{
    if pressed.len() > 0 && pressed.last() != button_type {
        lemma_last_press_bounds(pressed.drop_last(), button_type);
    }
}

/// What the controller remembers of its input.
pub struct Memory {
    pub buttons: ButtonMemory,
    pub events: EventMemory,
}

impl Memory {
    pub fn new() -> (r: Self)
        ensures
            r.buttons.held() == Seq::<ButtonType>::empty(),
            r.events.occurred() == Seq::<OccurredInputEvent>::empty(),
    {
        Self { buttons: ButtonMemory::new(), events: EventMemory::new() }
    }
}

} // verus!
