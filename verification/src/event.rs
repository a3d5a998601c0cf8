//! Scheduled events and the queue that orders them.

use crate::key::Key;
use crate::task_id::TaskId;
use crate::time::SimTime;
use crate::types::EventId;
use std::collections::VecDeque;
use uuid::Uuid;
use vstd::prelude::*;

verus! {

/// What kind of work an event starts.
#[derive(Debug, Clone, Copy, PartialEq, Eq, Structural)]
pub enum FrontierEventKind {
    Component,
    Task,
}

/// A description of one of the events that are due at the same time. It holds
/// what a policy needs to tell them apart, and not what they carry.
#[derive(Debug, Clone, Copy, PartialEq, Eq)]
pub struct FrontierEvent {
    pub seq: u64,
    pub kind: FrontierEventKind,
    pub component_id: Option<Uuid>,
    pub task_id: Option<TaskId>,
}

/// An event for a component.
#[derive(Debug)]
pub struct ComponentEventEntry<P> {
    pub event_id: EventId,
    pub time: SimTime,
    pub component: Uuid,
    pub inner: P,
}

impl<P> ComponentEventEntry<P> {
    pub fn new(id: EventId, time: SimTime, component: Key<P>, event: P) -> (entry: Self)
        ensures
            entry == (ComponentEventEntry {
                event_id: id,
                time,
                component: component.id,
                inner: event,
            }),
    {
        ComponentEventEntry { event_id: id, time, component: component.id, inner: event }
    }
}

/// An event that starts a task.
#[derive(Debug)]
pub struct TaskEventEntry {
    pub event_id: EventId,
    pub time: SimTime,
    pub task_id: TaskId,
}

impl TaskEventEntry {
    pub fn new(event_id: EventId, time: SimTime, task_id: TaskId) -> (entry: Self)
        ensures
            entry == (TaskEventEntry { event_id, time, task_id }),
    {
        TaskEventEntry { event_id, time, task_id }
    }
}

/// A scheduled event.
#[derive(Debug)]
pub enum EventEntry<P> {
    Component(ComponentEventEntry<P>),
    Task(TaskEventEntry),
}

impl<P> EventEntry<P> {
    pub open spec fn spec_time(self) -> u64 {
        match self {
            EventEntry::Component(entry) => entry.time.0,
            EventEntry::Task(entry) => entry.time.0,
        }
    }

    pub open spec fn spec_seq(self) -> u64 {
        match self {
            EventEntry::Component(entry) => entry.event_id.0,
            EventEntry::Task(entry) => entry.event_id.0,
        }
    }

    /// The value of the identifier of the task that this event starts.
    pub open spec fn task_value(self) -> Option<u128> {
        match self {
            EventEntry::Component(_) => None,
            EventEntry::Task(entry) => Some(entry.task_id.value()),
        }
    }

    /// What a policy is told of this event.
    pub open spec fn described(self) -> FrontierEvent {
        match self {
            EventEntry::Component(entry) => FrontierEvent {
                seq: entry.event_id.0,
                kind: FrontierEventKind::Component,
                component_id: Some(entry.component),
                task_id: None,
            },
            EventEntry::Task(entry) => FrontierEvent {
                seq: entry.event_id.0,
                kind: FrontierEventKind::Task,
                component_id: None,
                task_id: Some(entry.task_id),
            },
        }
    }

    /// Whether this event is due before another one: at an earlier time, or at
    /// the same time with a smaller sequence number.
    pub open spec fn before(self, other: Self) -> bool {
        self.spec_time() < other.spec_time() || (self.spec_time() == other.spec_time()
            && self.spec_seq() < other.spec_seq())
    }

    pub fn component_idx(&self) -> (id: Option<Uuid>)
        ensures
            id == match *self {
                EventEntry::Component(entry) => Some(entry.component),
                EventEntry::Task(_) => None,
            },
    {
        match self {
            EventEntry::Component(entry) => Some(entry.component),
            EventEntry::Task(_) => None,
        }
    }

    pub fn task_id(&self) -> (id: Option<TaskId>)
        ensures
            id == match *self {
                EventEntry::Component(_) => None,
                EventEntry::Task(entry) => Some(entry.task_id),
            },
    {
        match self {
            EventEntry::Component(_) => None,
            EventEntry::Task(entry) => Some(entry.task_id),
        }
    }

    pub fn time(&self) -> (time: SimTime)
        ensures
            time.0 == self.spec_time(),
    {
        match self {
            EventEntry::Component(entry) => entry.time,
            EventEntry::Task(entry) => entry.time,
        }
    }

    pub fn seq(&self) -> (seq: u64)
        ensures
            seq == self.spec_seq(),
    {
        match self {
            EventEntry::Component(entry) => entry.event_id.0,
            EventEntry::Task(entry) => entry.event_id.0,
        }
    }

    pub fn to_frontier_event(&self) -> (event: FrontierEvent)
        ensures
            event == self.described(),
    {
        match self {
            EventEntry::Component(entry) => FrontierEvent {
                seq: entry.event_id.0,
                kind: FrontierEventKind::Component,
                component_id: Some(entry.component),
                task_id: None,
            },
            EventEntry::Task(entry) => FrontierEvent {
                seq: entry.event_id.0,
                kind: FrontierEventKind::Task,
                component_id: None,
                task_id: Some(entry.task_id),
            },
        }
    }

    /// Orders events so that the one that is due first is the greatest.
    pub fn cmp(&self, other: &Self) -> (o: std::cmp::Ordering)
        ensures
            o == (if other.before(*self) {
                std::cmp::Ordering::Less
            } else if self.before(*other) {
                std::cmp::Ordering::Greater
            } else {
                std::cmp::Ordering::Equal
            }),
    {
        let (t1, t2) = (self.time().0, other.time().0);
        let (s1, s2) = (self.seq(), other.seq());
        if t2 < t1 || (t2 == t1 && s2 < s1) {
            std::cmp::Ordering::Less
        } else if t1 < t2 || (t1 == t2 && s1 < s2) {
            std::cmp::Ordering::Greater
        } else {
            std::cmp::Ordering::Equal
        }
    }
}

impl<P> PartialEq for EventEntry<P> {
    fn eq(&self, other: &Self) -> (r: bool) {
        self.time().0 == other.time().0 && self.seq() == other.seq()
    }
}

impl<P> vstd::std_specs::cmp::PartialEqSpecImpl for EventEntry<P> {
    open spec fn obeys_eq_spec() -> bool {
        true
    }

    open spec fn eq_spec(&self, other: &Self) -> bool {
        self.spec_time() == other.spec_time() && self.spec_seq() == other.spec_seq()
    }
}

/// Whether events stand in the order in which they are due.
pub open spec fn in_order<P>(s: Seq<EventEntry<P>>) -> bool {
    forall|i: int, j: int| 0 <= i < j < s.len() ==> (#[trigger] s[i]).before(#[trigger] s[j])
}

/// Whether `p` is the place of an event in a sequence that stands in order.
pub open spec fn is_place<P>(s: Seq<EventEntry<P>>, event: EventEntry<P>, p: int) -> bool {
    &&& 0 <= p <= s.len()
    &&& forall|i: int| 0 <= i < p ==> (#[trigger] s[i]).before(event)
    &&& forall|i: int| p <= i < s.len() ==> event.before(#[trigger] s[i])
}

/// A sequence that stands in order, with one more event at its place.
pub open spec fn with_event<P>(s: Seq<EventEntry<P>>, event: EventEntry<P>) -> Seq<EventEntry<P>> {
    s.insert(choose|p: int| is_place(s, event, p), event)
}

/// An event has only one place.
pub proof fn place_is_unique<P>(s: Seq<EventEntry<P>>, event: EventEntry<P>, p: int)
    requires
        is_place(s, event, p),
    ensures
        with_event(s, event) == s.insert(p, event),
{
    let q = choose|q: int| is_place(s, event, q);
    if p < q {
        assert(s[p].before(event));
    } else if q < p {
        assert(s[q].before(event));
    }
}

/// The queue of scheduled events, which keeps them in the order in which they are
/// due.
pub struct EventQueue<P> {
    entries: VecDeque<EventEntry<P>>,
}

impl<P> View for EventQueue<P> {
    type V = Seq<EventEntry<P>>;

    closed spec fn view(&self) -> Seq<EventEntry<P>> {
        self.entries@
    }
}

impl<P> EventQueue<P> {
    pub fn new() -> (queue: Self)
        ensures
            queue@ == Seq::<EventEntry<P>>::empty(),
    {
        EventQueue { entries: VecDeque::new() }
    }

    pub fn len(&self) -> (len: usize)
        ensures
            len == self@.len(),
    {
        self.entries.len()
    }

    pub fn is_empty(&self) -> (empty: bool)
        ensures
            empty == (self@.len() == 0),
    {
        self.entries.len() == 0
    }

    /// The event that is due first.
    pub fn peek(&self) -> (event: Option<&EventEntry<P>>)
        ensures
            event == (if self@.len() == 0 {
                None
            } else {
                Some(&self@[0])
            }),
    {
        if self.entries.len() == 0 {
            None
        } else {
            Some(&self.entries[0])
        }
    }

    /// The event at a position, counted from the one that is due first.
    pub fn event_at(&self, i: usize) -> (event: &EventEntry<P>)
        requires
            i < self@.len(),
        ensures
            *event == self@[i as int],
    {
        &self.entries[i]
    }

    /// Takes the event that is due first.
    pub fn pop(&mut self) -> (event: Option<EventEntry<P>>)
        ensures
            old(self)@.len() == 0 ==> event is None && final(self)@ == old(self)@,
            old(self)@.len() > 0 ==> event == Some(old(self)@[0]) && final(self)@
                == old(self)@.drop_first(),
    {
        self.entries.pop_front()
    }

    /// Puts an event that is due before all others in front.
    pub fn push_first(&mut self, event: EventEntry<P>)
        ensures
            final(self)@ == seq![event] + old(self)@,
    {
        self.entries.push_front(event);
    }

    /// Adds an event at its place.
    pub fn push(&mut self, event: EventEntry<P>)
        requires
            in_order(old(self)@),
            forall|i: int| 0 <= i < old(self)@.len() ==> (#[trigger] old(self)@[i]).spec_seq()
                != event.spec_seq(),
        ensures
            in_order(final(self)@),
            exists|p: int| is_place(old(self)@, event, p),
            final(self)@ == with_event(old(self)@, event),
    {
        let (time, seq) = (event.time().0, event.seq());
        let mut low: usize = 0;
        let mut high: usize = self.entries.len();
        while low < high
            invariant
                low <= high <= self@.len(),
                self@ == old(self)@,
                in_order(self@),
                self@.len() == self.entries.len(),
                time == event.spec_time(),
                seq == event.spec_seq(),
                forall|i: int|
                    0 <= i < self@.len() ==> (#[trigger] self@[i]).spec_seq() != event.spec_seq(),
                forall|i: int| 0 <= i < low ==> (#[trigger] self@[i]).before(event),
                forall|i: int| high <= i < self@.len() ==> event.before(#[trigger] self@[i]),
            decreases high - low,
        {
            let mid: usize = low + (high - low) / 2;
            let entry = &self.entries[mid];
            let t: u64 = entry.time().0;
            let s: u64 = entry.seq();
            assert(*entry == self@[mid as int]);
            if t < time || (t == time && s < seq) {
                low = mid + 1;
            } else {
                high = mid;
            }
        }
        proof {
            assert(is_place(self@, event, low as int));
            place_is_unique(self@, event, low as int);
        }
        self.entries.insert(low, event);
    }
}

} // verus!
