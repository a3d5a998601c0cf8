//! The event scheduler: the queue of events, the clock and the tasks.

use crate::event::{ComponentEventEntry, EventEntry, EventQueue, FrontierEvent, TaskEventEntry};
use crate::frontier_policy::EventFrontierPolicy;
use crate::ids::{deterministic_uuid, UUID_DOMAIN_TASK};
use crate::key::Key;
use crate::task::{ClosureTask, Task, TimeoutTask};
use crate::task_id::{TaskHandle, TaskId};
use crate::time::SimTime;
use crate::types::EventId;
use std::collections::{HashMap, HashSet, VecDeque};
use std::sync::atomic::{AtomicU64, Ordering};
use std::sync::Arc;
use uuid::Uuid;
use vstd::prelude::*;

verus! {

broadcast use vstd::std_specs::hash::group_hash_axioms;

/// An event that was deferred while another one was processed.
pub struct DeferredWake<P> {
    pub component: Key<P>,
    pub delay: SimTime,
    pub event: P,
}

/// What a scheduler holds.
#[verifier::ext_equal]
pub struct SchedulerView<P, T, R> {
    /// How many events were scheduled so far. The last one has this number.
    pub next_event_id: u64,
    pub id_seed: u64,
    /// How many tasks were scheduled so far.
    pub next_task_id: u64,
    /// The scheduled events, the one that is due first in front.
    pub events: Seq<EventEntry<P>>,
    pub now: u64,
    /// The tasks that wait for their event.
    pub pending: Map<u128, T>,
    /// The results that were not fetched yet.
    pub results: Map<u128, R>,
    /// The tasks that were cancelled and whose event is still in the queue.
    pub cancelled: Set<u128>,
    pub executing: Option<TaskId>,
    pub deferred: Seq<DeferredWake<P>>,
    /// Whether an event is being processed.
    pub in_event: bool,
}

/// Whether an event would start a cancelled task.
pub open spec fn is_marked<P>(event: EventEntry<P>, marks: Set<u128>) -> bool {
    event.task_value() is Some && marks.contains(event.task_value()->0)
}

/// The events and the marks that are left when the cancelled ones in front are
/// dropped, each together with its mark.
pub open spec fn skip_marked<P>(s: Seq<EventEntry<P>>, marks: Set<u128>) -> (
    Seq<EventEntry<P>>,
    Set<u128>,
)
    decreases s.len(),
{
    if s.len() > 0 && is_marked(s[0], marks) {
        skip_marked(s.drop_first(), marks.remove(s[0].task_value()->0))
    } else {
        (s, marks)
    }
}

/// The events that are due at one time, those behind them, and the marks that
/// are left when the cancelled ones among the first are dropped.
#[verifier::ext_equal]
pub struct FrontierSplit<P> {
    pub due: Seq<EventEntry<P>>,
    pub rest: Seq<EventEntry<P>>,
    pub marks: Set<u128>,
}

pub open spec fn split_frontier<P>(
    s: Seq<EventEntry<P>>,
    marks: Set<u128>,
    time: u64,
) -> FrontierSplit<P>
    decreases s.len(),
{
    if s.len() == 0 || s[0].spec_time() != time {
        FrontierSplit { due: Seq::empty(), rest: s, marks }
    } else if is_marked(s[0], marks) {
        split_frontier(s.drop_first(), marks.remove(s[0].task_value()->0), time)
    } else {
        let tail = split_frontier(s.drop_first(), marks, time);
        FrontierSplit { due: seq![s[0]] + tail.due, rest: tail.rest, marks: tail.marks }
    }
}

/// What a policy is told of the events that are due.
pub open spec fn descriptions<P>(due: Seq<EventEntry<P>>) -> Seq<FrontierEvent> {
    due.map_values(|e: EventEntry<P>| e.described())
}

/// An index, and the last one where it is too large.
pub open spec fn clamped(index: usize, len: nat) -> int
    recommends
        len > 0,
{
    if index < len {
        index as int
    } else {
        len - 1
    }
}

/// What holds of the events of a scheduler whose clock shows `now`, of which
/// `last` events were scheduled.
pub open spec fn events_ok<P>(s: Seq<EventEntry<P>>, now: u64, last: u64) -> bool {
    &&& crate::event::in_order(s)
    &&& forall|i: int|
        0 <= i < s.len() ==> {
            &&& 1 <= (#[trigger] s[i]).spec_seq() <= last
            &&& now <= s[i].spec_time()
        }
    &&& forall|i: int, j: int|
        0 <= i < j < s.len() ==> (#[trigger] s[i]).spec_seq() != (#[trigger] s[j]).spec_seq()
}

proof fn lemma_events_ok_remove<P>(s: Seq<EventEntry<P>>, now: u64, last: u64, k: int)
    requires
        events_ok(s, now, last),
        0 <= k < s.len(),
    ensures
        events_ok(s.remove(k), now, last),
{
    let t = s.remove(k);
    assert forall|i: int| 0 <= i < t.len() implies 1 <= (#[trigger] t[i]).spec_seq() <= last && now
        <= t[i].spec_time() by {
        if i < k {
            assert(t[i] == s[i]);
        } else {
            assert(t[i] == s[i + 1]);
        }
    }
    assert forall|i: int, j: int| 0 <= i < j < t.len() implies (#[trigger] t[i]).before(
        #[trigger] t[j],
    ) && t[i].spec_seq() != t[j].spec_seq() by {
        let i2 = if i < k {
            i
        } else {
            i + 1
        };
        let j2 = if j < k {
            j
        } else {
            j + 1
        };
        assert(t[i] == s[i2]);
        assert(t[j] == s[j2]);
    }
}

proof fn lemma_skip_shortens<P>(s: Seq<EventEntry<P>>, marks: Set<u128>)
    ensures
        skip_marked(s, marks).0.len() <= s.len(),
    decreases s.len(),
{
    if s.len() > 0 && is_marked(s[0], marks) {
        lemma_skip_shortens(s.drop_first(), marks.remove(s[0].task_value()->0));
    }
}

/// Whether a policy has selected an index of the events that are due. It is asked
/// only where there are several.
pub open spec fn consulted<P, Q: EventFrontierPolicy>(
    before: Q,
    due: Seq<EventEntry<P>>,
    after: Q,
    index: usize,
) -> bool {
    &&& due.len() <= usize::MAX
    &&& if due.len() <= 1 {
        index == 0 && after == before
    } else {
        Q::selects(before, SimTime(due[0].spec_time()), descriptions(due), after, index)
    }
}

impl<P, T, R> SchedulerView<P, T, R> {
    /// What holds of a scheduler at any time: its events stand in order, no two
    /// have the same number, none has a number that was not given out, and none
    /// lies in the past.
    pub open spec fn wf(self) -> bool {
        events_ok(self.events, self.now, self.next_event_id)
    }

    /// The time of the event that is being processed.
    pub open spec fn event_time(self) -> Option<SimTime> {
        if self.in_event {
            Some(SimTime(self.now))
        } else {
            None
        }
    }

    /// An upper bound on the number of events that can still be processed.
    pub open spec fn budget(self) -> nat {
        (2 * (u64::MAX - self.next_event_id) + self.events.len()) as nat
    }

    /// The scheduler after one more event.
    pub open spec fn with_event(self, event: EventEntry<P>) -> Self {
        SchedulerView {
            next_event_id: (self.next_event_id + 1) as u64,
            events: crate::event::with_event(self.events, event),
            ..self
        }
    }

    /// The event that is scheduled next, for a component.
    pub open spec fn component_event(self, delay: u64, component: Uuid, event: P) -> EventEntry<P> {
        EventEntry::Component(
            ComponentEventEntry {
                event_id: EventId((self.next_event_id + 1) as u64),
                time: SimTime(self.now.saturating_add(delay)),
                component,
                inner: event,
            },
        )
    }

    /// The scheduler after an event was scheduled for a component.
    pub open spec fn scheduled(self, delay: u64, component: Uuid, event: P) -> Self {
        self.with_event(self.component_event(delay, component, event))
    }

    /// The scheduler after an event was scheduled for a component, if there was a
    /// number left for it.
    pub open spec fn offered(self, delay: u64, component: Uuid, event: P) -> Self {
        if self.next_event_id < u64::MAX {
            self.scheduled(delay, component, event)
        } else {
            self
        }
    }

    /// The scheduler after a task was put under an identifier, with its event at
    /// an absolute time.
    pub open spec fn with_task(self, time: u64, id: TaskId, task: T) -> Self {
        SchedulerView { pending: self.pending.insert(id.value(), task), ..self }.with_event(
            EventEntry::Task(
                TaskEventEntry {
                    event_id: EventId((self.next_event_id + 1) as u64),
                    time: SimTime(time),
                    task_id: id,
                },
            ),
        )
    }

    /// The identifier of the task that is scheduled next.
    pub open spec fn next_task_value(self) -> u128 {
        crate::ids::derived_id(self.id_seed, UUID_DOMAIN_TASK, (self.next_task_id + 1) as u64)
    }

    /// The scheduler after a task identifier was given out.
    pub open spec fn with_next_task(self) -> Self {
        SchedulerView { next_task_id: (self.next_task_id + 1) as u64, ..self }
    }

    /// The scheduler after a waiting task was cancelled.
    pub open spec fn with_task_cancelled(self, id: u128) -> Self {
        SchedulerView {
            pending: self.pending.remove(id),
            cancelled: self.cancelled.insert(id),
            ..self
        }
    }

    /// The scheduler after an event was deferred.
    pub open spec fn with_deferred(self, wake: DeferredWake<P>) -> Self {
        SchedulerView { deferred: self.deferred.push(wake), ..self }
    }

    /// The event that is taken next, and the scheduler without it.
    pub open spec fn popped(self) -> (Option<EventEntry<P>>, Self) {
        let (events, cancelled) = skip_marked(self.events, self.cancelled);
        if events.len() == 0 {
            (None, SchedulerView { events, cancelled, ..self })
        } else {
            (
                Some(events[0]),
                SchedulerView {
                    events: events.drop_first(),
                    cancelled,
                    now: events[0].spec_time(),
                    ..self
                },
            )
        }
    }

    /// The events that are due next, without those that were cancelled.
    pub open spec fn frontier(self) -> FrontierSplit<P> {
        let (events, cancelled) = skip_marked(self.events, self.cancelled);
        if events.len() == 0 {
            FrontierSplit { due: Seq::empty(), rest: events, marks: cancelled }
        } else {
            split_frontier(events, cancelled, events[0].spec_time())
        }
    }

    /// The scheduler after one of the events that are due next was taken.
    pub open spec fn taken(self, k: int) -> Self {
        let split = self.frontier();
        SchedulerView {
            events: split.due.remove(k) + split.rest,
            cancelled: split.marks,
            now: split.due[k].spec_time(),
            ..self
        }
    }

    /// The scheduler after the deferred events were scheduled in their order, as
    /// far as there are numbers left for them.
    pub open spec fn drained(self) -> Self
        decreases self.deferred.len(),
    {
        if self.deferred.len() == 0 || self.next_event_id == u64::MAX {
            self
        } else {
            let wake = self.deferred[0];
            SchedulerView {
                deferred: self.deferred.drop_first(),
                ..self.scheduled(wake.delay.0, wake.component.id, wake.event)
            }.drained()
        }
    }

    /// Whether a task waits and was not cancelled.
    pub open spec fn can_run(self, id: TaskId) -> bool {
        !self.cancelled.contains(id.value()) && self.pending.contains_key(id.value())
    }

    /// The scheduler that a task is started on.
    pub open spec fn started(self, id: TaskId) -> Self {
        SchedulerView {
            pending: self.pending.remove(id.value()),
            executing: Some(id),
            ..self
        }
    }

    /// The scheduler after a task has run: where it has not put itself under its
    /// identifier again, its result is kept.
    pub open spec fn finished(self, id: TaskId, previous: Option<TaskId>, output: Option<R>) -> Self {
        SchedulerView {
            executing: previous,
            results: if output is Some && !self.pending.contains_key(id.value()) {
                self.results.insert(id.value(), output->0)
            } else {
                self.results
            },
            ..self
        }
    }
}

/// Whether a cell takes in a number when it is set.
pub open spec fn takes_in(cell: Arc<AtomicU64>, nanos: u64) -> bool {
    call_ensures(AtomicU64::store, (&*cell, nanos, Ordering::Relaxed), ())
}

/// Whether a cell can give out a number when it is read.
pub open spec fn gives_out(cell: Arc<AtomicU64>, nanos: u64) -> bool {
    call_ensures(AtomicU64::load, (&*cell, Ordering::Relaxed), nanos)
}

/// A reference through which the simulation time can be read.
///
/// The clock is shared: what a reading gives depends on when it is taken.
pub struct ClockRef {
    clock: Arc<AtomicU64>,
}

impl Clone for ClockRef {
    fn clone(&self) -> (clock_ref: Self)
        ensures
            clock_ref.cell() == self.cell(),
    {
        ClockRef { clock: self.clock.clone() }
    }
}

impl From<Arc<AtomicU64>> for ClockRef {
    fn from(clock: Arc<AtomicU64>) -> (clock_ref: Self)
        ensures
            clock_ref.cell() == clock,
    {
        ClockRef { clock }
    }
}

impl vstd::std_specs::convert::FromSpecImpl<Arc<AtomicU64>> for ClockRef {
    open spec fn obeys_from_spec() -> bool {
        false
    }

    open spec fn from_spec(clock: Arc<AtomicU64>) -> Self {
        arbitrary()
    }
}

impl ClockRef {
    /// The shared cell that the time is read from.
    pub closed spec fn cell(self) -> Arc<AtomicU64> {
        self.clock
    }

    /// The simulation time at the moment of the call, as the shared cell gives it.
    /// Which time that is depends on when the cell was last set.
    pub fn time(&self) -> (time: SimTime)
        ensures
            gives_out(self.cell(), time.0),
    {
        let nanos: u64 = self.clock.load(Ordering::Relaxed);
        SimTime::from_nanos(nanos)
    }
}

/// Whether a number is among others.
fn holds_id(ids: &Vec<u128>, id: u128) -> (holds: bool)
    ensures
        holds == ids@.contains(id),
{
    let mut i: usize = 0;
    while i < ids.len()
        invariant
            i <= ids@.len(),
            forall|k: int| 0 <= k < i ==> ids@[k] != id,
        decreases ids@.len() - i,
    {
        if ids[i] == id {
            return true;
        }
        i = i + 1;
    }
    false
}

/// The event scheduler.
///
/// `P` is what events for components carry, `T` is the type of tasks, and `R` that
/// of their results.
pub struct Scheduler<P, T, R> {
    next_event_id: u64,
    id_seed: u64,
    next_task_id: u64,
    events: EventQueue<P>,
    now: SimTime,
    /// Shows `now` to the holders of a clock reference.
    clock: Arc<AtomicU64>,
    pending: HashMap<u128, T>,
    results: HashMap<u128, R>,
    cancelled: HashSet<u128>,
    executing: Option<TaskId>,
    deferred: VecDeque<DeferredWake<P>>,
    in_event: bool,
}

impl<P, T, R> View for Scheduler<P, T, R> {
    type V = SchedulerView<P, T, R>;

    closed spec fn view(&self) -> SchedulerView<P, T, R> {
        SchedulerView {
            next_event_id: self.next_event_id,
            id_seed: self.id_seed,
            next_task_id: self.next_task_id,
            events: self.events@,
            now: self.now.0,
            pending: self.pending@,
            results: self.results@,
            cancelled: self.cancelled@,
            executing: self.executing,
            deferred: self.deferred@,
            in_event: self.in_event,
        }
    }
}

impl<P, T, R> Default for Scheduler<P, T, R> {
    fn default() -> (scheduler: Self)
        ensures
            scheduler.wf(),
            scheduler@ == Self::empty(0),
    {
        Self::with_seed(0)
    }
}

impl<P, T, R> Scheduler<P, T, R> {
    pub open spec fn wf(&self) -> bool {
        self@.wf()
    }

    /// A scheduler at the start of a simulation.
    pub open spec fn empty(id_seed: u64) -> SchedulerView<P, T, R> {
        SchedulerView {
            next_event_id: 0,
            id_seed,
            next_task_id: 0,
            events: Seq::empty(),
            now: 0,
            pending: Map::empty(),
            results: Map::empty(),
            cancelled: Set::empty(),
            executing: None,
            deferred: Seq::empty(),
            in_event: false,
        }
    }

    /// Makes a scheduler whose task identifiers are derived from a seed.
    pub fn with_seed(id_seed: u64) -> (scheduler: Self)
        ensures
            scheduler.wf(),
            scheduler@ == Self::empty(id_seed),
    {
        let scheduler = Scheduler {
            next_event_id: 0,
            id_seed,
            next_task_id: 0,
            events: EventQueue::new(),
            now: SimTime(0),
            clock: Arc::new(AtomicU64::new(0)),
            pending: HashMap::new(),
            results: HashMap::new(),
            cancelled: HashSet::new(),
            executing: None,
            deferred: VecDeque::new(),
            in_event: false,
        };
        proof {
            assert(scheduler@ =~= Self::empty(id_seed));
        }
        scheduler
    }

    /// Adds an event under the next number.
    fn push_event(&mut self, event: EventEntry<P>)
        requires
            old(self).wf(),
            old(self)@.next_event_id < u64::MAX,
            event.spec_seq() == old(self)@.next_event_id + 1,
            old(self)@.now <= event.spec_time(),
        ensures
            final(self).wf(),
            final(self).clock_cell() == old(self).clock_cell(),
            final(self)@ == old(self)@.with_event(event),
            final(self)@.events.len() == old(self)@.events.len() + 1,
    {
        self.next_event_id = self.next_event_id + 1;
        self.events.push(event);
        proof {
            let s = old(self)@.events;
            let p = choose|p: int| crate::event::is_place(s, event, p);
            assert(crate::event::is_place(s, event, p));
            let t = self@.events;
            assert(t == s.insert(p, event));
            assert forall|i: int| 0 <= i < t.len() implies 1 <= (#[trigger] t[i]).spec_seq()
                <= self@.next_event_id && self@.now <= t[i].spec_time() by {
                if i < p {
                    assert(t[i] == s[i]);
                } else if i > p {
                    assert(t[i] == s[i - 1]);
                }
            }
            assert forall|i: int, j: int| 0 <= i < j < t.len() implies (
            #[trigger] t[i]).spec_seq() != (#[trigger] t[j]).spec_seq() by {
                if i < p {
                    assert(t[i] == s[i]);
                } else if i > p {
                    assert(t[i] == s[i - 1]);
                }
                if j < p {
                    assert(t[j] == s[j]);
                } else if j > p {
                    assert(t[j] == s[j - 1]);
                }
            }
        }
    }

    /// Schedules an event for a component, `time` from now.
    pub fn schedule(&mut self, time: SimTime, component: Key<P>, event: P)
        requires
            old(self).wf(),
            old(self)@.next_event_id < u64::MAX,
        ensures
            final(self).wf(),
            final(self).clock_cell() == old(self).clock_cell(),
            final(self)@ == old(self)@.scheduled(time.0, component.id, event),
            final(self)@.budget() < old(self)@.budget(),
    {
        let absolute_time = self.now + time;
        let id = EventId(self.next_event_id + 1);
        let entry = ComponentEventEntry::new(id, absolute_time, component, event);
        self.push_event(EventEntry::Component(entry));
    }

    /// Schedules an event for a component at the present time.
    pub fn schedule_now(&mut self, component: Key<P>, event: P)
        requires
            old(self).wf(),
            old(self)@.next_event_id < u64::MAX,
        ensures
            final(self).wf(),
            final(self).clock_cell() == old(self).clock_cell(),
            final(self)@ == old(self)@.scheduled(0, component.id, event),
            final(self)@.budget() < old(self)@.budget(),
    {
        self.schedule(SimTime::zero(), component, event);
    }

    /// Schedules an event for a component, `time` from now, if there is a number left
    /// for it, and tells whether it did.
    pub fn try_schedule(&mut self, time: SimTime, component: Key<P>, event: P) -> (done: bool)
        requires
            old(self).wf(),
        ensures
            final(self).wf(),
            final(self).clock_cell() == old(self).clock_cell(),
            done == (old(self)@.next_event_id < u64::MAX),
            final(self)@ == old(self)@.offered(time.0, component.id, event),
            final(self)@.budget() <= old(self)@.budget(),
    {
        if self.can_schedule() {
            self.schedule(time, component, event);
            true
        } else {
            false
        }
    }

    /// Defers events in their order.
    pub fn defer_all(&mut self, wakes: VecDeque<DeferredWake<P>>)
        requires
            old(self).wf(),
        ensures
            final(self).wf(),
            final(self).clock_cell() == old(self).clock_cell(),
            final(self)@ == (SchedulerView {
                deferred: old(self)@.deferred + wakes@,
                ..old(self)@
            }),
    {
        let ghost given = wakes@;
        let mut wakes = wakes;
        self.deferred.append(&mut wakes);
        proof {
            assert(self@ =~= SchedulerView {
                deferred: old(self)@.deferred + given,
                ..old(self)@
            });
        }
    }

    /// The present time.
    pub fn time(&self) -> (time: SimTime)
        ensures
            time.0 == self@.now,
    {
        self.now
    }

    /// Whether there is a number left for another event.
    pub fn can_schedule(&self) -> (can: bool)
        ensures
            can == (self@.next_event_id < u64::MAX),
    {
        self.next_event_id < u64::MAX
    }

    /// Whether there are numbers left for another task and its event.
    pub fn can_schedule_task(&self) -> (can: bool)
        ensures
            can == (self@.next_event_id < u64::MAX && self@.next_task_id < u64::MAX),
    {
        self.next_event_id < u64::MAX && self.next_task_id < u64::MAX
    }

    /// The shared cell that the time is shown in.
    pub closed spec fn clock_cell(&self) -> Arc<AtomicU64> {
        self.clock
    }

    /// A reference through which the time can be read.
    pub fn clock(&self) -> (clock_ref: ClockRef)
        ensures
            clock_ref.cell() == self.clock_cell(),
    {
        ClockRef { clock: self.clock.clone() }
    }

    /// Sets the time, and shows it to the holders of a clock reference.
    fn set_time(&mut self, time: SimTime)
        ensures
            final(self)@ == (SchedulerView { now: time.0, ..old(self)@ }),
            final(self).clock_cell() == old(self).clock_cell(),
            takes_in(final(self).clock_cell(), time.0),
    {
        self.now = time;
        self.clock.store(time.0, Ordering::Relaxed);
        proof {
            assert(self@ =~= SchedulerView { now: time.0, ..old(self)@ });
        }
    }

    /// The event that is due first, cancelled or not.
    pub fn peek(&self) -> (event: Option<&EventEntry<P>>)
        ensures
            event == (if self@.events.len() == 0 {
                None
            } else {
                Some(&self@.events[0])
            }),
    {
        self.events.peek()
    }

    /// The event that is due first and is not cancelled.
    pub fn peek_live(&self) -> (event: Option<&EventEntry<P>>)
        ensures
            event is None <==> self@.popped().0 is None,
            event matches Some(e) ==> self@.popped().0 == Some(*e),
    {
        let mut dropped: Vec<u128> = Vec::new();
        let mut i: usize = 0;
        let ghost mut marks = self@.cancelled;
        proof {
            assert(self@.events.skip(0) =~= self@.events);
        }
        while i < self.events.len()
            invariant
                i <= self@.events.len(),
                skip_marked(self@.events.skip(i as int), marks) == skip_marked(
                    self@.events,
                    self@.cancelled,
                ),
                forall|id: u128| #[trigger]
                    marks.contains(id) <==> self@.cancelled.contains(id) && !dropped@.contains(id),
            decreases self@.events.len() - i,
        {
            let event = self.events.event_at(i);
            let ghost left = self@.events.skip(i as int);
            proof {
                assert(left[0] == *event);
                assert(left.drop_first() =~= self@.events.skip(i + 1));
            }
            let id: u128 = match event {
                EventEntry::Component(_) => {
                    return Some(event);
                },
                EventEntry::Task(entry) => entry.task_id.0.as_u128(),
            };
            if !self.cancelled.contains(&id) || holds_id(&dropped, id) {
                return Some(event);
            }
            let ghost before = dropped@;
            dropped.push(id);
            proof {
                assert forall|other: u128| #[trigger] marks.remove(id).contains(other) <==> self@.cancelled.contains(
                    other,
                ) && !dropped@.contains(other) by {
                    assert(dropped@.contains(other) <==> before.contains(other) || other == id) by {
                        assert(dropped@[before.len() as int] == id);
                        if before.contains(other) {
                            let k = choose|k: int| 0 <= k < before.len() && before[k] == other;
                            assert(dropped@[k] == other);
                        }
                    }
                }
                marks = marks.remove(id);
            }
            i = i + 1;
        }
        None
    }

    /// Drops the mark of an event's task, and tells whether there was one.
    fn is_cancelled_task_event(&mut self, event: &EventEntry<P>) -> (marked: bool)
        ensures
            marked == is_marked(*event, old(self)@.cancelled),
            final(self).clock_cell() == old(self).clock_cell(),
            final(self)@ == (if marked {
                SchedulerView {
                    cancelled: old(self)@.cancelled.remove(event.task_value()->0),
                    ..old(self)@
                }
            } else {
                old(self)@
            }),
    {
        if let EventEntry::Task(entry) = event {
            if self.cancelled.remove(&entry.task_id.0.as_u128()) {
                proof {
                    assert(self@ =~= SchedulerView {
                        cancelled: old(self)@.cancelled.remove(event.task_value()->0),
                        ..old(self)@
                    });
                }
                return true;
            }
            proof {
                assert(self@.cancelled =~= old(self)@.cancelled);
                assert(self@ =~= old(self)@);
            }
        }
        false
    }

    /// Takes the event that is due first and is not cancelled, and leaves the clock
    /// as it is.
    fn pop_live(&mut self) -> (event: Option<EventEntry<P>>)
        requires
            old(self).wf(),
        ensures
            final(self).wf(),
            final(self).clock_cell() == old(self).clock_cell(),
            ({
                let (events, cancelled) = skip_marked(old(self)@.events, old(self)@.cancelled);
                &&& event == (if events.len() == 0 {
                    None
                } else {
                    Some(events[0])
                })
                &&& final(self)@ == (SchedulerView {
                    events: if events.len() == 0 {
                        events
                    } else {
                        events.drop_first()
                    },
                    cancelled,
                    ..old(self)@
                })
                &&& event is Some ==> old(self)@.now <= event->0.spec_time() && !is_marked(
                    event->0,
                    cancelled,
                ) && events_ok(events, event->0.spec_time(), old(self)@.next_event_id)
            }),
    {
        loop
            invariant
                self.wf(),
                self.clock_cell() == old(self).clock_cell(),
                skip_marked(self@.events, self@.cancelled) == skip_marked(
                    old(self)@.events,
                    old(self)@.cancelled,
                ),
                self@ == (SchedulerView {
                    events: self@.events,
                    cancelled: self@.cancelled,
                    ..old(self)@
                }),
            decreases self@.events.len(),
        {
            let ghost before = self@;
            match self.events.pop() {
                None => {
                    proof {
                        assert(self@ =~= before);
                    }
                    return None;
                },
                Some(event) => {
                    proof {
                        assert(self@ =~= SchedulerView {
                            events: before.events.drop_first(),
                            ..before
                        });
                        assert(event == before.events[0]);
                    }
                    if self.is_cancelled_task_event(&event) {
                        continue;
                    }
                    return Some(event);
                },
            }
        }
    }

    /// Takes the event that is due first and is not cancelled, and moves the clock
    /// to its time.
    pub fn pop(&mut self) -> (event: Option<EventEntry<P>>)
        requires
            old(self).wf(),
        ensures
            final(self).wf(),
            final(self).clock_cell() == old(self).clock_cell(),
            (event, final(self)@) == old(self)@.popped(),
            event is Some ==> takes_in(final(self).clock_cell(), final(self)@.now),
            final(self)@.now >= old(self)@.now,
            event is Some ==> final(self)@.budget() < old(self)@.budget(),
            event is None ==> final(self)@.budget() <= old(self)@.budget(),
    {
        proof {
            lemma_skip_shortens(self@.events, self@.cancelled);
        }
        let event = self.pop_live();
        if let Some(entry) = &event {
            self.set_time(entry.time());
        }
        event
    }

    /// Takes one of the events that are due next and are not cancelled, and moves
    /// the clock to their time. Where there are several, the policy selects one;
    /// an index that is too large stands for the last.
    pub fn pop_with_policy<Q: EventFrontierPolicy>(&mut self, policy: &mut Q) -> (event: Option<
        EventEntry<P>,
    >)
        requires
            old(self).wf(),
        ensures
            final(self).wf(),
            final(self).clock_cell() == old(self).clock_cell(),
            ({
                let due = old(self)@.frontier().due;
                &&& due.len() == 0 ==> {
                    &&& event is None
                    &&& *final(policy) == *old(policy)
                    &&& final(self)@ == old(self)@.popped().1
                }
                &&& due.len() > 0 ==> exists|index: usize|
                    {
                        &&& #[trigger] consulted(*old(policy), due, *final(policy), index)
                        &&& event == Some(due[clamped(index, due.len())])
                        &&& final(self)@ == old(self)@.taken(clamped(index, due.len()))
                    }
            }),
            event is Some ==> takes_in(final(self).clock_cell(), final(self)@.now),
            final(self)@.now >= old(self)@.now,
            event is Some ==> final(self)@.budget() < old(self)@.budget(),
            event is None ==> final(self)@.budget() <= old(self)@.budget(),
    {
        proof {
            lemma_skip_shortens(self@.events, self@.cancelled);
        }
        let ghost start = skip_marked(self@.events, self@.cancelled);
        let first = match self.pop_live() {
            None => {
                return None;
            },
            Some(event) => event,
        };
        let time = first.time();
        let ghost whole = split_frontier(start.0, start.1, time.0);
        let mut due: Vec<EventEntry<P>> = Vec::new();
        due.push(first);
        proof {
            assert(due@ + self@.events =~= start.0);
            let cur = split_frontier(self@.events, self@.cancelled, time.0);
            assert(seq![first] + cur.due =~= due@ + cur.due);
        }
        loop
            invariant_except_break
                whole == (FrontierSplit {
                    due: due@ + split_frontier(self@.events, self@.cancelled, time.0).due,
                    rest: split_frontier(self@.events, self@.cancelled, time.0).rest,
                    marks: split_frontier(self@.events, self@.cancelled, time.0).marks,
                }),
            invariant
                self.clock_cell() == old(self).clock_cell(),
                due@.len() > 0,
                due@.len() + self@.events.len() <= old(self)@.events.len(),
                old(self)@.now <= time.0,
                events_ok(due@ + self@.events, time.0, old(self)@.next_event_id),
                forall|i: int| 0 <= i < due@.len() ==> (#[trigger] due@[i]).spec_time() == time.0,
                self@ == (SchedulerView {
                    events: self@.events,
                    cancelled: self@.cancelled,
                    ..old(self)@
                }),
            ensures
                whole == (FrontierSplit { due: due@, rest: self@.events, marks: self@.cancelled }),
            decreases self@.events.len(),
        {
            let same_time = match self.events.peek() {
                None => false,
                Some(event) => event.time().0 == time.0,
            };
            if !same_time {
                proof {
                    assert(due@ + Seq::<EventEntry<P>>::empty() =~= due@);
                }
                break;
            }
            let ghost before = self@;
            let ghost due_before = due@;
            if let Some(event) = self.events.pop() {
                proof {
                    assert(self@ =~= SchedulerView { events: before.events.drop_first(), ..before });
                    assert(event == before.events[0]);
                }
                if self.is_cancelled_task_event(&event) {
                    proof {
                        let k = due_before.len() as int;
                        lemma_events_ok_remove(
                            due_before + before.events,
                            time.0,
                            old(self)@.next_event_id,
                            k,
                        );
                        assert((due_before + before.events).remove(k) =~= due@ + self@.events);
                    }
                } else {
                    due.push(event);
                    proof {
                        assert(due_before + before.events =~= due@ + self@.events);
                        let tail = split_frontier(self@.events, self@.cancelled, time.0);
                        assert(due_before + (seq![event] + tail.due) =~= due@ + tail.due);
                    }
                }
            }
        }
        let index: usize = if due.len() <= 1 {
            0
        } else {
            let mut frontier: Vec<FrontierEvent> = Vec::new();
            let mut i: usize = 0;
            while i < due.len()
                invariant
                    i <= due@.len(),
                    frontier@ == descriptions(due@.take(i as int)),
                decreases due@.len() - i,
            {
                frontier.push(due[i].to_frontier_event());
                i = i + 1;
                proof {
                    assert(frontier@ =~= descriptions(due@.take(i as int)));
                }
            }
            proof {
                assert(due@.take(i as int) =~= due@);
            }
            policy.select(time, frontier.as_slice())
        };
        let last: usize = due.len() - 1;
        let k: usize = if index < last {
            index
        } else {
            last
        };
        let ghost all = due@;
        proof {
            assert(consulted(*old(policy), all, *policy, index));
            assert(k == clamped(index, all.len()));
            lemma_events_ok_remove(all + self@.events, time.0, old(self)@.next_event_id, k as int);
            assert((all + self@.events).remove(k as int) =~= all.remove(k as int) + self@.events);
        }
        let event = due.remove(k);
        let ghost rest = self@.events;
        proof {
            assert(due@ =~= all.remove(k as int));
        }
        let mut left: usize = due.len();
        while left > 0
            invariant
                self.clock_cell() == old(self).clock_cell(),
                left == due@.len(),
                left <= all.remove(k as int).len(),
                due@ == all.remove(k as int).take(left as int),
                self@ == (SchedulerView {
                    events: all.remove(k as int).skip(left as int) + rest,
                    cancelled: self@.cancelled,
                    ..old(self)@
                }),
                self@.cancelled == whole.marks,
            decreases left,
        {
            let ghost before = self@;
            let ghost kept = all.remove(k as int);
            if let Some(entry) = due.pop() {
                self.events.push_first(entry);
                left = left - 1;
                proof {
                    assert(entry == kept[left as int]);
                    assert(seq![entry] + (kept.skip(left as int + 1) + rest) =~= kept.skip(
                        left as int,
                    ) + rest);
                    assert(self@ =~= SchedulerView {
                        events: seq![entry] + before.events,
                        ..before
                    });
                    assert(due@ =~= kept.take(left as int));
                }
            }
        }
        proof {
            assert(all.remove(k as int).skip(0) =~= all.remove(k as int));
        }
        self.set_time(time);
        proof {
            assert(whole == old(self)@.frontier());
            assert(self@ =~= old(self)@.taken(k as int));
        }
        Some(event)
    }

    /// Schedules a task under a fresh identifier, `delay` from now.
    pub fn schedule_task<O>(&mut self, delay: SimTime, task: T) -> (handle: TaskHandle<O>)
        requires
            old(self).wf(),
            old(self)@.next_event_id < u64::MAX,
            old(self)@.next_task_id < u64::MAX,
        ensures
            final(self).wf(),
            final(self).clock_cell() == old(self).clock_cell(),
            handle.id.value() == old(self)@.next_task_value(),
            final(self)@ == old(self)@.with_next_task().with_task(
                old(self)@.now.saturating_add(delay.0),
                handle.id,
                task,
            ),
            final(self)@.budget() < old(self)@.budget(),
    {
        self.next_task_id = self.next_task_id + 1;
        let task_id = TaskId(
            deterministic_uuid(self.id_seed, UUID_DOMAIN_TASK, self.next_task_id),
        );
        let time = self.now + delay;
        proof {
            assert(self@ =~= old(self)@.with_next_task());
        }
        self.schedule_task_at(time, task_id, task);
        TaskHandle::new(task_id)
    }

    /// Schedules a task under an identifier, at an absolute time that is not past.
    pub fn schedule_task_at(&mut self, time: SimTime, task_id: TaskId, task: T)
        requires
            old(self).wf(),
            old(self)@.next_event_id < u64::MAX,
            old(self)@.now <= time.0,
        ensures
            final(self).wf(),
            final(self).clock_cell() == old(self).clock_cell(),
            final(self)@ == old(self)@.with_task(time.0, task_id, task),
            final(self)@.budget() < old(self)@.budget(),
    {
        self.pending.insert(task_id.0.as_u128(), task);
        proof {
            assert(self@ =~= SchedulerView {
                pending: old(self)@.pending.insert(task_id.value(), task),
                ..old(self)@
            });
        }
        let event = TaskEventEntry::new(EventId(self.next_event_id + 1), time, task_id);
        self.push_event(EventEntry::Task(event));
    }

    /// Schedules a closure as a task, `delay` from now.
    pub fn schedule_closure<F, O>(&mut self, delay: SimTime, closure: F) -> (handle: TaskHandle<
        O,
    >) where T: From<ClosureTask<F, O>>
        requires
            old(self).wf(),
            old(self)@.next_event_id < u64::MAX,
            old(self)@.next_task_id < u64::MAX,
        ensures
            final(self).wf(),
            final(self).clock_cell() == old(self).clock_cell(),
            handle.id.value() == old(self)@.next_task_value(),
            exists|made: ClosureTask<F, O>, task: T|
                {
                    &&& made.closure == closure
                    &&& #[trigger] call_ensures(T::from, (made,), task)
                    &&& final(self)@ == old(self)@.with_next_task().with_task(
                        old(self)@.now.saturating_add(delay.0),
                        handle.id,
                        task,
                    )
                },
            final(self)@.budget() < old(self)@.budget(),
    {
        let made = ClosureTask::new(closure);
        let task = T::from(made);
        self.schedule_task(delay, task)
    }

    /// Schedules a callback as a task, `delay` from now.
    pub fn timeout<F>(&mut self, delay: SimTime, callback: F) -> (handle: TaskHandle<()>) where
        T: From<TimeoutTask<F>>,

        requires
            old(self).wf(),
            old(self)@.next_event_id < u64::MAX,
            old(self)@.next_task_id < u64::MAX,
        ensures
            final(self).wf(),
            final(self).clock_cell() == old(self).clock_cell(),
            handle.id.value() == old(self)@.next_task_value(),
            exists|task: T|
                {
                    &&& #[trigger] call_ensures(T::from, (TimeoutTask { callback },), task)
                    &&& final(self)@ == old(self)@.with_next_task().with_task(
                        old(self)@.now.saturating_add(delay.0),
                        handle.id,
                        task,
                    )
                },
            final(self)@.budget() < old(self)@.budget(),
    {
        let task = T::from(TimeoutTask::new(callback));
        self.schedule_task(delay, task)
    }

    /// The task that is being run.
    pub fn executing_task_id(&self) -> (id: Option<TaskId>)
        ensures
            id == self@.executing,
    {
        self.executing
    }

    /// Cancels a task, and tells whether it was still waiting.
    pub fn cancel_task<O>(&mut self, handle: TaskHandle<O>) -> (was_pending: bool)
        requires
            old(self).wf(),
        ensures
            final(self).wf(),
            final(self).clock_cell() == old(self).clock_cell(),
            was_pending == old(self)@.pending.contains_key(handle.id.value()),
            final(self)@ == (if was_pending {
                old(self)@.with_task_cancelled(handle.id.value())
            } else {
                old(self)@
            }),
    {
        let id: u128 = handle.id.0.as_u128();
        match self.pending.remove(&id) {
            Some(_) => {
                self.cancelled.insert(id);
                proof {
                    assert(self@ =~= old(self)@.with_task_cancelled(id));
                }
                true
            },
            None => {
                proof {
                    assert(self@.pending =~= old(self)@.pending);
                    assert(self@ =~= old(self)@);
                }
                false
            },
        }
    }

    /// Fetches the result of a task that has run.
    pub fn get_task_result<O>(&mut self, handle: TaskHandle<O>) -> (result: Option<R>)
        requires
            old(self).wf(),
        ensures
            final(self).wf(),
            final(self).clock_cell() == old(self).clock_cell(),
            result == (if old(self)@.results.contains_key(handle.id.value()) {
                Some(old(self)@.results[handle.id.value()])
            } else {
                None
            }),
            final(self)@ == (SchedulerView {
                results: old(self)@.results.remove(handle.id.value()),
                ..old(self)@
            }),
    {
        let result = self.results.remove(&handle.id.0.as_u128());
        proof {
            assert(self@ =~= SchedulerView {
                results: old(self)@.results.remove(handle.id.value()),
                ..old(self)@
            });
        }
        result
    }

    /// Whether a result of a task waits to be fetched.
    pub fn has_task_result(&self, id: TaskId) -> (has: bool)
        ensures
            has == self@.results.contains_key(id.value()),
    {
        self.results.contains_key(&id.0.as_u128())
    }
}

/// Whether executing a task can leave the scheduler as `after`. A task that does
/// not wait or was cancelled is not run, and loses its mark.
pub open spec fn task_executed<P, T: Task<P, R>, R>(
    id: TaskId,
    before: SchedulerView<P, T, R>,
    after: SchedulerView<P, T, R>,
) -> bool {
    if before.can_run(id) {
        exists|left: SchedulerView<P, T, R>, output: Option<R>|
            {
                &&& #[trigger] before.pending[id.value()].runs(before.started(id), left, output)
                &&& left.wf()
                &&& after == left.finished(id, before.executing, output)
            }
    } else {
        after == (SchedulerView { cancelled: before.cancelled.remove(id.value()), ..before })
    }
}

impl<P, T: Task<P, R>, R> Scheduler<P, T, R> {
    /// Runs a task, if it is still waiting and was not cancelled, and tells
    /// whether it was run.
    pub fn execute_task(&mut self, task_id: TaskId) -> (ran: bool)
        requires
            old(self).wf(),
        ensures
            final(self).wf(),
            final(self)@.budget() <= old(self)@.budget(),
            final(self)@.now == old(self)@.now,
            ran == old(self)@.can_run(task_id),
            task_executed(task_id, old(self)@, final(self)@),
    {
        let id: u128 = task_id.0.as_u128();
        if self.cancelled.contains(&id) {
            self.cancelled.remove(&id);
            proof {
                assert(self@ =~= SchedulerView {
                    cancelled: old(self)@.cancelled.remove(id),
                    ..old(self)@
                });
            }
            return false;
        }
        let task = match self.pending.remove(&id) {
            None => {
                proof {
                    assert(self@.pending =~= old(self)@.pending);
                    assert(self@.cancelled =~= old(self)@.cancelled.remove(id));
                    assert(self@ =~= SchedulerView {
                        cancelled: old(self)@.cancelled.remove(id),
                        ..old(self)@
                    });
                }
                return false;
            },
            Some(task) => task,
        };
        let previous = self.executing;
        self.executing = Some(task_id);
        proof {
            assert(self@ =~= old(self)@.started(task_id));
        }
        let output = task.execute(self);
        let ghost after = self@;
        self.executing = previous;
        let pending_again = self.pending.contains_key(&id);
        proof {
            assert(self@ =~= SchedulerView { executing: previous, ..after });
        }
        match output {
            Some(result) => {
                if !pending_again {
                    self.results.insert(id, result);
                }
                proof {
                    assert(self@ =~= after.finished(task_id, previous, Some(result)));
                }
            },
            None => {
                proof {
                    assert(self@ =~= after.finished(task_id, previous, None));
                }
            },
        }
        true
    }
}

/// Defers an event: it is scheduled for a component at the present time, once the
/// event that is being processed is done.
pub fn defer_wake<P, T, R>(scheduler: &mut Scheduler<P, T, R>, component: Key<P>, event: P)
    requires
        old(scheduler).wf(),
    ensures
        final(scheduler).wf(),
        final(scheduler).clock_cell() == old(scheduler).clock_cell(),
        final(scheduler)@ == old(scheduler)@.with_deferred(
            DeferredWake { component, delay: SimTime(0), event },
        ),
{
    defer_wake_after(scheduler, SimTime::zero(), component, event);
}

/// Defers an event like `defer_wake`, to be scheduled `delay` from then.
pub fn defer_wake_after<P, T, R>(
    scheduler: &mut Scheduler<P, T, R>,
    delay: SimTime,
    component: Key<P>,
    event: P,
)
    requires
        old(scheduler).wf(),
    ensures
        final(scheduler).wf(),
        final(scheduler).clock_cell() == old(scheduler).clock_cell(),
        final(scheduler)@ == old(scheduler)@.with_deferred(
            DeferredWake { component, delay, event },
        ),
{
    scheduler.deferred.push_back(DeferredWake { component, delay, event });
    proof {
        assert(scheduler@ =~= old(scheduler)@.with_deferred(
            DeferredWake { component, delay, event },
        ));
    }
}

/// Schedules the deferred events in their order. Should the event numbers run
/// out, the rest stays deferred.
pub fn drain_deferred_wakes<P, T, R>(scheduler: &mut Scheduler<P, T, R>)
    requires
        old(scheduler).wf(),
    ensures
        final(scheduler).wf(),
        final(scheduler).clock_cell() == old(scheduler).clock_cell(),
        final(scheduler)@ == old(scheduler)@.drained(),
        final(scheduler)@.budget() <= old(scheduler)@.budget(),
{
    loop
        invariant
            scheduler.wf(),
            scheduler.clock_cell() == old(scheduler).clock_cell(),
            scheduler@.drained() == old(scheduler)@.drained(),
            scheduler@.budget() <= old(scheduler)@.budget(),
        decreases scheduler@.deferred.len(),
    {
        let ghost before = scheduler@;
        if !scheduler.can_schedule() {
            return;
        }
        match scheduler.deferred.pop_front() {
            None => {
                proof {
                    assert(scheduler@ =~= before);
                }
                return;
            },
            Some(wake) => {
                let ghost held = scheduler@;
                proof {
                    assert(held =~= SchedulerView {
                        deferred: before.deferred.drop_first(),
                        ..before
                    });
                }
                scheduler.schedule(wake.delay, wake.component, wake.event);
                proof {
                    assert(scheduler@ =~= SchedulerView {
                        deferred: before.deferred.drop_first(),
                        ..before.scheduled(wake.delay.0, wake.component.id, wake.event)
                    });
                }
            },
        }
    }
}

/// Whether an event is being processed.
pub fn in_scheduler_context<P, T, R>(scheduler: &Scheduler<P, T, R>) -> (inside: bool)
    ensures
        inside == scheduler@.in_event,
{
    scheduler.in_event
}

/// The time of the event that is being processed.
pub fn current_time<P, T, R>(scheduler: &Scheduler<P, T, R>) -> (time: Option<SimTime>)
    ensures
        time == scheduler@.event_time(),
{
    if scheduler.in_event {
        Some(scheduler.now)
    } else {
        None
    }
}

/// Marks the beginning of the processing of an event.
pub fn set_scheduler_context<P, T, R>(scheduler: &mut Scheduler<P, T, R>)
    requires
        old(scheduler).wf(),
    ensures
        final(scheduler).wf(),
        final(scheduler).clock_cell() == old(scheduler).clock_cell(),
        final(scheduler)@ == (SchedulerView { in_event: true, ..old(scheduler)@ }),
{
    scheduler.in_event = true;
    proof {
        assert(scheduler@ =~= SchedulerView { in_event: true, ..old(scheduler)@ });
    }
}

/// Marks the end of the processing of an event.
pub fn clear_scheduler_context<P, T, R>(scheduler: &mut Scheduler<P, T, R>)
    requires
        old(scheduler).wf(),
    ensures
        final(scheduler).wf(),
        final(scheduler).clock_cell() == old(scheduler).clock_cell(),
        final(scheduler)@ == (SchedulerView { in_event: false, ..old(scheduler)@ }),
{
    scheduler.in_event = false;
    proof {
        assert(scheduler@ =~= SchedulerView { in_event: false, ..old(scheduler)@ });
    }
}

} // verus!
