//! An environment that advances time from event to event and wakes processes.

use crate::error::{EventError, SimError};
use crate::process::{ProcessId, ProcessManager, ProcessesView};
use crate::time::SimTime;
use crate::types::EventId;
use std::time::Duration;
use vstd::prelude::*;

verus! {

/// What an event carries.
#[derive(Debug, Clone, Copy, PartialEq, Eq, Structural)]
pub enum EventPayload {
    Generic,
}

/// An event of an environment.
#[derive(Debug, Clone, Copy, PartialEq, Eq, Structural)]
pub struct ScheduledEvent {
    pub id: EventId,
    pub time: SimTime,
    pub payload: EventPayload,
}

impl ScheduledEvent {
    pub fn id(&self) -> (id: EventId)
        ensures
            id == self.id,
    {
        self.id
    }

    pub fn time(&self) -> (time: SimTime)
        ensures
            time == self.time,
    {
        self.time
    }
}

/// Whether one event comes before another: by time, and at the same time in the order in
/// which they were scheduled.
pub open spec fn comes_before(a: ScheduledEvent, b: ScheduledEvent) -> bool {
    a.time.0 < b.time.0 || (a.time.0 == b.time.0 && a.id.0 < b.id.0)
}

/// Whether events are in order.
pub open spec fn events_in_order(events: Seq<ScheduledEvent>) -> bool {
    forall|i: int, j: int|
        0 <= i < j < events.len() ==> comes_before(#[trigger] events[i], #[trigger] events[j])
}

/// Where an event goes that is scheduled after others: behind all that are not later.
pub open spec fn event_place(events: Seq<ScheduledEvent>, time: SimTime) -> int
    decreases events.len(),
{
    if events.len() == 0 || events[0].time.0 > time.0 {
        0
    } else {
        1 + event_place(events.drop_first(), time)
    }
}

/// The queue of an environment.
pub struct EventScheduler {
    events: Vec<ScheduledEvent>,
    next_event_id: u64,
}

/// The events in their order, and the number of the next one.
#[verifier::ext_equal]
pub struct EventSchedulerView {
    pub events: Seq<ScheduledEvent>,
    pub next_event_id: u64,
}

impl View for EventScheduler {
    type V = EventSchedulerView;

    closed spec fn view(&self) -> EventSchedulerView {
        EventSchedulerView { events: self.events@, next_event_id: self.next_event_id }
    }
}

impl EventSchedulerView {
    pub open spec fn wf(self) -> bool {
        &&& events_in_order(self.events)
        &&& forall|i: int|
            0 <= i < self.events.len() ==> (#[trigger] self.events[i]).id.0 < self.next_event_id
    }

    /// The queue with one more event.
    pub open spec fn scheduled(self, time: SimTime, payload: EventPayload) -> Self {
        EventSchedulerView {
            events: self.events.insert(
                event_place(self.events, time),
                ScheduledEvent { id: EventId(self.next_event_id), time, payload },
            ),
            next_event_id: (self.next_event_id + 1) as u64,
        }
    }
}

proof fn lemma_event_place(events: Seq<ScheduledEvent>, time: SimTime, p: int)
    requires
        0 <= p <= events.len(),
        forall|i: int| 0 <= i < p ==> (#[trigger] events[i]).time.0 <= time.0,
        p < events.len() ==> events[p].time.0 > time.0,
    ensures
        event_place(events, time) == p,
    decreases events.len(),
{
    if p > 0 {
        assert(events[0].time.0 <= time.0);
        let rest = events.drop_first();
        assert forall|i: int| 0 <= i < p - 1 implies (#[trigger] rest[i]).time.0 <= time.0 by {
            assert(rest[i] == events[i + 1]);
        }
        lemma_event_place(rest, time, p - 1);
    }
}

impl EventScheduler {
    /// An empty queue.
    pub fn new() -> (scheduler: Self)
        ensures
            scheduler@ == (EventSchedulerView { events: Seq::empty(), next_event_id: 0 }),
            scheduler@.wf(),
    {
        EventScheduler { events: Vec::new(), next_event_id: 0 }
    }

    /// Adds an event.
    pub fn schedule(&mut self, time: SimTime, payload: EventPayload) -> (id: EventId)
        requires
            old(self)@.wf(),
            old(self)@.next_event_id < u64::MAX,
        ensures
            id == EventId(old(self)@.next_event_id),
            final(self)@ == old(self)@.scheduled(time, payload),
            final(self)@.wf(),
    {
        let id = EventId(self.next_event_id);
        let event = ScheduledEvent { id, time, payload };
        let mut p: usize = 0;
        while p < self.events.len() && self.events[p].time.0 <= time.0
            invariant
                p <= self.events@.len(),
                forall|i: int| 0 <= i < p ==> (#[trigger] self.events@[i]).time.0 <= time.0,
            decreases self.events@.len() - p,
        {
            p = p + 1;
        }
        let ghost before = self.events@;
        proof {
            lemma_event_place(before, time, p as int);
        }
        self.events.insert(p, event);
        self.next_event_id = self.next_event_id + 1;
        proof {
            let after = self.events@;
            assert forall|i: int, j: int| 0 <= i < j < after.len() implies comes_before(
                #[trigger] after[i],
                #[trigger] after[j],
            ) by {
                let a = if i < p {
                    i
                } else {
                    i - 1
                };
                let b = if j < p {
                    j
                } else {
                    j - 1
                };
                if i != p {
                    assert(after[i] == before[a]);
                }
                if j != p {
                    assert(after[j] == before[b]);
                    if p < before.len() {
                        assert(b > p ==> comes_before(before[p as int], before[b]));
                    }
                }
            }
            assert forall|i: int| 0 <= i < after.len() implies (#[trigger] after[i]).id.0
                < self.next_event_id by {
                if i < p {
                    assert(after[i] == before[i]);
                } else if i > p {
                    assert(after[i] == before[i - 1]);
                }
            }
        }
        id
    }

    /// The event that comes next.
    pub fn peek_next(&self) -> (event: Option<&ScheduledEvent>)
        ensures
            event == if self@.events.len() == 0 {
                None
            } else {
                Some(&self@.events[0])
            },
    {
        if self.events.len() == 0 {
            None
        } else {
            Some(&self.events[0])
        }
    }

    /// Takes the event that comes next.
    pub fn pop_next(&mut self) -> (event: Result<ScheduledEvent, EventError>)
        requires
            old(self)@.wf(),
        ensures
            old(self)@.events.len() == 0 ==> event == Err::<ScheduledEvent, _>(
                EventError::EmptyQueue,
            ) && final(self)@ == old(self)@,
            old(self)@.events.len() > 0 ==> event == Ok::<_, EventError>(old(self)@.events[0])
                && final(self)@ == (EventSchedulerView {
                events: old(self)@.events.drop_first(),
                ..old(self)@
            }),
            final(self)@.wf(),
    {
        if self.events.len() == 0 {
            return Err(EventError::EmptyQueue);
        }
        let ghost before = self.events@;
        let event = self.events.remove(0);
        proof {
            assert(self.events@ =~= before.drop_first());
            assert forall|i: int, j: int| 0 <= i < j < self.events@.len() implies comes_before(
                #[trigger] self.events@[i],
                #[trigger] self.events@[j],
            ) by {
                assert(self.events@[i] == before[i + 1] && self.events@[j] == before[j + 1]);
            }
            assert forall|i: int| 0 <= i < self.events@.len() implies (
            #[trigger] self.events@[i]).id.0 < self.next_event_id by {
                assert(self.events@[i] == before[i + 1]);
            }
        }
        Ok(event)
    }

    pub fn is_empty(&self) -> (empty: bool)
        ensures
            empty == (self@.events.len() == 0),
    {
        self.events.len() == 0
    }
}

/// Coordinates time, events and processes.
pub struct Environment<P> {
    current_time: SimTime,
    scheduler: EventScheduler,
    process_manager: ProcessManager<P>,
}

#[verifier::ext_equal]
pub struct EnvironmentView<P> {
    pub now: SimTime,
    pub queue: EventSchedulerView,
    pub processes: ProcessesView<P>,
}

impl<P> View for Environment<P> {
    type V = EnvironmentView<P>;

    closed spec fn view(&self) -> EnvironmentView<P> {
        EnvironmentView {
            now: self.current_time,
            queue: self.scheduler@,
            processes: self.process_manager@,
        }
    }
}

impl<P> EnvironmentView<P> {
    /// No event is in the past.
    pub open spec fn wf(self) -> bool {
        &&& self.queue.wf()
        &&& forall|i: int|
            0 <= i < self.queue.events.len() ==> self.now.0 <= (
            #[trigger] self.queue.events[i]).time.0
    }

    /// The environment after its next event: time advances to it, and the processes are
    /// woken that wait for it or whose time has come.
    pub open spec fn processed(self) -> Self {
        let event = self.queue.events[0];
        EnvironmentView {
            now: event.time,
            queue: EventSchedulerView { events: self.queue.events.drop_first(), ..self.queue },
            processes: self.processes.woken_by_event(event.id).woken_by_time(event.time),
        }
    }

    /// The environment after all events up to a time, or all events.
    pub open spec fn run_events(self, until: Option<SimTime>) -> Self
        decreases self.queue.events.len(),
    {
        if self.queue.events.len() > 0 && (until is None || self.queue.events[0].time.0
            <= (until->0).0) {
            self.processed().run_events(until)
        } else {
            self
        }
    }

    /// The environment at a time, if it is still to come.
    pub open spec fn advanced(self, until: SimTime) -> Self {
        if self.now.0 < until.0 {
            EnvironmentView {
                now: until,
                processes: self.processes.woken_by_time(until),
                ..self
            }
        } else {
            self
        }
    }
}

impl<P> Environment<P> {
    /// An environment at time zero, without events and processes.
    pub fn new() -> (env: Self)
        ensures
            env@.wf(),
            env@ == (EnvironmentView::<P> {
                now: SimTime(0),
                queue: EventSchedulerView { events: Seq::empty(), next_event_id: 0 },
                processes: ProcessesView {
                    processes: Seq::empty(),
                    time_waiters: Seq::empty(),
                    event_waiters: Seq::empty(),
                },
            }),
    {
        Environment {
            current_time: SimTime::zero(),
            scheduler: EventScheduler::new(),
            process_manager: ProcessManager::new(),
        }
    }

    /// The current time.
    pub fn now(&self) -> (now: SimTime)
        ensures
            now == self@.now,
    {
        self.current_time
    }

    /// Schedules an event after a delay.
    pub fn schedule(&mut self, delay: Duration, payload: EventPayload) -> (id: EventId)
        requires
            old(self)@.wf(),
            old(self)@.queue.next_event_id < u64::MAX,
        ensures
            final(self)@.wf(),
            id == EventId(old(self)@.queue.next_event_id),
            final(self)@ == (EnvironmentView {
                queue: old(self)@.queue.scheduled(
                    SimTime(
                        old(self)@.now.0.saturating_add(
                            crate::duration::low_nanos(crate::duration::duration_nanos(delay)),
                        ),
                    ),
                    payload,
                ),
                ..old(self)@
            }),
    {
        let event_time = self.current_time.add_duration(delay);
        let ghost before = self@.queue.events;
        let id = self.scheduler.schedule(event_time, payload);
        proof {
            let after = self@.queue.events;
            let p = event_place(before, event_time);
            lemma_event_place_range(before, event_time);
            assert forall|i: int| 0 <= i < after.len() implies self@.now.0 <= (
            #[trigger] after[i]).time.0 by {
                if i < p {
                    assert(after[i] == before[i]);
                } else if i > p {
                    assert(after[i] == before[i - 1]);
                }
            }
        }
        id
    }

    /// Adds a process.
    pub fn spawn_process(&mut self, process: P) -> (id: ProcessId)
        requires
            old(self)@.wf(),
        ensures
            final(self)@.wf(),
            id.0 == old(self)@.processes.processes.len(),
            final(self)@ == (EnvironmentView {
                processes: ProcessesView {
                    processes: old(self)@.processes.processes.push(process),
                    ..old(self)@.processes
                },
                ..old(self)@
            }),
    {
        self.process_manager.register_process(process)
    }

    /// The processes.
    pub fn process_manager(&self) -> (manager: &ProcessManager<P>)
        ensures
            manager@ == self@.processes,
    {
        &self.process_manager
    }

    /// The processes, to change what they wait for.
    pub fn process_manager_mut(&mut self) -> (manager: &mut ProcessManager<P>)
        ensures
            manager@ == old(self)@.processes,
            final(self)@ == (EnvironmentView { processes: final(manager)@, ..old(self)@ }),
    {
        &mut self.process_manager
    }

    /// Processes the next event.
    fn process_next(&mut self) -> (processed: Result<(), SimError>)
        requires
            old(self)@.wf(),
            old(self)@.queue.events.len() > 0,
        ensures
            processed is Ok,
            final(self)@.wf(),
            final(self)@ == old(self)@.processed(),
    {
        let ghost before = self@.queue.events;
        let event = match self.scheduler.pop_next() {
            Ok(event) => event,
            Err(e) => {
                return Err(SimError::from(e));
            },
        };
        self.current_time = event.time();
        self.process_manager.wake_event_waiters(event.id());
        self.process_manager.wake_time_waiters(self.current_time);
        proof {
            assert forall|i: int| 0 <= i < self@.queue.events.len() implies self@.now.0 <= (
            #[trigger] self@.queue.events[i]).time.0 by {
                assert(self@.queue.events[i] == before[i + 1]);
                assert(comes_before(before[0], before[i + 1]));
            }
        }
        Ok(())
    }

    /// Processes all events up to a time, that time included. Afterwards it is that
    /// time, or later if it was before.
    pub fn run_until(&mut self, until: SimTime) -> (ran: Result<(), SimError>)
        requires
            old(self)@.wf(),
        ensures
            ran is Ok,
            final(self)@.wf(),
            final(self)@ == old(self)@.run_events(Some(until)).advanced(until),
    {
        let mut due = self.is_due(until);
        while due
            invariant
                self@.wf(),
                due == (self@.queue.events.len() > 0 && self@.queue.events[0].time.0 <= until.0),
                self@.run_events(Some(until)) == old(self)@.run_events(Some(until)),
            decreases self@.queue.events.len(),
        {
            match self.process_next() {
                Ok(()) => {},
                Err(e) => {
                    return Err(e);
                },
            }
            due = self.is_due(until);
        }
        let ghost before = self@;
        proof {
            assert(before == old(self)@.run_events(Some(until)));
        }
        if self.current_time < until {
            self.current_time = until;
            self.process_manager.wake_time_waiters(self.current_time);
            proof {
                assert(before.queue.events.len() > 0 ==> before.queue.events[0].time.0 > until.0);
                assert forall|i: int| 0 <= i < self@.queue.events.len() implies self@.now.0 <= (
                #[trigger] self@.queue.events[i]).time.0 by {
                    assert(self@.queue.events[i] == before.queue.events[i]);
                    if i > 0 {
                        assert(comes_before(before.queue.events[0], before.queue.events[i]));
                    }
                }
            }
        }
        Ok(())
    }

    fn is_due(&self, until: SimTime) -> (due: bool)
        ensures
            due == (self@.queue.events.len() > 0 && self@.queue.events[0].time.0 <= until.0),
    {
        match self.scheduler.peek_next() {
            Some(event) => event.time().0 <= until.0,
            None => false,
        }
    }

    /// Processes all events. Afterwards it is the time of the last one.
    pub fn run(&mut self) -> (ran: Result<(), SimError>)
        requires
            old(self)@.wf(),
        ensures
            ran is Ok,
            final(self)@.wf(),
            final(self)@ == old(self)@.run_events(None),
    {
        while !self.scheduler.is_empty()
            invariant
                self@.wf(),
                self@.run_events(None) == old(self)@.run_events(None),
            decreases self@.queue.events.len(),
        {
            match self.process_next() {
                Ok(()) => {},
                Err(e) => {
                    return Err(e);
                },
            }
        }
        Ok(())
    }
}

impl<P> Default for Environment<P> {
    fn default() -> (env: Self)
        ensures
            env@.wf(),
            env@ == (EnvironmentView::<P> {
                now: SimTime(0),
                queue: EventSchedulerView { events: Seq::empty(), next_event_id: 0 },
                processes: ProcessesView {
                    processes: Seq::empty(),
                    time_waiters: Seq::empty(),
                    event_waiters: Seq::empty(),
                },
            }),
    {
        Environment::new()
    }
}

proof fn lemma_event_place_range(events: Seq<ScheduledEvent>, time: SimTime)
    ensures
        0 <= event_place(events, time) <= events.len(),
    decreases events.len(),
{
    if events.len() > 0 && events[0].time.0 <= time.0 {
        lemma_event_place_range(events.drop_first(), time);
    }
}

/// Running up to a time leaves exactly the events that are later, and it is not before
/// that time any more.
pub proof fn run_until_leaves_later_events<P>(v: EnvironmentView<P>, until: SimTime)
    requires
        v.wf(),
    ensures
        ({
            let after = v.run_events(Some(until)).advanced(until);
            &&& after.now.0 >= until.0
            &&& after.now.0 >= v.now.0
            &&& v.now.0 <= until.0 ==> after.now == until
            &&& forall|e: ScheduledEvent| #[trigger]
                after.queue.events.contains(e) <==> v.queue.events.contains(e) && e.time.0
                    > until.0
        }),
{
    lemma_run_events(v, Some(until));
    let ran = v.run_events(Some(until));
    assert forall|e: ScheduledEvent| #[trigger] ran.queue.events.contains(
        e,
    ) <==> v.queue.events.contains(e) && e.time.0 > until.0 by {}
}

/// Running without an end leaves no event and no process that waits for one of them. It
/// is the time of the last event then.
pub proof fn run_leaves_no_events<P>(v: EnvironmentView<P>)
    requires
        v.wf(),
    ensures
        ({
            let after = v.run_events(None);
            &&& after.queue.events.len() == 0
            &&& v.queue.events.len() == 0 ==> after == v
            &&& v.queue.events.len() > 0 ==> after.now == v.queue.events.last().time
            &&& forall|i: int|
                0 <= i < v.queue.events.len() ==> !crate::process::is_awaited(
                    after.processes.event_waiters,
                    (#[trigger] v.queue.events[i]).id,
                )
        }),
{
    lemma_run_events(v, None);
    let after = v.run_events(None);
    if after.queue.events.len() > 0 {
        assert(after.queue.events.contains(after.queue.events[0]));
    }
    lemma_run_wakes(v);
}

spec fn is_late(e: ScheduledEvent, until: Option<SimTime>) -> bool {
    until is Some && e.time.0 > (until->0).0
}

proof fn lemma_run_events<P>(v: EnvironmentView<P>, until: Option<SimTime>)
    requires
        v.wf(),
    ensures
        v.run_events(until).wf(),
        v.run_events(until).now.0 >= v.now.0,
        until is Some && v.now.0 <= (until->0).0 ==> v.run_events(until).now.0 <= (until->0).0,
        forall|e: ScheduledEvent| #[trigger]
            v.run_events(until).queue.events.contains(e) <==> v.queue.events.contains(e) && is_late(
                e,
                until,
            ),
        until is Some && v.now.0 > (until->0).0 ==> v.run_events(until) == v,
    decreases v.queue.events.len(),
{
    let events = v.queue.events;
    if events.len() > 0 && (until is None || events[0].time.0 <= (until->0).0) {
        let next = v.processed();
        let rest = events.drop_first();
        assert forall|i: int, j: int| 0 <= i < j < rest.len() implies comes_before(
            #[trigger] rest[i],
            #[trigger] rest[j],
        ) by {
            assert(rest[i] == events[i + 1] && rest[j] == events[j + 1]);
        }
        assert forall|i: int| 0 <= i < rest.len() implies (#[trigger] rest[i]).id.0
            < v.queue.next_event_id && next.now.0 <= rest[i].time.0 by {
            assert(rest[i] == events[i + 1]);
            assert(comes_before(events[0], events[i + 1]));
        }
        lemma_run_events(next, until);
        assert forall|e: ScheduledEvent| #[trigger] v.run_events(until).queue.events.contains(
            e,
        ) <==> events.contains(e) && is_late(e, until) by {
            if events.contains(e) && is_late(e, until) {
                let i = choose|i: int| 0 <= i < events.len() && events[i] == e;
                assert(i > 0);
                assert(rest[i - 1] == e);
            }
            if rest.contains(e) {
                let i = choose|i: int| 0 <= i < rest.len() && rest[i] == e;
                assert(events[i + 1] == e);
            }
        }
        assert(v.now.0 <= events[0].time.0);
    } else {
        assert forall|e: ScheduledEvent| #[trigger] events.contains(e) <==> events.contains(e)
            && is_late(e, until) by {
            if events.contains(e) {
                let i = choose|i: int| 0 <= i < events.len() && events[i] == e;
                if i > 0 {
                    assert(comes_before(events[0], events[i]));
                }
            }
        }
        if events.len() > 0 {
            assert(v.now.0 <= events[0].time.0);
        }
    }
}

proof fn lemma_run_wakes<P>(v: EnvironmentView<P>)
    requires
        v.wf(),
    ensures
        forall|e: EventId| #[trigger]
            crate::process::is_awaited(v.run_events(None).processes.event_waiters, e)
                ==> crate::process::is_awaited(v.processes.event_waiters, e) && forall|i: int|
                0 <= i < v.queue.events.len() ==> (#[trigger] v.queue.events[i]).id != e,
        v.queue.events.len() > 0 ==> v.run_events(None).now == v.queue.events.last().time,
    decreases v.queue.events.len(),
{
    let events = v.queue.events;
    if events.len() > 0 {
        let next = v.processed();
        let rest = events.drop_first();
        assert forall|i: int, j: int| 0 <= i < j < rest.len() implies comes_before(
            #[trigger] rest[i],
            #[trigger] rest[j],
        ) by {
            assert(rest[i] == events[i + 1] && rest[j] == events[j + 1]);
        }
        assert forall|i: int| 0 <= i < rest.len() implies (#[trigger] rest[i]).id.0
            < v.queue.next_event_id && next.now.0 <= rest[i].time.0 by {
            assert(rest[i] == events[i + 1]);
            assert(comes_before(events[0], events[i + 1]));
        }
        lemma_run_wakes(next);
        let woken = v.processes.woken_by_event(events[0].id);
        crate::process::woken_waiters_are_gone(v.processes, events[0].time, events[0].id);
        assert forall|e: EventId| #[trigger]
            crate::process::is_awaited(v.run_events(None).processes.event_waiters, e) implies
            crate::process::is_awaited(v.processes.event_waiters, e) && forall|i: int|
            0 <= i < events.len() ==> (#[trigger] events[i]).id != e by {
            assert(crate::process::is_awaited(woken.event_waiters, e));
            assert(e != events[0].id);
            let k = choose|k: int|
                0 <= k < woken.event_waiters.len() && (#[trigger] woken.event_waiters[k]).1 == e;
            let w = woken.event_waiters[k];
            assert(woken.event_waiters.contains(w));
            assert(v.processes.event_waiters.contains(w));
            let n = choose|n: int|
                0 <= n < v.processes.event_waiters.len() && v.processes.event_waiters[n] == w;
            assert(v.processes.event_waiters[n].1 == e);
            assert forall|i: int| 0 <= i < events.len() implies (#[trigger] events[i]).id != e by {
                if i > 0 {
                    assert(rest[i - 1] == events[i]);
                }
            }
        }
        if rest.len() == 0 {
            assert(next.run_events(None) == next);
        } else {
            assert(rest.last() == events.last());
        }
    }
}

} // verus!
