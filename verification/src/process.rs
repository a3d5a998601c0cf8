//! Processes that wait for events or for a time.

use crate::time::SimTime;
use crate::types::EventId;
use vstd::prelude::*;

verus! {

/// What identifies a process.
#[derive(Debug, Clone, Copy, PartialEq, Eq, Structural, Hash)]
pub struct ProcessId(pub u64);

/// The processes of an environment, and what they wait for.
pub struct ProcessManager<P> {
    processes: Vec<P>,
    time_waiters: Vec<(ProcessId, SimTime)>,
    event_waiters: Vec<(ProcessId, EventId)>,
}

/// The processes, and those that wait, in the order in which they came.
#[verifier::ext_equal]
pub struct ProcessesView<P> {
    pub processes: Seq<P>,
    pub time_waiters: Seq<(ProcessId, SimTime)>,
    pub event_waiters: Seq<(ProcessId, EventId)>,
}

impl<P> View for ProcessManager<P> {
    type V = ProcessesView<P>;

    closed spec fn view(&self) -> ProcessesView<P> {
        ProcessesView {
            processes: self.processes@,
            time_waiters: self.time_waiters@,
            event_waiters: self.event_waiters@,
        }
    }
}

/// Waiting for a time that is still to come.
pub open spec fn later_than(now: SimTime) -> spec_fn((ProcessId, SimTime)) -> bool {
    |w: (ProcessId, SimTime)| w.1.0 > now.0
}

/// Waiting for another event.
pub open spec fn other_than(event: EventId) -> spec_fn((ProcessId, EventId)) -> bool {
    |w: (ProcessId, EventId)| w.1 != event
}

/// Those of some waiters whose time is still to come.
pub open spec fn waiting_past(waiters: Seq<(ProcessId, SimTime)>, now: SimTime) -> Seq<
    (ProcessId, SimTime),
> {
    waiters.filter(later_than(now))
}

/// Those of some waiters that wait for other events.
pub open spec fn waiting_for_others(waiters: Seq<(ProcessId, EventId)>, event: EventId) -> Seq<
    (ProcessId, EventId),
> {
    waiters.filter(other_than(event))
}

/// Whether a process waits for an event.
pub open spec fn is_awaited(waiters: Seq<(ProcessId, EventId)>, event: EventId) -> bool {
    exists|i: int| 0 <= i < waiters.len() && (#[trigger] waiters[i]).1 == event
}

impl<P> ProcessesView<P> {
    /// The processes after those were woken whose time has come.
    pub open spec fn woken_by_time(self, now: SimTime) -> Self {
        ProcessesView { time_waiters: waiting_past(self.time_waiters, now), ..self }
    }

    /// The processes after those were woken that waited for an event.
    pub open spec fn woken_by_event(self, event: EventId) -> Self {
        ProcessesView { event_waiters: waiting_for_others(self.event_waiters, event), ..self }
    }
}

impl<P> ProcessManager<P> {
    /// No processes.
    pub fn new() -> (manager: Self)
        ensures
            manager@ == (ProcessesView::<P> {
                processes: Seq::empty(),
                time_waiters: Seq::empty(),
                event_waiters: Seq::empty(),
            }),
    {
        ProcessManager {
            processes: Vec::new(),
            time_waiters: Vec::new(),
            event_waiters: Vec::new(),
        }
    }

    /// Adds a process under the next number.
    pub fn register_process(&mut self, process: P) -> (id: ProcessId)
        ensures
            id.0 == old(self)@.processes.len(),
            final(self)@ == (ProcessesView {
                processes: old(self)@.processes.push(process),
                ..old(self)@
            }),
    {
        let id = ProcessId(self.processes.len() as u64);
        self.processes.push(process);
        id
    }

    /// How many processes there are.
    pub fn active_count(&self) -> (count: usize)
        ensures
            count == self@.processes.len(),
    {
        self.processes.len()
    }

    /// Lets a process wait for a time.
    pub fn wait_for_time(&mut self, process: ProcessId, time: SimTime)
        ensures
            final(self)@ == (ProcessesView {
                time_waiters: old(self)@.time_waiters.push((process, time)),
                ..old(self)@
            }),
    {
        self.time_waiters.push((process, time));
    }

    /// Lets a process wait for an event.
    pub fn wait_for_event(&mut self, process: ProcessId, event: EventId)
        ensures
            final(self)@ == (ProcessesView {
                event_waiters: old(self)@.event_waiters.push((process, event)),
                ..old(self)@
            }),
    {
        self.event_waiters.push((process, event));
    }

    /// How many processes wait for a time.
    pub fn time_waiters_count(&self) -> (count: usize)
        ensures
            count == self@.time_waiters.len(),
    {
        self.time_waiters.len()
    }

    /// Whether a process waits for an event.
    pub fn has_event_waiter(&self, event: EventId) -> (has: bool)
        ensures
            has == is_awaited(self@.event_waiters, event),
    {
        let mut i: usize = 0;
        while i < self.event_waiters.len()
            invariant
                i <= self.event_waiters@.len(),
                forall|k: int| 0 <= k < i ==> (#[trigger] self.event_waiters@[k]).1 != event,
            decreases self.event_waiters@.len() - i,
        {
            if self.event_waiters[i].1 == event {
                return true;
            }
            i = i + 1;
        }
        false
    }

    /// Wakes the processes whose time has come.
    pub fn wake_time_waiters(&mut self, now: SimTime)
        ensures
            final(self)@ == old(self)@.woken_by_time(now),
    {
        let ghost before = self.time_waiters@;
        let mut left: Vec<(ProcessId, SimTime)> = Vec::new();
        let mut i: usize = 0;
        proof {
            reveal(Seq::filter);
        }
        while i < self.time_waiters.len()
            invariant
                *self == *old(self),
                before == self.time_waiters@,
                i <= before.len(),
                left@ == waiting_past(before.take(i as int), now),
            decreases before.len() - i,
        {
            let waiter = self.time_waiters[i];
            proof {
                reveal(Seq::filter);
                assert(before.take(i + 1).drop_last() =~= before.take(i as int));
                assert(before.take(i + 1).last() == waiter);
            }
            if waiter.1.0 > now.0 {
                left.push(waiter);
            }
            i = i + 1;
        }
        proof {
            assert(before.take(i as int) =~= before);
        }
        self.time_waiters = left;
    }

    /// Wakes the processes that wait for an event.
    pub fn wake_event_waiters(&mut self, event: EventId)
        ensures
            final(self)@ == old(self)@.woken_by_event(event),
    {
        let ghost before = self.event_waiters@;
        let mut left: Vec<(ProcessId, EventId)> = Vec::new();
        let mut i: usize = 0;
        proof {
            reveal(Seq::filter);
        }
        while i < self.event_waiters.len()
            invariant
                *self == *old(self),
                before == self.event_waiters@,
                i <= before.len(),
                left@ == waiting_for_others(before.take(i as int), event),
            decreases before.len() - i,
        {
            let waiter = self.event_waiters[i];
            proof {
                reveal(Seq::filter);
                assert(before.take(i + 1).drop_last() =~= before.take(i as int));
                assert(before.take(i + 1).last() == waiter);
            }
            if waiter.1 != event {
                left.push(waiter);
            }
            i = i + 1;
        }
        proof {
            assert(before.take(i as int) =~= before);
        }
        self.event_waiters = left;
    }
}

/// Nothing waits for an event or a time any more after those that did were woken, and
/// the others wait on.
pub proof fn woken_waiters_are_gone<P>(v: ProcessesView<P>, now: SimTime, event: EventId)
    ensures
        forall|i: int|
            0 <= i < v.woken_by_time(now).time_waiters.len() ==> (
            #[trigger] v.woken_by_time(now).time_waiters[i]).1.0 > now.0,
        !is_awaited(v.woken_by_event(event).event_waiters, event),
        forall|w: (ProcessId, SimTime)|
            w.1.0 > now.0 ==> (#[trigger] v.woken_by_time(now).time_waiters.contains(w)
                <==> v.time_waiters.contains(w)),
        forall|w: (ProcessId, EventId)|
            w.1 != event ==> (#[trigger] v.woken_by_event(event).event_waiters.contains(w)
                <==> v.event_waiters.contains(w)),
{
    let p = later_than(now);
    let q = other_than(event);
    let times = v.time_waiters.filter(p);
    let events = v.event_waiters.filter(q);
    assert forall|i: int| 0 <= i < times.len() implies (#[trigger] times[i]).1.0 > now.0 by {
        assert(times.contains(times[i]));
        lemma_filter_holds(v.time_waiters, p, times[i]);
    }
    assert forall|i: int| 0 <= i < events.len() implies (#[trigger] events[i]).1 != event by {
        assert(events.contains(events[i]));
        lemma_filter_holds(v.event_waiters, q, events[i]);
    }
    assert forall|w: (ProcessId, SimTime)| w.1.0 > now.0 implies (#[trigger] times.contains(w)
        <==> v.time_waiters.contains(w)) by {
        lemma_filter_holds(v.time_waiters, p, w);
    }
    assert forall|w: (ProcessId, EventId)| w.1 != event implies (#[trigger] events.contains(w)
        <==> v.event_waiters.contains(w)) by {
        lemma_filter_holds(v.event_waiters, q, w);
    }
}

proof fn lemma_filter_holds<A>(s: Seq<A>, p: spec_fn(A) -> bool, w: A)
    ensures
        s.filter(p).contains(w) <==> s.contains(w) && p(w),
    decreases s.len(),
{
    reveal(Seq::filter);
    if s.len() > 0 {
        let front = s.drop_last();
        lemma_filter_holds(front, p, w);
        assert(s.contains(w) <==> front.contains(w) || s.last() == w) by {
            if s.contains(w) {
                let i = choose|i: int| 0 <= i < s.len() && s[i] == w;
                if i < front.len() {
                    assert(front[i] == w);
                }
            }
            if front.contains(w) {
                let i = choose|i: int| 0 <= i < front.len() && front[i] == w;
                assert(s[i] == w);
            }
            assert(s[s.len() - 1] == s.last());
        }
        let kept = front.filter(p);
        if p(s.last()) {
            let all = kept.push(s.last());
            assert(all.contains(w) <==> kept.contains(w) || s.last() == w) by {
                if all.contains(w) {
                    let i = choose|i: int| 0 <= i < all.len() && all[i] == w;
                    if i < kept.len() {
                        assert(kept[i] == w);
                    }
                }
                if kept.contains(w) {
                    let i = choose|i: int| 0 <= i < kept.len() && kept[i] == w;
                    assert(all[i] == w);
                }
                assert(all[kept.len() as int] == s.last());
            }
        }
    }
}

} // verus!
