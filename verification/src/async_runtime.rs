//! A runtime for async tasks in simulation time.

use crate::key::Key;
use crate::ready_policy::TaskId;
use crate::scheduler::DeferredWake;
use crate::time::SimTime;
use std::collections::VecDeque;
use std::time::Duration;
use vstd::prelude::*;

verus! {

/// The events of a runtime.
#[derive(Debug, Clone, Copy, PartialEq, Eq, Structural)]
pub enum RuntimeEvent {
    Poll,
    Wake { task_id: TaskId },
    Cancel { task_id: TaskId },
    RegisterTimer { task_id: TaskId, deadline: SimTime },
    TimerTick,
}

/// The events of a simulation in which a runtime lives.
pub trait RuntimePayload: Sized {
    /// Whether an event of the simulation stands for an event of the runtime.
    open spec fn wraps(event: RuntimeEvent, payload: Self) -> bool {
        true
    }

    /// An event of the runtime as an event of the simulation.
    fn wrap(event: RuntimeEvent) -> (payload: Self)
        ensures
            Self::wraps(event, payload),
    ;
}

impl RuntimePayload for RuntimeEvent {
    open spec fn wraps(event: RuntimeEvent, payload: Self) -> bool {
        payload == event
    }

    fn wrap(event: RuntimeEvent) -> (payload: Self) {
        event
    }
}

/// What an async task sees while it is polled, and what it asks for.
pub struct PollContext<P> {
    /// The present time, where an event is being processed.
    pub time: Option<SimTime>,
    pub runtime_key: Option<Key<P>>,
    pub task_id: Option<TaskId>,
    /// The events to be scheduled once the present one is processed.
    pub deferred: VecDeque<DeferredWake<P>>,
}

impl<P> PollContext<P> {
    /// A context outside of any poll.
    pub fn outside() -> (cx: Self)
        ensures
            cx.time is None,
            cx.runtime_key is None,
            cx.task_id is None,
            cx.deferred@ == Seq::<DeferredWake<P>>::empty(),
    {
        PollContext { time: None, runtime_key: None, task_id: None, deferred: VecDeque::new() }
    }
}

/// The present time, as an async task sees it.
pub fn current_sim_time<P>(cx: &PollContext<P>) -> (time: Option<SimTime>)
    ensures
        time == cx.time,
{
    cx.time
}

/// The runtime that is polling.
pub fn current_runtime_key<P>(cx: &PollContext<P>) -> (key: Option<Key<P>>)
    ensures
        key == cx.runtime_key,
{
    cx.runtime_key
}

/// The task that is being polled.
pub fn current_task_id<P>(cx: &PollContext<P>) -> (id: Option<TaskId>)
    ensures
        id == cx.task_id,
{
    cx.task_id
}

/// Whether a request for a timer can lead to these deferred events: it adds one for
/// the runtime that is polling, and none outside of a poll.
pub open spec fn timer_requested<P: RuntimePayload>(
    cx: PollContext<P>,
    deadline: SimTime,
    deferred: Seq<DeferredWake<P>>,
) -> bool {
    if cx.runtime_key is Some && cx.task_id is Some {
        let event = RuntimeEvent::RegisterTimer { task_id: cx.task_id->0, deadline };
        &&& deferred.len() == cx.deferred@.len() + 1
        &&& deferred.drop_last() == cx.deferred@
        &&& deferred.last().component == cx.runtime_key->0
        &&& deferred.last().delay == SimTime(0)
        &&& P::wraps(event, deferred.last().event)
    } else {
        deferred == cx.deferred@
    }
}

/// Asks for a timer for the task that is being polled.
pub fn register_timer_at<P: RuntimePayload>(cx: &mut PollContext<P>, deadline: SimTime)
    ensures
        final(cx).time == old(cx).time,
        final(cx).runtime_key == old(cx).runtime_key,
        final(cx).task_id == old(cx).task_id,
        timer_requested(*old(cx), deadline, final(cx).deferred@),
{
    if let Some(key) = cx.runtime_key {
        if let Some(task_id) = cx.task_id {
            let event = P::wrap(RuntimeEvent::RegisterTimer { task_id, deadline });
            cx.deferred.push_back(
                DeferredWake { component: key, delay: SimTime::zero(), event },
            );
        }
    }
    proof {
        if cx.runtime_key is Some && cx.task_id is Some {
            assert(cx.deferred@.drop_last() =~= old(cx).deferred@);
        }
    }
}

/// Work that can be polled until it is done.
pub trait AsyncTask<P>: Sized {
    /// Whether a poll can lead from one state to another, and whether the task is
    /// then done.
    open spec fn polls(
        before: Self,
        cx_before: PollContext<P>,
        after: Self,
        cx_after: PollContext<P>,
        done: bool,
    ) -> bool {
        true
    }

    fn poll(&mut self, cx: &mut PollContext<P>) -> (done: bool)
        ensures
            Self::polls(*old(self), *old(cx), *final(self), *final(cx), done),
    ;
}

/// A wait in simulation time.
pub struct SimSleep {
    pub target_time: Option<SimTime>,
    pub duration: Duration,
    pub timer_scheduled: bool,
}

impl SimSleep {
    /// A wait of a given length, which starts when it is first polled.
    pub fn new(duration: Duration) -> (sleep: Self)
        ensures
            sleep == (SimSleep { target_time: None, duration, timer_scheduled: false }),
    {
        SimSleep { target_time: None, duration, timer_scheduled: false }
    }

    /// A wait until a given time.
    pub fn until(target_time: SimTime) -> (sleep: Self)
        ensures
            sleep.target_time == Some(target_time),
            crate::duration::duration_nanos(sleep.duration) == 0,
            !sleep.timer_scheduled,
    {
        SimSleep {
            target_time: Some(target_time),
            duration: Duration::from_nanos(0),
            timer_scheduled: false,
        }
    }

    /// When the wait ends, if it is polled at a given time.
    pub open spec fn target(self, now: SimTime) -> SimTime {
        match self.target_time {
            Some(t) => t,
            None => SimTime(
                now.0.saturating_add(
                    crate::duration::low_nanos(crate::duration::duration_nanos(self.duration)),
                ),
            ),
        }
    }
}

impl<P: RuntimePayload> AsyncTask<P> for SimSleep {
    /// Without a time the wait goes on unchanged. Else it ends once its target is
    /// reached, and asks for one timer before that.
    open spec fn polls(
        before: Self,
        cx_before: PollContext<P>,
        after: Self,
        cx_after: PollContext<P>,
        done: bool,
    ) -> bool {
        &&& cx_after.time == cx_before.time
        &&& cx_after.runtime_key == cx_before.runtime_key
        &&& cx_after.task_id == cx_before.task_id
        &&& match cx_before.time {
            None => !done && after == before && cx_after.deferred@ == cx_before.deferred@,
            Some(now) => {
                let target = before.target(now);
                let reached = now.0 >= target.0;
                &&& done == reached
                &&& after == (SimSleep {
                    target_time: Some(target),
                    timer_scheduled: before.timer_scheduled || !reached,
                    ..before
                })
                &&& if reached || before.timer_scheduled {
                    cx_after.deferred@ == cx_before.deferred@
                } else {
                    timer_requested(cx_before, target, cx_after.deferred@)
                }
            },
        }
    }

    fn poll(&mut self, cx: &mut PollContext<P>) -> (done: bool) {
        let now = match current_sim_time(cx) {
            Some(t) => t,
            None => {
                return false;
            },
        };
        let target = match self.target_time {
            Some(t) => t,
            None => now + SimTime::from_duration(self.duration),
        };
        self.target_time = Some(target);
        if now.0 >= target.0 {
            true
        } else if !self.timer_scheduled {
            register_timer_at(cx, target);
            self.timer_scheduled = true;
            false
        } else {
            false
        }
    }
}

/// Waits for a duration in simulation time.
pub fn sim_sleep(duration: Duration) -> (sleep: SimSleep)
    ensures
        sleep == (SimSleep { target_time: None, duration, timer_scheduled: false }),
{
    SimSleep::new(duration)
}

/// Waits until a given simulation time.
pub fn sim_sleep_until(target: SimTime) -> (sleep: SimSleep)
    ensures
        sleep.target_time == Some(target),
        !sleep.timer_scheduled,
{
    SimSleep::until(target)
}

/// A task that waits to be taken in by the runtime.
pub struct SpawnRequest<F> {
    pub task_id: TaskId,
    pub future: F,
}

/// The tasks that wait to be taken in, those that may move between threads and
/// those that may not, and the number of the next task.
pub struct SpawnQueue<F> {
    pub next_task_id: u64,
    pub sendable: VecDeque<SpawnRequest<F>>,
    pub local: VecDeque<SpawnRequest<F>>,
}

/// The requests that are left when a task is taken out.
pub open spec fn without_request<F>(s: Seq<SpawnRequest<F>>, id: TaskId) -> Seq<SpawnRequest<F>> {
    s.filter(|r: SpawnRequest<F>| r.task_id != id)
}

impl<F> SpawnQueue<F> {
    pub fn new() -> (queue: Self)
        ensures
            queue.next_task_id == 0,
            queue.sendable@ == Seq::<SpawnRequest<F>>::empty(),
            queue.local@ == Seq::<SpawnRequest<F>>::empty(),
    {
        SpawnQueue { next_task_id: 0, sendable: VecDeque::new(), local: VecDeque::new() }
    }

    /// Gives out the next task number.
    pub fn next_id(&mut self) -> (id: TaskId)
        ensures
            id.0 == old(self).next_task_id,
            final(self).next_task_id == old(self).next_task_id.wrapping_add(1),
            final(self).sendable == old(self).sendable,
            final(self).local == old(self).local,
    {
        let id = TaskId(self.next_task_id);
        self.next_task_id = self.next_task_id.wrapping_add(1);
        id
    }

    /// Asks for a task that may move between threads.
    pub fn spawn(&mut self, future: F) -> (id: TaskId)
        ensures
            id.0 == old(self).next_task_id,
            final(self).next_task_id == old(self).next_task_id.wrapping_add(1),
            final(self).sendable@ == old(self).sendable@.push(
                SpawnRequest { task_id: id, future },
            ),
            final(self).local@ == old(self).local@,
    {
        let task_id = self.next_id();
        self.sendable.push_back(SpawnRequest { task_id, future });
        task_id
    }

    /// Asks for a task that stays on its thread.
    pub fn spawn_local(&mut self, future: F) -> (id: TaskId)
        ensures
            id.0 == old(self).next_task_id,
            final(self).next_task_id == old(self).next_task_id.wrapping_add(1),
            final(self).local@ == old(self).local@.push(SpawnRequest { task_id: id, future }),
            final(self).sendable@ == old(self).sendable@,
    {
        let task_id = self.next_id();
        self.local.push_back(SpawnRequest { task_id, future });
        task_id
    }

    /// Takes a task that may move between threads out, if it still waits.
    pub fn cancel(&mut self, task_id: TaskId)
        ensures
            final(self).next_task_id == old(self).next_task_id,
            final(self).sendable@ == without_request(old(self).sendable@, task_id),
            final(self).local@ == old(self).local@,
    {
        retain_others(&mut self.sendable, task_id);
    }

    /// Takes a task that stays on its thread out, if it still waits.
    pub fn cancel_local(&mut self, task_id: TaskId)
        ensures
            final(self).next_task_id == old(self).next_task_id,
            final(self).local@ == without_request(old(self).local@, task_id),
            final(self).sendable@ == old(self).sendable@,
    {
        retain_others(&mut self.local, task_id);
    }
}

fn retain_others<F>(queue: &mut VecDeque<SpawnRequest<F>>, task_id: TaskId)
    ensures
        final(queue)@ == without_request(old(queue)@, task_id),
{
    let ghost all = queue@;
    let ghost p = |r: SpawnRequest<F>| r.task_id != task_id;
    let mut retained: VecDeque<SpawnRequest<F>> = VecDeque::new();
    let ghost mut n: int = 0;
    proof {
        reveal(Seq::filter);
        assert(all.skip(0) =~= all);
        assert(all.take(0) =~= Seq::empty());
    }
    loop
        invariant
            0 <= n <= all.len(),
            queue@ == all.skip(n),
            p == (|r: SpawnRequest<F>| r.task_id != task_id),
            retained@ == all.take(n).filter(p),
        ensures
            n == all.len(),
            retained@ == all.take(n).filter(p),
        decreases all.len() - n,
    {
        match queue.pop_front() {
            None => {
                break;
            },
            Some(request) => {
                proof {
                    assert(request == all[n]);
                    assert(all.take(n + 1).drop_last() =~= all.take(n));
                    assert(all.take(n + 1).last() == all[n]);
                    reveal(Seq::filter);
                    assert(all.skip(n).drop_first() =~= all.skip(n + 1));
                    n = n + 1;
                }
                if request.task_id.0 != task_id.0 {
                    retained.push_back(request);
                }
            },
        }
    }
    proof {
        assert(all.take(n) =~= all);
    }
    *queue = retained;
}

} // verus!
