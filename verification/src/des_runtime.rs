//! The runtime component: it polls async tasks, wakes them and keeps their timers.

use crate::async_runtime::{AsyncTask, PollContext, RuntimeEvent, RuntimePayload, SpawnQueue, SpawnRequest};
use crate::component::Component;
use crate::key::Key;
use crate::ready_policy::{FifoReadyTaskPolicy, ReadyTaskPolicy, TaskId};
use crate::scheduler::{current_time, DeferredWake, Scheduler, SchedulerView};
use crate::simulation::Simulation;
use crate::time::SimTime;
use std::collections::{HashMap, VecDeque};
use vstd::prelude::*;

verus! {

broadcast use vstd::std_specs::hash::group_hash_axioms;

/// An async task in the runtime.
pub struct TaskSlot<F> {
    pub future: F,
    /// Whether the task stands in the ready queue.
    pub queued: bool,
}

/// The tasks that wait for a deadline.
pub struct Timer {
    pub deadline: SimTime,
    pub tasks: Vec<TaskId>,
}

#[verifier::ext_equal]
pub struct TimerView {
    pub deadline: u64,
    pub tasks: Seq<TaskId>,
}

impl View for Timer {
    type V = TimerView;

    open spec fn view(&self) -> TimerView {
        TimerView { deadline: self.deadline.0, tasks: self.tasks@ }
    }
}

pub open spec fn timer_views(s: Seq<Timer>) -> Seq<TimerView> {
    s.map_values(|t: Timer| t@)
}

/// The first timer that is not due before a deadline.
pub open spec fn timer_index(s: Seq<TimerView>, deadline: u64) -> int
    decreases s.len(),
{
    if s.len() == 0 || s[0].deadline >= deadline {
        0
    } else {
        1 + timer_index(s.drop_first(), deadline)
    }
}

/// The timers with one more task for a deadline.
pub open spec fn with_timer(s: Seq<TimerView>, deadline: u64, id: TaskId) -> Seq<TimerView> {
    let i = timer_index(s, deadline);
    if i < s.len() && s[i].deadline == deadline {
        s.update(i, TimerView { deadline, tasks: s[i].tasks.push(id) })
    } else {
        s.insert(i, TimerView { deadline, tasks: seq![id] })
    }
}

/// The identifiers other than one.
pub open spec fn ids_except(ids: Seq<TaskId>, id: TaskId) -> Seq<TaskId> {
    ids.filter(|t: TaskId| t != id)
}

/// The timers without a task. A timer that has no task left is dropped.
pub open spec fn without_task(s: Seq<TimerView>, id: TaskId) -> Seq<TimerView>
    decreases s.len(),
{
    if s.len() == 0 {
        s
    } else {
        let front = without_task(s.drop_last(), id);
        let left = ids_except(s.last().tasks, id);
        if left.len() == 0 {
            front
        } else {
            front.push(TimerView { deadline: s.last().deadline, tasks: left })
        }
    }
}

/// The tasks of the timers in front that are due, in their order.
pub open spec fn due_tasks(s: Seq<TimerView>, now: u64) -> Seq<TaskId>
    decreases s.len(),
{
    if s.len() == 0 || s[0].deadline > now {
        Seq::empty()
    } else {
        s[0].tasks + due_tasks(s.drop_first(), now)
    }
}

/// The timers without those in front that are due.
pub open spec fn timers_left(s: Seq<TimerView>, now: u64) -> Seq<TimerView>
    decreases s.len(),
{
    if s.len() == 0 || s[0].deadline > now {
        s
    } else {
        timers_left(s.drop_first(), now)
    }
}

/// What a runtime holds, apart from its policy.
#[verifier::ext_equal]
pub struct RuntimeView<F, P> {
    pub tasks: Map<u64, TaskSlot<F>>,
    /// The tasks that wait for a poll.
    pub ready: Seq<TaskId>,
    /// The timers, the one that is due first in front.
    pub timers: Seq<TimerView>,
    /// The deadline that a timer event was last scheduled for.
    pub next_timer_deadline: Option<SimTime>,
    pub next_task_id: u64,
    pub sendable: Seq<SpawnRequest<F>>,
    pub local: Seq<SpawnRequest<F>>,
    pub runtime_key: Option<Key<P>>,
}

impl<F, P> RuntimeView<F, P> {
    /// The runtime after a task was added and queued.
    pub open spec fn with_task(self, id: TaskId, future: F) -> Self {
        RuntimeView {
            tasks: self.tasks.insert(id.0, TaskSlot { future, queued: true }),
            ready: self.ready.push(id),
            ..self
        }
    }

    /// The runtime after a task was woken: one that is not queued yet is queued.
    pub open spec fn woken(self, id: TaskId) -> Self {
        if self.tasks.contains_key(id.0) && !self.tasks[id.0].queued {
            self.with_task(id, self.tasks[id.0].future)
        } else {
            self
        }
    }

    /// The runtime after several tasks were woken, one after the other.
    pub open spec fn woken_all(self, ids: Seq<TaskId>) -> Self
        decreases ids.len(),
    {
        if ids.len() == 0 {
            self
        } else {
            self.woken(ids[0]).woken_all(ids.drop_first())
        }
    }

    /// The runtime after the requested tasks were taken in.
    pub open spec fn taken_in(self, requests: Seq<SpawnRequest<F>>) -> Self
        decreases requests.len(),
    {
        if requests.len() == 0 {
            self
        } else {
            self.with_task(requests[0].task_id, requests[0].future).taken_in(requests.drop_first())
        }
    }

    /// The runtime after all requested tasks were taken in.
    pub open spec fn all_taken_in(self) -> Self {
        RuntimeView { sendable: Seq::empty(), local: Seq::empty(), ..self }.taken_in(
            self.sendable,
        ).taken_in(self.local)
    }

    /// The runtime after the timers that are due were fired.
    pub open spec fn timers_fired(self, now: u64) -> Self {
        RuntimeView { timers: timers_left(self.timers, now), ..self }.woken_all(
            due_tasks(self.timers, now),
        )
    }

    /// The runtime after it has learned its own key.
    pub open spec fn known_as(self, self_id: Key<P>) -> Self {
        RuntimeView {
            runtime_key: if self.runtime_key is None {
                Some(self_id)
            } else {
                self.runtime_key
            },
            ..self
        }
    }

    /// The earliest deadline.
    pub open spec fn first_deadline(self) -> Option<SimTime> {
        if self.timers.len() == 0 {
            None
        } else {
            Some(SimTime(self.timers[0].deadline))
        }
    }
}

/// A poll cycle in progress.
#[verifier::ext_equal]
pub struct CycleState<F, Q, P> {
    pub tasks: Map<u64, TaskSlot<F>>,
    pub policy: Q,
    /// The tasks that are still to be polled in this cycle.
    pub poll_set: Seq<TaskId>,
    pub deferred: Seq<DeferredWake<P>>,
}

/// What a task sees when it is polled.
pub open spec fn is_poll_context<P>(
    cx: PollContext<P>,
    time: Option<SimTime>,
    key: Key<P>,
    id: TaskId,
) -> bool {
    &&& cx.time == time
    &&& cx.runtime_key == Some(key)
    &&& cx.task_id == Some(id)
    &&& cx.deferred@ == Seq::<DeferredWake<P>>::empty()
}

/// Whether polling a task can lead from one state to another: the task is kept
/// with its new state unless it is done, and the events that it deferred are
/// added to the others.
pub open spec fn task_polled<F: AsyncTask<P>, Q, P>(
    before: CycleState<F, Q, P>,
    after: CycleState<F, Q, P>,
    time: Option<SimTime>,
    key: Key<P>,
    id: TaskId,
) -> bool {
    if before.tasks.contains_key(id.0) {
        exists|future: F, cx: PollContext<P>, cx_after: PollContext<P>, done: bool|
            {
                &&& is_poll_context(cx, time, key, id)
                &&& #[trigger] F::polls(before.tasks[id.0].future, cx, future, cx_after, done)
                &&& after.tasks == (if done {
                    before.tasks.remove(id.0)
                } else {
                    before.tasks.insert(id.0, TaskSlot { future, queued: false })
                })
                &&& after.deferred == before.deferred + cx_after.deferred@
            }
    } else {
        after.tasks == before.tasks && after.deferred == before.deferred
    }
}

/// Whether one turn of a poll cycle can lead from one state to another: the policy
/// selects one of the tasks that are left, and that one is polled. The others keep their
/// order.
pub open spec fn cycle_turn<F: AsyncTask<P>, Q: ReadyTaskPolicy, P>(
    before: CycleState<F, Q, P>,
    after: CycleState<F, Q, P>,
    now: SimTime,
    time: Option<SimTime>,
    key: Key<P>,
    index: usize,
) -> bool {
    let k = crate::scheduler::clamped(index, before.poll_set.len());
    &&& before.poll_set.len() > 0
    &&& Q::selects(before.policy, now, before.poll_set, after.policy, index)
    &&& after.poll_set == before.poll_set.remove(k)
    &&& task_polled(before, after, time, key, before.poll_set[k])
}

/// Whether a sequence of states consists of turns of a poll cycle.
pub open spec fn is_chain<F: AsyncTask<P>, Q: ReadyTaskPolicy, P>(
    states: Seq<CycleState<F, Q, P>>,
    now: SimTime,
    time: Option<SimTime>,
    key: Key<P>,
) -> bool {
    &&& states.len() > 0
    &&& forall|i: int|
        0 <= i < states.len() - 1 ==> #[trigger] turned_at(states, i, now, time, key)
}

/// Whether a state of a sequence follows from the one before by a turn of a poll cycle.
pub open spec fn turned_at<F: AsyncTask<P>, Q: ReadyTaskPolicy, P>(
    states: Seq<CycleState<F, Q, P>>,
    i: int,
    now: SimTime,
    time: Option<SimTime>,
    key: Key<P>,
) -> bool {
    turned(states[i], states[i + 1], now, time, key)
}

/// Whether a turn of a poll cycle can lead from one state to another.
pub open spec fn turned<F: AsyncTask<P>, Q: ReadyTaskPolicy, P>(
    before: CycleState<F, Q, P>,
    after: CycleState<F, Q, P>,
    now: SimTime,
    time: Option<SimTime>,
    key: Key<P>,
) -> bool {
    exists|index: usize| #[trigger] cycle_turn(before, after, now, time, key, index)
}

/// Whether a sequence of states is a whole poll cycle.
pub open spec fn is_cycle<F: AsyncTask<P>, Q: ReadyTaskPolicy, P>(
    states: Seq<CycleState<F, Q, P>>,
    now: SimTime,
    time: Option<SimTime>,
    key: Key<P>,
) -> bool {
    is_chain(states, now, time, key) && states.last().poll_set.len() == 0
}

/// Whether polling the ready tasks can lead from one state of a runtime and a
/// scheduler to another. All tasks that were ready at the start are polled, and
/// none else.
pub open spec fn cycle_done<F: AsyncTask<P>, Q: ReadyTaskPolicy, P, T, R>(
    before: RuntimeView<F, P>,
    policy_before: Q,
    scheduler_before: SchedulerView<P, T, R>,
    after: RuntimeView<F, P>,
    policy_after: Q,
    scheduler_after: SchedulerView<P, T, R>,
) -> bool {
    let start = before.all_taken_in();
    &&& start.ready.len() <= usize::MAX
    &&& exists|states: Seq<CycleState<F, Q, P>>|
        {
            &&& #[trigger] is_cycle(
                states,
                SimTime(scheduler_before.now),
                scheduler_before.event_time(),
                before.runtime_key->0,
            )
            &&& states[0] == (CycleState {
                tasks: start.tasks,
                policy: policy_before,
                poll_set: start.ready,
                deferred: scheduler_before.deferred,
            })
            &&& after == (RuntimeView {
                tasks: states.last().tasks,
                ready: Seq::empty(),
                ..start
            })
            &&& policy_after == states.last().policy
            &&& scheduler_after == (SchedulerView {
                deferred: states.last().deferred,
                ..scheduler_before
            })
        }
}

/// The runtime after the deadline of the next timer event was brought up to date.
pub open spec fn tick_noted<F, P>(v: RuntimeView<F, P>) -> RuntimeView<F, P> {
    RuntimeView { next_timer_deadline: v.first_deadline(), ..v }
}

/// Whether scheduling the next timer event can lead from one state of a scheduler
/// to another: it is scheduled at the earliest deadline, where that is another one
/// than before.
pub open spec fn tick_scheduled<F, P: RuntimePayload, T, R>(
    v: RuntimeView<F, P>,
    before: SchedulerView<P, T, R>,
    self_id: Key<P>,
    after: SchedulerView<P, T, R>,
) -> bool {
    match v.first_deadline() {
        Some(deadline) if v.first_deadline() != v.next_timer_deadline => {
            let delay = deadline.0.saturating_sub(before.now);
            offered_event(before, delay, self_id, RuntimeEvent::TimerTick, after)
        },
        _ => after == before,
    }
}

/// Whether offering an event of the runtime can lead from one state of a scheduler
/// to another.
pub open spec fn offered_event<P: RuntimePayload, T, R>(
    before: SchedulerView<P, T, R>,
    delay: u64,
    self_id: Key<P>,
    event: RuntimeEvent,
    after: SchedulerView<P, T, R>,
) -> bool {
    exists|payload: P| #[trigger]
        P::wraps(event, payload) && after == before.offered(delay, self_id.id, payload)
}

/// Whether processing an event can lead from one state of a runtime and a
/// scheduler to another.
pub open spec fn event_processed<F: AsyncTask<P>, Q: ReadyTaskPolicy, P: RuntimePayload, T, R>(
    self_id: Key<P>,
    event: RuntimeEvent,
    given: RuntimeView<F, P>,
    policy_before: Q,
    scheduler_before: SchedulerView<P, T, R>,
    after: RuntimeView<F, P>,
    policy_after: Q,
    scheduler_after: SchedulerView<P, T, R>,
) -> bool {
    exists|left: SchedulerView<P, T, R>|
        {
            &&& #[trigger] event_handled(
                self_id,
                event,
                given.known_as(self_id),
                policy_before,
                scheduler_before,
                after,
                policy_after,
                left,
            )
            &&& if after.ready.len() > 0 {
                offered_event(left, 0, self_id, RuntimeEvent::Poll, scheduler_after)
            } else {
                scheduler_after == left
            }
        }
}

/// What `event_processed` says of the event itself, before another poll is
/// scheduled.
pub open spec fn event_handled<F: AsyncTask<P>, Q: ReadyTaskPolicy, P: RuntimePayload, T, R>(
    self_id: Key<P>,
    event: RuntimeEvent,
    before: RuntimeView<F, P>,
    policy_before: Q,
    scheduler_before: SchedulerView<P, T, R>,
    after: RuntimeView<F, P>,
    policy_after: Q,
    scheduler_after: SchedulerView<P, T, R>,
) -> bool {
    match event {
        RuntimeEvent::Poll => cycle_done(
            before,
            policy_before,
            scheduler_before,
            after,
            policy_after,
            scheduler_after,
        ),
        RuntimeEvent::Wake { task_id } => cycle_done(
            before.woken(task_id),
            policy_before,
            scheduler_before,
            after,
            policy_after,
            scheduler_after,
        ),
        RuntimeEvent::Cancel { task_id } => {
            let cancelled = RuntimeView {
                tasks: before.tasks.remove(task_id.0),
                timers: without_task(before.timers, task_id),
                ..before
            };
            &&& after == tick_noted(cancelled)
            &&& policy_after == policy_before
            &&& tick_scheduled(cancelled, scheduler_before, self_id, scheduler_after)
        },
        RuntimeEvent::RegisterTimer { task_id, deadline } => {
            if before.tasks.contains_key(task_id.0) {
                let registered = RuntimeView {
                    timers: with_timer(before.timers, deadline.0, task_id),
                    ..before
                };
                &&& after == tick_noted(registered)
                &&& policy_after == policy_before
                &&& tick_scheduled(registered, scheduler_before, self_id, scheduler_after)
            } else {
                after == before && policy_after == policy_before && scheduler_after
                    == scheduler_before
            }
        },
        RuntimeEvent::TimerTick => {
            let fired = RuntimeView { next_timer_deadline: None, ..before }.timers_fired(
                scheduler_before.now,
            );
            exists|ticked: SchedulerView<P, T, R>|
                {
                    &&& #[trigger] tick_scheduled(fired, scheduler_before, self_id, ticked)
                    &&& cycle_done(
                        tick_noted(fired),
                        policy_before,
                        ticked,
                        after,
                        policy_after,
                        scheduler_after,
                    )
                }
        },
    }
}

/// The runtime for async tasks of type `F`, in a simulation with events of type
/// `P`.
pub struct DesRuntime<F, Q, P> {
    tasks: HashMap<u64, TaskSlot<F>>,
    ready_queue: VecDeque<TaskId>,
    policy: Q,
    spawns: SpawnQueue<F>,
    timers: Vec<Timer>,
    next_timer_deadline: Option<SimTime>,
    runtime_key: Option<Key<P>>,
}

impl<F, Q, P> View for DesRuntime<F, Q, P> {
    type V = RuntimeView<F, P>;

    closed spec fn view(&self) -> RuntimeView<F, P> {
        RuntimeView {
            tasks: self.tasks@,
            ready: self.ready_queue@,
            timers: timer_views(self.timers@),
            next_timer_deadline: self.next_timer_deadline,
            next_task_id: self.spawns.next_task_id,
            sendable: self.spawns.sendable@,
            local: self.spawns.local@,
            runtime_key: self.runtime_key,
        }
    }
}

impl<F, P> Default for DesRuntime<F, FifoReadyTaskPolicy, P> {
    fn default() -> (runtime: Self)
        ensures
            runtime@ == Self::empty(),
    {
        Self::new()
    }
}

impl<F, P> DesRuntime<F, FifoReadyTaskPolicy, P> {
    /// Makes a runtime that polls ready tasks first in, first out.
    pub fn new() -> (runtime: Self)
        ensures
            runtime@ == Self::empty(),
    {
        DesRuntime::with_policy(FifoReadyTaskPolicy)
    }
}

impl<F, Q, P> DesRuntime<F, Q, P> {
    /// The policy for choosing among ready tasks.
    pub closed spec fn spec_policy(&self) -> Q {
        self.policy
    }

    /// A runtime without tasks.
    pub open spec fn empty() -> RuntimeView<F, P> {
        RuntimeView {
            tasks: Map::empty(),
            ready: Seq::empty(),
            timers: Seq::empty(),
            next_timer_deadline: None,
            next_task_id: 0,
            sendable: Seq::empty(),
            local: Seq::empty(),
            runtime_key: None,
        }
    }

    /// Makes a runtime with a given policy.
    pub fn with_policy(policy: Q) -> (runtime: Self)
        ensures
            runtime@ == Self::empty(),
            runtime.spec_policy() == policy,
    {
        let runtime = DesRuntime {
            tasks: HashMap::new(),
            ready_queue: VecDeque::new(),
            policy,
            spawns: SpawnQueue::new(),
            timers: Vec::new(),
            next_timer_deadline: None,
            runtime_key: None,
        };
        proof {
            assert(runtime@ =~= Self::empty());
        }
        runtime
    }

    /// Sets the policy for choosing among ready tasks.
    pub fn set_ready_task_policy(&mut self, policy: Q)
        ensures
            final(self).spec_policy() == policy,
            final(self)@ == old(self)@,
    {
        self.policy = policy;
    }

    /// Adds a task, which is polled in the next cycle.
    pub fn spawn(&mut self, future: F) -> (id: TaskId)
        ensures
            id.0 == old(self)@.next_task_id,
            final(self)@ == (RuntimeView {
                next_task_id: old(self)@.next_task_id.wrapping_add(1),
                ..old(self)@
            }).with_task(id, future),
            final(self).spec_policy() == old(self).spec_policy(),
    {
        let id = self.spawns.next_id();
        proof {
            assert(self@ =~= RuntimeView {
                next_task_id: old(self)@.next_task_id.wrapping_add(1),
                ..old(self)@
            });
        }
        self.add_task(id, future);
        id
    }

    fn add_task(&mut self, id: TaskId, future: F)
        ensures
            final(self)@ == old(self)@.with_task(id, future),
            final(self).spec_policy() == old(self).spec_policy(),
    {
        self.tasks.insert(id.0, TaskSlot { future, queued: true });
        self.ready_queue.push_back(id);
        proof {
            assert(self@ =~= old(self)@.with_task(id, future));
        }
    }

    /// Asks for a task from outside, to be taken in with the next cycle.
    pub fn request_spawn(&mut self, future: F) -> (id: TaskId)
        ensures
            id.0 == old(self)@.next_task_id,
            final(self)@ == (RuntimeView {
                next_task_id: old(self)@.next_task_id.wrapping_add(1),
                sendable: old(self)@.sendable.push(SpawnRequest { task_id: id, future }),
                ..old(self)@
            }),
            final(self).spec_policy() == old(self).spec_policy(),
    {
        let id = self.spawns.spawn(future);
        proof {
            assert(self@ =~= RuntimeView {
                next_task_id: old(self)@.next_task_id.wrapping_add(1),
                sendable: old(self)@.sendable.push(SpawnRequest { task_id: id, future }),
                ..old(self)@
            });
        }
        id
    }

    /// Replaces the tasks that wait to be taken in, and gives the former ones back.
    pub fn exchange_spawns(&mut self, spawns: SpawnQueue<F>) -> (former: SpawnQueue<F>)
        ensures
            former.next_task_id == old(self)@.next_task_id,
            former.sendable@ == old(self)@.sendable,
            former.local@ == old(self)@.local,
            final(self)@ == (RuntimeView {
                next_task_id: spawns.next_task_id,
                sendable: spawns.sendable@,
                local: spawns.local@,
                ..old(self)@
            }),
            final(self).spec_policy() == old(self).spec_policy(),
    {
        let mut other = spawns;
        core::mem::swap(&mut self.spawns, &mut other);
        proof {
            assert(self@ =~= RuntimeView {
                next_task_id: spawns.next_task_id,
                sendable: spawns.sendable@,
                local: spawns.local@,
                ..old(self)@
            });
        }
        other
    }

    /// The number of tasks.
    pub fn task_count(&self) -> (count: usize)
        ensures
            count == self@.tasks.len(),
    {
        self.tasks.len()
    }

    /// Whether there are tasks.
    pub fn has_tasks(&self) -> (has: bool)
        ensures
            has == (self@.tasks.len() != 0),
    {
        self.tasks.len() != 0
    }

    /// Wakes a task: one that is not queued yet is queued.
    pub fn wake_task(&mut self, task_id: TaskId)
        ensures
            final(self)@ == old(self)@.woken(task_id),
            final(self).spec_policy() == old(self).spec_policy(),
    {
        match self.tasks.remove(&task_id.0) {
            None => {
                proof {
                    assert(self@.tasks =~= old(self)@.tasks);
                    assert(self@ =~= old(self)@);
                }
            },
            Some(slot) => {
                if slot.queued {
                    self.tasks.insert(task_id.0, slot);
                    proof {
                        assert(self@.tasks =~= old(self)@.tasks);
                        assert(self@ =~= old(self)@);
                    }
                } else {
                    self.add_task(task_id, slot.future);
                    proof {
                        assert(self@.tasks =~= old(self)@.woken(task_id).tasks);
                        assert(self@ =~= old(self)@.woken(task_id));
                    }
                }
            },
        }
    }
}

proof fn lemma_timer_index(s: Seq<TimerView>, deadline: u64, i: int)
    requires
        0 <= i <= s.len(),
        forall|j: int| 0 <= j < i ==> (#[trigger] s[j]).deadline < deadline,
        i < s.len() ==> s[i].deadline >= deadline,
    ensures
        timer_index(s, deadline) == i,
    decreases s.len(),
{
    if i > 0 {
        let rest = s.drop_first();
        assert(s[0].deadline < deadline);
        assert forall|j: int| 0 <= j < i - 1 implies (#[trigger] rest[j]).deadline < deadline by {
            assert(rest[j] == s[j + 1]);
        }
        lemma_timer_index(rest, deadline, i - 1);
    }
}

proof fn lemma_woken_all_adds<F, P>(v: RuntimeView<F, P>, a: Seq<TaskId>, b: Seq<TaskId>)
    ensures
        v.woken_all(a + b) == v.woken_all(a).woken_all(b),
    decreases a.len(),
{
    if a.len() == 0 {
        assert(a + b =~= b);
    } else {
        assert((a + b).drop_first() =~= a.drop_first() + b);
        lemma_woken_all_adds(v.woken(a[0]), a.drop_first(), b);
    }
}

proof fn lemma_woken_all_one_more<F, P>(v: RuntimeView<F, P>, a: Seq<TaskId>, id: TaskId)
    ensures
        v.woken_all(a.push(id)) == v.woken_all(a).woken(id),
{
    assert(a.push(id) =~= a + seq![id]);
    lemma_woken_all_adds(v, a, seq![id]);
    let w = v.woken_all(a);
    assert(seq![id].drop_first() =~= Seq::<TaskId>::empty());
    assert(w.woken(id).woken_all(Seq::<TaskId>::empty()) == w.woken(id));
}

/// Waking tasks has nothing to do with the timers.
proof fn lemma_woken_all_ignores_timers<F, P>(
    v: RuntimeView<F, P>,
    ids: Seq<TaskId>,
    timers: Seq<TimerView>,
)
    ensures
        (RuntimeView { timers, ..v }).woken_all(ids) == (RuntimeView { timers, ..v.woken_all(ids) }),
        v.woken_all(ids).timers == v.timers,
        v.woken_all(ids).next_timer_deadline == v.next_timer_deadline,
        v.woken_all(ids).runtime_key == v.runtime_key,
    decreases ids.len(),
{
    if ids.len() > 0 {
        let w = RuntimeView { timers, ..v };
        assert(w.woken(ids[0]) =~= RuntimeView { timers, ..v.woken(ids[0]) });
        lemma_woken_all_ignores_timers(v.woken(ids[0]), ids.drop_first(), timers);
    }
}

/// Firing the first timer and then the others is firing all of them.
proof fn lemma_fire_first<F, P>(v: RuntimeView<F, P>, now: u64)
    requires
        v.timers.len() > 0,
        v.timers[0].deadline <= now,
    ensures
        v.timers_fired(now) == (RuntimeView { timers: v.timers.drop_first(), ..v }).woken_all(
            v.timers[0].tasks,
        ).timers_fired(now),
{
    let rest = v.timers.drop_first();
    let first = v.timers[0].tasks;
    let w = RuntimeView { timers: rest, ..v };
    let x = w.woken_all(first);
    let left = timers_left(rest, now);
    let u = RuntimeView { timers: left, ..v };
    lemma_woken_all_ignores_timers(w, first, left);
    assert(u =~= RuntimeView { timers: left, ..w });
    assert(x.timers == rest);
    lemma_woken_all_adds(u, first, due_tasks(rest, now));
}

proof fn lemma_extend_chain<F: AsyncTask<P>, Q: ReadyTaskPolicy, P>(
    states: Seq<CycleState<F, Q, P>>,
    next: CycleState<F, Q, P>,
    now: SimTime,
    time: Option<SimTime>,
    key: Key<P>,
    index: usize,
)
    requires
        is_chain(states, now, time, key),
        cycle_turn(states.last(), next, now, time, key, index),
    ensures
        is_chain(states.push(next), now, time, key),
{
    let longer = states.push(next);
    assert forall|i: int| 0 <= i < longer.len() - 1 implies #[trigger] turned_at(
        longer,
        i,
        now,
        time,
        key,
    ) by {
        assert(longer[i] == states[i]);
        if i + 1 < states.len() {
            assert(turned_at(states, i, now, time, key));
            assert(longer[i + 1] == states[i + 1]);
        } else {
            assert(cycle_turn(longer[i], longer[i + 1], now, time, key, index));
        }
    }
}

/// The identifiers other than one.
fn ids_without(ids: &Vec<TaskId>, id: TaskId) -> (left: Vec<TaskId>)
    ensures
        left@ == ids_except(ids@, id),
{
    let mut left: Vec<TaskId> = Vec::new();
    let mut i: usize = 0;
    proof {
        reveal(Seq::filter);
    }
    while i < ids.len()
        invariant
            i <= ids@.len(),
            left@ == ids_except(ids@.take(i as int), id),
        decreases ids@.len() - i,
    {
        let t = ids[i];
        proof {
            reveal(Seq::filter);
            assert(ids@.take(i + 1).drop_last() =~= ids@.take(i as int));
            assert(ids@.take(i + 1).last() == t);
        }
        if t.0 != id.0 {
            left.push(t);
        }
        i = i + 1;
    }
    proof {
        assert(ids@.take(i as int) =~= ids@);
    }
    left
}

impl<F: AsyncTask<P>, Q: ReadyTaskPolicy, P: RuntimePayload> DesRuntime<F, Q, P> {
    /// Takes in the tasks that were asked for from outside.
    fn take_in_spawns(&mut self)
        ensures
            final(self)@ == old(self)@.all_taken_in(),
            final(self).spec_policy() == old(self).spec_policy(),
    {
        loop
            invariant
                self@.all_taken_in() == old(self)@.all_taken_in(),
                self.spec_policy() == old(self).spec_policy(),
            ensures
                self@.sendable.len() == 0,
            decreases self@.sendable.len(),
        {
            let ghost before = self@;
            match self.spawns.sendable.pop_front() {
                None => {
                    proof {
                        assert(self@ =~= before);
                    }
                    break;
                },
                Some(request) => {
                    let ghost held = self@;
                    self.add_task(request.task_id, request.future);
                    proof {
                        let bare = RuntimeView {
                            sendable: Seq::empty(),
                            local: Seq::empty(),
                            ..before
                        };
                        let bare_after = RuntimeView {
                            sendable: Seq::empty(),
                            local: Seq::empty(),
                            ..self@
                        };
                        assert(request == before.sendable[0]);
                        assert(self@.sendable =~= before.sendable.drop_first());
                        assert(bare_after =~= bare.with_task(request.task_id, request.future));
                    }
                },
            }
        }
        loop
            invariant
                self@.sendable.len() == 0,
                self@.all_taken_in() == old(self)@.all_taken_in(),
                self.spec_policy() == old(self).spec_policy(),
            ensures
                self@.local.len() == 0,
            decreases self@.local.len(),
        {
            let ghost before = self@;
            match self.spawns.local.pop_front() {
                None => {
                    proof {
                        assert(self@ =~= before);
                    }
                    break;
                },
                Some(request) => {
                    self.add_task(request.task_id, request.future);
                    proof {
                        let bare = RuntimeView {
                            sendable: Seq::empty(),
                            local: Seq::empty(),
                            ..before
                        };
                        let bare_after = RuntimeView {
                            sendable: Seq::empty(),
                            local: Seq::empty(),
                            ..self@
                        };
                        assert(request == before.local[0]);
                        assert(self@.local =~= before.local.drop_first());
                        assert(bare_after =~= bare.with_task(request.task_id, request.future));
                    }
                },
            }
        }
        proof {
            assert(self@ =~= RuntimeView { sendable: Seq::empty(), local: Seq::empty(), ..self@ });
            assert(self@.all_taken_in() == self@);
        }
    }

    /// Polls all tasks that are ready at the start, in the order that the policy
    /// gives. Tasks that are woken meanwhile wait for the next cycle.
    fn poll_ready_tasks<T, R>(&mut self, scheduler: &mut Scheduler<P, T, R>)
        requires
            old(self)@.runtime_key is Some,
            old(scheduler).wf(),
        ensures
            final(scheduler).wf(),
            final(scheduler)@.budget() == old(scheduler)@.budget(),
            cycle_done(
                old(self)@,
                old(self).spec_policy(),
                old(scheduler)@,
                final(self)@,
                final(self).spec_policy(),
                final(scheduler)@,
            ),
    {
        let key = match self.runtime_key {
            Some(key) => key,
            None => {
                return;
            },
        };
        self.take_in_spawns();
        proof {
            lemma_taken_in_keeps(
                RuntimeView { sendable: Seq::empty(), local: Seq::empty(), ..old(self)@ },
                old(self)@.sendable,
            );
            lemma_taken_in_keeps(
                RuntimeView {
                    sendable: Seq::empty(),
                    local: Seq::empty(),
                    ..old(self)@
                }.taken_in(old(self)@.sendable),
                old(self)@.local,
            );
        }
        let ghost start = self@;
        let mut poll_set: Vec<TaskId> = Vec::new();
        loop
            invariant
                poll_set@ + self@.ready == start.ready,
                self@ == (RuntimeView { ready: self@.ready, ..start }),
                self.spec_policy() == old(self).spec_policy(),
            ensures
                self@.ready.len() == 0,
            decreases self@.ready.len(),
        {
            let ghost before = self@;
            match self.ready_queue.pop_front() {
                None => {
                    proof {
                        assert(self@ =~= before);
                    }
                    break;
                },
                Some(id) => {
                    proof {
                        assert(self@ =~= RuntimeView {
                            ready: before.ready.drop_first(),
                            ..before
                        });
                        assert(poll_set@ + before.ready =~= poll_set@.push(id) + self@.ready);
                    }
                    poll_set.push(id);
                },
            }
        }
        proof {
            assert(poll_set@ =~= start.ready);
            assert(poll_set@.len() == poll_set.len());
        }
        let now = scheduler.time();
        let time = current_time(scheduler);
        let ghost first = CycleState {
            tasks: self@.tasks,
            policy: self.spec_policy(),
            poll_set: poll_set@,
            deferred: scheduler@.deferred,
        };
        let ghost mut states = seq![first];
        while poll_set.len() > 0
            invariant
                scheduler.wf(),
                scheduler@ == (SchedulerView {
                    deferred: scheduler@.deferred,
                    ..old(scheduler)@
                }),
                now == SimTime(old(scheduler)@.now),
                self@ == (RuntimeView { tasks: self@.tasks, ready: Seq::empty(), ..start }),
                is_chain(states, now, time, key),
                states[0] == first,
                states.last() == (CycleState {
                    tasks: self@.tasks,
                    policy: self.spec_policy(),
                    poll_set: poll_set@,
                    deferred: scheduler@.deferred,
                }),
            decreases poll_set@.len(),
        {
            let ghost before = states.last();
            let index = self.policy.select(now, poll_set.as_slice());
            let last: usize = poll_set.len() - 1;
            let k: usize = if index < last {
                index
            } else {
                last
            };
            let task_id = poll_set.remove(k);
            match self.tasks.remove(&task_id.0) {
                None => {
                    proof {
                        assert(self@.tasks =~= before.tasks);
                    }
                },
                Some(slot) => {
                    let mut future = slot.future;
                    let mut cx = PollContext {
                        time,
                        runtime_key: Some(key),
                        task_id: Some(task_id),
                        deferred: VecDeque::new(),
                    };
                    let ghost cx_before = cx;
                    proof {
                        assert(cx.deferred@ =~= Seq::empty());
                        assert(is_poll_context(cx, time, key, task_id));
                    }
                    let done = future.poll(&mut cx);
                    let ghost cx_after = cx;
                    if !done {
                        self.tasks.insert(task_id.0, TaskSlot { future, queued: false });
                        proof {
                            assert(self@.tasks =~= before.tasks.insert(
                                task_id.0,
                                TaskSlot { future, queued: false },
                            ));
                        }
                    } else {
                        proof {
                            assert(self@.tasks =~= before.tasks.remove(task_id.0));
                        }
                    }
                    scheduler.defer_all(cx.deferred);
                    proof {
                        assert(F::polls(slot.future, cx_before, future, cx_after, done));
                    }
                },
            }
            proof {
                let after = CycleState {
                    tasks: self@.tasks,
                    policy: self.spec_policy(),
                    poll_set: poll_set@,
                    deferred: scheduler@.deferred,
                };
                assert(poll_set@ =~= before.poll_set.remove(k as int));
                assert(k == crate::scheduler::clamped(index, before.poll_set.len()));
                assert(before.poll_set[k as int] == task_id);
                assert(task_polled(before, after, time, key, task_id));
                assert(cycle_turn(before, after, now, time, key, index));
                lemma_extend_chain(states, after, now, time, key, index);
                states = states.push(after);
                assert(self@ =~= RuntimeView { tasks: self@.tasks, ready: Seq::empty(), ..start });
            }
        }
        proof {
            assert(is_cycle(states, now, time, key));
            assert(scheduler@ =~= SchedulerView {
                deferred: states.last().deferred,
                ..old(scheduler)@
            });
        }
    }

    /// Schedules an event for the earliest deadline, where that has changed.
    fn schedule_next_timer_tick<T, R>(
        &mut self,
        scheduler: &mut Scheduler<P, T, R>,
        self_id: Key<P>,
    )
        requires
            old(scheduler).wf(),
        ensures
            final(scheduler).wf(),
            final(scheduler)@.budget() <= old(scheduler)@.budget(),
            final(self)@ == tick_noted(old(self)@),
            final(self).spec_policy() == old(self).spec_policy(),
            tick_scheduled(old(self)@, old(scheduler)@, self_id, final(scheduler)@),
    {
        let now = scheduler.time();
        let next = if self.timers.len() == 0 {
            None
        } else {
            Some(self.timers[0].deadline)
        };
        proof {
            assert(next == old(self)@.first_deadline());
        }
        let unchanged = match (next, self.next_timer_deadline) {
            (None, None) => true,
            (Some(a), Some(b)) => a.0 == b.0,
            _ => false,
        };
        if unchanged {
            proof {
                assert(self@ =~= tick_noted(old(self)@));
            }
            return;
        }
        self.next_timer_deadline = next;
        proof {
            assert(self@ =~= tick_noted(old(self)@));
        }
        if let Some(deadline) = next {
            let delay = SimTime::from_nanos(deadline.0.saturating_sub(now.0));
            scheduler.try_schedule(delay, self_id, P::wrap(RuntimeEvent::TimerTick));
        }
    }

    /// Adds a timer for a task, if there is such a task.
    fn register_timer<T, R>(
        &mut self,
        task_id: TaskId,
        deadline: SimTime,
        scheduler: &mut Scheduler<P, T, R>,
        self_id: Key<P>,
    )
        requires
            old(scheduler).wf(),
        ensures
            final(scheduler).wf(),
            final(scheduler)@.budget() <= old(scheduler)@.budget(),
            event_handled(
                self_id,
                RuntimeEvent::RegisterTimer { task_id, deadline },
                old(self)@,
                old(self).spec_policy(),
                old(scheduler)@,
                final(self)@,
                final(self).spec_policy(),
                final(scheduler)@,
            ),
    {
        if !self.tasks.contains_key(&task_id.0) {
            return;
        }
        let ghost views = self@.timers;
        let mut i: usize = 0;
        while i < self.timers.len() && self.timers[i].deadline.0 < deadline.0
            invariant
                i <= self.timers@.len(),
                self@ == old(self)@,
                views == self@.timers,
                forall|j: int| 0 <= j < i ==> (#[trigger] views[j]).deadline < deadline.0,
            decreases self.timers@.len() - i,
        {
            proof {
                assert(views[i as int].deadline == self.timers@[i as int].deadline.0);
            }
            i = i + 1;
        }
        proof {
            if i < self.timers@.len() {
                assert(views[i as int].deadline == self.timers@[i as int].deadline.0);
            }
            lemma_timer_index(views, deadline.0, i as int);
        }
        let ghost before = self.timers@;
        if i < self.timers.len() && self.timers[i].deadline.0 == deadline.0 {
            let mut timer = self.timers.remove(i);
            timer.tasks.push(task_id);
            self.timers.insert(i, timer);
            proof {
                assert(self@.timers =~= with_timer(views, deadline.0, task_id));
            }
        } else {
            let mut tasks: Vec<TaskId> = Vec::new();
            tasks.push(task_id);
            self.timers.insert(i, Timer { deadline, tasks });
            proof {
                assert(tasks@ =~= seq![task_id]);
                assert(self@.timers =~= with_timer(views, deadline.0, task_id));
            }
        }
        proof {
            assert(self@ =~= RuntimeView {
                timers: with_timer(views, deadline.0, task_id),
                ..old(self)@
            });
        }
        self.schedule_next_timer_tick(scheduler, self_id);
    }

    /// Wakes several tasks, one after the other.
    fn wake_all(&mut self, ids: &Vec<TaskId>)
        ensures
            final(self)@ == old(self)@.woken_all(ids@),
            final(self).spec_policy() == old(self).spec_policy(),
    {
        let mut i: usize = 0;
        while i < ids.len()
            invariant
                i <= ids@.len(),
                self@ == old(self)@.woken_all(ids@.take(i as int)),
                self.spec_policy() == old(self).spec_policy(),
            decreases ids@.len() - i,
        {
            self.wake_task(ids[i]);
            proof {
                lemma_woken_all_one_more(old(self)@, ids@.take(i as int), ids@[i as int]);
                assert(ids@.take(i as int).push(ids@[i as int]) =~= ids@.take(i + 1));
            }
            i = i + 1;
        }
        proof {
            assert(ids@.take(i as int) =~= ids@);
        }
    }

    /// Fires the timers that are due, and polls the ready tasks.
    fn handle_timer_tick<T, R>(&mut self, scheduler: &mut Scheduler<P, T, R>, self_id: Key<P>)
        requires
            old(self)@.runtime_key is Some,
            old(scheduler).wf(),
        ensures
            final(scheduler).wf(),
            final(scheduler)@.budget() <= old(scheduler)@.budget(),
            event_handled(
                self_id,
                RuntimeEvent::TimerTick,
                old(self)@,
                old(self).spec_policy(),
                old(scheduler)@,
                final(self)@,
                final(self).spec_policy(),
                final(scheduler)@,
            ),
    {
        let now = scheduler.time();
        self.next_timer_deadline = None;
        let ghost start = self@;
        proof {
            assert(start =~= RuntimeView { next_timer_deadline: None, ..old(self)@ });
        }
        loop
            invariant
                self@.timers_fired(now.0) == start.timers_fired(now.0),
                self@.runtime_key == start.runtime_key,
                self.spec_policy() == old(self).spec_policy(),
            ensures
                self@ == start.timers_fired(now.0),
            decreases self@.timers.len(),
        {
            let ghost before = self@;
            let due = self.timers.len() > 0 && self.timers[0].deadline.0 <= now.0;
            proof {
                if self.timers@.len() > 0 {
                    assert(self@.timers[0].deadline == self.timers@[0].deadline.0);
                }
            }
            if !due {
                proof {
                    assert(self@ =~= RuntimeView {
                        timers: timers_left(self@.timers, now.0),
                        ..self@
                    });
                    assert(due_tasks(self@.timers, now.0) =~= Seq::empty());
                }
                break;
            }
            let timer = self.timers.remove(0);
            proof {
                assert(self@.timers =~= before.timers.drop_first());
                assert(self@ =~= RuntimeView { timers: before.timers.drop_first(), ..before });
                lemma_fire_first(before, now.0);
                lemma_woken_all_ignores_timers(self@, timer.tasks@, self@.timers);
            }
            self.wake_all(&timer.tasks);
        }
        proof {
            lemma_woken_all_ignores_timers(
                RuntimeView { timers: timers_left(start.timers, now.0), ..start },
                due_tasks(start.timers, now.0),
                Seq::empty(),
            );
        }
        self.schedule_next_timer_tick(scheduler, self_id);
        self.poll_ready_tasks(scheduler);
    }

    /// Drops a task and its timers.
    fn cancel_task<T, R>(
        &mut self,
        task_id: TaskId,
        scheduler: &mut Scheduler<P, T, R>,
        self_id: Key<P>,
    )
        requires
            old(scheduler).wf(),
        ensures
            final(scheduler).wf(),
            final(scheduler)@.budget() <= old(scheduler)@.budget(),
            event_handled(
                self_id,
                RuntimeEvent::Cancel { task_id },
                old(self)@,
                old(self).spec_policy(),
                old(scheduler)@,
                final(self)@,
                final(self).spec_policy(),
                final(scheduler)@,
            ),
    {
        self.tasks.remove(&task_id.0);
        let ghost views = timer_views(self.timers@);
        let mut kept: Vec<Timer> = Vec::new();
        let mut i: usize = 0;
        while i < self.timers.len()
            invariant
                i <= self.timers@.len(),
                views == timer_views(self.timers@),
                timer_views(kept@) == without_task(views.take(i as int), task_id),
            decreases self.timers@.len() - i,
        {
            let left = ids_without(&self.timers[i].tasks, task_id);
            let ghost kept_before = kept@;
            proof {
                assert(views.take(i + 1).drop_last() =~= views.take(i as int));
                assert(views.take(i + 1).last() == self.timers@[i as int]@);
            }
            if left.len() > 0 {
                let timer = Timer { deadline: self.timers[i].deadline, tasks: left };
                kept.push(timer);
                proof {
                    assert(timer_views(kept@) =~= timer_views(kept_before).push(timer@));
                }
            }
            i = i + 1;
        }
        proof {
            assert(views.take(i as int) =~= views);
        }
        self.timers = kept;
        proof {
            assert(self@ =~= RuntimeView {
                tasks: old(self)@.tasks.remove(task_id.0),
                timers: without_task(old(self)@.timers, task_id),
                ..old(self)@
            });
        }
        self.schedule_next_timer_tick(scheduler, self_id);
    }

    /// Processes an event that is addressed to the runtime.
    pub fn process<T, R>(
        &mut self,
        self_id: Key<P>,
        event: RuntimeEvent,
        scheduler: &mut Scheduler<P, T, R>,
    )
        requires
            old(scheduler).wf(),
        ensures
            final(scheduler).wf(),
            final(scheduler)@.budget() <= old(scheduler)@.budget(),
            event_processed(
                self_id,
                event,
                old(self)@,
                old(self).spec_policy(),
                old(scheduler)@,
                final(self)@,
                final(self).spec_policy(),
                final(scheduler)@,
            ),
    {
        if self.runtime_key.is_none() {
            self.runtime_key = Some(self_id);
        }
        let ghost before = self@;
        proof {
            assert(before =~= old(self)@.known_as(self_id));
        }
        match event {
            RuntimeEvent::Poll => {
                self.poll_ready_tasks(scheduler);
            },
            RuntimeEvent::Wake { task_id } => {
                self.wake_task(task_id);
                self.poll_ready_tasks(scheduler);
            },
            RuntimeEvent::Cancel { task_id } => {
                self.cancel_task(task_id, scheduler, self_id);
            },
            RuntimeEvent::RegisterTimer { task_id, deadline } => {
                self.register_timer(task_id, deadline, scheduler, self_id);
            },
            RuntimeEvent::TimerTick => {
                self.handle_timer_tick(scheduler, self_id);
            },
        }
        let ghost left = scheduler@;
        proof {
            assert(event_handled(
                self_id,
                event,
                before,
                old(self).spec_policy(),
                old(scheduler)@,
                self@,
                self.spec_policy(),
                left,
            ));
        }
        if self.ready_queue.len() > 0 {
            scheduler.try_schedule(SimTime::zero(), self_id, P::wrap(RuntimeEvent::Poll));
        }
    }
}

/// Taking in tasks leaves the rest of the runtime as it is.
proof fn lemma_taken_in_keeps<F, P>(v: RuntimeView<F, P>, requests: Seq<SpawnRequest<F>>)
    ensures
        v.taken_in(requests) == (RuntimeView {
            tasks: v.taken_in(requests).tasks,
            ready: v.taken_in(requests).ready,
            ..v
        }),
    decreases requests.len(),
{
    if requests.len() > 0 {
        lemma_taken_in_keeps(
            v.with_task(requests[0].task_id, requests[0].future),
            requests.drop_first(),
        );
    }
}

impl<F: AsyncTask<RuntimeEvent>, Q: ReadyTaskPolicy, T, R> Component<T, R> for DesRuntime<
    F,
    Q,
    RuntimeEvent,
> {
    type Event = RuntimeEvent;

    open spec fn processes(
        before: Self,
        self_id: Key<RuntimeEvent>,
        event: RuntimeEvent,
        scheduler_before: SchedulerView<RuntimeEvent, T, R>,
        after: Self,
        scheduler_after: SchedulerView<RuntimeEvent, T, R>,
    ) -> bool {
        event_processed(
            self_id,
            event,
            before@,
            before.spec_policy(),
            scheduler_before,
            after@,
            after.spec_policy(),
            scheduler_after,
        )
    }

    fn process_event(
        &mut self,
        self_id: Key<RuntimeEvent>,
        event: &RuntimeEvent,
        scheduler: &mut Scheduler<RuntimeEvent, T, R>,
    ) {
        self.process(self_id, *event, scheduler);
    }
}

/// A runtime that was added to a simulation.
pub struct InstalledDesRuntime<P> {
    pub runtime_key: Key<P>,
}

/// Adds a runtime to a simulation, and schedules its first poll.
pub fn install<F, Q, T, R, S>(
    sim: &mut Simulation<DesRuntime<F, Q, RuntimeEvent>, T, R, S>,
    runtime: DesRuntime<F, Q, RuntimeEvent>,
) -> (installed: InstalledDesRuntime<RuntimeEvent>) where
    F: AsyncTask<RuntimeEvent>,
    Q: ReadyTaskPolicy,

    requires
        old(sim).wf(),
        old(sim).next_component_id < u64::MAX,
        old(sim).scheduler@.next_event_id < u64::MAX,
    ensures
        final(sim).wf(),
        installed.runtime_key.value() == old(sim).next_component_value(),
        final(sim).components@.components == old(sim).components@.components.insert(
            installed.runtime_key.value(),
            runtime,
        ),
        final(sim).next_component_id == old(sim).next_component_id + 1,
        final(sim).scheduler@ == old(sim).scheduler@.scheduled(
            0,
            installed.runtime_key.id,
            RuntimeEvent::Poll,
        ),
        final(sim).frontier_policy == old(sim).frontier_policy,
        final(sim).config == old(sim).config,
{
    let runtime_key = sim.add_component(runtime);
    sim.schedule(SimTime::zero(), runtime_key, RuntimeEvent::Poll);
    InstalledDesRuntime { runtime_key }
}

} // verus!
