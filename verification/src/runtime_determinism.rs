//! Laws on runtimes that are given the same: they do the same.

use crate::async_runtime::{AsyncTask, PollContext, RuntimeEvent, SimSleep};
use crate::des_runtime::{CycleState, DesRuntime, RuntimeView};
use crate::key::Key;
use crate::ready_policy::{
    FifoReadyTaskPolicy, ReadyTaskPolicy, TaskId, UniformRandomReadyTaskPolicy,
};
use crate::scheduler::SchedulerView;
use crate::time::SimTime;
use vstd::prelude::*;

verus! {

/// Whether async tasks do the same where they are in the same state and see the same.
pub open spec fn async_tasks_are_determined<F: AsyncTask<P>, P>() -> bool {
    forall|
        task: F,
        cx: PollContext<P>,
        dx: PollContext<P>,
        a: F,
        b: F,
        cx2: PollContext<P>,
        dx2: PollContext<P>,
        a_done: bool,
        b_done: bool,
    |
        {
            &&& cx.time == dx.time
            &&& cx.runtime_key == dx.runtime_key
            &&& cx.task_id == dx.task_id
            &&& cx.deferred@ == dx.deferred@
            &&& #[trigger] F::polls(task, cx, a, cx2, a_done)
            &&& #[trigger] F::polls(task, dx, b, dx2, b_done)
        } ==> a == b && a_done == b_done && cx2.deferred@ == dx2.deferred@
}

/// Waits in simulation time are determined.
pub proof fn sleeps_are_determined()
    ensures
        async_tasks_are_determined::<SimSleep, RuntimeEvent>(),
{
    assert forall|
        task: SimSleep,
        cx: PollContext<RuntimeEvent>,
        dx: PollContext<RuntimeEvent>,
        a: SimSleep,
        b: SimSleep,
        cx2: PollContext<RuntimeEvent>,
        dx2: PollContext<RuntimeEvent>,
        a_done: bool,
        b_done: bool,
    |
        {
            &&& cx.time == dx.time
            &&& cx.runtime_key == dx.runtime_key
            &&& cx.task_id == dx.task_id
            &&& cx.deferred@ == dx.deferred@
            &&& #[trigger] SimSleep::polls(task, cx, a, cx2, a_done)
            &&& #[trigger] SimSleep::polls(task, dx, b, dx2, b_done)
        } implies a == b && a_done == b_done && cx2.deferred@ == dx2.deferred@ by {
        let (c, d) = (cx2.deferred@, dx2.deferred@);
        if c.len() > cx.deferred@.len() {
            assert(c =~= c.drop_last().push(c.last()));
            assert(d =~= d.drop_last().push(d.last()));
        }
        assert(c =~= d);
    }
}

/// Whether two poll cycles, which may have policies of different kinds, are in the same
/// state apart from them.
pub open spec fn same_cycle<F, Q, S, P>(a: CycleState<F, Q, P>, b: CycleState<F, S, P>) -> bool {
    &&& a.tasks == b.tasks
    &&& a.poll_set == b.poll_set
    &&& a.deferred == b.deferred
}

/// Whether the policies of one kind follow those of another: where they are alike and
/// choose among the same tasks, they take the same one, and are alike afterwards. Only
/// choices among tasks that `fit` count, and only those after which the first policy is
/// one of those that are `kept`.
pub open spec fn ready_policies_follow<Q: ReadyTaskPolicy, S: ReadyTaskPolicy>(
    alike: spec_fn(Q, S) -> bool,
    kept: spec_fn(Q) -> bool,
    fits: spec_fn(Seq<TaskId>) -> bool,
) -> bool {
    forall|
        p: Q,
        q: S,
        time: SimTime,
        ready: Seq<TaskId>,
        p2: Q,
        q2: S,
        i: usize,
        j: usize,
    |
        {
            &&& alike(p, q)
            &&& kept(p2)
            &&& fits(ready)
            &&& ready.len() > 0
            &&& #[trigger] Q::selects(p, time, ready, p2, i)
            &&& #[trigger] S::selects(q, time, ready, q2, j)
        } ==> {
            &&& alike(p2, q2)
            &&& crate::scheduler::clamped(i, ready.len()) == crate::scheduler::clamped(
                j,
                ready.len(),
            )
        }
}

/// Whether a policy that is kept after a choice was kept before it.
pub open spec fn kept_before_choices<Q: ReadyTaskPolicy>(kept: spec_fn(Q) -> bool) -> bool {
    forall|p: Q, time: SimTime, ready: Seq<TaskId>, p2: Q, i: usize|
        kept(p2) && #[trigger] Q::selects(p, time, ready, p2, i) ==> kept(p)
}

/// Whether tasks still fit where one of them is taken out.
pub open spec fn fits_without_one(fits: spec_fn(Seq<TaskId>) -> bool) -> bool {
    forall|s: Seq<TaskId>, k: int|
        fits(s) && 0 <= k < s.len() ==> fits(#[trigger] s.remove(k))
}

/// Whether what follows can be said of two kinds of policies: one follows the other,
/// step by step.
pub open spec fn ready_policies_agree<Q: ReadyTaskPolicy, S: ReadyTaskPolicy>(
    alike: spec_fn(Q, S) -> bool,
    kept: spec_fn(Q) -> bool,
    fits: spec_fn(Seq<TaskId>) -> bool,
) -> bool {
    &&& ready_policies_follow(alike, kept, fits)
    &&& kept_before_choices(kept)
    &&& fits_without_one(fits)
}

proof fn lemma_kept_before<F: AsyncTask<P>, Q: ReadyTaskPolicy, P>(
    states: Seq<CycleState<F, Q, P>>,
    now: SimTime,
    time: Option<SimTime>,
    key: Key<P>,
    kept: spec_fn(Q) -> bool,
    i: int,
)
    requires
        kept_before_choices(kept),
        crate::des_runtime::is_chain(states, now, time, key),
        kept(states.last().policy),
        0 <= i < states.len(),
    ensures
        kept(states[i].policy),
    decreases states.len() - i,
{
    if i < states.len() - 1 {
        lemma_kept_before(states, now, time, key, kept, i + 1);
        assert(crate::des_runtime::turned_at(states, i, now, time, key));
        let index = choose|index: usize| #[trigger]
            crate::des_runtime::cycle_turn(states[i], states[i + 1], now, time, key, index);
        assert(Q::selects(states[i].policy, now, states[i].poll_set, states[i + 1].policy, index));
    }
}

proof fn lemma_kept_before_cycle<F: AsyncTask<P>, Q: ReadyTaskPolicy, P, T, R>(
    before: RuntimeView<F, P>,
    p: Q,
    s: SchedulerView<P, T, R>,
    after: RuntimeView<F, P>,
    p2: Q,
    s2: SchedulerView<P, T, R>,
    kept: spec_fn(Q) -> bool,
)
    requires
        kept_before_choices(kept),
        kept(p2),
        crate::des_runtime::cycle_done(before, p, s, after, p2, s2),
    ensures
        kept(p),
{
    let now = SimTime(s.now);
    let (time, key) = (s.event_time(), before.runtime_key->0);
    let start = before.all_taken_in();
    let states = choose|states: Seq<CycleState<F, Q, P>>|
        {
            &&& #[trigger] crate::des_runtime::is_cycle(states, now, time, key)
            &&& states[0] == (CycleState {
                tasks: start.tasks,
                policy: p,
                poll_set: start.ready,
                deferred: s.deferred,
            })
            &&& after == (RuntimeView {
                tasks: states.last().tasks,
                ready: Seq::empty(),
                ..start
            })
            &&& p2 == states.last().policy
            &&& s2 == (SchedulerView { deferred: states.last().deferred, ..s })
        };
    lemma_kept_before(states, now, time, key, kept, 0);
}

/// What holds of a policy before each choice, where it holds after it, holds before each
/// event, where it holds after it.
pub proof fn policy_is_kept_before_an_event<
    F: AsyncTask<RuntimeEvent>,
    Q: ReadyTaskPolicy,
    T,
    R,
>(
    self_id: Key<RuntimeEvent>,
    event: RuntimeEvent,
    given: RuntimeView<F, RuntimeEvent>,
    p: Q,
    s: SchedulerView<RuntimeEvent, T, R>,
    after: RuntimeView<F, RuntimeEvent>,
    p2: Q,
    s2: SchedulerView<RuntimeEvent, T, R>,
    kept: spec_fn(Q) -> bool,
)
    requires
        kept_before_choices(kept),
        kept(p2),
        crate::des_runtime::event_processed(self_id, event, given, p, s, after, p2, s2),
    ensures
        kept(p),
{
    let v = given.known_as(self_id);
    let left = choose|left: SchedulerView<RuntimeEvent, T, R>|
        {
            &&& #[trigger] crate::des_runtime::event_handled(self_id, event, v, p, s, after, p2, left)
            &&& if after.ready.len() > 0 {
                crate::des_runtime::offered_event(left, 0, self_id, RuntimeEvent::Poll, s2)
            } else {
                s2 == left
            }
        };
    match event {
        RuntimeEvent::Poll => {
            lemma_kept_before_cycle(v, p, s, after, p2, left, kept);
        },
        RuntimeEvent::Wake { task_id } => {
            lemma_kept_before_cycle(v.woken(task_id), p, s, after, p2, left, kept);
        },
        RuntimeEvent::TimerTick => {
            let fired = (RuntimeView { next_timer_deadline: None, ..v }).timers_fired(s.now);
            let noted = crate::des_runtime::tick_noted(fired);
            let ticked = choose|ticked: SchedulerView<RuntimeEvent, T, R>|
                {
                    &&& #[trigger] crate::des_runtime::tick_scheduled(fired, s, self_id, ticked)
                    &&& crate::des_runtime::cycle_done(noted, p, ticked, after, p2, left)
                };
            lemma_kept_before_cycle(noted, p, ticked, after, p2, left, kept);
        },
        _ => {},
    }
}

/// Two poll cycles that start in the same state, with policies of which one follows the
/// other, are in the same state after each turn. This holds as long as the tasks are
/// determined by what they see.
pub proof fn poll_cycles_follow<F: AsyncTask<P>, Q: ReadyTaskPolicy, S: ReadyTaskPolicy, P>(
    a: Seq<CycleState<F, Q, P>>,
    b: Seq<CycleState<F, S, P>>,
    now: SimTime,
    time: Option<SimTime>,
    key: Key<P>,
    alike: spec_fn(Q, S) -> bool,
    kept: spec_fn(Q) -> bool,
    fits: spec_fn(Seq<TaskId>) -> bool,
    i: int,
)
    requires
        async_tasks_are_determined::<F, P>(),
        ready_policies_agree(alike, kept, fits),
        crate::des_runtime::is_chain(a, now, time, key),
        crate::des_runtime::is_chain(b, now, time, key),
        same_cycle(a[0], b[0]),
        alike(a[0].policy, b[0].policy),
        kept(a.last().policy),
        fits(a[0].poll_set),
        0 <= i < a.len(),
        i < b.len(),
    ensures
        same_cycle(a[i], b[i]),
        alike(a[i].policy, b[i].policy),
        fits(a[i].poll_set),
    decreases i,
{
    if i > 0 {
        poll_cycles_follow(a, b, now, time, key, alike, kept, fits, i - 1);
        lemma_kept_before(a, now, time, key, kept, i);
        let (c, d, c2, d2) = (a[i - 1], b[i - 1], a[i], b[i]);
        assert(crate::des_runtime::turned_at(a, i - 1, now, time, key));
        assert(crate::des_runtime::turned_at(b, i - 1, now, time, key));
        let index = choose|index: usize| #[trigger]
            crate::des_runtime::cycle_turn(c, c2, now, time, key, index);
        let other = choose|index: usize| #[trigger]
            crate::des_runtime::cycle_turn(d, d2, now, time, key, index);
        assert(Q::selects(c.policy, now, c.poll_set, c2.policy, index));
        assert(S::selects(d.policy, now, c.poll_set, d2.policy, other));
        let k = crate::scheduler::clamped(index, c.poll_set.len());
        assert(fits(c.poll_set.remove(k)));
        lemma_poll_is_determined(c, d, c2, d2, time, key, c.poll_set[k]);
    }
}

proof fn lemma_poll_is_determined<F: AsyncTask<P>, Q, S, P>(
    a: CycleState<F, Q, P>,
    b: CycleState<F, S, P>,
    a2: CycleState<F, Q, P>,
    b2: CycleState<F, S, P>,
    time: Option<SimTime>,
    key: Key<P>,
    id: TaskId,
)
    requires
        async_tasks_are_determined::<F, P>(),
        same_cycle(a, b),
        crate::des_runtime::task_polled(a, a2, time, key, id),
        crate::des_runtime::task_polled(b, b2, time, key, id),
    ensures
        a2.tasks == b2.tasks,
        a2.deferred == b2.deferred,
{
}

proof fn lemma_cycle_follows<
    F: AsyncTask<P>,
    Q: ReadyTaskPolicy,
    S: ReadyTaskPolicy,
    P,
    T,
    R,
>(
    before: RuntimeView<F, P>,
    p: Q,
    q: S,
    s: SchedulerView<P, T, R>,
    a2: RuntimeView<F, P>,
    p2: Q,
    as2: SchedulerView<P, T, R>,
    b2: RuntimeView<F, P>,
    q2: S,
    bs2: SchedulerView<P, T, R>,
    alike: spec_fn(Q, S) -> bool,
    kept: spec_fn(Q) -> bool,
    fits: spec_fn(Seq<TaskId>) -> bool,
)
    requires
        async_tasks_are_determined::<F, P>(),
        ready_policies_agree(alike, kept, fits),
        alike(p, q),
        kept(p2),
        before.all_taken_in().ready.len() <= usize::MAX ==> fits(before.all_taken_in().ready),
        crate::des_runtime::cycle_done(before, p, s, a2, p2, as2),
        crate::des_runtime::cycle_done(before, q, s, b2, q2, bs2),
    ensures
        a2 == b2,
        as2 == bs2,
        alike(p2, q2),
{
    let now = SimTime(s.now);
    let (time, key) = (s.event_time(), before.runtime_key->0);
    let start = before.all_taken_in();
    let a = choose|states: Seq<CycleState<F, Q, P>>|
        {
            &&& #[trigger] crate::des_runtime::is_cycle(states, now, time, key)
            &&& states[0] == (CycleState {
                tasks: start.tasks,
                policy: p,
                poll_set: start.ready,
                deferred: s.deferred,
            })
            &&& a2 == (RuntimeView {
                tasks: states.last().tasks,
                ready: Seq::empty(),
                ..start
            })
            &&& p2 == states.last().policy
            &&& as2 == (SchedulerView { deferred: states.last().deferred, ..s })
        };
    let b = choose|states: Seq<CycleState<F, S, P>>|
        {
            &&& #[trigger] crate::des_runtime::is_cycle(states, now, time, key)
            &&& states[0] == (CycleState {
                tasks: start.tasks,
                policy: q,
                poll_set: start.ready,
                deferred: s.deferred,
            })
            &&& b2 == (RuntimeView {
                tasks: states.last().tasks,
                ready: Seq::empty(),
                ..start
            })
            &&& q2 == states.last().policy
            &&& bs2 == (SchedulerView { deferred: states.last().deferred, ..s })
        };
    crate::runtime_laws::poll_cycle_has_one_turn_for_each_ready_task(a, now, time, key);
    crate::runtime_laws::poll_cycle_has_one_turn_for_each_ready_task(b, now, time, key);
    poll_cycles_follow(a, b, now, time, key, alike, kept, fits, a.len() - 1);
}

/// The tasks that a runtime polls when it gets an event.
pub open spec fn polled_by<F>(
    event: RuntimeEvent,
    v: RuntimeView<F, RuntimeEvent>,
    now: u64,
) -> Seq<TaskId> {
    match event {
        RuntimeEvent::Poll => v.all_taken_in().ready,
        RuntimeEvent::Wake { task_id } => v.woken(task_id).all_taken_in().ready,
        RuntimeEvent::TimerTick => crate::des_runtime::tick_noted(
            (RuntimeView { next_timer_deadline: None, ..v }).timers_fired(now),
        ).all_taken_in().ready,
        _ => Seq::empty(),
    }
}

/// Two runtimes that hold the same and get the same event, with policies of which one
/// follows the other, do the same and hold the same afterwards. This holds as long as
/// the tasks are determined by what they see.
pub proof fn processed_events_follow<
    F: AsyncTask<RuntimeEvent>,
    Q: ReadyTaskPolicy,
    S: ReadyTaskPolicy,
    T,
    R,
>(
    self_id: Key<RuntimeEvent>,
    event: RuntimeEvent,
    given: RuntimeView<F, RuntimeEvent>,
    p: Q,
    q: S,
    s: SchedulerView<RuntimeEvent, T, R>,
    a2: RuntimeView<F, RuntimeEvent>,
    p2: Q,
    as2: SchedulerView<RuntimeEvent, T, R>,
    b2: RuntimeView<F, RuntimeEvent>,
    q2: S,
    bs2: SchedulerView<RuntimeEvent, T, R>,
    alike: spec_fn(Q, S) -> bool,
    kept: spec_fn(Q) -> bool,
    fits: spec_fn(Seq<TaskId>) -> bool,
)
    requires
        async_tasks_are_determined::<F, RuntimeEvent>(),
        ready_policies_agree(alike, kept, fits),
        alike(p, q),
        kept(p2),
        ({
            let ready = polled_by(event, given.known_as(self_id), s.now);
            ready.len() <= usize::MAX ==> fits(ready)
        }),
        crate::des_runtime::event_processed(self_id, event, given, p, s, a2, p2, as2),
        crate::des_runtime::event_processed(self_id, event, given, q, s, b2, q2, bs2),
    ensures
        a2 == b2,
        as2 == bs2,
        alike(p2, q2),
{
    let v = given.known_as(self_id);
    let a_left = choose|left: SchedulerView<RuntimeEvent, T, R>|
        {
            &&& #[trigger] crate::des_runtime::event_handled(self_id, event, v, p, s, a2, p2, left)
            &&& if a2.ready.len() > 0 {
                crate::des_runtime::offered_event(left, 0, self_id, RuntimeEvent::Poll, as2)
            } else {
                as2 == left
            }
        };
    let b_left = choose|left: SchedulerView<RuntimeEvent, T, R>|
        {
            &&& #[trigger] crate::des_runtime::event_handled(self_id, event, v, q, s, b2, q2, left)
            &&& if b2.ready.len() > 0 {
                crate::des_runtime::offered_event(left, 0, self_id, RuntimeEvent::Poll, bs2)
            } else {
                bs2 == left
            }
        };
    match event {
        RuntimeEvent::Poll => {
            lemma_cycle_follows(v, p, q, s, a2, p2, a_left, b2, q2, b_left, alike, kept, fits);
        },
        RuntimeEvent::Wake { task_id } => {
            let w = v.woken(task_id);
            lemma_cycle_follows(w, p, q, s, a2, p2, a_left, b2, q2, b_left, alike, kept, fits);
        },
        RuntimeEvent::TimerTick => {
            let fired = (RuntimeView { next_timer_deadline: None, ..v }).timers_fired(s.now);
            let noted = crate::des_runtime::tick_noted(fired);
            let at = choose|ticked: SchedulerView<RuntimeEvent, T, R>|
                {
                    &&& #[trigger] crate::des_runtime::tick_scheduled(fired, s, self_id, ticked)
                    &&& crate::des_runtime::cycle_done(noted, p, ticked, a2, p2, a_left)
                };
            let bt = choose|ticked: SchedulerView<RuntimeEvent, T, R>|
                {
                    &&& #[trigger] crate::des_runtime::tick_scheduled(fired, s, self_id, ticked)
                    &&& crate::des_runtime::cycle_done(noted, q, ticked, b2, q2, b_left)
                };
            assert(at == bt);
            lemma_cycle_follows(noted, p, q, at, a2, p2, a_left, b2, q2, b_left, alike, kept, fits);
        },
        _ => {},
    }
}

/// Whether policies select the same task where they are alike, and are alike
/// afterwards.
pub open spec fn ready_policies_are_determined<Q: ReadyTaskPolicy>(
    alike: spec_fn(Q, Q) -> bool,
) -> bool {
    forall|
        p: Q,
        q: Q,
        time: SimTime,
        ready: Seq<TaskId>,
        p2: Q,
        q2: Q,
        i: usize,
        j: usize,
    |
        {
            &&& alike(p, q)
            &&& #[trigger] Q::selects(p, time, ready, p2, i)
            &&& #[trigger] Q::selects(q, time, ready, q2, j)
        } ==> i == j && alike(p2, q2)
}

/// The order of ready tasks is determined by default: any two policies that are first
/// in, first out count as alike.
pub proof fn fifo_ready_policies_are_determined()
    ensures
        ready_policies_are_determined(|p: FifoReadyTaskPolicy, q: FifoReadyTaskPolicy| true),
{
}

/// Random policies are determined by their states, and so by their seeds.
pub proof fn random_ready_policies_are_determined()
    ensures
        ready_policies_are_determined(
            |p: UniformRandomReadyTaskPolicy, q: UniformRandomReadyTaskPolicy|
                p.state() == q.state(),
        ),
{
}

/// Whether two runtimes hold the same, with policies that are alike.
pub open spec fn runtimes_alike<F, Q, P>(policies_alike: spec_fn(Q, Q) -> bool) -> spec_fn(
    DesRuntime<F, Q, P>,
    DesRuntime<F, Q, P>,
) -> bool {
    |a: DesRuntime<F, Q, P>, b: DesRuntime<F, Q, P>|
        a@ == b@ && policies_alike(a.spec_policy(), b.spec_policy())
}

/// A runtime is determined where its tasks and its policy are: runtimes that hold the
/// same, with policies that are alike, do the same with each event. So the runs of
/// simulations with runtimes are reproducible.
pub proof fn runtimes_are_determined<F: AsyncTask<RuntimeEvent>, Q: ReadyTaskPolicy, T, R>(
    policies_alike: spec_fn(Q, Q) -> bool,
)
    requires
        async_tasks_are_determined::<F, RuntimeEvent>(),
        ready_policies_are_determined(policies_alike),
    ensures
        crate::reproducibility::components_are_determined::<DesRuntime<F, Q, RuntimeEvent>, T, R>(
            runtimes_alike(policies_alike),
        ),
{
    let alike = runtimes_alike::<F, Q, RuntimeEvent>(policies_alike);
    assert forall|
        c: DesRuntime<F, Q, RuntimeEvent>,
        d: DesRuntime<F, Q, RuntimeEvent>,
        ck: Key<RuntimeEvent>,
        dk: Key<RuntimeEvent>,
        event: RuntimeEvent,
        s: SchedulerView<RuntimeEvent, T, R>,
        c2: DesRuntime<F, Q, RuntimeEvent>,
        d2: DesRuntime<F, Q, RuntimeEvent>,
        cs: SchedulerView<RuntimeEvent, T, R>,
        ds: SchedulerView<RuntimeEvent, T, R>,
    |
        {
            &&& alike(c, d)
            &&& ck.id == dk.id
            &&& #[trigger] crate::component::Component::<T, R>::processes(c, ck, event, s, c2, cs)
            &&& #[trigger] crate::component::Component::<T, R>::processes(d, dk, event, s, d2, ds)
        } implies alike(c2, d2) && cs == ds by {
        assert(ck == dk);
        processed_events_follow(
            ck,
            event,
            c@,
            c.spec_policy(),
            d.spec_policy(),
            s,
            c2@,
            c2.spec_policy(),
            cs,
            d2@,
            d2.spec_policy(),
            ds,
            policies_alike,
            |p: Q| true,
            |ready: Seq<TaskId>| true,
        );
    }
}

} // verus!
