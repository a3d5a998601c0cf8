//! Laws on replayed runs: a recorded run can be repeated.

use crate::async_runtime::{AsyncTask, RuntimeEvent};
use crate::component::{Component, ComponentsView};
use crate::des_runtime::{CycleState, DesRuntime};
use crate::event::{EventEntry, FrontierEvent};
use crate::explore::frontier::{
    RecordingFrontierPolicy, ReplayFrontierPolicy, ReplayFrontierView,
};
use crate::explore::ready_task::{
    RecordingReadyTaskPolicy, ReplayReadyTaskPolicy, ReplayReadyTaskView,
};
use crate::explore::trace::{AsyncRuntimeDecisionView, SchedulerDecisionView, TraceEventView};
use crate::frontier_policy::EventFrontierPolicy;
use crate::key::Key;
use crate::ready_policy::{ReadyTaskPolicy, TaskId};
use crate::scheduler::SchedulerView;
use crate::simulation::Simulation;
use crate::task::Task;
use crate::time::SimTime;
use vstd::prelude::*;

verus! {

/// The choices among events that a policy has recorded so far.
pub open spec fn recorded_so_far<P>(policy: RecordingFrontierPolicy<P>) -> Seq<
    SchedulerDecisionView,
> {
    crate::explore::frontier::scheduler_decisions(policy.recorder@.events)
}

/// What a policy sees of the events that are due.
pub open spec fn seen<C: Component<T, R>, T, R, Q>(sim: Simulation<C, T, R, Q>) -> Seq<
    FrontierEvent,
> {
    crate::scheduler::descriptions(sim.scheduler@.frontier().due)
}

/// A recording policy that is consulted records its choice, and is recorded as the
/// index that was taken.
proof fn lemma_consulted_records<C: Component<T, R>, T, R, P: EventFrontierPolicy>(
    before: Simulation<C, T, R, RecordingFrontierPolicy<P>>,
    after: RecordingFrontierPolicy<P>,
    index: usize,
)
    requires
        before.scheduler@.frontier().due.len() > 0,
        crate::scheduler::consulted(
            before.frontier_policy,
            before.scheduler@.frontier().due,
            after,
            index,
        ),
    ensures
        ({
            let due = before.scheduler@.frontier().due;
            let now = recorded_so_far(before.frontier_policy);
            &&& due.len() <= 1 ==> recorded_so_far(after) == now
            &&& due.len() > 1 ==> {
                &&& recorded_so_far(after) == now.push(
                    crate::explore::frontier::recorded_decision(
                        SimTime(due[0].spec_time()),
                        seen(before),
                        index,
                    ),
                )
                &&& index < due.len() <= usize::MAX
            }
        }),
{
    let due = before.scheduler@.frontier().due;
    if due.len() > 1 {
        let d = crate::explore::frontier::recorded_decision(
            SimTime(due[0].spec_time()),
            seen(before),
            index,
        );
        crate::explore::frontier::recording_is_what_a_replay_reads(
            before.frontier_policy.recorder@.events,
            d,
        );
        assert(after.recorder@.events == before.frontier_policy.recorder@.events.push(
            TraceEventView::SchedulerDecision(d),
        ));
    }
}

/// The choices that are recorded at some point of a run stay the first ones of what is
/// recorded later.
pub proof fn recording_only_grows<
    C: Component<T, R>,
    T: Task<C::Event, R>,
    R,
    P: EventFrontierPolicy,
>(states: Seq<Simulation<C, T, R, RecordingFrontierPolicy<P>>>, i: int, j: int)
    requires
        crate::execute::is_run(states),
        0 <= i <= j < states.len(),
    ensures
        recorded_so_far(states[i].frontier_policy).is_prefix_of(
            recorded_so_far(states[j].frontier_policy),
        ),
    decreases j - i,
{
    if i < j {
        recording_only_grows(states, i, j - 1);
        let before = states[j - 1];
        assert(crate::simulation::steps_to(before, states[j - 1 + 1]));
        let first = recorded_so_far(states[i].frontier_policy);
        let now = recorded_so_far(before.frontier_policy);
        let next = recorded_so_far(states[j].frontier_policy);
        if before.scheduler@.frontier().due.len() > 0 {
            let (index, left) = choose|index: usize, left: SchedulerView<C::Event, T, R>| #[trigger]
                crate::simulation::stepped(before, states[j], index, left);
            lemma_consulted_records(before, states[j].frontier_policy, index);
        }
        assert(now =~= next || now =~= next.drop_last());
        assert(first =~= next.subrange(0, first.len() as int));
    } else {
        let first = recorded_so_far(states[i].frontier_policy);
        assert(first =~= first.subrange(0, first.len() as int));
    }
}

/// Whether a replay is to repeat a recorded run: it reads what the run has recorded
/// until its end, and has read nothing yet.
pub open spec fn replays<P>(
    replay: ReplayFrontierPolicy,
    first: RecordingFrontierPolicy<P>,
    last: RecordingFrontierPolicy<P>,
) -> bool {
    &&& recorded_so_far(first).len() == 0
    &&& replay@ == (ReplayFrontierView {
        decisions: recorded_so_far(last),
        next: 0,
        error: None,
    })
    &&& recorded_so_far(last).len() <= usize::MAX
}

/// Whether a component that is kept after an event was kept before it.
pub open spec fn kept_before_events<C: Component<T, R>, T, R>(
    kept: spec_fn(u128, C) -> bool,
) -> bool {
    forall|
        c: C,
        key: Key<C::Event>,
        event: C::Event,
        s: SchedulerView<C::Event, T, R>,
        c2: C,
        s2: SchedulerView<C::Event, T, R>,
    |
        kept(key.value(), c2) && #[trigger] C::processes(c, key, event, s, c2, s2) ==> kept(
            key.value(),
            c,
        )
}

proof fn lemma_kept_before_step<
    C: Component<T, R>,
    T: Task<C::Event, R>,
    R,
    Q: EventFrontierPolicy,
>(before: Simulation<C, T, R, Q>, after: Simulation<C, T, R, Q>, kept: spec_fn(u128, C) -> bool)
    requires
        kept_before_events::<C, T, R>(kept),
        crate::simulation::steps_to(before, after),
        crate::reproducibility::all_kept(after.components@, kept),
    ensures
        crate::reproducibility::all_kept(before.components@, kept),
{
    let due = before.scheduler@.frontier().due;
    if due.len() > 0 {
        let (index, left) = choose|index: usize, left: SchedulerView<C::Event, T, R>| #[trigger]
            crate::simulation::stepped(before, after, index, left);
        let k = crate::scheduler::clamped(index, due.len());
        let (a, a2) = (before.components@, after.components@);
        if let EventEntry::Component(e) = due[k] {
            let id = crate::ids::uuid_value(e.component);
            let s = SchedulerView { in_event: true, ..before.scheduler@.taken(k) };
            if a.components.contains_key(id) {
                let (key, c2) = choose|key: Key<C::Event>, changed: C|
                    {
                        &&& key.id == e.component
                        &&& #[trigger] C::processes(a.components[id], key, e.inner, s, changed, left)
                        &&& a2 == (ComponentsView {
                            components: a.components.insert(id, changed),
                            ..a
                        })
                    };
                assert(a2.components.contains_key(id));
                assert(kept(key.value(), c2));
                assert(kept(id, a.components[id]));
                assert forall|other: u128| #[trigger] a.components.contains_key(
                    other,
                ) implies kept(other, a.components[other]) by {
                    if other != id {
                        assert(a2.components.contains_key(other));
                    }
                }
            }
        }
    }
}

proof fn lemma_kept_before_run<
    C: Component<T, R>,
    T: Task<C::Event, R>,
    R,
    Q: EventFrontierPolicy,
>(states: Seq<Simulation<C, T, R, Q>>, kept: spec_fn(u128, C) -> bool, i: int)
    requires
        kept_before_events::<C, T, R>(kept),
        crate::execute::is_run(states),
        crate::reproducibility::all_kept(states.last().components@, kept),
        0 <= i < states.len(),
    ensures
        crate::reproducibility::all_kept(states[i].components@, kept),
    decreases states.len() - i,
{
    if i < states.len() - 1 {
        lemma_kept_before_run(states, kept, i + 1);
        assert(crate::simulation::steps_to(states[i], states[i + 1]));
        lemma_kept_before_step(states[i], states[i + 1], kept);
    }
}

/// A run that was recorded is repeated by a replay of its trace, where the components of
/// the replay follow those that were recorded: from matching settings, the two runs are
/// in matching settings after each step, and the replay reports no difference. This
/// holds as long as tasks are determined by what they see; the policy that was recorded
/// need not be. Components of the two runs may be of different kinds, such as runtimes
/// that record and runtimes that replay.
pub proof fn replay_follows_a_recorded_run<
    C: Component<T, R>,
    D: Component<T, R, Event = C::Event>,
    T: Task<C::Event, R>,
    R,
    P: EventFrontierPolicy,
>(
    recorded: Seq<Simulation<C, T, R, RecordingFrontierPolicy<P>>>,
    replayed: Seq<Simulation<D, T, R, ReplayFrontierPolicy>>,
    alike: spec_fn(u128, C, D) -> bool,
    kept: spec_fn(u128, C) -> bool,
    i: int,
)
    requires
        crate::reproducibility::components_follow::<C, D, T, R>(alike, kept),
        kept_before_events::<C, T, R>(kept),
        crate::reproducibility::all_kept(recorded.last().components@, kept),
        crate::reproducibility::tasks_are_determined::<C::Event, T, R>(),
        crate::execute::is_run(recorded),
        crate::execute::is_run(replayed),
        recorded[0].scheduler@.wf(),
        crate::reproducibility::matching_setting(recorded[0], replayed[0], alike),
        replays(
            replayed[0].frontier_policy,
            recorded[0].frontier_policy,
            recorded.last().frontier_policy,
        ),
        0 <= i < recorded.len(),
        i < replayed.len(),
    ensures
        crate::reproducibility::matching_setting(recorded[i], replayed[i], alike),
        replayed[i].frontier_policy@ == (ReplayFrontierView {
            next: recorded_so_far(recorded[i].frontier_policy).len() as usize,
            ..replayed[0].frontier_policy@
        }),
    decreases i,
{
    let last = recorded.len() - 1;
    if i > 0 {
        replay_follows_a_recorded_run(recorded, replayed, alike, kept, i - 1);
        lemma_kept_before_run(recorded, kept, i);
        let a = recorded[i - 1];
        let b = replayed[i - 1];
        let a2 = recorded[i];
        let b2 = replayed[i];
        assert(crate::simulation::steps_to(a, recorded[i - 1 + 1]));
        assert(crate::simulation::steps_to(b, replayed[i - 1 + 1]));
        crate::execute::every_state_of_a_run_is_in_order(recorded, i - 1);
        let due = a.scheduler@.frontier().due;
        if due.len() > 0 {
            let (index, al) = choose|index: usize, left: SchedulerView<C::Event, T, R>| #[trigger]
                crate::simulation::stepped(a, a2, index, left);
            let (other, bl) = choose|index: usize, left: SchedulerView<C::Event, T, R>| #[trigger]
                crate::simulation::stepped(b, b2, index, left);
            lemma_consulted_records(a, a2.frontier_policy, index);
            if due.len() > 1 {
                recording_only_grows(recorded, i, last);
                let all = recorded_so_far(recorded.last().frontier_policy);
                let now = recorded_so_far(a.frontier_policy);
                let next = recorded_so_far(a2.frontier_policy);
                assert(next.len() <= all.len());
                assert(all[now.len() as int] == next[now.len() as int]);
                let frontier = seen(a);
                assert forall|m: int, n: int| 0 <= m < n < frontier.len() implies (
                #[trigger] frontier[m]).seq != (#[trigger] frontier[n]).seq by {
                    crate::scheduler_laws::due_events_have_distinct_numbers(a.scheduler@, m, n);
                }
                crate::explore::frontier::replay_repeats_a_recorded_choice(
                    b.frontier_policy@,
                    SimTime(due[0].spec_time()),
                    frontier,
                    index,
                );
            }
            assert(index == other);
            crate::reproducibility::step_follows_the_choice(
                a,
                b,
                a2,
                b2,
                index,
                al,
                bl,
                alike,
                kept,
            );
        }
    }
}

/// A run that was recorded is repeated by a replay of its trace: from the same setting,
/// the two runs are in the same setting after each step, and the replay reports no
/// difference. This holds as long as components and tasks are determined by what they
/// see; the policy that was recorded need not be.
pub proof fn replay_repeats_a_recorded_run<
    C: Component<T, R>,
    T: Task<C::Event, R>,
    R,
    P: EventFrontierPolicy,
>(
    recorded: Seq<Simulation<C, T, R, RecordingFrontierPolicy<P>>>,
    replayed: Seq<Simulation<C, T, R, ReplayFrontierPolicy>>,
    components_alike: spec_fn(C, C) -> bool,
    i: int,
)
    requires
        crate::reproducibility::components_are_determined::<C, T, R>(components_alike),
        crate::reproducibility::tasks_are_determined::<C::Event, T, R>(),
        crate::execute::is_run(recorded),
        crate::execute::is_run(replayed),
        recorded[0].scheduler@.wf(),
        crate::reproducibility::same_setting(recorded[0], replayed[0], components_alike),
        replays(
            replayed[0].frontier_policy,
            recorded[0].frontier_policy,
            recorded.last().frontier_policy,
        ),
        0 <= i < recorded.len(),
        i < replayed.len(),
    ensures
        crate::reproducibility::same_setting(recorded[i], replayed[i], components_alike),
        replayed[i].frontier_policy@ == (ReplayFrontierView {
            next: recorded_so_far(recorded[i].frontier_policy).len() as usize,
            ..replayed[0].frontier_policy@
        }),
{
    crate::reproducibility::determined_components_follow_each_other::<C, T, R>(components_alike);
    let alike = |id: u128, c: C, d: C| components_alike(c, d);
    let kept = |id: u128, c: C| true;
    assert(crate::reproducibility::matching_setting(recorded[0], replayed[0], alike));
    replay_follows_a_recorded_run(recorded, replayed, alike, kept, i);
    let (a, b) = (recorded[i].components@, replayed[i].components@);
    assert forall|id: u128| #[trigger] a.components.contains_key(id) implies components_alike(
        a.components[id],
        b.components[id],
    ) by {
        assert(alike(id, a.components[id], b.components[id]));
    }
}

/// The choices among ready tasks that a policy has recorded so far.
pub open spec fn ready_recorded_so_far<P>(policy: RecordingReadyTaskPolicy<P>) -> Seq<
    AsyncRuntimeDecisionView,
> {
    crate::explore::ready_task::ready_decisions(policy.recorder@.events)
}

proof fn lemma_choice_is_recorded<Q: ReadyTaskPolicy>(
    before: RecordingReadyTaskPolicy<Q>,
    time: SimTime,
    ready: Seq<TaskId>,
    after: RecordingReadyTaskPolicy<Q>,
    index: usize,
)
    requires
        RecordingReadyTaskPolicy::<Q>::selects(before, time, ready, after, index),
    ensures
        ready_recorded_so_far(after) == ready_recorded_so_far(before).push(
            crate::explore::ready_task::recorded_ready_decision(time, ready, index),
        ),
        0 < ready.len() <= usize::MAX ==> index < ready.len(),
{
    let d = crate::explore::ready_task::recorded_ready_decision(time, ready, index);
    crate::explore::ready_task::ready_recording_is_what_a_replay_reads(before.recorder@.events, d);
    assert(after.recorder@.events == before.recorder@.events.push(
        TraceEventView::AsyncRuntimeDecision(d),
    ));
}

/// A turn of a recorded cycle records one choice, that of the index that was taken.
proof fn lemma_turn_records<F: AsyncTask<P>, Q: ReadyTaskPolicy, P>(
    before: CycleState<F, RecordingReadyTaskPolicy<Q>, P>,
    after: CycleState<F, RecordingReadyTaskPolicy<Q>, P>,
    now: SimTime,
    time: Option<SimTime>,
    key: Key<P>,
    index: usize,
)
    requires
        crate::des_runtime::cycle_turn(before, after, now, time, key, index),
        before.poll_set.len() <= usize::MAX,
    ensures
        index < before.poll_set.len(),
        ready_recorded_so_far(after.policy) == ready_recorded_so_far(before.policy).push(
            crate::explore::ready_task::recorded_ready_decision(now, before.poll_set, index),
        ),
{
    lemma_choice_is_recorded(before.policy, now, before.poll_set, after.policy, index);
}

/// Each turn of a recorded cycle records one choice, and keeps those before.
pub proof fn cycle_records_each_turn<F: AsyncTask<P>, Q: ReadyTaskPolicy, P>(
    states: Seq<CycleState<F, RecordingReadyTaskPolicy<Q>, P>>,
    now: SimTime,
    time: Option<SimTime>,
    key: Key<P>,
    i: int,
    j: int,
)
    requires
        crate::des_runtime::is_chain(states, now, time, key),
        states[0].poll_set.len() <= usize::MAX,
        0 <= i <= j < states.len(),
    ensures
        states[j].poll_set.len() <= states[0].poll_set.len(),
        ready_recorded_so_far(states[j].policy).len() == ready_recorded_so_far(
            states[i].policy,
        ).len() + (j - i),
        ready_recorded_so_far(states[i].policy).is_prefix_of(
            ready_recorded_so_far(states[j].policy),
        ),
    decreases j,
{
    let first = ready_recorded_so_far(states[i].policy);
    if j > 0 {
        let before = if i < j {
            i
        } else {
            i - 1
        };
        cycle_records_each_turn(states, now, time, key, before, j - 1);
        assert(crate::des_runtime::turned_at(states, j - 1, now, time, key));
        let index = choose|index: usize| #[trigger]
            crate::des_runtime::cycle_turn(states[j - 1], states[j], now, time, key, index);
        lemma_turn_records(states[j - 1], states[j], now, time, key, index);
        let next = ready_recorded_so_far(states[j].policy);
        assert(next.drop_last() =~= ready_recorded_so_far(states[j - 1].policy));
        assert(first =~= next.subrange(0, first.len() as int));
    } else {
        assert(first =~= first.subrange(0, first.len() as int));
    }
}

/// Whether a replay has repeated what a policy has recorded so far of the choices that
/// are to be repeated.
pub open spec fn keeps_up<P>(
    decisions: Seq<AsyncRuntimeDecisionView>,
    recording: RecordingReadyTaskPolicy<P>,
    replay: ReplayReadyTaskPolicy,
) -> bool {
    &&& ready_recorded_so_far(recording).is_prefix_of(decisions)
    &&& decisions.len() <= usize::MAX
    &&& replay@ == (ReplayReadyTaskView {
        decisions,
        next: ready_recorded_so_far(recording).len() as usize,
        error: None,
        fifo_fallback: decisions.len() == 0,
    })
}

/// Whether no task stands among others twice, and they can be counted.
pub open spec fn distinct_tasks(ready: Seq<TaskId>) -> bool {
    ready.no_duplicates() && ready.len() <= usize::MAX
}

/// A replay of choices among ready tasks follows the recording of them, as far as what
/// is recorded is among the choices that it has.
pub proof fn ready_replay_follows_a_recording<Q: ReadyTaskPolicy>(
    decisions: Seq<AsyncRuntimeDecisionView>,
)
    ensures
        crate::runtime_determinism::ready_policies_agree(
            |p: RecordingReadyTaskPolicy<Q>, q: ReplayReadyTaskPolicy| keeps_up(decisions, p, q),
            |p: RecordingReadyTaskPolicy<Q>| ready_recorded_so_far(p).is_prefix_of(decisions),
            |ready: Seq<TaskId>| distinct_tasks(ready),
        ),
{
    let kept = |p: RecordingReadyTaskPolicy<Q>|
        ready_recorded_so_far(p).is_prefix_of(decisions);
    assert forall|
        p: RecordingReadyTaskPolicy<Q>,
        time: SimTime,
        ready: Seq<TaskId>,
        p2: RecordingReadyTaskPolicy<Q>,
        i: usize,
    |
        kept(p2) && #[trigger] RecordingReadyTaskPolicy::<Q>::selects(
            p,
            time,
            ready,
            p2,
            i,
        ) implies kept(p) by {
        lemma_choice_is_recorded(p, time, ready, p2, i);
        let (now, next) = (ready_recorded_so_far(p), ready_recorded_so_far(p2));
        assert(now =~= decisions.subrange(0, now.len() as int)) by {
            assert(next == decisions.subrange(0, next.len() as int));
            assert(next.drop_last() =~= now);
        }
    }
    assert forall|
        p: RecordingReadyTaskPolicy<Q>,
        q: ReplayReadyTaskPolicy,
        time: SimTime,
        ready: Seq<TaskId>,
        p2: RecordingReadyTaskPolicy<Q>,
        q2: ReplayReadyTaskPolicy,
        i: usize,
        j: usize,
    |
        {
            &&& keeps_up(decisions, p, q)
            &&& kept(p2)
            &&& distinct_tasks(ready)
            &&& ready.len() > 0
            &&& #[trigger] RecordingReadyTaskPolicy::<Q>::selects(p, time, ready, p2, i)
            &&& #[trigger] ReplayReadyTaskPolicy::selects(q, time, ready, q2, j)
        } implies {
        &&& keeps_up(decisions, p2, q2)
        &&& crate::scheduler::clamped(i, ready.len()) == crate::scheduler::clamped(j, ready.len())
    } by {
        lemma_choice_is_recorded(p, time, ready, p2, i);
        let (now, next) = (ready_recorded_so_far(p), ready_recorded_so_far(p2));
        assert(decisions[now.len() as int] == next[now.len() as int]) by {
            assert(next == decisions.subrange(0, next.len() as int));
        }
        crate::explore::ready_task::ready_replay_repeats_a_recorded_choice(
            q@,
            time,
            ready,
            i,
            ready,
        );
    }
    assert forall|s: Seq<TaskId>, k: int| distinct_tasks(s) && 0 <= k < s.len() implies distinct_tasks(
        #[trigger] s.remove(k),
    ) by {
        let t = s.remove(k);
        assert forall|m: int, n: int| 0 <= m < t.len() && 0 <= n < t.len() && m != n implies t[m]
            != t[n] by {
            let a = if m < k { m } else { m + 1 };
            let b = if n < k { n } else { n + 1 };
            assert(t[m] == s[a] && t[n] == s[b]);
        }
    }
}

/// A poll cycle that was recorded is repeated by a replay of a trace that begins with
/// what was recorded until its end: from the same state, the two cycles are in the same
/// state after each turn, and the replay reports no difference. This holds as long as
/// the tasks are determined by what they see; the policy that was recorded need not be.
pub proof fn replay_repeats_a_recorded_cycle<F: AsyncTask<P>, Q: ReadyTaskPolicy, P>(
    recorded: Seq<CycleState<F, RecordingReadyTaskPolicy<Q>, P>>,
    replayed: Seq<CycleState<F, ReplayReadyTaskPolicy, P>>,
    now: SimTime,
    time: Option<SimTime>,
    key: Key<P>,
    decisions: Seq<AsyncRuntimeDecisionView>,
    i: int,
)
    requires
        crate::runtime_determinism::async_tasks_are_determined::<F, P>(),
        crate::des_runtime::is_chain(recorded, now, time, key),
        crate::des_runtime::is_chain(replayed, now, time, key),
        crate::runtime_determinism::same_cycle(recorded[0], replayed[0]),
        distinct_tasks(recorded[0].poll_set),
        keeps_up(decisions, recorded[0].policy, replayed[0].policy),
        ready_recorded_so_far(recorded.last().policy).is_prefix_of(decisions),
        0 <= i < recorded.len(),
        i < replayed.len(),
    ensures
        crate::runtime_determinism::same_cycle(recorded[i], replayed[i]),
        keeps_up(decisions, recorded[i].policy, replayed[i].policy),
{
    ready_replay_follows_a_recording::<Q>(decisions);
    crate::runtime_determinism::poll_cycles_follow(
        recorded,
        replayed,
        now,
        time,
        key,
        |p: RecordingReadyTaskPolicy<Q>, q: ReplayReadyTaskPolicy| keeps_up(decisions, p, q),
        |p: RecordingReadyTaskPolicy<Q>| ready_recorded_so_far(p).is_prefix_of(decisions),
        |ready: Seq<TaskId>| distinct_tasks(ready),
        i,
    );
}

/// Whether a runtime that replays is to repeat one that was recorded: both hold the same
/// and are in order, and the replay has repeated what was recorded so far. What is to be
/// repeated is given for each runtime, by its identifier.
pub open spec fn runtime_keeps_up<F, Q>(
    decisions: Map<u128, Seq<AsyncRuntimeDecisionView>>,
) -> spec_fn(
    u128,
    DesRuntime<F, RecordingReadyTaskPolicy<Q>, RuntimeEvent>,
    DesRuntime<F, ReplayReadyTaskPolicy, RuntimeEvent>,
) -> bool {
    |
        id: u128,
        a: DesRuntime<F, RecordingReadyTaskPolicy<Q>, RuntimeEvent>,
        b: DesRuntime<F, ReplayReadyTaskPolicy, RuntimeEvent>,
    |
        {
            &&& a@ == b@
            &&& crate::runtime_laws::runtime_in_order(a@)
            &&& keeps_up(decisions[id], a.spec_policy(), b.spec_policy())
        }
}

/// Whether what a runtime has recorded is what its replay begins with.
pub open spec fn recorded_among<F, Q>(
    decisions: Map<u128, Seq<AsyncRuntimeDecisionView>>,
) -> spec_fn(u128, DesRuntime<F, RecordingReadyTaskPolicy<Q>, RuntimeEvent>) -> bool {
    |id: u128, a: DesRuntime<F, RecordingReadyTaskPolicy<Q>, RuntimeEvent>|
        ready_recorded_so_far(a.spec_policy()).is_prefix_of(decisions[id])
}

/// A runtime that replays the choices of a recorded one follows it, event by event. This
/// holds as long as the tasks are determined by what they see; the policy that was
/// recorded need not be.
pub proof fn replaying_runtimes_follow<F: AsyncTask<RuntimeEvent>, Q: ReadyTaskPolicy, T, R>(
    decisions: Map<u128, Seq<AsyncRuntimeDecisionView>>,
)
    requires
        crate::runtime_determinism::async_tasks_are_determined::<F, RuntimeEvent>(),
    ensures
        crate::reproducibility::components_follow::<
            DesRuntime<F, RecordingReadyTaskPolicy<Q>, RuntimeEvent>,
            DesRuntime<F, ReplayReadyTaskPolicy, RuntimeEvent>,
            T,
            R,
        >(runtime_keeps_up(decisions), recorded_among(decisions)),
{
    let alike = runtime_keeps_up::<F, Q>(decisions);
    let kept = recorded_among::<F, Q>(decisions);
    assert forall|
        c: DesRuntime<F, RecordingReadyTaskPolicy<Q>, RuntimeEvent>,
        d: DesRuntime<F, ReplayReadyTaskPolicy, RuntimeEvent>,
        ck: Key<RuntimeEvent>,
        dk: Key<RuntimeEvent>,
        event: RuntimeEvent,
        s: SchedulerView<RuntimeEvent, T, R>,
        c2: DesRuntime<F, RecordingReadyTaskPolicy<Q>, RuntimeEvent>,
        d2: DesRuntime<F, ReplayReadyTaskPolicy, RuntimeEvent>,
        cs: SchedulerView<RuntimeEvent, T, R>,
        ds: SchedulerView<RuntimeEvent, T, R>,
    |
        {
            &&& alike(ck.value(), c, d)
            &&& kept(ck.value(), c2)
            &&& ck.id == dk.id
            &&& #[trigger] Component::<T, R>::processes(c, ck, event, s, c2, cs)
            &&& #[trigger] Component::<T, R>::processes(d, dk, event, s, d2, ds)
        } implies alike(ck.value(), c2, d2) && cs == ds by {
        assert(ck == dk);
        let all = decisions[ck.value()];
        ready_replay_follows_a_recording::<Q>(all);
        crate::runtime_laws::events_keep_the_runtime_in_order(
            ck,
            event,
            c@,
            c.spec_policy(),
            s,
            c2@,
            c2.spec_policy(),
            cs,
        );
        crate::runtime_determinism::processed_events_follow(
            ck,
            event,
            c@,
            c.spec_policy(),
            d.spec_policy(),
            s,
            c2@,
            c2.spec_policy(),
            cs,
            d2@,
            d2.spec_policy(),
            ds,
            |p: RecordingReadyTaskPolicy<Q>, q: ReplayReadyTaskPolicy| keeps_up(all, p, q),
            |p: RecordingReadyTaskPolicy<Q>| ready_recorded_so_far(p).is_prefix_of(all),
            |ready: Seq<TaskId>| distinct_tasks(ready),
        );
    }
}

proof fn lemma_recording_runtimes_keep<F: AsyncTask<RuntimeEvent>, Q: ReadyTaskPolicy, T, R>(
    decisions: Map<u128, Seq<AsyncRuntimeDecisionView>>,
)
    ensures
        kept_before_events::<DesRuntime<F, RecordingReadyTaskPolicy<Q>, RuntimeEvent>, T, R>(
            recorded_among(decisions),
        ),
{
    let kept = recorded_among::<F, Q>(decisions);
    assert forall|
        c: DesRuntime<F, RecordingReadyTaskPolicy<Q>, RuntimeEvent>,
        key: Key<RuntimeEvent>,
        event: RuntimeEvent,
        s: SchedulerView<RuntimeEvent, T, R>,
        c2: DesRuntime<F, RecordingReadyTaskPolicy<Q>, RuntimeEvent>,
        s2: SchedulerView<RuntimeEvent, T, R>,
    |
        kept(key.value(), c2) && #[trigger] Component::<T, R>::processes(
            c,
            key,
            event,
            s,
            c2,
            s2,
        ) implies kept(key.value(), c) by {
        let all = decisions[key.value()];
        ready_replay_follows_a_recording::<Q>(all);
        crate::runtime_determinism::policy_is_kept_before_an_event(
            key,
            event,
            c@,
            c.spec_policy(),
            s,
            c2@,
            c2.spec_policy(),
            s2,
            |p: RecordingReadyTaskPolicy<Q>| ready_recorded_so_far(p).is_prefix_of(all),
        );
    }
}

/// A run whose runtimes recorded their choices among ready tasks, and whose choices
/// among events were recorded too, is repeated by a replay of both: from the same
/// setting, the two runs are in the same setting after each step, and neither the replay
/// of events nor that of ready tasks reports a difference. What the runtimes replay is
/// given by their identifiers, and begins with what they have recorded until the end.
/// This holds as long as tasks of both kinds are determined by what they see; the
/// policies that were recorded need not be.
pub proof fn replay_repeats_a_recorded_run_of_runtimes<
    F: AsyncTask<RuntimeEvent>,
    Q: ReadyTaskPolicy,
    T: Task<RuntimeEvent, R>,
    R,
    P: EventFrontierPolicy,
>(
    recorded: Seq<
        Simulation<
            DesRuntime<F, RecordingReadyTaskPolicy<Q>, RuntimeEvent>,
            T,
            R,
            RecordingFrontierPolicy<P>,
        >,
    >,
    replayed: Seq<
        Simulation<DesRuntime<F, ReplayReadyTaskPolicy, RuntimeEvent>, T, R, ReplayFrontierPolicy>,
    >,
    decisions: Map<u128, Seq<AsyncRuntimeDecisionView>>,
    i: int,
)
    requires
        crate::runtime_determinism::async_tasks_are_determined::<F, RuntimeEvent>(),
        crate::reproducibility::tasks_are_determined::<RuntimeEvent, T, R>(),
        crate::execute::is_run(recorded),
        crate::execute::is_run(replayed),
        recorded[0].scheduler@.wf(),
        crate::reproducibility::matching_setting(
            recorded[0],
            replayed[0],
            runtime_keeps_up(decisions),
        ),
        crate::reproducibility::all_kept(
            recorded.last().components@,
            recorded_among(decisions),
        ),
        replays(
            replayed[0].frontier_policy,
            recorded[0].frontier_policy,
            recorded.last().frontier_policy,
        ),
        0 <= i < recorded.len(),
        i < replayed.len(),
    ensures
        crate::reproducibility::matching_setting(
            recorded[i],
            replayed[i],
            runtime_keeps_up(decisions),
        ),
        replayed[i].frontier_policy@ == (ReplayFrontierView {
            next: recorded_so_far(recorded[i].frontier_policy).len() as usize,
            ..replayed[0].frontier_policy@
        }),
{
    replaying_runtimes_follow::<F, Q, T, R>(decisions);
    lemma_recording_runtimes_keep::<F, Q, T, R>(decisions);
    replay_follows_a_recorded_run(
        recorded,
        replayed,
        runtime_keeps_up(decisions),
        recorded_among(decisions),
        i,
    );
}

} // verus!
