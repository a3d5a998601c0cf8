//! What holds of a runtime over several of its operations.

use crate::async_runtime::{
    AsyncTask, PollContext, RuntimeEvent, RuntimePayload, SimSleep, SpawnRequest,
};
use crate::des_runtime::{CycleState, RuntimeView, TimerView};
use crate::key::Key;
use crate::ready_policy::{FifoReadyTaskPolicy, ReadyTaskPolicy, TaskId};
use crate::scheduler::SchedulerView;
use crate::time::SimTime;
use vstd::prelude::*;

verus! {

/// Whether the marks of the tasks agree with the ready queue: no task stands in it
/// twice, and a task is marked as queued exactly if it stands in it.
pub open spec fn queue_in_order<F, P>(v: RuntimeView<F, P>) -> bool {
    &&& v.ready.no_duplicates()
    &&& forall|id: u64| #[trigger]
        v.tasks.contains_key(id) ==> (v.tasks[id].queued <==> v.ready.contains(TaskId(id)))
}

/// Whether the timers stand in the order of their deadlines, each deadline once,
/// and each has a task.
pub open spec fn timers_in_order(s: Seq<TimerView>) -> bool {
    &&& forall|i: int, j: int|
        0 <= i < j < s.len() ==> (#[trigger] s[i]).deadline < (#[trigger] s[j]).deadline
    &&& forall|i: int| 0 <= i < s.len() ==> (#[trigger] s[i]).tasks.len() > 0
}

/// A runtime without tasks is in order.
pub proof fn empty_runtime_is_in_order<F, Q, P>(v: RuntimeView<F, P>)
    requires
        v == crate::des_runtime::DesRuntime::<F, Q, P>::empty(),
    ensures
        queue_in_order(v),
        runtime_in_order(v),
        timers_in_order(v.timers),
{
}

/// A task that is added under a new number is queued, and the queue stays in
/// order.
pub proof fn spawning_keeps_the_queue_in_order<F, P>(v: RuntimeView<F, P>, id: TaskId, future: F)
    requires
        queue_in_order(v),
        !v.ready.contains(id),
    ensures
        queue_in_order(v.with_task(id, future)),
        v.with_task(id, future).ready.contains(id),
        v.with_task(id, future).tasks[id.0].future == future,
{
    let w = v.with_task(id, future);
    assert(w.ready[v.ready.len() as int] == id);
    assert forall|k: u64| #[trigger] w.tasks.contains_key(k) implies (w.tasks[k].queued
        <==> w.ready.contains(TaskId(k))) by {
        if k != id.0 {
            assert(v.tasks.contains_key(k));
            if w.ready.contains(TaskId(k)) {
                let i = choose|i: int| 0 <= i < w.ready.len() && w.ready[i] == TaskId(k);
                assert(v.ready[i] == TaskId(k));
            }
            if v.ready.contains(TaskId(k)) {
                let i = choose|i: int| 0 <= i < v.ready.len() && v.ready[i] == TaskId(k);
                assert(w.ready[i] == TaskId(k));
            }
        }
    }
}

/// Waking keeps the queue in order, and a task that exists is then in the queue.
pub proof fn waking_keeps_the_queue_in_order<F, P>(v: RuntimeView<F, P>, id: TaskId)
    requires
        queue_in_order(v),
    ensures
        queue_in_order(v.woken(id)),
        v.tasks.contains_key(id.0) ==> v.woken(id).ready.contains(id),
        v.woken(id).tasks.dom() == v.tasks.dom(),
{
    if v.tasks.contains_key(id.0) && !v.tasks[id.0].queued {
        spawning_keeps_the_queue_in_order(v, id, v.tasks[id.0].future);
        assert(v.woken(id).tasks.dom() =~= v.tasks.dom());
    }
}

/// Waking a task twice is waking it once.
pub proof fn waking_twice_is_waking_once<F, P>(v: RuntimeView<F, P>, id: TaskId)
    ensures
        v.woken(id).woken(id) == v.woken(id),
{
}

/// A task that does not exist cannot be woken.
pub proof fn unknown_task_is_not_woken<F, P>(v: RuntimeView<F, P>, id: TaskId)
    requires
        !v.tasks.contains_key(id.0),
    ensures
        v.woken(id) == v,
{
}

/// What holds during a poll cycle: only tasks that are still to be polled are
/// marked as queued.
spec fn marks_fit<F, Q, P>(c: CycleState<F, Q, P>) -> bool {
    forall|id: u64| #[trigger]
        c.tasks.contains_key(id) && c.tasks[id].queued ==> c.poll_set.contains(TaskId(id))
}

proof fn lemma_removed<A>(s: Seq<A>, k: int, x: A)
    requires
        0 <= k < s.len(),
        s.contains(x),
    ensures
        x == s[k] || s.remove(k).contains(x),
{
    let i = choose|i: int| 0 <= i < s.len() && s[i] == x;
    if i < k {
        assert(s.remove(k)[i] == x);
    } else if i > k {
        assert(s.remove(k)[i - 1] == x);
    }
}

proof fn lemma_turn<F: AsyncTask<P>, Q: ReadyTaskPolicy, P>(
    before: CycleState<F, Q, P>,
    after: CycleState<F, Q, P>,
    now: SimTime,
    time: Option<SimTime>,
    key: Key<P>,
)
    requires
        crate::des_runtime::turned(before, after, now, time, key),
        marks_fit(before),
    ensures
        marks_fit(after),
        after.poll_set.len() == before.poll_set.len() - 1,
        after.tasks.dom().subset_of(before.tasks.dom()),
{
    let index = choose|index: usize| #[trigger]
        crate::des_runtime::cycle_turn(before, after, now, time, key, index);
    let k = crate::scheduler::clamped(index, before.poll_set.len());
    let id = before.poll_set[k];
    assert forall|n: u64| #[trigger]
        after.tasks.contains_key(n) && after.tasks[n].queued implies after.poll_set.contains(
        TaskId(n),
    ) by {
        assert(before.tasks.contains_key(n));
        if n != id.0 {
            assert(before.tasks[n].queued);
            lemma_removed(before.poll_set, k, TaskId(n));
        }
    }
}

proof fn lemma_chain<F: AsyncTask<P>, Q: ReadyTaskPolicy, P>(
    states: Seq<CycleState<F, Q, P>>,
    now: SimTime,
    time: Option<SimTime>,
    key: Key<P>,
    n: int,
)
    requires
        crate::des_runtime::is_chain(states, now, time, key),
        marks_fit(states[0]),
        0 <= n < states.len(),
    ensures
        marks_fit(states[n]),
        states[n].poll_set.len() == states[0].poll_set.len() - n,
        states[n].tasks.dom().subset_of(states[0].tasks.dom()),
    decreases n,
{
    if n > 0 {
        lemma_chain(states, now, time, key, n - 1);
        assert(crate::des_runtime::turned_at(states, n - 1, now, time, key));
        lemma_turn(states[n - 1], states[n], now, time, key);
    }
}

/// A poll cycle takes as many turns as there were ready tasks, makes up no task,
/// and leaves an empty queue in order: every task that is left can be woken.
pub proof fn poll_cycle_empties_the_queue<F: AsyncTask<P>, Q: ReadyTaskPolicy, P, T, R>(
    before: RuntimeView<F, P>,
    policy_before: Q,
    scheduler_before: SchedulerView<P, T, R>,
    after: RuntimeView<F, P>,
    policy_after: Q,
    scheduler_after: SchedulerView<P, T, R>,
)
    requires
        queue_in_order(before.all_taken_in()),
        crate::des_runtime::cycle_done(
            before,
            policy_before,
            scheduler_before,
            after,
            policy_after,
            scheduler_after,
        ),
    ensures
        after.ready.len() == 0,
        queue_in_order(after),
        forall|id: u64| #[trigger] after.tasks.contains_key(id) ==> !after.tasks[id].queued,
        after.tasks.dom().subset_of(before.all_taken_in().tasks.dom()),
        after.timers == before.all_taken_in().timers,
        scheduler_after.events == scheduler_before.events,
        scheduler_after.now == scheduler_before.now,
{
    let start = before.all_taken_in();
    let states = choose|states: Seq<CycleState<F, Q, P>>|
        {
            &&& #[trigger] crate::des_runtime::is_cycle(
                states,
                SimTime(scheduler_before.now),
                scheduler_before.event_time(),
                before.runtime_key->0,
            )
            &&& states[0] == (CycleState {
                tasks: start.tasks,
                policy: policy_before,
                poll_set: start.ready,
                deferred: scheduler_before.deferred,
            })
            &&& after == (RuntimeView {
                tasks: states.last().tasks,
                ready: Seq::empty(),
                ..start
            })
            &&& policy_after == states.last().policy
            &&& scheduler_after == (SchedulerView {
                deferred: states.last().deferred,
                ..scheduler_before
            })
        };
    lemma_chain(
        states,
        SimTime(scheduler_before.now),
        scheduler_before.event_time(),
        before.runtime_key->0,
        states.len() - 1,
    );
    let last = states.last();
    assert forall|id: u64| #[trigger] after.tasks.contains_key(id) implies !after.tasks[id].queued by {
        if after.tasks[id].queued {
            assert(last.tasks.contains_key(id) && last.tasks[id].queued);
            assert(last.poll_set.contains(TaskId(id)));
        }
    }
    assert forall|id: u64| #[trigger] after.tasks.contains_key(id) implies (after.tasks[id].queued
        <==> after.ready.contains(TaskId(id))) by {}
}

/// Each ready task has exactly one turn in a poll cycle.
pub proof fn poll_cycle_has_one_turn_for_each_ready_task<F: AsyncTask<P>, Q: ReadyTaskPolicy, P>(
    states: Seq<CycleState<F, Q, P>>,
    now: SimTime,
    time: Option<SimTime>,
    key: Key<P>,
)
    requires
        crate::des_runtime::is_cycle(states, now, time, key),
    ensures
        states.len() == states[0].poll_set.len() + 1,
        forall|i: int|
            0 <= i < states.len() - 1 ==> (#[trigger] states[i]).poll_set.to_multiset()
                == states[i + 1].poll_set.to_multiset().insert(
                turn_task(states[i], states[i + 1], now, time, key),
            ),
{
    lemma_poll_set_shrinks(states, now, time, key, states.len() - 1);
    assert forall|i: int| 0 <= i < states.len() - 1 implies (#[trigger] states[i]).poll_set.to_multiset()
        == states[i + 1].poll_set.to_multiset().insert(
        turn_task(states[i], states[i + 1], now, time, key),
    ) by {
        assert(crate::des_runtime::turned_at(states, i, now, time, key));
        let index = choose|index: usize| #[trigger]
            crate::des_runtime::cycle_turn(states[i], states[i + 1], now, time, key, index);
        lemma_removed_multiset(
            states[i].poll_set,
            crate::scheduler::clamped(index, states[i].poll_set.len()),
        );
    }
}

/// The task that has its turn between two states of a poll cycle.
pub open spec fn turn_task<F: AsyncTask<P>, Q: ReadyTaskPolicy, P>(
    before: CycleState<F, Q, P>,
    after: CycleState<F, Q, P>,
    now: SimTime,
    time: Option<SimTime>,
    key: Key<P>,
) -> TaskId {
    let index = choose|index: usize| #[trigger]
        crate::des_runtime::cycle_turn(before, after, now, time, key, index);
    before.poll_set[crate::scheduler::clamped(index, before.poll_set.len())]
}

proof fn lemma_poll_set_shrinks<F: AsyncTask<P>, Q: ReadyTaskPolicy, P>(
    states: Seq<CycleState<F, Q, P>>,
    now: SimTime,
    time: Option<SimTime>,
    key: Key<P>,
    n: int,
)
    requires
        crate::des_runtime::is_chain(states, now, time, key),
        0 <= n < states.len(),
    ensures
        states[n].poll_set.len() == states[0].poll_set.len() - n,
    decreases n,
{
    if n > 0 {
        lemma_poll_set_shrinks(states, now, time, key, n - 1);
        assert(crate::des_runtime::turned_at(states, n - 1, now, time, key));
    }
}

proof fn lemma_removed_multiset<A>(s: Seq<A>, k: int)
    requires
        0 <= k < s.len(),
    ensures
        s.to_multiset() == s.remove(k).to_multiset().insert(s[k]),
{
    broadcast use vstd::seq_lib::group_to_multiset_ensures;

    s.to_multiset_ensures();
    assert(s.contains(s[k]));
    assert(s.to_multiset().count(s[k]) > 0);
    assert(s.remove(k).to_multiset() =~= s.to_multiset().remove(s[k]));
    assert(s.to_multiset() =~= s.remove(k).to_multiset().insert(s[k]));
}

/// First come, first served: with the default policy the ready tasks have their turns in
/// the order in which they became ready.
pub proof fn fifo_polls_in_order<F: AsyncTask<P>, P>(
    states: Seq<CycleState<F, FifoReadyTaskPolicy, P>>,
    now: SimTime,
    time: Option<SimTime>,
    key: Key<P>,
    n: int,
)
    requires
        crate::des_runtime::is_cycle(states, now, time, key),
        0 <= n < states.len(),
    ensures
        states[n].poll_set == states[0].poll_set.skip(n),
        n < states.len() - 1 ==> turn_task(states[n], states[n + 1], now, time, key)
            == states[0].poll_set[n],
    decreases n,
{
    lemma_poll_set_shrinks(states, now, time, key, n);
    if n == 0 {
        assert(states[0].poll_set.skip(0) =~= states[0].poll_set);
    } else {
        fifo_polls_in_order(states, now, time, key, n - 1);
        assert(crate::des_runtime::turned_at(states, n - 1, now, time, key));
        lemma_fifo_turn(states[n - 1], states[n], now, time, key);
        assert(states[n].poll_set =~= states[0].poll_set.skip(n));
    }
    if n < states.len() - 1 {
        assert(crate::des_runtime::turned_at(states, n, now, time, key));
        lemma_fifo_turn(states[n], states[n + 1], now, time, key);
    }
}

proof fn lemma_fifo_turn<F: AsyncTask<P>, P>(
    before: CycleState<F, FifoReadyTaskPolicy, P>,
    after: CycleState<F, FifoReadyTaskPolicy, P>,
    now: SimTime,
    time: Option<SimTime>,
    key: Key<P>,
)
    requires
        crate::des_runtime::turned(before, after, now, time, key),
    ensures
        before.poll_set.len() > 0,
        after.poll_set == before.poll_set.drop_first(),
        turn_task(before, after, now, time, key) == before.poll_set[0],
{
    let index = choose|index: usize| #[trigger]
        crate::des_runtime::cycle_turn(before, after, now, time, key, index);
    assert(index == 0);
    assert(after.poll_set =~= before.poll_set.drop_first());
}

/// Adding a timer keeps the timers in order.
pub proof fn registering_keeps_the_timers_in_order(s: Seq<TimerView>, deadline: u64, id: TaskId)
    requires
        timers_in_order(s),
    ensures
        timers_in_order(crate::des_runtime::with_timer(s, deadline, id)),
        exists|i: int|
            {
                &&& 0 <= i < crate::des_runtime::with_timer(s, deadline, id).len()
                &&& (#[trigger] crate::des_runtime::with_timer(s, deadline, id)[i]).deadline
                    == deadline
                &&& crate::des_runtime::with_timer(s, deadline, id)[i].tasks.contains(id)
            },
{
    lemma_timer_place(s, deadline);
    let i = crate::des_runtime::timer_index(s, deadline);
    let t = crate::des_runtime::with_timer(s, deadline, id);
    if i < s.len() && s[i].deadline == deadline {
        assert(t[i].tasks[s[i].tasks.len() as int] == id);
        assert(t[i].tasks.contains(id));
        assert forall|a: int, b: int| 0 <= a < b < t.len() implies (#[trigger] t[a]).deadline < (
        #[trigger] t[b]).deadline by {
            assert(t[a].deadline == s[a].deadline);
            assert(t[b].deadline == s[b].deadline);
        }
    } else {
        assert(t[i].tasks[0] == id);
        assert(t[i].tasks.contains(id));
        assert forall|a: int, b: int| 0 <= a < b < t.len() implies (#[trigger] t[a]).deadline < (
        #[trigger] t[b]).deadline by {
            if a < i {
                assert(t[a] == s[a]);
            } else if a > i {
                assert(t[a] == s[a - 1]);
            }
            if b < i {
                assert(t[b] == s[b]);
            } else if b > i {
                assert(t[b] == s[b - 1]);
                if i < s.len() {
                    assert(s[i].deadline > deadline);
                }
            }
        }
        assert forall|a: int| 0 <= a < t.len() implies (#[trigger] t[a]).tasks.len() > 0 by {
            if a < i {
                assert(t[a] == s[a]);
            } else if a > i {
                assert(t[a] == s[a - 1]);
            }
        }
    }
}

proof fn lemma_timer_place(s: Seq<TimerView>, deadline: u64)
    ensures
        0 <= crate::des_runtime::timer_index(s, deadline) <= s.len(),
        forall|j: int|
            0 <= j < crate::des_runtime::timer_index(s, deadline) ==> (#[trigger] s[j]).deadline
                < deadline,
        crate::des_runtime::timer_index(s, deadline) < s.len()
            ==> s[crate::des_runtime::timer_index(s, deadline)].deadline >= deadline,
    decreases s.len(),
{
    if s.len() > 0 && s[0].deadline < deadline {
        let rest = s.drop_first();
        lemma_timer_place(rest, deadline);
        let n = crate::des_runtime::timer_index(rest, deadline);
        assert forall|j: int| 0 <= j < n + 1 implies (#[trigger] s[j]).deadline < deadline by {
            if j > 0 {
                assert(s[j] == rest[j - 1]);
            }
        }
        if n < rest.len() {
            assert(s[n + 1] == rest[n]);
        }
    }
}

/// Firing takes exactly the timers that are due: their tasks are woken, and those
/// that are left lie in the future.
pub proof fn firing_takes_the_timers_that_are_due(s: Seq<TimerView>, now: u64)
    requires
        timers_in_order(s),
    ensures
        timers_in_order(crate::des_runtime::timers_left(s, now)),
        forall|i: int|
            0 <= i < crate::des_runtime::timers_left(s, now).len() ==> now < (
            #[trigger] crate::des_runtime::timers_left(s, now)[i]).deadline,
        forall|i: int, id: TaskId|
            0 <= i < s.len() && (#[trigger] s[i]).deadline <= now && #[trigger] s[i].tasks.contains(
                id,
            ) ==> crate::des_runtime::due_tasks(s, now).contains(id),
        forall|id: TaskId| #[trigger]
            crate::des_runtime::due_tasks(s, now).contains(id) ==> exists|i: int|
                0 <= i < s.len() && (#[trigger] s[i]).deadline <= now && s[i].tasks.contains(id),
    decreases s.len(),
{
    if s.len() == 0 {
    } else if s[0].deadline > now {
        assert forall|i: int| 0 <= i < s.len() implies now < (#[trigger] s[i]).deadline by {
            if i > 0 {
                assert(s[0].deadline < s[i].deadline);
            }
        }
    } else {
        let rest = s.drop_first();
        assert forall|i: int, j: int| 0 <= i < j < rest.len() implies (#[trigger] rest[i]).deadline
            < (#[trigger] rest[j]).deadline by {
            assert(rest[i] == s[i + 1]);
            assert(rest[j] == s[j + 1]);
        }
        assert forall|i: int| 0 <= i < rest.len() implies (#[trigger] rest[i]).tasks.len() > 0 by {
            assert(rest[i] == s[i + 1]);
        }
        firing_takes_the_timers_that_are_due(rest, now);
        let due = crate::des_runtime::due_tasks(s, now);
        let tail = crate::des_runtime::due_tasks(rest, now);
        assert forall|i: int, id: TaskId|
            0 <= i < s.len() && (#[trigger] s[i]).deadline <= now && #[trigger] s[i].tasks.contains(
                id,
            ) implies due.contains(id) by {
            if i == 0 {
                let k = choose|k: int| 0 <= k < s[0].tasks.len() && s[0].tasks[k] == id;
                assert(due[k] == id);
            } else {
                assert(rest[i - 1] == s[i]);
                assert(tail.contains(id));
                let k = choose|k: int| 0 <= k < tail.len() && tail[k] == id;
                assert(due[s[0].tasks.len() + k] == id);
            }
        }
        assert forall|id: TaskId| #[trigger] due.contains(id) implies exists|i: int|
            0 <= i < s.len() && (#[trigger] s[i]).deadline <= now && s[i].tasks.contains(id) by {
            let k = choose|k: int| 0 <= k < due.len() && due[k] == id;
            if k < s[0].tasks.len() {
                assert(s[0].tasks[k] == id);
                assert(s[0].tasks.contains(id));
            } else {
                assert(tail[k - s[0].tasks.len()] == id);
                assert(tail.contains(id));
                let i = choose|i: int|
                    0 <= i < rest.len() && (#[trigger] rest[i]).deadline <= now
                        && rest[i].tasks.contains(id);
                assert(s[i + 1] == rest[i]);
            }
        }
    }
}

/// A task that was taken out of the timers stands in none of them, and they stay in
/// order.
pub proof fn cancelling_clears_the_timers(s: Seq<TimerView>, id: TaskId)
    requires
        timers_in_order(s),
    ensures
        timers_in_order(crate::des_runtime::without_task(s, id)),
        forall|i: int|
            0 <= i < crate::des_runtime::without_task(s, id).len() ==> !(
            #[trigger] crate::des_runtime::without_task(s, id)[i]).tasks.contains(id),
        s.len() > 0 && crate::des_runtime::without_task(s, id).len() > 0
            ==> crate::des_runtime::without_task(s, id).last().deadline <= s.last().deadline,
    decreases s.len(),
{
    if s.len() > 0 {
        let front = s.drop_last();
        assert forall|i: int, j: int| 0 <= i < j < front.len() implies (
        #[trigger] front[i]).deadline < (#[trigger] front[j]).deadline by {
            assert(front[i] == s[i]);
            assert(front[j] == s[j]);
        }
        assert forall|i: int| 0 <= i < front.len() implies (#[trigger] front[i]).tasks.len() > 0 by {
            assert(front[i] == s[i]);
        }
        cancelling_clears_the_timers(front, id);
        let left = crate::des_runtime::ids_except(s.last().tasks, id);
        let t = crate::des_runtime::without_task(front, id);
        if front.len() > 0 {
            assert(front.last() == s[s.len() - 2]);
            assert(s[s.len() - 2].deadline < s[s.len() - 1].deadline);
        }
        s.last().tasks.lemma_filter_len(|x: TaskId| x != id);
        if left.contains(id) {
            let k = choose|k: int| 0 <= k < left.len() && left[k] == id;
            lemma_filter_holds(s.last().tasks, |x: TaskId| x != id, k);
        }
        if t.len() > 0 && left.len() > 0 {
            let u = crate::des_runtime::without_task(s, id);
            assert(front.len() > 0) by {
                if front.len() == 0 {
                    assert(t.len() == 0);
                }
            }
            assert forall|i: int, j: int| 0 <= i < j < u.len() implies (#[trigger] u[i]).deadline
                < (#[trigger] u[j]).deadline by {
                assert(u[i] == t[i]);
                if j < t.len() {
                    assert(u[j] == t[j]);
                } else if i < t.len() - 1 {
                    assert(t[i].deadline < t[t.len() - 1].deadline);
                }
            }
        }
    }
}

proof fn lemma_filter_holds<A>(s: Seq<A>, p: spec_fn(A) -> bool, k: int)
    requires
        0 <= k < s.filter(p).len(),
    ensures
        p(s.filter(p)[k]),
    decreases s.len(),
{
    reveal(Seq::filter);
    if s.len() > 0 {
        let front = s.drop_last();
        if k < front.filter(p).len() {
            lemma_filter_holds(front, p, k);
        }
    }
}

/// Whether the tasks that are to be taken in have numbers of their own: no two of them
/// have the same, and no task of the runtime has it.
pub open spec fn requests_are_new<F, P>(v: RuntimeView<F, P>, requests: Seq<SpawnRequest<F>>) -> bool {
    &&& forall|i: int, j: int|
        0 <= i < j < requests.len() ==> (#[trigger] requests[i]).task_id != (
        #[trigger] requests[j]).task_id
    &&& forall|i: int|
        0 <= i < requests.len() ==> {
            &&& !v.tasks.contains_key((#[trigger] requests[i]).task_id.0)
            &&& !v.ready.contains(requests[i].task_id)
        }
}

/// Whether a runtime is in order: its queue is, and the tasks that are to be taken in
/// have numbers of their own.
pub open spec fn runtime_in_order<F, P>(v: RuntimeView<F, P>) -> bool {
    queue_in_order(v) && requests_are_new(v, v.sendable + v.local)
}

proof fn lemma_taking_in<F, P>(v: RuntimeView<F, P>, requests: Seq<SpawnRequest<F>>)
    requires
        queue_in_order(v),
        requests_are_new(v, requests),
    ensures
        queue_in_order(v.taken_in(requests)),
        v.taken_in(requests).sendable == v.sendable,
        v.taken_in(requests).local == v.local,
    decreases requests.len(),
{
    if requests.len() > 0 {
        let first = requests[0];
        let w = v.with_task(first.task_id, first.future);
        let rest = requests.drop_first();
        spawning_keeps_the_queue_in_order(v, first.task_id, first.future);
        assert forall|i: int| 0 <= i < rest.len() implies {
            &&& !w.tasks.contains_key((#[trigger] rest[i]).task_id.0)
            &&& !w.ready.contains(rest[i].task_id)
        } by {
            assert(rest[i] == requests[i + 1]);
            assert(requests[0].task_id != requests[i + 1].task_id);
            if w.ready.contains(rest[i].task_id) {
                let k = choose|k: int| 0 <= k < w.ready.len() && w.ready[k] == rest[i].task_id;
                assert(v.ready[k] == rest[i].task_id);
            }
        }
        lemma_taking_in(w, rest);
    }
}

proof fn lemma_taking_in_twice<F, P>(
    v: RuntimeView<F, P>,
    a: Seq<SpawnRequest<F>>,
    b: Seq<SpawnRequest<F>>,
)
    ensures
        v.taken_in(a).taken_in(b) == v.taken_in(a + b),
    decreases a.len(),
{
    if a.len() == 0 {
        assert(a + b =~= b);
    } else {
        lemma_taking_in_twice(v.with_task(a[0].task_id, a[0].future), a.drop_first(), b);
        assert((a + b).drop_first() =~= a.drop_first() + b);
    }
}

/// Taking in the tasks that were asked for keeps the queue in order, and leaves none of
/// them behind.
pub proof fn taking_in_keeps_the_queue_in_order<F, P>(v: RuntimeView<F, P>)
    requires
        runtime_in_order(v),
    ensures
        queue_in_order(v.all_taken_in()),
        v.all_taken_in().sendable.len() == 0,
        v.all_taken_in().local.len() == 0,
{
    let empty = RuntimeView { sendable: Seq::empty(), local: Seq::empty(), ..v };
    lemma_taking_in_twice(empty, v.sendable, v.local);
    lemma_taking_in(empty, v.sendable + v.local);
}

/// A task that is added under a new number keeps the runtime in order.
pub proof fn spawning_keeps_the_runtime_in_order<F, P>(
    v: RuntimeView<F, P>,
    id: TaskId,
    future: F,
)
    requires
        runtime_in_order(v),
        !v.ready.contains(id),
        forall|i: int|
            0 <= i < (v.sendable + v.local).len() ==> (#[trigger] (v.sendable + v.local)[i]).task_id
                != id,
    ensures
        runtime_in_order(v.with_task(id, future)),
{
    spawning_keeps_the_queue_in_order(v, id, future);
    let w = v.with_task(id, future);
    let requests = v.sendable + v.local;
    assert forall|i: int| 0 <= i < requests.len() implies !w.ready.contains(
        (#[trigger] requests[i]).task_id,
    ) by {
        if w.ready.contains(requests[i].task_id) {
            let k = choose|k: int| 0 <= k < w.ready.len() && w.ready[k] == requests[i].task_id;
            assert(v.ready[k] == requests[i].task_id);
        }
    }
}

/// A task that is asked for under a new number keeps the runtime in order.
pub proof fn asking_keeps_the_runtime_in_order<F, P>(
    v: RuntimeView<F, P>,
    request: SpawnRequest<F>,
)
    requires
        runtime_in_order(v),
        !v.ready.contains(request.task_id),
        !v.tasks.contains_key(request.task_id.0),
        forall|i: int|
            0 <= i < (v.sendable + v.local).len() ==> (#[trigger] (v.sendable + v.local)[i]).task_id
                != request.task_id,
    ensures
        runtime_in_order(RuntimeView { sendable: v.sendable.push(request), ..v }),
        runtime_in_order(RuntimeView { local: v.local.push(request), ..v }),
{
    let n = v.sendable.len() as int;
    let all = v.sendable + v.local;
    let a = v.sendable.push(request) + v.local;
    let b = v.sendable + v.local.push(request);
    assert forall|i: int| 0 <= i < a.len() implies #[trigger] a[i] == (if i < n {
        all[i]
    } else if i == n {
        request
    } else {
        all[i - 1]
    }) by {}
    assert forall|i: int| 0 <= i < b.len() implies #[trigger] b[i] == (if i < all.len() {
        all[i]
    } else {
        request
    }) by {}
}

/// Waking keeps the runtime in order.
pub proof fn waking_keeps_the_runtime_in_order<F, P>(v: RuntimeView<F, P>, id: TaskId)
    requires
        runtime_in_order(v),
    ensures
        runtime_in_order(v.woken(id)),
{
    waking_keeps_the_queue_in_order(v, id);
    let w = v.woken(id);
    let requests = v.sendable + v.local;
    assert forall|i: int| 0 <= i < requests.len() implies {
        &&& !w.tasks.contains_key((#[trigger] requests[i]).task_id.0)
        &&& !w.ready.contains(requests[i].task_id)
    } by {
        assert(!v.tasks.dom().contains(requests[i].task_id.0));
        if w.ready.contains(requests[i].task_id) {
            let k = choose|k: int| 0 <= k < w.ready.len() && w.ready[k] == requests[i].task_id;
            assert(k < v.ready.len());
            assert(v.ready[k] == requests[i].task_id);
        }
    }
}

proof fn lemma_waking_all<F, P>(v: RuntimeView<F, P>, ids: Seq<TaskId>)
    requires
        runtime_in_order(v),
    ensures
        runtime_in_order(v.woken_all(ids)),
    decreases ids.len(),
{
    if ids.len() > 0 {
        waking_keeps_the_runtime_in_order(v, ids[0]);
        lemma_waking_all(v.woken(ids[0]), ids.drop_first());
    }
}

proof fn lemma_cycle_in_order<F: AsyncTask<P>, Q: ReadyTaskPolicy, P, T, R>(
    before: RuntimeView<F, P>,
    policy_before: Q,
    scheduler_before: SchedulerView<P, T, R>,
    after: RuntimeView<F, P>,
    policy_after: Q,
    scheduler_after: SchedulerView<P, T, R>,
)
    requires
        runtime_in_order(before),
        crate::des_runtime::cycle_done(
            before,
            policy_before,
            scheduler_before,
            after,
            policy_after,
            scheduler_after,
        ),
    ensures
        runtime_in_order(after),
{
    taking_in_keeps_the_queue_in_order(before);
    poll_cycle_empties_the_queue(
        before,
        policy_before,
        scheduler_before,
        after,
        policy_after,
        scheduler_after,
    );
}

/// A runtime that is in order stays in order, whatever event it gets, and no task is
/// polled twice in an event.
pub proof fn events_keep_the_runtime_in_order<F: AsyncTask<RuntimeEvent>, Q: ReadyTaskPolicy, T, R>(
    self_id: Key<RuntimeEvent>,
    event: RuntimeEvent,
    given: RuntimeView<F, RuntimeEvent>,
    policy_before: Q,
    scheduler_before: SchedulerView<RuntimeEvent, T, R>,
    after: RuntimeView<F, RuntimeEvent>,
    policy_after: Q,
    scheduler_after: SchedulerView<RuntimeEvent, T, R>,
)
    requires
        runtime_in_order(given),
        crate::des_runtime::event_processed(
            self_id,
            event,
            given,
            policy_before,
            scheduler_before,
            after,
            policy_after,
            scheduler_after,
        ),
    ensures
        runtime_in_order(after),
        crate::runtime_determinism::polled_by(
            event,
            given.known_as(self_id),
            scheduler_before.now,
        ).no_duplicates(),
{
    let (p, p2, s) = (policy_before, policy_after, scheduler_before);
    let v = given.known_as(self_id);
    let left = choose|left: SchedulerView<RuntimeEvent, T, R>|
        {
            &&& #[trigger] crate::des_runtime::event_handled(
                self_id,
                event,
                v,
                p,
                s,
                after,
                p2,
                left,
            )
            &&& if after.ready.len() > 0 {
                crate::des_runtime::offered_event(
                    left,
                    0,
                    self_id,
                    RuntimeEvent::Poll,
                    scheduler_after,
                )
            } else {
                scheduler_after == left
            }
        };
    assert(runtime_in_order(v));
    match event {
        RuntimeEvent::Poll => {
            lemma_cycle_in_order(v, p, s, after, p2, left);
            taking_in_keeps_the_queue_in_order(v);
        },
        RuntimeEvent::Wake { task_id } => {
            waking_keeps_the_runtime_in_order(v, task_id);
            lemma_cycle_in_order(v.woken(task_id), p, s, after, p2, left);
            taking_in_keeps_the_queue_in_order(v.woken(task_id));
        },
        RuntimeEvent::TimerTick => {
            let unset = RuntimeView { next_timer_deadline: None, ..v };
            let fired = unset.timers_fired(s.now);
            lemma_waking_all(
                RuntimeView {
                    timers: crate::des_runtime::timers_left(unset.timers, s.now),
                    ..unset
                },
                crate::des_runtime::due_tasks(unset.timers, s.now),
            );
            let noted = crate::des_runtime::tick_noted(fired);
            let ticked = choose|ticked: SchedulerView<RuntimeEvent, T, R>|
                {
                    &&& #[trigger] crate::des_runtime::tick_scheduled(fired, s, self_id, ticked)
                    &&& crate::des_runtime::cycle_done(noted, p, ticked, after, p2, left)
                };
            assert(runtime_in_order(noted));
            lemma_cycle_in_order(noted, p, ticked, after, p2, left);
            taking_in_keeps_the_queue_in_order(noted);
        },
        _ => {},
    }
}

/// A cancelled task is gone from the runtime: it is not among the tasks and stands
/// in no timer, so that it is neither polled nor woken again.
pub proof fn cancelled_task_is_gone<F: AsyncTask<P>, Q: ReadyTaskPolicy, P: RuntimePayload, T, R>(
    self_id: Key<P>,
    task_id: TaskId,
    before: RuntimeView<F, P>,
    policy_before: Q,
    scheduler_before: SchedulerView<P, T, R>,
    after: RuntimeView<F, P>,
    policy_after: Q,
    scheduler_after: SchedulerView<P, T, R>,
)
    requires
        timers_in_order(before.timers),
        crate::des_runtime::event_handled(
            self_id,
            RuntimeEvent::Cancel { task_id },
            before,
            policy_before,
            scheduler_before,
            after,
            policy_after,
            scheduler_after,
        ),
    ensures
        !after.tasks.contains_key(task_id.0),
        forall|i: int| 0 <= i < after.timers.len() ==> !(#[trigger] after.timers[i]).tasks.contains(task_id),
        after.woken(task_id) == after,
{
    cancelling_clears_the_timers(before.timers, task_id);
}

/// A wait that is polled at a known time is over exactly from its target on, and
/// keeps its target from the first poll on.
pub proof fn sleep_lasts_until_its_target<P: RuntimePayload>(
    before: SimSleep,
    cx: PollContext<P>,
    after: SimSleep,
    cx_after: PollContext<P>,
    done: bool,
    now: SimTime,
    later: SimTime,
)
    requires
        cx.time == Some(now),
        SimSleep::polls(before, cx, after, cx_after, done),
    ensures
        done <==> now.0 >= before.target(now).0,
        after.target(later) == before.target(now),
        !done ==> after.timer_scheduled,
{
}

/// A wait asks for at most one timer.
pub proof fn sleep_asks_for_one_timer<P: RuntimePayload>(
    before: SimSleep,
    cx: PollContext<P>,
    after: SimSleep,
    cx_after: PollContext<P>,
    done: bool,
)
    requires
        before.timer_scheduled,
        SimSleep::polls(before, cx, after, cx_after, done),
    ensures
        cx_after.deferred@ == cx.deferred@,
        after.timer_scheduled,
{
}

} // verus!
