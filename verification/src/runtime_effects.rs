//! What the events of a runtime do to its tasks and timers, and what they leave alone.

use crate::async_runtime::{
    AsyncTask, PollContext, RuntimeEvent, RuntimePayload, SimSleep, SpawnRequest,
};
use crate::des_runtime::{CycleState, RuntimeView, TimerView};
use crate::event::EventEntry;
use crate::key::Key;
use crate::ready_policy::{ReadyTaskPolicy, TaskId};
use crate::runtime_laws::timers_in_order;
use crate::scheduler::SchedulerView;
use crate::time::SimTime;
use uuid::Uuid;
use vstd::prelude::*;

verus! {

/// Whether a task waits for a deadline.
pub open spec fn waits_for(s: Seq<TimerView>, deadline: u64, id: TaskId) -> bool {
    exists|i: int| 0 <= i < s.len() && (#[trigger] s[i]).deadline == deadline && s[i].tasks.contains(id)
}

proof fn lemma_waits_at(s: Seq<TimerView>, i: int, id: TaskId)
    requires
        0 <= i < s.len(),
        s[i].tasks.contains(id),
    ensures
        waits_for(s, s[i].deadline, id),
{
}

/// A task waits in timers exactly if it waits in those without the last one, or in that.
proof fn lemma_waits_last(s: Seq<TimerView>, deadline: u64, id: TaskId)
    requires
        s.len() > 0,
    ensures
        waits_for(s, deadline, id) <==> waits_for(s.drop_last(), deadline, id) || (
        s.last().deadline == deadline && s.last().tasks.contains(id)),
{
    let front = s.drop_last();
    if waits_for(s, deadline, id) {
        let i = choose|i: int|
            0 <= i < s.len() && (#[trigger] s[i]).deadline == deadline && s[i].tasks.contains(id);
        if i < front.len() {
            assert(front[i] == s[i]);
        }
    }
    if waits_for(front, deadline, id) {
        let i = choose|i: int|
            0 <= i < front.len() && (#[trigger] front[i]).deadline == deadline
                && front[i].tasks.contains(id);
        assert(s[i] == front[i]);
    }
    if s.last().deadline == deadline && s.last().tasks.contains(id) {
        assert(s[s.len() - 1].tasks.contains(id));
    }
}

/// A task waits in timers exactly if it waits in the first one, or in those after it.
proof fn lemma_waits_first(s: Seq<TimerView>, deadline: u64, id: TaskId)
    requires
        s.len() > 0,
    ensures
        waits_for(s, deadline, id) <==> waits_for(s.drop_first(), deadline, id) || (
        s[0].deadline == deadline && s[0].tasks.contains(id)),
{
    let rest = s.drop_first();
    if waits_for(s, deadline, id) {
        let i = choose|i: int|
            0 <= i < s.len() && (#[trigger] s[i]).deadline == deadline && s[i].tasks.contains(id);
        if i > 0 {
            assert(rest[i - 1] == s[i]);
        }
    }
    if waits_for(rest, deadline, id) {
        let i = choose|i: int|
            0 <= i < rest.len() && (#[trigger] rest[i]).deadline == deadline
                && rest[i].tasks.contains(id);
        assert(s[i + 1] == rest[i]);
    }
}

proof fn lemma_others_stay(ids: Seq<TaskId>, id: TaskId, other: TaskId)
    requires
        other != id,
    ensures
        ids.filter(|t: TaskId| t != id).contains(other) <==> ids.contains(other),
    decreases ids.len(),
{
    broadcast use vstd::seq_lib::group_filter_ensures;

    reveal(Seq::filter);
    if ids.len() > 0 {
        let front = ids.drop_last();
        let p = |t: TaskId| t != id;
        lemma_others_stay(front, id, other);
        if ids.contains(other) {
            let i = choose|i: int| 0 <= i < ids.len() && ids[i] == other;
            assert(p(ids[i]));
            assert(ids.filter(p).contains(ids[i]));
        }
        if ids.filter(p).contains(other) {
            let i = choose|i: int| 0 <= i < ids.filter(p).len() && ids.filter(p)[i] == other;
            if i < front.filter(p).len() {
                assert(front.filter(p)[i] == other);
                let k = choose|k: int| 0 <= k < front.len() && front[k] == other;
                assert(ids[k] == other);
            } else {
                assert(ids[ids.len() - 1] == other);
            }
        }
    }
}

proof fn lemma_except(ids: Seq<TaskId>, id: TaskId, p: spec_fn(TaskId) -> bool)
    requires
        forall|t: TaskId| #[trigger] p(t) <==> t != id,
    ensures
        crate::des_runtime::ids_except(ids, id) == ids.filter(p),
    decreases ids.len(),
{
    reveal(Seq::filter);
    if ids.len() > 0 {
        lemma_except(ids.drop_last(), id, p);
    }
}

/// Taking a task out of the timers leaves the timers of all others: every other task waits
/// for a deadline afterwards exactly if it did before, and the task itself waits for none.
pub proof fn cancelling_keeps_other_timers(
    s: Seq<TimerView>,
    id: TaskId,
    deadline: u64,
    other: TaskId,
)
    ensures
        waits_for(crate::des_runtime::without_task(s, id), deadline, other) <==> other != id
            && waits_for(s, deadline, other),
    decreases s.len(),
{
    broadcast use vstd::seq_lib::group_filter_ensures;

    let t = crate::des_runtime::without_task(s, id);
    if s.len() > 0 {
        let front = s.drop_last();
        cancelling_keeps_other_timers(front, id, deadline, other);
        lemma_waits_last(s, deadline, other);
        let p = |x: TaskId| x != id;
        let left = s.last().tasks.filter(p);
        if other != id {
            lemma_others_stay(s.last().tasks, id, other);
        } else if left.contains(id) {
            let k = choose|k: int| 0 <= k < left.len() && left[k] == id;
            assert(p(left[k]));
        }
        lemma_except(s.last().tasks, id, p);
        if left.len() > 0 {
            lemma_waits_last(t, deadline, other);
            assert(t.drop_last() =~= crate::des_runtime::without_task(front, id));
        } else {
            assert(!left.contains(other));
        }
    }
}

/// Timers without a task, from the first one on.
proof fn lemma_without_first(s: Seq<TimerView>, id: TaskId)
    requires
        s.len() > 0,
    ensures
        ({
            let left = s[0].tasks.filter(|t: TaskId| t != id);
            let rest = crate::des_runtime::without_task(s.drop_first(), id);
            crate::des_runtime::without_task(s, id) == if left.len() == 0 {
                rest
            } else {
                seq![TimerView { deadline: s[0].deadline, tasks: left }] + rest
            }
        }),
    decreases s.len(),
{
    let p = |t: TaskId| t != id;
    let left = s[0].tasks.filter(p);
    let rest = crate::des_runtime::without_task(s.drop_first(), id);
    let all = crate::des_runtime::without_task(s, id);
    lemma_except(s[0].tasks, id, p);
    if s.len() == 1 {
        assert(s.drop_last().len() == 0);
        assert(s.drop_first().len() == 0);
        assert(crate::des_runtime::without_task(s.drop_last(), id).len() == 0);
        if left.len() == 0 {
            assert(all =~= rest);
        } else {
            assert(all =~= seq![TimerView { deadline: s[0].deadline, tasks: left }] + rest);
        }
    } else {
        lemma_without_first(s.drop_last(), id);
        assert(s.drop_last().drop_first() =~= s.drop_first().drop_last());
        assert(s.drop_first().last() == s.last());
        if left.len() == 0 {
            assert(all =~= rest);
        } else {
            assert(all =~= seq![TimerView { deadline: s[0].deadline, tasks: left }] + rest);
        }
    }
}

/// Taking a task out of the timers leaves the order in which the others are woken: at any
/// time the tasks that are due are those that were due before, without that one.
pub proof fn cancelling_keeps_the_order_of_waking(s: Seq<TimerView>, id: TaskId, now: u64)
    requires
        timers_in_order(s),
    ensures
        crate::des_runtime::due_tasks(crate::des_runtime::without_task(s, id), now)
            == crate::des_runtime::due_tasks(s, now).filter(|t: TaskId| t != id),
    decreases s.len(),
{
    broadcast use vstd::seq_lib::group_filter_ensures;

    let p = |t: TaskId| t != id;
    let t = crate::des_runtime::without_task(s, id);
    reveal(Seq::filter);
    if s.len() > 0 {
        let rest = s.drop_first();
        assert forall|i: int, j: int| 0 <= i < j < rest.len() implies (#[trigger] rest[i]).deadline
            < (#[trigger] rest[j]).deadline by {
            assert(rest[i] == s[i + 1]);
            assert(rest[j] == s[j + 1]);
        }
        assert forall|i: int| 0 <= i < rest.len() implies (#[trigger] rest[i]).tasks.len() > 0 by {
            assert(rest[i] == s[i + 1]);
        }
        lemma_without_first(s, id);
        cancelling_keeps_the_order_of_waking(rest, id, now);
        let left = s[0].tasks.filter(p);
        let tail = crate::des_runtime::without_task(rest, id);
        if s[0].deadline > now {
            if left.len() == 0 {
                if rest.len() > 0 {
                    assert(s[0].deadline < s[1].deadline);
                    assert(rest[0] == s[1]);
                }
                assert(crate::des_runtime::due_tasks(rest, now) =~= Seq::empty());
            } else {
                assert(t[0].deadline == s[0].deadline);
            }
            assert(crate::des_runtime::due_tasks(s, now).filter(p) =~= Seq::empty());
        } else {
            let tasks = crate::des_runtime::due_tasks(rest, now);
            Seq::filter_distributes_over_add(s[0].tasks, tasks, p);
            if left.len() == 0 {
                assert(left + tasks.filter(p) =~= tasks.filter(p));
            } else {
                assert(t.drop_first() =~= tail);
                assert(t[0].tasks == left);
            }
        }
    }
}

/// A task that is given a deadline waits for it, behind those that wait for it already.
/// What others wait for stays as it is.
pub proof fn registering_adds_one_wait(
    s: Seq<TimerView>,
    id: TaskId,
    at: u64,
    deadline: u64,
    other: TaskId,
)
    ensures
        waits_for(crate::des_runtime::with_timer(s, at, id), deadline, other) <==> waits_for(
            s,
            deadline,
            other,
        ) || (other == id && deadline == at),
{
    let t = crate::des_runtime::with_timer(s, at, id);
    lemma_timer_range(s, at);
    let i = crate::des_runtime::timer_index(s, at);
    if i < s.len() && s[i].deadline == at {
        assert(t[i].tasks[s[i].tasks.len() as int] == id);
        lemma_waits_at(t, i, id);
        if waits_for(t, deadline, other) {
            let k = choose|k: int|
                0 <= k < t.len() && (#[trigger] t[k]).deadline == deadline && t[k].tasks.contains(
                    other,
                );
            if k == i && other != id {
                let m = choose|m: int| 0 <= m < t[i].tasks.len() && t[i].tasks[m] == other;
                assert(s[i].tasks[m] == other);
            }
            assert(s[k].deadline == t[k].deadline);
        }
        if waits_for(s, deadline, other) {
            let k = choose|k: int|
                0 <= k < s.len() && (#[trigger] s[k]).deadline == deadline && s[k].tasks.contains(
                    other,
                );
            if k == i {
                let m = choose|m: int| 0 <= m < s[i].tasks.len() && s[i].tasks[m] == other;
                assert(t[i].tasks[m] == other);
            }
            lemma_waits_at(t, k, other);
        }
    } else {
        assert(t[i].tasks[0] == id);
        lemma_waits_at(t, i, id);
        if waits_for(t, deadline, other) {
            let k = choose|k: int|
                0 <= k < t.len() && (#[trigger] t[k]).deadline == deadline && t[k].tasks.contains(
                    other,
                );
            if k < i {
                assert(s[k] == t[k]);
            } else if k > i {
                assert(s[k - 1] == t[k]);
            }
        }
        if waits_for(s, deadline, other) {
            let k = choose|k: int|
                0 <= k < s.len() && (#[trigger] s[k]).deadline == deadline && s[k].tasks.contains(
                    other,
                );
            if k < i {
                assert(t[k] == s[k]);
            } else {
                assert(t[k + 1] == s[k]);
            }
        }
    }
}

proof fn lemma_timer_range(s: Seq<TimerView>, deadline: u64)
    ensures
        0 <= crate::des_runtime::timer_index(s, deadline) <= s.len(),
    decreases s.len(),
{
    if s.len() > 0 && s[0].deadline < deadline {
        lemma_timer_range(s.drop_first(), deadline);
    }
}

/// Firing leaves exactly those waiting whose deadline is not reached.
pub proof fn firing_leaves_later_waits(s: Seq<TimerView>, now: u64, deadline: u64, id: TaskId)
    requires
        timers_in_order(s),
    ensures
        waits_for(crate::des_runtime::timers_left(s, now), deadline, id) <==> waits_for(
            s,
            deadline,
            id,
        ) && deadline > now,
    decreases s.len(),
{
    if s.len() > 0 {
        if s[0].deadline > now {
            assert forall|i: int| 0 <= i < s.len() implies now < (#[trigger] s[i]).deadline by {
                if i > 0 {
                    assert(s[0].deadline < s[i].deadline);
                }
            }
        } else {
            let rest = s.drop_first();
            assert forall|i: int, j: int| 0 <= i < j < rest.len() implies (
            #[trigger] rest[i]).deadline < (#[trigger] rest[j]).deadline by {
                assert(rest[i] == s[i + 1]);
                assert(rest[j] == s[j + 1]);
            }
            assert forall|i: int| 0 <= i < rest.len() implies (#[trigger] rest[i]).tasks.len()
                > 0 by {
                assert(rest[i] == s[i + 1]);
            }
            firing_leaves_later_waits(rest, now, deadline, id);
            lemma_waits_first(s, deadline, id);
        }
    }
}

/// Tasks are woken in the order of their deadlines: those that are due at a time come
/// before those that are due only later.
pub proof fn earlier_deadlines_are_woken_first(s: Seq<TimerView>, now: u64, later: u64)
    requires
        timers_in_order(s),
        now <= later,
    ensures
        crate::des_runtime::due_tasks(s, now).is_prefix_of(crate::des_runtime::due_tasks(s, later)),
        crate::des_runtime::due_tasks(s, later) == crate::des_runtime::due_tasks(s, now)
            + crate::des_runtime::due_tasks(crate::des_runtime::timers_left(s, now), later),
    decreases s.len(),
{
    let a = crate::des_runtime::due_tasks(s, now);
    let b = crate::des_runtime::due_tasks(s, later);
    if s.len() > 0 && s[0].deadline <= now {
        let rest = s.drop_first();
        assert forall|i: int, j: int| 0 <= i < j < rest.len() implies (#[trigger] rest[i]).deadline
            < (#[trigger] rest[j]).deadline by {
            assert(rest[i] == s[i + 1]);
            assert(rest[j] == s[j + 1]);
        }
        assert forall|i: int| 0 <= i < rest.len() implies (#[trigger] rest[i]).tasks.len() > 0 by {
            assert(rest[i] == s[i + 1]);
        }
        earlier_deadlines_are_woken_first(rest, now, later);
        assert(b =~= a + crate::des_runtime::due_tasks(
            crate::des_runtime::timers_left(s, now),
            later,
        ));
    } else {
        assert(a =~= Seq::empty());
        assert(b =~= a + b);
    }
    assert(a =~= b.subrange(0, a.len() as int));
}

/// Waking a task changes nothing but its place in the queue: it comes last, and all tasks
/// keep their futures.
pub proof fn waking_queues_one_task<F, P>(v: RuntimeView<F, P>, id: TaskId)
    ensures
        v.woken(id).tasks.dom() == v.tasks.dom(),
        forall|k: u64| #[trigger]
            v.tasks.contains_key(k) ==> v.woken(id).tasks[k].future == v.tasks[k].future
                && v.woken(id).tasks[k].queued == (v.tasks[k].queued || k == id.0),
        v.woken(id).ready == if v.tasks.contains_key(id.0) && !v.tasks[id.0].queued {
            v.ready.push(id)
        } else {
            v.ready
        },
        v.woken(id).timers == v.timers,
        v.woken(id).next_timer_deadline == v.next_timer_deadline,
        v.woken(id).next_task_id == v.next_task_id,
        v.woken(id).sendable == v.sendable,
        v.woken(id).local == v.local,
        v.woken(id).runtime_key == v.runtime_key,
{
    assert(v.woken(id).tasks.dom() =~= v.tasks.dom());
}

/// Waking several tasks queues each of them that exists, behind those that are queued
/// already, and changes nothing else.
pub proof fn waking_queues_all_tasks<F, P>(v: RuntimeView<F, P>, ids: Seq<TaskId>)
    ensures
        v.woken_all(ids).tasks.dom() == v.tasks.dom(),
        forall|k: u64| #[trigger]
            v.tasks.contains_key(k) ==> v.woken_all(ids).tasks[k].future == v.tasks[k].future
                && v.woken_all(ids).tasks[k].queued == (v.tasks[k].queued || ids.contains(
                TaskId(k),
            )),
        v.ready.is_prefix_of(v.woken_all(ids).ready),
        forall|t: TaskId| #[trigger]
            v.woken_all(ids).ready.contains(t) <==> v.ready.contains(t) || (ids.contains(t)
                && v.tasks.contains_key(t.0) && !v.tasks[t.0].queued),
        v.woken_all(ids).timers == v.timers,
        v.woken_all(ids).next_timer_deadline == v.next_timer_deadline,
        v.woken_all(ids).next_task_id == v.next_task_id,
        v.woken_all(ids).sendable == v.sendable,
        v.woken_all(ids).local == v.local,
        v.woken_all(ids).runtime_key == v.runtime_key,
    decreases ids.len(),
{
    let all = v.woken_all(ids);
    if ids.len() == 0 {
        assert(v.ready =~= v.ready.subrange(0, v.ready.len() as int));
    } else {
        let w = v.woken(ids[0]);
        let rest = ids.drop_first();
        waking_queues_one_task(v, ids[0]);
        waking_queues_all_tasks(w, rest);
        assert forall|t: TaskId| #[trigger] ids.contains(t) <==> t == ids[0] || rest.contains(t) by {
            if ids.contains(t) {
                let i = choose|i: int| 0 <= i < ids.len() && ids[i] == t;
                if i > 0 {
                    assert(rest[i - 1] == t);
                }
            }
            if rest.contains(t) {
                let i = choose|i: int| 0 <= i < rest.len() && rest[i] == t;
                assert(ids[i + 1] == t);
            }
        }
        assert forall|k: u64| #[trigger] v.tasks.contains_key(k) implies all.tasks[k].future
            == v.tasks[k].future && all.tasks[k].queued == (v.tasks[k].queued || ids.contains(
            TaskId(k),
        )) by {
            assert(w.tasks.dom().contains(k));
            assert(w.tasks.contains_key(k));
            if ids[0].0 == k {
                assert(ids[0] == TaskId(k));
            }
        }
        assert forall|t: TaskId| #[trigger] all.ready.contains(t) <==> v.ready.contains(t) || (
        ids.contains(t) && v.tasks.contains_key(t.0) && !v.tasks[t.0].queued) by {
            assert(w.tasks.dom().contains(t.0) == v.tasks.dom().contains(t.0));
            assert(w.tasks.contains_key(t.0) == v.tasks.contains_key(t.0));
            if w.ready.contains(t) {
                let i = choose|i: int| 0 <= i < w.ready.len() && w.ready[i] == t;
                if i < v.ready.len() {
                    assert(v.ready[i] == t);
                }
            }
            if v.ready.contains(t) {
                let i = choose|i: int| 0 <= i < v.ready.len() && v.ready[i] == t;
                assert(w.ready[i] == t);
            }
            if t == ids[0] && v.tasks.contains_key(t.0) && !v.tasks[t.0].queued {
                assert(w.ready[v.ready.len() as int] == t);
            }
        }
        assert(v.ready =~= all.ready.subrange(0, v.ready.len() as int)) by {
            assert(w.ready =~= all.ready.subrange(0, w.ready.len() as int));
            assert forall|i: int| 0 <= i < v.ready.len() implies v.ready[i] == all.ready[i] by {
                assert(v.ready[i] == w.ready[i]);
                assert(w.ready[i] == all.ready.subrange(0, w.ready.len() as int)[i]);
            }
        }
    }
}

/// When timers fire, the tasks whose deadline is reached are queued, and no others. Those
/// that are not queued yet come behind those that are.
pub proof fn firing_queues_the_tasks_that_are_due<F, P>(v: RuntimeView<F, P>, now: u64, id: TaskId)
    requires
        timers_in_order(v.timers),
        v.tasks.contains_key(id.0),
        !v.tasks[id.0].queued,
    ensures
        v.timers_fired(now).tasks.contains_key(id.0),
        v.timers_fired(now).tasks[id.0].future == v.tasks[id.0].future,
        v.timers_fired(now).tasks[id.0].queued <==> exists|deadline: u64|
            deadline <= now && #[trigger] waits_for(v.timers, deadline, id),
        v.timers_fired(now).ready.contains(id) <==> v.ready.contains(id)
            || v.timers_fired(now).tasks[id.0].queued,
        v.ready.is_prefix_of(v.timers_fired(now).ready),
{
    let due = crate::des_runtime::due_tasks(v.timers, now);
    let left = RuntimeView { timers: crate::des_runtime::timers_left(v.timers, now), ..v };
    waking_queues_all_tasks(left, due);
    crate::runtime_laws::firing_takes_the_timers_that_are_due(v.timers, now);
    assert(TaskId(id.0) == id);
    assert(left.tasks.contains_key(id.0));
    assert(left.woken_all(due).tasks.dom().contains(id.0));
    if due.contains(id) {
        let i = choose|i: int|
            0 <= i < v.timers.len() && (#[trigger] v.timers[i]).deadline <= now
                && v.timers[i].tasks.contains(id);
        lemma_waits_at(v.timers, i, id);
    }
    if exists|deadline: u64| deadline <= now && #[trigger] waits_for(v.timers, deadline, id) {
        let deadline = choose|deadline: u64|
            deadline <= now && #[trigger] waits_for(v.timers, deadline, id);
        let i = choose|i: int|
            0 <= i < v.timers.len() && (#[trigger] v.timers[i]).deadline == deadline
                && v.timers[i].tasks.contains(id);
        assert(due.contains(id));
    }
}

proof fn lemma_taking_in_keeps<F, P>(v: RuntimeView<F, P>, requests: Seq<SpawnRequest<F>>)
    ensures
        v.taken_in(requests) == (RuntimeView {
            tasks: v.taken_in(requests).tasks,
            ready: v.taken_in(requests).ready,
            ..v
        }),
        v.taken_in(requests).ready == v.ready + requests.map_values(
            |r: SpawnRequest<F>| r.task_id,
        ),
    decreases requests.len(),
{
    let ids = requests.map_values(|r: SpawnRequest<F>| r.task_id);
    if requests.len() > 0 {
        let w = v.with_task(requests[0].task_id, requests[0].future);
        lemma_taking_in_keeps(w, requests.drop_first());
        let tail = requests.drop_first().map_values(|r: SpawnRequest<F>| r.task_id);
        assert(ids.drop_first() =~= tail);
        assert(v.ready.push(requests[0].task_id) + tail =~= v.ready + ids);
    } else {
        assert(v.ready + ids =~= v.ready);
    }
}

proof fn lemma_taken_in_tasks<F, P>(v: RuntimeView<F, P>, requests: Seq<SpawnRequest<F>>, k: u64)
    ensures
        (forall|i: int| 0 <= i < requests.len() ==> (#[trigger] requests[i]).task_id.0 != k) ==> (
        v.taken_in(requests).tasks.contains_key(k) <==> v.tasks.contains_key(k))
            && v.taken_in(requests).tasks[k] == v.tasks[k],
    decreases requests.len(),
{
    if requests.len() > 0 && forall|i: int|
        0 <= i < requests.len() ==> (#[trigger] requests[i]).task_id.0 != k {
        let rest = requests.drop_first();
        assert forall|i: int| 0 <= i < rest.len() implies (#[trigger] rest[i]).task_id.0 != k by {
            assert(rest[i] == requests[i + 1]);
        }
        assert(requests[0].task_id.0 != k);
        lemma_taken_in_tasks(v.with_task(requests[0].task_id, requests[0].future), rest, k);
    }
}

proof fn lemma_taken_in_request<F, P>(v: RuntimeView<F, P>, requests: Seq<SpawnRequest<F>>, i: int)
    requires
        0 <= i < requests.len(),
        forall|j: int|
            i < j < requests.len() ==> (#[trigger] requests[j]).task_id != requests[i].task_id,
    ensures
        v.taken_in(requests).tasks.contains_key(requests[i].task_id.0),
        v.taken_in(requests).tasks[requests[i].task_id.0].future == requests[i].future,
        v.taken_in(requests).tasks[requests[i].task_id.0].queued,
    decreases requests.len(),
{
    let rest = requests.drop_first();
    let w = v.with_task(requests[0].task_id, requests[0].future);
    if i == 0 {
        assert forall|j: int| 0 <= j < rest.len() implies (#[trigger] rest[j]).task_id.0
            != requests[0].task_id.0 by {
            assert(rest[j] == requests[j + 1]);
            assert(requests[j + 1].task_id != requests[0].task_id);
        }
        lemma_taken_in_tasks(w, rest, requests[0].task_id.0);
    } else {
        assert forall|j: int| i - 1 < j < rest.len() implies (#[trigger] rest[j]).task_id
            != rest[i - 1].task_id by {
            assert(rest[j] == requests[j + 1]);
        }
        lemma_taken_in_request(w, rest, i - 1);
    }
}

proof fn lemma_taken_in_add<F, P>(
    v: RuntimeView<F, P>,
    a: Seq<SpawnRequest<F>>,
    b: Seq<SpawnRequest<F>>,
)
    ensures
        v.taken_in(a).taken_in(b) == v.taken_in(a + b),
    decreases a.len(),
{
    if a.len() == 0 {
        assert(a + b =~= b);
    } else {
        lemma_taken_in_add(v.with_task(a[0].task_id, a[0].future), a.drop_first(), b);
        assert((a + b).drop_first() =~= a.drop_first() + b);
    }
}

/// The tasks that were asked for are taken in and queued behind those that are ready: those
/// that may move between threads first, each kind in the order in which it was asked for.
/// The tasks that are there already stay as they are.
pub proof fn asked_for_tasks_are_taken_in_order<F, P>(v: RuntimeView<F, P>)
    requires
        crate::runtime_laws::runtime_in_order(v),
    ensures
        v.all_taken_in().ready == v.ready + (v.sendable + v.local).map_values(
            |r: SpawnRequest<F>| r.task_id,
        ),
        forall|i: int|
            0 <= i < (v.sendable + v.local).len() ==> {
                let r = #[trigger] (v.sendable + v.local)[i];
                &&& v.all_taken_in().tasks.contains_key(r.task_id.0)
                &&& v.all_taken_in().tasks[r.task_id.0].future == r.future
                &&& v.all_taken_in().tasks[r.task_id.0].queued
            },
        forall|k: u64| #[trigger]
            v.tasks.contains_key(k) ==> v.all_taken_in().tasks.contains_key(k)
                && v.all_taken_in().tasks[k] == v.tasks[k],
        v.all_taken_in().sendable.len() == 0,
        v.all_taken_in().local.len() == 0,
        v.all_taken_in().timers == v.timers,
        v.all_taken_in().next_timer_deadline == v.next_timer_deadline,
        v.all_taken_in().next_task_id == v.next_task_id,
        v.all_taken_in().runtime_key == v.runtime_key,
{
    let empty = RuntimeView { sendable: Seq::empty(), local: Seq::empty(), ..v };
    let requests = v.sendable + v.local;
    lemma_taken_in_add(empty, v.sendable, v.local);
    lemma_taking_in_keeps(empty, requests);
    assert forall|i: int| 0 <= i < requests.len() implies {
        let r = #[trigger] requests[i];
        &&& v.all_taken_in().tasks.contains_key(r.task_id.0)
        &&& v.all_taken_in().tasks[r.task_id.0].future == r.future
        &&& v.all_taken_in().tasks[r.task_id.0].queued
    } by {
        lemma_taken_in_request(empty, requests, i);
    }
    assert forall|k: u64| #[trigger] v.tasks.contains_key(k) implies v.all_taken_in().tasks.contains_key(
        k,
    ) && v.all_taken_in().tasks[k] == v.tasks[k] by {
        lemma_taken_in_tasks(empty, requests, k);
    }
}

/// A poll touches the task that has its turn and no other. That task is gone exactly if it
/// is done, and can be woken again otherwise. What it asks for is added behind what was
/// asked for before.
pub proof fn poll_touches_one_task<F: AsyncTask<P>, Q, P>(
    before: CycleState<F, Q, P>,
    after: CycleState<F, Q, P>,
    time: Option<SimTime>,
    key: Key<P>,
    id: TaskId,
)
    requires
        crate::des_runtime::task_polled(before, after, time, key, id),
    ensures
        forall|k: u64|
            k != id.0 ==> (#[trigger] after.tasks.contains_key(k) <==> before.tasks.contains_key(k))
                && after.tasks[k] == before.tasks[k],
        before.deferred.is_prefix_of(after.deferred),
        !before.tasks.contains_key(id.0) ==> !after.tasks.contains_key(id.0) && after.deferred
            == before.deferred,
        before.tasks.contains_key(id.0) ==> exists|
            cx: PollContext<P>,
            future: F,
            cx_after: PollContext<P>,
            done: bool,
        |
            {
                &&& #[trigger] F::polls(before.tasks[id.0].future, cx, future, cx_after, done)
                &&& cx.time == time
                &&& cx.runtime_key == Some(key)
                &&& cx.task_id == Some(id)
                &&& cx.deferred@.len() == 0
                &&& done <==> !after.tasks.contains_key(id.0)
                &&& !done ==> after.tasks[id.0].future == future && !after.tasks[id.0].queued
                &&& after.deferred == before.deferred + cx_after.deferred@
            },
{
    if before.tasks.contains_key(id.0) {
        let (future, cx, cx_after, done) = choose|
            future: F,
            cx: PollContext<P>,
            cx_after: PollContext<P>,
            done: bool,
        |
            {
                &&& crate::des_runtime::is_poll_context(cx, time, key, id)
                &&& #[trigger] F::polls(before.tasks[id.0].future, cx, future, cx_after, done)
                &&& after.tasks == (if done {
                    before.tasks.remove(id.0)
                } else {
                    before.tasks.insert(
                        id.0,
                        crate::des_runtime::TaskSlot { future, queued: false },
                    )
                })
                &&& after.deferred == before.deferred + cx_after.deferred@
            };
        assert(F::polls(before.tasks[id.0].future, cx, future, cx_after, done));
    }
    assert(before.deferred =~= after.deferred.subrange(0, before.deferred.len() as int));
}

/// What an event leaves alone, whatever it is: the key of the runtime once it is known,
/// the time, and the events that were scheduled before.
proof fn lemma_cycle_frame<F: AsyncTask<P>, Q: ReadyTaskPolicy, P, T, R>(
    before: RuntimeView<F, P>,
    policy_before: Q,
    scheduler_before: SchedulerView<P, T, R>,
    after: RuntimeView<F, P>,
    policy_after: Q,
    scheduler_after: SchedulerView<P, T, R>,
)
    requires
        crate::des_runtime::cycle_done(
            before,
            policy_before,
            scheduler_before,
            after,
            policy_after,
            scheduler_after,
        ),
    ensures
        after.timers == before.timers,
        after.next_timer_deadline == before.next_timer_deadline,
        after.runtime_key == before.runtime_key,
        after.next_task_id == before.next_task_id,
        after.ready.len() == 0,
        scheduler_after.events == scheduler_before.events,
        scheduler_after.now == scheduler_before.now,
        scheduler_after.next_event_id == scheduler_before.next_event_id,
{
    let empty = RuntimeView { sendable: Seq::empty(), local: Seq::empty(), ..before };
    lemma_taking_in_keeps(empty, before.sendable);
    lemma_taking_in_keeps(empty.taken_in(before.sendable), before.local);
}

/// A runtime that is told to cancel a task forgets it, and leaves all other tasks, their
/// timers and the queue as they are.
pub proof fn cancelling_leaves_the_others<F: AsyncTask<P>, Q: ReadyTaskPolicy, P: RuntimePayload, T, R>(
    self_id: Key<P>,
    task_id: TaskId,
    given: RuntimeView<F, P>,
    policy_before: Q,
    scheduler_before: SchedulerView<P, T, R>,
    after: RuntimeView<F, P>,
    policy_after: Q,
    scheduler_after: SchedulerView<P, T, R>,
)
    requires
        crate::des_runtime::event_processed(
            self_id,
            RuntimeEvent::Cancel { task_id },
            given,
            policy_before,
            scheduler_before,
            after,
            policy_after,
            scheduler_after,
        ),
    ensures
        !after.tasks.contains_key(task_id.0),
        forall|k: u64|
            k != task_id.0 ==> (#[trigger] after.tasks.contains_key(k) <==> given.tasks.contains_key(
                k,
            )) && after.tasks[k] == given.tasks[k],
        forall|deadline: u64, other: TaskId| #[trigger]
            waits_for(after.timers, deadline, other) <==> other != task_id && waits_for(
                given.timers,
                deadline,
                other,
            ),
        after.ready == given.ready,
        after.sendable == given.sendable,
        after.local == given.local,
        after.next_task_id == given.next_task_id,
        policy_after == policy_before,
{
    assert forall|deadline: u64, other: TaskId| #[trigger]
        waits_for(after.timers, deadline, other) <==> other != task_id && waits_for(
            given.timers,
            deadline,
            other,
        ) by {
        cancelling_keeps_other_timers(given.timers, task_id, deadline, other);
    }
}

/// A runtime that is told of a deadline of one of its tasks lets the task wait for it. It
/// does nothing about a task that it does not have.
pub proof fn registering_lets_one_task_wait<F: AsyncTask<P>, Q: ReadyTaskPolicy, P: RuntimePayload, T, R>(
    self_id: Key<P>,
    task_id: TaskId,
    at: SimTime,
    given: RuntimeView<F, P>,
    policy_before: Q,
    scheduler_before: SchedulerView<P, T, R>,
    after: RuntimeView<F, P>,
    policy_after: Q,
    scheduler_after: SchedulerView<P, T, R>,
)
    requires
        crate::des_runtime::event_processed(
            self_id,
            RuntimeEvent::RegisterTimer { task_id, deadline: at },
            given,
            policy_before,
            scheduler_before,
            after,
            policy_after,
            scheduler_after,
        ),
    ensures
        after.tasks == given.tasks,
        after.ready == given.ready,
        after.sendable == given.sendable,
        after.local == given.local,
        after.next_task_id == given.next_task_id,
        policy_after == policy_before,
        forall|deadline: u64, other: TaskId| #[trigger]
            waits_for(after.timers, deadline, other) <==> waits_for(given.timers, deadline, other)
                || (given.tasks.contains_key(task_id.0) && other == task_id && deadline == at.0),
{
    assert forall|deadline: u64, other: TaskId| #[trigger]
        waits_for(after.timers, deadline, other) <==> waits_for(given.timers, deadline, other) || (
        given.tasks.contains_key(task_id.0) && other == task_id && deadline == at.0) by {
        registering_adds_one_wait(given.timers, task_id, at.0, deadline, other);
    }
}

/// Whether an event of a runtime is scheduled at a time.
pub open spec fn is_scheduled<T, R>(
    s: SchedulerView<RuntimeEvent, T, R>,
    component: Uuid,
    time: u64,
    event: RuntimeEvent,
) -> bool {
    exists|i: int|
        {
            &&& 0 <= i < s.events.len()
            &&& #[trigger] s.events[i] matches EventEntry::Component(e)
            &&& e.component == component
            &&& e.time.0 == time
            &&& e.inner == event
        }
}

/// Whether a runtime is woken in time: where tasks wait, a tick is scheduled for the
/// earliest deadline, or for now where that is past.
pub open spec fn ticks_in_time<F, T, R>(
    v: RuntimeView<F, RuntimeEvent>,
    s: SchedulerView<RuntimeEvent, T, R>,
    component: Uuid,
) -> bool {
    &&& v.next_timer_deadline is Some <==> v.timers.len() > 0
    &&& v.timers.len() > 0 ==> {
        let deadline = v.timers[0].deadline;
        &&& v.next_timer_deadline == Some(SimTime(deadline))
        &&& is_scheduled(
            s,
            component,
            if deadline > s.now {
                deadline
            } else {
                s.now
            },
            RuntimeEvent::TimerTick,
        )
    }
}

proof fn lemma_scheduled_stays<T, R>(
    s: SchedulerView<RuntimeEvent, T, R>,
    delay: u64,
    component: Uuid,
    event: RuntimeEvent,
    other: Uuid,
    time: u64,
    kept: RuntimeEvent,
)
    requires
        s.wf(),
        s.next_event_id < u64::MAX,
    ensures
        is_scheduled(s, other, time, kept) ==> is_scheduled(
            s.scheduled(delay, component, event),
            other,
            time,
            kept,
        ),
        is_scheduled(
            s.scheduled(delay, component, event),
            component,
            s.now.saturating_add(delay),
            event,
        ),
        s.scheduled(delay, component, event).wf(),
        s.scheduled(delay, component, event).now == s.now,
        s.scheduled(delay, component, event).next_event_id == s.next_event_id + 1,
{
    let t = s.scheduled(delay, component, event);
    let made = s.component_event(delay, component, event);
    crate::scheduler_laws::scheduling_adds_one_event(s, delay, component, event, made);
    let k = choose|k: int| 0 <= k < t.events.len() && t.events[k] == made;
    assert(t.events[k] matches EventEntry::Component(e) && e.inner == event);
    if is_scheduled(s, other, time, kept) {
        let i = choose|i: int|
            {
                &&& 0 <= i < s.events.len()
                &&& #[trigger] s.events[i] matches EventEntry::Component(e)
                &&& e.component == other
                &&& e.time.0 == time
                &&& e.inner == kept
            };
        crate::scheduler_laws::scheduling_adds_one_event(s, delay, component, event, s.events[i]);
        assert(s.events.contains(s.events[i]));
        let j = choose|j: int| 0 <= j < t.events.len() && t.events[j] == s.events[i];
        assert(t.events[j] matches EventEntry::Component(e) && e.inner == kept);
    }
}

/// A tick that is brought up to date stands for the earliest deadline.
proof fn lemma_tick<F, T, R>(
    v: RuntimeView<F, RuntimeEvent>,
    s: SchedulerView<RuntimeEvent, T, R>,
    self_id: Key<RuntimeEvent>,
    ticked: SchedulerView<RuntimeEvent, T, R>,
)
    requires
        s.wf(),
        s.next_event_id < u64::MAX,
        crate::des_runtime::tick_scheduled(v, s, self_id, ticked),
        v.timers.len() > 0 && v.next_timer_deadline == Some(SimTime(v.timers[0].deadline))
            ==> is_scheduled(
            s,
            self_id.id,
            if v.timers[0].deadline > s.now {
                v.timers[0].deadline
            } else {
                s.now
            },
            RuntimeEvent::TimerTick,
        ),
    ensures
        ticks_in_time(crate::des_runtime::tick_noted(v), ticked, self_id.id),
        ticked.wf(),
        ticked.now == s.now,
        ticked.next_event_id <= s.next_event_id + 1,
{
    if v.timers.len() > 0 && v.next_timer_deadline != Some(SimTime(v.timers[0].deadline)) {
        let delay = v.timers[0].deadline.saturating_sub(s.now);
        lemma_scheduled_stays(
            s,
            delay,
            self_id.id,
            RuntimeEvent::TimerTick,
            self_id.id,
            0,
            RuntimeEvent::TimerTick,
        );
    }
}

/// A runtime is woken in time: whatever event it gets, as long as there are event numbers
/// left, a tick is scheduled for the earliest deadline afterwards, and a poll where tasks
/// are ready.
pub proof fn events_keep_the_ticks_in_time<F: AsyncTask<RuntimeEvent>, Q: ReadyTaskPolicy, T, R>(
    self_id: Key<RuntimeEvent>,
    event: RuntimeEvent,
    given: RuntimeView<F, RuntimeEvent>,
    policy_before: Q,
    scheduler_before: SchedulerView<RuntimeEvent, T, R>,
    after: RuntimeView<F, RuntimeEvent>,
    policy_after: Q,
    scheduler_after: SchedulerView<RuntimeEvent, T, R>,
)
    requires
        scheduler_before.wf(),
        scheduler_before.next_event_id < u64::MAX - 1,
        event !is TimerTick ==> ticks_in_time(given, scheduler_before, self_id.id),
        timers_in_order(given.timers),
        crate::des_runtime::event_processed(
            self_id,
            event,
            given,
            policy_before,
            scheduler_before,
            after,
            policy_after,
            scheduler_after,
        ),
    ensures
        ticks_in_time(after, scheduler_after, self_id.id),
        timers_in_order(after.timers),
        after.ready.len() > 0 ==> is_scheduled(
            scheduler_after,
            self_id.id,
            scheduler_before.now,
            RuntimeEvent::Poll,
        ),
        scheduler_after.now == scheduler_before.now,
        event is TimerTick && after.timers.len() > 0 ==> after.timers[0].deadline
            > scheduler_before.now,
{
    let (p, p2, s) = (policy_before, policy_after, scheduler_before);
    let v = given.known_as(self_id);
    let left = choose|left: SchedulerView<RuntimeEvent, T, R>|
        {
            &&& #[trigger] crate::des_runtime::event_handled(
                self_id,
                event,
                v,
                p,
                s,
                after,
                p2,
                left,
            )
            &&& if after.ready.len() > 0 {
                crate::des_runtime::offered_event(
                    left,
                    0,
                    self_id,
                    RuntimeEvent::Poll,
                    scheduler_after,
                )
            } else {
                scheduler_after == left
            }
        };
    match event {
        RuntimeEvent::Poll => {
            lemma_cycle_frame(v, p, s, after, p2, left);
        },
        RuntimeEvent::Wake { task_id } => {
            waking_queues_one_task(v, task_id);
            lemma_cycle_frame(v.woken(task_id), p, s, after, p2, left);
        },
        RuntimeEvent::Cancel { task_id } => {
            let cancelled = RuntimeView {
                tasks: v.tasks.remove(task_id.0),
                timers: crate::des_runtime::without_task(v.timers, task_id),
                ..v
            };
            crate::runtime_laws::cancelling_clears_the_timers(v.timers, task_id);
            if cancelled.timers.len() > 0 && v.next_timer_deadline == Some(
                SimTime(cancelled.timers[0].deadline),
            ) {
                assert(v.timers.len() > 0);
            }
            lemma_tick(cancelled, s, self_id, left);
        },
        RuntimeEvent::RegisterTimer { task_id, deadline } => {
            if v.tasks.contains_key(task_id.0) {
                let registered = RuntimeView {
                    timers: crate::des_runtime::with_timer(v.timers, deadline.0, task_id),
                    ..v
                };
                crate::runtime_laws::registering_keeps_the_timers_in_order(
                    v.timers,
                    deadline.0,
                    task_id,
                );
                lemma_tick(registered, s, self_id, left);
            }
        },
        RuntimeEvent::TimerTick => {
            let unset = RuntimeView { next_timer_deadline: None, ..v };
            let fired = unset.timers_fired(s.now);
            let kept = RuntimeView {
                timers: crate::des_runtime::timers_left(unset.timers, s.now),
                ..unset
            };
            waking_queues_all_tasks(kept, crate::des_runtime::due_tasks(unset.timers, s.now));
            crate::runtime_laws::firing_takes_the_timers_that_are_due(v.timers, s.now);
            let noted = crate::des_runtime::tick_noted(fired);
            let ticked = choose|ticked: SchedulerView<RuntimeEvent, T, R>|
                {
                    &&& #[trigger] crate::des_runtime::tick_scheduled(fired, s, self_id, ticked)
                    &&& crate::des_runtime::cycle_done(noted, p, ticked, after, p2, left)
                };
            lemma_tick(fired, s, self_id, ticked);
            lemma_cycle_frame(noted, p, ticked, after, p2, left);
        },
    }
    if after.ready.len() > 0 {
        let time = if after.timers.len() > 0 && after.timers[0].deadline > s.now {
            after.timers[0].deadline
        } else {
            s.now
        };
        lemma_scheduled_stays(
            left,
            0,
            self_id.id,
            RuntimeEvent::Poll,
            self_id.id,
            time,
            RuntimeEvent::TimerTick,
        );
    }
}

/// A wait of a given length ends that long after it was first polled, and one until a given
/// time at that time. Before that it asks once for a timer at its end.
pub proof fn sleep_ends_when_it_should(
    before: SimSleep,
    cx: PollContext<RuntimeEvent>,
    after: SimSleep,
    cx_after: PollContext<RuntimeEvent>,
    done: bool,
    now: SimTime,
)
    requires
        cx.time == Some(now),
        SimSleep::polls(before, cx, after, cx_after, done),
        crate::duration::duration_nanos(before.duration) <= u64::MAX,
    ensures
        after.target_time is Some,
        before.target_time is Some ==> after.target_time == before.target_time,
        before.target_time is None ==> {
            let end = now.0 + crate::duration::duration_nanos(before.duration);
            (after.target_time->0).0 == if end <= u64::MAX {
                end
            } else {
                u64::MAX as int
            }
        },
        done <==> now.0 >= (after.target_time->0).0,
        !done && !before.timer_scheduled && cx.runtime_key is Some && cx.task_id is Some ==> {
            &&& cx_after.deferred@.len() == cx.deferred@.len() + 1
            &&& cx.deferred@.is_prefix_of(cx_after.deferred@)
            &&& cx_after.deferred@.last().component == cx.runtime_key->0
            &&& cx_after.deferred@.last().delay.0 == 0
            &&& cx_after.deferred@.last().event == (RuntimeEvent::RegisterTimer {
                task_id: cx.task_id->0,
                deadline: after.target_time->0,
            })
        },
        done || before.timer_scheduled ==> cx_after.deferred@ == cx.deferred@,
{
    let (a, b) = (cx.deferred@, cx_after.deferred@);
    if !done && !before.timer_scheduled && cx.runtime_key is Some && cx.task_id is Some {
        assert(a =~= b.subrange(0, a.len() as int));
    }
}

proof fn lemma_chain_only_defers<F: AsyncTask<P>, Q: ReadyTaskPolicy, P>(
    states: Seq<CycleState<F, Q, P>>,
    now: SimTime,
    time: Option<SimTime>,
    key: Key<P>,
    i: int,
)
    requires
        crate::des_runtime::is_chain(states, now, time, key),
        0 <= i < states.len(),
    ensures
        states[0].deferred.is_prefix_of(states[i].deferred),
        forall|k: u64| #[trigger]
            states[i].tasks.contains_key(k) ==> states[0].tasks.contains_key(k),
        forall|k: u64|
            #![trigger states[i].tasks.contains_key(k)]
            states[0].tasks.contains_key(k) && !states[0].poll_set.contains(TaskId(k))
                ==> states[i].tasks.contains_key(k) && states[i].tasks[k] == states[0].tasks[k],
        forall|t: TaskId| #[trigger]
            states[i].poll_set.contains(t) ==> states[0].poll_set.contains(t),
    decreases i,
{
    if i == 0 {
        let d = states[0].deferred;
        assert(d =~= d.subrange(0, d.len() as int));
    } else {
        lemma_chain_only_defers(states, now, time, key, i - 1);
        assert(crate::des_runtime::turned_at(states, i - 1, now, time, key));
        let (a, b) = (states[i - 1], states[i]);
        let index = choose|index: usize| #[trigger]
            crate::des_runtime::cycle_turn(a, b, now, time, key, index);
        let k = crate::scheduler::clamped(index, a.poll_set.len());
        let id = a.poll_set[k];
        assert(a.poll_set.contains(id));
        poll_touches_one_task(a, b, time, key, id);
        let (d, e, f) = (states[0].deferred, a.deferred, b.deferred);
        assert forall|j: int| 0 <= j < d.len() implies d[j] == f[j] by {
            assert(d[j] == e.subrange(0, d.len() as int)[j]);
            assert(e[j] == f.subrange(0, e.len() as int)[j]);
        }
        assert(d =~= f.subrange(0, d.len() as int));
        assert forall|t: TaskId| #[trigger] b.poll_set.contains(t) implies states[0].poll_set.contains(
            t,
        ) by {
            let j = choose|j: int| 0 <= j < b.poll_set.len() && b.poll_set[j] == t;
            if j < k {
                assert(a.poll_set[j] == t);
            } else {
                assert(a.poll_set[j + 1] == t);
            }
            assert(a.poll_set.contains(t));
        }
        assert forall|q: u64| #[trigger] b.tasks.contains_key(q) implies states[0].tasks.contains_key(
            q,
        ) by {
            if q == id.0 {
                assert(a.tasks.contains_key(id.0));
            } else {
                assert(a.tasks.contains_key(q));
            }
        }
        assert forall|q: u64|
            #![trigger b.tasks.contains_key(q)]
            states[0].tasks.contains_key(q) && !states[0].poll_set.contains(
                TaskId(q),
            ) implies b.tasks.contains_key(q) && b.tasks[q] == states[0].tasks[q] by {
            assert(states[0].poll_set.contains(id));
            assert(id == TaskId(id.0));
            assert(q != id.0);
            let held = states[i - 1].tasks.contains_key(q);
            assert(held);
        }
    }
}

/// A cycle polls no task but the ready ones and those that are taken in: every other task
/// stays as it was. It makes no task up, and what the tasks ask the scheduler for is only
/// deferred, behind what was deferred before. Timers stay, and so does all else of the
/// scheduler.
pub proof fn cycle_touches_ready_tasks_only<F: AsyncTask<P>, Q: ReadyTaskPolicy, P, T, R>(
    before: RuntimeView<F, P>,
    policy_before: Q,
    scheduler_before: SchedulerView<P, T, R>,
    after: RuntimeView<F, P>,
    policy_after: Q,
    scheduler_after: SchedulerView<P, T, R>,
    k: u64,
)
    requires
        crate::des_runtime::cycle_done(
            before,
            policy_before,
            scheduler_before,
            after,
            policy_after,
            scheduler_after,
        ),
    ensures
        ({
            let start = before.all_taken_in();
            &&& after.tasks.contains_key(k) ==> start.tasks.contains_key(k)
            &&& start.tasks.contains_key(k) && !start.ready.contains(TaskId(k))
                ==> after.tasks.contains_key(k) && after.tasks[k] == start.tasks[k]
        }),
        after.ready.len() == 0,
        after.timers == before.timers,
        after.next_timer_deadline == before.next_timer_deadline,
        after.runtime_key == before.runtime_key,
        after.next_task_id == before.next_task_id,
        scheduler_before.deferred.is_prefix_of(scheduler_after.deferred),
        scheduler_after.events == scheduler_before.events,
        scheduler_after.now == scheduler_before.now,
        scheduler_after.pending == scheduler_before.pending,
        scheduler_after.results == scheduler_before.results,
        scheduler_after.cancelled == scheduler_before.cancelled,
        scheduler_after.executing == scheduler_before.executing,
        scheduler_after.in_event == scheduler_before.in_event,
        scheduler_after.next_event_id == scheduler_before.next_event_id,
        scheduler_after.next_task_id == scheduler_before.next_task_id,
{
    lemma_cycle_frame(
        before,
        policy_before,
        scheduler_before,
        after,
        policy_after,
        scheduler_after,
    );
    let start = before.all_taken_in();
    let (now, time, key) = (
        SimTime(scheduler_before.now),
        scheduler_before.event_time(),
        before.runtime_key->0,
    );
    let states = choose|states: Seq<CycleState<F, Q, P>>|
        {
            &&& #[trigger] crate::des_runtime::is_cycle(states, now, time, key)
            &&& states[0] == (CycleState {
                tasks: start.tasks,
                policy: policy_before,
                poll_set: start.ready,
                deferred: scheduler_before.deferred,
            })
            &&& after == (RuntimeView {
                tasks: states.last().tasks,
                ready: Seq::empty(),
                ..start
            })
            &&& policy_after == states.last().policy
            &&& scheduler_after == (SchedulerView {
                deferred: states.last().deferred,
                ..scheduler_before
            })
        };
    let n = states.len() - 1;
    lemma_chain_only_defers(states, now, time, key, n);
    if after.tasks.contains_key(k) {
        assert(states[n].tasks.contains_key(k));
    }
    if start.tasks.contains_key(k) && !start.ready.contains(TaskId(k)) {
        let held = states[n].tasks.contains_key(k);
        assert(states[0].tasks.contains_key(k));
    }
}

/// When a timer is due, exactly those waits are over whose deadline has come. All later ones
/// stay.
pub proof fn tick_ends_the_waits_that_are_due<
    F: AsyncTask<P>,
    Q: ReadyTaskPolicy,
    P: RuntimePayload,
    T,
    R,
>(
    self_id: Key<P>,
    given: RuntimeView<F, P>,
    policy_before: Q,
    scheduler_before: SchedulerView<P, T, R>,
    after: RuntimeView<F, P>,
    policy_after: Q,
    scheduler_after: SchedulerView<P, T, R>,
    deadline: u64,
    id: TaskId,
)
    requires
        timers_in_order(given.timers),
        crate::des_runtime::event_processed(
            self_id,
            RuntimeEvent::TimerTick,
            given,
            policy_before,
            scheduler_before,
            after,
            policy_after,
            scheduler_after,
        ),
    ensures
        waits_for(after.timers, deadline, id) <==> waits_for(given.timers, deadline, id) && deadline
            > scheduler_before.now,
{
    let (p, p2, s) = (policy_before, policy_after, scheduler_before);
    let v = given.known_as(self_id);
    let left = choose|left: SchedulerView<P, T, R>|
        {
            &&& #[trigger] crate::des_runtime::event_handled(
                self_id,
                RuntimeEvent::TimerTick,
                v,
                p,
                s,
                after,
                p2,
                left,
            )
            &&& if after.ready.len() > 0 {
                crate::des_runtime::offered_event(
                    left,
                    0,
                    self_id,
                    RuntimeEvent::Poll,
                    scheduler_after,
                )
            } else {
                scheduler_after == left
            }
        };
    let unset = RuntimeView { next_timer_deadline: None, ..v };
    let fired = unset.timers_fired(s.now);
    let kept = RuntimeView {
        timers: crate::des_runtime::timers_left(unset.timers, s.now),
        ..unset
    };
    waking_queues_all_tasks(kept, crate::des_runtime::due_tasks(unset.timers, s.now));
    let noted = crate::des_runtime::tick_noted(fired);
    let ticked = choose|ticked: SchedulerView<P, T, R>|
        {
            &&& #[trigger] crate::des_runtime::tick_scheduled(fired, s, self_id, ticked)
            &&& crate::des_runtime::cycle_done(noted, p, ticked, after, p2, left)
        };
    lemma_cycle_frame(noted, p, ticked, after, p2, left);
    firing_leaves_later_waits(given.timers, s.now, deadline, id);
}

/// A runtime is known under the first key that an event reaches it with.
pub proof fn runtime_keeps_its_first_key<F, P>(v: RuntimeView<F, P>, a: Key<P>, b: Key<P>)
    ensures
        v.runtime_key is None ==> v.known_as(a).runtime_key == Some(a),
        v.runtime_key is Some ==> v.known_as(a) == v,
        v.known_as(a).known_as(b) == v.known_as(a),
        v.known_as(a).tasks == v.tasks,
        v.known_as(a).ready == v.ready,
        v.known_as(a).timers == v.timers,
{
}

/// Taking a request back takes back all requests for that task, and no other one. The others
/// keep their order.
pub proof fn taking_a_request_back_leaves_the_others<F>(
    s: Seq<SpawnRequest<F>>,
    id: TaskId,
    r: SpawnRequest<F>,
)
    ensures
        crate::async_runtime::without_request(s, id).contains(r) <==> s.contains(r) && r.task_id
            != id,
        crate::async_runtime::without_request(s.push(r), id) == if r.task_id == id {
            crate::async_runtime::without_request(s, id)
        } else {
            crate::async_runtime::without_request(s, id).push(r)
        },
        crate::async_runtime::without_request(Seq::<SpawnRequest<F>>::empty(), id).len() == 0,
{
    reveal(Seq::filter);
    assert(s.push(r).drop_last() =~= s);
    lemma_requests_left(s, id, r);
}

proof fn lemma_requests_left<F>(s: Seq<SpawnRequest<F>>, id: TaskId, r: SpawnRequest<F>)
    ensures
        crate::async_runtime::without_request(s, id).contains(r) <==> s.contains(r) && r.task_id
            != id,
    decreases s.len(),
{
    reveal(Seq::filter);
    if s.len() > 0 {
        let front = s.drop_last();
        let last = s[s.len() - 1];
        lemma_requests_left(front, id, r);
        let kept = crate::async_runtime::without_request(front, id);
        let all = crate::async_runtime::without_request(s, id);
        if front.contains(r) {
            let i = choose|i: int| 0 <= i < front.len() && front[i] == r;
            assert(s[i] == r);
        }
        if s.contains(r) {
            let i = choose|i: int| 0 <= i < s.len() && s[i] == r;
            if i < front.len() {
                assert(front[i] == r);
            }
        }
        if last.task_id != id {
            assert(all == kept.push(last));
            if kept.contains(r) {
                let i = choose|i: int| 0 <= i < kept.len() && kept[i] == r;
                assert(all[i] == r);
            }
            if all.contains(r) {
                let i = choose|i: int| 0 <= i < all.len() && all[i] == r;
                if i < kept.len() {
                    assert(kept[i] == r);
                }
            }
            assert(all[kept.len() as int] == last);
        }
    }
}

} // verus!
