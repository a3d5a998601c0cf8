//! What holds of a scheduler over several of its operations.

use crate::event::EventEntry;
use crate::frontier_policy::FifoFrontierPolicy;
use crate::scheduler::SchedulerView;
use crate::task_id::TaskId;
use uuid::Uuid;
use vstd::prelude::*;

verus! {

/// What is left after the cancelled events in front were dropped is the end of
/// the queue, and starts with an event that is not cancelled.
proof fn lemma_skip<P>(s: Seq<EventEntry<P>>, marks: Set<u128>) -> (n: int)
    ensures
        0 <= n <= s.len(),
        crate::scheduler::skip_marked(s, marks).0 == s.skip(n),
        forall|id: u128|
            crate::scheduler::skip_marked(s, marks).1.contains(id) ==> marks.contains(id),
        forall|i: int| 0 <= i < n ==> crate::scheduler::is_marked(#[trigger] s[i], marks),
        n < s.len() ==> !crate::scheduler::is_marked(
            s[n],
            crate::scheduler::skip_marked(s, marks).1,
        ),
    decreases s.len(),
{
    if s.len() > 0 && crate::scheduler::is_marked(s[0], marks) {
        let rest = marks.remove(s[0].task_value()->0);
        let n = lemma_skip(s.drop_first(), rest);
        assert(s.drop_first().skip(n) =~= s.skip(n + 1));
        assert forall|i: int| 0 <= i < n + 1 implies crate::scheduler::is_marked(
            #[trigger] s[i],
            marks,
        ) by {
            if i > 0 {
                assert(s[i] == s.drop_first()[i - 1]);
            }
        }
        n + 1
    } else {
        assert(s.skip(0) =~= s);
        0
    }
}

/// How a queue in order is split at a time before which nothing is due.
proof fn lemma_split<P>(s: Seq<EventEntry<P>>, marks: Set<u128>, time: u64)
    requires
        crate::event::in_order(s),
        forall|i: int| 0 <= i < s.len() ==> time <= (#[trigger] s[i]).spec_time(),
    ensures
        ({
            let split = crate::scheduler::split_frontier(s, marks, time);
            &&& forall|i: int| 0 <= i < split.due.len() ==> (#[trigger] split.due[i]).spec_time() == time
            &&& forall|i: int| 0 <= i < split.rest.len() ==> time < (#[trigger] split.rest[i]).spec_time()
            &&& crate::event::in_order(split.due)
            &&& crate::event::in_order(split.rest)
            &&& forall|e: EventEntry<P>| split.due.contains(e) || split.rest.contains(e) ==> s.contains(e)
            &&& forall|e: EventEntry<P>| #[trigger] s.contains(e) ==> split.due.contains(e)
                || split.rest.contains(e) || crate::scheduler::is_marked(e, marks)
        }),
    decreases s.len(),
{
    let split = crate::scheduler::split_frontier(s, marks, time);
    if s.len() == 0 {
    } else if s[0].spec_time() != time {
        assert forall|i: int| 0 <= i < s.len() implies time < (#[trigger] s[i]).spec_time() by {
            if i > 0 {
                assert(s[0].before(s[i]));
            }
        }
    } else {
        let rest = s.drop_first();
        assert forall|e: EventEntry<P>| #[trigger] s.contains(e) implies e == s[0]
            || rest.contains(e) by {
            let i = choose|i: int| 0 <= i < s.len() && s[i] == e;
            if i > 0 {
                assert(rest[i - 1] == e);
            }
        }
        assert forall|e: EventEntry<P>| rest.contains(e) implies s.contains(e) by {
            let i = choose|i: int| 0 <= i < rest.len() && rest[i] == e;
            assert(s[i + 1] == e);
        }
        if crate::scheduler::is_marked(s[0], marks) {
            lemma_split(rest, marks.remove(s[0].task_value()->0), time);
        } else {
            lemma_split(rest, marks, time);
            let tail = crate::scheduler::split_frontier(rest, marks, time);
            assert(split.due[0] == s[0]);
            assert forall|e: EventEntry<P>| split.due.contains(e) implies e == s[0]
                || tail.due.contains(e) by {
                let i = choose|i: int| 0 <= i < split.due.len() && split.due[i] == e;
                if i > 0 {
                    assert(tail.due[i - 1] == e);
                }
            }
            assert forall|e: EventEntry<P>| tail.due.contains(e) implies split.due.contains(e) by {
                let i = choose|i: int| 0 <= i < tail.due.len() && tail.due[i] == e;
                assert(split.due[i + 1] == e);
            }
            assert forall|i: int| 0 <= i < split.due.len() implies (
            #[trigger] split.due[i]).spec_time() == time by {
                if i > 0 {
                    assert(split.due[i] == tail.due[i - 1]);
                }
            }
            assert forall|i: int, j: int| 0 <= i < j < split.due.len() implies (
            #[trigger] split.due[i]).before(#[trigger] split.due[j]) by {
                assert(split.due[j] == tail.due[j - 1]);
                if i > 0 {
                    assert(split.due[i] == tail.due[i - 1]);
                } else {
                    assert(tail.due.contains(tail.due[j - 1]));
                    assert(rest.contains(tail.due[j - 1]));
                    let k = choose|k: int| 0 <= k < rest.len() && rest[k] == tail.due[j - 1];
                    assert(s[0].before(s[k + 1]));
                }
            }
        }
    }
}

/// The facts of `lemma_split` for the events that are due next.
proof fn lemma_frontier<P, T, R>(v: SchedulerView<P, T, R>)
    requires
        v.wf(),
    ensures
        ({
            let split = v.frontier();
            &&& split.due.len() > 0 <==> v.popped().0 is Some
            &&& split.due.len() > 0 ==> v.popped().0 == Some(split.due[0])
            &&& forall|i: int|
                0 <= i < split.due.len() ==> (#[trigger] split.due[i]).spec_time()
                    == split.due[0].spec_time()
            &&& split.due.len() > 0 ==> v.now <= split.due[0].spec_time()
            &&& forall|i: int|
                0 <= i < split.rest.len() && split.due.len() > 0 ==> split.due[0].spec_time() < (
                #[trigger] split.rest[i]).spec_time()
            &&& crate::event::in_order(split.due)
            &&& crate::event::in_order(split.rest)
            &&& forall|e: EventEntry<P>|
                split.due.contains(e) || split.rest.contains(e) ==> v.events.contains(e)
            &&& forall|e: EventEntry<P>| #[trigger]
                v.events.contains(e) ==> split.due.contains(e) || split.rest.contains(e)
                    || crate::scheduler::is_marked(e, v.cancelled)
        }),
{
    let n = lemma_skip(v.events, v.cancelled);
    let (events, marks) = crate::scheduler::skip_marked(v.events, v.cancelled);
    assert forall|e: EventEntry<P>| #[trigger] v.events.contains(e) implies events.contains(e)
        || crate::scheduler::is_marked(e, v.cancelled) by {
        let i = choose|i: int| 0 <= i < v.events.len() && v.events[i] == e;
        if i >= n {
            assert(events[i - n] == e);
        }
    }
    assert forall|e: EventEntry<P>| events.contains(e) implies v.events.contains(e) by {
        let i = choose|i: int| 0 <= i < events.len() && events[i] == e;
        assert(v.events[i + n] == e);
    }
    if events.len() > 0 {
        assert(events[0] == v.events[n]);
        assert forall|i: int| 0 <= i < events.len() implies events[0].spec_time() <= (
        #[trigger] events[i]).spec_time() by {
            assert(events[i] == v.events[i + n]);
        }
        assert forall|i: int, j: int| 0 <= i < j < events.len() implies (
        #[trigger] events[i]).before(#[trigger] events[j]) by {
            assert(events[i] == v.events[i + n]);
            assert(events[j] == v.events[j + n]);
        }
        lemma_split(events, marks, events[0].spec_time());
        let tail = crate::scheduler::split_frontier(
            events.drop_first(),
            marks,
            events[0].spec_time(),
        );
        assert(events[0] == events.skip(0)[0]);
        assert(v.frontier().due == seq![events[0]] + tail.due);
        assert(v.frontier().due[0] == events[0]);
        let split = v.frontier();
        assert forall|e: EventEntry<P>| #[trigger] v.events.contains(e) implies split.due.contains(e)
            || split.rest.contains(e) || crate::scheduler::is_marked(e, v.cancelled) by {
            if events.contains(e) && crate::scheduler::is_marked(e, marks) {
                assert(v.cancelled.contains(e.task_value()->0));
            }
        }
        assert forall|e: EventEntry<P>| split.due.contains(e) || split.rest.contains(
            e,
        ) implies v.events.contains(e) by {
            assert(events.contains(e));
        }
    }
}

/// Of the events that are due next, the first one is taken where no policy selects
/// another. There is none exactly if there is nothing to take.
pub proof fn first_due_event_is_popped<P, T, R>(v: SchedulerView<P, T, R>)
    requires
        v.wf(),
    ensures
        v.frontier().due.len() > 0 <==> v.popped().0 is Some,
        v.frontier().due.len() > 0 ==> v.popped().0 == Some(v.frontier().due[0]),
{
    lemma_frontier(v);
}

/// The event that is taken is due before every event that is left.
pub proof fn popped_event_is_due_first<P, T, R>(v: SchedulerView<P, T, R>)
    requires
        v.wf(),
        v.popped().0 is Some,
    ensures
        forall|i: int|
            0 <= i < v.popped().1.events.len() ==> v.popped().0->0.before(
                #[trigger] v.popped().1.events[i],
            ),
        v.popped().1.now == v.popped().0->0.spec_time(),
{
    let n = lemma_skip(v.events, v.cancelled);
    let events = v.events.skip(n);
    let left = v.popped().1.events;
    assert forall|i: int| 0 <= i < left.len() implies v.popped().0->0.before(#[trigger] left[i]) by {
        assert(left[i] == v.events[n + 1 + i]);
        assert(events[0] == v.events[n]);
    }
}

/// No event that is left is due before one that was taken under a policy.
pub proof fn selected_event_is_due_next<P, T, R>(v: SchedulerView<P, T, R>, k: int)
    requires
        v.wf(),
        0 <= k < v.frontier().due.len(),
    ensures
        forall|i: int|
            0 <= i < v.taken(k).events.len() ==> v.frontier().due[k].spec_time() <= (
            #[trigger] v.taken(k).events[i]).spec_time(),
        v.taken(k).now == v.frontier().due[k].spec_time(),
{
    lemma_frontier(v);
    let split = v.frontier();
    let left = v.taken(k).events;
    assert forall|i: int| 0 <= i < left.len() implies split.due[k].spec_time() <= (
    #[trigger] left[i]).spec_time() by {
        if i < split.due.len() - 1 {
            if i < k {
                assert(left[i] == split.due[i]);
            } else {
                assert(left[i] == split.due[i + 1]);
            }
        } else {
            assert(left[i] == split.rest[i - (split.due.len() - 1)]);
        }
    }
}

/// Time never goes back, whichever way an event is taken.
pub proof fn time_never_goes_back<P, T, R>(v: SchedulerView<P, T, R>, k: int)
    requires
        v.wf(),
    ensures
        v.now <= v.popped().1.now,
        0 <= k < v.frontier().due.len() ==> v.now <= v.taken(k).now,
{
    lemma_frontier(v);
}

/// With the first-in-first-out policy, the event that is taken is the one that is
/// taken without a policy.
pub proof fn fifo_policy_keeps_the_order<P, T, R>(
    v: SchedulerView<P, T, R>,
    before: FifoFrontierPolicy,
    after: FifoFrontierPolicy,
    index: usize,
)
    requires
        v.wf(),
        v.frontier().due.len() > 0,
        crate::scheduler::consulted(before, v.frontier().due, after, index),
    ensures
        index == 0,
        v.popped().0 == Some(
            v.frontier().due[crate::scheduler::clamped(index, v.frontier().due.len())],
        ),
{
    lemma_frontier(v);
    let due = v.frontier().due;
    if due.len() > 1 && index > 0 {
        let frontier = crate::scheduler::descriptions(due);
        assert(crate::frontier_policy::is_first_smallest(frontier, index as int));
        assert(frontier[0].seq == due[0].spec_seq());
        assert(frontier[index as int].seq == due[index as int].spec_seq());
        assert(due[0].before(due[index as int]));
    }
}

/// No event is lost or made up when one is taken: what is left was scheduled, and
/// what was scheduled is left, taken, or was cancelled.
pub proof fn taking_keeps_the_other_events<P, T, R>(
    v: SchedulerView<P, T, R>,
    k: int,
    e: EventEntry<P>,
)
    requires
        v.wf(),
        0 <= k < v.frontier().due.len(),
    ensures
        v.taken(k).events.contains(e) ==> v.events.contains(e),
        v.events.contains(e) ==> v.taken(k).events.contains(e) || e == v.frontier().due[k]
            || crate::scheduler::is_marked(e, v.cancelled),
        v.events.contains(v.frontier().due[k]),
{
    lemma_frontier(v);
    let split = v.frontier();
    let left = v.taken(k).events;
    let kept = split.due.remove(k);
    assert(split.due.contains(split.due[k]));
    if left.contains(e) {
        let i = choose|i: int| 0 <= i < left.len() && left[i] == e;
        if i < kept.len() {
            if i < k {
                assert(split.due[i] == e);
            } else {
                assert(split.due[i + 1] == e);
            }
            assert(split.due.contains(e));
        } else {
            assert(split.rest[i - kept.len()] == e);
            assert(split.rest.contains(e));
        }
    }
    if v.events.contains(e) {
        if split.due.contains(e) {
            let i = choose|i: int| 0 <= i < split.due.len() && split.due[i] == e;
            if i < k {
                assert(left[i] == e);
            } else if i > k {
                assert(left[i - 1] == e);
            }
        } else if split.rest.contains(e) {
            let i = choose|i: int| 0 <= i < split.rest.len() && split.rest[i] == e;
            assert(left[kept.len() + i] == e);
        }
    }
}

/// An event of a cancelled task is not due, if it is the only one of the task.
proof fn lemma_marked_is_skipped<P>(s: Seq<EventEntry<P>>, marks: Set<u128>, time: u64, id: u128)
    requires
        marks.contains(id),
        forall|i: int, j: int|
            0 <= i < s.len() && 0 <= j < s.len() && (#[trigger] s[i]).task_value() == Some(id) && (
            #[trigger] s[j]).task_value() == Some(id) ==> i == j,
    ensures
        forall|i: int|
            0 <= i < crate::scheduler::split_frontier(s, marks, time).due.len() ==> (
            #[trigger] crate::scheduler::split_frontier(s, marks, time).due[i]).task_value()
                != Some(id),
    decreases s.len(),
{
    if s.len() > 0 && s[0].spec_time() == time {
        let rest = s.drop_first();
        assert forall|i: int, j: int|
            0 <= i < rest.len() && 0 <= j < rest.len() && (#[trigger] rest[i]).task_value() == Some(
                id,
            ) && (#[trigger] rest[j]).task_value() == Some(id) implies i == j by {
            assert(rest[i] == s[i + 1]);
            assert(rest[j] == s[j + 1]);
        }
        if crate::scheduler::is_marked(s[0], marks) {
            if s[0].task_value() == Some(id) {
                lemma_absent_is_not_due(rest, marks.remove(id), time, id);
            } else {
                lemma_marked_is_skipped(rest, marks.remove(s[0].task_value()->0), time, id);
            }
        } else {
            lemma_marked_is_skipped(rest, marks, time, id);
            let due = crate::scheduler::split_frontier(s, marks, time).due;
            let tail = crate::scheduler::split_frontier(rest, marks, time).due;
            assert forall|i: int| 0 <= i < due.len() implies (#[trigger] due[i]).task_value()
                != Some(id) by {
                if i > 0 {
                    assert(due[i] == tail[i - 1]);
                }
            }
        }
    }
}

proof fn lemma_absent_is_not_due<P>(s: Seq<EventEntry<P>>, marks: Set<u128>, time: u64, id: u128)
    requires
        forall|i: int| 0 <= i < s.len() ==> (#[trigger] s[i]).task_value() != Some(id),
    ensures
        forall|i: int|
            0 <= i < crate::scheduler::split_frontier(s, marks, time).due.len() ==> (
            #[trigger] crate::scheduler::split_frontier(s, marks, time).due[i]).task_value()
                != Some(id),
    decreases s.len(),
{
    if s.len() > 0 && s[0].spec_time() == time {
        let rest = s.drop_first();
        assert forall|i: int| 0 <= i < rest.len() implies (#[trigger] rest[i]).task_value() != Some(
            id,
        ) by {
            assert(rest[i] == s[i + 1]);
        }
        if crate::scheduler::is_marked(s[0], marks) {
            lemma_absent_is_not_due(rest, marks.remove(s[0].task_value()->0), time, id);
        } else {
            lemma_absent_is_not_due(rest, marks, time, id);
            let due = crate::scheduler::split_frontier(s, marks, time).due;
            let tail = crate::scheduler::split_frontier(rest, marks, time).due;
            assert forall|i: int| 0 <= i < due.len() implies (#[trigger] due[i]).task_value()
                != Some(id) by {
                if i > 0 {
                    assert(due[i] == tail[i - 1]);
                }
            }
        }
    }
}

proof fn lemma_skip_keeps_the_mark<P>(s: Seq<EventEntry<P>>, marks: Set<u128>, id: u128)
    requires
        marks.contains(id),
    ensures
        crate::scheduler::skip_marked(s, marks).1.contains(id) || exists|i: int|
            0 <= i < s.len() - crate::scheduler::skip_marked(s, marks).0.len()
                && (#[trigger] s[i]).task_value() == Some(id),
    decreases s.len(),
{
    if s.len() > 0 && crate::scheduler::is_marked(s[0], marks) {
        let n = lemma_skip(s, marks);
        if s[0].task_value() == Some(id) {
            assert(s[0].task_value() == Some(id));
            let m = lemma_skip(s.drop_first(), marks.remove(id));
        } else {
            lemma_skip_keeps_the_mark(s.drop_first(), marks.remove(s[0].task_value()->0), id);
            if !crate::scheduler::skip_marked(s, marks).1.contains(id) {
                let rest = s.drop_first();
                let m = lemma_skip(rest, marks.remove(s[0].task_value()->0));
                let i = choose|i: int|
                    0 <= i < rest.len() - crate::scheduler::skip_marked(
                        rest,
                        marks.remove(s[0].task_value()->0),
                    ).0.len() && (#[trigger] rest[i]).task_value() == Some(id);
                assert(s[i + 1].task_value() == Some(id));
            }
        }
    }
}

/// The event of a cancelled task is never taken, and so never moves the clock.
pub proof fn cancelled_task_is_never_taken<P, T, R>(v: SchedulerView<P, T, R>, id: u128)
    requires
        v.wf(),
        v.cancelled.contains(id),
        forall|i: int, j: int|
            0 <= i < v.events.len() && 0 <= j < v.events.len() && (
            #[trigger] v.events[i]).task_value() == Some(id) && (
            #[trigger] v.events[j]).task_value() == Some(id) ==> i == j,
    ensures
        v.popped().0 is Some ==> v.popped().0->0.task_value() != Some(id),
        forall|k: int|
            0 <= k < v.frontier().due.len() ==> (#[trigger] v.frontier().due[k]).task_value()
                != Some(id),
{
    lemma_frontier(v);
    let n = lemma_skip(v.events, v.cancelled);
    let (events, marks) = crate::scheduler::skip_marked(v.events, v.cancelled);
    lemma_skip_keeps_the_mark(v.events, v.cancelled, id);
    if events.len() > 0 {
        assert forall|i: int| 0 <= i < events.len() implies #[trigger] events[i] == v.events[i + n] by {}
        let time = events[0].spec_time();
        if marks.contains(id) {
            lemma_marked_is_skipped(events, marks, time, id);
        } else {
            lemma_absent_is_not_due(events, marks, time, id);
        }
    }
}

/// Where every scheduled event is that of a cancelled task, nothing is taken and
/// the clock stands still.
pub proof fn only_cancelled_tasks_leave_the_clock<P, T, R>(v: SchedulerView<P, T, R>)
    requires
        v.wf(),
        forall|i: int|
            0 <= i < v.events.len() ==> crate::scheduler::is_marked(
                #[trigger] v.events[i],
                v.cancelled,
            ),
        forall|i: int, j: int|
            0 <= i < j < v.events.len() ==> (#[trigger] v.events[i]).task_value() != (
            #[trigger] v.events[j]).task_value(),
    ensures
        v.popped().0 is None,
        v.popped().1.now == v.now,
        v.popped().1.events.len() == 0,
{
    let n = lemma_skip(v.events, v.cancelled);
    if n < v.events.len() {
        let id = v.events[n].task_value()->0;
        lemma_skip_keeps_the_mark(v.events, v.cancelled, id);
    }
}

/// An event that was scheduled is in the queue, and so are those that were there
/// before.
pub proof fn scheduling_adds_one_event<P, T, R>(
    v: SchedulerView<P, T, R>,
    delay: u64,
    component: Uuid,
    event: P,
    e: EventEntry<P>,
)
    requires
        v.wf(),
        v.next_event_id < u64::MAX,
    ensures
        v.scheduled(delay, component, event).events.contains(e) <==> v.events.contains(e) || e
            == v.component_event(delay, component, event),
        v.scheduled(delay, component, event).events.len() == v.events.len() + 1,
        v.scheduled(delay, component, event).wf(),
{
    let made = v.component_event(delay, component, event);
    lemma_place(v, made);
    let p = choose|p: int| crate::event::is_place(v.events, made, p);
    let s = v.events;
    let t = v.scheduled(delay, component, event).events;
    assert(t == s.insert(p, made));
    if t.contains(e) {
        let i = choose|i: int| 0 <= i < t.len() && t[i] == e;
        if i < p {
            assert(s[i] == e);
        } else if i > p {
            assert(s[i - 1] == e);
        }
    }
    if s.contains(e) {
        let i = choose|i: int| 0 <= i < s.len() && s[i] == e;
        if i < p {
            assert(t[i] == e);
        } else {
            assert(t[i + 1] == e);
        }
    }
    assert(t[p] == made);
}

/// The next event has a place in the queue, and the scheduler is in order with it.
proof fn lemma_place<P, T, R>(v: SchedulerView<P, T, R>, e: EventEntry<P>)
    requires
        v.wf(),
        v.next_event_id < u64::MAX,
        e.spec_seq() == v.next_event_id + 1,
        v.now <= e.spec_time(),
    ensures
        exists|p: int| crate::event::is_place(v.events, e, p),
        v.with_event(e).wf(),
{
    let s = v.events;
    let p = lemma_find_place(s, e);
    crate::event::place_is_unique(s, e, p);
    let t = s.insert(p, e);
    assert forall|i: int, j: int| 0 <= i < j < t.len() implies (#[trigger] t[i]).before(
        #[trigger] t[j],
    ) && t[i].spec_seq() != t[j].spec_seq() by {
        if i < p {
            assert(t[i] == s[i]);
        } else if i > p {
            assert(t[i] == s[i - 1]);
        }
        if j < p {
            assert(t[j] == s[j]);
        } else if j > p {
            assert(t[j] == s[j - 1]);
        }
    }
    assert forall|i: int| 0 <= i < t.len() implies 1 <= (#[trigger] t[i]).spec_seq()
        <= v.next_event_id + 1 && v.now <= t[i].spec_time() by {
        if i < p {
            assert(t[i] == s[i]);
        } else if i > p {
            assert(t[i] == s[i - 1]);
        }
    }
}

proof fn lemma_find_place<P>(s: Seq<EventEntry<P>>, e: EventEntry<P>) -> (p: int)
    requires
        crate::event::in_order(s),
        forall|i: int| 0 <= i < s.len() ==> (#[trigger] s[i]).spec_seq() != e.spec_seq(),
    ensures
        crate::event::is_place(s, e, p),
    decreases s.len(),
{
    if s.len() == 0 {
        0
    } else if s.last().before(e) {
        assert forall|i: int| 0 <= i < s.len() implies (#[trigger] s[i]).before(e) by {
            if i < s.len() - 1 {
                assert(s[i].before(s[s.len() - 1]));
            }
        }
        s.len() as int
    } else {
        let front = s.drop_last();
        assert forall|i: int, j: int| 0 <= i < j < front.len() implies (#[trigger] front[i]).before(
            #[trigger] front[j],
        ) by {
            assert(front[i] == s[i]);
            assert(front[j] == s[j]);
        }
        let p = lemma_find_place(front, e);
        assert forall|i: int| 0 <= i < p implies (#[trigger] s[i]).before(e) by {
            assert(front[i] == s[i]);
        }
        assert forall|i: int| p <= i < s.len() implies e.before(#[trigger] s[i]) by {
            if i < s.len() - 1 {
                assert(front[i] == s[i]);
            }
        }
        p
    }
}

/// Of two events that are scheduled for the same time, the one that was scheduled
/// first is due first.
pub proof fn same_time_events_keep_their_order<P, T, R>(
    v: SchedulerView<P, T, R>,
    delay: u64,
    c1: Uuid,
    e1: P,
    c2: Uuid,
    e2: P,
)
    requires
        v.wf(),
        v.next_event_id < u64::MAX - 1,
    ensures
        v.component_event(delay, c1, e1).before(
            v.scheduled(delay, c1, e1).component_event(delay, c2, e2),
        ),
{
}

/// Successive tasks of one scheduler get distinct identifiers, and schedulers with
/// the same seed give out the same ones.
pub proof fn task_identifiers<P, T, R>(v: SchedulerView<P, T, R>, w: SchedulerView<P, T, R>)
    requires
        v.id_seed == w.id_seed,
        v.next_task_id < u64::MAX,
        w.next_task_id < u64::MAX,
    ensures
        v.next_task_id == w.next_task_id <==> v.next_task_value() == w.next_task_value(),
{
    if v.next_task_id != w.next_task_id {
        crate::ids::derived_ids_are_distinct(
            v.id_seed,
            crate::ids::UUID_DOMAIN_TASK,
            (v.next_task_id + 1) as u64,
            (w.next_task_id + 1) as u64,
        );
    }
}

/// A task that was scheduled waits under its identifier, and its event is in the
/// queue.
pub proof fn scheduled_task_waits<P, T, R>(
    v: SchedulerView<P, T, R>,
    time: u64,
    id: TaskId,
    task: T,
)
    requires
        v.wf(),
        v.next_event_id < u64::MAX,
        v.now <= time,
    ensures
        v.with_task(time, id, task).wf(),
        v.with_task(time, id, task).pending.contains_key(id.value()),
        v.with_task(time, id, task).pending[id.value()] == task,
        exists|i: int|
            {
                &&& 0 <= i < v.with_task(time, id, task).events.len()
                &&& (#[trigger] v.with_task(time, id, task).events[i]).task_value() == Some(
                    id.value(),
                )
                &&& v.with_task(time, id, task).events[i].spec_time() == time
            },
{
    let event = EventEntry::<P>::Task(
        crate::event::TaskEventEntry {
            event_id: crate::types::EventId((v.next_event_id + 1) as u64),
            time: crate::time::SimTime(time),
            task_id: id,
        },
    );
    let held = SchedulerView { pending: v.pending.insert(id.value(), task), ..v };
    lemma_place(held, event);
    let p = choose|p: int| crate::event::is_place(v.events, event, p);
    let t = v.with_task(time, id, task).events;
    assert(t == v.events.insert(p, event));
    assert(t[p] == event);
}

/// A task that was cancelled is not run, even if its event is processed, and a
/// second attempt to cancel it finds nothing.
pub proof fn cancelled_task_is_not_run<P, T, R>(v: SchedulerView<P, T, R>, id: u128)
    ensures
        !v.with_task_cancelled(id).pending.contains_key(id),
        v.with_task_cancelled(id).cancelled.contains(id),
        v.with_task_cancelled(id).now == v.now,
        v.with_task_cancelled(id).events == v.events,
{
}

/// The result of a task can be fetched once it has run, unless it put itself under
/// its identifier again.
pub proof fn finished_task_has_its_result<P, T, R>(
    after: SchedulerView<P, T, R>,
    id: TaskId,
    previous: Option<TaskId>,
    output: R,
)
    ensures
        !after.pending.contains_key(id.value()) ==> after.finished(
            id,
            previous,
            Some(output),
        ).results.contains_key(id.value()) && after.finished(
            id,
            previous,
            Some(output),
        ).results[id.value()] == output,
        after.pending.contains_key(id.value()) ==> after.finished(
            id,
            previous,
            Some(output),
        ).results == after.results,
        after.finished(id, previous, None).results == after.results,
{
}

/// As long as there are numbers for them, all deferred events are scheduled, and
/// nothing else changes but the event count.
pub proof fn draining_schedules_every_deferred_event<P, T, R>(v: SchedulerView<P, T, R>)
    requires
        v.wf(),
        v.next_event_id + v.deferred.len() <= u64::MAX,
    ensures
        v.drained().deferred.len() == 0,
        v.drained().events.len() == v.events.len() + v.deferred.len(),
        v.drained().next_event_id == v.next_event_id + v.deferred.len(),
        v.drained().now == v.now,
        v.drained().pending == v.pending,
        v.drained().results == v.results,
        v.drained().cancelled == v.cancelled,
        v.drained().wf(),
    decreases v.deferred.len(),
{
    if v.deferred.len() > 0 {
        let wake = v.deferred[0];
        let made = v.component_event(wake.delay.0, wake.component.id, wake.event);
        scheduling_adds_one_event(v, wake.delay.0, wake.component.id, wake.event, made);
        let next = SchedulerView {
            deferred: v.deferred.drop_first(),
            ..v.scheduled(wake.delay.0, wake.component.id, wake.event)
        };
        draining_schedules_every_deferred_event(next);
    }
}

/// Scheduling deferred events keeps the queue in order, also where the numbers run out.
pub proof fn draining_keeps_the_order<P, T, R>(v: SchedulerView<P, T, R>)
    requires
        v.wf(),
    ensures
        v.drained().wf(),
    decreases v.deferred.len(),
{
    if v.deferred.len() > 0 && v.next_event_id < u64::MAX {
        let wake = v.deferred[0];
        let made = v.component_event(wake.delay.0, wake.component.id, wake.event);
        scheduling_adds_one_event(v, wake.delay.0, wake.component.id, wake.event, made);
        draining_keeps_the_order(
            SchedulerView {
                deferred: v.deferred.drop_first(),
                ..v.scheduled(wake.delay.0, wake.component.id, wake.event)
            },
        );
    }
}

/// The events that are due at the same time are told apart by their numbers.
pub proof fn due_events_have_distinct_numbers<P, T, R>(v: SchedulerView<P, T, R>, i: int, j: int)
    requires
        v.wf(),
        0 <= i < j < v.frontier().due.len(),
    ensures
        v.frontier().due[i].described().seq != v.frontier().due[j].described().seq,
{
    lemma_frontier(v);
    let due = v.frontier().due;
    assert(due[i].before(due[j]));
    assert(due[i].spec_time() == due[0].spec_time());
    assert(due[j].spec_time() == due[0].spec_time());
}

/// Scheduling deferred events leaves the clock as it is.
pub proof fn draining_leaves_the_clock<P, T, R>(v: SchedulerView<P, T, R>)
    ensures
        v.drained().now == v.now,
    decreases v.deferred.len(),
{
    if v.deferred.len() > 0 && v.next_event_id < u64::MAX {
        let wake = v.deferred[0];
        draining_leaves_the_clock(
            SchedulerView {
                deferred: v.deferred.drop_first(),
                ..v.scheduled(wake.delay.0, wake.component.id, wake.event)
            },
        );
    }
}

/// The events that are due next are due at the same time, which is not in the past.
pub proof fn frontier_is_due_at_one_time<P, T, R>(v: SchedulerView<P, T, R>, k: int)
    requires
        v.wf(),
        0 <= k < v.frontier().due.len(),
    ensures
        v.frontier().due[k].spec_time() == v.frontier().due[0].spec_time(),
        v.now <= v.frontier().due[0].spec_time(),
{
    lemma_frontier(v);
}

/// An event that is not cancelled is due no earlier than those that are due next.
pub proof fn live_events_are_due_with_the_frontier<P, T, R>(v: SchedulerView<P, T, R>, i: int)
    requires
        v.wf(),
        0 <= i < v.events.len(),
        !crate::scheduler::is_marked(v.events[i], v.cancelled),
    ensures
        v.frontier().due.len() > 0,
        v.frontier().due[0].spec_time() <= v.events[i].spec_time(),
{
    lemma_frontier(v);
    let split = v.frontier();
    let e = v.events[i];
    assert(v.events.contains(e));
    if split.due.contains(e) {
        let k = choose|k: int| 0 <= k < split.due.len() && split.due[k] == e;
        assert(split.due[k].spec_time() == split.due[0].spec_time());
    } else {
        let k = choose|k: int| 0 <= k < split.rest.len() && split.rest[k] == e;
        if split.due.len() == 0 {
            crate::simulation::nothing_due_empties_the_queue(v);
        } else {
            assert(split.due[0].spec_time() < split.rest[k].spec_time());
        }
    }
}

} // verus!
