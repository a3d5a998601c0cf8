//! What each operation of a scheduler changes, and what it leaves as it was.

use crate::event::EventEntry;
use crate::frontier_policy::EventFrontierPolicy;
use crate::scheduler::SchedulerView;
use crate::task_id::TaskId;
use uuid::Uuid;
use vstd::prelude::*;

verus! {

/// The time after a delay: the sum, as far as a time can tell it.
pub open spec fn after_delay(now: u64, delay: u64) -> u64 {
    if now + delay <= u64::MAX {
        (now + delay) as u64
    } else {
        u64::MAX
    }
}

/// Whether two schedulers hold the same tasks, results and marks, and run the same task.
pub open spec fn same_tasks<P, T, R>(v: SchedulerView<P, T, R>, w: SchedulerView<P, T, R>) -> bool {
    &&& v.pending == w.pending
    &&& v.results == w.results
    &&& v.cancelled == w.cancelled
    &&& v.executing == w.executing
    &&& v.next_task_id == w.next_task_id
    &&& v.id_seed == w.id_seed
}

/// An event that is scheduled comes after its delay, to the component that it is meant for,
/// with what it is to carry, under the next number. It is no event of a task. Nothing but the
/// queue and the number of events changes.
pub proof fn scheduled_event_comes_after_its_delay<P, T, R>(
    v: SchedulerView<P, T, R>,
    delay: u64,
    component: Uuid,
    event: P,
)
    requires
        v.wf(),
        v.next_event_id < u64::MAX,
    ensures
        ({
            let made = v.component_event(delay, component, event);
            let w = v.scheduled(delay, component, event);
            &&& w.events.contains(made)
            &&& made.spec_time() == after_delay(v.now, delay)
            &&& made.spec_seq() == v.next_event_id + 1
            &&& made.task_value() is None
            &&& made is Component
            &&& made->Component_0.component == component
            &&& made->Component_0.inner == event
            &&& w.next_event_id == v.next_event_id + 1
            &&& w.now == v.now
            &&& w.deferred == v.deferred
            &&& w.in_event == v.in_event
            &&& same_tasks(v, w)
            &&& v.offered(delay, component, event) == w
        }),
{
    let made = v.component_event(delay, component, event);
    crate::scheduler_laws::scheduling_adds_one_event(v, delay, component, event, made);
}

/// Without a number for it an event is not scheduled, and nothing changes.
pub proof fn nothing_is_scheduled_without_a_number<P, T, R>(
    v: SchedulerView<P, T, R>,
    delay: u64,
    component: Uuid,
    event: P,
)
    requires
        v.next_event_id == u64::MAX,
    ensures
        v.offered(delay, component, event) == v,
        v.drained() == v,
{
}

/// A task that is scheduled is one more waiting task with one more event, which starts this
/// task at its time. The other tasks and events stay as they were.
pub proof fn scheduling_a_task_leaves_the_others<P, T, R>(
    v: SchedulerView<P, T, R>,
    time: u64,
    id: TaskId,
    task: T,
    other: u128,
    e: EventEntry<P>,
)
    requires
        v.wf(),
        v.next_event_id < u64::MAX,
        v.now <= time,
    ensures
        ({
            let w = v.with_task(time, id, task);
            &&& other != id.value() ==> (w.pending.contains_key(other) <==> v.pending.contains_key(
                other,
            ))
            &&& other != id.value() && v.pending.contains_key(other) ==> w.pending[other]
                == v.pending[other]
            &&& w.events.len() == v.events.len() + 1
            &&& v.events.contains(e) ==> w.events.contains(e)
            &&& w.events.contains(e) && !v.events.contains(e) ==> {
                &&& e is Task
                &&& e.task_value() == Some(id.value())
                &&& e.spec_time() == time
                &&& e.spec_seq() == v.next_event_id + 1
            }
            &&& w.next_event_id == v.next_event_id + 1
            &&& w.results == v.results
            &&& w.cancelled == v.cancelled
            &&& w.executing == v.executing
            &&& w.next_task_id == v.next_task_id
            &&& w.id_seed == v.id_seed
            &&& w.now == v.now
            &&& w.deferred == v.deferred
            &&& w.in_event == v.in_event
        }),
{
    let w = v.with_task(time, id, task);
    crate::scheduler_laws::scheduled_task_waits(v, time, id, task);
    let s = v.events;
    let t = w.events;
    let made = EventEntry::<P>::Task(
        crate::event::TaskEventEntry {
            event_id: crate::types::EventId((v.next_event_id + 1) as u64),
            time: crate::time::SimTime(time),
            task_id: id,
        },
    );
    let p = lemma_place_of_the_next_event(s, v.now, v.next_event_id, made);
    crate::event::place_is_unique(s, made, p);
    assert(t == s.insert(p, made));
    if t.contains(e) {
        let i = choose|i: int| 0 <= i < t.len() && t[i] == e;
        if i < p {
            assert(s[i] == e);
        } else if i > p {
            assert(s[i - 1] == e);
        }
    }
    if s.contains(e) {
        let i = choose|i: int| 0 <= i < s.len() && s[i] == e;
        if i < p {
            assert(t[i] == e);
        } else {
            assert(t[i + 1] == e);
        }
    }
}

proof fn lemma_place_of_the_next_event<P>(
    s: Seq<EventEntry<P>>,
    now: u64,
    last: u64,
    e: EventEntry<P>,
) -> (p: int)
    requires
        crate::scheduler::events_ok(s, now, last),
        e.spec_seq() == last + 1,
    ensures
        crate::event::is_place(s, e, p),
    decreases s.len(),
{
    if s.len() == 0 {
        0
    } else if s.last().before(e) {
        assert forall|i: int| 0 <= i < s.len() implies (#[trigger] s[i]).before(e) by {
            if i < s.len() - 1 {
                assert(s[i].before(s[s.len() - 1]));
            }
        }
        s.len() as int
    } else {
        let front = s.drop_last();
        assert forall|i: int| 0 <= i < front.len() implies #[trigger] front[i] == s[i] by {}
        assert(crate::event::in_order(front));
        assert(crate::scheduler::events_ok(front, now, last));
        let p = lemma_place_of_the_next_event(front, now, last, e);
        let n = s.len() - 1;
        assert(s[n].spec_seq() <= last);
        assert(e.before(s[n]));
        assert forall|i: int| 0 <= i < p implies (#[trigger] s[i]).before(e) by {
            assert(front[i].before(e));
        }
        assert forall|i: int| p <= i < s.len() implies e.before(#[trigger] s[i]) by {
            if i < n {
                assert(e.before(front[i]));
            }
        }
        p
    }
}

/// Giving out a task identifier changes nothing else.
pub proof fn giving_out_an_identifier<P, T, R>(v: SchedulerView<P, T, R>)
    requires
        v.next_task_id < u64::MAX,
    ensures
        v.with_next_task().next_task_id == v.next_task_id + 1,
        v.with_next_task().events == v.events,
        v.with_next_task().pending == v.pending,
        v.with_next_task().results == v.results,
        v.with_next_task().cancelled == v.cancelled,
        v.with_next_task().executing == v.executing,
        v.with_next_task().deferred == v.deferred,
        v.with_next_task().now == v.now,
        v.with_next_task().in_event == v.in_event,
        v.with_next_task().next_event_id == v.next_event_id,
        v.with_next_task().id_seed == v.id_seed,
{
}

/// Cancelling a task leaves the other tasks, their marks, and all results as they were.
pub proof fn cancelling_a_task_leaves_the_others<P, T, R>(
    v: SchedulerView<P, T, R>,
    id: u128,
    other: u128,
)
    requires
        other != id,
    ensures
        ({
            let w = v.with_task_cancelled(id);
            &&& w.pending.contains_key(other) <==> v.pending.contains_key(other)
            &&& v.pending.contains_key(other) ==> w.pending[other] == v.pending[other]
            &&& w.cancelled.contains(other) <==> v.cancelled.contains(other)
            &&& w.results == v.results
            &&& w.executing == v.executing
            &&& w.deferred == v.deferred
            &&& w.events == v.events
            &&& w.now == v.now
            &&& w.in_event == v.in_event
            &&& w.next_event_id == v.next_event_id
            &&& w.next_task_id == v.next_task_id
            &&& w.id_seed == v.id_seed
        }),
{
}

/// An event that is deferred comes behind those that were deferred before, and nothing is
/// scheduled yet.
pub proof fn deferred_events_keep_their_order<P, T, R>(
    v: SchedulerView<P, T, R>,
    wake: crate::scheduler::DeferredWake<P>,
)
    ensures
        v.with_deferred(wake).deferred.len() == v.deferred.len() + 1,
        v.with_deferred(wake).deferred.last() == wake,
        forall|i: int|
            0 <= i < v.deferred.len() ==> v.with_deferred(wake).deferred[i]
                == #[trigger] v.deferred[i],
        v.with_deferred(wake).events == v.events,
        v.with_deferred(wake).next_event_id == v.next_event_id,
        v.with_deferred(wake).now == v.now,
        v.with_deferred(wake).in_event == v.in_event,
        same_tasks(v, v.with_deferred(wake)),
{
}

/// Taking an event without a policy loses no other one: what was scheduled is left, taken, or
/// was cancelled, and what is left was scheduled.
pub proof fn popping_keeps_the_other_events<P, T, R>(v: SchedulerView<P, T, R>, e: EventEntry<P>)
    ensures
        v.popped().1.events.contains(e) ==> v.events.contains(e),
        v.events.contains(e) ==> v.popped().1.events.contains(e) || v.popped().0 == Some(e)
            || crate::scheduler::is_marked(e, v.cancelled),
        v.popped().0 is Some ==> v.events.contains(v.popped().0->0),
        v.popped().0 is None ==> v.popped().1.now == v.now,
{
    lemma_skipped_is_marked(v.events, v.cancelled, e);
    let (events, marks) = crate::scheduler::skip_marked(v.events, v.cancelled);
    if events.len() > 0 {
        lemma_skipped_is_marked(v.events, v.cancelled, events[0]);
        assert(events.contains(events[0]));
        let left = events.drop_first();
        if left.contains(e) {
            let i = choose|i: int| 0 <= i < left.len() && left[i] == e;
            assert(events[i + 1] == e);
        }
        if events.contains(e) {
            let i = choose|i: int| 0 <= i < events.len() && events[i] == e;
            if i > 0 {
                assert(left[i - 1] == e);
            }
        }
    }
}

proof fn lemma_skipped_is_marked<P>(s: Seq<EventEntry<P>>, marks: Set<u128>, e: EventEntry<P>)
    ensures
        crate::scheduler::skip_marked(s, marks).0.contains(e) ==> s.contains(e),
        s.contains(e) ==> crate::scheduler::skip_marked(s, marks).0.contains(e)
            || crate::scheduler::is_marked(e, marks),
        forall|id: u128|
            #[trigger] crate::scheduler::skip_marked(s, marks).1.contains(id) ==> marks.contains(id),
    decreases s.len(),
{
    if s.len() > 0 && crate::scheduler::is_marked(s[0], marks) {
        let rest = s.drop_first();
        lemma_skipped_is_marked(rest, marks.remove(s[0].task_value()->0), e);
        if rest.contains(e) {
            let i = choose|i: int| 0 <= i < rest.len() && rest[i] == e;
            assert(s[i + 1] == e);
        }
        if s.contains(e) {
            let i = choose|i: int| 0 <= i < s.len() && s[i] == e;
            if i > 0 {
                assert(rest[i - 1] == e);
            }
        }
    }
}

proof fn lemma_marks_leave_with_an_event<P>(s: Seq<EventEntry<P>>, marks: Set<u128>, id: u128)
    requires
        marks.contains(id),
        forall|i: int| 0 <= i < s.len() ==> (#[trigger] s[i]).task_value() != Some(id),
    ensures
        crate::scheduler::skip_marked(s, marks).1.contains(id),
        forall|i: int|
            0 <= i < crate::scheduler::skip_marked(s, marks).0.len() ==> (
            #[trigger] crate::scheduler::skip_marked(s, marks).0[i]).task_value() != Some(id),
    decreases s.len(),
{
    if s.len() > 0 && crate::scheduler::is_marked(s[0], marks) {
        let rest = s.drop_first();
        assert forall|i: int| 0 <= i < rest.len() implies (#[trigger] rest[i]).task_value() != Some(
            id,
        ) by {
            assert(rest[i] == s[i + 1]);
        }
        assert(s[0].task_value() != Some(id));
        lemma_marks_leave_with_an_event(rest, marks.remove(s[0].task_value()->0), id);
    }
}

proof fn lemma_split_keeps_marks<P>(s: Seq<EventEntry<P>>, marks: Set<u128>, time: u64, id: u128)
    ensures
        crate::scheduler::split_frontier(s, marks, time).marks.contains(id) ==> marks.contains(id),
        marks.contains(id) && (forall|i: int|
            0 <= i < s.len() ==> (#[trigger] s[i]).task_value() != Some(id))
            ==> crate::scheduler::split_frontier(s, marks, time).marks.contains(id),
    decreases s.len(),
{
    if s.len() > 0 && s[0].spec_time() == time {
        let rest = s.drop_first();
        assert forall|i: int| 0 <= i < rest.len() implies #[trigger] rest[i] == s[i + 1] by {}
        if crate::scheduler::is_marked(s[0], marks) {
            lemma_split_keeps_marks(rest, marks.remove(s[0].task_value()->0), time, id);
        } else {
            lemma_split_keeps_marks(rest, marks, time, id);
        }
    }
}

/// Taking an event marks no task, and takes a mark away only together with an event of its
/// task. The tasks, their results and the deferred events stay as they were.
pub proof fn taking_leaves_marks_without_events<P, T, R>(
    v: SchedulerView<P, T, R>,
    k: int,
    id: u128,
)
    ensures
        ({
            let p = v.popped().1;
            let w = v.taken(k);
            let absent = forall|i: int|
                0 <= i < v.events.len() ==> (#[trigger] v.events[i]).task_value() != Some(id);
            &&& p.cancelled.contains(id) ==> v.cancelled.contains(id)
            &&& w.cancelled.contains(id) ==> v.cancelled.contains(id)
            &&& v.cancelled.contains(id) && absent ==> p.cancelled.contains(id)
                && w.cancelled.contains(id)
            &&& p.pending == v.pending && w.pending == v.pending
            &&& p.results == v.results && w.results == v.results
            &&& p.executing == v.executing && w.executing == v.executing
            &&& p.deferred == v.deferred && w.deferred == v.deferred
            &&& p.in_event == v.in_event && w.in_event == v.in_event
            &&& p.next_event_id == v.next_event_id && w.next_event_id == v.next_event_id
            &&& p.next_task_id == v.next_task_id && w.next_task_id == v.next_task_id
            &&& p.id_seed == v.id_seed && w.id_seed == v.id_seed
        }),
{
    let (events, marks) = crate::scheduler::skip_marked(v.events, v.cancelled);
    if v.events.len() > 0 {
        lemma_skipped_is_marked(v.events, v.cancelled, v.events[0]);
    }
    let absent = forall|i: int|
        0 <= i < v.events.len() ==> (#[trigger] v.events[i]).task_value() != Some(id);
    if v.cancelled.contains(id) && absent {
        lemma_marks_leave_with_an_event(v.events, v.cancelled, id);
    }
    if events.len() > 0 {
        lemma_split_keeps_marks(events, marks, events[0].spec_time(), id);
    }
}

/// A policy is told of every event that is due, each as it is.
pub proof fn policy_is_told_of_every_due_event<P>(due: Seq<EventEntry<P>>, i: int)
    requires
        0 <= i < due.len(),
    ensures
        crate::scheduler::descriptions(due).len() == due.len(),
        crate::scheduler::descriptions(due)[i].seq == due[i].spec_seq(),
        due[i] matches EventEntry::Component(entry) ==> {
            &&& crate::scheduler::descriptions(due)[i].component_id == Some(entry.component)
            &&& crate::scheduler::descriptions(due)[i].task_id is None
            &&& crate::scheduler::descriptions(due)[i].kind
                == crate::event::FrontierEventKind::Component
        },
        due[i] matches EventEntry::Task(entry) ==> {
            &&& crate::scheduler::descriptions(due)[i].task_id == Some(entry.task_id)
            &&& crate::scheduler::descriptions(due)[i].component_id is None
            &&& crate::scheduler::descriptions(due)[i].kind
                == crate::event::FrontierEventKind::Task
        },
{
}

/// A policy is asked exactly where there is a choice. Where there is none, it stays as it is.
pub proof fn policy_is_asked_where_there_is_a_choice<P, Q: EventFrontierPolicy>(
    before: Q,
    due: Seq<EventEntry<P>>,
    after: Q,
    index: usize,
)
    requires
        crate::scheduler::consulted(before, due, after, index),
    ensures
        due.len() >= 2 ==> Q::selects(
            before,
            crate::time::SimTime(due[0].spec_time()),
            crate::scheduler::descriptions(due),
            after,
            index,
        ),
        due.len() < 2 ==> after == before && index == 0,
{
}

/// A selected index within the events that are due stands for itself, and any other for the
/// last of them.
pub proof fn selected_index_is_one_of_the_due(index: usize, len: nat)
    requires
        len > 0,
    ensures
        0 <= crate::scheduler::clamped(index, len) < len,
        index < len ==> crate::scheduler::clamped(index, len) == index,
        index >= len ==> crate::scheduler::clamped(index, len) + 1 == len,
{
}

/// Starting a task takes it out of the waiting ones, and no other. Afterwards the task that
/// ran before runs again, and only the result of this one can be new.
pub proof fn running_a_task_leaves_the_others<P, T, R>(
    v: SchedulerView<P, T, R>,
    id: TaskId,
    left: SchedulerView<P, T, R>,
    previous: Option<TaskId>,
    output: Option<R>,
    other: u128,
)
    requires
        other != id.value(),
    ensures
        ({
            let s = v.started(id);
            let w = left.finished(id, previous, output);
            &&& !s.pending.contains_key(id.value())
            &&& s.executing == Some(id)
            &&& s.pending.contains_key(other) <==> v.pending.contains_key(other)
            &&& v.pending.contains_key(other) ==> s.pending[other] == v.pending[other]
            &&& s.results == v.results && s.cancelled == v.cancelled && s.events == v.events
            &&& s.now == v.now && s.deferred == v.deferred && s.in_event == v.in_event
            &&& s.next_event_id == v.next_event_id && s.next_task_id == v.next_task_id
            &&& s.id_seed == v.id_seed
            &&& w.executing == previous
            &&& w.results.contains_key(other) <==> left.results.contains_key(other)
            &&& left.results.contains_key(other) ==> w.results[other] == left.results[other]
            &&& w.pending == left.pending && w.cancelled == left.cancelled && w.events
                == left.events
            &&& w.now == left.now && w.deferred == left.deferred && w.in_event == left.in_event
            &&& w.next_event_id == left.next_event_id && w.next_task_id == left.next_task_id
            &&& w.id_seed == left.id_seed
        }),
{
}

/// A task runs only if it waits and was not cancelled. One that does not run changes nothing
/// but that it can be put under its identifier again.
pub proof fn cancelled_or_unknown_tasks_do_not_run<P, T: crate::task::Task<P, R>, R>(
    id: TaskId,
    before: SchedulerView<P, T, R>,
    after: SchedulerView<P, T, R>,
    other: u128,
)
    requires
        crate::scheduler::task_executed(id, before, after),
        before.cancelled.contains(id.value()) || !before.pending.contains_key(id.value()),
        other != id.value(),
    ensures
        !after.cancelled.contains(id.value()),
        after.cancelled.contains(other) <==> before.cancelled.contains(other),
        after.pending == before.pending,
        after.results == before.results,
        after.executing == before.executing,
        after.events == before.events,
        after.deferred == before.deferred,
        after.now == before.now,
        after.next_event_id == before.next_event_id,
        after.next_task_id == before.next_task_id,
{
}

/// A task that waits is run with the scheduler that it is taken out of, and what it puts out
/// is kept, unless it put itself under its identifier again.
pub proof fn waiting_tasks_run<P, T: crate::task::Task<P, R>, R>(
    id: TaskId,
    before: SchedulerView<P, T, R>,
    after: SchedulerView<P, T, R>,
)
    requires
        crate::scheduler::task_executed(id, before, after),
        !before.cancelled.contains(id.value()),
        before.pending.contains_key(id.value()),
    ensures
        after.executing == before.executing,
        exists|left: SchedulerView<P, T, R>, output: Option<R>|
            {
                &&& #[trigger] before.pending[id.value()].runs(before.started(id), left, output)
                &&& after.pending == left.pending
                &&& after.events == left.events
                &&& output is Some && !left.pending.contains_key(id.value())
                    ==> after.results.contains_key(id.value()) && after.results[id.value()]
                    == output->0
                &&& output is None || left.pending.contains_key(id.value()) ==> after.results
                    == left.results
            },
{
    let (left, output) = choose|left: SchedulerView<P, T, R>, output: Option<R>|
        {
            &&& #[trigger] before.pending[id.value()].runs(before.started(id), left, output)
            &&& left.wf()
            &&& after == left.finished(id, before.executing, output)
        };
    assert(before.pending[id.value()].runs(before.started(id), left, output));
}

/// Every deferred event is scheduled as if it were scheduled now, and their numbers follow the
/// order in which they were deferred. The events that were there stay.
pub proof fn deferred_events_are_scheduled_in_order<P, T, R>(
    v: SchedulerView<P, T, R>,
    i: int,
    e: EventEntry<P>,
)
    requires
        v.wf(),
        v.next_event_id + v.deferred.len() <= u64::MAX,
        0 <= i < v.deferred.len(),
    ensures
        v.events.contains(e) ==> v.drained().events.contains(e),
        exists|k: int|
            {
                &&& 0 <= k < v.drained().events.len()
                &&& #[trigger] v.drained().events[k] matches EventEntry::Component(entry)
                &&& entry.event_id.0 == v.next_event_id + 1 + i
                &&& entry.time.0 == after_delay(v.now, v.deferred[i].delay.0)
                &&& entry.component == v.deferred[i].component.id
                &&& entry.inner == v.deferred[i].event
            },
        v.drained().executing == v.executing,
        v.drained().in_event == v.in_event,
        v.drained().next_task_id == v.next_task_id,
        v.drained().id_seed == v.id_seed,
    decreases v.deferred.len(),
{
    let wake = v.deferred[0];
    let made = v.component_event(wake.delay.0, wake.component.id, wake.event);
    let next = SchedulerView {
        deferred: v.deferred.drop_first(),
        ..v.scheduled(wake.delay.0, wake.component.id, wake.event)
    };
    crate::scheduler_laws::scheduling_adds_one_event(
        v,
        wake.delay.0,
        wake.component.id,
        wake.event,
        made,
    );
    crate::scheduler_laws::scheduling_adds_one_event(
        v,
        wake.delay.0,
        wake.component.id,
        wake.event,
        e,
    );
    assert(v.drained() == next.drained());
    if next.deferred.len() == 0 {
        let k = choose|k: int| 0 <= k < next.events.len() && next.events[k] == made;
        assert(v.drained().events[k] == made);
    } else if i == 0 {
        deferred_events_are_scheduled_in_order(next, 0, e);
        deferred_events_are_scheduled_in_order(next, 0, made);
        let all = v.drained().events;
        let k = choose|k: int| 0 <= k < all.len() && all[k] == made;
        assert(all[k] == made);
    } else {
        deferred_events_are_scheduled_in_order(next, i - 1, e);
        assert(next.deferred[i - 1] == v.deferred[i]);
    }
}

} // verus!
