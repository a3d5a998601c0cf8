//! What the smaller parts of the library promise: texts, times, identifiers, metrics,
//! processes, and the tasks that repeat themselves.

use crate::environment::{EnvironmentView, EventPayload, EventSchedulerView, ScheduledEvent};
use crate::event::FrontierEvent;
use crate::frontier_policy::{
    EventFrontierPolicy, FifoFrontierPolicy, UniformRandomFrontierPolicy,
};
use crate::measurement::{MetricNumber, MetricType, MetricView};
use crate::process::{ProcessId, ProcessesView};
use crate::ready_policy::{FifoReadyTaskPolicy, ReadyTaskPolicy, UniformRandomReadyTaskPolicy};
use crate::task::{PeriodicTask, RetryTask};
use crate::time::SimTime;
use crate::types::EventId;
use vstd::prelude::*;

verus! {

/// The number that a text of decimal digits stands for.
pub open spec fn number_of(text: Seq<char>) -> nat
    decreases text.len(),
{
    if text.len() == 0 {
        0
    } else {
        number_of(text.drop_last()) * 10 + (text.last() as nat - '0' as nat) as nat
    }
}

/// A number is written with the digits that stand for it, without zeros in front.
pub proof fn decimals_are_read_back(n: nat)
    ensures
        number_of(crate::text::decimal(n)) == n,
        crate::text::decimal(n).len() > 0,
        forall|i: int|
            0 <= i < crate::text::decimal(n).len() ==> '0' as nat <= (
            #[trigger] crate::text::decimal(n)[i]) as nat <= '9' as nat,
        n > 0 ==> crate::text::decimal(n)[0] != '0',
    decreases n,
{
    let text = crate::text::decimal(n);
    reveal_with_fuel(number_of, 2);
    if n >= 10 {
        decimals_are_read_back(n / 10);
        assert(text.drop_last() =~= crate::text::decimal(n / 10));
        assert(text[0] == crate::text::decimal(n / 10)[0]);
    } else {
        assert(text.drop_last() =~= Seq::<char>::empty());
    }
}

/// Three digits tell a number below a thousand.
pub proof fn three_digits_are_read_back(n: nat)
    requires
        n < 1000,
    ensures
        number_of(crate::text::three_digits(n)) == n,
        crate::text::three_digits(n).len() == 3,
{
    reveal_with_fuel(number_of, 4);
    let text = crate::text::three_digits(n);
    assert(text.drop_last() =~= seq![text[0], text[1]]);
    assert(text.drop_last().drop_last() =~= seq![text[0]]);
    assert(text.drop_last().drop_last().drop_last() =~= Seq::<char>::empty());
}

/// A time is written in the largest unit of which it has at least one, with three digits
/// behind the point. The two numbers tell the time, as far as three digits can.
pub proof fn time_text_tells_the_time(nanos: nat)
    ensures
        nanos < 1000 ==> crate::time::time_text(nanos) == crate::text::decimal(nanos) + "ns"@,
        1000 <= nanos < 1_000_000 ==> tells(crate::time::time_text(nanos), nanos, "µs"@),
        1_000_000 <= nanos < 1_000_000_000 ==> tells(
            crate::time::time_text(nanos),
            nanos / 1000,
            "ms"@,
        ),
        1_000_000_000 <= nanos ==> tells(crate::time::time_text(nanos), nanos / 1_000_000, "s"@),
{
    if 1000 <= nanos < 1_000_000 {
        lemma_tells(crate::time::time_text(nanos), nanos / 1000, nanos % 1000, "µs"@);
    } else if 1_000_000 <= nanos < 1_000_000_000 {
        lemma_tells(
            crate::time::time_text(nanos),
            nanos / 1_000_000,
            nanos / 1000 % 1000,
            "ms"@,
        );
    } else if nanos >= 1_000_000_000 {
        lemma_tells(
            crate::time::time_text(nanos),
            nanos / 1_000_000_000,
            nanos / 1_000_000 % 1000,
            "s"@,
        );
    }
}

/// Whether a text tells a number of thousandths: a whole part of at least one, a point, three
/// digits and a unit.
pub open spec fn tells(text: Seq<char>, thousandths: nat, unit: Seq<char>) -> bool {
    exists|whole: Seq<char>, fraction: Seq<char>|
        {
            &&& text == #[trigger] (whole + "."@ + fraction) + unit
            &&& fraction.len() == 3
            &&& number_of(whole) >= 1
            &&& number_of(whole) * 1000 + number_of(fraction) == thousandths
        }
}

proof fn lemma_tells(text: Seq<char>, whole: nat, fraction: nat, unit: Seq<char>)
    requires
        fraction < 1000,
        whole >= 1,
        text == crate::text::decimal(whole) + "."@ + crate::text::three_digits(fraction) + unit,
    ensures
        tells(text, whole * 1000 + fraction, unit),
{
    decimals_are_read_back(whole);
    three_digits_are_read_back(fraction);
    let w = crate::text::decimal(whole);
    let f = crate::text::three_digits(fraction);
    assert(text == (w + "."@ + f) + unit);
}

/// A time is scaled to the product, unless that is later than any time.
pub proof fn scaled_times_are_products(nanos: u64, factor: u64, larger: u64)
    requires
        factor <= larger,
    ensures
        nanos * factor <= u64::MAX ==> crate::time::scaled(nanos, factor) == nanos * factor,
        nanos * factor > u64::MAX ==> crate::time::scaled(nanos, factor) == u64::MAX,
        crate::time::scaled(nanos, factor) <= crate::time::scaled(nanos, larger),
        crate::time::scaled(nanos, 0) == 0,
        crate::time::scaled(nanos, 1) == nanos,
{
    assert(nanos * factor <= nanos * larger) by (nonlinear_arith)
        requires
            0 <= nanos,
            factor <= larger,
    ;
    assert(nanos * 0 == 0 && nanos * 1 == nanos) by (nonlinear_arith);
}

/// A duration that a time can tell is told as it is.
pub proof fn short_durations_are_told_as_they_are(nanos: nat)
    ensures
        nanos <= u64::MAX ==> crate::duration::low_nanos(nanos) == nanos,
        crate::duration::low_nanos(nanos + 0x1_0000_0000_0000_0000) == crate::duration::low_nanos(
            nanos,
        ),
{
    if nanos <= u64::MAX {
        vstd::arithmetic::div_mod::lemma_small_mod(nanos, 0x1_0000_0000_0000_0000);
    }
    vstd::arithmetic::div_mod::lemma_mod_add_multiples_vanish(
        nanos as int,
        0x1_0000_0000_0000_0000,
    );
}

/// One more attempt changes nothing else of a task, and one more run nothing else of a
/// periodic one.
pub proof fn repeated_tasks_stay_the_same<F, X, E, G>(
    task: RetryTask<F, X, E>,
    periodic: PeriodicTask<G>,
)
    requires
        task.current_attempt < u32::MAX,
    ensures
        task.attempted().current_attempt == task.current_attempt + 1,
        task.attempted().operation == task.operation,
        task.attempted().max_attempts == task.max_attempts,
        task.attempted().base_delay == task.base_delay,
        task.tries_again() <==> task.attempted().current_attempt < task.max_attempts,
        periodic.executed().callback == periodic.callback,
        periodic.executed().interval == periodic.interval,
        periodic.remaining_executions is None <==> periodic.executed().remaining_executions is None,
{
}

/// Waking by time leaves those who wait for an event, waking by an event those who wait for a
/// time, and both leave the processes.
pub proof fn waking_leaves_the_other_waiters<P>(v: ProcessesView<P>, now: SimTime, event: EventId)
    ensures
        v.woken_by_time(now).event_waiters == v.event_waiters,
        v.woken_by_time(now).processes == v.processes,
        v.woken_by_event(event).time_waiters == v.time_waiters,
        v.woken_by_event(event).processes == v.processes,
        v.woken_by_time(now).time_waiters.len() <= v.time_waiters.len(),
        v.woken_by_event(event).event_waiters.len() <= v.event_waiters.len(),
{
    broadcast use vstd::seq_lib::group_filter_ensures;

    v.time_waiters.lemma_filter_len(crate::process::later_than(now));
    v.event_waiters.lemma_filter_len(crate::process::other_than(event));
}

proof fn lemma_split_at_place(events: Seq<ScheduledEvent>, time: SimTime)
    requires
        crate::environment::events_in_order(events),
    ensures
        ({
            let p = crate::environment::event_place(events, time);
            &&& 0 <= p <= events.len()
            &&& forall|i: int| 0 <= i < p ==> (#[trigger] events[i]).time.0 <= time.0
            &&& forall|i: int| p <= i < events.len() ==> (#[trigger] events[i]).time.0 > time.0
        }),
    decreases events.len(),
{
    let p = crate::environment::event_place(events, time);
    if events.len() > 0 {
        if events[0].time.0 <= time.0 {
            let rest = events.drop_first();
            assert forall|i: int| 0 <= i < rest.len() implies #[trigger] rest[i] == events[i + 1]
                by {}
            assert forall|i: int, j: int| 0 <= i < j < rest.len() implies
                crate::environment::comes_before(#[trigger] rest[i], #[trigger] rest[j]) by {
                assert(crate::environment::comes_before(events[i + 1], events[j + 1]));
            }
            lemma_split_at_place(rest, time);
            assert forall|i: int| 0 <= i < p implies (#[trigger] events[i]).time.0 <= time.0 by {
                if i > 0 {
                    assert(rest[i - 1].time.0 <= time.0);
                }
            }
            assert forall|i: int| p <= i < events.len() implies (#[trigger] events[i]).time.0
                > time.0 by {
                assert(rest[i - 1].time.0 > time.0);
            }
        } else {
            assert forall|i: int| 0 <= i < events.len() implies (#[trigger] events[i]).time.0
                > time.0 by {
                if i > 0 {
                    assert(crate::environment::comes_before(events[0], events[i]));
                }
            }
        }
    }
}

/// An event that is scheduled in an environment is one more event at its time, behind those
/// that are due no later and before those that are due later. The others keep their order.
pub proof fn scheduled_event_stands_by_its_time(
    v: EventSchedulerView,
    time: SimTime,
    payload: EventPayload,
    i: int,
)
    requires
        v.wf(),
        v.next_event_id < u64::MAX,
        0 <= i < v.events.len(),
    ensures
        ({
            let w = v.scheduled(time, payload);
            let p = if v.events[i].time.0 <= time.0 {
                i
            } else {
                i + 1
            };
            &&& w.events.len() == v.events.len() + 1
            &&& w.events[p] == v.events[i]
            &&& w.next_event_id == v.next_event_id + 1
            &&& exists|k: int|
                {
                    &&& 0 <= k < w.events.len()
                    &&& #[trigger] w.events[k] == (ScheduledEvent {
                        id: EventId(v.next_event_id),
                        time,
                        payload,
                    })
                    &&& v.events[i].time.0 <= time.0 <==> i < k
                }
        }),
{
    lemma_split_at_place(v.events, time);
    let k = crate::environment::event_place(v.events, time);
    let w = v.scheduled(time, payload);
    assert(w.events[k].id == EventId(v.next_event_id));
}

/// Processing takes the first event and moves the clock to it. The other events stay, and so
/// do those who wait for something else.
pub proof fn processing_takes_the_first_event<P>(
    v: EnvironmentView<P>,
    w: (ProcessId, SimTime),
    x: (ProcessId, EventId),
)
    requires
        v.queue.events.len() > 0,
    ensures
        v.processed().now == v.queue.events[0].time,
        v.processed().queue.events.len() == v.queue.events.len() - 1,
        forall|i: int|
            0 <= i < v.queue.events.len() - 1 ==> #[trigger] v.processed().queue.events[i]
                == v.queue.events[i + 1],
        v.processed().queue.next_event_id == v.queue.next_event_id,
        v.processed().processes.processes == v.processes.processes,
        v.processed().processes.time_waiters.contains(w) <==> v.processes.time_waiters.contains(w)
            && w.1.0 > v.queue.events[0].time.0,
        v.processed().processes.event_waiters.contains(x) <==> v.processes.event_waiters.contains(x)
            && x.1 != v.queue.events[0].id,
{
    let event = v.queue.events[0];
    let between = v.processes.woken_by_event(event.id);
    crate::process::woken_waiters_are_gone(v.processes, event.time, event.id);
    crate::process::woken_waiters_are_gone(between, event.time, event.id);
    let timed = between.woken_by_time(event.time).time_waiters;
    if timed.contains(w) {
        let i = choose|i: int| 0 <= i < timed.len() && timed[i] == w;
        assert(timed[i].1.0 > event.time.0);
    }
    let awaiting = between.event_waiters;
    if awaiting.contains(x) {
        let i = choose|i: int| 0 <= i < awaiting.len() && awaiting[i] == x;
        assert(awaiting[i] == x);
        assert(x.1 != event.id);
    }
}

/// Running until a time wakes nobody who waits for a later one, or for an event that is due
/// later.
pub proof fn running_leaves_later_waiters<P>(
    v: EnvironmentView<P>,
    until: SimTime,
    w: (ProcessId, SimTime),
    x: (ProcessId, EventId),
)
    requires
        v.wf(),
        w.1.0 > until.0,
        forall|i: int|
            0 <= i < v.queue.events.len() && (#[trigger] v.queue.events[i]).time.0 <= until.0
                ==> v.queue.events[i].id != x.1,
    ensures
        ({
            let after = v.run_events(Some(until)).advanced(until);
            &&& after.processes.time_waiters.contains(w) <==> v.processes.time_waiters.contains(w)
            &&& after.processes.event_waiters.contains(x)
                <==> v.processes.event_waiters.contains(x)
            &&& after.processes.processes == v.processes.processes
            &&& after.queue.next_event_id == v.queue.next_event_id
        }),
{
    lemma_run_leaves_later_waiters(v, until, w, x);
    let run = v.run_events(Some(until));
    if run.now.0 < until.0 {
        crate::process::woken_waiters_are_gone(run.processes, until, x.1);
    }
}

proof fn lemma_run_leaves_later_waiters<P>(
    v: EnvironmentView<P>,
    until: SimTime,
    w: (ProcessId, SimTime),
    x: (ProcessId, EventId),
)
    requires
        w.1.0 > until.0,
        forall|i: int|
            0 <= i < v.queue.events.len() && (#[trigger] v.queue.events[i]).time.0 <= until.0
                ==> v.queue.events[i].id != x.1,
    ensures
        ({
            let after = v.run_events(Some(until));
            &&& after.processes.time_waiters.contains(w) <==> v.processes.time_waiters.contains(w)
            &&& after.processes.event_waiters.contains(x)
                <==> v.processes.event_waiters.contains(x)
            &&& after.processes.processes == v.processes.processes
            &&& after.queue.next_event_id == v.queue.next_event_id
        }),
    decreases v.queue.events.len(),
{
    if v.queue.events.len() > 0 && v.queue.events[0].time.0 <= until.0 {
        processing_takes_the_first_event(v, w, x);
        let next = v.processed();
        assert forall|i: int|
            0 <= i < next.queue.events.len() && (#[trigger] next.queue.events[i]).time.0
                <= until.0 implies next.queue.events[i].id != x.1 by {
            assert(next.queue.events[i] == v.queue.events[i + 1]);
        }
        lemma_run_leaves_later_waiters(next, until, w, x);
    }
}

/// Moving the clock on moves it to the time that is asked for, never back, and takes no event.
pub proof fn clock_moves_on_to_the_time<P>(v: EnvironmentView<P>, until: SimTime)
    ensures
        v.advanced(until).now.0 >= v.now.0,
        v.advanced(until).now.0 >= until.0,
        v.advanced(until).now == v.now || v.advanced(until).now == until,
        v.advanced(until).queue == v.queue,
        v.advanced(until).processes.event_waiters == v.processes.event_waiters,
        v.now.0 < until.0 ==> forall|i: int|
            0 <= i < v.advanced(until).processes.time_waiters.len() ==> (
            #[trigger] v.advanced(until).processes.time_waiters[i]).1.0 > until.0,
        v.now.0 >= until.0 ==> v.advanced(until) == v,
{
    crate::process::woken_waiters_are_gone(v.processes, until, EventId(0));
}

/// A random policy draws its index from as many as there are to select from, and goes on with
/// the generator that the draw leaves behind.
pub proof fn random_policies_draw_from_all(
    p: UniformRandomFrontierPolicy,
    p2: UniformRandomFrontierPolicy,
    frontier: Seq<FrontierEvent>,
    q: UniformRandomReadyTaskPolicy,
    q2: UniformRandomReadyTaskPolicy,
    ready: Seq<crate::ready_policy::TaskId>,
    time: SimTime,
    i: usize,
    j: usize,
)
    requires
        0 < frontier.len() <= usize::MAX,
        0 < ready.len() <= usize::MAX,
        UniformRandomFrontierPolicy::selects(p, time, frontier, p2, i),
        UniformRandomReadyTaskPolicy::selects(q, time, ready, q2, j),
    ensures
        (i, p2.state()) == crate::rng::rng_below(p.state(), frontier.len() as usize, usize::BITS),
        (j, q2.state()) == crate::rng::rng_below(q.state(), ready.len() as usize, usize::BITS),
        i < frontier.len(),
        j < ready.len(),
{
}

/// A first-in-first-out policy selects the event that was scheduled first, and the task that
/// became ready first.
pub proof fn fifo_policies_select_the_first(
    p: FifoFrontierPolicy,
    p2: FifoFrontierPolicy,
    frontier: Seq<FrontierEvent>,
    q: FifoReadyTaskPolicy,
    q2: FifoReadyTaskPolicy,
    ready: Seq<crate::ready_policy::TaskId>,
    time: SimTime,
    i: usize,
    j: usize,
    k: int,
)
    requires
        FifoFrontierPolicy::selects(p, time, frontier, p2, i),
        FifoReadyTaskPolicy::selects(q, time, ready, q2, j),
        0 <= k < frontier.len(),
    ensures
        i < frontier.len(),
        frontier[i as int].seq <= frontier[k].seq,
        frontier[i as int].seq == frontier[k].seq ==> i <= k,
        j == 0,
{
}

/// A hash goes on byte by byte: each byte is taken in and spread, whatever came before.
pub proof fn hash_goes_on_byte_by_byte(bytes: Seq<u8>, byte: u8)
    ensures
        crate::randomness::fnv1a(bytes.push(byte)) == (crate::randomness::fnv1a(bytes) ^ (
        byte as u64)).wrapping_mul(0x100000001b3),
        crate::randomness::fnv1a(Seq::empty()) == 0xcbf29ce484222325,
{
    assert(bytes.push(byte).drop_last() =~= bytes);
}

/// The label that counts for a name is the last one of that name.
pub proof fn last_label_counts(
    labels: Seq<(Seq<char>, Seq<char>)>,
    name: Seq<char>,
    text: Seq<char>,
    other: Seq<char>,
)
    ensures
        crate::measurement::labels_as_map(labels.push((name, text))).contains_key(name),
        crate::measurement::labels_as_map(labels.push((name, text)))[name] == text,
        other != name ==> (crate::measurement::labels_as_map(
            labels.push((name, text)),
        ).contains_key(other) <==> crate::measurement::labels_as_map(labels).contains_key(other)),
        other != name && crate::measurement::labels_as_map(labels).contains_key(other)
            ==> crate::measurement::labels_as_map(labels.push((name, text)))[other]
            == crate::measurement::labels_as_map(labels)[other],
        !crate::measurement::labels_as_map(Seq::empty()).contains_key(name),
{
    assert(labels.push((name, text)).drop_last() =~= labels);
}

/// A metric of a component is one of that component and of no other.
pub proof fn component_metrics_tell_their_component(
    name: Seq<char>,
    component: Seq<char>,
    metric_type: MetricType,
    value: MetricNumber,
    timestamp: SimTime,
    other: Seq<char>,
)
    ensures
        ({
            let m = crate::measurement::component_metric(
                name,
                component,
                metric_type,
                value,
                timestamp,
            );
            &&& crate::measurement::component_of(m) == Some(component)
            &&& crate::measurement::is_of_component(other)(m) <==> other == component
            &&& m.key == name
            &&& m.metric_type == metric_type
            &&& m.value == value
            &&& m.timestamp == timestamp
        }),
{
    let m = crate::measurement::component_metric(name, component, metric_type, value, timestamp);
    let none = Seq::<(Seq<char>, Seq<char>)>::empty();
    assert(m.labels =~= none.push(("component"@, component)));
    last_label_counts(none, "component"@, component, other);
}

/// As many metrics are counted of a type as there are.
pub proof fn metrics_are_counted_by_type(metrics: Seq<MetricView>, metric_type: MetricType)
    ensures
        crate::measurement::count_of_type(metrics, metric_type) == metrics.filter(
            |m: MetricView| m.metric_type == metric_type,
        ).len(),
    decreases metrics.len(),
{
    reveal(Seq::filter);
    if metrics.len() > 0 {
        metrics_are_counted_by_type(metrics.drop_last(), metric_type);
    }
}

/// Identifiers of one seed and number are told apart by what they are for.
pub proof fn identifiers_follow_their_domain(seed: u64, a: u64, b: u64, counter: u64)
    requires
        a != b,
    ensures
        crate::ids::derived_id(seed, a, counter) != crate::ids::derived_id(seed, b, counter),
{
    assert(seed ^ a ^ counter == a ^ seed ^ counter) by (bit_vector);
    assert(seed ^ b ^ counter == b ^ seed ^ counter) by (bit_vector);
    crate::ids::derived_ids_follow_the_seed(seed, counter, a, b);
}

/// The extensions that stand for the binary form of a trace are these two, and a file without
/// one is taken for the readable form.
pub proof fn extensions_tell_the_format(extension: Seq<char>)
    ensures
        crate::explore::io::format_of_extension(None)
            == crate::explore::io::TraceFormat::Json,
        crate::explore::io::format_of_extension(Some(extension))
            == crate::explore::io::TraceFormat::Postcard <==> extension == "bin"@ || extension
            == "postcard"@,
{
}

/// The component of a metric is what its last label of that name says, and a metric without
/// such a label has none. Metrics are picked by type and by component accordingly.
pub proof fn component_is_told_by_its_label(
    m: MetricView,
    labels: Seq<(Seq<char>, Seq<char>)>,
    component: Seq<char>,
    metric_type: MetricType,
)
    ensures
        m.labels == labels.push(("component"@, component)) ==> crate::measurement::component_of(m)
            == Some(component),
        (forall|i: int| 0 <= i < m.labels.len() ==> (#[trigger] m.labels[i]).0 != "component"@)
            ==> crate::measurement::component_of(m) is None,
        crate::measurement::is_of_component(component)(m) <==> crate::measurement::component_of(m)
            == Some(component),
        crate::measurement::is_of_type(metric_type)(m) <==> m.metric_type == metric_type,
{
    last_label_counts(labels, "component"@, component, component);
    if forall|i: int| 0 <= i < m.labels.len() ==> (#[trigger] m.labels[i]).0 != "component"@ {
        lemma_absent_label(m.labels, "component"@);
    }
}

proof fn lemma_absent_label(labels: Seq<(Seq<char>, Seq<char>)>, name: Seq<char>)
    requires
        forall|i: int| 0 <= i < labels.len() ==> (#[trigger] labels[i]).0 != name,
    ensures
        !crate::measurement::labels_as_map(labels).contains_key(name),
    decreases labels.len(),
{
    if labels.len() > 0 {
        let front = labels.drop_last();
        assert forall|i: int| 0 <= i < front.len() implies (#[trigger] front[i]).0 != name by {
            assert(front[i] == labels[i]);
        }
        lemma_absent_label(front, name);
        assert(labels[labels.len() - 1].0 != name);
    }
}

/// One hexadecimal digit of a number, counted from the right.
pub open spec fn hex_at(value: u128, k: nat) -> nat {
    (value as int / vstd::arithmetic::power::pow(16, k) % 16) as nat
}

proof fn lemma_digits_tell_the_number(a: u128, b: u128, k: nat)
    requires
        forall|j: nat| j < k ==> #[trigger] hex_at(a, j) == hex_at(b, j),
    ensures
        a as int % vstd::arithmetic::power::pow(16, k) == b as int
            % vstd::arithmetic::power::pow(16, k),
        vstd::arithmetic::power::pow(16, k) > 0,
    decreases k,
{
    vstd::arithmetic::power::lemma_pow_positive(16, k);
    if k == 0 {
        vstd::arithmetic::power::lemma_pow0(16);
    } else {
        let j = (k - 1) as nat;
        lemma_digits_tell_the_number(a, b, j);
        let p = vstd::arithmetic::power::pow(16, j);
        vstd::arithmetic::power::lemma_pow_adds(16, j, 1);
        vstd::arithmetic::power::lemma_pow1(16);
        assert(vstd::arithmetic::power::pow(16, k) == p * 16);
        vstd::arithmetic::div_mod::lemma_breakdown(a as int, p, 16);
        vstd::arithmetic::div_mod::lemma_breakdown(b as int, p, 16);
        assert(hex_at(a, j) == hex_at(b, j));
    }
}

/// An identifier is written in thirty-two lower-case hexadecimal digits in five groups, and
/// the text tells the identifier.
pub proof fn identifiers_are_told_by_their_text(a: u128, b: u128, i: int)
    requires
        0 <= i < 36,
    ensures
        crate::ids::uuid_text(a).len() == 36,
        crate::ids::uuid_text(a)[i] == '-' <==> i == 8 || i == 13 || i == 18 || i == 23,
        crate::ids::uuid_text(a)[i] != '-' ==> '0' as nat <= crate::ids::uuid_text(a)[i] as nat
            <= '9' as nat || 'a' as nat <= crate::ids::uuid_text(a)[i] as nat <= 'f' as nat,
        crate::ids::uuid_text(a) == crate::ids::uuid_text(b) ==> a == b,
{
    if crate::ids::uuid_text(a) == crate::ids::uuid_text(b) {
        assert forall|j: nat| j < 32 implies #[trigger] hex_at(a, j) == hex_at(b, j) by {
            let d = 31 - j as int;
            let at = if d < 8 {
                d
            } else if d < 12 {
                d + 1
            } else if d < 16 {
                d + 2
            } else if d < 20 {
                d + 3
            } else {
                d + 4
            };
            assert(crate::ids::uuid_text(a)[at] == crate::ids::hex_digit(hex_at(a, j)));
            assert(crate::ids::uuid_text(b)[at] == crate::ids::hex_digit(hex_at(b, j)));
        }
        lemma_digits_tell_the_number(a, b, 32);
        lemma_all_digits();
        vstd::arithmetic::div_mod::lemma_small_mod(a as nat, (u128::MAX + 1) as nat);
        vstd::arithmetic::div_mod::lemma_small_mod(b as nat, (u128::MAX + 1) as nat);
    }
}

proof fn lemma_all_digits()
    ensures
        vstd::arithmetic::power::pow(16, 32) == u128::MAX + 1,
{
    let p1 = vstd::arithmetic::power::pow(16, 1);
    let p2 = vstd::arithmetic::power::pow(16, 2);
    let p4 = vstd::arithmetic::power::pow(16, 4);
    let p8 = vstd::arithmetic::power::pow(16, 8);
    let p16 = vstd::arithmetic::power::pow(16, 16);
    let p32 = vstd::arithmetic::power::pow(16, 32);
    vstd::arithmetic::power::lemma_pow1(16);
    vstd::arithmetic::power::lemma_pow_adds(16, 1, 1);
    vstd::arithmetic::power::lemma_pow_adds(16, 2, 2);
    vstd::arithmetic::power::lemma_pow_adds(16, 4, 4);
    vstd::arithmetic::power::lemma_pow_adds(16, 8, 8);
    vstd::arithmetic::power::lemma_pow_adds(16, 16, 16);
    assert(p32 == u128::MAX + 1) by (nonlinear_arith)
        requires
            p1 == 16,
            p2 == p1 * p1,
            p4 == p2 * p2,
            p8 == p4 * p4,
            p16 == p8 * p8,
            p32 == p16 * p16,
    ;
}

} // verus!
