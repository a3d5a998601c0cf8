//! Recording and validating the events of locks and atomic variables.

use crate::explore::trace::{
    AtomicOrdering, ConcurrencyEventKind, ConcurrencyTraceEvent, TraceEvent, TraceEventView,
    TraceRecorder,
};
use vstd::prelude::*;

verus! {

/// An event of a lock or an atomic variable.
#[derive(Debug, Clone, Copy, PartialEq, Eq, Structural)]
pub enum ConcurrencyEvent {
    MutexContended { mutex_id: u64, task_id: u64, time_nanos: Option<u64>, waiter_count: usize },
    MutexAcquire { mutex_id: u64, task_id: u64, time_nanos: Option<u64> },
    MutexRelease { mutex_id: u64, task_id: u64, time_nanos: Option<u64> },
    AtomicLoad {
        site_id: u64,
        task_id: u64,
        time_nanos: Option<u64>,
        ordering: AtomicOrdering,
        value: u64,
    },
    AtomicStore {
        site_id: u64,
        task_id: u64,
        time_nanos: Option<u64>,
        ordering: AtomicOrdering,
        value: u64,
    },
    AtomicFetchAdd {
        site_id: u64,
        task_id: u64,
        time_nanos: Option<u64>,
        ordering: AtomicOrdering,
        prev: u64,
        next: u64,
        delta: u64,
    },
    AtomicCompareExchange {
        site_id: u64,
        task_id: u64,
        time_nanos: Option<u64>,
        success_order: AtomicOrdering,
        failure_order: AtomicOrdering,
        current: u64,
        expected: u64,
        new: u64,
        succeeded: bool,
    },
}

impl ConcurrencyEvent {
    /// The task that caused the event.
    pub open spec fn task(self) -> u64 {
        match self {
            ConcurrencyEvent::MutexContended { task_id, .. } => task_id,
            ConcurrencyEvent::MutexAcquire { task_id, .. } => task_id,
            ConcurrencyEvent::MutexRelease { task_id, .. } => task_id,
            ConcurrencyEvent::AtomicLoad { task_id, .. } => task_id,
            ConcurrencyEvent::AtomicStore { task_id, .. } => task_id,
            ConcurrencyEvent::AtomicFetchAdd { task_id, .. } => task_id,
            ConcurrencyEvent::AtomicCompareExchange { task_id, .. } => task_id,
        }
    }

    /// When the event happened.
    pub open spec fn time(self) -> Option<u64> {
        match self {
            ConcurrencyEvent::MutexContended { time_nanos, .. } => time_nanos,
            ConcurrencyEvent::MutexAcquire { time_nanos, .. } => time_nanos,
            ConcurrencyEvent::MutexRelease { time_nanos, .. } => time_nanos,
            ConcurrencyEvent::AtomicLoad { time_nanos, .. } => time_nanos,
            ConcurrencyEvent::AtomicStore { time_nanos, .. } => time_nanos,
            ConcurrencyEvent::AtomicFetchAdd { time_nanos, .. } => time_nanos,
            ConcurrencyEvent::AtomicCompareExchange { time_nanos, .. } => time_nanos,
        }
    }

    /// What happened, without when and by whom.
    pub open spec fn kind(self) -> ConcurrencyEventKind {
        match self {
            ConcurrencyEvent::MutexContended { mutex_id, waiter_count, .. } => {
                ConcurrencyEventKind::MutexContended { mutex_id, waiter_count }
            },
            ConcurrencyEvent::MutexAcquire { mutex_id, .. } => {
                ConcurrencyEventKind::MutexAcquire { mutex_id }
            },
            ConcurrencyEvent::MutexRelease { mutex_id, .. } => {
                ConcurrencyEventKind::MutexRelease { mutex_id }
            },
            ConcurrencyEvent::AtomicLoad { site_id, ordering, value, .. } => {
                ConcurrencyEventKind::AtomicLoad { site_id, ordering, value }
            },
            ConcurrencyEvent::AtomicStore { site_id, ordering, value, .. } => {
                ConcurrencyEventKind::AtomicStore { site_id, ordering, value }
            },
            ConcurrencyEvent::AtomicFetchAdd { site_id, ordering, prev, next, delta, .. } => {
                ConcurrencyEventKind::AtomicFetchAdd { site_id, ordering, prev, next, delta }
            },
            ConcurrencyEvent::AtomicCompareExchange {
                site_id,
                success_order,
                failure_order,
                current,
                expected,
                new,
                succeeded,
                ..
            } => ConcurrencyEventKind::AtomicCompareExchange {
                site_id,
                success_order,
                failure_order,
                current,
                expected,
                new,
                succeeded,
            },
        }
    }

    /// The event as it stands in a trace.
    pub open spec fn traced(self) -> ConcurrencyTraceEvent {
        ConcurrencyTraceEvent {
            time_nanos: self.time(),
            task_id: self.task(),
            event: self.kind(),
        }
    }
}

/// Brings an event into the form in which it stands in a trace.
pub fn to_trace_event(event: ConcurrencyEvent) -> (traced: ConcurrencyTraceEvent)
    ensures
        traced == event.traced(),
{
    match event {
        ConcurrencyEvent::MutexContended { mutex_id, task_id, time_nanos, waiter_count } => {
            ConcurrencyTraceEvent {
                time_nanos,
                task_id,
                event: ConcurrencyEventKind::MutexContended { mutex_id, waiter_count },
            }
        },
        ConcurrencyEvent::MutexAcquire { mutex_id, task_id, time_nanos } => {
            ConcurrencyTraceEvent {
                time_nanos,
                task_id,
                event: ConcurrencyEventKind::MutexAcquire { mutex_id },
            }
        },
        ConcurrencyEvent::MutexRelease { mutex_id, task_id, time_nanos } => {
            ConcurrencyTraceEvent {
                time_nanos,
                task_id,
                event: ConcurrencyEventKind::MutexRelease { mutex_id },
            }
        },
        ConcurrencyEvent::AtomicLoad { site_id, task_id, time_nanos, ordering, value } => {
            ConcurrencyTraceEvent {
                time_nanos,
                task_id,
                event: ConcurrencyEventKind::AtomicLoad { site_id, ordering, value },
            }
        },
        ConcurrencyEvent::AtomicStore { site_id, task_id, time_nanos, ordering, value } => {
            ConcurrencyTraceEvent {
                time_nanos,
                task_id,
                event: ConcurrencyEventKind::AtomicStore { site_id, ordering, value },
            }
        },
        ConcurrencyEvent::AtomicFetchAdd {
            site_id,
            task_id,
            time_nanos,
            ordering,
            prev,
            next,
            delta,
        } => ConcurrencyTraceEvent {
            time_nanos,
            task_id,
            event: ConcurrencyEventKind::AtomicFetchAdd { site_id, ordering, prev, next, delta },
        },
        ConcurrencyEvent::AtomicCompareExchange {
            site_id,
            task_id,
            time_nanos,
            success_order,
            failure_order,
            current,
            expected,
            new,
            succeeded,
        } => ConcurrencyTraceEvent {
            time_nanos,
            task_id,
            event: ConcurrencyEventKind::AtomicCompareExchange {
                site_id,
                success_order,
                failure_order,
                current,
                expected,
                new,
                succeeded,
            },
        },
    }
}

/// Brings a memory ordering into the form in which it stands in a trace.
pub fn to_atomic_ordering(ordering: std::sync::atomic::Ordering) -> (traced: AtomicOrdering)
    ensures
        traced == match ordering {
            std::sync::atomic::Ordering::Relaxed => AtomicOrdering::Relaxed,
            std::sync::atomic::Ordering::Acquire => AtomicOrdering::Acquire,
            std::sync::atomic::Ordering::Release => AtomicOrdering::Release,
            std::sync::atomic::Ordering::AcqRel => AtomicOrdering::AcqRel,
            _ => AtomicOrdering::SeqCst,
        },
{
    match ordering {
        std::sync::atomic::Ordering::Relaxed => AtomicOrdering::Relaxed,
        std::sync::atomic::Ordering::Acquire => AtomicOrdering::Acquire,
        std::sync::atomic::Ordering::Release => AtomicOrdering::Release,
        std::sync::atomic::Ordering::AcqRel => AtomicOrdering::AcqRel,
        _ => AtomicOrdering::SeqCst,
    }
}

/// What takes note of the events of locks and atomic variables.
pub trait ConcurrencyRecorder: Sized {
    /// Whether taking note of an event can lead from one state to another.
    open spec fn notes(before: Self, event: ConcurrencyEvent, after: Self) -> bool {
        true
    }

    fn record(&mut self, event: ConcurrencyEvent)
        ensures
            Self::notes(*old(self), event, *final(self)),
    ;
}

/// Writes the events into a trace.
pub struct RecordingConcurrencyRecorder {
    pub recorder: TraceRecorder,
}

impl RecordingConcurrencyRecorder {
    pub fn new(recorder: TraceRecorder) -> (r: Self)
        ensures
            r.recorder == recorder,
    {
        RecordingConcurrencyRecorder { recorder }
    }
}

impl ConcurrencyRecorder for RecordingConcurrencyRecorder {
    open spec fn notes(before: Self, event: ConcurrencyEvent, after: Self) -> bool {
        after.recorder@ == before.recorder@.with(TraceEventView::Concurrency(event.traced()))
    }

    fn record(&mut self, event: ConcurrencyEvent) {
        self.recorder.record(TraceEvent::Concurrency(to_trace_event(event)));
    }
}

/// Hands the events to several others, in their order.
pub struct TeeConcurrencyRecorder<A> {
    pub recorders: Vec<A>,
}

impl<A> TeeConcurrencyRecorder<A> {
    pub fn new(recorders: Vec<A>) -> (tee: Self)
        ensures
            tee.recorders == recorders,
    {
        TeeConcurrencyRecorder { recorders }
    }
}

impl<A: ConcurrencyRecorder> ConcurrencyRecorder for TeeConcurrencyRecorder<A> {
    open spec fn notes(before: Self, event: ConcurrencyEvent, after: Self) -> bool {
        &&& after.recorders@.len() == before.recorders@.len()
        &&& forall|i: int|
            0 <= i < before.recorders@.len() ==> A::notes(
                #[trigger] before.recorders@[i],
                event,
                after.recorders@[i],
            )
    }

    fn record(&mut self, event: ConcurrencyEvent) {
        let mut i: usize = 0;
        while i < self.recorders.len()
            invariant
                i <= self.recorders@.len(),
                self.recorders@.len() == old(self).recorders@.len(),
                forall|k: int|
                    0 <= k < i ==> A::notes(
                        #[trigger] old(self).recorders@[k],
                        event,
                        self.recorders@[k],
                    ),
                forall|k: int|
                    i <= k < self.recorders@.len() ==> #[trigger] self.recorders@[k] == old(
                        self,
                    ).recorders@[k],
            decreases self.recorders@.len() - i,
        {
            self.recorders[i].record(event);
            i = i + 1;
        }
    }
}

/// One of two kinds of recorders, so that events can be handed to recorders of different
/// kinds.
pub enum EitherRecorder<A, B> {
    First(A),
    Second(B),
}

impl<A: ConcurrencyRecorder, B: ConcurrencyRecorder> ConcurrencyRecorder for EitherRecorder<A, B> {
    open spec fn notes(before: Self, event: ConcurrencyEvent, after: Self) -> bool {
        match (before, after) {
            (EitherRecorder::First(a), EitherRecorder::First(a2)) => A::notes(a, event, a2),
            (EitherRecorder::Second(b), EitherRecorder::Second(b2)) => B::notes(b, event, b2),
            _ => false,
        }
    }

    fn record(&mut self, event: ConcurrencyEvent) {
        match self {
            EitherRecorder::First(recorder) => recorder.record(event),
            EitherRecorder::Second(recorder) => recorder.record(event),
        }
    }
}

/// Why the events of a run are not those of a trace.
#[derive(Debug, Clone, Copy, PartialEq, Eq, Structural)]
pub enum ReplayConcurrencyError {
    /// There are more events than in the trace.
    OutOfEvents { index: usize },
    /// An event is another one than in the trace.
    Mismatch { index: usize, expected: ConcurrencyTraceEvent, actual: ConcurrencyTraceEvent },
}

/// Holds the events of a run against those of a trace, and notes the first
/// difference.
pub struct ReplayConcurrencyValidator {
    expected: Vec<ConcurrencyTraceEvent>,
    next: usize,
    error: Option<ReplayConcurrencyError>,
}

/// The expected events, the number of those that came, and the first error.
#[verifier::ext_equal]
pub struct ReplayConcurrencyView {
    pub expected: Seq<ConcurrencyTraceEvent>,
    pub next: usize,
    pub error: Option<ReplayConcurrencyError>,
}

impl View for ReplayConcurrencyValidator {
    type V = ReplayConcurrencyView;

    closed spec fn view(&self) -> ReplayConcurrencyView {
        ReplayConcurrencyView { expected: self.expected@, next: self.next, error: self.error }
    }
}

/// The events of locks and atomic variables in a trace, in their order.
pub open spec fn concurrency_events(events: Seq<TraceEventView>) -> Seq<ConcurrencyTraceEvent>
    decreases events.len(),
{
    if events.len() == 0 {
        Seq::empty()
    } else {
        let front = concurrency_events(events.drop_last());
        match events.last() {
            TraceEventView::Concurrency(e) => front.push(e),
            _ => front,
        }
    }
}

impl ReplayConcurrencyView {
    /// The validator after an event. After an error nothing changes any more.
    pub open spec fn validated(self, actual: ConcurrencyTraceEvent) -> Self {
        if self.error is Some {
            self
        } else if self.next >= self.expected.len() {
            ReplayConcurrencyView {
                error: Some(ReplayConcurrencyError::OutOfEvents { index: self.next }),
                ..self
            }
        } else if self.expected[self.next as int] != actual {
            ReplayConcurrencyView {
                error: Some(
                    ReplayConcurrencyError::Mismatch {
                        index: self.next,
                        expected: self.expected[self.next as int],
                        actual,
                    },
                ),
                ..self
            }
        } else {
            ReplayConcurrencyView { next: (self.next + 1) as usize, ..self }
        }
    }
}

impl ReplayConcurrencyValidator {
    /// Makes a validator for the events of a trace.
    pub fn from_trace_events(events: &Vec<TraceEvent>) -> (validator: Self)
        ensures
            validator@ == (ReplayConcurrencyView {
                expected: concurrency_events(crate::explore::trace::event_views(events@)),
                next: 0,
                error: None,
            }),
    {
        let ghost views = crate::explore::trace::event_views(events@);
        let mut expected: Vec<ConcurrencyTraceEvent> = Vec::new();
        let mut i: usize = 0;
        while i < events.len()
            invariant
                i <= events@.len(),
                views == crate::explore::trace::event_views(events@),
                expected@ == concurrency_events(views.take(i as int)),
            decreases events@.len() - i,
        {
            proof {
                assert(views.take(i + 1).drop_last() =~= views.take(i as int));
                assert(views.take(i + 1).last() == events@[i as int]@);
            }
            if let TraceEvent::Concurrency(e) = &events[i] {
                expected.push(*e);
            }
            i = i + 1;
        }
        proof {
            assert(views.take(i as int) =~= views);
        }
        ReplayConcurrencyValidator { expected, next: 0, error: None }
    }

    pub fn has_expected_events(&self) -> (has: bool)
        ensures
            has == (self@.expected.len() > 0),
    {
        self.expected.len() > 0
    }

    /// The first error.
    pub fn error(&self) -> (error: Option<ReplayConcurrencyError>)
        ensures
            error == self@.error,
    {
        self.error
    }

    /// Takes the first error out, so that the validator goes on.
    pub fn take_error(&mut self) -> (error: Option<ReplayConcurrencyError>)
        ensures
            error == old(self)@.error,
            final(self)@ == (ReplayConcurrencyView { error: None, ..old(self)@ }),
    {
        let error = self.error.take();
        proof {
            assert(self@ =~= ReplayConcurrencyView { error: None, ..old(self)@ });
        }
        error
    }
}

impl ConcurrencyRecorder for ReplayConcurrencyValidator {
    open spec fn notes(before: Self, event: ConcurrencyEvent, after: Self) -> bool {
        after@ == before@.validated(event.traced())
    }

    fn record(&mut self, event: ConcurrencyEvent) {
        if self.error.is_some() {
            return;
        }
        let actual = to_trace_event(event);
        let index: usize = self.next;
        if index >= self.expected.len() {
            self.error = Some(ReplayConcurrencyError::OutOfEvents { index });
            return;
        }
        let expected = self.expected[index];
        if expected != actual {
            self.error = Some(ReplayConcurrencyError::Mismatch { index, expected, actual });
            return;
        }
        self.next = index + 1;
    }
}

/// An event that stands next in the trace is accepted without an error.
pub proof fn expected_event_is_accepted(v: ReplayConcurrencyView)
    requires
        v.error is None,
        v.next < v.expected.len(),
        v.expected.len() <= usize::MAX,
    ensures
        v.validated(v.expected[v.next as int]) == (ReplayConcurrencyView {
            next: (v.next + 1) as usize,
            ..v
        }),
{
}

/// The first error stays, and the number of accepted events with it.
pub proof fn validator_keeps_its_first_error(
    v: ReplayConcurrencyView,
    actual: ConcurrencyTraceEvent,
)
    requires
        v.error is Some,
    ensures
        v.validated(actual) == v,
{
}

/// An event is told apart in a trace by what it is, when it was and who caused it.
pub proof fn traced_events_are_distinct(a: ConcurrencyEvent, b: ConcurrencyEvent)
    requires
        a.traced() == b.traced(),
    ensures
        a == b,
{
}

/// The events of a recording are those that a validator of its trace expects.
pub proof fn recorded_events_are_expected(
    events: Seq<TraceEventView>,
    event: ConcurrencyTraceEvent,
)
    ensures
        concurrency_events(events.push(TraceEventView::Concurrency(event))) == concurrency_events(
            events,
        ).push(event),
{
    let longer = events.push(TraceEventView::Concurrency(event));
    assert(longer.drop_last() =~= events);
}

/// An event leaves the validator without an error only if it is the next one of the trace in
/// what happened, in when, and in which task caused it. Any other event is a mismatch, which
/// shows both of them. Once all events of the trace have come, there is none left to match.
pub proof fn only_the_expected_event_is_accepted(
    before: ReplayConcurrencyValidator,
    event: ConcurrencyEvent,
    after: ReplayConcurrencyValidator,
)
    requires
        before@.error is None,
        before@.expected.len() <= usize::MAX,
        <ReplayConcurrencyValidator as ConcurrencyRecorder>::notes(before, event, after),
    ensures
        after@.expected == before@.expected,
        after@.error is None ==> {
            &&& before@.next < before@.expected.len()
            &&& before@.expected[before@.next as int].event == event.kind()
            &&& before@.expected[before@.next as int].time_nanos == event.time()
            &&& before@.expected[before@.next as int].task_id == event.task()
            &&& after@.next == before@.next + 1
        },
        after@.error is Some ==> after@.next == before@.next,
        before@.next < before@.expected.len() ==> {
            let expected = before@.expected[before@.next as int];
            expected.event != event.kind() || expected.time_nanos != event.time()
                || expected.task_id != event.task() ==> after@.error == Some(
                ReplayConcurrencyError::Mismatch {
                    index: before@.next,
                    expected,
                    actual: event.traced(),
                },
            )
        },
        before@.next >= before@.expected.len() ==> after@.error == Some(
            ReplayConcurrencyError::OutOfEvents { index: before@.next },
        ),
{
}

/// A validator after a number of events.
pub open spec fn after_events(
    v: ReplayConcurrencyView,
    events: Seq<ConcurrencyTraceEvent>,
) -> ReplayConcurrencyView
    decreases events.len(),
{
    if events.len() == 0 {
        v
    } else {
        after_events(v, events.drop_last()).validated(events.last())
    }
}

/// The events of a run pass without an error exactly if the trace starts with them. Else the
/// error names the first of them that is not the one of the trace.
pub proof fn run_passes_if_the_trace_starts_with_it(
    expected: Seq<ConcurrencyTraceEvent>,
    events: Seq<ConcurrencyTraceEvent>,
)
    requires
        expected.len() <= usize::MAX,
    ensures
        ({
            let start = ReplayConcurrencyView { expected, next: 0, error: None };
            let end = after_events(start, events);
            &&& end.expected == expected
            &&& end.error is None <==> events.is_prefix_of(expected)
            &&& end.error is None ==> end.next == events.len()
            &&& end.error is Some ==> {
                &&& end.next < events.len()
                &&& forall|i: int| 0 <= i < end.next ==> #[trigger] events[i] == expected[i]
                &&& end.error == Some(
                    if end.next < expected.len() {
                        ReplayConcurrencyError::Mismatch {
                            index: end.next,
                            expected: expected[end.next as int],
                            actual: events[end.next as int],
                        }
                    } else {
                        ReplayConcurrencyError::OutOfEvents { index: end.next }
                    },
                )
                &&& end.next < expected.len() ==> events[end.next as int]
                    != expected[end.next as int]
            }
        }),
    decreases events.len(),
{
    if events.len() > 0 {
        let rest = events.drop_last();
        let start = ReplayConcurrencyView { expected, next: 0, error: None };
        run_passes_if_the_trace_starts_with_it(expected, rest);
        let middle = after_events(start, rest);
        let end = after_events(start, events);
        assert forall|i: int| 0 <= i < rest.len() implies #[trigger] rest[i] == events[i] by {}
        if middle.error is Some {
            assert(rest[middle.next as int] == events[middle.next as int]);
            assert forall|i: int| 0 <= i < end.next implies #[trigger] events[i] == expected[i] by {
                assert(rest[i] == expected[i]);
            }
            if events.is_prefix_of(expected) {
                assert(events[middle.next as int] == expected.subrange(
                    0,
                    events.len() as int,
                )[middle.next as int]);
            }
        } else {
            let n = rest.len() as int;
            assert(rest =~= expected.subrange(0, n));
            assert forall|i: int| 0 <= i < n implies #[trigger] events[i] == expected[i] by {
                assert(rest[i] == expected.subrange(0, n)[i]);
            }
            if n < expected.len() && events[n] == expected[n] {
                assert(events =~= expected.subrange(0, n + 1));
            }
            if events.is_prefix_of(expected) {
                assert(events[n] == expected.subrange(0, n + 1)[n]);
            }
        }
    } else {
        assert(events =~= expected.subrange(0, 0));
    }
}

/// The event that stands in a trace.
pub open spec fn event_of(traced: ConcurrencyTraceEvent) -> ConcurrencyEvent {
    let time_nanos = traced.time_nanos;
    let task_id = traced.task_id;
    match traced.event {
        ConcurrencyEventKind::MutexContended { mutex_id, waiter_count } => {
            ConcurrencyEvent::MutexContended { mutex_id, task_id, time_nanos, waiter_count }
        },
        ConcurrencyEventKind::MutexAcquire { mutex_id } => {
            ConcurrencyEvent::MutexAcquire { mutex_id, task_id, time_nanos }
        },
        ConcurrencyEventKind::MutexRelease { mutex_id } => {
            ConcurrencyEvent::MutexRelease { mutex_id, task_id, time_nanos }
        },
        ConcurrencyEventKind::AtomicLoad { site_id, ordering, value } => {
            ConcurrencyEvent::AtomicLoad { site_id, task_id, time_nanos, ordering, value }
        },
        ConcurrencyEventKind::AtomicStore { site_id, ordering, value } => {
            ConcurrencyEvent::AtomicStore { site_id, task_id, time_nanos, ordering, value }
        },
        ConcurrencyEventKind::AtomicFetchAdd { site_id, ordering, prev, next, delta } => {
            ConcurrencyEvent::AtomicFetchAdd {
                site_id,
                task_id,
                time_nanos,
                ordering,
                prev,
                next,
                delta,
            }
        },
        ConcurrencyEventKind::AtomicCompareExchange {
            site_id,
            success_order,
            failure_order,
            current,
            expected,
            new,
            succeeded,
        } => ConcurrencyEvent::AtomicCompareExchange {
            site_id,
            task_id,
            time_nanos,
            success_order,
            failure_order,
            current,
            expected,
            new,
            succeeded,
        },
    }
}

/// An event can be read back out of a trace, field for field.
pub proof fn traced_event_is_read_back(event: ConcurrencyEvent, traced: ConcurrencyTraceEvent)
    ensures
        event_of(event.traced()) == event,
        event_of(traced).traced() == traced,
{
}

/// A validator expects all events of locks and atomic variables of a trace, and no others, in
/// their order.
pub proof fn expected_events_are_those_of_the_trace(events: Seq<TraceEventView>)
    ensures
        concurrency_events(events) == events.filter(
            |e: TraceEventView| e is Concurrency,
        ).map_values(|e: TraceEventView| e->Concurrency_0),
    decreases events.len(),
{
    reveal(Seq::filter);
    if events.len() > 0 {
        expected_events_are_those_of_the_trace(events.drop_last());
    }
    assert(concurrency_events(events) =~= events.filter(
        |e: TraceEventView| e is Concurrency,
    ).map_values(|e: TraceEventView| e->Concurrency_0));
}

} // verus!
