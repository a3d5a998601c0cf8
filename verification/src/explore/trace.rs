//! Traces: what was random or undetermined in a run, in the order in which it
//! happened.

use crate::explore::choices::copied_ids;
use vstd::prelude::*;

verus! {

/// A memory ordering.
#[derive(Debug, Clone, Copy, PartialEq, Eq, Structural)]
pub enum AtomicOrdering {
    Relaxed,
    Acquire,
    Release,
    AcqRel,
    SeqCst,
}

/// What happened to a lock or an atomic variable.
#[derive(Debug, Clone, Copy, PartialEq, Eq, Structural)]
pub enum ConcurrencyEventKind {
    MutexContended { mutex_id: u64, waiter_count: usize },
    MutexAcquire { mutex_id: u64 },
    MutexRelease { mutex_id: u64 },
    AtomicLoad { site_id: u64, ordering: AtomicOrdering, value: u64 },
    AtomicStore { site_id: u64, ordering: AtomicOrdering, value: u64 },
    AtomicFetchAdd { site_id: u64, ordering: AtomicOrdering, prev: u64, next: u64, delta: u64 },
    AtomicCompareExchange {
        site_id: u64,
        success_order: AtomicOrdering,
        failure_order: AtomicOrdering,
        current: u64,
        expected: u64,
        new: u64,
        succeeded: bool,
    },
}

/// An event of a lock or an atomic variable, as it stands in a trace.
#[derive(Debug, Clone, Copy, PartialEq, Eq, Structural)]
pub struct ConcurrencyTraceEvent {
    pub time_nanos: Option<u64>,
    pub task_id: u64,
    pub event: ConcurrencyEventKind,
}

/// A choice among ready async tasks.
#[derive(Debug, PartialEq, Eq)]
pub struct AsyncRuntimeDecision {
    pub time_nanos: u64,
    pub chosen_index: usize,
    pub chosen_task_id: Option<u64>,
    pub ready_task_ids: Vec<u64>,
}

#[verifier::ext_equal]
pub struct AsyncRuntimeDecisionView {
    pub time_nanos: u64,
    pub chosen_index: usize,
    pub chosen_task_id: Option<u64>,
    pub ready_task_ids: Seq<u64>,
}

impl View for AsyncRuntimeDecision {
    type V = AsyncRuntimeDecisionView;

    open spec fn view(&self) -> AsyncRuntimeDecisionView {
        AsyncRuntimeDecisionView {
            time_nanos: self.time_nanos,
            chosen_index: self.chosen_index,
            chosen_task_id: self.chosen_task_id,
            ready_task_ids: self.ready_task_ids@,
        }
    }
}

impl Clone for AsyncRuntimeDecision {
    fn clone(&self) -> (copy: Self)
        ensures
            copy@ == self@,
    {
        AsyncRuntimeDecision {
            time_nanos: self.time_nanos,
            chosen_index: self.chosen_index,
            chosen_task_id: self.chosen_task_id,
            ready_task_ids: copied_ids(&self.ready_task_ids),
        }
    }
}

/// A value that was drawn at random. A floating-point number is held by its bits.
#[derive(Debug, PartialEq, Eq)]
pub enum DrawValue {
    F64(u64),
    U64(u64),
    Bool(bool),
    String(String),
    Bytes(Vec<u8>),
}

pub enum DrawValueView {
    F64(u64),
    U64(u64),
    Bool(bool),
    Text(Seq<char>),
    Bytes(Seq<u8>),
}

impl View for DrawValue {
    type V = DrawValueView;

    open spec fn view(&self) -> DrawValueView {
        match *self {
            DrawValue::F64(bits) => DrawValueView::F64(bits),
            DrawValue::U64(value) => DrawValueView::U64(value),
            DrawValue::Bool(value) => DrawValueView::Bool(value),
            DrawValue::String(text) => DrawValueView::Text(text@),
            DrawValue::Bytes(bytes) => DrawValueView::Bytes(bytes@),
        }
    }
}

impl Clone for DrawValue {
    fn clone(&self) -> (copy: Self)
        ensures
            copy@ == self@,
    {
        match self {
            DrawValue::F64(bits) => DrawValue::F64(*bits),
            DrawValue::U64(value) => DrawValue::U64(*value),
            DrawValue::Bool(value) => DrawValue::Bool(*value),
            DrawValue::String(text) => DrawValue::String(text.clone()),
            DrawValue::Bytes(bytes) => {
                let copy = bytes.clone();
                proof {
                    assert(copy@ =~= bytes@);
                }
                DrawValue::Bytes(copy)
            },
        }
    }
}

/// A random draw.
#[derive(Debug, PartialEq, Eq)]
pub struct RandomDraw {
    pub time_nanos: Option<u64>,
    pub tag: String,
    pub site_id: u64,
    pub value: DrawValue,
}

pub struct RandomDrawView {
    pub time_nanos: Option<u64>,
    pub tag: Seq<char>,
    pub site_id: u64,
    pub value: DrawValueView,
}

impl View for RandomDraw {
    type V = RandomDrawView;

    open spec fn view(&self) -> RandomDrawView {
        RandomDrawView {
            time_nanos: self.time_nanos,
            tag: self.tag@,
            site_id: self.site_id,
            value: self.value@,
        }
    }
}

impl Clone for RandomDraw {
    fn clone(&self) -> (copy: Self)
        ensures
            copy@ == self@,
    {
        RandomDraw {
            time_nanos: self.time_nanos,
            tag: self.tag.clone(),
            site_id: self.site_id,
            value: self.value.clone(),
        }
    }
}

/// What kind of work an event in a trace starts.
#[derive(Debug, Clone, Copy, PartialEq, Eq, Structural)]
pub enum FrontierKind {
    Component,
    Task,
}

/// One of the events that were due at the same time.
#[derive(Debug, PartialEq, Eq)]
pub struct FrontierEntry {
    pub seq: u64,
    pub kind: FrontierKind,
    pub component_id: Option<String>,
    pub task_id: Option<String>,
}

pub struct FrontierEntryView {
    pub seq: u64,
    pub kind: FrontierKind,
    pub component_id: Option<Seq<char>>,
    pub task_id: Option<Seq<char>>,
}

/// The text that may be there.
pub open spec fn text_view(text: Option<String>) -> Option<Seq<char>> {
    match text {
        Some(s) => Some(s@),
        None => None,
    }
}

fn copied_text(text: &Option<String>) -> (copy: Option<String>)
    ensures
        text_view(copy) == text_view(*text),
{
    match text {
        Some(s) => Some(s.clone()),
        None => None,
    }
}

impl View for FrontierEntry {
    type V = FrontierEntryView;

    open spec fn view(&self) -> FrontierEntryView {
        FrontierEntryView {
            seq: self.seq,
            kind: self.kind,
            component_id: text_view(self.component_id),
            task_id: text_view(self.task_id),
        }
    }
}

impl Clone for FrontierEntry {
    fn clone(&self) -> (copy: Self)
        ensures
            copy@ == self@,
    {
        FrontierEntry {
            seq: self.seq,
            kind: self.kind,
            component_id: copied_text(&self.component_id),
            task_id: copied_text(&self.task_id),
        }
    }
}

/// The views of some entries.
pub open spec fn entry_views(entries: Seq<FrontierEntry>) -> Seq<FrontierEntryView> {
    entries.map_values(|e: FrontierEntry| e@)
}

/// A choice among events that were due at the same time.
#[derive(Debug, PartialEq, Eq)]
pub struct SchedulerDecision {
    pub time_nanos: u64,
    pub chosen_index: usize,
    pub chosen_seq: Option<u64>,
    pub frontier_seqs: Vec<u64>,
    pub frontier: Vec<FrontierEntry>,
}

#[verifier::ext_equal]
pub struct SchedulerDecisionView {
    pub time_nanos: u64,
    pub chosen_index: usize,
    pub chosen_seq: Option<u64>,
    pub frontier_seqs: Seq<u64>,
    pub frontier: Seq<FrontierEntryView>,
}

impl View for SchedulerDecision {
    type V = SchedulerDecisionView;

    open spec fn view(&self) -> SchedulerDecisionView {
        SchedulerDecisionView {
            time_nanos: self.time_nanos,
            chosen_index: self.chosen_index,
            chosen_seq: self.chosen_seq,
            frontier_seqs: self.frontier_seqs@,
            frontier: entry_views(self.frontier@),
        }
    }
}

impl Clone for SchedulerDecision {
    fn clone(&self) -> (copy: Self)
        ensures
            copy@ == self@,
    {
        let mut frontier: Vec<FrontierEntry> = Vec::new();
        let mut i: usize = 0;
        while i < self.frontier.len()
            invariant
                i <= self.frontier@.len(),
                entry_views(frontier@) == entry_views(self.frontier@.take(i as int)),
            decreases self.frontier@.len() - i,
        {
            let ghost before = frontier@;
            let entry = self.frontier[i].clone();
            frontier.push(entry);
            proof {
                assert(entry_views(frontier@) =~= entry_views(before).push(entry@));
                assert(entry_views(self.frontier@.take(i + 1)) =~= entry_views(
                    self.frontier@.take(i as int),
                ).push(self.frontier@[i as int]@));
            }
            i = i + 1;
        }
        proof {
            assert(self.frontier@.take(i as int) =~= self.frontier@);
        }
        SchedulerDecision {
            time_nanos: self.time_nanos,
            chosen_index: self.chosen_index,
            chosen_seq: self.chosen_seq,
            frontier_seqs: copied_ids(&self.frontier_seqs),
            frontier,
        }
    }
}

/// An entry of a trace.
#[derive(Debug, PartialEq, Eq)]
pub enum TraceEvent {
    RandomDraw(RandomDraw),
    SchedulerDecision(SchedulerDecision),
    AsyncRuntimeDecision(AsyncRuntimeDecision),
    Concurrency(ConcurrencyTraceEvent),
}

pub enum TraceEventView {
    RandomDraw(RandomDrawView),
    SchedulerDecision(SchedulerDecisionView),
    AsyncRuntimeDecision(AsyncRuntimeDecisionView),
    Concurrency(ConcurrencyTraceEvent),
}

impl View for TraceEvent {
    type V = TraceEventView;

    open spec fn view(&self) -> TraceEventView {
        match *self {
            TraceEvent::RandomDraw(draw) => TraceEventView::RandomDraw(draw@),
            TraceEvent::SchedulerDecision(d) => TraceEventView::SchedulerDecision(d@),
            TraceEvent::AsyncRuntimeDecision(d) => TraceEventView::AsyncRuntimeDecision(d@),
            TraceEvent::Concurrency(e) => TraceEventView::Concurrency(e),
        }
    }
}

impl Clone for TraceEvent {
    fn clone(&self) -> (copy: Self)
        ensures
            copy@ == self@,
    {
        match self {
            TraceEvent::RandomDraw(draw) => TraceEvent::RandomDraw(draw.clone()),
            TraceEvent::SchedulerDecision(d) => TraceEvent::SchedulerDecision(d.clone()),
            TraceEvent::AsyncRuntimeDecision(d) => TraceEvent::AsyncRuntimeDecision(d.clone()),
            TraceEvent::Concurrency(e) => TraceEvent::Concurrency(*e),
        }
    }
}

/// The views of some entries of a trace.
pub open spec fn event_views(events: Seq<TraceEvent>) -> Seq<TraceEventView> {
    events.map_values(|e: TraceEvent| e@)
}

/// What a trace is about.
#[derive(Debug, PartialEq, Eq)]
pub struct TraceMeta {
    pub seed: u64,
    pub scenario: String,
}

pub struct TraceMetaView {
    pub seed: u64,
    pub scenario: Seq<char>,
}

impl View for TraceMeta {
    type V = TraceMetaView;

    open spec fn view(&self) -> TraceMetaView {
        TraceMetaView { seed: self.seed, scenario: self.scenario@ }
    }
}

impl Clone for TraceMeta {
    fn clone(&self) -> (copy: Self)
        ensures
            copy@ == self@,
    {
        TraceMeta { seed: self.seed, scenario: self.scenario.clone() }
    }
}

/// The recorded decisions of a run.
#[derive(Debug, PartialEq, Eq)]
pub struct Trace {
    pub meta: TraceMeta,
    pub events: Vec<TraceEvent>,
}

#[verifier::ext_equal]
pub struct TraceView {
    pub meta: TraceMetaView,
    pub events: Seq<TraceEventView>,
}

impl View for Trace {
    type V = TraceView;

    open spec fn view(&self) -> TraceView {
        TraceView { meta: self.meta@, events: event_views(self.events@) }
    }
}

impl TraceView {
    /// The trace with one more entry.
    pub open spec fn with(self, event: TraceEventView) -> Self {
        TraceView { events: self.events.push(event), ..self }
    }
}

impl Trace {
    /// A trace without entries.
    pub fn new(meta: TraceMeta) -> (trace: Self)
        ensures
            trace@ == (TraceView { meta: meta@, events: Seq::empty() }),
    {
        let trace = Trace { meta, events: Vec::new() };
        proof {
            assert(trace@.events =~= Seq::empty());
        }
        trace
    }

    /// Adds an entry.
    pub fn record(&mut self, event: TraceEvent)
        ensures
            final(self)@ == old(self)@.with(event@),
    {
        self.events.push(event);
        proof {
            assert(self@.events =~= old(self)@.events.push(event@));
        }
    }
}

impl Clone for Trace {
    fn clone(&self) -> (copy: Self)
        ensures
            copy@ == self@,
    {
        Trace { meta: self.meta.clone(), events: copied_events(&self.events) }
    }
}

/// Copies entries of a trace.
pub fn copied_events(events: &Vec<TraceEvent>) -> (copy: Vec<TraceEvent>)
    ensures
        event_views(copy@) == event_views(events@),
{
    let mut copy: Vec<TraceEvent> = Vec::new();
    let mut i: usize = 0;
    while i < events.len()
        invariant
            i <= events@.len(),
            event_views(copy@) == event_views(events@.take(i as int)),
        decreases events@.len() - i,
    {
        let ghost before = copy@;
        let event = events[i].clone();
        copy.push(event);
        proof {
            assert(event_views(copy@) =~= event_views(before).push(event@));
            assert(event_views(events@.take(i + 1)) =~= event_views(events@.take(i as int)).push(
                events@[i as int]@,
            ));
        }
        i = i + 1;
    }
    proof {
        assert(events@.take(i as int) =~= events@);
    }
    copy
}

/// Records a trace.
#[derive(Debug)]
pub struct TraceRecorder {
    trace: Trace,
}

impl View for TraceRecorder {
    type V = TraceView;

    closed spec fn view(&self) -> TraceView {
        self.trace@
    }
}

impl TraceRecorder {
    pub fn new(meta: TraceMeta) -> (recorder: Self)
        ensures
            recorder@ == (TraceView { meta: meta@, events: Seq::empty() }),
    {
        TraceRecorder { trace: Trace::new(meta) }
    }

    /// Adds an entry.
    pub fn record(&mut self, event: TraceEvent)
        ensures
            final(self)@ == old(self)@.with(event@),
    {
        self.trace.record(event);
    }

    /// The trace so far.
    pub fn trace(&self) -> (trace: &Trace)
        ensures
            trace@ == self@,
    {
        &self.trace
    }

    /// A copy of the trace so far.
    pub fn snapshot(&self) -> (trace: Trace)
        ensures
            trace@ == self@,
    {
        self.trace.clone()
    }

    /// The trace, at the end of the recording.
    pub fn into_trace(self) -> (trace: Trace)
        ensures
            trace@ == self@,
    {
        self.trace
    }
}

} // verus!
