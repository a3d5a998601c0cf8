//! Recording, replaying and scripting the choices among ready async tasks.

use crate::explore::choices::{bound_index, copied_ids, find_id, normalized_ids, same_ids};
use crate::explore::frontier::index_in_script;
use crate::explore::schedule_explore::{DecisionKey, DecisionKeyView, DecisionKind, DecisionScript};
use crate::explore::trace::{
    AsyncRuntimeDecision, AsyncRuntimeDecisionView, TraceEvent, TraceEventView, TraceRecorder,
};
use crate::ready_policy::{ready_ids, ReadyTaskPolicy, TaskId};
use crate::time::SimTime;
use vstd::prelude::*;

verus! {

/// The decision that a choice among ready tasks is recorded as.
pub open spec fn recorded_ready_decision(
    time: SimTime,
    ready: Seq<TaskId>,
    index: usize,
) -> AsyncRuntimeDecisionView {
    AsyncRuntimeDecisionView {
        time_nanos: time.0,
        chosen_index: index,
        chosen_task_id: if index < ready.len() {
            Some(ready[index as int].0)
        } else {
            None
        },
        ready_task_ids: crate::ready_policy::ids_of(ready),
    }
}

/// Records the choice of an index, and gives back the index that the choice stands
/// for: the last one where it is too large.
pub fn record_ready_choice(
    recorder: &mut TraceRecorder,
    time: SimTime,
    ready: &[TaskId],
    chosen: usize,
) -> (index: usize)
    ensures
        index == crate::explore::choices::bounded_index(chosen, ready@.len()),
        final(recorder)@ == old(recorder)@.with(
            TraceEventView::AsyncRuntimeDecision(recorded_ready_decision(time, ready@, index)),
        ),
{
    let index = bound_index(chosen, ready.len());
    let chosen_task_id = if index < ready.len() {
        Some(ready[index].0)
    } else {
        None
    };
    recorder.record(
        TraceEvent::AsyncRuntimeDecision(
            AsyncRuntimeDecision {
                time_nanos: time.0,
                chosen_index: index,
                chosen_task_id,
                ready_task_ids: ready_ids(ready),
            },
        ),
    );
    index
}

/// A policy that records what another one selects.
pub struct RecordingReadyTaskPolicy<P> {
    pub inner: P,
    pub recorder: TraceRecorder,
}

impl<P> RecordingReadyTaskPolicy<P> {
    pub fn new(inner: P, recorder: TraceRecorder) -> (policy: Self)
        ensures
            policy == (RecordingReadyTaskPolicy { inner, recorder }),
    {
        RecordingReadyTaskPolicy { inner, recorder }
    }

    pub fn inner_mut(&mut self) -> (inner: &mut P)
        ensures
            *inner == old(self).inner,
            *final(self) == (RecordingReadyTaskPolicy { inner: *final(inner), ..*old(self) }),
    {
        &mut self.inner
    }
}

impl<P: ReadyTaskPolicy> ReadyTaskPolicy for RecordingReadyTaskPolicy<P> {
    open spec fn selects(
        before: Self,
        time: SimTime,
        ready: Seq<TaskId>,
        after: Self,
        index: usize,
    ) -> bool {
        exists|chosen: usize|
            {
                &&& #[trigger] P::selects(before.inner, time, ready, after.inner, chosen)
                &&& index == crate::explore::choices::bounded_index(chosen, ready.len())
                &&& after.recorder@ == before.recorder@.with(
                    TraceEventView::AsyncRuntimeDecision(
                        recorded_ready_decision(time, ready, index),
                    ),
                )
            }
    }

    fn select(&mut self, time: SimTime, ready: &[TaskId]) -> (index: usize) {
        let chosen = self.inner.select(time, ready);
        let index = record_ready_choice(&mut self.recorder, time, ready, chosen);
        proof {
            assert(P::selects(old(self).inner, time, ready@, self.inner, chosen));
        }
        index
    }
}

/// A policy that follows a script where it has a choice, another policy elsewhere,
/// and records what is selected.
pub struct ExplorationReadyTaskPolicy<P> {
    pub inner: P,
    pub script: Option<DecisionScript>,
    pub recorder: TraceRecorder,
    pub next_ordinal: u64,
}

/// The key of a choice among ready tasks.
pub open spec fn ready_key(time: SimTime, ordinal: u64, ready: Seq<TaskId>) -> DecisionKeyView {
    (DecisionKeyView {
        kind: DecisionKind::TokioReady,
        time_nanos: time.0,
        ordinal,
        choice_set: crate::ready_policy::ids_of(ready),
    }).normal()
}

impl<P> ExplorationReadyTaskPolicy<P> {
    pub fn new(inner: P, script: Option<DecisionScript>, recorder: TraceRecorder) -> (policy: Self)
        ensures
            policy == (ExplorationReadyTaskPolicy { inner, script, recorder, next_ordinal: 0 }),
    {
        ExplorationReadyTaskPolicy { inner, script, recorder, next_ordinal: 0 }
    }

    pub fn inner_mut(&mut self) -> (inner: &mut P)
        ensures
            *inner == old(self).inner,
            *final(self) == (ExplorationReadyTaskPolicy { inner: *final(inner), ..*old(self) }),
    {
        &mut self.inner
    }

    /// The index that the script has for the next choice.
    pub open spec fn forced(self, time: SimTime, ready: Seq<TaskId>) -> Option<usize> {
        crate::explore::frontier::scripted_index(
            self.script,
            ready_key(time, self.next_ordinal, ready),
            crate::ready_policy::ids_of(ready),
        )
    }
}

impl<P: ReadyTaskPolicy> ReadyTaskPolicy for ExplorationReadyTaskPolicy<P> {
    open spec fn selects(
        before: Self,
        time: SimTime,
        ready: Seq<TaskId>,
        after: Self,
        index: usize,
    ) -> bool {
        &&& match before.forced(time, ready) {
            Some(i) => index == i && after.inner == before.inner,
            None => exists|chosen: usize| #[trigger]
                P::selects(before.inner, time, ready, after.inner, chosen) && index
                    == crate::explore::choices::bounded_index(chosen, ready.len()),
        }
        &&& after.script == before.script
        &&& after.next_ordinal == before.next_ordinal.wrapping_add(1)
        &&& after.recorder@ == before.recorder@.with(
            TraceEventView::AsyncRuntimeDecision(recorded_ready_decision(time, ready, index)),
        )
    }

    fn select(&mut self, time: SimTime, ready: &[TaskId]) -> (index: usize) {
        let ids = ready_ids(ready);
        let ordinal: u64 = self.next_ordinal;
        self.next_ordinal = ordinal.wrapping_add(1);
        let key = DecisionKey::new(DecisionKind::TokioReady, time.0, ordinal, copied_ids(&ids));
        proof {
            crate::explore::choices::normal_form_is_idempotent(ids@);
        }
        let chosen = match index_in_script(&self.script, &key, &ids) {
            Some(i) => i,
            None => self.inner.select(time, ready),
        };
        let index = record_ready_choice(&mut self.recorder, time, ready, chosen);
        proof {
            if old(self).forced(time, ready@) is None {
                assert(P::selects(old(self).inner, time, ready@, self.inner, chosen));
            }
        }
        index
    }
}

/// Why a run does not follow a trace in its choices among ready tasks.
#[derive(Debug, PartialEq, Eq)]
pub enum ReplayReadyTaskError {
    /// There are more choices than in the trace.
    OutOfDecisions { index: usize, time_nanos: u64, ready_task_ids: Vec<u64> },
    /// A choice comes at another time.
    TimeMismatch { index: usize, expected: u64, actual: u64 },
    /// A choice is among other tasks.
    ReadySetMismatch { index: usize, time_nanos: u64, expected: Vec<u64>, actual: Vec<u64> },
    /// The recorded task is not ready.
    ChosenTaskNotFound { index: usize, time_nanos: u64, chosen: u64, ready: Vec<u64> },
}

pub enum ReplayReadyTaskErrorView {
    OutOfDecisions { index: usize, time_nanos: u64, ready_task_ids: Seq<u64> },
    TimeMismatch { index: usize, expected: u64, actual: u64 },
    ReadySetMismatch { index: usize, time_nanos: u64, expected: Seq<u64>, actual: Seq<u64> },
    ChosenTaskNotFound { index: usize, time_nanos: u64, chosen: u64, ready: Seq<u64> },
}

impl View for ReplayReadyTaskError {
    type V = ReplayReadyTaskErrorView;

    open spec fn view(&self) -> ReplayReadyTaskErrorView {
        match *self {
            ReplayReadyTaskError::OutOfDecisions { index, time_nanos, ready_task_ids } => {
                ReplayReadyTaskErrorView::OutOfDecisions {
                    index,
                    time_nanos,
                    ready_task_ids: ready_task_ids@,
                }
            },
            ReplayReadyTaskError::TimeMismatch { index, expected, actual } => {
                ReplayReadyTaskErrorView::TimeMismatch { index, expected, actual }
            },
            ReplayReadyTaskError::ReadySetMismatch { index, time_nanos, expected, actual } => {
                ReplayReadyTaskErrorView::ReadySetMismatch {
                    index,
                    time_nanos,
                    expected: expected@,
                    actual: actual@,
                }
            },
            ReplayReadyTaskError::ChosenTaskNotFound { index, time_nanos, chosen, ready } => {
                ReplayReadyTaskErrorView::ChosenTaskNotFound {
                    index,
                    time_nanos,
                    chosen,
                    ready: ready@,
                }
            },
        }
    }
}

impl Clone for ReplayReadyTaskError {
    fn clone(&self) -> (copy: Self)
        ensures
            copy@ == self@,
    {
        match self {
            ReplayReadyTaskError::OutOfDecisions { index, time_nanos, ready_task_ids } => {
                ReplayReadyTaskError::OutOfDecisions {
                    index: *index,
                    time_nanos: *time_nanos,
                    ready_task_ids: copied_ids(ready_task_ids),
                }
            },
            ReplayReadyTaskError::TimeMismatch { index, expected, actual } => {
                ReplayReadyTaskError::TimeMismatch {
                    index: *index,
                    expected: *expected,
                    actual: *actual,
                }
            },
            ReplayReadyTaskError::ReadySetMismatch { index, time_nanos, expected, actual } => {
                ReplayReadyTaskError::ReadySetMismatch {
                    index: *index,
                    time_nanos: *time_nanos,
                    expected: copied_ids(expected),
                    actual: copied_ids(actual),
                }
            },
            ReplayReadyTaskError::ChosenTaskNotFound { index, time_nanos, chosen, ready } => {
                ReplayReadyTaskError::ChosenTaskNotFound {
                    index: *index,
                    time_nanos: *time_nanos,
                    chosen: *chosen,
                    ready: copied_ids(ready),
                }
            },
        }
    }
}

/// The error that there may be.
pub open spec fn ready_error_view(error: Option<ReplayReadyTaskError>) -> Option<
    ReplayReadyTaskErrorView,
> {
    match error {
        Some(e) => Some(e@),
        None => None,
    }
}

/// A policy that repeats the choices of a trace, and notes where the run leaves it.
/// A trace without such choices is followed first in, first out.
pub struct ReplayReadyTaskPolicy {
    decisions: Vec<AsyncRuntimeDecision>,
    next: usize,
    error: Option<ReplayReadyTaskError>,
    fifo_fallback: bool,
}

/// The choices to be repeated, the number of those that were, the first error, and
/// whether there is nothing to repeat.
#[verifier::ext_equal]
pub struct ReplayReadyTaskView {
    pub decisions: Seq<AsyncRuntimeDecisionView>,
    pub next: usize,
    pub error: Option<ReplayReadyTaskErrorView>,
    pub fifo_fallback: bool,
}

/// The views of some choices.
pub open spec fn ready_decision_views(s: Seq<AsyncRuntimeDecision>) -> Seq<
    AsyncRuntimeDecisionView,
> {
    s.map_values(|d: AsyncRuntimeDecision| d@)
}

impl View for ReplayReadyTaskPolicy {
    type V = ReplayReadyTaskView;

    closed spec fn view(&self) -> ReplayReadyTaskView {
        ReplayReadyTaskView {
            decisions: ready_decision_views(self.decisions@),
            next: self.next,
            error: ready_error_view(self.error),
            fifo_fallback: self.fifo_fallback,
        }
    }
}

/// The choices among ready tasks in a trace, in their order.
pub open spec fn ready_decisions(events: Seq<TraceEventView>) -> Seq<AsyncRuntimeDecisionView>
    decreases events.len(),
{
    if events.len() == 0 {
        Seq::empty()
    } else {
        let front = ready_decisions(events.drop_last());
        match events.last() {
            TraceEventView::AsyncRuntimeDecision(d) => front.push(d),
            _ => front,
        }
    }
}

/// What a recorded choice means for the tasks that are ready: the index to be taken,
/// and the error if it cannot be followed. Ready tasks are compared as sets.
pub open spec fn followed_ready_decision(
    decision: AsyncRuntimeDecisionView,
    index: usize,
    time: u64,
    ids: Seq<u64>,
) -> (usize, Option<ReplayReadyTaskErrorView>) {
    let expected = decision.ready_task_ids;
    if decision.time_nanos != time {
        (
            0,
            Some(
                ReplayReadyTaskErrorView::TimeMismatch {
                    index,
                    expected: decision.time_nanos,
                    actual: time,
                },
            ),
        )
    } else if expected.len() > 0 && crate::explore::choices::normal_form(expected)
        != crate::explore::choices::normal_form(ids) {
        (
            0,
            Some(
                ReplayReadyTaskErrorView::ReadySetMismatch {
                    index,
                    time_nanos: time,
                    expected,
                    actual: ids,
                },
            ),
        )
    } else if decision.chosen_task_id is Some {
        match crate::explore::choices::id_position(ids, decision.chosen_task_id->0) {
            Some(i) => (i, None),
            None => (
                0,
                Some(
                    ReplayReadyTaskErrorView::ChosenTaskNotFound {
                        index,
                        time_nanos: time,
                        chosen: decision.chosen_task_id->0,
                        ready: ids,
                    },
                ),
            ),
        }
    } else {
        (crate::explore::choices::bounded_index(decision.chosen_index, ids.len()), None)
    }
}

impl ReplayReadyTaskView {
    /// The index that is selected, and the policy afterwards. After an error
    /// nothing changes any more.
    pub open spec fn replayed(self, time: u64, ids: Seq<u64>) -> (usize, Self) {
        if self.error is Some || self.fifo_fallback {
            (0, self)
        } else if self.next >= self.decisions.len() {
            (
                0,
                ReplayReadyTaskView {
                    error: Some(
                        ReplayReadyTaskErrorView::OutOfDecisions {
                            index: self.next,
                            time_nanos: time,
                            ready_task_ids: ids,
                        },
                    ),
                    ..self
                },
            )
        } else {
            let (index, error) = followed_ready_decision(
                self.decisions[self.next as int],
                self.next,
                time,
                ids,
            );
            (index, ReplayReadyTaskView { next: (self.next + 1) as usize, error, ..self })
        }
    }
}

/// Works out what a recorded choice means for the tasks that are ready.
fn follow_ready_decision(
    decision: &AsyncRuntimeDecision,
    index: usize,
    time: u64,
    ids: Vec<u64>,
) -> (r: (usize, Option<ReplayReadyTaskError>))
    ensures
        (r.0, ready_error_view(r.1)) == followed_ready_decision(decision@, index, time, ids@),
{
    if decision.time_nanos != time {
        return (
            0,
            Some(
                ReplayReadyTaskError::TimeMismatch {
                    index,
                    expected: decision.time_nanos,
                    actual: time,
                },
            ),
        );
    }
    if decision.ready_task_ids.len() > 0 {
        let expected = normalized_ids(&decision.ready_task_ids);
        let actual = normalized_ids(&ids);
        if !same_ids(&expected, &actual) {
            return (
                0,
                Some(
                    ReplayReadyTaskError::ReadySetMismatch {
                        index,
                        time_nanos: decision.time_nanos,
                        expected: copied_ids(&decision.ready_task_ids),
                        actual: ids,
                    },
                ),
            );
        }
    }
    if let Some(chosen) = decision.chosen_task_id {
        return match find_id(&ids, chosen) {
            Some(i) => (i, None),
            None => (
                0,
                Some(
                    ReplayReadyTaskError::ChosenTaskNotFound {
                        index,
                        time_nanos: decision.time_nanos,
                        chosen,
                        ready: ids,
                    },
                ),
            ),
        };
    }
    (bound_index(decision.chosen_index, ids.len()), None)
}

impl ReplayReadyTaskPolicy {
    /// Makes a policy that repeats the choices among ready tasks of a trace.
    pub fn from_trace_events(events: &Vec<TraceEvent>) -> (policy: Self)
        ensures
            ({
                let decisions = ready_decisions(crate::explore::trace::event_views(events@));
                policy@ == (ReplayReadyTaskView {
                    decisions,
                    next: 0,
                    error: None,
                    fifo_fallback: decisions.len() == 0,
                })
            }),
    {
        let ghost views = crate::explore::trace::event_views(events@);
        let mut decisions: Vec<AsyncRuntimeDecision> = Vec::new();
        let mut i: usize = 0;
        while i < events.len()
            invariant
                i <= events@.len(),
                views == crate::explore::trace::event_views(events@),
                ready_decision_views(decisions@) == ready_decisions(views.take(i as int)),
            decreases events@.len() - i,
        {
            let ghost before = decisions@;
            proof {
                assert(views.take(i + 1).drop_last() =~= views.take(i as int));
                assert(views.take(i + 1).last() == events@[i as int]@);
            }
            if let TraceEvent::AsyncRuntimeDecision(d) = &events[i] {
                let decision = d.clone();
                decisions.push(decision);
                proof {
                    assert(ready_decision_views(decisions@) =~= ready_decision_views(before).push(
                        decision@,
                    ));
                }
            }
            i = i + 1;
        }
        proof {
            assert(views.take(i as int) =~= views);
            assert(ready_decision_views(decisions@).len() == decisions@.len());
        }
        let fifo_fallback = decisions.len() == 0;
        ReplayReadyTaskPolicy { decisions, next: 0, error: None, fifo_fallback }
    }

    /// Whether there is nothing to repeat, so that tasks are taken first in, first
    /// out.
    pub fn is_fifo_fallback(&self) -> (fallback: bool)
        ensures
            fallback == self@.fifo_fallback,
    {
        self.fifo_fallback
    }

    /// The first error.
    pub fn error(&self) -> (error: Option<ReplayReadyTaskError>)
        ensures
            ready_error_view(error) == self@.error,
    {
        match &self.error {
            Some(e) => Some(e.clone()),
            None => None,
        }
    }

    /// Takes the first error out, so that the policy goes on.
    pub fn take_error(&mut self) -> (error: Option<ReplayReadyTaskError>)
        ensures
            ready_error_view(error) == old(self)@.error,
            final(self)@ == (ReplayReadyTaskView { error: None, ..old(self)@ }),
    {
        let error = self.error.take();
        proof {
            assert(self@ =~= ReplayReadyTaskView { error: None, ..old(self)@ });
        }
        error
    }
}

impl ReadyTaskPolicy for ReplayReadyTaskPolicy {
    open spec fn selects(
        before: Self,
        time: SimTime,
        ready: Seq<TaskId>,
        after: Self,
        index: usize,
    ) -> bool {
        (index, after@) == before@.replayed(time.0, crate::ready_policy::ids_of(ready))
    }

    fn select(&mut self, time: SimTime, ready: &[TaskId]) -> (index: usize) {
        if self.error.is_some() || self.fifo_fallback {
            return 0;
        }
        let ids = ready_ids(ready);
        let index: usize = self.next;
        if index >= self.decisions.len() {
            self.error = Some(
                ReplayReadyTaskError::OutOfDecisions {
                    index,
                    time_nanos: time.0,
                    ready_task_ids: ids,
                },
            );
            return 0;
        }
        self.next = index + 1;
        let (chosen, error) = follow_ready_decision(&self.decisions[index], index, time.0, ids);
        self.error = error;
        proof {
            assert(old(self)@.decisions[index as int] == old(self).decisions@[index as int]@);
        }
        chosen
    }
}

/// A choice that was recorded is repeated: on the same tasks at the same time, in
/// whatever order they now stand, the same task is selected, without an error, and
/// the next recorded choice is next.
pub proof fn ready_replay_repeats_a_recorded_choice(
    replay: ReplayReadyTaskView,
    time: SimTime,
    recorded: Seq<TaskId>,
    index: usize,
    ready: Seq<TaskId>,
)
    requires
        replay.error is None,
        !replay.fifo_fallback,
        replay.next < replay.decisions.len(),
        replay.decisions[replay.next as int] == recorded_ready_decision(time, recorded, index),
        index < recorded.len(),
        ready.len() <= usize::MAX,
        forall|t: TaskId| recorded.contains(t) <==> ready.contains(t),
    ensures
        ({
            let (i, after) = replay.replayed(time.0, crate::ready_policy::ids_of(ready));
            &&& i < ready.len()
            &&& ready[i as int] == recorded[index as int]
            &&& after == (ReplayReadyTaskView { next: (replay.next + 1) as usize, ..replay })
        }),
{
    let a = crate::ready_policy::ids_of(recorded);
    let b = crate::ready_policy::ids_of(ready);
    assert forall|id: u64| a.contains(id) <==> b.contains(id) by {
        lemma_ids_of_contains(recorded, id);
        lemma_ids_of_contains(ready, id);
    }
    crate::explore::choices::normal_form_forgets_order_and_repetition(a, b);
    let id = recorded[index as int].0;
    assert(a[index as int] == id);
    assert(a.contains(id));
    assert(b.contains(id));
    crate::explore::frontier::position_exists(b, id);
}

proof fn lemma_ids_of_contains(s: Seq<TaskId>, id: u64)
    ensures
        crate::ready_policy::ids_of(s).contains(id) <==> s.contains(TaskId(id)),
{
    let ids = crate::ready_policy::ids_of(s);
    if ids.contains(id) {
        let i = choose|i: int| 0 <= i < ids.len() && ids[i] == id;
        assert(s[i] == TaskId(id));
    }
    if s.contains(TaskId(id)) {
        let i = choose|i: int| 0 <= i < s.len() && s[i] == TaskId(id);
        assert(ids[i] == id);
    }
}

/// After an error a replay selects the first index and changes no more: the first
/// error stays.
pub proof fn ready_replay_keeps_its_first_error(
    replay: ReplayReadyTaskView,
    time: u64,
    ids: Seq<u64>,
)
    requires
        replay.error is Some,
    ensures
        replay.replayed(time, ids) == (0usize, replay),
{
}

/// A replay of a trace without choices among ready tasks always takes the first one
/// and never fails.
pub proof fn ready_replay_without_choices_is_fifo(
    replay: ReplayReadyTaskView,
    time: u64,
    ids: Seq<u64>,
)
    requires
        replay.fifo_fallback,
    ensures
        replay.replayed(time, ids) == (0usize, replay),
{
}

/// The recorded choices of a recording are those that a replay of its trace has.
pub proof fn ready_recording_is_what_a_replay_reads(
    events: Seq<TraceEventView>,
    decision: AsyncRuntimeDecisionView,
)
    ensures
        ready_decisions(events.push(TraceEventView::AsyncRuntimeDecision(decision)))
            == ready_decisions(events).push(decision),
{
    let longer = events.push(TraceEventView::AsyncRuntimeDecision(decision));
    assert(longer.drop_last() =~= events);
}

} // verus!
