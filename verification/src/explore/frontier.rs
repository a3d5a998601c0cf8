//! Recording, replaying and scripting the choices among events that are due at the
//! same time.

use crate::event::{FrontierEvent, FrontierEventKind};
use crate::explore::choices::{bound_index, copied_ids, find_id, same_ids};
use crate::explore::schedule_explore::{
    scheduler_choice_set, DecisionKey, DecisionKeyView, DecisionKind, DecisionScript,
};
use crate::explore::trace::{
    FrontierEntry, FrontierEntryView, FrontierKind, SchedulerDecision, SchedulerDecisionView,
    TraceEvent, TraceEventView, TraceRecorder,
};
use crate::frontier_policy::{frontier_seqs, EventFrontierPolicy};
use crate::ids::uuid_string;
use crate::time::SimTime;
use vstd::prelude::*;

verus! {

/// The kind of an event, as it stands in a trace.
pub open spec fn trace_kind(kind: FrontierEventKind) -> FrontierKind {
    match kind {
        FrontierEventKind::Component => FrontierKind::Component,
        FrontierEventKind::Task => FrontierKind::Task,
    }
}

fn kind_to_trace(kind: FrontierEventKind) -> (k: FrontierKind)
    ensures
        k == trace_kind(kind),
{
    match kind {
        FrontierEventKind::Component => FrontierKind::Component,
        FrontierEventKind::Task => FrontierKind::Task,
    }
}

/// An event that is due, as it stands in a trace: identifiers are written as text.
pub open spec fn trace_entry(event: FrontierEvent) -> FrontierEntryView {
    FrontierEntryView {
        seq: event.seq,
        kind: trace_kind(event.kind),
        component_id: match event.component_id {
            Some(id) => Some(crate::ids::uuid_text(crate::ids::uuid_value(id))),
            None => None,
        },
        task_id: match event.task_id {
            Some(id) => Some(crate::task_id::task_text(id.value())),
            None => None,
        },
    }
}

fn to_frontier_entry(event: &FrontierEvent) -> (entry: FrontierEntry)
    ensures
        entry@ == trace_entry(*event),
{
    FrontierEntry {
        seq: event.seq,
        kind: kind_to_trace(event.kind),
        component_id: match event.component_id {
            Some(id) => Some(uuid_string(id)),
            None => None,
        },
        task_id: match event.task_id {
            Some(id) => Some(id.to_string()),
            None => None,
        },
    }
}

/// The events that are due, as they stand in a trace.
pub open spec fn trace_entries(frontier: Seq<FrontierEvent>) -> Seq<FrontierEntryView> {
    frontier.map_values(|e: FrontierEvent| trace_entry(e))
}

/// The decision that a choice is recorded as.
pub open spec fn recorded_decision(
    time: SimTime,
    frontier: Seq<FrontierEvent>,
    index: usize,
) -> SchedulerDecisionView {
    SchedulerDecisionView {
        time_nanos: time.0,
        chosen_index: index,
        chosen_seq: if index < frontier.len() {
            Some(frontier[index as int].seq)
        } else {
            None
        },
        frontier_seqs: crate::frontier_policy::seqs_of(frontier),
        frontier: trace_entries(frontier),
    }
}

/// Records the choice of an index, and gives back the index that the choice stands
/// for: the last one where it is too large.
pub fn record_frontier_choice(
    recorder: &mut TraceRecorder,
    time: SimTime,
    frontier: &[FrontierEvent],
    chosen: usize,
) -> (index: usize)
    ensures
        index == crate::explore::choices::bounded_index(chosen, frontier@.len()),
        final(recorder)@ == old(recorder)@.with(
            TraceEventView::SchedulerDecision(recorded_decision(time, frontier@, index)),
        ),
{
    let index = bound_index(chosen, frontier.len());
    let chosen_seq = if index < frontier.len() {
        Some(frontier[index].seq)
    } else {
        None
    };
    let mut entries: Vec<FrontierEntry> = Vec::new();
    let mut i: usize = 0;
    while i < frontier.len()
        invariant
            i <= frontier@.len(),
            crate::explore::trace::entry_views(entries@) == trace_entries(frontier@.take(i as int)),
        decreases frontier@.len() - i,
    {
        let ghost before = entries@;
        let entry = to_frontier_entry(&frontier[i]);
        entries.push(entry);
        proof {
            assert(crate::explore::trace::entry_views(entries@)
                =~= crate::explore::trace::entry_views(before).push(entry@));
            assert(trace_entries(frontier@.take(i + 1)) =~= trace_entries(
                frontier@.take(i as int),
            ).push(trace_entry(frontier@[i as int])));
        }
        i = i + 1;
    }
    proof {
        assert(frontier@.take(i as int) =~= frontier@);
    }
    recorder.record(
        TraceEvent::SchedulerDecision(
            SchedulerDecision {
                time_nanos: time.0,
                chosen_index: index,
                chosen_seq,
                frontier_seqs: frontier_seqs(frontier),
                frontier: entries,
            },
        ),
    );
    index
}

/// A policy that records what another one selects.
pub struct RecordingFrontierPolicy<P> {
    pub inner: P,
    pub recorder: TraceRecorder,
}

impl<P> RecordingFrontierPolicy<P> {
    pub fn new(inner: P, recorder: TraceRecorder) -> (policy: Self)
        ensures
            policy == (RecordingFrontierPolicy { inner, recorder }),
    {
        RecordingFrontierPolicy { inner, recorder }
    }

    pub fn inner_mut(&mut self) -> (inner: &mut P)
        ensures
            *inner == old(self).inner,
            *final(self) == (RecordingFrontierPolicy { inner: *final(inner), ..*old(self) }),
    {
        &mut self.inner
    }
}

impl<P: EventFrontierPolicy> EventFrontierPolicy for RecordingFrontierPolicy<P> {
    open spec fn selects(
        before: Self,
        time: SimTime,
        frontier: Seq<FrontierEvent>,
        after: Self,
        index: usize,
    ) -> bool {
        exists|chosen: usize|
            {
                &&& #[trigger] P::selects(before.inner, time, frontier, after.inner, chosen)
                &&& index == crate::explore::choices::bounded_index(chosen, frontier.len())
                &&& after.recorder@ == before.recorder@.with(
                    TraceEventView::SchedulerDecision(recorded_decision(time, frontier, index)),
                )
            }
    }

    fn select(&mut self, time: SimTime, frontier: &[FrontierEvent]) -> (index: usize) {
        let chosen = self.inner.select(time, frontier);
        let index = record_frontier_choice(&mut self.recorder, time, frontier, chosen);
        proof {
            assert(P::selects(old(self).inner, time, frontier@, self.inner, chosen));
        }
        index
    }
}

/// A policy that follows a script where it has a choice, another policy elsewhere,
/// and records what is selected.
pub struct ExplorationFrontierPolicy<P> {
    pub inner: P,
    pub script: Option<DecisionScript>,
    pub recorder: TraceRecorder,
    pub next_ordinal: u64,
}

/// The key of a choice among events.
pub open spec fn frontier_key(
    time: SimTime,
    ordinal: u64,
    frontier: Seq<FrontierEvent>,
) -> DecisionKeyView {
    (DecisionKeyView {
        kind: DecisionKind::Frontier,
        time_nanos: time.0,
        ordinal,
        choice_set: crate::frontier_policy::seqs_of(frontier),
    }).normal()
}

/// The index that a script has for a key: nothing where it has no choice, or one
/// that is not among the alternatives.
pub open spec fn scripted_index(
    script: Option<DecisionScript>,
    key: DecisionKeyView,
    ids: Seq<u64>,
) -> Option<usize> {
    match script {
        Some(s) if s@.contains_key(key) => crate::explore::choices::id_position(ids, s@[key]),
        _ => None,
    }
}

/// Looks up the index that a script has for a key.
pub fn index_in_script(script: &Option<DecisionScript>, key: &DecisionKey, ids: &Vec<u64>) -> (index:
    Option<usize>)
    requires
        key@.normal() == key@,
    ensures
        index == scripted_index(*script, key@, ids@),
        index is Some ==> index->0 < ids@.len(),
{
    match script {
        None => None,
        Some(s) => match s.get(key) {
            None => None,
            Some(id) => find_id(ids, id),
        },
    }
}

impl<P> ExplorationFrontierPolicy<P> {
    pub fn new(inner: P, script: Option<DecisionScript>, recorder: TraceRecorder) -> (policy: Self)
        ensures
            policy == (ExplorationFrontierPolicy { inner, script, recorder, next_ordinal: 0 }),
    {
        ExplorationFrontierPolicy { inner, script, recorder, next_ordinal: 0 }
    }

    pub fn inner_mut(&mut self) -> (inner: &mut P)
        ensures
            *inner == old(self).inner,
            *final(self) == (ExplorationFrontierPolicy { inner: *final(inner), ..*old(self) }),
    {
        &mut self.inner
    }

    /// The index that the script has for the next choice.
    pub open spec fn forced(self, time: SimTime, frontier: Seq<FrontierEvent>) -> Option<usize> {
        scripted_index(
            self.script,
            frontier_key(time, self.next_ordinal, frontier),
            crate::frontier_policy::seqs_of(frontier),
        )
    }
}

impl<P: EventFrontierPolicy> EventFrontierPolicy for ExplorationFrontierPolicy<P> {
    open spec fn selects(
        before: Self,
        time: SimTime,
        frontier: Seq<FrontierEvent>,
        after: Self,
        index: usize,
    ) -> bool {
        &&& match before.forced(time, frontier) {
            Some(i) => index == i && after.inner == before.inner,
            None => exists|chosen: usize| #[trigger]
                P::selects(before.inner, time, frontier, after.inner, chosen) && index
                    == crate::explore::choices::bounded_index(chosen, frontier.len()),
        }
        &&& after.script == before.script
        &&& after.next_ordinal == before.next_ordinal.wrapping_add(1)
        &&& after.recorder@ == before.recorder@.with(
            TraceEventView::SchedulerDecision(recorded_decision(time, frontier, index)),
        )
    }

    fn select(&mut self, time: SimTime, frontier: &[FrontierEvent]) -> (index: usize) {
        let ids = frontier_seqs(frontier);
        let ordinal: u64 = self.next_ordinal;
        self.next_ordinal = ordinal.wrapping_add(1);
        let key = DecisionKey::new(DecisionKind::Frontier, time.0, ordinal, copied_ids(&ids));
        proof {
            crate::explore::choices::normal_form_is_idempotent(ids@);
        }
        let chosen = match index_in_script(&self.script, &key, &ids) {
            Some(i) => i,
            None => self.inner.select(time, frontier),
        };
        let index = record_frontier_choice(&mut self.recorder, time, frontier, chosen);
        proof {
            if old(self).forced(time, frontier@) is None {
                assert(P::selects(old(self).inner, time, frontier@, self.inner, chosen));
            }
        }
        index
    }
}

/// Why a run does not follow a trace in its choices among events.
#[derive(Debug, PartialEq, Eq)]
pub enum ReplayFrontierError {
    /// There are more choices than in the trace.
    OutOfDecisions { index: usize, time_nanos: u64, frontier_seqs: Vec<u64> },
    /// A choice comes at another time.
    TimeMismatch { index: usize, expected: u64, actual: u64 },
    /// A choice is among other events.
    FrontierMismatch { index: usize, time_nanos: u64, expected: Vec<u64>, actual: Vec<u64> },
    /// The recorded event is not there.
    ChosenSeqNotFound { index: usize, time_nanos: u64, chosen: u64, frontier: Vec<u64> },
    /// The recorded index is too large.
    ChosenIndexOutOfBounds {
        index: usize,
        time_nanos: u64,
        chosen_index: usize,
        frontier_len: usize,
    },
}

pub enum ReplayFrontierErrorView {
    OutOfDecisions { index: usize, time_nanos: u64, frontier_seqs: Seq<u64> },
    TimeMismatch { index: usize, expected: u64, actual: u64 },
    FrontierMismatch { index: usize, time_nanos: u64, expected: Seq<u64>, actual: Seq<u64> },
    ChosenSeqNotFound { index: usize, time_nanos: u64, chosen: u64, frontier: Seq<u64> },
    ChosenIndexOutOfBounds {
        index: usize,
        time_nanos: u64,
        chosen_index: usize,
        frontier_len: usize,
    },
}

impl View for ReplayFrontierError {
    type V = ReplayFrontierErrorView;

    open spec fn view(&self) -> ReplayFrontierErrorView {
        match *self {
            ReplayFrontierError::OutOfDecisions { index, time_nanos, frontier_seqs } => {
                ReplayFrontierErrorView::OutOfDecisions {
                    index,
                    time_nanos,
                    frontier_seqs: frontier_seqs@,
                }
            },
            ReplayFrontierError::TimeMismatch { index, expected, actual } => {
                ReplayFrontierErrorView::TimeMismatch { index, expected, actual }
            },
            ReplayFrontierError::FrontierMismatch { index, time_nanos, expected, actual } => {
                ReplayFrontierErrorView::FrontierMismatch {
                    index,
                    time_nanos,
                    expected: expected@,
                    actual: actual@,
                }
            },
            ReplayFrontierError::ChosenSeqNotFound { index, time_nanos, chosen, frontier } => {
                ReplayFrontierErrorView::ChosenSeqNotFound {
                    index,
                    time_nanos,
                    chosen,
                    frontier: frontier@,
                }
            },
            ReplayFrontierError::ChosenIndexOutOfBounds {
                index,
                time_nanos,
                chosen_index,
                frontier_len,
            } => ReplayFrontierErrorView::ChosenIndexOutOfBounds {
                index,
                time_nanos,
                chosen_index,
                frontier_len,
            },
        }
    }
}

impl Clone for ReplayFrontierError {
    fn clone(&self) -> (copy: Self)
        ensures
            copy@ == self@,
    {
        match self {
            ReplayFrontierError::OutOfDecisions { index, time_nanos, frontier_seqs } => {
                ReplayFrontierError::OutOfDecisions {
                    index: *index,
                    time_nanos: *time_nanos,
                    frontier_seqs: copied_ids(frontier_seqs),
                }
            },
            ReplayFrontierError::TimeMismatch { index, expected, actual } => {
                ReplayFrontierError::TimeMismatch {
                    index: *index,
                    expected: *expected,
                    actual: *actual,
                }
            },
            ReplayFrontierError::FrontierMismatch { index, time_nanos, expected, actual } => {
                ReplayFrontierError::FrontierMismatch {
                    index: *index,
                    time_nanos: *time_nanos,
                    expected: copied_ids(expected),
                    actual: copied_ids(actual),
                }
            },
            ReplayFrontierError::ChosenSeqNotFound { index, time_nanos, chosen, frontier } => {
                ReplayFrontierError::ChosenSeqNotFound {
                    index: *index,
                    time_nanos: *time_nanos,
                    chosen: *chosen,
                    frontier: copied_ids(frontier),
                }
            },
            ReplayFrontierError::ChosenIndexOutOfBounds {
                index,
                time_nanos,
                chosen_index,
                frontier_len,
            } => ReplayFrontierError::ChosenIndexOutOfBounds {
                index: *index,
                time_nanos: *time_nanos,
                chosen_index: *chosen_index,
                frontier_len: *frontier_len,
            },
        }
    }
}

/// The error that there may be.
pub open spec fn frontier_error_view(error: Option<ReplayFrontierError>) -> Option<
    ReplayFrontierErrorView,
> {
    match error {
        Some(e) => Some(e@),
        None => None,
    }
}

/// A policy that repeats the choices of a trace, and notes where the run leaves it.
pub struct ReplayFrontierPolicy {
    decisions: Vec<SchedulerDecision>,
    next: usize,
    error: Option<ReplayFrontierError>,
}

/// The choices to be repeated, the number of those that were, and the first error.
#[verifier::ext_equal]
pub struct ReplayFrontierView {
    pub decisions: Seq<SchedulerDecisionView>,
    pub next: usize,
    pub error: Option<ReplayFrontierErrorView>,
}

/// The views of some choices.
pub open spec fn decision_views(s: Seq<SchedulerDecision>) -> Seq<SchedulerDecisionView> {
    s.map_values(|d: SchedulerDecision| d@)
}

impl View for ReplayFrontierPolicy {
    type V = ReplayFrontierView;

    closed spec fn view(&self) -> ReplayFrontierView {
        ReplayFrontierView {
            decisions: decision_views(self.decisions@),
            next: self.next,
            error: frontier_error_view(self.error),
        }
    }
}

/// The choices among events in a trace, in their order.
pub open spec fn scheduler_decisions(events: Seq<TraceEventView>) -> Seq<SchedulerDecisionView>
    decreases events.len(),
{
    if events.len() == 0 {
        Seq::empty()
    } else {
        let front = scheduler_decisions(events.drop_last());
        match events.last() {
            TraceEventView::SchedulerDecision(d) => front.push(d),
            _ => front,
        }
    }
}

/// What a recorded choice means for the events that are due: the index to be taken,
/// and the error if it cannot be followed.
pub open spec fn followed_decision(
    decision: SchedulerDecisionView,
    index: usize,
    time: u64,
    seqs: Seq<u64>,
) -> (usize, Option<ReplayFrontierErrorView>) {
    let expected = crate::explore::schedule_explore::scheduler_alternatives(decision);
    if decision.time_nanos != time {
        (
            0,
            Some(
                ReplayFrontierErrorView::TimeMismatch {
                    index,
                    expected: decision.time_nanos,
                    actual: time,
                },
            ),
        )
    } else if expected.len() > 0 && expected != seqs {
        (
            0,
            Some(
                ReplayFrontierErrorView::FrontierMismatch {
                    index,
                    time_nanos: time,
                    expected,
                    actual: seqs,
                },
            ),
        )
    } else if decision.chosen_seq is Some {
        match crate::explore::choices::id_position(seqs, decision.chosen_seq->0) {
            Some(i) => (i, None),
            None => (
                0,
                Some(
                    ReplayFrontierErrorView::ChosenSeqNotFound {
                        index,
                        time_nanos: time,
                        chosen: decision.chosen_seq->0,
                        frontier: seqs,
                    },
                ),
            ),
        }
    } else if seqs.len() == 0 {
        (0, None)
    } else if decision.chosen_index >= seqs.len() {
        (
            (seqs.len() - 1) as usize,
            Some(
                ReplayFrontierErrorView::ChosenIndexOutOfBounds {
                    index,
                    time_nanos: time,
                    chosen_index: decision.chosen_index,
                    frontier_len: seqs.len() as usize,
                },
            ),
        )
    } else {
        (decision.chosen_index, None)
    }
}

impl ReplayFrontierView {
    /// The index that is selected, and the policy afterwards. After an error
    /// nothing changes any more.
    pub open spec fn replayed(self, time: u64, seqs: Seq<u64>) -> (usize, Self) {
        if self.error is Some {
            (0, self)
        } else if self.next >= self.decisions.len() {
            (
                0,
                ReplayFrontierView {
                    error: Some(
                        ReplayFrontierErrorView::OutOfDecisions {
                            index: self.next,
                            time_nanos: time,
                            frontier_seqs: seqs,
                        },
                    ),
                    ..self
                },
            )
        } else {
            let (index, error) = followed_decision(
                self.decisions[self.next as int],
                self.next,
                time,
                seqs,
            );
            (index, ReplayFrontierView { next: (self.next + 1) as usize, error, ..self })
        }
    }
}

/// Works out what a recorded choice means for the events that are due.
fn follow_decision(decision: &SchedulerDecision, index: usize, time: u64, seqs: Vec<u64>) -> (r: (
    usize,
    Option<ReplayFrontierError>,
))
    ensures
        (r.0, frontier_error_view(r.1)) == followed_decision(decision@, index, time, seqs@),
{
    if decision.time_nanos != time {
        return (
            0,
            Some(
                ReplayFrontierError::TimeMismatch {
                    index,
                    expected: decision.time_nanos,
                    actual: time,
                },
            ),
        );
    }
    let expected = scheduler_choice_set(decision);
    if expected.len() > 0 && !same_ids(&expected, &seqs) {
        return (
            0,
            Some(
                ReplayFrontierError::FrontierMismatch {
                    index,
                    time_nanos: decision.time_nanos,
                    expected,
                    actual: seqs,
                },
            ),
        );
    }
    if let Some(chosen) = decision.chosen_seq {
        return match find_id(&seqs, chosen) {
            Some(i) => (i, None),
            None => (
                0,
                Some(
                    ReplayFrontierError::ChosenSeqNotFound {
                        index,
                        time_nanos: decision.time_nanos,
                        chosen,
                        frontier: seqs,
                    },
                ),
            ),
        };
    }
    if seqs.len() == 0 {
        return (0, None);
    }
    if decision.chosen_index >= seqs.len() {
        return (
            seqs.len() - 1,
            Some(
                ReplayFrontierError::ChosenIndexOutOfBounds {
                    index,
                    time_nanos: decision.time_nanos,
                    chosen_index: decision.chosen_index,
                    frontier_len: seqs.len(),
                },
            ),
        );
    }
    (decision.chosen_index, None)
}

impl ReplayFrontierPolicy {
    /// Makes a policy that repeats the choices among events of a trace.
    pub fn from_trace_events(events: &Vec<TraceEvent>) -> (policy: Self)
        ensures
            policy@ == (ReplayFrontierView {
                decisions: scheduler_decisions(crate::explore::trace::event_views(events@)),
                next: 0,
                error: None,
            }),
    {
        let ghost views = crate::explore::trace::event_views(events@);
        let mut decisions: Vec<SchedulerDecision> = Vec::new();
        let mut i: usize = 0;
        while i < events.len()
            invariant
                i <= events@.len(),
                views == crate::explore::trace::event_views(events@),
                decision_views(decisions@) == scheduler_decisions(views.take(i as int)),
            decreases events@.len() - i,
        {
            let ghost before = decisions@;
            proof {
                assert(views.take(i + 1).drop_last() =~= views.take(i as int));
                assert(views.take(i + 1).last() == events@[i as int]@);
            }
            if let TraceEvent::SchedulerDecision(d) = &events[i] {
                let decision = d.clone();
                decisions.push(decision);
                proof {
                    assert(decision_views(decisions@) =~= decision_views(before).push(decision@));
                }
            }
            i = i + 1;
        }
        proof {
            assert(views.take(i as int) =~= views);
        }
        ReplayFrontierPolicy { decisions, next: 0, error: None }
    }

    /// The first error.
    pub fn error(&self) -> (error: Option<ReplayFrontierError>)
        ensures
            frontier_error_view(error) == self@.error,
    {
        match &self.error {
            Some(e) => Some(e.clone()),
            None => None,
        }
    }

    /// Takes the first error out, so that the policy goes on.
    pub fn take_error(&mut self) -> (error: Option<ReplayFrontierError>)
        ensures
            frontier_error_view(error) == old(self)@.error,
            final(self)@ == (ReplayFrontierView { error: None, ..old(self)@ }),
    {
        let error = self.error.take();
        proof {
            assert(self@ =~= ReplayFrontierView { error: None, ..old(self)@ });
        }
        error
    }
}

impl EventFrontierPolicy for ReplayFrontierPolicy {
    open spec fn selects(
        before: Self,
        time: SimTime,
        frontier: Seq<FrontierEvent>,
        after: Self,
        index: usize,
    ) -> bool {
        (index, after@) == before@.replayed(time.0, crate::frontier_policy::seqs_of(frontier))
    }

    fn select(&mut self, time: SimTime, frontier: &[FrontierEvent]) -> (index: usize) {
        if self.error.is_some() {
            return 0;
        }
        let seqs = frontier_seqs(frontier);
        let index: usize = self.next;
        if index >= self.decisions.len() {
            self.error = Some(
                ReplayFrontierError::OutOfDecisions {
                    index,
                    time_nanos: time.0,
                    frontier_seqs: seqs,
                },
            );
            return 0;
        }
        self.next = index + 1;
        let (chosen, error) = follow_decision(&self.decisions[index], index, time.0, seqs);
        self.error = error;
        proof {
            assert(old(self)@.decisions[index as int] == old(self).decisions@[index as int]@);
        }
        chosen
    }
}

/// A choice that was recorded is repeated: on the same events at the same time, the
/// same index is selected, without an error, and the next recorded choice is next.
pub proof fn replay_repeats_a_recorded_choice(
    replay: ReplayFrontierView,
    time: SimTime,
    frontier: Seq<FrontierEvent>,
    index: usize,
)
    requires
        replay.error is None,
        replay.next < replay.decisions.len(),
        replay.decisions[replay.next as int] == recorded_decision(time, frontier, index),
        index < frontier.len(),
        frontier.len() <= usize::MAX,
        forall|i: int, j: int|
            0 <= i < j < frontier.len() ==> (#[trigger] frontier[i]).seq != (
            #[trigger] frontier[j]).seq,
    ensures
        replay.replayed(time.0, crate::frontier_policy::seqs_of(frontier)) == (
            index,
            ReplayFrontierView { next: (replay.next + 1) as usize, ..replay },
        ),
{
    let seqs = crate::frontier_policy::seqs_of(frontier);
    assert(seqs[index as int] == frontier[index as int].seq);
    assert forall|k: int| 0 <= k < index implies seqs[k] != frontier[index as int].seq by {
        assert(frontier[k].seq != frontier[index as int].seq);
    }
    crate::explore::choices::first_position_is_unique(
        seqs,
        frontier[index as int].seq,
        index as int,
    );
}

/// After an error a replay selects the first index and changes no more: the first
/// error stays.
pub proof fn replay_keeps_its_first_error(replay: ReplayFrontierView, time: u64, seqs: Seq<u64>)
    requires
        replay.error is Some,
    ensures
        replay.replayed(time, seqs) == (0usize, replay),
{
}

/// A replay always selects one of the events that are due.
pub proof fn replay_selects_a_due_event(replay: ReplayFrontierView, time: u64, seqs: Seq<u64>)
    requires
        0 < seqs.len() <= usize::MAX,
    ensures
        replay.replayed(time, seqs).0 < seqs.len(),
{
    if replay.error is None && replay.next < replay.decisions.len() {
        let d = replay.decisions[replay.next as int];
        if d.chosen_seq is Some && seqs.contains(d.chosen_seq->0) {
            position_exists(seqs, d.chosen_seq->0);
        }
    }
}

/// An identifier that occurs has a first position.
pub proof fn position_exists(s: Seq<u64>, id: u64)
    requires
        s.contains(id),
        s.len() <= usize::MAX,
    ensures
        crate::explore::choices::id_position(s, id) is Some,
        crate::explore::choices::id_position(s, id)->0 < s.len(),
        s[crate::explore::choices::id_position(s, id)->0 as int] == id,
    decreases s.len(),
{
    let n = lemma_first(s, id, 0);
    crate::explore::choices::first_position_is_unique(s, id, n);
}

proof fn lemma_first(s: Seq<u64>, id: u64, from: int) -> (n: int)
    requires
        0 <= from <= s.len(),
        s.contains(id),
        forall|k: int| 0 <= k < from ==> s[k] != id,
    ensures
        crate::explore::choices::is_first_position(s, id, n),
    decreases s.len() - from,
{
    if from < s.len() && s[from] == id {
        from
    } else {
        if from == s.len() {
            let k = choose|k: int| 0 <= k < s.len() && s[k] == id;
            assert(s[k] != id);
        }
        lemma_first(s, id, from + 1)
    }
}

/// The recorded choices of a recording are those that a replay of its trace has.
pub proof fn recording_is_what_a_replay_reads(
    events: Seq<TraceEventView>,
    decision: SchedulerDecisionView,
)
    ensures
        scheduler_decisions(events.push(TraceEventView::SchedulerDecision(decision)))
            == scheduler_decisions(events).push(decision),
{
    let longer = events.push(TraceEventView::SchedulerDecision(decision));
    assert(longer.drop_last() =~= events);
}

} // verus!
