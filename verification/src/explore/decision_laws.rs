//! What records of decisions tell, how scripts force them, and how replays follow them.

use crate::event::{FrontierEvent, FrontierEventKind};
use crate::explore::frontier::{
    ExplorationFrontierPolicy, RecordingFrontierPolicy, ReplayFrontierErrorView,
    ReplayFrontierPolicy,
};
use crate::explore::ready_task::{
    ExplorationReadyTaskPolicy, RecordingReadyTaskPolicy, ReplayReadyTaskErrorView,
    ReplayReadyTaskPolicy,
};
use crate::explore::replay_rng::ReplayDrawError;
use crate::explore::schedule_explore::{
    DecisionKeyView, DecisionKind, DecisionScript, ObservedDecisionView,
};
use crate::explore::trace::{
    AsyncRuntimeDecisionView, DrawValueView, FrontierKind, RandomDrawView, SchedulerDecisionView,
    TraceEventView,
};
use crate::frontier_policy::EventFrontierPolicy;
use crate::randomness::DrawSite;
use crate::ready_policy::{ReadyTaskPolicy, TaskId};
use crate::time::SimTime;
use vstd::prelude::*;

verus! {

/// The record of a decision tells when it was made, which event was chosen, and all events
/// that could have been, each with its number, kind and the names of what it is for.
pub proof fn record_tells_every_alternative(
    time: SimTime,
    frontier: Seq<FrontierEvent>,
    index: usize,
    i: int,
)
    requires
        index < frontier.len(),
        0 <= i < frontier.len(),
    ensures
        ({
            let d = crate::explore::frontier::recorded_decision(time, frontier, index);
            &&& d.time_nanos == time.0
            &&& d.chosen_index == index
            &&& d.chosen_seq == Some(frontier[index as int].seq)
            &&& d.frontier_seqs.len() == frontier.len()
            &&& d.frontier_seqs[i] == frontier[i].seq
            &&& d.frontier.len() == frontier.len()
            &&& d.frontier[i].seq == frontier[i].seq
            &&& d.frontier[i].kind == FrontierKind::Component <==> frontier[i].kind
                == FrontierEventKind::Component
            &&& d.frontier[i].component_id is Some <==> frontier[i].component_id is Some
            &&& frontier[i].component_id matches Some(id) ==> d.frontier[i].component_id == Some(
                crate::ids::uuid_text(crate::ids::uuid_value(id)),
            )
            &&& d.frontier[i].task_id is Some <==> frontier[i].task_id is Some
            &&& frontier[i].task_id matches Some(id) ==> d.frontier[i].task_id == Some(
                "Task("@ + crate::ids::uuid_text(id.value()) + ")"@,
            )
            &&& crate::explore::schedule_explore::scheduler_chosen(d)
                == frontier[index as int].seq
        }),
{
}

/// The record of a decision between ready tasks tells when it was made, which task was
/// chosen, and all tasks that could have been.
pub proof fn record_tells_every_ready_task(
    time: SimTime,
    ready: Seq<TaskId>,
    index: usize,
    i: int,
)
    requires
        index < ready.len(),
        0 <= i < ready.len(),
    ensures
        ({
            let d = crate::explore::ready_task::recorded_ready_decision(time, ready, index);
            &&& d.time_nanos == time.0
            &&& d.chosen_index == index
            &&& d.chosen_task_id == Some(ready[index as int].0)
            &&& d.ready_task_ids.len() == ready.len()
            &&& d.ready_task_ids[i] == ready[i].0
            &&& crate::explore::schedule_explore::ready_chosen(d) == ready[index as int].0
        }),
{
}

/// A chosen index within what there is to choose from stands for itself, and any other for
/// the last one.
pub proof fn bounded_index_is_within(index: usize, len: nat)
    requires
        len <= usize::MAX,
    ensures
        len > 0 ==> crate::explore::choices::bounded_index(index, len) < len,
        index < len ==> crate::explore::choices::bounded_index(index, len) == index,
        0 < len <= index ==> crate::explore::choices::bounded_index(index, len) + 1 == len,
        len == 0 ==> crate::explore::choices::bounded_index(index, len) == 0,
{
}

/// Recording leaves the choice to the recorded policy, and writes down the one that is taken,
/// behind what was recorded before.
pub proof fn recording_keeps_the_choice<P: EventFrontierPolicy>(
    before: RecordingFrontierPolicy<P>,
    time: SimTime,
    frontier: Seq<FrontierEvent>,
    after: RecordingFrontierPolicy<P>,
    index: usize,
)
    requires
        RecordingFrontierPolicy::<P>::selects(before, time, frontier, after, index),
        0 < frontier.len() <= usize::MAX,
    ensures
        index < frontier.len(),
        exists|chosen: usize| #[trigger]
            P::selects(before.inner, time, frontier, after.inner, chosen) && (chosen
                < frontier.len() ==> index == chosen),
        after.recorder@.events.len() == before.recorder@.events.len() + 1,
        before.recorder@.events.is_prefix_of(after.recorder@.events),
        after.recorder@.meta == before.recorder@.meta,
        after.recorder@.events.last() matches TraceEventView::SchedulerDecision(d)
            && d.chosen_index == index && d.time_nanos == time.0 && d.chosen_seq == Some(
            frontier[index as int].seq,
        ),
{
    let chosen = choose|chosen: usize|
        {
            &&& #[trigger] P::selects(before.inner, time, frontier, after.inner, chosen)
            &&& index == crate::explore::choices::bounded_index(chosen, frontier.len())
            &&& after.recorder@ == before.recorder@.with(
                TraceEventView::SchedulerDecision(
                    crate::explore::frontier::recorded_decision(time, frontier, index),
                ),
            )
        };
    let a = before.recorder@.events;
    assert(a =~= after.recorder@.events.subrange(0, a.len() as int));
}

/// Recording leaves the choice of a ready task to the recorded policy, and writes down the
/// one that is taken, behind what was recorded before.
pub proof fn ready_recording_keeps_the_choice<P: ReadyTaskPolicy>(
    before: RecordingReadyTaskPolicy<P>,
    time: SimTime,
    ready: Seq<TaskId>,
    after: RecordingReadyTaskPolicy<P>,
    index: usize,
)
    requires
        RecordingReadyTaskPolicy::<P>::selects(before, time, ready, after, index),
        0 < ready.len() <= usize::MAX,
    ensures
        index < ready.len(),
        exists|chosen: usize| #[trigger]
            P::selects(before.inner, time, ready, after.inner, chosen) && (chosen < ready.len()
                ==> index == chosen),
        after.recorder@.events.len() == before.recorder@.events.len() + 1,
        before.recorder@.events.is_prefix_of(after.recorder@.events),
        after.recorder@.meta == before.recorder@.meta,
        after.recorder@.events.last() matches TraceEventView::AsyncRuntimeDecision(d)
            && d.chosen_index == index && d.time_nanos == time.0 && d.chosen_task_id == Some(
            ready[index as int].0,
        ),
{
    let chosen = choose|chosen: usize|
        {
            &&& #[trigger] P::selects(before.inner, time, ready, after.inner, chosen)
            &&& index == crate::explore::choices::bounded_index(chosen, ready.len())
            &&& after.recorder@ == before.recorder@.with(
                TraceEventView::AsyncRuntimeDecision(
                    crate::explore::ready_task::recorded_ready_decision(time, ready, index),
                ),
            )
        };
    let a = before.recorder@.events;
    assert(a =~= after.recorder@.events.subrange(0, a.len() as int));
}

/// What a script says of a decision at a time, after a number of others, between some
/// alternatives: the number that it chooses, if it says so.
pub open spec fn script_says(
    script: Option<DecisionScript>,
    kind: DecisionKind,
    time: u64,
    ordinal: u64,
    ids: Seq<u64>,
) -> Option<u64> {
    let key = (DecisionKeyView { kind, time_nanos: time, ordinal, choice_set: ids }).normal();
    match script {
        Some(s) => if s@.contains_key(key) {
            Some(s@[key])
        } else {
            None
        },
        None => None,
    }
}

/// Where a script names one of the events that are due, that event is selected, and the
/// policy is not asked. Else the policy decides. Decisions are counted either way.
pub proof fn script_forces_its_choices<P: EventFrontierPolicy>(
    before: ExplorationFrontierPolicy<P>,
    time: SimTime,
    frontier: Seq<FrontierEvent>,
    after: ExplorationFrontierPolicy<P>,
    index: usize,
)
    requires
        ExplorationFrontierPolicy::<P>::selects(before, time, frontier, after, index),
        0 < frontier.len() <= usize::MAX,
    ensures
        ({
            let ids = crate::frontier_policy::seqs_of(frontier);
            let said = script_says(
                before.script,
                DecisionKind::Frontier,
                time.0,
                before.next_ordinal,
                ids,
            );
            let forced = said is Some && ids.contains(said->0);
            &&& index < frontier.len()
            &&& forced ==> frontier[index as int].seq == said->0 && after.inner == before.inner
            &&& !forced ==> exists|chosen: usize| #[trigger]
                P::selects(before.inner, time, frontier, after.inner, chosen) && (chosen
                    < frontier.len() ==> index == chosen)
            &&& after.script == before.script
            &&& before.next_ordinal < u64::MAX ==> after.next_ordinal == before.next_ordinal + 1
            &&& after.recorder@.events.len() == before.recorder@.events.len() + 1
            &&& after.recorder@.events.drop_last() == before.recorder@.events
            &&& after.recorder@.events.last() matches TraceEventView::SchedulerDecision(d)
                && d.chosen_index == index && d.time_nanos == time.0
        }),
{
    let ids = crate::frontier_policy::seqs_of(frontier);
    let said = script_says(
        before.script,
        DecisionKind::Frontier,
        time.0,
        before.next_ordinal,
        ids,
    );
    assert(after.recorder@.events.drop_last() =~= before.recorder@.events);
    if said is Some && ids.contains(said->0) {
        crate::explore::frontier::position_exists(ids, said->0);
    } else {
        assert(before.forced(time, frontier) is None);
        let chosen = choose|chosen: usize| #[trigger]
            P::selects(before.inner, time, frontier, after.inner, chosen) && index
                == crate::explore::choices::bounded_index(chosen, frontier.len());
        assert(P::selects(before.inner, time, frontier, after.inner, chosen));
    }
}

/// Where a script names one of the ready tasks, that task is selected, and the policy is not
/// asked. Else the policy decides. Decisions are counted either way.
pub proof fn script_forces_its_ready_choices<P: ReadyTaskPolicy>(
    before: ExplorationReadyTaskPolicy<P>,
    time: SimTime,
    ready: Seq<TaskId>,
    after: ExplorationReadyTaskPolicy<P>,
    index: usize,
)
    requires
        ExplorationReadyTaskPolicy::<P>::selects(before, time, ready, after, index),
        0 < ready.len() <= usize::MAX,
    ensures
        ({
            let ids = crate::ready_policy::ids_of(ready);
            let said = script_says(
                before.script,
                DecisionKind::TokioReady,
                time.0,
                before.next_ordinal,
                ids,
            );
            let forced = said is Some && ids.contains(said->0);
            &&& index < ready.len()
            &&& forced ==> ready[index as int].0 == said->0 && after.inner == before.inner
            &&& !forced ==> exists|chosen: usize| #[trigger]
                P::selects(before.inner, time, ready, after.inner, chosen) && (chosen
                    < ready.len() ==> index == chosen)
            &&& after.script == before.script
            &&& before.next_ordinal < u64::MAX ==> after.next_ordinal == before.next_ordinal + 1
            &&& after.recorder@.events.len() == before.recorder@.events.len() + 1
            &&& after.recorder@.events.drop_last() == before.recorder@.events
            &&& after.recorder@.events.last() matches TraceEventView::AsyncRuntimeDecision(d)
                && d.chosen_index == index && d.time_nanos == time.0
        }),
{
    let ids = crate::ready_policy::ids_of(ready);
    let said = script_says(
        before.script,
        DecisionKind::TokioReady,
        time.0,
        before.next_ordinal,
        ids,
    );
    assert(after.recorder@.events.drop_last() =~= before.recorder@.events);
    if said is Some && ids.contains(said->0) {
        crate::explore::frontier::position_exists(ids, said->0);
    } else {
        assert(before.forced(time, ready) is None);
        let chosen = choose|chosen: usize| #[trigger]
            P::selects(before.inner, time, ready, after.inner, chosen) && index
                == crate::explore::choices::bounded_index(chosen, ready.len());
        assert(P::selects(before.inner, time, ready, after.inner, chosen));
    }
}

/// A replay goes on without an error only where the run is at the time of the next recorded
/// decision, has the alternatives that were recorded, and can choose what was chosen; and then
/// it chooses just that.
pub proof fn replay_follows_only_what_was_recorded(
    before: ReplayFrontierPolicy,
    time: SimTime,
    frontier: Seq<FrontierEvent>,
    after: ReplayFrontierPolicy,
    index: usize,
)
    requires
        ReplayFrontierPolicy::selects(before, time, frontier, after, index),
        before@.error is None,
        before@.decisions.len() <= usize::MAX,
        0 < frontier.len() <= usize::MAX,
    ensures
        after@.decisions == before@.decisions,
        before@.next >= before@.decisions.len() ==> after@.next == before@.next && after@.error
            == Some(
            ReplayFrontierErrorView::OutOfDecisions {
                index: before@.next,
                time_nanos: time.0,
                frontier_seqs: crate::frontier_policy::seqs_of(frontier),
            },
        ),
        before@.next < before@.decisions.len() ==> {
            let d = before@.decisions[before@.next as int];
            let seqs = crate::frontier_policy::seqs_of(frontier);
            let expected = crate::explore::schedule_explore::scheduler_alternatives(d);
            let in_time = d.time_nanos == time.0;
            let as_recorded = expected.len() == 0 || expected == seqs;
            let can_choose = match d.chosen_seq {
                Some(seq) => seqs.contains(seq),
                None => d.chosen_index < seqs.len(),
            };
            &&& after@.next == before@.next + 1
            &&& after@.error is None <==> in_time && as_recorded && can_choose
            &&& after@.error is None ==> match d.chosen_seq {
                Some(seq) => frontier[index as int].seq == seq,
                None => index == d.chosen_index,
            }
            &&& !in_time ==> after@.error == Some(
                ReplayFrontierErrorView::TimeMismatch {
                    index: before@.next,
                    expected: d.time_nanos,
                    actual: time.0,
                },
            )
            &&& in_time && !as_recorded ==> after@.error == Some(
                ReplayFrontierErrorView::FrontierMismatch {
                    index: before@.next,
                    time_nanos: time.0,
                    expected,
                    actual: seqs,
                },
            )
            &&& in_time && as_recorded && !can_choose ==> after@.error == Some(
                match d.chosen_seq {
                    Some(seq) => ReplayFrontierErrorView::ChosenSeqNotFound {
                        index: before@.next,
                        time_nanos: time.0,
                        chosen: seq,
                        frontier: seqs,
                    },
                    None => ReplayFrontierErrorView::ChosenIndexOutOfBounds {
                        index: before@.next,
                        time_nanos: time.0,
                        chosen_index: d.chosen_index,
                        frontier_len: seqs.len() as usize,
                    },
                },
            )
        },
{
    let seqs = crate::frontier_policy::seqs_of(frontier);
    if before@.next < before@.decisions.len() {
        let d = before@.decisions[before@.next as int];
        if d.chosen_seq is Some && seqs.contains(d.chosen_seq->0) {
            crate::explore::frontier::position_exists(seqs, d.chosen_seq->0);
        }
    }
}

/// A replay of ready tasks goes on without an error only where the run is at the time of the
/// next recorded decision, the same tasks are ready, in whatever order, and the chosen one is
/// among them; and then it chooses that one.
pub proof fn ready_replay_follows_only_what_was_recorded(
    before: ReplayReadyTaskPolicy,
    time: SimTime,
    ready: Seq<TaskId>,
    after: ReplayReadyTaskPolicy,
    index: usize,
)
    requires
        ReplayReadyTaskPolicy::selects(before, time, ready, after, index),
        before@.error is None,
        !before@.fifo_fallback,
        before@.decisions.len() <= usize::MAX,
        0 < ready.len() <= usize::MAX,
    ensures
        after@.decisions == before@.decisions,
        after@.fifo_fallback == before@.fifo_fallback,
        before@.next >= before@.decisions.len() ==> after@.next == before@.next && after@.error
            == Some(
            ReplayReadyTaskErrorView::OutOfDecisions {
                index: before@.next,
                time_nanos: time.0,
                ready_task_ids: crate::ready_policy::ids_of(ready),
            },
        ),
        before@.next < before@.decisions.len() ==> {
            let d = before@.decisions[before@.next as int];
            let ids = crate::ready_policy::ids_of(ready);
            let in_time = d.time_nanos == time.0;
            let as_recorded = d.ready_task_ids.len() == 0 || forall|id: u64|
                d.ready_task_ids.contains(id) <==> ids.contains(id);
            let can_choose = d.chosen_task_id is None || ids.contains(d.chosen_task_id->0);
            &&& after@.next == before@.next + 1
            &&& after@.error is None <==> in_time && as_recorded && can_choose
            &&& after@.error is None ==> match d.chosen_task_id {
                Some(id) => ready[index as int].0 == id,
                None => d.chosen_index < ready.len() ==> index == d.chosen_index,
            }
            &&& !in_time ==> after@.error == Some(
                ReplayReadyTaskErrorView::TimeMismatch {
                    index: before@.next,
                    expected: d.time_nanos,
                    actual: time.0,
                },
            )
            &&& in_time && !as_recorded ==> after@.error == Some(
                ReplayReadyTaskErrorView::ReadySetMismatch {
                    index: before@.next,
                    time_nanos: time.0,
                    expected: d.ready_task_ids,
                    actual: ids,
                },
            )
            &&& in_time && as_recorded && !can_choose ==> after@.error == Some(
                ReplayReadyTaskErrorView::ChosenTaskNotFound {
                    index: before@.next,
                    time_nanos: time.0,
                    chosen: d.chosen_task_id->0,
                    ready: ids,
                },
            )
        },
{
    let ids = crate::ready_policy::ids_of(ready);
    if before@.next < before@.decisions.len() {
        let d = before@.decisions[before@.next as int];
        crate::explore::choices::normal_form_forgets_order_and_repetition(d.ready_task_ids, ids);
        if d.chosen_task_id is Some && ids.contains(d.chosen_task_id->0) {
            crate::explore::frontier::position_exists(ids, d.chosen_task_id->0);
        }
    }
}

/// A replay reads all decisions of a trace, and nothing else, in their order; and so it does
/// with the decisions between ready tasks and with the random draws.
pub proof fn replays_read_all_of_a_trace(events: Seq<TraceEventView>)
    ensures
        crate::explore::frontier::scheduler_decisions(events) == events.filter(
            |e: TraceEventView| e is SchedulerDecision,
        ).map_values(|e: TraceEventView| e->SchedulerDecision_0),
        crate::explore::ready_task::ready_decisions(events) == events.filter(
            |e: TraceEventView| e is AsyncRuntimeDecision,
        ).map_values(|e: TraceEventView| e->AsyncRuntimeDecision_0),
        crate::explore::replay_rng::random_draws(events) == events.filter(
            |e: TraceEventView| e is RandomDraw,
        ).map_values(|e: TraceEventView| e->RandomDraw_0),
    decreases events.len(),
{
    reveal(Seq::filter);
    if events.len() > 0 {
        replays_read_all_of_a_trace(events.drop_last());
    }
    assert(crate::explore::frontier::scheduler_decisions(events) =~= events.filter(
        |e: TraceEventView| e is SchedulerDecision,
    ).map_values(|e: TraceEventView| e->SchedulerDecision_0));
    assert(crate::explore::ready_task::ready_decisions(events) =~= events.filter(
        |e: TraceEventView| e is AsyncRuntimeDecision,
    ).map_values(|e: TraceEventView| e->AsyncRuntimeDecision_0));
    assert(crate::explore::replay_rng::random_draws(events) =~= events.filter(
        |e: TraceEventView| e is RandomDraw,
    ).map_values(|e: TraceEventView| e->RandomDraw_0));
}

/// The next recorded draw can be repeated exactly if there is one, it was made at the same
/// site, and it is a number of the kind that is asked for.
pub proof fn draws_are_repeated_at_their_site(left: Seq<RandomDrawView>, site: DrawSite)
    ensures
        ({
            let check = crate::explore::replay_rng::next_draw_check(left, site);
            &&& check is Ok <==> left.len() > 0 && left[0].site_id == site.site_id
                && left[0].value is F64
            &&& check == Err::<(), _>(ReplayDrawError::Exhausted) <==> left.len() == 0
            &&& left.len() > 0 && left[0].site_id != site.site_id ==> check == Err::<(), _>(
                ReplayDrawError::SiteMismatch {
                    expected: site.site_id,
                    recorded: left[0].site_id,
                },
            )
            &&& left.len() > 0 && left[0].site_id == site.site_id && !(left[0].value is F64)
                ==> check == Err::<(), _>(ReplayDrawError::UnexpectedValue)
        }),
{
}

/// A draw is recorded with its site, its tag and all of its bits.
pub proof fn draws_are_recorded_whole(site: DrawSite, bits: u64)
    ensures
        crate::explore::replay_rng::recorded_draw(site, bits).site_id == site.site_id,
        crate::explore::replay_rng::recorded_draw(site, bits).tag == site.tag@,
        crate::explore::replay_rng::recorded_draw(site, bits).value == DrawValueView::F64(bits),
        crate::explore::replay_rng::recorded_draw(site, bits).time_nanos is None,
{
}

/// The decisions of one kind in a trace are counted from zero.
pub proof fn decisions_are_counted(events: Seq<TraceEventView>)
    ensures
        crate::explore::schedule_explore::decision_count(events, DecisionKind::Frontier)
            == events.filter(|e: TraceEventView| e is SchedulerDecision).len(),
        crate::explore::schedule_explore::decision_count(events, DecisionKind::TokioReady)
            == events.filter(|e: TraceEventView| e is AsyncRuntimeDecision).len(),
        crate::explore::schedule_explore::decisions_of(events).len()
            == crate::explore::schedule_explore::decision_count(events, DecisionKind::Frontier)
            + crate::explore::schedule_explore::decision_count(events, DecisionKind::TokioReady),
    decreases events.len(),
{
    reveal(Seq::filter);
    if events.len() > 0 {
        decisions_are_counted(events.drop_last());
    }
}

/// Every decision that is recorded is found in the trace, with its time, its number among
/// those of its kind, its alternatives as a set, and what was chosen. Nothing else is taken
/// for a decision, and those before it stay as they were.
pub proof fn decisions_are_found_in_a_trace(events: Seq<TraceEventView>, e: TraceEventView, id: u64)
    requires
        events.len() < u64::MAX,
    ensures
        ({
            let front = crate::explore::schedule_explore::decisions_of(events);
            let all = crate::explore::schedule_explore::decisions_of(events.push(e));
            match e {
                TraceEventView::SchedulerDecision(d) => {
                    let alternatives = crate::explore::schedule_explore::scheduler_alternatives(d);
                    &&& all.len() == front.len() + 1
                    &&& all.drop_last() == front
                    &&& all.last().key.kind == DecisionKind::Frontier
                    &&& all.last().key.time_nanos == d.time_nanos
                    &&& all.last().key.ordinal == events.filter(
                        |e: TraceEventView| e is SchedulerDecision,
                    ).len()
                    &&& all.last().key.choice_set.contains(id) <==> alternatives.contains(id)
                    &&& d.chosen_seq is Some ==> all.last().chosen == d.chosen_seq->0
                    &&& d.chosen_seq is None ==> all.last().chosen
                        == alternatives[d.chosen_index as int]
                },
                TraceEventView::AsyncRuntimeDecision(d) => {
                    &&& all.len() == front.len() + 1
                    &&& all.drop_last() == front
                    &&& all.last().key.kind == DecisionKind::TokioReady
                    &&& all.last().key.time_nanos == d.time_nanos
                    &&& all.last().key.ordinal == events.filter(
                        |e: TraceEventView| e is AsyncRuntimeDecision,
                    ).len()
                    &&& all.last().key.choice_set.contains(id) <==> d.ready_task_ids.contains(id)
                    &&& d.chosen_task_id is Some ==> all.last().chosen == d.chosen_task_id->0
                    &&& d.chosen_task_id is None ==> all.last().chosen
                        == d.ready_task_ids[d.chosen_index as int]
                },
                _ => all == front,
            }
        }),
{
    let front = crate::explore::schedule_explore::decisions_of(events);
    let all = crate::explore::schedule_explore::decisions_of(events.push(e));
    assert(events.push(e).drop_last() =~= events);
    decisions_are_counted(events);
    let schedulers = |e: TraceEventView| e is SchedulerDecision;
    let readies = |e: TraceEventView| e is AsyncRuntimeDecision;
    events.lemma_filter_len(schedulers);
    events.lemma_filter_len(readies);
    match e {
        TraceEventView::SchedulerDecision(d) => {
            crate::explore::choices::normal_form_exists(
                crate::explore::schedule_explore::scheduler_alternatives(d),
            );
            assert(all.drop_last() =~= front);
        },
        TraceEventView::AsyncRuntimeDecision(d) => {
            crate::explore::choices::normal_form_exists(d.ready_task_ids);
            assert(all.drop_last() =~= front);
        },
        _ => {},
    }
}

/// The alternatives of a decision are the listed numbers, or those of the listed events where
/// the numbers are missing.
pub proof fn alternatives_are_those_recorded(d: SchedulerDecisionView, i: int)
    ensures
        d.frontier_seqs.len() > 0 ==> crate::explore::schedule_explore::scheduler_alternatives(d)
            == d.frontier_seqs,
        d.frontier_seqs.len() == 0 ==> crate::explore::schedule_explore::scheduler_alternatives(
            d,
        ).len() == d.frontier.len(),
        d.frontier_seqs.len() == 0 && 0 <= i < d.frontier.len()
            ==> crate::explore::schedule_explore::scheduler_alternatives(d)[i]
            == d.frontier[i].seq,
{
}

/// Of several observations of a decision a script keeps the last one, and it says nothing of
/// decisions that were not observed.
pub proof fn script_keeps_the_last_observation(
    s: Seq<ObservedDecisionView>,
    d: ObservedDecisionView,
    other: DecisionKeyView,
)
    ensures
        ({
            let before = crate::explore::schedule_explore::script_of(s);
            let after = crate::explore::schedule_explore::script_of(s.push(d));
            &&& after.contains_key(d.key.normal())
            &&& after[d.key.normal()] == d.chosen
            &&& other != d.key.normal() ==> (after.contains_key(other) <==> before.contains_key(
                other,
            ))
            &&& other != d.key.normal() && before.contains_key(other) ==> after[other]
                == before[other]
            &&& !crate::explore::schedule_explore::script_of(Seq::empty()).contains_key(other)
        }),
{
    assert(s.push(d).drop_last() =~= s);
}

} // verus!
