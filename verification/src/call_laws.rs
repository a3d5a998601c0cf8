//! What calls of the library give, one after the other.

use crate::async_runtime::SpawnQueue;
use crate::component::Components;
use crate::dists::{BurstPhase, BurstPhases};
use crate::environment::{EventPayload, EventScheduler, ScheduledEvent};
use crate::error::EventError;
use crate::event::{EventEntry, FrontierEvent};
use crate::explore::concurrency::ReplayConcurrencyError;
use crate::explore::estimate::{EstimateError, ParticleOutcome, SplittingRun};
use crate::explore::frontier::ReplayFrontierError;
use crate::explore::harness::{HarnessConfig, HarnessError, HarnessReplayError, ReplayPlan};
use crate::explore::policy::{TableFrontierPolicy, TableReadyTaskPolicy};
use crate::explore::policy_search::TrialCounts;
use crate::explore::ready_task::ReplayReadyTaskError;
use crate::explore::rollout::WatchAction;
use crate::explore::schedule_explore::{DecisionKey, DecisionKeyMismatch, DecisionScript};
use crate::explore::splitting::{SplitOutcome, SplittingSearch};
use crate::explore::trace::{AtomicOrdering, Trace};
use crate::frontier_policy::EventFrontierPolicy;
use crate::key::Key;
use crate::process::{ProcessId, ProcessManager};
use crate::ready_policy::{ReadyTaskPolicy, TaskId};
use crate::scheduler::Scheduler;
use crate::task_id::TaskHandle;
use crate::time::SimTime;
use crate::types::EventId;
use std::time::Duration;
use vstd::prelude::*;

verus! {

/// A waiting task can be cancelled once: a second attempt finds nothing, and the first one
/// changes nothing where the task does not wait.
pub proof fn task_can_be_cancelled_once<P, T, R, O>(
    first: &mut Scheduler<P, T, R>,
    second: &mut Scheduler<P, T, R>,
    a: TaskHandle<O>,
    b: TaskHandle<O>,
    was_pending: bool,
    again: bool,
)
    requires
        call_ensures(Scheduler::<P, T, R>::cancel_task::<O>, (first, a), was_pending),
        call_ensures(Scheduler::<P, T, R>::cancel_task::<O>, (second, b), again),
        *old(second) == *final(first),
        a.id == b.id,
    ensures
        was_pending <==> old(first)@.pending.contains_key(a.id.value()),
        !again,
        final(second)@ == final(first)@,
        !was_pending ==> final(first)@ == old(first)@,
        was_pending ==> final(first)@.cancelled.contains(a.id.value()),
{
}

/// The result of a task can be fetched once.
pub proof fn result_can_be_fetched_once<P, T, R, O>(
    first: &mut Scheduler<P, T, R>,
    second: &mut Scheduler<P, T, R>,
    a: TaskHandle<O>,
    b: TaskHandle<O>,
    result: Option<R>,
    again: Option<R>,
)
    requires
        call_ensures(Scheduler::<P, T, R>::get_task_result::<O>, (first, a), result),
        call_ensures(Scheduler::<P, T, R>::get_task_result::<O>, (second, b), again),
        *old(second) == *final(first),
        a.id == b.id,
    ensures
        result is Some <==> old(first)@.results.contains_key(a.id.value()),
        again is None,
        final(first)@.pending == old(first)@.pending,
        final(first)@.events == old(first)@.events,
        final(first)@.now == old(first)@.now,
{
}

/// A task that was just scheduled can be cancelled with its handle.
pub proof fn scheduled_task_can_be_cancelled<P, T, R, O>(
    first: &mut Scheduler<P, T, R>,
    second: &mut Scheduler<P, T, R>,
    delay: SimTime,
    task: T,
    handle: TaskHandle<O>,
    was_pending: bool,
)
    requires
        call_ensures(Scheduler::<P, T, R>::schedule_task::<O>, (first, delay, task), handle),
        call_ensures(Scheduler::<P, T, R>::cancel_task::<O>, (second, handle), was_pending),
        *old(second) == *final(first),
    ensures
        was_pending,
        final(first)@.pending.contains_key(handle.id.value()),
        final(first)@.pending[handle.id.value()] == task,
        !final(second)@.pending.contains_key(handle.id.value()),
        final(first)@.now == old(first)@.now,
{
}

/// A component that was registered is given back when it is removed, once.
pub proof fn registered_component_is_given_back<C, E>(
    first: &mut Components<C>,
    second: &mut Components<C>,
    third: &mut Components<C>,
    component: C,
    key: Key<E>,
    removed: Option<C>,
    again: Option<C>,
)
    requires
        call_ensures(Components::<C>::register::<E>, (first, component), key),
        call_ensures(Components::<C>::remove::<E>, (second, key), removed),
        call_ensures(Components::<C>::remove::<E>, (third, key), again),
        *old(second) == *final(first),
        *old(third) == *final(second),
    ensures
        removed == Some(component),
        again is None,
        final(third)@.components == final(second)@.components,
{
    assert(final(third)@.components =~= final(second)@.components);
}

/// Events of an environment get numbers one after the other, and the one that is due first is
/// taken first. Nothing is taken from an empty queue.
pub proof fn scheduled_events_are_taken_in_order(
    first: &mut EventScheduler,
    second: &mut EventScheduler,
    third: &mut EventScheduler,
    time: SimTime,
    later: SimTime,
    payload: EventPayload,
    a: EventId,
    b: EventId,
    taken: Result<ScheduledEvent, EventError>,
)
    requires
        call_ensures(EventScheduler::schedule, (first, time, payload), a),
        call_ensures(EventScheduler::schedule, (second, later, payload), b),
        call_ensures(EventScheduler::pop_next, (third,), taken),
        *old(second) == *final(first),
        *old(third) == *final(second),
        old(first)@.wf(),
        old(first)@.events.len() == 0,
        old(first)@.next_event_id < u64::MAX - 1,
    ensures
        b.0 == a.0 + 1,
        taken is Ok,
        time.0 <= later.0 ==> taken->Ok_0.id == a && taken->Ok_0.time == time,
        later.0 < time.0 ==> taken->Ok_0.id == b && taken->Ok_0.time == later,
        final(third)@.events.len() == 1,
{
    let e0 = old(first)@.events;
    assert(crate::environment::event_place(e0, time) == 0);
    let e1 = final(first)@.events;
    assert(e1 == e0.insert(0, ScheduledEvent { id: a, time, payload }));
    assert(e1.len() == 1 && e1[0].time == time);
    assert(e1.drop_first().len() == 0);
    assert(crate::environment::event_place(e1.drop_first(), later) == 0);
}

/// Whoever waits for an event is found waiting, until the event wakes them.
pub proof fn waiting_for_an_event_is_seen<P>(
    first: &mut ProcessManager<P>,
    second: &mut ProcessManager<P>,
    process: ProcessId,
    event: EventId,
    other: EventId,
    before: bool,
    after: bool,
    woken: bool,
    still: bool,
)
    requires
        call_ensures(ProcessManager::<P>::has_event_waiter, (&*old(first), other), before),
        call_ensures(ProcessManager::<P>::wait_for_event, (first, process, event), ()),
        call_ensures(ProcessManager::<P>::has_event_waiter, (&*final(first), event), after),
        *old(second) == *final(first),
        call_ensures(ProcessManager::<P>::wake_event_waiters, (second, event), ()),
        call_ensures(ProcessManager::<P>::has_event_waiter, (&*final(second), event), woken),
        call_ensures(ProcessManager::<P>::has_event_waiter, (&*final(second), other), still),
        other != event,
    ensures
        after,
        !woken,
        still <==> before,
{
    let a = old(first)@.event_waiters;
    let b = final(first)@.event_waiters;
    let c = final(second)@.event_waiters;
    assert(b[a.len() as int].1 == event);
    crate::process::woken_waiters_are_gone(old(second)@, SimTime(0), event);
    if before {
        let i = choose|i: int| 0 <= i < a.len() && (#[trigger] a[i]).1 == other;
        assert(b[i] == a[i]);
        assert(b.contains(a[i]));
        assert(c.contains(a[i]));
        let k = choose|k: int| 0 <= k < c.len() && c[k] == a[i];
        assert(c[k].1 == other);
    }
    if still {
        let k = choose|k: int| 0 <= k < c.len() && (#[trigger] c[k]).1 == other;
        assert(c.contains(c[k]));
        assert(b.contains(c[k]));
        let i = choose|i: int| 0 <= i < b.len() && b[i] == c[k];
        assert(b[i].1 != event);
        assert(a[i] == b[i]);
        assert(a[i].1 == other);
    }
}

/// Tasks that are asked for get identifiers of their own, and one that is taken back is asked
/// for no longer, while the other one is.
pub proof fn requests_can_be_taken_back<F>(
    first: &mut SpawnQueue<F>,
    second: &mut SpawnQueue<F>,
    third: &mut SpawnQueue<F>,
    f: F,
    g: F,
    a: TaskId,
    b: TaskId,
)
    requires
        call_ensures(SpawnQueue::<F>::spawn, (first, f), a),
        call_ensures(SpawnQueue::<F>::spawn, (second, g), b),
        call_ensures(SpawnQueue::<F>::cancel, (third, a), ()),
        *old(second) == *final(first),
        *old(third) == *final(second),
        old(first).next_task_id < u64::MAX - 1,
    ensures
        a != b,
        final(third).sendable@.contains(crate::async_runtime::SpawnRequest { task_id: b, future: g }),
        forall|i: int|
            0 <= i < final(third).sendable@.len() ==> (#[trigger] final(third).sendable@[i]).task_id
                != a,
        final(third).local@ == old(first).local@,
{
    let s = old(third).sendable@;
    let r = crate::async_runtime::SpawnRequest { task_id: b, future: g };
    assert(s[s.len() - 1] == r);
    crate::runtime_effects::taking_a_request_back_leaves_the_others(s, a, r);
    let left = final(third).sendable@;
    assert forall|i: int| 0 <= i < left.len() implies (#[trigger] left[i]).task_id != a by {
        assert(left.contains(left[i]));
        crate::runtime_effects::taking_a_request_back_leaves_the_others(s, a, left[i]);
    }
}

/// Requests come at the time that was drawn and waited for. The time that is drawn is taken
/// from the phase; where it goes beyond its end, the rest is taken from the next phase. At the
/// very end of a phase nothing comes, and what was waited stays.
pub proof fn bursts_use_up_their_phases(
    phases: &mut BurstPhases,
    drawn: Duration,
    time: Option<Duration>,
)
    requires
        old(phases).wf(),
        call_ensures(BurstPhases::arrive, (phases, drawn), time),
    ensures
        ({
            let t = crate::duration::duration_nanos(drawn);
            let left = old(phases).remaining_nanos();
            let now = final(phases).remaining_nanos();
            let waited = old(phases).waited_nanos();
            &&& t < left ==> now + t == left && final(phases).current_phase
                == old(phases).current_phase
            &&& t >= left ==> final(phases).current_phase != old(phases).current_phase
            &&& t >= left && now > 0 ==> now + t == left + final(phases).phase_nanos(
                final(phases).current_phase,
            )
            &&& time is None <==> t == left
            &&& time is Some && waited + t <= crate::duration::max_duration_nanos()
                ==> crate::duration::duration_nanos(time->0) == waited + t
            &&& time is Some ==> final(phases).waited_nanos() == 0
            &&& time is None ==> final(phases).waited_nanos() == waited
            &&& final(phases).wf()
        }),
{
}

/// A phase without requests is waited for: the next request comes as much later as the phase
/// still lasted.
pub proof fn quiet_phases_are_waited_for(
    first: &mut BurstPhases,
    second: &mut BurstPhases,
    drawn: Duration,
    time: Option<Duration>,
)
    requires
        old(first).wf(),
        call_ensures(BurstPhases::skip_phase, (first,), ()),
        call_ensures(BurstPhases::arrive, (second, drawn), time),
        *old(second) == *final(first),
        time is Some,
        old(first).waited_nanos() + old(first).remaining_nanos() + crate::duration::duration_nanos(
            drawn,
        ) <= crate::duration::max_duration_nanos(),
    ensures
        crate::duration::duration_nanos(time->0) == old(first).waited_nanos()
            + old(first).remaining_nanos() + crate::duration::duration_nanos(drawn),
        old(first).current_phase == BurstPhase::Quiet ==> old(second).current_phase
            == BurstPhase::Burst && old(second).remaining_nanos()
            == crate::duration::duration_nanos(old(first).burst_duration),
{
}

/// A trial stops exactly if what is looked for was found, and its trace is kept exactly when
/// it first reaches its level without that.
pub proof fn trial_stops_when_it_has_found(
    found: bool,
    reached: bool,
    captured: bool,
    action: WatchAction,
)
    requires
        call_ensures(crate::explore::rollout::watch_step, (found, reached, captured), action),
    ensures
        action is Stop <==> found,
        action is Capture <==> !found && reached && !captured,
        action is Continue <==> !found && (captured || !reached),
{
}

/// A replay succeeds exactly if nothing went wrong, and else tells the first thing that did:
/// the choices between tasks, those between events, the locks and atomic variables, a panic.
pub proof fn replay_tells_what_went_wrong(
    tokio_ready: Option<ReplayReadyTaskError>,
    frontier: Option<ReplayFrontierError>,
    concurrency: Option<ReplayConcurrencyError>,
    panic_message: Option<String>,
    outcome: Result<(), HarnessReplayError>,
)
    requires
        call_ensures(
            crate::explore::harness::replay_outcome,
            (tokio_ready, frontier, concurrency, panic_message),
            outcome,
        ),
    ensures
        outcome is Ok <==> tokio_ready is None && frontier is None && concurrency is None
            && panic_message is None,
        tokio_ready matches Some(e) ==> outcome == Err::<(), _>(HarnessReplayError::TokioReady(e)),
        tokio_ready is None ==> (frontier matches Some(e) ==> outcome == Err::<(), _>(
            HarnessReplayError::Frontier(e),
        )),
        tokio_ready is None && frontier is None ==> (concurrency matches Some(e) ==> outcome
            == Err::<(), _>(HarnessReplayError::Concurrency(e))),
        tokio_ready is None && frontier is None && concurrency is None ==> (
        panic_message matches Some(message) ==> outcome == Err::<(), _>(
            HarnessReplayError::Panic { message },
        )),
{
}

/// Memory orderings keep their names in a trace.
pub proof fn orderings_keep_their_names(
    ordering: std::sync::atomic::Ordering,
    traced: AtomicOrdering,
)
    requires
        call_ensures(crate::explore::concurrency::to_atomic_ordering, (ordering,), traced),
    ensures
        traced is Relaxed <==> ordering is Relaxed,
        traced is Acquire <==> ordering is Acquire,
        traced is Release <==> ordering is Release,
        traced is AcqRel <==> ordering is AcqRel,
        ordering is SeqCst ==> traced is SeqCst,
{
}

/// A script gives back the choice that was put into it, however the alternatives are ordered
/// in the question.
pub proof fn script_gives_back_its_choices(
    script: &mut DecisionScript,
    key: DecisionKey,
    chosen: u64,
    former: Option<u64>,
    asked: DecisionKey,
    answer: Result<Option<u64>, DecisionKeyMismatch>,
)
    requires
        old(script).wf(),
        call_ensures(DecisionScript::insert, (script, key, chosen), former),
        call_ensures(DecisionScript::match_decision, (&*final(script), &asked), answer),
        asked@.kind == key@.kind,
        asked@.time_nanos == key@.time_nanos,
        asked@.ordinal == key@.ordinal,
        forall|id: u64| asked@.choice_set.contains(id) <==> key@.choice_set.contains(id),
    ensures
        answer == Ok::<Option<u64>, DecisionKeyMismatch>(Some(chosen)),
        former is Some <==> old(script)@.contains_key(key@.normal()),
{
    crate::explore::choices::normal_form_forgets_order_and_repetition(
        asked@.choice_set,
        key@.choice_set,
    );
    assert(asked@.normal() == key@.normal());
    let now = final(script)@;
    assert(now.contains_key(asked@.normal()));
    match answer {
        Ok(Some(given)) => {
            assert(given == chosen);
        },
        Ok(None) => {
            assert(now.contains_key(key@.normal()));
            assert(key@.normal().same_moment(asked@));
        },
        Err(mismatch) => {},
    }
}

/// A particle that has reached its level counts as a success of its stage, and one in which
/// it happened at the last stage does. The first example is kept.
pub proof fn outcomes_are_counted_once<S>(
    run: &mut SplittingRun<S>,
    outcome: ParticleOutcome<S>,
)
    requires
        old(run).wf(),
        call_ensures(SplittingRun::<S>::record, (run, outcome), ()),
    ensures
        final(run).next == old(run).next + 1,
        final(run).successful@.len() == old(run).successful@.len() + if old(run).stage
            < old(run).levels && outcome.prefix is Some {
            1int
        } else {
            0
        },
        final(run).terminal_successes == old(run).terminal_successes + if old(run).stage
            >= old(run).levels && outcome.terminal is Some {
            1int
        } else {
            0
        },
        old(run).example is Some ==> final(run).example == old(run).example,
        old(run).example is None ==> final(run).example == outcome.terminal,
        final(run).stage == old(run).stage,
        final(run).stage_successes == old(run).stage_successes,
{
}

/// A stage is followed by the next one, unless it was the last or nothing has reached its
/// level. What it has counted is told, and the counting starts anew.
pub proof fn stages_follow_each_other<S>(run: &mut SplittingRun<S>)
    requires
        old(run).wf(),
        call_ensures(SplittingRun::<S>::finish_stage, (run,), ()),
    ensures
        final(run).stage_successes@.len() == old(run).stage_successes@.len() + 1,
        final(run).stage_successes@.last() as int == if old(run).stage < old(run).levels {
            old(run).successful@.len() as usize as int
        } else {
            old(run).terminal_successes as int
        },
        final(run).done <==> old(run).stage >= old(run).levels || old(run).successful@.len() == 0,
        !final(run).done ==> final(run).stage == old(run).stage + 1 && final(run).next == 0
            && final(run).successful@.len() == 0 && final(run).terminal_successes == 0
            && final(run).particles@.len() == old(run).count,
        final(run).example == old(run).example,
{
    if !final(run).done {
        assert(crate::explore::estimate::particle_views(final(run).particles@).len()
            == final(run).particles@.len());
    }
}

/// A search by splitting is over when something is found, and that is what it has found.
pub proof fn search_is_over_when_it_has_found<S>(
    search: &mut SplittingSearch<S>,
    outcome: SplitOutcome<S>,
)
    requires
        old(search).wf(),
        call_ensures(SplittingSearch::<S>::record, (search, outcome), ()),
    ensures
        final(search).done <==> outcome is Found,
        outcome matches SplitOutcome::Found(bug) ==> final(search).found == Some(bug),
        !(outcome is Found) ==> final(search).found is None,
        !(outcome is Reached) ==> crate::explore::splitting::split_views(
            final(search).next_level@,
        ) == crate::explore::splitting::split_views(old(search).next_level@),
        final(search).next == old(search).next + 1,
        final(search).level == old(search).level,
        final(search).particles == old(search).particles,
{
}

/// A level is followed by the next one with the branches that were made, unless there are
/// none or it was the last level.
pub proof fn levels_follow_each_other<S>(search: &mut SplittingSearch<S>)
    requires
        old(search).wf(),
        call_ensures(SplittingSearch::<S>::finish_level, (search,), ()),
    ensures
        final(search).done <==> old(search).next_level@.len() == 0 || old(search).level + 1
            >= old(search).cfg.levels@.len(),
        old(search).next_level@.len() > 0 ==> final(search).particles@ == old(search).next_level@
            && final(search).level == old(search).level + 1 && final(search).next == 0,
        old(search).next_level@.len() == 0 ==> final(search).level == old(search).level,
        final(search).found is None,
{
}

/// Arrivals and services are seeded by their rates: distinct rates give distinct seeds, and
/// so do distinct seeds with the same rate. Arrivals and services of one rate are set apart.
pub proof fn rates_give_seeds_of_their_own(
    s: u64,
    t: u64,
    a: u64,
    b: u64,
    sa: u64,
    sb: u64,
    ta: u64,
    ea: u64,
)
    requires
        call_ensures(crate::dists::poisson_seed, (s, a), sa),
        call_ensures(crate::dists::poisson_seed, (s, b), sb),
        call_ensures(crate::dists::poisson_seed, (t, a), ta),
        call_ensures(crate::dists::exponential_seed, (s, a), ea),
    ensures
        a != b ==> sa != sb,
        s != t ==> sa != ta,
        sa != ea,
{
    crate::dists::rates_are_seeded_apart(s, a, b);
    assert(s != t ==> s ^ 0xA5A5_5A5A_0101_0203 ^ a != t ^ 0xA5A5_5A5A_0101_0203 ^ a)
        by (bit_vector);
}

/// An estimate counts exactly the trials in which it happened, of all trials that it was asked
/// for. It fails only where it was asked for none, or where a trial fails.
pub proof fn estimate_counts_its_trials<F: Fn(u64) -> Result<bool, HarnessError>>(
    trials: u64,
    seed: u64,
    trial: F,
    counts: Result<TrialCounts, EstimateError>,
)
    requires
        call_ensures(
            crate::explore::estimate::estimate_monte_carlo::<F>,
            (trials, seed, trial),
            counts,
        ),
    ensures
        counts == Err::<TrialCounts, _>(EstimateError::ZeroTrials) <==> trials == 0,
        counts matches Ok(c) ==> {
            &&& c.trials == trials
            &&& c.successes <= trials
            &&& exists|outcomes: Seq<Result<bool, HarnessError>>|
                {
                    &&& #[trigger] crate::explore::estimate::are_outcomes(trial, seed, outcomes)
                    &&& outcomes.len() == trials
                    &&& c.successes == outcomes.filter(
                        |o: Result<bool, HarnessError>| o is Ok && o->Ok_0,
                    ).len()
                }
        },
{
    if counts is Ok {
        let outcomes = choose|outcomes: Seq<Result<bool, HarnessError>>|
            {
                &&& #[trigger] crate::explore::estimate::are_outcomes(trial, seed, outcomes)
                &&& 0 < outcomes.len() <= trials
                &&& forall|i: int| 0 <= i < outcomes.len() - 1 ==> (#[trigger] outcomes[i]) is Ok
                &&& outcomes.last() is Ok ==> outcomes.len() == trials
                &&& counts == match outcomes.last() {
                    Ok(_) => Ok(
                        TrialCounts {
                            trials,
                            successes: crate::explore::estimate::hits(outcomes) as u64,
                        },
                    ),
                    Err(e) => Err(EstimateError::Harness(e)),
                }
            };
        crate::explore::study_laws::hits_are_the_trials_that_say_so(outcomes);
        outcomes.lemma_filter_len(|o: Result<bool, HarnessError>| o is Ok && o->Ok_0);
    }
}

/// A replay takes its choices from the trace: it refuses a configuration of its own for them,
/// and else uses all that was recorded. Choices between events are replayed exactly if the
/// trace has some.
pub proof fn replay_takes_its_choices_from_the_trace(
    cfg: HarnessConfig,
    trace: Trace,
    tokio_available: bool,
    plan: Result<ReplayPlan, HarnessReplayError>,
)
    requires
        call_ensures(
            crate::explore::harness::plan_replayed,
            (&cfg, &trace, tokio_available),
            plan,
        ),
    ensures
        plan is Ok <==> cfg.frontier is None && cfg.tokio_ready is None && (cfg.install_tokio
            ==> tokio_available),
        plan matches Ok(p) ==> {
            let events = trace@.events;
            &&& p.frontier is Some <==> exists|i: int|
                0 <= i < events.len() && (#[trigger] events[i]) is SchedulerDecision
            &&& p.frontier matches Some(f) ==> f@.next == 0 && f@.error is None
                && f@.decisions == crate::explore::frontier::scheduler_decisions(events)
            &&& p.tokio is Some <==> cfg.install_tokio
            &&& p.tokio matches Some(t) ==> {
                &&& t.ready@.decisions == crate::explore::ready_task::ready_decisions(events)
                &&& t.ready@.next == 0 && t.ready@.error is None
                &&& t.ready@.fifo_fallback <==> crate::explore::ready_task::ready_decisions(
                    events,
                ).len() == 0
                &&& t.validator@.expected == crate::explore::concurrency::concurrency_events(events)
                &&& t.validator@.next == 0 && t.validator@.error is None
            }
        },
{
    if plan is Ok {
        let events = trace@.events;
        if exists|i: int| 0 <= i < events.len() && (#[trigger] events[i]) is SchedulerDecision {
            let i = choose|i: int|
                0 <= i < events.len() && (#[trigger] events[i]) is SchedulerDecision;
            assert(crate::explore::harness::is_scheduler_decision(events[i]));
        }
        if crate::explore::harness::has_scheduler_decisions(events) {
            let i = choose|i: int|
                0 <= i < events.len() && crate::explore::harness::is_scheduler_decision(
                    #[trigger] events[i],
                );
            assert(events[i] is SchedulerDecision);
        }
    }
}

/// Where a table has picked one of the events that are due, that one is selected and the
/// other policy is not asked. Else the other policy selects.
pub proof fn picked_events_are_selected<P: EventFrontierPolicy>(
    policy: &mut TableFrontierPolicy<P>,
    time: SimTime,
    frontier: &[FrontierEvent],
    picked: Option<u64>,
    index: usize,
)
    requires
        call_ensures(
            TableFrontierPolicy::<P>::select_picked,
            (policy, time, frontier, picked),
            index,
        ),
        0 < frontier@.len() <= usize::MAX,
    ensures
        ({
            let seqs = crate::frontier_policy::seqs_of(frontier@);
            let found = picked is Some && seqs.contains(picked->0);
            &&& index < frontier@.len()
            &&& found ==> frontier@[index as int].seq == picked->0 && final(policy).fallback
                == old(policy).fallback
            &&& !found ==> exists|chosen: usize| #[trigger]
                P::selects(
                    old(policy).fallback,
                    time,
                    frontier@,
                    final(policy).fallback,
                    chosen,
                ) && (chosen < frontier@.len() ==> index == chosen)
            &&& final(policy).policy == old(policy).policy
        }),
{
    let seqs = crate::frontier_policy::seqs_of(frontier@);
    if picked is Some && seqs.contains(picked->0) {
        crate::explore::frontier::position_exists(seqs, picked->0);
    } else {
        let chosen = choose|chosen: usize| #[trigger]
            P::selects(
                old(policy).fallback,
                time,
                frontier@,
                final(policy).fallback,
                chosen,
            ) && index == crate::explore::choices::bounded_index(chosen, frontier@.len());
        assert(P::selects(
            old(policy).fallback,
            time,
            frontier@,
            final(policy).fallback,
            chosen,
        ));
    }
}

/// Where a table has picked one of the ready tasks, that one is selected and the other policy
/// is not asked. Else the other policy selects.
pub proof fn picked_tasks_are_selected<P: ReadyTaskPolicy>(
    policy: &mut TableReadyTaskPolicy<P>,
    time: SimTime,
    ready: &[TaskId],
    picked: Option<u64>,
    index: usize,
)
    requires
        call_ensures(
            TableReadyTaskPolicy::<P>::select_picked,
            (policy, time, ready, picked),
            index,
        ),
        0 < ready@.len() <= usize::MAX,
    ensures
        ({
            let ids = crate::ready_policy::ids_of(ready@);
            let found = picked is Some && ids.contains(picked->0);
            &&& index < ready@.len()
            &&& found ==> ready@[index as int].0 == picked->0 && final(policy).fallback
                == old(policy).fallback
            &&& !found ==> exists|chosen: usize| #[trigger]
                P::selects(
                    old(policy).fallback,
                    time,
                    ready@,
                    final(policy).fallback,
                    chosen,
                ) && (chosen < ready@.len() ==> index == chosen)
            &&& final(policy).policy == old(policy).policy
        }),
{
    let ids = crate::ready_policy::ids_of(ready@);
    if picked is Some && ids.contains(picked->0) {
        crate::explore::frontier::position_exists(ids, picked->0);
    } else {
        let chosen = choose|chosen: usize| #[trigger]
            P::selects(
                old(policy).fallback,
                time,
                ready@,
                final(policy).fallback,
                chosen,
            ) && index == crate::explore::choices::bounded_index(chosen, ready@.len());
        assert(P::selects(
            old(policy).fallback,
            time,
            ready@,
            final(policy).fallback,
            chosen,
        ));
    }
}

/// An event that is scheduled on an empty queue is the one that is taken next, and the clock
/// then shows its time.
pub proof fn scheduled_event_is_taken<P, T, R>(
    first: &mut Scheduler<P, T, R>,
    second: &mut Scheduler<P, T, R>,
    delay: SimTime,
    component: Key<P>,
    event: P,
    taken: Option<EventEntry<P>>,
)
    requires
        old(first)@.wf(),
        old(first)@.events.len() == 0,
        old(first)@.next_event_id < u64::MAX,
        call_ensures(Scheduler::<P, T, R>::schedule, (first, delay, component, event), ()),
        call_ensures(Scheduler::<P, T, R>::pop, (second,), taken),
        *old(second) == *final(first),
    ensures
        taken matches Some(EventEntry::Component(entry)) && entry.component == component.id
            && entry.inner == event && entry.time.0 == final(second)@.now,
        final(second)@.now == if old(first)@.now + delay.0 <= u64::MAX {
            old(first)@.now + delay.0
        } else {
            u64::MAX as int
        },
        final(second)@.events.len() == 0,
{
    let v = old(first)@;
    let made = v.component_event(delay.0, component.id, event);
    crate::scheduler_laws::scheduling_adds_one_event(v, delay.0, component.id, event, made);
    let w = final(first)@;
    let k = choose|k: int| 0 <= k < w.events.len() && w.events[k] == made;
    assert(w.events[0] == made);
    assert(!crate::scheduler::is_marked(made, w.cancelled));
}

} // verus!
