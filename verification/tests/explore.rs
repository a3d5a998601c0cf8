//! Recording, replaying and scripting decisions.

use descartes::event::{FrontierEvent, FrontierEventKind};
use descartes::explore::concurrency::{
    to_atomic_ordering, to_trace_event, ConcurrencyEvent, ConcurrencyRecorder,
    EitherRecorder, RecordingConcurrencyRecorder, ReplayConcurrencyError,
    ReplayConcurrencyValidator, TeeConcurrencyRecorder,
};
use descartes::explore::frontier::{
    ExplorationFrontierPolicy, RecordingFrontierPolicy, ReplayFrontierError, ReplayFrontierPolicy,
};
use descartes::explore::harness::{
    install_tokio_if_requested, plan_controlled, plan_recorded, plan_replayed, replay_outcome,
    ConcurrencyPlan, HarnessConfig, HarnessControl, HarnessError, HarnessFrontierConfig,
    HarnessFrontierPolicy, HarnessReplayError, HarnessTokioMutexConfig, HarnessTokioMutexPolicy,
    HarnessTokioReadyConfig, HarnessTokioReadyPolicy, PolicyPlan,
};
use descartes::explore::io::{format_from_extension, TraceFormat, TraceIoConfig};
use descartes::explore::policy::{
    ActionDistribution, TableAction, TableFrontierPolicy, TablePolicy, TableReadyTaskPolicy,
};
use descartes::explore::ready_task::{
    ExplorationReadyTaskPolicy, RecordingReadyTaskPolicy, ReplayReadyTaskError,
    ReplayReadyTaskPolicy,
};
use descartes::explore::replay_rng::{
    record_draw, ChainedDraw, ChainedRandomProvider, ReplayDrawError, ReplayRandomProvider,
};
use descartes::explore::schedule_explore::{
    extract_decisions, names_its_choices, DecisionChoice, DecisionKey, DecisionKind,
    DecisionScript,
};
use descartes::explore::trace::{
    AsyncRuntimeDecision, AtomicOrdering, ConcurrencyEventKind, DrawValue, FrontierEntry,
    FrontierKind, RandomDraw, SchedulerDecision, Trace, TraceEvent, TraceMeta, TraceRecorder,
};
use descartes::frontier_policy::{
    EventFrontierPolicy, FifoFrontierPolicy, FrontierSignature, UniformRandomFrontierPolicy,
};
use descartes::randomness::DrawSite;
use descartes::ready_policy::{
    FifoReadyTaskPolicy, ReadyTaskPolicy, TaskId, UniformRandomReadyTaskPolicy,
};
use descartes::simulation::SimulationConfig;
use descartes::time::SimTime;
use std::collections::HashSet;
use uuid::Uuid;

fn meta() -> TraceMeta {
    TraceMeta { seed: 1, scenario: "x".to_string() }
}

fn trace(events: Vec<TraceEvent>) -> Trace {
    Trace { meta: meta(), events }
}

fn recorder() -> TraceRecorder {
    TraceRecorder::new(meta())
}

/// Events with these numbers that are due at the same time.
fn frontier(seqs: &[u64]) -> Vec<FrontierEvent> {
    seqs.iter()
        .map(|seq| FrontierEvent {
            seq: *seq,
            kind: FrontierEventKind::Component,
            component_id: Some(Uuid::from_u128(*seq as u128)),
            task_id: None,
        })
        .collect()
}

fn ready(ids: &[u64]) -> Vec<TaskId> {
    ids.iter().map(|id| TaskId(*id)).collect()
}

fn at(nanos: u64) -> SimTime {
    SimTime::from_nanos(nanos)
}

#[test]
fn decision_key_normalization_sorts_and_dedups() {
    let a = DecisionKey::new(DecisionKind::Frontier, 10, 0, vec![3, 1, 2, 2]);
    let b = DecisionKey::new(DecisionKind::Frontier, 10, 0, vec![2, 3, 1]);

    assert_eq!(a, b);
    assert_eq!(a.choice_set, vec![1, 2, 3]);

    let mut set = HashSet::new();
    set.insert(a);
    assert!(set.contains(&b));
}

#[test]
fn extract_decisions_prefers_stable_ids() {
    let trace = trace(vec![
        TraceEvent::SchedulerDecision(SchedulerDecision {
            time_nanos: 10,
            chosen_index: 0,
            chosen_seq: Some(777),
            frontier_seqs: vec![5, 777, 9],
            frontier: vec![],
        }),
        TraceEvent::AsyncRuntimeDecision(AsyncRuntimeDecision {
            time_nanos: 11,
            chosen_index: 0,
            chosen_task_id: Some(2),
            ready_task_ids: vec![1, 2, 3],
        }),
    ]);

    let decisions = extract_decisions(&trace);
    assert_eq!(decisions.len(), 2);

    assert_eq!(decisions[0].chosen, 777);
    assert_eq!(decisions[0].key.kind, DecisionKind::Frontier);
    assert_eq!(decisions[0].key.time_nanos, 10);
    assert_eq!(decisions[0].key.ordinal, 0);
    assert_eq!(decisions[0].key.choice_set, vec![5, 9, 777]);

    assert_eq!(decisions[1].chosen, 2);
    assert_eq!(decisions[1].key.kind, DecisionKind::TokioReady);
    assert_eq!(decisions[1].key.time_nanos, 11);
    assert_eq!(decisions[1].key.ordinal, 0);
    assert_eq!(decisions[1].key.choice_set, vec![1, 2, 3]);
}

#[test]
fn extract_decisions_falls_back_to_index_and_frontier_metadata() {
    let entry = |seq: u64| FrontierEntry {
        seq,
        kind: FrontierKind::Task,
        component_id: None,
        task_id: None,
    };
    let trace = trace(vec![TraceEvent::SchedulerDecision(SchedulerDecision {
        time_nanos: 10,
        chosen_index: 1,
        chosen_seq: None,
        frontier_seqs: vec![],
        frontier: vec![entry(10), entry(20)],
    })]);

    let decisions = extract_decisions(&trace);
    assert_eq!(decisions.len(), 1);
    assert_eq!(decisions[0].chosen, 20);
    assert_eq!(decisions[0].key.choice_set, vec![10, 20]);
}

#[test]
fn decision_script_normalizes_keys_on_insert_and_get() {
    let mut script = DecisionScript::new();

    // Insert an intentionally un-normalized key.
    script.insert(DecisionKey::new(DecisionKind::Frontier, 1, 0, vec![3, 2, 2, 1]), 2);

    // Lookup should succeed for differently-ordered/deduped variants.
    assert_eq!(
        script.get(&DecisionKey {
            kind: DecisionKind::Frontier,
            time_nanos: 1,
            ordinal: 0,
            choice_set: vec![1, 3, 2, 3, 2],
        }),
        Some(2)
    );

    // Different kind/time should not match.
    assert_eq!(
        script.get(&DecisionKey::new(DecisionKind::Frontier, 2, 0, vec![1, 2, 3])),
        None
    );
    assert_eq!(
        script.get(&DecisionKey::new(DecisionKind::TokioReady, 1, 0, vec![1, 2, 3])),
        None
    );
}

#[test]
fn decision_script_match_decision_reports_mismatched_choice_set() {
    let mut script = DecisionScript::new();
    script.insert(DecisionKey::new(DecisionKind::Frontier, 10, 0, vec![5, 9]), 5);

    // Same (kind,time), but different choice set should yield a typed mismatch.
    let err = script
        .match_decision(&DecisionKey::new(DecisionKind::Frontier, 10, 0, vec![5, 7]))
        .unwrap_err();

    assert_eq!(err.kind, DecisionKind::Frontier);
    assert_eq!(err.time_nanos, 10);
    assert_eq!(err.ordinal, 0);
    assert_eq!(err.expected_choice_set, vec![5, 9]);
    assert_eq!(err.observed_choice_set, vec![5, 7]);

    // If there's no matching (kind,time) at all, return Ok(None).
    assert!(script
        .match_decision(&DecisionKey::new(DecisionKind::Frontier, 11, 0, vec![5, 7]))
        .unwrap()
        .is_none());
    assert_eq!(
        script
            .match_decision(&DecisionKey::new(DecisionKind::Frontier, 10, 0, vec![9, 5]))
            .unwrap(),
        Some(5)
    );
}

#[test]
fn a_script_of_observed_decisions_repeats_them() {
    let recorded = trace(vec![
        TraceEvent::AsyncRuntimeDecision(AsyncRuntimeDecision {
            time_nanos: 1,
            chosen_index: 1,
            chosen_task_id: None,
            ready_task_ids: vec![4, 6],
        }),
        TraceEvent::AsyncRuntimeDecision(AsyncRuntimeDecision {
            time_nanos: 1,
            chosen_index: 0,
            chosen_task_id: Some(4),
            ready_task_ids: vec![4, 6],
        }),
    ]);
    let script = DecisionScript::from_observed(&extract_decisions(&recorded));
    assert_eq!(script.len(), 2);
    assert!(!script.is_empty());
    let key = |ordinal: u64| DecisionKey::new(DecisionKind::TokioReady, 1, ordinal, vec![6, 4]);
    assert_eq!(script.get(&key(0)), Some(6));
    assert_eq!(script.get(&key(1)), Some(4));
    assert_eq!(script.get(&key(2)), None);
    assert_eq!(DecisionChoice::ChosenSeq(3).id(), 3);
}

#[test]
fn keys_are_brought_into_normal_form() {
    let mut key =
        DecisionKey { kind: DecisionKind::Frontier, time_nanos: 1, ordinal: 2, choice_set: vec![2, 1, 2] };
    key.normalize();
    assert_eq!(key.choice_set, vec![1, 2]);
    assert_eq!(key.normalized().choice_set, vec![1, 2]);
}

#[test]
fn recorded_choices_among_events_are_replayed() {
    let mut recording = RecordingFrontierPolicy::new(UniformRandomFrontierPolicy::new(3), recorder());
    let mut chosen = Vec::new();
    for i in 0..10u64 {
        chosen.push(recording.select(at(i), &frontier(&[i, i + 7, i + 20])));
    }
    assert!(chosen.iter().any(|c| *c != 0));
    let recorded = recording.recorder.into_trace();
    assert_eq!(recorded.events.len(), 10);

    let mut replay = ReplayFrontierPolicy::from_trace_events(&recorded.events);
    for (i, c) in chosen.iter().enumerate() {
        let i = i as u64;
        assert_eq!(replay.select(at(i), &frontier(&[i, i + 7, i + 20])), *c);
    }
    assert_eq!(replay.error(), None);
}

#[test]
fn a_recorded_choice_describes_the_events() {
    let mut recording = RecordingFrontierPolicy::new(FifoFrontierPolicy, recorder());
    assert_eq!(recording.select(at(5), &frontier(&[8, 9])), 0);
    let recorded = recording.recorder.into_trace();
    let entry = |seq: u64| FrontierEntry {
        seq,
        kind: FrontierKind::Component,
        component_id: Some(Uuid::from_u128(seq as u128).to_string()),
        task_id: None,
    };
    assert_eq!(
        recorded.events,
        vec![TraceEvent::SchedulerDecision(SchedulerDecision {
            time_nanos: 5,
            chosen_index: 0,
            chosen_seq: Some(8),
            frontier_seqs: vec![8, 9],
            frontier: vec![entry(8), entry(9)],
        })]
    );
}

fn scheduler_decision(time: u64, index: usize, seq: Option<u64>, seqs: &[u64]) -> TraceEvent {
    TraceEvent::SchedulerDecision(SchedulerDecision {
        time_nanos: time,
        chosen_index: index,
        chosen_seq: seq,
        frontier_seqs: seqs.to_vec(),
        frontier: vec![],
    })
}

/// The first error of a replay of one decision against one choice.
fn frontier_error(recorded: Vec<TraceEvent>, time: u64, seqs: &[u64]) -> Option<ReplayFrontierError> {
    let mut replay = ReplayFrontierPolicy::from_trace_events(&recorded);
    let index = replay.select(at(time), &frontier(seqs));
    assert!(index < seqs.len());
    assert_eq!(replay.error(), replay.error());
    replay.take_error()
}

#[test]
fn a_replay_tells_where_the_choices_among_events_differ() {
    assert_eq!(
        frontier_error(vec![], 3, &[1, 2]),
        Some(ReplayFrontierError::OutOfDecisions { index: 0, time_nanos: 3, frontier_seqs: vec![1, 2] })
    );
    assert_eq!(
        frontier_error(vec![scheduler_decision(4, 0, Some(1), &[1, 2])], 3, &[1, 2]),
        Some(ReplayFrontierError::TimeMismatch { index: 0, expected: 4, actual: 3 })
    );
    assert_eq!(
        frontier_error(vec![scheduler_decision(3, 0, Some(1), &[1, 2])], 3, &[1, 3]),
        Some(ReplayFrontierError::FrontierMismatch {
            index: 0,
            time_nanos: 3,
            expected: vec![1, 2],
            actual: vec![1, 3],
        })
    );
    assert_eq!(
        frontier_error(vec![scheduler_decision(3, 0, Some(9), &[1, 2])], 3, &[1, 2]),
        Some(ReplayFrontierError::ChosenSeqNotFound {
            index: 0,
            time_nanos: 3,
            chosen: 9,
            frontier: vec![1, 2],
        })
    );
    assert_eq!(
        frontier_error(vec![scheduler_decision(3, 5, None, &[1, 2])], 3, &[1, 2]),
        Some(ReplayFrontierError::ChosenIndexOutOfBounds {
            index: 0,
            time_nanos: 3,
            chosen_index: 5,
            frontier_len: 2,
        })
    );
    assert_eq!(frontier_error(vec![scheduler_decision(3, 1, None, &[1, 2])], 3, &[1, 2]), None);
}

fn ready_decision(time: u64, index: usize, id: Option<u64>, ids: &[u64]) -> TraceEvent {
    TraceEvent::AsyncRuntimeDecision(AsyncRuntimeDecision {
        time_nanos: time,
        chosen_index: index,
        chosen_task_id: id,
        ready_task_ids: ids.to_vec(),
    })
}

fn ready_error(recorded: Vec<TraceEvent>, time: u64, ids: &[u64]) -> Option<ReplayReadyTaskError> {
    let mut replay = ReplayReadyTaskPolicy::from_trace_events(&recorded);
    let index = replay.select(at(time), &ready(ids));
    assert!(index < ids.len());
    assert_eq!(replay.error(), replay.error());
    replay.take_error()
}

#[test]
fn a_replay_tells_where_the_choices_among_ready_tasks_differ() {
    let other = ready_decision(1, 0, Some(7), &[7]);
    let mut replay = ReplayReadyTaskPolicy::from_trace_events(&vec![other]);
    assert_eq!(replay.select(at(1), &ready(&[7])), 0);
    replay.select(at(2), &ready(&[7, 8]));
    assert_eq!(
        replay.error(),
        Some(ReplayReadyTaskError::OutOfDecisions {
            index: 1,
            time_nanos: 2,
            ready_task_ids: vec![7, 8],
        })
    );
    assert_eq!(
        ready_error(vec![ready_decision(4, 0, Some(1), &[1, 2])], 3, &[1, 2]),
        Some(ReplayReadyTaskError::TimeMismatch { index: 0, expected: 4, actual: 3 })
    );
    assert_eq!(
        ready_error(vec![ready_decision(3, 0, Some(1), &[1, 2])], 3, &[1, 3]),
        Some(ReplayReadyTaskError::ReadySetMismatch {
            index: 0,
            time_nanos: 3,
            expected: vec![1, 2],
            actual: vec![1, 3],
        })
    );
    assert_eq!(
        ready_error(vec![ready_decision(3, 0, Some(9), &[1, 2])], 3, &[1, 2]),
        Some(ReplayReadyTaskError::ChosenTaskNotFound {
            index: 0,
            time_nanos: 3,
            chosen: 9,
            ready: vec![1, 2],
        })
    );
}

#[test]
fn a_replay_without_recorded_choices_is_first_come_first_served() {
    let mut replay = ReplayReadyTaskPolicy::from_trace_events(&vec![]);
    assert!(replay.is_fifo_fallback());
    assert_eq!(replay.select(at(3), &ready(&[5, 6])), 0);
    assert_eq!(replay.error(), None);
}

#[test]
fn recorded_choices_among_ready_tasks_are_replayed() {
    let mut recording =
        RecordingReadyTaskPolicy::new(UniformRandomReadyTaskPolicy::new(3), recorder());
    let mut chosen = Vec::new();
    for i in 0..10u64 {
        chosen.push(recording.select(at(i), &ready(&[i, i + 7, i + 20])));
    }
    assert!(chosen.iter().any(|c| *c != 0));
    let recorded = recording.recorder.into_trace();
    let mut replay = ReplayReadyTaskPolicy::from_trace_events(&recorded.events);
    for (i, c) in chosen.iter().enumerate() {
        let i = i as u64;
        assert_eq!(replay.select(at(i), &ready(&[i, i + 7, i + 20])), *c);
    }
    assert_eq!(replay.error(), None);
}

#[test]
fn scripted_choices_go_before_the_other_policy() {
    let mut script = DecisionScript::new();
    script.insert(DecisionKey::new(DecisionKind::Frontier, 1, 0, vec![5, 6]), 6);
    script.insert(DecisionKey::new(DecisionKind::TokioReady, 1, 1, vec![5, 6]), 6);
    let mut explore = ExplorationFrontierPolicy::new(FifoFrontierPolicy, Some(script), recorder());
    assert_eq!(explore.select(at(1), &frontier(&[5, 6])), 1);
    // The second choice at the same time is not scripted.
    assert_eq!(explore.select(at(1), &frontier(&[5, 6])), 0);
    let decisions = extract_decisions(&explore.recorder.into_trace());
    assert_eq!(decisions[0].chosen, 6);
    assert_eq!(decisions[1].chosen, 5);

    let mut script = DecisionScript::new();
    script.insert(DecisionKey::new(DecisionKind::TokioReady, 1, 1, vec![5, 6]), 6);
    let mut explore = ExplorationReadyTaskPolicy::new(FifoReadyTaskPolicy, Some(script), recorder());
    assert_eq!(explore.select(at(1), &ready(&[5, 6])), 0);
    assert_eq!(explore.select(at(1), &ready(&[5, 6])), 1);
    let mut plain = ExplorationReadyTaskPolicy::new(FifoReadyTaskPolicy, None, recorder());
    assert_eq!(plain.select(at(1), &ready(&[5, 6])), 0);
}

#[test]
fn signatures_name_time_and_events() {
    let signature = FrontierSignature::new(at(4), &frontier(&[3, 1]));
    assert_eq!(signature.time_nanos, 4);
    assert_eq!(signature.frontier_seqs, vec![3, 1]);
}

fn draw(site_id: u64, value: DrawValue) -> TraceEvent {
    TraceEvent::RandomDraw(RandomDraw { time_nanos: None, tag: "t".to_string(), site_id, value })
}

#[test]
fn recorded_draws_are_repeated() {
    let bits = 0.25f64.to_bits();
    let mut recording = recorder();
    record_draw(&mut recording, DrawSite::new("t", 7), bits);
    let recorded = recording.into_trace();
    assert_eq!(recorded.events, vec![draw(7, DrawValue::F64(bits))]);

    let mut replay = ReplayRandomProvider::new(&recorded, recorder());
    assert!(replay.has_draws());
    assert_eq!(replay.check_next(DrawSite::new("t", 7)), Ok(()));
    assert_eq!(
        replay.check_next(DrawSite::new("t", 8)),
        Err(ReplayDrawError::SiteMismatch { expected: 8, recorded: 7 })
    );
    assert_eq!(replay.sample_exp_seconds(DrawSite::new("t", 7)), bits);
    assert!(!replay.has_draws());
    assert_eq!(replay.check_next(DrawSite::new("t", 7)), Err(ReplayDrawError::Exhausted));
    assert_eq!(replay.into_recorder().into_trace(), recorded);

    let wrong = trace(vec![draw(7, DrawValue::Bool(true))]);
    let replay = ReplayRandomProvider::new(&wrong, recorder());
    assert_eq!(replay.check_next(DrawSite::new("t", 7)), Err(ReplayDrawError::UnexpectedValue));
}

#[test]
fn chained_draws_go_on_after_the_recorded_ones() {
    let bits = 0.5f64.to_bits();
    let fresh = 0.75f64.to_bits();
    let prefix = trace(vec![draw(7, DrawValue::F64(bits))]);
    let mut chained = ChainedRandomProvider::new(Some(&prefix), recorder());
    let site = DrawSite::new("t", 7);
    assert_eq!(chained.sample_exp_seconds(site), ChainedDraw::Replayed(bits));
    assert_eq!(chained.sample_exp_seconds(site), ChainedDraw::Fresh);
    chained.record(site, fresh);
    assert_eq!(
        chained.into_recorder().into_trace().events,
        vec![draw(7, DrawValue::F64(bits)), draw(7, DrawValue::F64(fresh))]
    );
    let mut without = ChainedRandomProvider::new(None, recorder());
    assert_eq!(without.check_next(site), Ok(()));
    assert_eq!(without.sample_exp_seconds(site), ChainedDraw::Fresh);
}

fn acquire(mutex_id: u64) -> ConcurrencyEvent {
    ConcurrencyEvent::MutexAcquire { mutex_id, task_id: 2, time_nanos: Some(3) }
}

#[test]
fn events_of_locks_are_recorded_and_validated() {
    let mut tee = TeeConcurrencyRecorder::new(vec![
        RecordingConcurrencyRecorder::new(recorder()),
        RecordingConcurrencyRecorder::new(recorder()),
    ]);
    tee.record(acquire(1));
    tee.record(ConcurrencyEvent::AtomicFetchAdd {
        site_id: 5,
        task_id: 2,
        time_nanos: None,
        ordering: AtomicOrdering::AcqRel,
        prev: 1,
        next: 3,
        delta: 2,
    });
    let mut traces = tee.recorders.into_iter().map(|r| r.recorder.into_trace());
    let first = traces.next().unwrap();
    assert_eq!(first, traces.next().unwrap());
    assert_eq!(first.events.len(), 2);

    let mut validator = ReplayConcurrencyValidator::from_trace_events(&first.events);
    assert!(validator.has_expected_events());
    validator.record(acquire(1));
    assert_eq!(validator.error(), None);
    validator.record(acquire(1));
    let error = validator.error().unwrap();
    match error {
        ReplayConcurrencyError::Mismatch { index, expected, actual } => {
            assert_eq!(index, 1);
            assert_eq!(
                expected.event,
                ConcurrencyEventKind::AtomicFetchAdd {
                    site_id: 5,
                    ordering: AtomicOrdering::AcqRel,
                    prev: 1,
                    next: 3,
                    delta: 2,
                }
            );
            assert_eq!(actual, to_trace_event(acquire(1)));
            assert_eq!(actual.task_id, 2);
            assert_eq!(actual.time_nanos, Some(3));
        }
        ReplayConcurrencyError::OutOfEvents { .. } => panic!("there is an event left"),
    }
    assert_eq!(validator.take_error(), Some(error));
    assert_eq!(validator.take_error(), None);

    let mut empty = ReplayConcurrencyValidator::from_trace_events(&vec![]);
    assert!(!empty.has_expected_events());
    empty.record(acquire(1));
    assert_eq!(empty.error(), Some(ReplayConcurrencyError::OutOfEvents { index: 0 }));
    assert_eq!(
        to_atomic_ordering(std::sync::atomic::Ordering::Release),
        AtomicOrdering::Release
    );
    assert_eq!(to_atomic_ordering(std::sync::atomic::Ordering::SeqCst), AtomicOrdering::SeqCst);
}

#[test]
fn a_table_says_what_is_chosen() {
    let mut table = TablePolicy::new();
    assert!(table.is_empty());
    let key = DecisionKey::new(DecisionKind::Frontier, 1, 0, vec![5, 6]);
    table.set_deterministic(key.clone(), 6);
    assert_eq!(table.len(), 1);
    assert_eq!(table.get(&key), Some(&ActionDistribution::Deterministic { chosen_id: 6 }));
    assert_eq!(table.choose_frontier(1, 0, &vec![6, 5]), TableAction::Chosen(6));
    assert_eq!(table.choose_frontier(1, 1, &vec![6, 5]), TableAction::Absent);
    assert_eq!(table.choose_ready(1, 0, &vec![6, 5]), TableAction::Absent);
    let ready_key = DecisionKey::new(DecisionKind::TokioReady, 1, 0, vec![5, 6]);
    let weights = vec![1.0f64.to_bits(), 3.0f64.to_bits()];
    table.set(
        ready_key.clone(),
        ActionDistribution::Categorical { ids: vec![5, 6], weights: weights.clone() },
    );
    assert_eq!(
        table.choose_ready(1, 0, &vec![5, 6]),
        TableAction::Draw { ids: vec![5, 6], weights }
    );
    let script = table.to_decision_script();
    assert_eq!(script.get(&key), Some(6));
    assert_eq!(script.get(&ready_key), None);
    assert_eq!(table.keys().len(), 2);
    table.remove(&key);
    assert_eq!(table.get(&key), None);
    assert_eq!(table.copied().len(), 1);
    table.set(
        ready_key,
        ActionDistribution::Categorical { ids: vec![5, 6], weights: vec![0] },
    );
    assert_eq!(table.choose_ready(1, 0, &vec![5, 6]), TableAction::Absent);
}

#[test]
fn tables_go_before_the_other_policy() {
    let mut table = TablePolicy::new();
    table.set_deterministic(DecisionKey::new(DecisionKind::Frontier, 1, 0, vec![5, 6]), 6);
    let mut policy = TableFrontierPolicy::new(table, FifoFrontierPolicy, recorder());
    assert_eq!(policy.next_action(at(1), &frontier(&[5, 6])), TableAction::Chosen(6));
    assert_eq!(policy.select_picked(at(1), &frontier(&[5, 6]), Some(6)), 1);
    assert_eq!(policy.next_action(at(1), &frontier(&[5, 6])), TableAction::Absent);
    assert_eq!(policy.select_picked(at(1), &frontier(&[5, 6]), None), 0);
    assert_eq!(policy.select_picked(at(1), &frontier(&[5, 6]), Some(9)), 0);
    assert_eq!(policy.recorder.into_trace().events.len(), 3);

    let mut table = TablePolicy::new();
    table.set_deterministic(DecisionKey::new(DecisionKind::TokioReady, 1, 0, vec![5, 6]), 6);
    let mut policy = TableReadyTaskPolicy::new(table, FifoReadyTaskPolicy, recorder());
    assert_eq!(policy.next_action(at(1), &ready(&[5, 6])), TableAction::Chosen(6));
    assert_eq!(policy.select_picked(at(1), &ready(&[5, 6]), Some(6)), 1);
    assert_eq!(policy.select_picked(at(1), &ready(&[5, 6]), Some(6)), 1);
    assert_eq!(policy.next_action(at(1), &ready(&[5, 6])), TableAction::Absent);
}

fn config() -> HarnessConfig {
    HarnessConfig {
        sim_config: SimulationConfig { seed: 1 },
        scenario: "x".to_string(),
        install_tokio: true,
        tokio_ready: None,
        tokio_mutex: None,
        record_concurrency: false,
        frontier: None,
        trace_path: "trace.json".to_string(),
        trace_format: TraceFormat::Json,
    }
}

#[test]
fn runs_are_planned_as_configured() {
    let plain = plan_recorded(&config(), true).unwrap();
    assert_eq!(plain.frontier, PolicyPlan::Untouched);
    assert_eq!(plain.tokio.unwrap().ready, PolicyPlan::Untouched);

    let random = HarnessFrontierPolicy::UniformRandom { seed: 4 };
    let cfg = HarnessConfig {
        frontier: Some(HarnessFrontierConfig { policy: random, record_decisions: true }),
        tokio_ready: Some(HarnessTokioReadyConfig::default()),
        tokio_mutex: Some(HarnessTokioMutexConfig::default()),
        record_concurrency: true,
        ..config()
    };
    let plan = plan_recorded(&cfg, true).unwrap();
    assert_eq!(plan.frontier, PolicyPlan::Recording(random));
    let tokio = plan.tokio.unwrap();
    assert_eq!(tokio.ready, PolicyPlan::Plain(HarnessTokioReadyPolicy::Fifo));
    assert_eq!(tokio.mutex, Some(HarnessTokioMutexPolicy::Fifo));
    assert!(tokio.record_concurrency);

    let control = HarnessControl {
        decision_script: Some(DecisionScript::new()),
        explore_frontier: true,
        explore_tokio_ready: true,
    };
    let plan = plan_controlled(&cfg, &control, true).unwrap();
    assert_eq!(plan.frontier, PolicyPlan::Exploring(random));
    assert_eq!(
        plan.tokio.unwrap().ready,
        PolicyPlan::Exploring(HarnessTokioReadyPolicy::Fifo)
    );
    let plan = plan_controlled(&config(), &control, true).unwrap();
    assert_eq!(plan.frontier, PolicyPlan::Exploring(HarnessFrontierPolicy::Fifo));
    assert_eq!(HarnessFrontierConfig::default().policy, HarnessFrontierPolicy::Fifo);
}

#[test]
fn the_runtime_has_to_be_there_where_it_is_configured() {
    assert_eq!(plan_recorded(&config(), false), Err(HarnessError::TokioFeatureDisabled));
    let without = HarnessConfig { install_tokio: false, ..config() };
    assert_eq!(plan_recorded(&without, false).unwrap().tokio, None);
    let cfg = HarnessConfig { install_tokio: false, record_concurrency: true, ..config() };
    assert_eq!(plan_recorded(&cfg, true), Err(HarnessError::TokioPolicyWithoutTokio));
    let control = HarnessControl { explore_tokio_ready: true, ..HarnessControl::default() };
    let without = HarnessConfig { install_tokio: false, ..config() };
    assert_eq!(
        plan_controlled(&without, &control, true),
        Err(HarnessError::TokioPolicyWithoutTokio)
    );
    assert_eq!(install_tokio_if_requested(false, false), Ok(false));
    assert_eq!(install_tokio_if_requested(true, true), Ok(true));
    assert_eq!(
        install_tokio_if_requested(true, false),
        Err(HarnessError::TokioFeatureDisabled)
    );
}

#[test]
fn replays_take_their_choices_from_the_trace() {
    let input = trace(vec![
        scheduler_decision(1, 0, Some(2), &[2, 3]),
        TraceEvent::Concurrency(to_trace_event(acquire(1))),
    ]);
    let cfg = HarnessConfig { frontier: Some(HarnessFrontierConfig::default()), ..config() };
    assert_eq!(
        plan_replayed(&cfg, &input, true).err(),
        Some(HarnessReplayError::FrontierConfigNotAllowed)
    );
    let cfg = HarnessConfig { tokio_ready: Some(HarnessTokioReadyConfig::default()), ..config() };
    assert_eq!(
        plan_replayed(&cfg, &input, true).err(),
        Some(HarnessReplayError::TokioReadyConfigNotAllowed)
    );
    assert_eq!(
        plan_replayed(&config(), &input, false).err(),
        Some(HarnessReplayError::Harness(HarnessError::TokioFeatureDisabled))
    );
    let plan = plan_replayed(&config(), &input, true).unwrap();
    let mut frontier_policy = plan.frontier.unwrap();
    assert_eq!(frontier_policy.select(at(1), &frontier(&[2, 3])), 0);
    let tokio = plan.tokio.unwrap();
    assert!(tokio.ready.is_fifo_fallback());
    assert_eq!(tokio.concurrency, ConcurrencyPlan::Validate);
    let cfg = HarnessConfig { record_concurrency: true, ..config() };
    let tokio = plan_replayed(&cfg, &input, true).unwrap().tokio.unwrap();
    assert_eq!(tokio.concurrency, ConcurrencyPlan::ValidateAndRecord);
    let plan = plan_replayed(&cfg, &trace(vec![]), true).unwrap();
    assert!(plan.frontier.is_none());
    assert_eq!(plan.tokio.unwrap().concurrency, ConcurrencyPlan::Record);
    let plan = plan_replayed(&config(), &trace(vec![]), true).unwrap();
    assert_eq!(plan.tokio.unwrap().concurrency, ConcurrencyPlan::Off);
}

#[test]
fn a_difference_goes_before_a_panic() {
    let ready = ReplayReadyTaskError::TimeMismatch { index: 0, expected: 1, actual: 2 };
    let front = ReplayFrontierError::TimeMismatch { index: 0, expected: 1, actual: 2 };
    let conc = ReplayConcurrencyError::OutOfEvents { index: 0 };
    let message = Some("boom".to_string());
    assert_eq!(
        replay_outcome(Some(ready.clone()), Some(front.clone()), Some(conc), message.clone()),
        Err(HarnessReplayError::TokioReady(ready))
    );
    assert_eq!(
        replay_outcome(None, Some(front.clone()), Some(conc), message.clone()),
        Err(HarnessReplayError::Frontier(front))
    );
    assert_eq!(
        replay_outcome(None, None, Some(conc), message.clone()),
        Err(HarnessReplayError::Concurrency(conc))
    );
    assert_eq!(
        replay_outcome(None, None, None, message),
        Err(HarnessReplayError::Panic { message: "boom".to_string() })
    );
    assert_eq!(replay_outcome(None, None, None, None), Ok(()));
}

#[test]
fn the_extension_of_a_file_names_its_format() {
    assert_eq!(format_from_extension(Some("json")), TraceFormat::Json);
    assert_eq!(format_from_extension(Some("bin")), TraceFormat::Postcard);
    assert_eq!(format_from_extension(Some("postcard")), TraceFormat::Postcard);
    assert_eq!(format_from_extension(Some("txt")), TraceFormat::Json);
    assert_eq!(format_from_extension(None), TraceFormat::Json);
    assert_eq!(TraceIoConfig::default().format, TraceFormat::Json);
}

#[test]
fn a_decision_with_another_ordinal_does_not_match() {
    let mut script = DecisionScript::new();
    assert!(script.is_empty());
    script.insert(DecisionKey::new(DecisionKind::Frontier, 10, 0, vec![5, 9]), 5);
    assert!(!script.is_empty());
    let err = script
        .match_decision(&DecisionKey::new(DecisionKind::Frontier, 10, 1, vec![9, 5]))
        .unwrap_err();
    assert_eq!(err.ordinal, 1);
    assert_eq!(err.expected_choice_set, vec![5, 9]);
    assert_eq!(err.observed_choice_set, vec![5, 9]);

    // The alternatives of a decision with the same ordinal are named first.
    script.insert(DecisionKey::new(DecisionKind::Frontier, 10, 1, vec![2, 3]), 2);
    let err = script
        .match_decision(&DecisionKey::new(DecisionKind::Frontier, 10, 1, vec![5, 9]))
        .unwrap_err();
    assert_eq!(err.expected_choice_set, vec![2, 3]);
    assert_eq!(
        script.match_decision(&DecisionKey::new(DecisionKind::TokioReady, 10, 1, vec![2, 3])).ok(),
        Some(None)
    );
}

#[test]
fn a_decision_names_its_choice_by_identifier_or_index() {
    let decision = |chosen_index, chosen_task_id| {
        trace(vec![TraceEvent::AsyncRuntimeDecision(AsyncRuntimeDecision {
            time_nanos: 1,
            chosen_index,
            chosen_task_id,
            ready_task_ids: vec![4, 5],
        })])
    };
    assert!(names_its_choices(&trace(vec![])));
    assert!(names_its_choices(&decision(1, None)));
    assert!(names_its_choices(&decision(2, Some(5))));
    assert!(!names_its_choices(&decision(2, None)));
}

#[test]
fn events_are_handed_to_recorders_of_different_kinds() {
    let mut recording = RecordingConcurrencyRecorder::new(recorder());
    recording.record(acquire(1));
    let expected = recording.recorder.into_trace();
    let validator = ReplayConcurrencyValidator::from_trace_events(&expected.events);
    let mut tee = TeeConcurrencyRecorder::new(vec![
        EitherRecorder::First(validator),
        EitherRecorder::Second(RecordingConcurrencyRecorder::new(recorder())),
    ]);
    tee.record(acquire(1));
    tee.record(acquire(2));
    for recorder in tee.recorders {
        match recorder {
            EitherRecorder::First(validator) => {
                assert_eq!(validator.error(), Some(ReplayConcurrencyError::OutOfEvents { index: 1 }));
            }
            EitherRecorder::Second(recording) => {
                let events = recording.recorder.into_trace().events;
                assert_eq!(events.len(), 2);
                assert_eq!(events[0], expected.events[0]);
            }
        }
    }
}
