//! Studies of many runs: monitors, estimates, splitting and the search for policies.

use descartes::component::Component;
use descartes::explore::estimate::{
    estimate_monte_carlo, estimate_with_splitting, EstimateError, FoundCounterexample, Particle,
    ParticleOutcome, SplittingRun,
};
use descartes::explore::harness::HarnessError;
use descartes::explore::monitor::{
    BaselineJudge, Monitor, MonitorConfig, QueueId, QueueTotal, WindowSummary,
};
use descartes::explore::mutation::mutate_one;
use descartes::explore::policy::{ActionDistribution, TablePolicy};
use descartes::explore::policy_search::{
    search_policy, FailurePhase, PolicySearch, PolicySearchConfig, PolicySearchError,
    PolicySearchObjective, RolloutOutcome, SearchPhase, TrialCounts, TrialPlan,
};
use descartes::explore::rollout::{step_before, watch_step, WatchAction};
use descartes::explore::schedule_explore::{DecisionKey, DecisionKind, DecisionScript};
use descartes::explore::seeds::{derive_seed, rollout_seeds};
use descartes::explore::splitting::{
    find_with_splitting, FoundBug, SplitOutcome, SplitParticle, SplittingConfig, SplittingError,
    SplittingSearch,
};
use descartes::explore::trace::{AsyncRuntimeDecision, Trace, TraceEvent, TraceMeta};
use descartes::frontier_policy::FifoFrontierPolicy;
use descartes::key::Key;
use descartes::scheduler::Scheduler;
use descartes::simulation::Simulation;
use descartes::task::Task;
use descartes::time::SimTime;
use rand::rngs::StdRng;
use rand::SeedableRng;
use std::cell::RefCell;
use std::time::Duration;

fn trace(scenario: &str, events: Vec<TraceEvent>) -> Trace {
    Trace { meta: TraceMeta { seed: 1, scenario: scenario.to_string() }, events }
}

fn ready_decision(time: u64, ids: &[u64]) -> TraceEvent {
    TraceEvent::AsyncRuntimeDecision(AsyncRuntimeDecision {
        time_nanos: time,
        chosen_index: 0,
        chosen_task_id: Some(ids[0]),
        ready_task_ids: ids.to_vec(),
    })
}

fn key(kind: DecisionKind, time: u64, ordinal: u64, ids: &[u64]) -> DecisionKey {
    DecisionKey::new(kind, time, ordinal, ids.to_vec())
}

fn millis(ms: u64) -> SimTime {
    SimTime::from_millis(ms)
}

fn chosen(table: &TablePolicy, key: &DecisionKey) -> Option<u64> {
    match table.get(key) {
        Some(ActionDistribution::Deterministic { chosen_id }) => Some(*chosen_id),
        _ => None,
    }
}

#[test]
fn a_mutation_gives_the_earliest_decision_another_alternative() {
    let early = key(DecisionKind::TokioReady, 5, 0, &[1, 2]);
    let known = vec![
        key(DecisionKind::Frontier, 1, 0, &[9]),
        key(DecisionKind::Frontier, 5, 0, &[3, 4]),
        key(DecisionKind::TokioReady, 8, 1, &[5, 6]),
        early.clone(),
    ];
    let mut rng = StdRng::seed_from_u64(1);
    let table = mutate_one(&TablePolicy::new(), &known, &mut rng).unwrap();
    assert_eq!(table.len(), 1);
    // Without an entry the first alternative counts as taken.
    assert_eq!(chosen(&table, &early), Some(2));
    let back = mutate_one(&table, &known, &mut rng).unwrap();
    assert_eq!(chosen(&back, &early), Some(1));
}

#[test]
fn a_mutation_needs_a_decision_with_alternatives() {
    let mut rng = StdRng::seed_from_u64(1);
    assert!(mutate_one(&TablePolicy::new(), &vec![], &mut rng).is_none());
    let known = vec![key(DecisionKind::Frontier, 1, 0, &[9])];
    assert!(mutate_one(&TablePolicy::new(), &known, &mut rng).is_none());
}

#[test]
fn a_mutation_does_not_depend_on_the_order_of_decisions() {
    let a = key(DecisionKind::Frontier, 5, 0, &[1, 2, 3]);
    let b = key(DecisionKind::Frontier, 5, 1, &[1, 2, 4]);
    let c = key(DecisionKind::Frontier, 5, 1, &[1, 2]);
    let one = vec![a.clone(), b.clone(), c.clone()];
    let other = vec![c.clone(), a.clone(), b.clone()];
    for seed in 0..20 {
        let x = mutate_one(&TablePolicy::new(), &one, &mut StdRng::seed_from_u64(seed)).unwrap();
        let y = mutate_one(&TablePolicy::new(), &other, &mut StdRng::seed_from_u64(seed)).unwrap();
        for k in [&a, &b, &c] {
            assert_eq!(x.get(k), y.get(k));
        }
    }
}

fn search_config() -> PolicySearchConfig {
    PolicySearchConfig {
        budget_policies: 2,
        trials_per_policy: 2,
        holdout_trials: 3,
        max_failure_traces: 2,
        ..PolicySearchConfig::default()
    }
}

#[test]
fn a_search_needs_trials() {
    let cfg = PolicySearchConfig { trials_per_policy: 0, holdout_trials: 0, ..search_config() };
    assert_eq!(
        PolicySearch::<()>::start(cfg).err(),
        Some(PolicySearchError::ZeroTrialsPerPolicy)
    );
    let cfg = PolicySearchConfig { holdout_trials: 0, ..search_config() };
    assert_eq!(
        PolicySearch::<()>::start(cfg).err(),
        Some(PolicySearchError::ZeroHoldoutTrials)
    );
    let cfg = PolicySearchConfig::default();
    assert_eq!(cfg.budget_policies, 100);
    assert_eq!(f64::from_bits(cfg.confidence_bits), 0.95);
    assert_eq!(cfg.objective, PolicySearchObjective::WilsonLowerBound);
    assert_eq!(cfg.end_time, SimTime::from_secs(60));
    assert_eq!(cfg.scenario, "policy_search");
}

#[test]
fn a_search_evaluates_the_empty_table_and_its_mutations() {
    let mut search = PolicySearch::<u32>::start(search_config()).unwrap();
    let finished = |hit_bad: bool| RolloutOutcome::Finished { status: 7, hit_bad };

    // The empty table.
    let plan = search.next_trial().unwrap();
    assert_eq!(plan.phase, FailurePhase::Search);
    assert_eq!((plan.policy_index, plan.trial_index), (0, 0));
    assert_eq!(plan.seeds, rollout_seeds(1, 0));
    assert!(search.script().is_none());
    search.record_trial(trace("a", vec![ready_decision(4, &[1, 2])]), finished(false));
    assert_eq!(search.next_trial().unwrap().seeds, rollout_seeds(1, 1));
    search.record_trial(trace("b", vec![ready_decision(4, &[1, 2])]), finished(false));
    assert!(search.next_trial().is_none());
    assert_eq!(search.observed_keys.len(), 1);
    search.finish_evaluation(true);

    // The first mutation does better.
    assert_eq!(search.phase, SearchPhase::Candidate);
    let script = search.script().unwrap();
    let changed = key(DecisionKind::TokioReady, 4, 0, &[1, 2]);
    assert_eq!(script.get(&changed), Some(2));
    assert_eq!(search.next_trial().unwrap().policy_index, 1);
    assert_eq!(search.next_trial().unwrap().seeds, rollout_seeds(1, 0));
    search.record_trial(trace("c", vec![]), finished(true));
    search.record_trial(
        trace("d", vec![]),
        RolloutOutcome::Panicked { message: "boom".to_string() },
    );
    search.finish_evaluation(true);
    assert_eq!(chosen(&search.best_policy, &changed), Some(2));

    // The second one does not.
    assert_eq!(search.phase, SearchPhase::Candidate);
    assert_eq!(search.script().unwrap().get(&changed), Some(1));
    search.record_trial(trace("e", vec![]), finished(true));
    search.record_trial(trace("f", vec![]), finished(false));
    search.finish_evaluation(false);

    // The best one is evaluated again, on other seeds.
    assert_eq!(search.phase, SearchPhase::Holdout);
    let plan = search.next_trial().unwrap();
    assert_eq!(plan.phase, FailurePhase::Holdout);
    assert_eq!(plan.policy_index, 3);
    assert_eq!(plan.seeds, rollout_seeds(1 ^ 0xC0FF_EE00_C0FF_EE00, 0));
    assert_ne!(plan.seeds.model_seed, rollout_seeds(1, 0).model_seed);
    for _ in 0..3 {
        search.record_trial(trace("g", vec![ready_decision(9, &[3, 4])]), finished(true));
    }
    search.finish_evaluation(false);
    assert_eq!(search.phase, SearchPhase::Done);

    let report = search.into_report();
    assert_eq!(chosen(&report.best_policy, &changed), Some(2));
    let counts: Vec<(usize, u64, u64)> =
        report.evaluations.iter().map(|e| (e.policy_index, e.successes, e.trials)).collect();
    assert_eq!(counts, vec![(0, 0, 2), (1, 2, 2), (2, 1, 2)]);
    assert_eq!(report.holdout, TrialCounts { trials: 3, successes: 3 });
    assert_eq!(report.observed_keys, vec![changed]);
    // Only so many failures are kept.
    assert_eq!(report.failures.len(), 2);
    assert_eq!(report.failures[0].status, Some(7));
    assert_eq!(report.failures[0].trace.meta.scenario, "c");
    assert_eq!(report.failures[1].panic_message, Some("boom".to_string()));
    assert_eq!(report.failures[1].status, None);
    assert_eq!(report.failures[1].trial_index, 1);
}

#[test]
fn a_search_without_decisions_goes_to_its_end() {
    let mut search = PolicySearch::<()>::start(search_config()).unwrap();
    for _ in 0..2 {
        search.record_trial(
            trace("a", vec![]),
            RolloutOutcome::Finished { status: (), hit_bad: false },
        );
    }
    search.finish_evaluation(false);
    assert_eq!(search.phase, SearchPhase::Holdout);
    assert_eq!(search.next_trial().unwrap().policy_index, 1);
}

#[test]
fn trials_are_counted_on_derived_seeds() {
    let seeds = RefCell::new(Vec::new());
    let counts = estimate_monte_carlo(4, 9, |seed: u64| {
        seeds.borrow_mut().push(seed);
        Ok(seeds.borrow().len() % 2 == 0)
    });
    assert_eq!(counts, Ok(TrialCounts { trials: 4, successes: 2 }));
    assert_eq!(
        *seeds.borrow(),
        vec![derive_seed(9, 0), derive_seed(9, 1), derive_seed(9, 2), derive_seed(9, 3)]
    );
    assert_eq!(
        estimate_monte_carlo(0, 9, |_: u64| Ok(true)),
        Err(EstimateError::ZeroTrials)
    );
    assert_eq!(
        estimate_monte_carlo(3, 9, |_: u64| Err(HarnessError::TokioFeatureDisabled)),
        Err(EstimateError::Harness(HarnessError::TokioFeatureDisabled))
    );
}

fn outcome(prefix: Option<&str>, terminal: Option<u32>) -> ParticleOutcome<u32> {
    ParticleOutcome {
        prefix: prefix.map(|p| trace(p, vec![])),
        terminal: terminal.map(|status| FoundCounterexample { trace: trace("bug", vec![]), status }),
    }
}

#[test]
fn an_estimate_goes_on_from_successful_particles() {
    assert_eq!(
        SplittingRun::<u32>::start(1, 0, 5).err(),
        Some(EstimateError::ZeroParticles)
    );
    let mut run = SplittingRun::<u32>::start(1, 3, 5).unwrap();
    assert_eq!(run.next_particle().unwrap().seed, derive_seed(5, 0));
    assert!(run.next_particle().unwrap().prefix.is_none());
    run.record(outcome(Some("p"), None));
    assert_eq!(run.next_particle().unwrap().seed, derive_seed(5, 1));
    run.record(outcome(None, None));
    run.record(outcome(Some("q"), Some(1)));
    assert!(run.next_particle().is_none());
    run.finish_stage();
    assert!(!run.done);
    for j in 0..3u64 {
        let pick = derive_seed(5 ^ 0, j) as usize % 2;
        let particle = run.next_particle().unwrap();
        assert_eq!(
            particle.prefix.as_ref().unwrap().meta.scenario,
            ["p", "q"][pick]
        );
        assert_eq!(particle.seed, derive_seed(5 ^ 0xD1B5_4A32_D192_ED03, j));
        run.record(outcome(Some("ignored"), if j == 1 { Some(2) } else { None }));
    }
    run.finish_stage();
    assert!(run.done);
    let counts = run.into_counts();
    assert_eq!(counts.particles, 3);
    assert_eq!(counts.stage_successes, vec![2, 1]);
    // A run that ends successfully shows an example.
    assert_eq!(counts.example.unwrap().status, 1);
}

#[test]
fn an_estimate_stops_where_no_particle_is_successful() {
    let mut run = SplittingRun::<u32>::start(2, 2, 5).unwrap();
    run.record(outcome(None, None));
    run.record(outcome(None, None));
    run.finish_stage();
    assert!(run.done);
    assert_eq!(run.into_counts().stage_successes, vec![0]);
}

#[test]
fn runs_that_come_close_are_split() {
    let cfg = SplittingConfig { max_particles_per_level: 3, ..SplittingConfig::default() };
    assert_eq!(
        cfg.levels.iter().map(|b| f64::from_bits(*b)).collect::<Vec<_>>(),
        vec![50.0, 150.0, 300.0]
    );
    let mut search = SplittingSearch::<u32>::start(cfg, 8);
    assert_eq!(search.next_particle().unwrap().continuation_seed, 8);
    search.record(SplitOutcome::Reached(trace("p", vec![])));
    search.finish_level();
    assert_eq!(search.level, 1);
    let level = 50.0f64.to_bits().wrapping_mul(0x9E37_79B9);
    let seeds: Vec<u64> = search.particles.iter().map(|p| p.continuation_seed).collect();
    assert_eq!(seeds, vec![8 ^ level, 8 ^ level ^ 0xD1B5_4A32_D192_ED03]);
    assert_ne!(seeds[0], seeds[1]);
    // There is no room for all branches.
    search.record(SplitOutcome::Reached(trace("q", vec![])));
    search.record(SplitOutcome::Reached(trace("r", vec![])));
    assert_eq!(search.next_level.len(), 3);
    assert_eq!(search.next_level[2].prefix.as_ref().unwrap().meta.scenario, "r");
    let level = 150.0f64.to_bits().wrapping_mul(0x9E37_79B9);
    assert_eq!(search.next_level[2].continuation_seed, seeds[1] ^ level ^ (1 << 32));
    search.finish_level();
    search.record(SplitOutcome::Missed);
    search.record(SplitOutcome::Found(FoundBug { trace: trace("bug", vec![]), status: 4 }));
    assert!(search.done);
    assert!(search.next_particle().is_none());
    assert_eq!(search.found.unwrap().status, 4);
}

#[test]
fn a_search_by_splitting_ends() {
    let mut search = SplittingSearch::<u32>::start(SplittingConfig::default(), 8);
    search.record(SplitOutcome::Missed);
    search.finish_level();
    assert!(search.done);
    assert!(search.found.is_none());
    let cfg = SplittingConfig { levels: vec![], ..SplittingConfig::default() };
    assert!(SplittingSearch::<u32>::start(cfg, 8).done);
    let cfg = SplittingConfig { levels: vec![0], ..SplittingConfig::default() };
    let mut search = SplittingSearch::<u32>::start(cfg, 8);
    search.record(SplitOutcome::Reached(trace("p", vec![])));
    search.finish_level();
    assert!(search.done);
}

/// Says what it was told to say, and counts the windows of the baseline.
struct Judge {
    close: Vec<bool>,
    warmup: usize,
}

impl BaselineJudge for Judge {
    fn judge(&mut self, _window: &WindowSummary, warming_up: bool) -> bool {
        if warming_up {
            self.warmup += 1;
            true
        } else {
            self.close.remove(0)
        }
    }
}

fn judge(close: &[bool]) -> Judge {
    Judge { close: close.to_vec(), warmup: 0 }
}

fn monitor_config() -> MonitorConfig {
    MonitorConfig {
        baseline_warmup_windows: 1,
        recovery_hold_windows: 2,
        metastable_persist_windows: 3,
        ..MonitorConfig::default()
    }
}

#[test]
fn windows_sum_up_what_happens_in_them() {
    let mut monitor = Monitor::new(monitor_config(), SimTime::zero());
    let mut j = judge(&[true]);
    let queue = QueueId(1);
    monitor.observe_queue_len(millis(200), queue, 5, &mut j);
    monitor.observe_queue_len(millis(700), queue, 2, &mut j);
    monitor.observe_queue_len(millis(800), QueueId(2), 1, &mut j);
    monitor.observe_drop(millis(800), &mut j);
    monitor.observe_timeout(millis(800), &mut j);
    monitor.observe_retry(millis(800), &mut j);
    monitor.observe_retry(millis(800), &mut j);
    monitor.observe_complete(millis(900), 20, true, &mut j);
    monitor.observe_complete(millis(900), 30, true, &mut j);
    monitor.observe_complete(millis(900), 0, false, &mut j);
    assert!(!monitor.window_is_due(millis(999)));
    assert!(monitor.window_is_due(millis(1000)));
    assert!(monitor.can_settle(millis(1000)));
    monitor.flush_up_to(millis(2100), &mut j);
    assert_eq!(j.warmup, 1);
    assert_eq!(monitor.timeline().len(), 2);

    let w = &monitor.timeline()[0];
    assert_eq!((w.window_start, w.window_end), (millis(0), millis(1000)));
    assert_eq!(
        w.queues,
        vec![
            QueueTotal { len: 2, integral_len_nanos: (5 * 500 + 2 * 300) * 1_000_000 },
            QueueTotal { len: 1, integral_len_nanos: 200 * 1_000_000 },
        ]
    );
    assert_eq!(w.queue_max, 5);
    assert_eq!((w.completed_in_time, w.completed_late), (2, 1));
    assert_eq!((w.dropped, w.timeouts, w.retries), (1, 1, 2));
    assert_eq!(w.latency_count, 2);
    assert_eq!((w.latency_p95_ms, w.latency_p99_ms), (Some(30), Some(30)));
    assert_eq!(w.close_to_baseline, None);

    let w = &monitor.timeline()[1];
    assert_eq!((w.window_start, w.window_end), (millis(1000), millis(2000)));
    assert_eq!(w.queue_max, 2);
    assert_eq!(w.queues[0].integral_len_nanos, 2_000_000_000);
    assert_eq!(w.completed_in_time, 0);
    assert_eq!(w.latency_p95_ms, None);
    assert_eq!(w.close_to_baseline, Some(true));
}

#[test]
fn percentiles_are_those_of_the_latencies() {
    let mut j = judge(&[]);
    let mut monitor = Monitor::new(monitor_config(), SimTime::zero());
    for ms in 1..=100 {
        monitor.observe_complete(millis(1), ms, true, &mut j);
    }
    let w = monitor.window_summary();
    assert_eq!((w.latency_p95_ms, w.latency_p99_ms), (Some(95), Some(99)));
    let cfg = MonitorConfig { track_latency_quantiles: false, ..monitor_config() };
    let mut monitor = Monitor::new(cfg, SimTime::zero());
    monitor.observe_complete(millis(1), 5, true, &mut j);
    assert_eq!(monitor.window_summary().latency_p95_ms, None);
    assert_eq!(monitor.window_summary().latency_count, 1);
}

#[test]
fn large_latencies_are_told_apart_up_to_a_precision() {
    let mut j = judge(&[]);
    let cfg = MonitorConfig { latency_histogram_max_ms: 60_000, ..monitor_config() };
    let mut monitor = Monitor::new(cfg, SimTime::zero());
    monitor.observe_complete(millis(1), 40_001, true, &mut j);
    assert_eq!(monitor.window_summary().latency_p95_ms, Some(40_031));
    // A latency out of range counts as the nearest one within.
    let cfg = MonitorConfig { latency_histogram_max_ms: 100, ..monitor_config() };
    let mut monitor = Monitor::new(cfg, SimTime::zero());
    monitor.observe_complete(millis(1), 0, true, &mut j);
    assert_eq!(monitor.window_summary().latency_p95_ms, Some(1));
    monitor.observe_complete(millis(1), 5_000, true, &mut j);
    assert_eq!(monitor.window_summary().latency_p95_ms, Some(100));
}

#[test]
fn recovery_takes_windows_that_are_close_in_a_row() {
    let mut monitor = Monitor::new(monitor_config(), SimTime::zero());
    monitor.mark_post_spike_start(millis(500));
    let mut j = judge(&[true, false, true, true, false, false, false]);
    monitor.flush_up_to(millis(4000), &mut j);
    let status = monitor.status();
    assert_eq!(status.windows_seen, 4);
    assert!(!status.recovered);
    assert_eq!(status.recovery_time, None);
    monitor.flush_up_to(millis(5000), &mut j);
    let status = monitor.status();
    assert!(status.recovered);
    assert_eq!(status.recovery_time, Some(Duration::from_millis(4500)));
    assert!(!status.metastable);
    monitor.flush_up_to(millis(8000), &mut j);
    let status = monitor.status();
    assert!(!status.recovered);
    assert!(status.metastable);
}

#[test]
fn a_recovery_that_takes_too_long_is_metastable() {
    let cfg = MonitorConfig {
        recovery_time_limit: Some(Duration::from_secs(2)),
        ..monitor_config()
    };
    let mut monitor = Monitor::new(cfg, SimTime::zero());
    monitor.mark_post_spike_start(SimTime::zero());
    let mut j = judge(&[true, true]);
    monitor.flush_up_to(millis(1000), &mut j);
    assert!(!monitor.status().metastable);
    monitor.flush_up_to(millis(2000), &mut j);
    assert!(monitor.status().metastable);
    monitor.flush_up_to(millis(3000), &mut j);
    assert!(!monitor.status().metastable);
    assert!(monitor.status().recovered);
}

#[test]
fn windows_are_ended_by_hand_too() {
    let mut monitor = Monitor::new(monitor_config(), millis(10));
    assert!(monitor.is_warming_up());
    let mut j = judge(&[]);
    monitor.observe_drop(millis(20), &mut j);
    assert_eq!(monitor.window_summary().dropped, 1);
    monitor.flush_window(false);
    assert!(!monitor.is_warming_up());
    assert_eq!(monitor.timeline()[0].close_to_baseline, None);
    assert_eq!(monitor.timeline()[0].window_end, millis(1010));
    assert_eq!(monitor.window_summary().dropped, 0);
    monitor.settle(millis(1020));
    assert_eq!(monitor.window_start, millis(1010));
}

/// Remembers what it was asked.
struct Witness {
    asked: Vec<(SimTime, u64, u64, bool)>,
}

impl BaselineJudge for Witness {
    fn judge(&mut self, window: &WindowSummary, warming_up: bool) -> bool {
        self.asked.push((window.window_end, window.dropped, window.retries, warming_up));
        window.dropped == 0
    }
}

#[test]
fn what_happens_after_a_window_counts_in_the_next_one() {
    let mut monitor = Monitor::new(monitor_config(), SimTime::zero());
    let mut witness = Witness { asked: vec![] };
    monitor.observe_drop(millis(999), &mut witness);
    assert!(witness.asked.is_empty());
    assert!(monitor.can_reach(millis(1000)));
    monitor.observe_drop(millis(1000), &mut witness);
    assert_eq!(witness.asked, vec![(millis(1000), 1, 0, true)]);
    monitor.observe_retry(millis(3500), &mut witness);
    assert_eq!(
        witness.asked,
        vec![
            (millis(1000), 1, 0, true),
            (millis(2000), 1, 0, false),
            (millis(3000), 0, 0, false),
        ]
    );
    let close: Vec<_> = monitor.timeline().iter().map(|w| w.close_to_baseline).collect();
    assert_eq!(close, vec![None, Some(false), Some(true)]);
    assert_eq!((monitor.dropped, monitor.retries), (0, 1));
    assert_eq!((monitor.window_start, monitor.window_end), (millis(3000), millis(4000)));
    monitor.observe_queue_len(millis(4100), QueueId(1), 3, &mut witness);
    assert_eq!(witness.asked[3], (millis(4000), 0, 1, false));
    monitor.observe_timeout(millis(5000), &mut witness);
    monitor.observe_complete(millis(6000), 4, false, &mut witness);
    assert_eq!(witness.asked.len(), 6);
    assert_eq!(monitor.timeline()[5].timeouts, 1);
    assert_eq!(monitor.completed_late, 1);
}

/// An event every ten milliseconds.
struct Clockwork;

struct NoTask;

impl Task<(), ()> for NoTask {
    fn execute(self, _scheduler: &mut Scheduler<(), NoTask, ()>) -> Option<()> {
        None
    }
}

impl Component<NoTask, ()> for Clockwork {
    type Event = ();

    fn process_event(
        &mut self,
        self_id: Key<()>,
        _event: &(),
        scheduler: &mut Scheduler<(), NoTask, ()>,
    ) {
        scheduler.schedule(millis(10), self_id, ());
    }
}

#[test]
fn a_trial_goes_on_until_its_end() {
    let mut sim: Simulation<Clockwork, NoTask, (), FifoFrontierPolicy> = Simulation::default();
    let component = sim.add_component(Clockwork);
    assert_eq!(step_before(&mut sim, millis(25)), None);
    sim.schedule(millis(10), component, ());
    let mut times = Vec::new();
    while let Some(time) = step_before(&mut sim, millis(25)) {
        times.push(time);
    }
    assert_eq!(times, vec![millis(10), millis(20), millis(30)]);
}

#[test]
fn a_step_is_watched() {
    assert_eq!(watch_step(true, true, false), WatchAction::Stop);
    assert_eq!(watch_step(false, true, false), WatchAction::Capture);
    assert_eq!(watch_step(false, true, true), WatchAction::Continue);
    assert_eq!(watch_step(false, false, false), WatchAction::Continue);
}

#[test]
fn a_whole_estimate_by_splitting_counts_its_stages() {
    // Particles with an even seed reach the level; it happens in every third run after it.
    let tried = RefCell::new(Vec::new());
    let trial = |particle: &Particle, stage: usize| {
        let at = tried.borrow().len() as u32;
        let prefix = particle.prefix.as_ref().map(|t| t.meta.scenario.clone());
        tried.borrow_mut().push((stage, particle.seed, prefix));
        let reached = (particle.seed % 2 == 0).then(|| format!("p{}", at));
        let happened = stage == 1 && at % 3 == 0;
        Ok(outcome(reached.as_deref(), happened.then_some(at)))
    };
    let counts = estimate_with_splitting(1, 8, 5, trial).ok().unwrap();
    let tried = tried.borrow();
    assert_eq!(counts.particles, 8);
    let even = (0..8).filter(|i| derive_seed(5, *i) % 2 == 0).count();
    assert!(even > 0);
    assert_eq!(counts.stage_successes[0], even);
    // The particles of the second stage are those from 8 to 15.
    assert_eq!(counts.stage_successes[1], 3);
    assert_eq!(counts.example.unwrap().status, 9);
    assert_eq!(tried.len(), 16);
    assert_eq!((tried[0].0, tried[0].1), (0, derive_seed(5, 0)));
    assert!(tried[..8].iter().all(|t| t.2.is_none()));
    assert!(tried[8..].iter().all(|t| t.0 == 1 && t.2.is_some()));
}

#[test]
fn a_whole_estimate_ends_without_successes_and_with_errors() {
    let none = |_: &Particle, _: usize| Ok(outcome(None, None));
    assert_eq!(
        estimate_with_splitting(3, 0, 5, none).err(),
        Some(EstimateError::ZeroParticles)
    );
    let counts = estimate_with_splitting(3, 4, 5, none).ok().unwrap();
    assert_eq!(counts.stage_successes, vec![0]);
    assert!(counts.example.is_none());
    let failing = |_: &Particle, stage: usize| {
        if stage == 0 {
            Ok(outcome(Some("p"), None))
        } else {
            Err(HarnessError::TokioFeatureDisabled)
        }
    };
    assert_eq!(
        estimate_with_splitting(3, 4, 5, failing).err(),
        Some(EstimateError::Harness(HarnessError::TokioFeatureDisabled))
    );
}

#[test]
fn a_whole_search_by_splitting_goes_level_by_level() {
    let tried = RefCell::new(Vec::new());
    let trial = |particle: &SplitParticle, level: usize| {
        let at = tried.borrow().len() as u32;
        tried.borrow_mut().push((level, particle.continuation_seed));
        Ok(match at {
            0 | 2 => SplitOutcome::Reached(trace("p", vec![])),
            4 => SplitOutcome::Found(FoundBug { trace: trace("bug", vec![]), status: at }),
            _ => SplitOutcome::Missed,
        })
    };
    let found = find_with_splitting(SplittingConfig::default(), 8, trial).unwrap();
    assert_eq!(found.unwrap().status, 4);
    let level = 50.0f64.to_bits().wrapping_mul(0x9E37_79B9);
    let levels: Vec<usize> = tried.borrow().iter().map(|t| t.0).collect();
    assert_eq!(levels, vec![0, 1, 1, 2, 2]);
    assert_eq!(tried.borrow()[0].1, 8);
    assert_eq!(tried.borrow()[1].1, 8 ^ level);

    let missed = |_: &SplitParticle, _: usize| Ok(SplitOutcome::<u32>::Missed);
    assert!(find_with_splitting(SplittingConfig::default(), 8, missed).unwrap().is_none());
    let cfg = SplittingConfig { levels: vec![0], ..SplittingConfig::default() };
    let reached = |_: &SplitParticle, _: usize| {
        Ok(SplitOutcome::<u32>::Reached(trace("p", vec![])))
    };
    assert!(find_with_splitting(cfg, 8, reached).unwrap().is_none());
    let failing = |_: &SplitParticle, _: usize| -> Result<SplitOutcome<u32>, HarnessError> {
        Err(HarnessError::TokioFeatureDisabled)
    };
    assert_eq!(
        find_with_splitting(SplittingConfig::default(), 8, failing).err(),
        Some(SplittingError::Harness(HarnessError::TokioFeatureDisabled))
    );
}

#[test]
fn a_whole_search_for_a_policy_keeps_the_best_table() {
    let changed = key(DecisionKind::TokioReady, 4, 0, &[1, 2]);
    // The property fails where the second task is taken.
    let plans = RefCell::new(Vec::new());
    let trial = |script: Option<DecisionScript>, plan: TrialPlan| {
        plans.borrow_mut().push(plan);
        let hit_bad = script.map_or(false, |s| s.get(&changed) == Some(2));
        let status = plan.trial_index;
        let seen = trace("a", vec![ready_decision(4, &[1, 2])]);
        Ok((seen, RolloutOutcome::Finished { status, hit_bad }))
    };
    let compared = RefCell::new(Vec::new());
    let report = search_policy(search_config(), trial, |successes: u64, best: u64| {
        compared.borrow_mut().push((successes, best));
        successes > best
    })
    .ok()
    .unwrap();
    assert_eq!(chosen(&report.best_policy, &changed), Some(2));
    let counts: Vec<(usize, u64, u64)> =
        report.evaluations.iter().map(|e| (e.policy_index, e.successes, e.trials)).collect();
    assert_eq!(counts, vec![(0, 0, 2), (1, 2, 2), (2, 0, 2)]);
    assert_eq!(*compared.borrow(), vec![(2, 0), (0, 2)]);
    assert_eq!(report.holdout, TrialCounts { trials: 3, successes: 3 });
    assert_eq!(report.failures.len(), 2);
    assert_eq!(report.failures[1].status, Some(1));
    assert_eq!(plans.borrow().len(), 9);
    assert_eq!(plans.borrow()[6].phase, FailurePhase::Holdout);

    let failing = |_: Option<DecisionScript>,
                   _: TrialPlan|
     -> Result<(Trace, RolloutOutcome<()>), HarnessError> {
        Err(HarnessError::TokioFeatureDisabled)
    };
    assert_eq!(
        search_policy(search_config(), failing, |a: u64, b: u64| a > b).err(),
        Some(PolicySearchError::Harness(HarnessError::TokioFeatureDisabled))
    );
    let cfg = PolicySearchConfig { trials_per_policy: 0, ..search_config() };
    assert_eq!(
        search_policy(cfg, failing, |a: u64, b: u64| a > b).err(),
        Some(PolicySearchError::ZeroTrialsPerPolicy)
    );
}
