//! Whole runs that are repeated.

use descartes::async_runtime::{sim_sleep, AsyncTask, PollContext, RuntimeEvent, SimSleep};
use descartes::component::Component;
use descartes::des_runtime::{install, DesRuntime};
use descartes::execute::{Execute, Executor};
use descartes::explore::frontier::{RecordingFrontierPolicy, ReplayFrontierPolicy};
use descartes::explore::ready_task::{RecordingReadyTaskPolicy, ReplayReadyTaskPolicy};
use descartes::explore::trace::{TraceMeta, TraceRecorder};
use descartes::frontier_policy::{
    EventFrontierPolicy, FifoFrontierPolicy, UniformRandomFrontierPolicy,
};
use descartes::key::Key;
use descartes::ready_policy::{
    FifoReadyTaskPolicy, ReadyTaskPolicy, TaskId, UniformRandomReadyTaskPolicy,
};
use descartes::scheduler::Scheduler;
use descartes::simulation::Simulation;
use descartes::task::Task;
use descartes::time::SimTime;
use std::cell::RefCell;
use std::rc::Rc;
use std::time::Duration;

struct NoTask;

impl<P> Task<P, ()> for NoTask {
    fn execute(self, _scheduler: &mut Scheduler<P, NoTask, ()>) -> Option<()> {
        None
    }
}

/// Notes its events, and schedules each of them once more.
struct Echo {
    log: Vec<(u64, u32)>,
}

impl Component<NoTask, ()> for Echo {
    type Event = u32;

    fn process_event(
        &mut self,
        self_id: Key<u32>,
        event: &u32,
        scheduler: &mut Scheduler<u32, NoTask, ()>,
    ) {
        self.log.push((scheduler.time().as_nanos(), *event));
        if *event < 100 {
            scheduler.schedule(SimTime::from_nanos(5), self_id, *event + 100);
        }
    }
}

fn recorder() -> TraceRecorder {
    TraceRecorder::new(TraceMeta { seed: 1, scenario: "replay".to_string() })
}

/// What the component has noted, and the policy at the end.
fn echoed<Q: EventFrontierPolicy>(policy: Q) -> (Vec<(u64, u32)>, Q) {
    let sim: Simulation<Echo, NoTask, (), FifoFrontierPolicy> = Simulation::default();
    let mut sim = sim.with_frontier_policy(policy);
    let key = sim.add_component(Echo { log: Vec::new() });
    for event in 0..12 {
        sim.schedule(SimTime::from_nanos(3), key, event);
    }
    Executor::unbound().execute(&mut sim);
    let log = sim.remove_component(key).unwrap().log;
    (log, sim.frontier_policy)
}

#[test]
fn runs_with_the_same_seed_are_the_same() {
    let (first, _) = echoed(UniformRandomFrontierPolicy::new(9));
    let (second, _) = echoed(UniformRandomFrontierPolicy::new(9));
    assert_eq!(first, second);
    let (fifo, _) = echoed(FifoFrontierPolicy);
    assert_ne!(first, fifo);
    assert_eq!(fifo, echoed(FifoFrontierPolicy).0);
    let events: Vec<u32> = fifo.iter().map(|e| e.1).collect();
    assert_eq!(events, (0..12).chain(100..112).collect::<Vec<u32>>());
}

#[test]
fn a_recorded_run_is_replayed() {
    let random = UniformRandomFrontierPolicy::new(9);
    let (first, policy) = echoed(RecordingFrontierPolicy::new(random, recorder()));
    let trace = policy.recorder.into_trace();
    assert!(!trace.events.is_empty());
    let (second, mut replay) = echoed(ReplayFrontierPolicy::from_trace_events(&trace.events));
    assert_eq!(first, second);
    assert_eq!(replay.take_error(), None);
}

/// A policy that can be read while a runtime has it.
struct Shared<Q>(Rc<RefCell<Q>>);

impl<Q: ReadyTaskPolicy> ReadyTaskPolicy for Shared<Q> {
    fn select(&mut self, time: SimTime, ready: &[TaskId]) -> usize {
        self.0.borrow_mut().select(time, ready)
    }
}

/// Notes its name, and is done.
struct Named(u32, Rc<RefCell<Vec<u32>>>);

impl AsyncTask<RuntimeEvent> for Named {
    fn poll(&mut self, _cx: &mut PollContext<RuntimeEvent>) -> bool {
        self.1.borrow_mut().push(self.0);
        true
    }
}

fn polled<Q: ReadyTaskPolicy>(policy: Q) -> (Vec<u32>, Q) {
    let log = Rc::new(RefCell::new(Vec::new()));
    let shared = Rc::new(RefCell::new(policy));
    let mut runtime = DesRuntime::with_policy(Shared(shared.clone()));
    for name in 0..12 {
        runtime.spawn(Named(name, log.clone()));
    }
    let mut sim: Simulation<_, NoTask, (), FifoFrontierPolicy> = Simulation::default();
    install(&mut sim, runtime);
    Executor::unbound().execute(&mut sim);
    drop(sim);
    let out = log.borrow().clone();
    (out, Rc::try_unwrap(shared).ok().unwrap().into_inner())
}

#[test]
fn a_recorded_poll_cycle_is_replayed() {
    let random = UniformRandomReadyTaskPolicy::new(9);
    let (first, policy) = polled(RecordingReadyTaskPolicy::new(random, recorder()));
    let trace = policy.recorder.into_trace();
    assert_eq!(trace.events.len(), 12);
    let (second, mut replay) = polled(ReplayReadyTaskPolicy::from_trace_events(&trace.events));
    assert_eq!(first, second);
    assert_eq!(replay.take_error(), None);
    let (fifo, _) = polled(FifoReadyTaskPolicy);
    assert_eq!(fifo, (0..12).collect::<Vec<u32>>());
    assert_ne!(first, fifo);
}

/// Notes its name, and sleeps, several times over.
struct Runner {
    name: u32,
    laps: u32,
    sleep: SimSleep,
    log: Rc<RefCell<Vec<(u64, u32)>>>,
}

impl AsyncTask<RuntimeEvent> for Runner {
    fn poll(&mut self, cx: &mut PollContext<RuntimeEvent>) -> bool {
        while self.laps > 0 {
            if !self.sleep.poll(cx) {
                return false;
            }
            self.log.borrow_mut().push((cx.time.unwrap().as_nanos(), self.name));
            self.laps -= 1;
            self.sleep = sim_sleep(Duration::from_nanos(4));
        }
        true
    }
}

/// What the tasks of two runtimes have noted, and the policies at the end.
fn raced<Q: ReadyTaskPolicy, S: EventFrontierPolicy>(
    policies: (Q, Q),
    frontier: S,
) -> (Vec<(u64, u32)>, (Q, Q), S) {
    let log = Rc::new(RefCell::new(Vec::new()));
    let sim: Simulation<_, NoTask, (), FifoFrontierPolicy> = Simulation::default();
    let mut sim = sim.with_frontier_policy(frontier);
    let shared = (Rc::new(RefCell::new(policies.0)), Rc::new(RefCell::new(policies.1)));
    for (team, policy) in [(0, &shared.0), (1, &shared.1)] {
        let mut runtime = DesRuntime::with_policy(Shared(policy.clone()));
        for name in 0..6 {
            let sleep = sim_sleep(Duration::from_nanos(4));
            runtime.spawn(Runner { name: 10 * team + name, laps: 3, sleep, log: log.clone() });
        }
        install(&mut sim, runtime);
    }
    Executor::unbound().execute(&mut sim);
    let Simulation { frontier_policy, components, .. } = sim;
    drop(components);
    let out = log.borrow().clone();
    let owned = |shared: Rc<RefCell<Q>>| Rc::try_unwrap(shared).ok().unwrap().into_inner();
    (out, (owned(shared.0), owned(shared.1)), frontier_policy)
}

#[test]
fn a_recorded_run_of_runtimes_is_replayed() {
    let random = |seed| {
        RecordingReadyTaskPolicy::new(UniformRandomReadyTaskPolicy::new(seed), recorder())
    };
    let events = RecordingFrontierPolicy::new(UniformRandomFrontierPolicy::new(7), recorder());
    let (first, ready, events) = raced((random(3), random(4)), events);
    assert_eq!(first.len(), 36);
    let traces = (ready.0.recorder.into_trace(), ready.1.recorder.into_trace());
    assert!(traces.0.events.len() > 6);
    let replay = (
        ReplayReadyTaskPolicy::from_trace_events(&traces.0.events),
        ReplayReadyTaskPolicy::from_trace_events(&traces.1.events),
    );
    let events = events.recorder.into_trace();
    let frontier = ReplayFrontierPolicy::from_trace_events(&events.events);
    let (second, mut ready, mut frontier) = raced(replay, frontier);
    assert_eq!(first, second);
    assert_eq!(ready.0.take_error(), None);
    assert_eq!(ready.1.take_error(), None);
    assert_eq!(frontier.take_error(), None);
    // So is a run with the same seeds.
    let random = |seed| UniformRandomReadyTaskPolicy::new(seed);
    let (third, _, _) = raced((random(3), random(4)), UniformRandomFrontierPolicy::new(7));
    assert_eq!(first, third);
    let fifo = raced((FifoReadyTaskPolicy, FifoReadyTaskPolicy), FifoFrontierPolicy).0;
    assert_ne!(first, fifo);
}
