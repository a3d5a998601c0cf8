//! Scenarios of the async runtime.

use descartes::async_runtime::{
    current_runtime_key, current_sim_time, current_task_id, sim_sleep, sim_sleep_until, AsyncTask,
    PollContext, RuntimeEvent, SimSleep, SpawnQueue,
};
use descartes::des_runtime::{install, DesRuntime};
use descartes::execute::{Execute, Executor};
use descartes::frontier_policy::FifoFrontierPolicy;
use descartes::ready_policy::{
    FifoReadyTaskPolicy, ReadyTaskPolicy, ReadyTaskSignature, TaskId, UniformRandomReadyTaskPolicy,
};
use descartes::scheduler::Scheduler;
use descartes::simulation::Simulation;
use descartes::task::Task;
use descartes::time::SimTime;
use std::cell::RefCell;
use std::rc::Rc;
use std::time::Duration;

/// There are no other tasks in these scenarios.
struct NoTask;

impl Task<RuntimeEvent, ()> for NoTask {
    fn execute(self, _scheduler: &mut Scheduler<RuntimeEvent, NoTask, ()>) -> Option<()> {
        None
    }
}

/// What a script does.
enum Act {
    Log(&'static str),
    Sleep(SimSleep),
}

/// Work that logs and sleeps.
struct Script {
    acts: Vec<Act>,
    at: usize,
    log: Rc<RefCell<Vec<(&'static str, u64)>>>,
}

impl AsyncTask<RuntimeEvent> for Script {
    fn poll(&mut self, cx: &mut PollContext<RuntimeEvent>) -> bool {
        while self.at < self.acts.len() {
            match &mut self.acts[self.at] {
                Act::Log(text) => {
                    let millis = current_sim_time(cx).unwrap().as_nanos() / 1_000_000;
                    self.log.borrow_mut().push((text, millis));
                }
                Act::Sleep(sleep) => {
                    if !sleep.poll(cx) {
                        return false;
                    }
                }
            }
            self.at += 1;
        }
        true
    }
}

type Log = Rc<RefCell<Vec<(&'static str, u64)>>>;

type Runtime<Q> = DesRuntime<Script, Q, RuntimeEvent>;

type Sim<Q> = Simulation<Runtime<Q>, NoTask, (), FifoFrontierPolicy>;

fn script(log: &Log, acts: Vec<Act>) -> Script {
    Script { acts, at: 0, log: log.clone() }
}

fn sleep(ms: u64) -> Act {
    Act::Sleep(sim_sleep(Duration::from_millis(ms)))
}

fn texts(log: &Log) -> Vec<&'static str> {
    log.borrow().iter().map(|e| e.0).collect()
}

#[test]
fn test_task_id() {
    let id1 = TaskId(1);
    let id2 = TaskId(1);
    let id3 = TaskId(2);

    assert_eq!(id1, id2);
    assert_ne!(id1, id3);
}

#[test]
fn test_runtime_spawn() {
    let log: Log = Rc::default();
    let mut runtime: Runtime<FifoReadyTaskPolicy> = DesRuntime::new();
    assert_eq!(runtime.task_count(), 0);
    assert!(!runtime.has_tasks());

    let task_id = runtime.spawn(script(&log, vec![]));
    assert_eq!(task_id, TaskId(0));
    assert_eq!(runtime.task_count(), 1);
    assert!(runtime.has_tasks());

    let task_id2 = runtime.spawn(script(&log, vec![]));
    assert_eq!(task_id2, TaskId(1));
    assert_eq!(runtime.task_count(), 2);
}

#[test]
fn test_simple_task_completion() {
    let log: Log = Rc::default();
    let mut sim: Sim<FifoReadyTaskPolicy> = Simulation::default();

    let mut runtime = DesRuntime::new();
    runtime.spawn(script(&log, vec![Act::Log("done")]));

    let runtime_id = sim.add_component(runtime);
    sim.schedule(SimTime::zero(), runtime_id, RuntimeEvent::Poll);

    Executor::timed(SimTime::from_millis(100)).execute(&mut sim);

    assert_eq!(texts(&log), vec!["done"]);
    assert!(!sim.get_component_mut(runtime_id).unwrap().has_tasks());
}

#[test]
fn test_sim_sleep() {
    let log: Log = Rc::default();
    let mut sim: Sim<FifoReadyTaskPolicy> = Simulation::default();

    let mut runtime = DesRuntime::new();
    runtime.spawn(script(
        &log,
        vec![Act::Log("1"), sleep(50), Act::Log("2"), sleep(50), Act::Log("3")],
    ));

    let runtime_id = sim.add_component(runtime);
    sim.schedule(SimTime::zero(), runtime_id, RuntimeEvent::Poll);

    Executor::timed(SimTime::from_millis(200)).execute(&mut sim);

    assert_eq!(*log.borrow(), vec![("1", 0), ("2", 50), ("3", 100)]);
}

#[test]
fn test_multiple_tasks() {
    let log: Log = Rc::default();
    let mut sim: Sim<FifoReadyTaskPolicy> = Simulation::default();

    let mut runtime = DesRuntime::new();

    // Task 1: wakes at 50ms and 150ms
    runtime.spawn(script(
        &log,
        vec![Act::Log("t1-start"), sleep(50), Act::Log("t1-50ms"), sleep(100), Act::Log("t1-150ms")],
    ));

    // Task 2: wakes at 100ms
    runtime.spawn(script(
        &log,
        vec![Act::Log("t2-start"), sleep(100), Act::Log("t2-100ms")],
    ));

    let runtime_id = sim.add_component(runtime);
    sim.schedule(SimTime::zero(), runtime_id, RuntimeEvent::Poll);

    Executor::timed(SimTime::from_millis(200)).execute(&mut sim);

    assert_eq!(
        *log.borrow(),
        vec![
            ("t1-start", 0),
            ("t2-start", 0),
            ("t1-50ms", 50),
            ("t2-100ms", 100),
            ("t1-150ms", 150),
        ]
    );
}

#[test]
fn sleeping_until_a_past_time_does_not_wait() {
    let log: Log = Rc::default();
    let mut sim: Sim<FifoReadyTaskPolicy> = Simulation::default();
    let mut runtime = DesRuntime::new();
    runtime.spawn(script(
        &log,
        vec![
            sleep(20),
            Act::Sleep(sim_sleep_until(SimTime::from_millis(10))),
            Act::Log("a"),
            Act::Sleep(sim_sleep_until(SimTime::from_millis(35))),
            Act::Log("b"),
        ],
    ));
    let key = sim.add_component(runtime);
    sim.schedule(SimTime::zero(), key, RuntimeEvent::Poll);
    Executor::unbound().execute(&mut sim);
    assert_eq!(*log.borrow(), vec![("a", 20), ("b", 35)]);
}

#[test]
fn installing_a_runtime_polls_its_tasks() {
    let log: Log = Rc::default();
    let mut sim: Sim<FifoReadyTaskPolicy> = Simulation::default();
    let mut runtime = DesRuntime::new();
    runtime.spawn(script(&log, vec![Act::Log("a")]));
    let installed = install(&mut sim, runtime);
    Executor::unbound().execute(&mut sim);
    assert_eq!(texts(&log), vec!["a"]);
    assert_eq!(sim.get_component_mut(installed.runtime_key).unwrap().task_count(), 0);
}

#[test]
fn cancelled_tasks_are_not_polled() {
    let log: Log = Rc::default();
    let mut sim: Sim<FifoReadyTaskPolicy> = Simulation::default();
    let mut runtime = DesRuntime::new();
    let first = runtime.spawn(script(&log, vec![sleep(10), Act::Log("first")]));
    runtime.spawn(script(&log, vec![sleep(20), Act::Log("second")]));
    let installed = install(&mut sim, runtime);
    sim.schedule(
        SimTime::from_millis(5),
        installed.runtime_key,
        RuntimeEvent::Cancel { task_id: first },
    );
    Executor::unbound().execute(&mut sim);
    assert_eq!(*log.borrow(), vec![("second", 20)]);
}

#[test]
fn requested_tasks_start_with_the_next_poll() {
    let log: Log = Rc::default();
    let mut sim: Sim<FifoReadyTaskPolicy> = Simulation::default();
    let mut runtime = DesRuntime::new();
    let requested = runtime.request_spawn(script(&log, vec![Act::Log("requested")]));
    assert_eq!(requested, TaskId(0));
    assert_eq!(runtime.task_count(), 0);
    let installed = install(&mut sim, runtime);
    sim.schedule(SimTime::from_millis(3), installed.runtime_key, RuntimeEvent::Poll);
    Executor::unbound().execute(&mut sim);
    assert_eq!(texts(&log), vec!["requested"]);
}

#[test]
fn cancelled_requests_are_forgotten() {
    let mut queue: SpawnQueue<&str> = SpawnQueue::new();
    let a = queue.spawn("a");
    let b = queue.spawn("b");
    let c = queue.spawn_local("c");
    assert_eq!((a, b, c), (TaskId(0), TaskId(1), TaskId(2)));
    queue.cancel(a);
    queue.cancel_local(c);
    assert_eq!(queue.sendable.len(), 1);
    assert_eq!(queue.sendable[0].future, "b");
    assert_eq!(queue.local.len(), 0);
}

#[test]
fn outside_of_a_poll_nothing_is_known() {
    let cx: PollContext<RuntimeEvent> = PollContext::outside();
    assert_eq!(current_sim_time(&cx), None);
    assert!(current_runtime_key(&cx).is_none());
    assert_eq!(current_task_id(&cx), None);
    let mut cx = cx;
    let mut waiting = SimSleep::new(Duration::from_millis(1));
    assert!(!waiting.poll(&mut cx));
    assert_eq!(waiting.target_time, None);
}

fn run_with<Q: ReadyTaskPolicy>(policy: Q) -> Vec<&'static str> {
    let log: Log = Rc::default();
    let mut sim: Sim<Q> = Simulation::default();
    let mut runtime = DesRuntime::with_policy(policy);
    let names = ["a", "b", "c", "d", "e", "f", "g", "h", "i", "j", "k", "l"];
    for name in names {
        runtime.spawn(script(&log, vec![Act::Log(name)]));
    }
    install(&mut sim, runtime);
    Executor::unbound().execute(&mut sim);
    let out = texts(&log);
    out
}

#[test]
fn ready_tasks_are_polled_in_their_order() {
    let out = run_with(FifoReadyTaskPolicy);
    assert_eq!(out, vec!["a", "b", "c", "d", "e", "f", "g", "h", "i", "j", "k", "l"]);
}

#[test]
fn random_choices_among_ready_tasks_are_reproducible() {
    let first = run_with(UniformRandomReadyTaskPolicy::new(5));
    assert_eq!(first, run_with(UniformRandomReadyTaskPolicy::new(5)));
    assert_ne!(first, run_with(FifoReadyTaskPolicy));
    let mut sorted = first;
    sorted.sort();
    assert_eq!(sorted, run_with(FifoReadyTaskPolicy));
}

#[test]
fn signatures_name_time_and_tasks() {
    let signature = ReadyTaskSignature::new(SimTime::from_nanos(9), &[TaskId(4), TaskId(2)]);
    assert_eq!(signature.time_nanos, 9);
    assert_eq!(signature.ready_task_ids, vec![4, 2]);
}
