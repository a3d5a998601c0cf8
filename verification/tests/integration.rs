//! Scenarios in which components, tasks and the async runtime work together.

use descartes::async_runtime::{
    current_runtime_key, current_sim_time, current_task_id, sim_sleep, sim_sleep_until, AsyncTask,
    PollContext, RuntimeEvent, RuntimePayload, SimSleep,
};
use descartes::component::Component;
use descartes::des_runtime::DesRuntime;
use descartes::execute::{Execute, Executor};
use descartes::frontier_policy::FifoFrontierPolicy;
use descartes::key::Key;
use descartes::ready_policy::{FifoReadyTaskPolicy, TaskId};
use descartes::scheduler::{defer_wake, DeferredWake, Scheduler};
use descartes::simulation::Simulation;
use descartes::task::{ClosureTask, Task, TimeoutTask};
use descartes::task_id::TaskHandle;
use descartes::time::SimTime;
use rand::SeedableRng;
use rand_distr::Distribution;
use std::sync::{Arc, Mutex};
use std::time::Duration;

/// The events of these scenarios.
#[derive(Debug, Clone)]
enum Ev {
    Runtime(RuntimeEvent),
    Request { response_state: ResponseStateHandle },
    SendResponse { response_state: ResponseStateHandle },
    ProcessRequest { id: u32 },
}

impl RuntimePayload for Ev {
    fn wrap(event: RuntimeEvent) -> Self {
        Ev::Runtime(event)
    }
}

/// A closure that runs once, without a result.
struct Job(Box<dyn FnOnce(&mut Sched)>);

type Sched = Scheduler<Ev, Job, ()>;

impl Task<Ev, ()> for Job {
    fn execute(self, scheduler: &mut Sched) -> Option<()> {
        (self.0)(scheduler);
        None
    }
}

impl<F: FnOnce(&mut Sched) + 'static> From<ClosureTask<F, ()>> for Job {
    fn from(task: ClosureTask<F, ()>) -> Self {
        Job(Box::new(move |s: &mut Sched| task.execute(s)))
    }
}

impl<F: FnOnce(&mut Sched) + 'static> From<TimeoutTask<F>> for Job {
    fn from(task: TimeoutTask<F>) -> Self {
        Job(Box::new(move |s: &mut Sched| task.execute(s)))
    }
}

/// The response to a request, and who waits for it.
#[derive(Debug, Default)]
struct ResponseState {
    response: Option<String>,
    waiting: Option<(Key<Ev>, TaskId)>,
}

#[derive(Clone, Debug, Default)]
struct ResponseStateHandle {
    inner: Arc<Mutex<ResponseState>>,
}

impl ResponseStateHandle {
    fn complete(&self, response: String, scheduler: &mut Sched) {
        let waiting = {
            let mut locked = self.inner.lock().unwrap();
            locked.response = Some(response);
            locked.waiting.take()
        };
        if let Some((runtime, task_id)) = waiting {
            defer_wake(scheduler, runtime, Ev::Runtime(RuntimeEvent::Wake { task_id }));
        }
    }

    fn poll(&self, cx: &PollContext<Ev>) -> Option<String> {
        let mut locked = self.inner.lock().unwrap();
        if locked.response.is_none() {
            locked.waiting = Some((current_runtime_key(cx).unwrap(), current_task_id(cx).unwrap()));
        }
        locked.response.take()
    }
}

struct Server {
    request_count: usize,
    request_times: Arc<Mutex<Vec<SimTime>>>,
}

struct TaskUsingServer {
    log: Arc<Mutex<Vec<String>>>,
}

enum Node {
    Server(Server),
    TaskUsingServer(TaskUsingServer),
    Runtime(DesRuntime<Work, FifoReadyTaskPolicy, Ev>),
}

type Sim = Simulation<Node, Job, (), FifoFrontierPolicy>;

impl Component<Job, ()> for Node {
    type Event = Ev;

    fn process_event(&mut self, self_id: Key<Ev>, event: &Ev, scheduler: &mut Sched) {
        match (self, event) {
            (Node::Runtime(runtime), Ev::Runtime(event)) => {
                runtime.process(self_id, *event, scheduler);
            }
            (Node::Server(server), Ev::Request { response_state }) => {
                server.request_count += 1;
                server.request_times.lock().unwrap().push(scheduler.time());

                // Simulate server work taking 1 second.
                scheduler.schedule(
                    SimTime::from_duration(Duration::from_secs(1)),
                    self_id,
                    Ev::SendResponse { response_state: response_state.clone() },
                );
            }
            (Node::Server(_), Ev::SendResponse { response_state }) => {
                response_state.complete("ok".to_string(), scheduler);
            }
            (Node::TaskUsingServer(server), Ev::ProcessRequest { id }) => {
                server.log.lock().unwrap().push(format!("Server: Processing request {id}"));

                // Schedule a timeout task for this request
                let log_clone = server.log.clone();
                let request_id = *id;
                scheduler.timeout(millis(100), move |_: &mut Sched| {
                    log_clone.lock().unwrap().push(format!("Task: Request {request_id} timed out"));
                });

                // Schedule completion task
                let log_clone2 = server.log.clone();
                let _: TaskHandle<()> =
                    scheduler.schedule_closure(millis(50), move |_: &mut Sched| {
                        log_clone2
                            .lock()
                            .unwrap()
                            .push(format!("Task: Request {request_id} completed"));
                    });
            }
            (_, event) => panic!("unexpected event {event:?}"),
        }
    }
}

/// Work that is polled.
enum Work {
    /// Sleeps, sends a request, and notes when the response is there.
    Client {
        arrival: Option<SimSleep>,
        server: Key<Ev>,
        sent: bool,
        response_state: ResponseStateHandle,
        completed: Arc<Mutex<Vec<SimTime>>>,
    },
    /// Logs, and sleeps in between.
    Script { steps: Vec<(String, Option<SimSleep>)>, log: Arc<Mutex<Vec<String>>> },
}

impl AsyncTask<Ev> for Work {
    fn poll(&mut self, cx: &mut PollContext<Ev>) -> bool {
        match self {
            Work::Client { arrival, server, sent, response_state, completed } => {
                if let Some(sleep) = arrival {
                    if !sleep.poll(cx) {
                        return false;
                    }
                    *arrival = None;
                }
                if !*sent {
                    *sent = true;
                    cx.deferred.push_back(DeferredWake {
                        component: *server,
                        delay: SimTime::zero(),
                        event: Ev::Request { response_state: response_state.clone() },
                    });
                }
                match response_state.poll(cx) {
                    Some(response) => {
                        assert_eq!(response, "ok");
                        completed.lock().unwrap().push(current_sim_time(cx).unwrap());
                        true
                    }
                    None => false,
                }
            }
            Work::Script { steps, log } => {
                while !steps.is_empty() {
                    if let Some(sleep) = &mut steps[0].1 {
                        if !sleep.poll(cx) {
                            return false;
                        }
                    }
                    log.lock().unwrap().push(steps.remove(0).0);
                }
                true
            }
        }
    }
}

fn millis(ms: u64) -> SimTime {
    SimTime::from_duration(Duration::from_millis(ms))
}

#[test]
fn async_client_awaits_server_response_without_blocking_simulation() {
    let mut sim: Sim = Simulation::default();

    // Add server component.
    let request_times = Arc::new(Mutex::new(Vec::new()));
    let server_key = sim
        .add_component(Node::Server(Server { request_count: 0, request_times: request_times.clone() }));

    // Add runtime component.
    let mut runtime = DesRuntime::new();

    let completed = Arc::new(Mutex::new(Vec::new()));
    runtime.spawn(Work::Client {
        arrival: None,
        server: server_key,
        sent: false,
        response_state: ResponseStateHandle::default(),
        completed: completed.clone(),
    });

    let runtime_key = sim.add_component(Node::Runtime(runtime));
    sim.schedule(SimTime::zero(), runtime_key, Ev::Runtime(RuntimeEvent::Poll));

    // Run long enough to cover the 1s server delay.
    Executor::timed(SimTime::from_duration(Duration::from_secs(2))).execute(&mut sim);

    assert_eq!(*completed.lock().unwrap(), vec![SimTime::from_secs(1)]);

    // Sanity: server should have seen exactly one request.
    match sim.get_component_mut(server_key).unwrap() {
        Node::Server(server) => assert_eq!(server.request_count, 1),
        _ => panic!("not the server"),
    }

    // And it should have been received at t=0.
    let times = request_times.lock().unwrap().clone();
    assert_eq!(times.len(), 1);
    assert_eq!(times[0], SimTime::zero());
}

#[test]
fn open_loop_client_exponential_arrivals_do_not_block_subsequent_requests() {
    let mut sim: Sim = Simulation::default();

    let request_times = Arc::new(Mutex::new(Vec::new()));
    let server_key = sim
        .add_component(Node::Server(Server { request_count: 0, request_times: request_times.clone() }));

    let mut runtime = DesRuntime::new();

    // Deterministic RNG seed for reproducibility.
    let mut rng = rand::rngs::StdRng::seed_from_u64(12345);
    let exp = rand_distr::Exp::new(10.0).expect("rate must be positive"); // mean 100ms

    let request_count = 30;

    // Generate cumulative arrival times (first request at t=0).
    let mut arrivals = Vec::with_capacity(request_count);
    let mut t = SimTime::zero();
    arrivals.push(t);

    for _ in 1..request_count {
        let interarrival_secs: f64 = exp.sample(&mut rng);
        let interarrival = Duration::from_secs_f64(interarrival_secs);
        t = t + interarrival;
        arrivals.push(t);
    }

    let completed_times: Arc<Mutex<Vec<SimTime>>> = Arc::new(Mutex::new(Vec::new()));

    for arrival in arrivals.iter().copied() {
        runtime.spawn(Work::Client {
            arrival: Some(sim_sleep_until(arrival)),
            server: server_key,
            sent: false,
            response_state: ResponseStateHandle::default(),
            completed: completed_times.clone(),
        });
    }

    let runtime_key = sim.add_component(Node::Runtime(runtime));
    sim.schedule(SimTime::zero(), runtime_key, Ev::Runtime(RuntimeEvent::Poll));

    // Run long enough for all requests and responses.
    Executor::timed(SimTime::from_duration(Duration::from_secs(20))).execute(&mut sim);

    let observed_request_times = request_times.lock().unwrap().clone();
    assert_eq!(observed_request_times.len(), request_count);

    // Key property: multiple requests should arrive before the first response
    // could possibly return (server responds after 1s).
    let one_second = SimTime::from_duration(Duration::from_secs(1));

    assert_eq!(observed_request_times[0], SimTime::zero());
    assert!(observed_request_times.len() >= 2, "expected at least 2 requests");
    assert!(
        observed_request_times[1] < one_second,
        "expected 2nd request arrival < 1s, got {}",
        observed_request_times[1].to_string()
    );

    // All requests should complete.
    let completed = completed_times.lock().unwrap().clone();
    assert_eq!(completed.len(), request_count);

    // Since the first arrival is at t=0 and server response time is 1s,
    // the earliest completion cannot be before t=1s.
    let earliest_completion =
        completed.iter().copied().min().expect("at least one completion");
    assert!(
        earliest_completion >= one_second,
        "expected earliest completion >= 1s, got {}",
        earliest_completion.to_string()
    );

    let requests_before_first_completion =
        observed_request_times.iter().filter(|&&rt| rt < earliest_completion).count();
    assert!(
        requests_before_first_completion >= 2,
        "expected at least 2 arrivals before first completion, got {requests_before_first_completion}"
    );

    // Sanity: server processed all requests.
    match sim.get_component_mut(server_key).unwrap() {
        Node::Server(server) => assert_eq!(server.request_count, request_count),
        _ => panic!("not the server"),
    }
}

#[test]
fn test_task_component_async_integration() {
    let mut sim: Sim = Simulation::default();

    // Shared state to track execution order
    let execution_log = Arc::new(Mutex::new(Vec::new()));

    // 1. Add a Component that uses Tasks
    let server_id =
        sim.add_component(Node::TaskUsingServer(TaskUsingServer { log: execution_log.clone() }));

    // 2. Add Async Runtime
    let mut runtime = DesRuntime::new();

    // Spawn async tasks
    let pause = |ms: u64| Some(sim_sleep(Duration::from_millis(ms)));
    runtime.spawn(Work::Script {
        steps: vec![
            ("Async: Task 1 started".to_string(), None),
            ("Async: Task 1 after 25ms".to_string(), pause(25)),
            ("Async: Task 1 completed".to_string(), pause(25)),
        ],
        log: execution_log.clone(),
    });
    runtime.spawn(Work::Script {
        steps: vec![
            ("Async: Task 2 started".to_string(), None),
            ("Async: Task 2 completed".to_string(), pause(75)),
        ],
        log: execution_log.clone(),
    });

    let runtime_id = sim.add_component(Node::Runtime(runtime));

    // 3. Schedule some events and tasks

    // Schedule component events
    sim.schedule(millis(10), server_id, Ev::ProcessRequest { id: 1 });
    sim.schedule(millis(30), server_id, Ev::ProcessRequest { id: 2 });

    // Schedule standalone tasks
    let log_clone3 = execution_log.clone();
    let _: TaskHandle<()> = sim.schedule_closure(millis(20), move |_: &mut Sched| {
        log_clone3.lock().unwrap().push("Task: Standalone task executed".to_string());
    });

    // Schedule periodic task
    let log_clone4 = execution_log.clone();
    let mut counter = 0;
    let _: TaskHandle<()> = sim.schedule_closure(millis(40), move |scheduler: &mut Sched| {
        counter += 1;
        log_clone4.lock().unwrap().push(format!("Task: Periodic task #{counter}"));

        if counter < 3 {
            // Schedule next execution
            let log_clone_inner = log_clone4.clone();
            let _: TaskHandle<()> =
                scheduler.schedule_closure(millis(30), move |scheduler_inner: &mut Sched| {
                    counter += 1;
                    log_clone_inner
                        .lock()
                        .unwrap()
                        .push(format!("Task: Periodic task #{counter}"));

                    if counter < 3 {
                        // One more execution
                        let log_clone_inner2 = log_clone_inner.clone();
                        let _: TaskHandle<()> =
                            scheduler_inner.schedule_closure(millis(30), move |_: &mut Sched| {
                                log_clone_inner2
                                    .lock()
                                    .unwrap()
                                    .push("Task: Periodic task #3".to_string());
                            });
                    }
                });
        }
    });

    // Start async runtime
    sim.schedule(millis(5), runtime_id, Ev::Runtime(RuntimeEvent::Poll));

    // Run simulation
    Executor::timed(millis(200)).execute(&mut sim);

    let final_log = execution_log.lock().unwrap();

    // Verify we got a good mix of different execution types
    let log_str = final_log.join(" ");
    assert!(log_str.contains("Server: Processing request"));
    assert!(log_str.contains("Task: Request") && log_str.contains("completed"));
    assert!(log_str.contains("Async: Task 1 started"));
    assert!(log_str.contains("Async: Task 1 completed"));
    assert!(log_str.contains("Async: Task 2 completed"));
    assert!(log_str.contains("Task: Standalone task executed"));
    assert!(log_str.contains("Task: Periodic task"));
}
