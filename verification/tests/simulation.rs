//! Scenarios of schedulers, tasks, components and runs.

use descartes::component::Component;
use descartes::event::{ComponentEventEntry, EventEntry};
use descartes::execute::{EndCondition, Execute, Executor};
use descartes::frontier_policy::{FifoFrontierPolicy, UniformRandomFrontierPolicy};
use descartes::key::Key;
use descartes::scheduler::{
    clear_scheduler_context, current_time, defer_wake, defer_wake_after, drain_deferred_wakes,
    in_scheduler_context, set_scheduler_context, ClockRef, Scheduler,
};
use descartes::simulation::{Simulation, SimulationConfig};
use descartes::task::{ClosureTask, PeriodicTask, RetryTask, Task, TimeoutTask};
use descartes::task_id::{TaskHandle, TaskId};
use descartes::time::SimTime;
use descartes::types::EventId;
use std::cmp::Ordering;
use std::sync::atomic::AtomicU64;
use std::sync::{Arc, Mutex};
use std::time::Duration;
use uuid::Uuid;

/// The results of tasks.
#[derive(Debug, PartialEq)]
enum Value {
    Int(i32),
    Text(String),
    List(Vec<i32>),
    Tried(Result<i32, &'static str>),
}

trait IntoValue {
    fn into_value(self) -> Option<Value>;
}

impl IntoValue for () {
    fn into_value(self) -> Option<Value> {
        None
    }
}

impl IntoValue for i32 {
    fn into_value(self) -> Option<Value> {
        Some(Value::Int(self))
    }
}

impl IntoValue for String {
    fn into_value(self) -> Option<Value> {
        Some(Value::Text(self))
    }
}

impl IntoValue for Vec<i32> {
    fn into_value(self) -> Option<Value> {
        Some(Value::List(self))
    }
}

impl IntoValue for Result<i32, &'static str> {
    fn into_value(self) -> Option<Value> {
        Some(Value::Tried(self))
    }
}

/// Any task.
struct AnyTask<P>(Box<dyn FnOnce(&mut Sched<P>) -> Option<Value>>);

type Sched<P> = Scheduler<P, AnyTask<P>, Value>;

type Sim<C, P> = Simulation<C, AnyTask<P>, Value, FifoFrontierPolicy>;

impl<P> Task<P, Value> for AnyTask<P> {
    fn execute(self, scheduler: &mut Sched<P>) -> Option<Value> {
        (self.0)(scheduler)
    }
}

impl<P: 'static, F, O> From<ClosureTask<F, O>> for AnyTask<P>
where
    F: FnOnce(&mut Sched<P>) -> O + 'static,
    O: IntoValue + 'static,
{
    fn from(task: ClosureTask<F, O>) -> Self {
        AnyTask(Box::new(move |s: &mut Sched<P>| task.execute(s).into_value()))
    }
}

impl<P: 'static, F> From<TimeoutTask<F>> for AnyTask<P>
where
    F: FnOnce(&mut Sched<P>) + 'static,
{
    fn from(task: TimeoutTask<F>) -> Self {
        AnyTask(Box::new(move |s: &mut Sched<P>| {
            task.execute(s);
            None
        }))
    }
}

impl<P: 'static, F> From<PeriodicTask<F>> for AnyTask<P>
where
    F: Fn(&mut Sched<P>) + 'static,
{
    fn from(task: PeriodicTask<F>) -> Self {
        AnyTask(Box::new(move |s: &mut Sched<P>| {
            task.execute(s);
            None
        }))
    }
}

impl<P: 'static, F> From<RetryTask<F, i32, &'static str>> for AnyTask<P>
where
    F: Fn(&mut Sched<P>) -> Result<i32, &'static str> + 'static,
{
    fn from(task: RetryTask<F, i32, &'static str>) -> Self {
        AnyTask(Box::new(move |s: &mut Sched<P>| task.execute(s).into_value()))
    }
}

/// A component that does nothing.
#[derive(Debug)]
struct Noop;

impl Component<AnyTask<()>, Value> for Noop {
    type Event = ();

    fn process_event(&mut self, _self_id: Key<()>, _event: &(), _scheduler: &mut Sched<()>) {}
}

fn millis(ms: u64) -> SimTime {
    SimTime::from_duration(Duration::from_millis(ms))
}

fn secs(s: u64) -> SimTime {
    SimTime::from_duration(Duration::from_secs(s))
}

#[test]
fn test_clock_ref() {
    let time = SimTime::from_duration(Duration::from_secs(1));
    let clock = Arc::new(AtomicU64::new(time.as_nanos()));
    let clock_ref = ClockRef::from(clock);
    assert_eq!(clock_ref.time(), time);
}

fn component_entry(event_id: u64, s: u64) -> EventEntry<String> {
    EventEntry::Component(ComponentEventEntry {
        event_id: EventId(event_id),
        time: secs(s),
        component: Uuid::from_u128(2),
        inner: String::from("inner"),
    })
}

#[test]
fn test_event_entry_cmp() {
    // Same time and seq should be equal
    let entry1 = component_entry(1, 1);
    let entry2 = component_entry(1, 1);
    assert!(entry1 == entry2);

    // Same time, different seq: seq decides ordering
    let entry3 = component_entry(2, 1);
    assert_eq!(entry1.cmp(&entry3), Ordering::Greater);

    // Different times: time decides
    let entry4 = component_entry(0, 0);
    let entry5 = component_entry(1, 1);
    assert_eq!(entry4.cmp(&entry5), Ordering::Greater);

    let entry6 = component_entry(1, 2);
    let entry7 = component_entry(3, 1);
    assert_eq!(entry6.cmp(&entry7), Ordering::Less);
}

#[derive(Debug, Clone, Eq, PartialEq)]
enum AB {
    A,
    B,
}

fn component_event(entry: EventEntry<AB>) -> ComponentEventEntry<AB> {
    match entry {
        EventEntry::Component(e) => e,
        EventEntry::Task(_) => panic!("expected component event"),
    }
}

#[test]
fn test_scheduler() {
    let mut scheduler: Sched<AB> = Scheduler::default();
    assert_eq!(scheduler.time(), SimTime::from_duration(Duration::new(0, 0)));
    assert_eq!(scheduler.clock().time(), SimTime::from_duration(Duration::new(0, 0)));
    assert!(scheduler.peek().is_none());

    let component_a = Key::<AB>::new_with_id(Uuid::from_u128(3));
    let component_b = Key::<AB>::new_with_id(Uuid::from_u128(4));

    scheduler.schedule(secs(1), component_a, AB::A);
    scheduler.schedule_now(component_b, AB::B);
    scheduler.schedule(secs(2), component_b, AB::B);

    assert_eq!(scheduler.time(), secs(0));

    let entry = component_event(scheduler.pop().unwrap());
    assert_eq!(entry.time, secs(0));
    assert_eq!(entry.component, component_b.id);
    assert_eq!(entry.inner, AB::B);

    assert_eq!(scheduler.time(), secs(0));

    let entry = component_event(scheduler.pop().unwrap());
    assert_eq!(entry.time, secs(1));
    assert_eq!(entry.component, component_a.id);
    assert_eq!(entry.inner, AB::A);

    assert_eq!(scheduler.time(), secs(1));
    assert_eq!(scheduler.clock().time(), secs(1));

    let entry = component_event(scheduler.pop().unwrap());
    assert_eq!(entry.time, secs(2));
    assert_eq!(entry.component, component_b.id);
    assert_eq!(entry.inner, AB::B);

    assert_eq!(scheduler.time(), secs(2));

    assert!(scheduler.pop().is_none());
}

#[test]
fn test_unit_task_results_not_stored() {
    let mut scheduler: Sched<()> = Scheduler::default();

    // Schedule a task that returns ()
    let task_id1 = TaskId::numbered(1);
    let unit_task = TimeoutTask::new(|_: &mut Sched<()>| {});
    scheduler.schedule_task_at(SimTime::from_secs(1), task_id1, AnyTask::from(unit_task));

    // Schedule a task that returns a value
    let task_id2 = TaskId::numbered(2);
    let value_task = ClosureTask::new(|_: &mut Sched<()>| 42);
    scheduler.schedule_task_at(SimTime::from_secs(2), task_id2, AnyTask::from(value_task));

    // Execute both tasks
    assert!(scheduler.execute_task(task_id1));
    assert!(scheduler.execute_task(task_id2));

    // Check that only the value task result is stored
    assert!(scheduler.has_task_result(task_id2));
    assert!(!scheduler.has_task_result(task_id1));

    // Verify we can retrieve the value result
    let handle = TaskHandle::<i32>::new(task_id2);
    let result = scheduler.get_task_result(handle);
    assert_eq!(result, Some(Value::Int(42)));
}

#[test]
fn test_cancelled_task_does_not_advance_time() {
    let mut scheduler: Sched<()> = Scheduler::default();

    // Schedule a task at t=10
    let task_id = TaskId::numbered(1);
    let task = ClosureTask::new(|_: &mut Sched<()>| 42);
    scheduler.schedule_task_at(SimTime::from_secs(10), task_id, AnyTask::from(task));

    // Cancel the task before it executes
    let handle = TaskHandle::<i32>::new(task_id);
    let cancelled = scheduler.cancel_task(handle);
    assert!(cancelled);

    // Verify time is still 0
    assert_eq!(scheduler.time(), SimTime::zero());

    // Pop should skip the cancelled task and return None (no more events)
    let popped = scheduler.pop();
    assert!(popped.is_none());

    // Time should still be 0 (not advanced to 10)
    assert_eq!(scheduler.time(), SimTime::zero());
}

/// Logs events, and schedules a task at the same time as each.
struct OrderingTestComponent {
    log: Arc<Mutex<Vec<String>>>,
}

#[derive(Debug, Clone)]
enum OrderingEvent {
    ComponentEvent(usize),
}

impl Component<AnyTask<OrderingEvent>, Value> for OrderingTestComponent {
    type Event = OrderingEvent;

    fn process_event(
        &mut self,
        _self_id: Key<OrderingEvent>,
        event: &OrderingEvent,
        scheduler: &mut Sched<OrderingEvent>,
    ) {
        match *event {
            OrderingEvent::ComponentEvent(id) => {
                self.log.lock().unwrap().push(format!("component-{}", id));

                // Schedule a task at the same time
                let log = self.log.clone();
                let _: TaskHandle<()> = scheduler.schedule_closure(
                    SimTime::zero(),
                    move |_: &mut Sched<OrderingEvent>| {
                        log.lock().unwrap().push("task".to_string());
                    },
                );
            }
        }
    }
}

fn run_ordering() -> Vec<String> {
    let log = Arc::new(Mutex::new(Vec::new()));
    let component = OrderingTestComponent { log: log.clone() };
    let mut sim: Sim<OrderingTestComponent, OrderingEvent> = Simulation::default();
    let key = sim.add_component(component);

    // Schedule 3 component events at the same time (t=0)
    for i in 0..3 {
        sim.schedule(SimTime::zero(), key, OrderingEvent::ComponentEvent(i));
    }

    // Run for a short time
    Executor::timed(SimTime::from_millis(1)).execute(&mut sim);

    let result = log.lock().unwrap().clone();
    result
}

#[test]
fn test_stable_same_time_event_ordering() {
    let result = run_ordering();
    assert_eq!(result.len(), 6); // 3 components + 3 tasks

    // Run the same scenario multiple times and verify identical ordering
    for _ in 0..10 {
        assert_eq!(result, run_ordering());
    }
}

#[test]
fn test_task_id_creation() {
    let id1 = TaskId::numbered(1);
    let id2 = TaskId::numbered(2);
    assert_ne!(id1, id2);

    let id3 = TaskId::numbered(3);
    assert_ne!(id1, id3);
}

#[test]
fn test_task_handle() {
    let id = TaskId::numbered(1);
    let handle: TaskHandle<i32> = TaskHandle::new(id);
    assert_eq!(handle.id(), id);
}

#[test]
fn test_task_handle_exposes_stable_id() {
    // TaskHandle should always return the same ID.
    let task_id = TaskId::numbered(1);
    let handle: TaskHandle<i32> = TaskHandle::new(task_id);
    assert_eq!(handle.id(), task_id);
    assert_eq!(handle.id(), task_id);
}

#[test]
fn test_closure_task() {
    let executed = Arc::new(Mutex::new(false));
    let executed_clone = executed.clone();

    let task = ClosureTask::new(move |_: &mut Sched<()>| {
        *executed_clone.lock().unwrap() = true;
        42
    });

    let mut scheduler: Sched<()> = Scheduler::default();
    let result = task.execute(&mut scheduler);

    assert_eq!(result, 42);
    assert!(*executed.lock().unwrap());
}

#[test]
fn test_timeout_task() {
    let executed = Arc::new(Mutex::new(false));
    let executed_clone = executed.clone();

    let task = TimeoutTask::new(move |_: &mut Sched<()>| {
        *executed_clone.lock().unwrap() = true;
    });

    let mut scheduler: Sched<()> = Scheduler::default();
    task.execute(&mut scheduler);

    assert!(*executed.lock().unwrap());
}

fn next_task(scheduler: &mut Sched<()>) -> TaskId {
    match scheduler.pop().unwrap() {
        EventEntry::Task(entry) => entry.task_id,
        EventEntry::Component(_) => panic!("expected task event"),
    }
}

#[test]
fn test_periodic_task_with_count() {
    let counter = Arc::new(Mutex::new(0));
    let counter_clone = counter.clone();

    let task = PeriodicTask::with_count(
        move |_: &mut Sched<()>| {
            *counter_clone.lock().unwrap() += 1;
        },
        millis(100),
        3,
    );

    let mut scheduler: Sched<()> = Scheduler::default();
    let handle: TaskHandle<()> = scheduler.schedule_task(SimTime::zero(), AnyTask::from(task));

    // First execution should schedule the next execution under the same task ID.
    let task_id = next_task(&mut scheduler);
    assert_eq!(task_id, handle.id());
    assert!(scheduler.execute_task(task_id));

    assert_eq!(*counter.lock().unwrap(), 1);

    // There should be a scheduled event for the next execution.
    assert!(scheduler.peek().is_some());
}

#[test]
fn periodic_task_stops_after_its_count() {
    let times = Arc::new(Mutex::new(Vec::new()));
    let times_clone = times.clone();
    let task = PeriodicTask::with_count(
        move |s: &mut Sched<()>| {
            times_clone.lock().unwrap().push(s.time());
        },
        millis(100),
        3,
    );
    let mut sim: Sim<Noop, ()> = Simulation::default();
    let _: TaskHandle<()> = sim.schedule_task(millis(50), AnyTask::from(task));
    Executor::unbound().execute(&mut sim);
    assert_eq!(*times.lock().unwrap(), vec![millis(50), millis(150), millis(250)]);
    assert!(!sim.has_pending_events());
}

#[test]
fn periodic_task_without_count_goes_on() {
    let counter = Arc::new(Mutex::new(0));
    let counter_clone = counter.clone();
    let task = PeriodicTask::new(
        move |_: &mut Sched<()>| {
            *counter_clone.lock().unwrap() += 1;
        },
        millis(10),
    );
    let mut sim: Sim<Noop, ()> = Simulation::default();
    let _: TaskHandle<()> = sim.schedule_task(SimTime::zero(), AnyTask::from(task));
    Executor::timed(millis(100)).execute(&mut sim);
    assert_eq!(*counter.lock().unwrap(), 11);
    assert!(sim.has_pending_events());
}

#[test]
fn test_retry_task_success() {
    let attempt_count = Arc::new(Mutex::new(0));
    let attempt_count_clone = attempt_count.clone();

    let task = RetryTask::new(
        move |_: &mut Sched<()>| -> Result<i32, &'static str> {
            let mut count = attempt_count_clone.lock().unwrap();
            *count += 1;
            if *count >= 2 {
                Ok(42)
            } else {
                Err("Not ready yet")
            }
        },
        3,
        millis(100),
    );

    let mut scheduler: Sched<()> = Scheduler::default();
    let handle: TaskHandle<Result<i32, &'static str>> =
        scheduler.schedule_task(SimTime::zero(), AnyTask::from(task));

    // First attempt
    let task_id = next_task(&mut scheduler);
    assert!(scheduler.execute_task(task_id));
    assert_eq!(*attempt_count.lock().unwrap(), 1);

    // Result should not be available yet (retry scheduled under same ID)
    let intermediate = scheduler.get_task_result(handle);
    assert!(intermediate.is_none());

    // Second attempt
    let task_id = next_task(&mut scheduler);
    assert!(scheduler.execute_task(task_id));
    assert_eq!(*attempt_count.lock().unwrap(), 2);

    let final_result = scheduler.get_task_result(handle);
    assert_eq!(final_result, Some(Value::Tried(Ok(42))));
}

#[test]
fn test_retry_task_max_attempts() {
    let attempt_count = Arc::new(Mutex::new(0));
    let attempt_count_clone = attempt_count.clone();

    let task = RetryTask::new(
        move |_: &mut Sched<()>| -> Result<i32, &'static str> {
            let mut count = attempt_count_clone.lock().unwrap();
            *count += 1;
            Err("Always fails")
        },
        2, // Max 2 attempts
        millis(100),
    );

    let mut scheduler: Sched<()> = Scheduler::default();
    let handle: TaskHandle<Result<i32, &'static str>> =
        scheduler.schedule_task(SimTime::zero(), AnyTask::from(task));

    // First attempt
    let task_id = next_task(&mut scheduler);
    assert!(scheduler.execute_task(task_id));
    assert_eq!(*attempt_count.lock().unwrap(), 1);

    let intermediate = scheduler.get_task_result(handle);
    assert!(intermediate.is_none());

    // Second attempt (max attempts reached)
    let task_id = next_task(&mut scheduler);
    assert!(scheduler.execute_task(task_id));
    assert_eq!(*attempt_count.lock().unwrap(), 2);

    let final_result = scheduler.get_task_result(handle);
    assert_eq!(final_result, Some(Value::Tried(Err("Always fails"))));
}

#[test]
fn retry_delays_double() {
    let times = Arc::new(Mutex::new(Vec::new()));
    let times_clone = times.clone();
    let task = RetryTask::new(
        move |s: &mut Sched<()>| -> Result<i32, &'static str> {
            times_clone.lock().unwrap().push(s.time());
            Err("no")
        },
        4,
        millis(100),
    );
    let mut sim: Sim<Noop, ()> = Simulation::default();
    let handle: TaskHandle<Result<i32, &'static str>> =
        sim.schedule_task(SimTime::zero(), AnyTask::from(task));
    Executor::unbound().execute(&mut sim);
    assert_eq!(
        *times.lock().unwrap(),
        vec![millis(0), millis(100), millis(300), millis(700)]
    );
    assert_eq!(sim.get_task_result(handle), Some(Value::Tried(Err("no"))));
}

/// Counts its events, and schedules one more every two seconds.
struct TestComponent {
    counter: usize,
}

#[derive(Debug)]
struct TestEvent;

impl Component<AnyTask<TestEvent>, Value> for TestComponent {
    type Event = TestEvent;

    fn process_event(
        &mut self,
        self_id: Key<TestEvent>,
        _event: &TestEvent,
        scheduler: &mut Sched<TestEvent>,
    ) {
        self.counter += 1;
        if self.counter < 10 {
            scheduler.schedule(secs(2), self_id, TestEvent);
        }
    }
}

fn counting_sim() -> (Sim<TestComponent, TestEvent>, Key<TestEvent>) {
    let mut sim: Sim<TestComponent, TestEvent> = Simulation::default();
    let component = sim.add_component(TestComponent { counter: 0 });
    sim.schedule(SimTime::from_duration(Duration::default()), component, TestEvent);
    (sim, component)
}

#[test]
fn test_create_executor() {
    assert_eq!(Executor::unbound(), Executor { end_condition: EndCondition::NoEvents });
    assert_eq!(
        Executor::timed(SimTime::from_duration(Duration::default())),
        Executor {
            end_condition: EndCondition::Time(SimTime::from_duration(Duration::default()))
        }
    );
    assert_eq!(Executor::steps(7), Executor { end_condition: EndCondition::Steps(7) });
    assert_eq!(&format!("{:?}", TestEvent), "TestEvent");
}

#[test]
fn test_steps() {
    let (mut sim, component) = counting_sim();
    Executor::steps(10).execute(&mut sim);
    let c: TestComponent = sim.remove_component(component).unwrap();
    assert_eq!(c.counter, 10);
}

#[test]
fn test_steps_stops_before() {
    let (mut sim, component) = counting_sim();
    // After 10 steps there are no events, so it will not execute all 100
    Executor::steps(100).execute(&mut sim);
    let c: TestComponent = sim.remove_component(component).unwrap();
    assert_eq!(c.counter, 10);
}

#[test]
fn test_timed() {
    let (mut sim, component) = counting_sim();
    Executor::timed(secs(6)).execute(&mut sim);
    let c: TestComponent = sim.remove_component(component).unwrap();
    assert_eq!(c.counter, 4);
    assert_eq!(sim.clock().time(), secs(6));
}

#[test]
fn test_timed_clock_stops_early() {
    let (mut sim, component) = counting_sim();
    Executor::timed(secs(5)).execute(&mut sim);
    let c: TestComponent = sim.remove_component(component).unwrap();
    assert_eq!(c.counter, 3);
    assert_eq!(sim.clock().time(), secs(4));
}

#[test]
fn unbound_run_processes_all_events() {
    let (mut sim, component) = counting_sim();
    sim.execute(Executor::unbound());
    assert_eq!(sim.time(), secs(18));
    assert!(!sim.has_pending_events());
    assert_eq!(sim.get_component_mut(component).unwrap().counter, 10);
}

#[test]
fn side_effect_sees_every_event() {
    let (mut sim, _component) = counting_sim();
    let times = std::cell::RefCell::new(Vec::new());
    let effect = |s: &Sim<TestComponent, TestEvent>| times.borrow_mut().push(s.time());
    Executor::steps(3).side_effect(effect).execute(&mut sim);
    assert_eq!(*times.borrow(), vec![secs(0), secs(2), secs(4)]);
}

#[test]
fn steps_without_events_do_nothing() {
    let mut sim: Sim<TestComponent, TestEvent> = Simulation::default();
    assert!(!sim.step());
    assert_eq!(sim.peek_next_event_time(), None);
    assert_eq!(sim.time(), SimTime::zero());
}

#[test]
fn events_of_a_removed_component_are_dropped() {
    let (mut sim, component) = counting_sim();
    assert_eq!(sim.remove_component(component).unwrap().counter, 0);
    assert!(sim.remove_component(component).is_none());
    assert!(sim.get_component_mut(component).is_none());
    assert!(sim.step());
    assert!(!sim.has_pending_events());
}

#[test]
fn test_task_execution_in_simulation() {
    let mut sim: Sim<Noop, ()> = Simulation::default();

    let executed = Arc::new(Mutex::new(false));
    let executed_clone = executed.clone();

    // Schedule a task to execute after 100ms
    let _handle: TaskHandle<()> =
        sim.scheduler.schedule_closure(millis(100), move |_: &mut Sched<()>| {
            *executed_clone.lock().unwrap() = true;
        });

    // Run simulation for 200ms
    Executor::timed(millis(200)).execute(&mut sim);

    // Task should have executed
    assert!(*executed.lock().unwrap());
}

#[test]
fn test_timeout_task_in_simulation() {
    let mut sim: Sim<Noop, ()> = Simulation::default();

    let timeout_fired = Arc::new(Mutex::new(false));
    let timeout_clone = timeout_fired.clone();

    // Schedule a timeout
    let _handle = sim.scheduler.timeout(millis(50), move |_: &mut Sched<()>| {
        *timeout_clone.lock().unwrap() = true;
    });

    // Run simulation for 100ms
    Executor::timed(millis(100)).execute(&mut sim);

    // Timeout should have fired
    assert!(*timeout_fired.lock().unwrap());
}

#[test]
fn test_task_cancellation() {
    let mut sim: Sim<Noop, ()> = Simulation::default();

    let executed = Arc::new(Mutex::new(false));
    let executed_clone = executed.clone();

    // Schedule a task
    let handle: TaskHandle<()> =
        sim.scheduler.schedule_closure(millis(100), move |_: &mut Sched<()>| {
            *executed_clone.lock().unwrap() = true;
        });

    // Cancel the task before it executes
    let cancelled = sim.scheduler.cancel_task(handle);
    assert!(cancelled);

    // Run simulation for 200ms
    Executor::timed(millis(200)).execute(&mut sim);

    // Task should not have executed
    assert!(!*executed.lock().unwrap());
}

#[test]
fn cancelling_twice_tells_that_nothing_was_pending() {
    let mut sim: Sim<Noop, ()> = Simulation::default();
    let handle: TaskHandle<()> = sim.schedule_closure(millis(100), |_: &mut Sched<()>| {});
    assert!(sim.cancel_task(handle));
    assert!(!sim.cancel_task(handle));
    assert_eq!(sim.get_task_result(handle), None);
}

#[test]
fn test_multiple_tasks_execution_order() {
    let mut sim: Sim<Noop, ()> = Simulation::default();

    let execution_order = Arc::new(Mutex::new(Vec::new()));

    // Schedule tasks at different times
    for (delay, number) in [(100, 1), (50, 2), (150, 3)] {
        let order = execution_order.clone();
        let _: TaskHandle<()> =
            sim.scheduler.schedule_closure(millis(delay), move |_: &mut Sched<()>| {
                order.lock().unwrap().push(number);
            });
    }

    // Run simulation for 200ms
    Executor::timed(millis(200)).execute(&mut sim);

    // Tasks should execute in time order: 2, 1, 3
    let order = execution_order.lock().unwrap();
    assert_eq!(*order, vec![2, 1, 3]);
}

#[test]
fn test_task_scheduling_from_within_task() {
    let mut sim: Sim<Noop, ()> = Simulation::default();

    let execution_count = Arc::new(Mutex::new(0));
    let count_clone = execution_count.clone();

    // Schedule a task that schedules another task
    let _: TaskHandle<()> =
        sim.scheduler.schedule_closure(millis(50), move |scheduler: &mut Sched<()>| {
            *count_clone.lock().unwrap() += 1;

            // Schedule another one from within it
            let count_inner = count_clone.clone();
            let _: TaskHandle<()> =
                scheduler.schedule_closure(millis(50), move |_: &mut Sched<()>| {
                    *count_inner.lock().unwrap() += 1;
                });
        });

    // Run simulation for 200ms
    Executor::timed(millis(200)).execute(&mut sim);

    // Both tasks should have executed
    assert_eq!(*execution_count.lock().unwrap(), 2);
}

#[test]
fn test_task_with_return_value() {
    let mut sim: Sim<Noop, ()> = Simulation::default();

    // Schedule a task that returns a value
    let handle: TaskHandle<i32> =
        sim.scheduler.schedule_closure(millis(50), |_: &mut Sched<()>| -> i32 { 42 });

    // Run simulation for 100ms
    Executor::timed(millis(100)).execute(&mut sim);

    // Get the result
    let result = sim.scheduler.get_task_result(handle);
    assert_eq!(result, Some(Value::Int(42)));
    assert_eq!(sim.scheduler.get_task_result(handle), None);
}

struct CounterTask {
    count: i32,
}

impl Task<(), i32> for CounterTask {
    fn execute(self, _scheduler: &mut Scheduler<(), CounterTask, i32>) -> Option<i32> {
        Some(self.count * 2)
    }
}

struct CounterNoop;

impl Component<CounterTask, i32> for CounterNoop {
    type Event = ();

    fn process_event(
        &mut self,
        _self_id: Key<()>,
        _event: &(),
        _scheduler: &mut Scheduler<(), CounterTask, i32>,
    ) {
    }
}

#[test]
fn test_custom_task_implementation() {
    let mut sim: Simulation<CounterNoop, CounterTask, i32, FifoFrontierPolicy> =
        Simulation::default();

    let task = CounterTask { count: 21 };
    let handle: TaskHandle<i32> = sim.scheduler.schedule_task(millis(50), task);

    // Run simulation
    Executor::timed(millis(100)).execute(&mut sim);

    // Check result
    let result = sim.scheduler.get_task_result(handle);
    assert_eq!(result, Some(42));
}

#[derive(Debug)]
enum PingEvent {
    Ping,
}

struct PingComponent {
    ping_count: i32,
}

impl Component<AnyTask<PingEvent>, Value> for PingComponent {
    type Event = PingEvent;

    fn process_event(
        &mut self,
        _self_id: Key<PingEvent>,
        event: &PingEvent,
        scheduler: &mut Sched<PingEvent>,
    ) {
        match event {
            PingEvent::Ping => {
                self.ping_count += 1;

                // Schedule a task from within the component
                let _: TaskHandle<()> =
                    scheduler.schedule_closure(millis(25), |_: &mut Sched<PingEvent>| {});
            }
        }
    }
}

#[test]
fn test_tasks_mixed_with_components() {
    let mut sim: Sim<PingComponent, PingEvent> = Simulation::default();

    // Add component
    let component_key = sim.add_component(PingComponent { ping_count: 0 });

    // Schedule component event
    sim.schedule(millis(50), component_key, PingEvent::Ping);

    let task_executed = Arc::new(Mutex::new(false));
    let task_clone = task_executed.clone();

    // Schedule a task
    let _: TaskHandle<()> =
        sim.scheduler.schedule_closure(millis(100), move |_: &mut Sched<PingEvent>| {
            *task_clone.lock().unwrap() = true;
        });

    // Run simulation
    Executor::timed(millis(200)).execute(&mut sim);

    // Both component and task should have executed
    let final_component = sim.remove_component(component_key).unwrap();
    assert_eq!(final_component.ping_count, 1);
    assert!(*task_executed.lock().unwrap());
}

#[derive(Debug, Clone, Copy)]
enum Ev {
    Start,
    Tick,
}

#[derive(Default)]
struct Driver {
    saw_tick: bool,
}

impl Component<AnyTask<Ev>, Value> for Driver {
    type Event = Ev;

    fn process_event(&mut self, self_id: Key<Ev>, event: &Ev, s: &mut Sched<Ev>) {
        match event {
            Ev::Start => {
                assert!(in_scheduler_context(s));
                assert_eq!(current_time(s), Some(s.time()));
                defer_wake_after(s, SimTime::from_millis(5), self_id, Ev::Tick);
            }
            Ev::Tick => {
                self.saw_tick = true;
            }
        }
    }
}

#[test]
fn defer_wake_after_schedules_with_delay_without_locking() {
    let mut sim: Sim<Driver, Ev> = Simulation::default();
    let key = sim.add_component(Driver::default());
    sim.schedule_now(key, Ev::Start);

    Executor::timed(SimTime::from_millis(4)).execute(&mut sim);
    assert!(!sim.get_component_mut(key).unwrap().saw_tick);

    Executor::timed(SimTime::from_millis(10)).execute(&mut sim);
    assert!(sim.get_component_mut(key).unwrap().saw_tick);
    assert_eq!(sim.time(), SimTime::from_millis(5));
}

#[test]
fn deferred_wakes_are_drained_in_their_order() {
    let mut scheduler: Sched<AB> = Scheduler::default();
    let key = Key::<AB>::new_with_id(Uuid::from_u128(1));
    assert!(!in_scheduler_context(&scheduler));
    assert_eq!(current_time(&scheduler), None);
    set_scheduler_context(&mut scheduler);
    assert!(in_scheduler_context(&scheduler));
    defer_wake(&mut scheduler, key, AB::B);
    defer_wake(&mut scheduler, key, AB::A);
    assert!(scheduler.peek().is_none());
    clear_scheduler_context(&mut scheduler);
    drain_deferred_wakes(&mut scheduler);
    assert_eq!(component_event(scheduler.pop().unwrap()).inner, AB::B);
    assert_eq!(component_event(scheduler.pop().unwrap()).inner, AB::A);
    assert!(scheduler.pop().is_none());
}

#[test]
fn component_ids_are_deterministic_across_runs() {
    let mut a: Sim<Noop, ()> = Simulation::new(SimulationConfig { seed: 123 });
    let mut b: Sim<Noop, ()> = Simulation::new(SimulationConfig { seed: 123 });

    let k1 = a.add_component(Noop);
    let k2 = a.add_component(Noop);

    let j1 = b.add_component(Noop);
    let j2 = b.add_component(Noop);

    assert_eq!(k1.id(), j1.id());
    assert_eq!(k2.id(), j2.id());
    assert_ne!(k1.id(), k2.id());
}

#[test]
fn task_ids_are_deterministic_across_runs() {
    fn schedule_two(sim: &mut Sim<Noop, ()>) -> (TaskId, TaskId) {
        let a = sim.timeout(SimTime::zero(), |_: &mut Sched<()>| {}).id();
        let b = sim.timeout(SimTime::zero(), |_: &mut Sched<()>| {}).id();
        (a, b)
    }

    let mut sim1: Sim<Noop, ()> = Simulation::new(SimulationConfig { seed: 999 });
    let mut sim2: Sim<Noop, ()> = Simulation::new(SimulationConfig { seed: 999 });

    let (t1a, t1b) = schedule_two(&mut sim1);
    let (t2a, t2b) = schedule_two(&mut sim2);

    assert_eq!(t1a, t2a);
    assert_eq!(t1b, t2b);
    assert_ne!(t1a, t1b);
}

#[test]
fn ids_follow_the_seed() {
    let mut a: Sim<Noop, ()> = Simulation::new(SimulationConfig { seed: 1 });
    let mut b: Sim<Noop, ()> = Simulation::new(SimulationConfig { seed: 2 });
    assert_ne!(a.add_component(Noop).id(), b.add_component(Noop).id());
    assert_eq!(a.config().seed, 1);
    let c: Sim<Noop, ()> = Simulation::default();
    assert_eq!(c.config().seed, 42);
    assert_eq!(SimulationConfig::default().seed, 1);
}

/// Logs the values of its events.
struct Logger {
    log: Arc<Mutex<Vec<usize>>>,
}

#[derive(Debug, Clone)]
enum LogEvent {
    Push(usize),
}

impl Component<AnyTask<LogEvent>, Value> for Logger {
    type Event = LogEvent;

    fn process_event(
        &mut self,
        _self_id: Key<LogEvent>,
        event: &LogEvent,
        _scheduler: &mut Sched<LogEvent>,
    ) {
        match *event {
            LogEvent::Push(v) => self.log.lock().unwrap().push(v),
        }
    }
}

fn run_with_policy(policy_seed: Option<u64>, n: usize) -> Vec<usize> {
    let log = Arc::new(Mutex::new(Vec::new()));
    let mut sim: Sim<Logger, LogEvent> = Simulation::default();
    let key = sim.add_component(Logger { log: log.clone() });
    for i in 0..n {
        sim.schedule(SimTime::zero(), key, LogEvent::Push(i));
    }
    match policy_seed {
        Some(seed) => {
            let mut sim = sim.with_frontier_policy(UniformRandomFrontierPolicy::new(seed));
            Executor::timed(SimTime::from_millis(1)).execute(&mut sim);
        }
        None => Executor::timed(SimTime::from_millis(1)).execute(&mut sim),
    }
    let out = log.lock().unwrap().clone();
    out
}

#[test]
fn fifo_policy_preserves_schedule_order() {
    let out = run_with_policy(None, 200);
    assert_eq!(out, (0..200).collect::<Vec<_>>());
}

#[test]
fn uniform_random_policy_is_seeded_and_reproducible() {
    let out1 = run_with_policy(Some(123), 200);
    let out2 = run_with_policy(Some(123), 200);
    assert_eq!(out1, out2);

    // Extremely unlikely to match strict FIFO.
    assert_ne!(out1, (0..200).collect::<Vec<_>>());

    // Every event is processed once.
    let mut sorted = out1;
    sorted.sort();
    assert_eq!(sorted, (0..200).collect::<Vec<_>>());
}

#[test]
fn deterministic_same_time_component_event_order_across_runs() {
    let baseline = run_with_policy(None, 200);
    assert_eq!(baseline.len(), 200);

    for _ in 0..50 {
        let next = run_with_policy(None, 200);
        assert_eq!(next.len(), 200);
        assert_eq!(baseline, next);
    }
}

#[derive(Debug, Clone)]
enum MixedEvent {
    Push(String),
}

struct MixedLogger {
    log: Arc<Mutex<Vec<String>>>,
}

impl Component<AnyTask<MixedEvent>, Value> for MixedLogger {
    type Event = MixedEvent;

    fn process_event(
        &mut self,
        _self_id: Key<MixedEvent>,
        event: &MixedEvent,
        scheduler: &mut Sched<MixedEvent>,
    ) {
        match event {
            MixedEvent::Push(value) => self.log.lock().unwrap().push(value.clone()),
        }

        // Also schedule a task at the same logical time.
        let log = self.log.clone();
        let _: TaskHandle<()> =
            scheduler.schedule_closure(SimTime::zero(), move |_: &mut Sched<MixedEvent>| {
                log.lock().unwrap().push("task".to_string());
            });
    }
}

fn run_mixed_same_time_component_and_task_events(count: usize) -> Vec<String> {
    let mut sim: Sim<MixedLogger, MixedEvent> = Simulation::default();
    let log: Arc<Mutex<Vec<String>>> = Arc::new(Mutex::new(Vec::new()));
    let key = sim.add_component(MixedLogger { log: log.clone() });

    for i in 0..count {
        sim.schedule(SimTime::zero(), key, MixedEvent::Push(format!("event-{i}")));
    }

    Executor::timed(SimTime::from_millis(1)).execute(&mut sim);

    let result = log.lock().unwrap().clone();
    assert!(result.len() >= count);
    result
}

#[test]
fn deterministic_mixed_event_and_task_order_across_runs() {
    let baseline = run_mixed_same_time_component_and_task_events(50);

    for _ in 0..25 {
        let next = run_mixed_same_time_component_and_task_events(50);
        assert_eq!(baseline, next);
    }
}

/// Shared state for tracking simulation events
#[derive(Debug, Default)]
struct SimulationLog {
    generator_events: Vec<SimTime>,
    consumer_hellos: Vec<SimTime>,
}

/// Produces events, or answers with hellos, at equal distances.
enum Party {
    Generator { log: Arc<Mutex<SimulationLog>>, events_produced: usize, max_events: usize },
    Consumer { log: Arc<Mutex<SimulationLog>>, hellos_produced: usize, max_hellos: usize },
}

#[derive(Debug)]
struct PartyEvent;

impl Component<AnyTask<PartyEvent>, Value> for Party {
    type Event = PartyEvent;

    fn process_event(
        &mut self,
        self_id: Key<PartyEvent>,
        _event: &PartyEvent,
        scheduler: &mut Sched<PartyEvent>,
    ) {
        let current_time = scheduler.time();
        match self {
            Party::Generator { log, events_produced, max_events } => {
                log.lock().unwrap().generator_events.push(current_time);
                *events_produced += 1;
                if *events_produced < *max_events {
                    scheduler.schedule(secs(1), self_id, PartyEvent);
                }
            }
            Party::Consumer { log, hellos_produced, max_hellos } => {
                log.lock().unwrap().consumer_hellos.push(current_time);
                *hellos_produced += 1;
                if *hellos_produced < *max_hellos {
                    scheduler.schedule(millis(500), self_id, PartyEvent);
                }
            }
        }
    }
}

fn run_parties(max_events: usize, max_hellos: usize, end_time: SimTime) -> SimulationLog {
    let mut sim: Sim<Party, PartyEvent> = Simulation::default();
    let log = Arc::new(Mutex::new(SimulationLog::default()));
    let generator_id =
        sim.add_component(Party::Generator { log: log.clone(), events_produced: 0, max_events });
    let consumer_id =
        sim.add_component(Party::Consumer { log: log.clone(), hellos_produced: 0, max_hellos });

    // Schedule initial events
    sim.schedule(secs(1), generator_id, PartyEvent);
    sim.schedule(millis(500), consumer_id, PartyEvent);

    // Run the simulation
    Executor::timed(end_time).execute(&mut sim);
    drop(sim);
    let log = std::mem::take(&mut *log.lock().unwrap());
    log
}

#[test]
fn test_generator_consumer_pattern() {
    let final_log = run_parties(5, 10, secs(5));

    assert_eq!(final_log.generator_events.len(), 5, "Expected 5 generator events");
    assert_eq!(final_log.consumer_hellos.len(), 10, "Expected 10 consumer hellos");

    // Verify timing of generator events (should be at 1s intervals)
    for (i, time) in final_log.generator_events.iter().enumerate() {
        let expected_time = SimTime::from_duration(Duration::from_secs((i + 1) as u64));
        assert_eq!(*time, expected_time);
    }

    // Verify timing of consumer hellos (should be at 0.5s intervals)
    for (i, time) in final_log.consumer_hellos.iter().enumerate() {
        let expected_time = SimTime::from_duration(Duration::from_millis((i + 1) as u64 * 500));
        assert_eq!(*time, expected_time);
    }
}

#[test]
fn test_generator_consumer_interleaved() {
    let final_log = run_parties(3, 6, secs(3));

    // Verify counts
    assert_eq!(final_log.generator_events.len(), 3, "Expected 3 generator events");
    assert_eq!(final_log.consumer_hellos.len(), 6, "Expected 6 consumer hellos");

    // Verify interleaving: events should be ordered by time
    let mut all_events: Vec<(SimTime, &str)> = Vec::new();
    for time in &final_log.generator_events {
        all_events.push((*time, "generator"));
    }
    for time in &final_log.consumer_hellos {
        all_events.push((*time, "consumer"));
    }
    all_events.sort_by_key(|(time, _)| time.as_nanos());

    // Verify the expected interleaving pattern
    let expected_pattern = vec![
        (millis(500), "consumer"),
        (secs(1), "generator"),
        (secs(1), "consumer"),
        (millis(1500), "consumer"),
        (secs(2), "generator"),
        (secs(2), "consumer"),
        (millis(2500), "consumer"),
        (secs(3), "generator"),
        (secs(3), "consumer"),
    ];
    assert_eq!(all_events, expected_pattern);
}

#[test]
fn test_task_cancellation_demo() {
    let mut sim: Sim<Noop, ()> = Simulation::default();

    let executed = Arc::new(Mutex::new(Vec::new()));

    // Schedule a task that will be cancelled
    let executed_clone = executed.clone();
    let handle1: TaskHandle<()> = sim.schedule_closure(millis(100), move |_: &mut Sched<()>| {
        executed_clone.lock().unwrap().push("Task 1: Should not execute".to_string());
    });

    // Schedule a task that will execute
    let executed_clone2 = executed.clone();
    let _handle2: TaskHandle<()> = sim.schedule_closure(millis(50), move |_: &mut Sched<()>| {
        executed_clone2.lock().unwrap().push("Task 2: Should execute".to_string());
    });

    // Schedule a task to cancel the first task
    let _: TaskHandle<()> = sim.schedule_closure(millis(25), move |scheduler: &mut Sched<()>| {
        let cancelled = scheduler.cancel_task(handle1);
        assert!(cancelled, "Task should have been successfully cancelled");
    });

    // Run simulation
    Executor::timed(millis(150)).execute(&mut sim);

    let final_executed = executed.lock().unwrap();

    // Verify only the second task executed
    assert_eq!(final_executed.len(), 1);
    assert_eq!(final_executed[0], "Task 2: Should execute");
}

#[test]
fn test_task_return_values_demo() {
    let mut sim: Sim<Noop, ()> = Simulation::default();

    // Schedule tasks with different return types
    let handle1: TaskHandle<i32> =
        sim.schedule_closure(millis(50), |_: &mut Sched<()>| -> i32 { 42 });
    let handle2: TaskHandle<String> = sim
        .schedule_closure(millis(75), |_: &mut Sched<()>| -> String {
            "Hello from task!".to_string()
        });
    let handle3: TaskHandle<Vec<i32>> = sim
        .schedule_closure(millis(100), |_: &mut Sched<()>| -> Vec<i32> { vec![1, 2, 3, 4, 5] });

    // Run simulation
    Executor::timed(millis(150)).execute(&mut sim);

    // Retrieve results
    assert_eq!(sim.get_task_result(handle1), Some(Value::Int(42)));
    assert_eq!(
        sim.get_task_result(handle2),
        Some(Value::Text("Hello from task!".to_string()))
    );
    assert_eq!(sim.get_task_result(handle3), Some(Value::List(vec![1, 2, 3, 4, 5])));
}

#[test]
fn cancelled_events_do_not_move_the_clock_of_a_run() {
    let mut sim: Sim<Noop, ()> = Simulation::default();
    let handle: TaskHandle<()> = sim.schedule_closure(millis(100), |_: &mut Sched<()>| {});
    sim.cancel_task(handle);
    assert!(sim.has_pending_events());
    assert!(!sim.step());
    assert!(!sim.has_pending_events());
    assert_eq!(sim.time(), SimTime::zero());
}

#[test]
fn a_timed_run_goes_by_the_first_event_that_is_not_cancelled() {
    let mut sim: Sim<Noop, ()> = Simulation::default();
    let early: TaskHandle<()> = sim.schedule_closure(millis(50), |_: &mut Sched<()>| {});
    let late: TaskHandle<i32> = sim.schedule_closure(millis(500), |_: &mut Sched<()>| 7);
    sim.cancel_task(early);
    assert_eq!(sim.peek_next_event_time(), Some(millis(50)));
    assert_eq!(sim.next_live_event_time(), Some(millis(500)));

    Executor::timed(millis(100)).execute(&mut sim);
    assert_eq!(sim.time(), SimTime::zero());
    assert_eq!(sim.get_task_result(late), None);

    Executor::timed(millis(500)).execute(&mut sim);
    assert_eq!(sim.time(), millis(500));
    assert_eq!(sim.get_task_result(late), Some(Value::Int(7)));
    assert_eq!(sim.next_live_event_time(), None);
}
