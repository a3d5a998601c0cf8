//! Tasks: work that is run once at a given time.

use crate::scheduler::{Scheduler, SchedulerView};
use crate::time::SimTime;
use std::marker::PhantomData;
use vstd::prelude::*;

verus! {

/// Work that a scheduler runs at a given time.
///
/// A task is run at the time of its event, while the scheduler knows it as the one
/// that is executing. This is all that is asked of it: that the scheduler is still
/// in order afterwards, that events were only added under numbers of their own, and
/// that the clock was left to the simulation.
pub trait Task<P, R>: Sized {
    /// Whether running the task on a scheduler can leave it as `after`, with that
    /// output.
    open spec fn runs(
        self,
        before: SchedulerView<P, Self, R>,
        after: SchedulerView<P, Self, R>,
        output: Option<R>,
    ) -> bool {
        true
    }

    /// Runs the task. There is an output where the task has a result that someone
    /// may fetch.
    fn execute(self, scheduler: &mut Scheduler<P, Self, R>) -> (output: Option<R>)
        requires
            old(scheduler).wf(),
            old(scheduler)@.executing is Some,
        ensures
            final(scheduler).wf(),
            final(scheduler)@.budget() <= old(scheduler)@.budget(),
            final(scheduler)@.now == old(scheduler)@.now,
            self.runs(old(scheduler)@, final(scheduler)@, output),
    ;
}

/// A task that runs a closure.
pub struct ClosureTask<F, R> {
    pub closure: F,
    pub _marker: PhantomData<R>,
}

impl<F, O> ClosureTask<F, O> {
    pub fn new(closure: F) -> (task: Self)
        ensures
            task.closure == closure,
    {
        ClosureTask { closure, _marker: PhantomData }
    }

    /// Runs the closure and hands its result on.
    pub fn execute<P, T, R>(self, scheduler: &mut Scheduler<P, T, R>) -> (output: O) where
        F: FnOnce(&mut Scheduler<P, T, R>) -> O,

        requires
            old(scheduler).wf(),
            forall|s: &mut Scheduler<P, T, R>|
                (*s)@.wf() ==> #[trigger] call_requires(self.closure, (s,)),
            forall|s: &mut Scheduler<P, T, R>, o: O| #[trigger]
                call_ensures(self.closure, (s,), o) && (*s)@.wf() ==> (*final(s))@.wf() && (
                *final(s))@.budget() <= (*s)@.budget(),
        ensures
            final(scheduler).wf(),
            final(scheduler)@.budget() <= old(scheduler)@.budget(),
            exists|s: &mut Scheduler<P, T, R>|
                *s == *old(scheduler) && *final(s) == *final(scheduler) && #[trigger] call_ensures(
                    self.closure,
                    (s,),
                    output,
                ),
    {
        (self.closure)(scheduler)
    }
}

/// A task that runs a callback after a timeout, for its effect alone.
pub struct TimeoutTask<F> {
    pub callback: F,
}

impl<F> TimeoutTask<F> {
    pub fn new(callback: F) -> (task: Self)
        ensures
            task.callback == callback,
    {
        TimeoutTask { callback }
    }

    /// Runs the callback.
    pub fn execute<P, T, R>(self, scheduler: &mut Scheduler<P, T, R>) where
        F: FnOnce(&mut Scheduler<P, T, R>),

        requires
            old(scheduler).wf(),
            forall|s: &mut Scheduler<P, T, R>|
                (*s)@.wf() ==> #[trigger] call_requires(self.callback, (s,)),
            forall|s: &mut Scheduler<P, T, R>, o: ()| #[trigger]
                call_ensures(self.callback, (s,), o) && (*s)@.wf() ==> (*final(s))@.wf() && (
                *final(s))@.budget() <= (*s)@.budget(),
        ensures
            final(scheduler).wf(),
            final(scheduler)@.budget() <= old(scheduler)@.budget(),
            exists|s: &mut Scheduler<P, T, R>|
                *s == *old(scheduler) && *final(s) == *final(scheduler) && #[trigger] call_ensures(
                    self.callback,
                    (s,),
                    (),
                ),
    {
        (self.callback)(scheduler)
    }
}

/// A task that runs an operation until it succeeds, at most a given number of
/// times, with twice the delay after each failure.
pub struct RetryTask<F, X, E> {
    pub operation: F,
    pub max_attempts: u32,
    pub current_attempt: u32,
    pub base_delay: SimTime,
    pub _marker: PhantomData<(X, E)>,
}

/// The delay before the next attempt, after `attempts` attempts.
pub open spec fn backoff(base_delay: u64, attempts: nat) -> u64
    recommends
        1 <= attempts <= 64,
{
    crate::time::scaled(
        base_delay,
        vstd::arithmetic::power2::pow2((attempts - 1) as nat) as u64,
    )
}

/// Two to a power below sixty-four.
fn power_of_two(n: u32) -> (power: u64)
    requires
        n < 64,
    ensures
        power == vstd::arithmetic::power2::pow2(n as nat),
        power == vstd::arithmetic::power2::pow2(n as nat) as u64,
{
    proof {
        vstd::arithmetic::power2::lemma2_to64();
        vstd::arithmetic::power2::lemma2_to64_rest();
        if n < 63 {
            vstd::arithmetic::power2::lemma_pow2_strictly_increases(n as nat, 63);
        }
        vstd::bits::lemma_u64_shl_is_mul(1, n as u64);
    }
    1u64 << (n as u64)
}

impl<F, X, E> RetryTask<F, X, E> {
    pub fn new(operation: F, max_attempts: u32, base_delay: SimTime) -> (task: Self)
        ensures
            task.operation == operation,
            task.max_attempts == max_attempts,
            task.current_attempt == 0,
            task.base_delay == base_delay,
    {
        RetryTask { operation, max_attempts, current_attempt: 0, base_delay, _marker: PhantomData }
    }

    /// The task with one more attempt made.
    pub open spec fn attempted(self) -> Self {
        RetryTask { current_attempt: (self.current_attempt + 1) as u32, ..self }
    }

    /// Whether the operation is tried again after one more failure.
    pub open spec fn tries_again(self) -> bool {
        self.current_attempt + 1 < self.max_attempts
    }

    /// Makes an attempt. After a failure that is not the last allowed one, the task
    /// is scheduled again under its own identifier, as long as there is a number left
    /// for its event.
    pub fn execute<P, T, R>(self, scheduler: &mut Scheduler<P, T, R>) -> (output: Result<X, E>) where
        F: Fn(&mut Scheduler<P, T, R>) -> Result<X, E>,
        T: From<RetryTask<F, X, E>>,

        requires
            old(scheduler).wf(),
            self.tries_again() ==> old(scheduler)@.executing is Some,
            self.current_attempt < u32::MAX,
            self.tries_again() ==> self.current_attempt < 64,
            forall|s: &mut Scheduler<P, T, R>|
                (*s)@.wf() ==> #[trigger] call_requires(self.operation, (s,)),
            forall|s: &mut Scheduler<P, T, R>, o: Result<X, E>| #[trigger]
                call_ensures(self.operation, (s,), o) && (*s)@.wf() ==> (*final(s))@.wf() && (
                *final(s))@.budget() <= (*s)@.budget(),
        ensures
            final(scheduler).wf(),
            final(scheduler)@.budget() <= old(scheduler)@.budget(),
            exists|s: &mut Scheduler<P, T, R>|
                {
                    &&& *s == *old(scheduler)
                    &&& #[trigger] call_ensures(self.operation, (s,), output)
                    &&& output is Ok || !self.tries_again() || (*final(s))@.next_event_id
                        == u64::MAX ==> final(scheduler)@ == (*final(s))@
                    &&& output is Err && self.tries_again() && (*final(s))@.next_event_id
                        < u64::MAX ==> exists|task: T|
                        {
                            &&& #[trigger] call_ensures(T::from, (self.attempted(),), task)
                            &&& final(scheduler)@ == (*final(s))@.with_task(
                                (*final(s))@.now.saturating_add(
                                    backoff(self.base_delay.0, (self.current_attempt + 1) as nat),
                                ),
                                old(scheduler)@.executing->0,
                                task,
                            )
                        }
                },
    {
        let mut task = self;
        task.current_attempt = task.current_attempt + 1;
        let executing = scheduler.executing_task_id();
        let output = (task.operation)(scheduler);
        match output {
            Ok(result) => Ok(result),
            Err(error) => {
                if task.current_attempt < task.max_attempts {
                    let delay = task.base_delay * power_of_two(task.current_attempt - 1);
                    if let Some(task_id) = executing {
                        if scheduler.can_schedule() {
                            let time = scheduler.time() + delay;
                            proof {
                                assert(task == self.attempted());
                            }
                            scheduler.schedule_task_at(time, task_id, T::from(task));
                        }
                    }
                }
                Err(error)
            },
        }
    }
}

/// A task that runs a callback at regular intervals.
pub struct PeriodicTask<F> {
    pub callback: F,
    pub interval: SimTime,
    pub remaining_executions: Option<u32>,
}

impl<F> PeriodicTask<F> {
    /// A task that runs until it is cancelled.
    pub fn new(callback: F, interval: SimTime) -> (task: Self)
        ensures
            task == (PeriodicTask { callback, interval, remaining_executions: None }),
    {
        PeriodicTask { callback, interval, remaining_executions: None }
    }

    /// A task that runs a given number of times.
    pub fn with_count(callback: F, interval: SimTime, count: u32) -> (task: Self)
        ensures
            task == (PeriodicTask { callback, interval, remaining_executions: Some(count) }),
    {
        PeriodicTask { callback, interval, remaining_executions: Some(count) }
    }

    /// The task with one run less to do.
    pub open spec fn executed(self) -> Self {
        PeriodicTask {
            remaining_executions: match self.remaining_executions {
                Some(n) => Some((n - 1) as u32),
                None => None,
            },
            ..self
        }
    }

    /// Whether there is another run after the present one.
    pub open spec fn runs_again(self) -> bool {
        self.remaining_executions != Some(1u32)
    }

    /// Runs the callback, and schedules the task again under its own identifier if
    /// there are runs left and a number for its event.
    pub fn execute<P, T, R>(self, scheduler: &mut Scheduler<P, T, R>) where
        F: Fn(&mut Scheduler<P, T, R>),
        T: From<PeriodicTask<F>>,

        requires
            old(scheduler).wf(),
            self.runs_again() ==> old(scheduler)@.executing is Some,
            self.remaining_executions != Some(0u32),
            forall|s: &mut Scheduler<P, T, R>|
                (*s)@.wf() ==> #[trigger] call_requires(self.callback, (s,)),
            forall|s: &mut Scheduler<P, T, R>, o: ()| #[trigger]
                call_ensures(self.callback, (s,), o) && (*s)@.wf() ==> (*final(s))@.wf() && (
                *final(s))@.budget() <= (*s)@.budget(),
        ensures
            final(scheduler).wf(),
            final(scheduler)@.budget() <= old(scheduler)@.budget(),
            exists|s: &mut Scheduler<P, T, R>|
                {
                    &&& *s == *old(scheduler)
                    &&& #[trigger] call_ensures(self.callback, (s,), ())
                    &&& !self.runs_again() || (*final(s))@.next_event_id == u64::MAX
                        ==> final(scheduler)@ == (*final(s))@
                    &&& self.runs_again() && (*final(s))@.next_event_id < u64::MAX ==> exists|
                        task: T,
                    |
                        {
                            &&& #[trigger] call_ensures(T::from, (self.executed(),), task)
                            &&& final(scheduler)@ == (*final(s))@.with_task(
                                (*final(s))@.now.saturating_add(self.interval.0),
                                old(scheduler)@.executing->0,
                                task,
                            )
                        }
                },
    {
        let mut task = self;
        let executing = scheduler.executing_task_id();
        (task.callback)(scheduler);
        if let Some(remaining) = task.remaining_executions {
            task.remaining_executions = Some(remaining - 1);
            if remaining == 1 {
                return;
            }
        }
        if let Some(task_id) = executing {
            if scheduler.can_schedule() {
                let time = scheduler.time() + task.interval;
                proof {
                    assert(task == self.executed());
                }
                scheduler.schedule_task_at(time, task_id, T::from(task));
            }
        }
    }
}

/// How often a retried operation can still be run.
pub open spec fn attempts_left<F, X, E>(task: RetryTask<F, X, E>) -> nat {
    if task.max_attempts <= task.current_attempt {
        1
    } else {
        (task.max_attempts - task.current_attempt) as nat
    }
}

/// A retried operation is run at most as often as allowed: each time that it is
/// scheduled again, one run less is left, and one is left at the last.
pub proof fn retries_are_bounded<F, X, E>(task: RetryTask<F, X, E>)
    requires
        task.current_attempt < u32::MAX,
    ensures
        task.tries_again() ==> attempts_left(task.attempted()) == attempts_left(task) - 1,
        !task.tries_again() ==> attempts_left(task) == 1,
{
}

/// The delay doubles from one attempt to the next, until it reaches the last time.
pub proof fn backoff_doubles(base_delay: u64, attempts: nat)
    requires
        1 <= attempts < 64,
    ensures
        backoff(base_delay, 1) == base_delay,
        backoff(base_delay, attempts + 1) == crate::time::scaled(backoff(base_delay, attempts), 2),
{
    vstd::arithmetic::power2::lemma2_to64();
    vstd::arithmetic::power2::lemma2_to64_rest();
    let p = vstd::arithmetic::power2::pow2((attempts - 1) as nat);
    let q = vstd::arithmetic::power2::pow2(attempts);
    vstd::arithmetic::power2::lemma_pow2_unfold(attempts);
    if attempts < 63 {
        vstd::arithmetic::power2::lemma_pow2_strictly_increases(attempts, 63);
    }
    vstd::arithmetic::power2::lemma_pow2_strictly_increases((attempts - 1) as nat, attempts);
    assert(vstd::arithmetic::power2::pow2(0) == 1);
    assert(base_delay * (1u64) == base_delay);
    assert(q == 2 * p);
    assert(base_delay * q == (base_delay * p) * 2) by (nonlinear_arith)
        requires
            q == 2 * p,
    ;
}

/// A periodic task with a count is run that often: each run takes one off, and
/// after the last one it is not scheduled again.
pub proof fn periodic_runs_are_counted<F>(task: PeriodicTask<F>, n: u32)
    requires
        task.remaining_executions == Some(n),
        n > 0,
    ensures
        task.runs_again() <==> n > 1,
        task.executed().remaining_executions == Some((n - 1) as u32),
{
}

/// A periodic task without a count always runs again.
pub proof fn periodic_runs_go_on<F>(task: PeriodicTask<F>)
    requires
        task.remaining_executions is None,
    ensures
        task.runs_again(),
        task.executed() == task,
{
}

} // verus!
