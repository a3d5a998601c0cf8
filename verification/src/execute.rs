//! Running a simulation until some condition is met.

use crate::component::Component;
use crate::frontier_policy::EventFrontierPolicy;
use crate::simulation::Simulation;
use crate::task::Task;
use crate::time::SimTime;
use vstd::prelude::*;

verus! {

/// When a run ends.
#[derive(Debug, Clone, Copy, PartialEq, Eq, Structural)]
pub enum EndCondition {
    Time(SimTime),
    NoEvents,
    Steps(usize),
}

/// Whether there is an event to process.
pub open spec fn has_due<C: Component<T, R>, T, R, Q>(sim: Simulation<C, T, R, Q>) -> bool {
    sim.scheduler@.frontier().due.len() > 0
}

/// Whether there is an event to process that is due by a time.
pub open spec fn has_due_by<C: Component<T, R>, T, R, Q>(
    sim: Simulation<C, T, R, Q>,
    time: SimTime,
) -> bool {
    has_due(sim) && sim.scheduler@.frontier().due[0].spec_time() <= time.0
}

/// Whether a sequence of states is a run of a simulation: each follows from the
/// one before by one step.
pub open spec fn is_run<C: Component<T, R>, T: Task<C::Event, R>, R, Q: EventFrontierPolicy>(
    states: Seq<Simulation<C, T, R, Q>>,
) -> bool {
    &&& states.len() > 0
    &&& forall|i: int|
        0 <= i < states.len() - 1 ==> crate::simulation::steps_to(
            #[trigger] states[i],
            states[i + 1],
        )
}

/// Whether a run ends where a condition says, and not before.
pub open spec fn ends_at<C: Component<T, R>, T, R, Q>(
    end: EndCondition,
    states: Seq<Simulation<C, T, R, Q>>,
) -> bool {
    let n = states.len() - 1;
    match end {
        EndCondition::Time(time) => {
            &&& forall|i: int| 0 <= i < n ==> has_due_by(#[trigger] states[i], time)
            &&& !has_due_by(states[n], time)
        },
        EndCondition::NoEvents => {
            &&& n > 0
            &&& forall|i: int| 0 <= i < n - 1 ==> has_due(#[trigger] states[i])
            &&& !has_due(states[n - 1])
        },
        EndCondition::Steps(steps) => {
            &&& n <= steps
            &&& forall|i: int| 0 <= i < n - 1 ==> has_due(#[trigger] states[i])
            &&& n < steps ==> n > 0 && !has_due(states[n - 1])
        },
    }
}

/// Whether a side effect has seen the state after each event of a run.
pub open spec fn observed<
    C: Component<T, R>,
    T,
    R,
    Q,
    F: Fn(&Simulation<C, T, R, Q>),
>(effect: F, states: Seq<Simulation<C, T, R, Q>>) -> bool {
    forall|i: int|
        0 <= i < states.len() - 1 && has_due(#[trigger] states[i]) ==> call_ensures(
            effect,
            (&states[i + 1],),
            (),
        )
}

/// A way of running a simulation.
pub trait Execute<C: Component<T, R>, T: Task<C::Event, R>, R, Q: EventFrontierPolicy>: Sized {
    /// Whether this way of running can be taken.
    open spec fn ready(self) -> bool {
        true
    }

    /// Whether a run is one of this way.
    open spec fn allows(self, states: Seq<Simulation<C, T, R, Q>>) -> bool {
        true
    }

    /// Runs the simulation until its end condition is met.
    fn execute(self, sim: &mut Simulation<C, T, R, Q>)
        requires
            old(sim).wf(),
            self.ready(),
        ensures
            final(sim).wf(),
            exists|states: Seq<Simulation<C, T, R, Q>>|
                {
                    &&& #[trigger] is_run(states)
                    &&& self.allows(states)
                    &&& states[0] == *old(sim)
                    &&& states.last() == *final(sim)
                },
    ;
}

/// Runs a whole simulation.
#[derive(Debug, Clone, Copy, PartialEq, Eq, Structural)]
pub struct Executor {
    pub end_condition: EndCondition,
}

impl Executor {
    /// Runs until there are no events left.
    pub fn unbound() -> (executor: Self)
        ensures
            executor.end_condition == EndCondition::NoEvents,
    {
        Executor { end_condition: EndCondition::NoEvents }
    }

    /// Runs no longer than a given time, and ends early if there are no events.
    pub fn timed(time: SimTime) -> (executor: Self)
        ensures
            executor.end_condition == EndCondition::Time(time),
    {
        Executor { end_condition: EndCondition::Time(time) }
    }

    /// Runs exactly this many steps, and ends early if there are no events.
    pub fn steps(steps: usize) -> (executor: Self)
        ensures
            executor.end_condition == EndCondition::Steps(steps),
    {
        Executor { end_condition: EndCondition::Steps(steps) }
    }

    /// Adds a side effect that is called after each step.
    pub fn side_effect<F>(self, func: F) -> (executor: ExecutorWithSideEffect<F>)
        ensures
            executor == (ExecutorWithSideEffect {
                end_condition: self.end_condition,
                side_effect: func,
            }),
    {
        ExecutorWithSideEffect { end_condition: self.end_condition, side_effect: func }
    }
}

impl<C: Component<T, R>, T: Task<C::Event, R>, R, Q: EventFrontierPolicy> Execute<
    C,
    T,
    R,
    Q,
> for Executor {
    open spec fn ready(self) -> bool {
        true
    }

    open spec fn allows(self, states: Seq<Simulation<C, T, R, Q>>) -> bool {
        ends_at(self.end_condition, states)
    }

    fn execute(self, sim: &mut Simulation<C, T, R, Q>) {
        let nothing = |s: &Simulation<C, T, R, Q>| {};
        run_with(sim, self.end_condition, nothing);
    }
}

/// Runs a whole simulation, with a side effect after each step.
pub struct ExecutorWithSideEffect<F> {
    pub end_condition: EndCondition,
    pub side_effect: F,
}

impl<
    C: Component<T, R>,
    T: Task<C::Event, R>,
    R,
    Q: EventFrontierPolicy,
    F: Fn(&Simulation<C, T, R, Q>),
> Execute<C, T, R, Q> for ExecutorWithSideEffect<F> {
    open spec fn ready(self) -> bool {
        forall|s: &Simulation<C, T, R, Q>| #[trigger] call_requires(self.side_effect, (s,))
    }

    open spec fn allows(self, states: Seq<Simulation<C, T, R, Q>>) -> bool {
        ends_at(self.end_condition, states) && observed(self.side_effect, states)
    }

    fn execute(self, sim: &mut Simulation<C, T, R, Q>) {
        run_with(sim, self.end_condition, self.side_effect);
    }
}

/// Makes one step, and calls the side effect if an event was processed.
fn step_with<C: Component<T, R>, T: Task<C::Event, R>, R, Q: EventFrontierPolicy, F>(
    sim: &mut Simulation<C, T, R, Q>,
    side_effect: &F,
) -> (processed: bool) where F: Fn(&Simulation<C, T, R, Q>)
    requires
        old(sim).wf(),
        forall|s: &Simulation<C, T, R, Q>| #[trigger] call_requires(*side_effect, (s,)),
    ensures
        final(sim).wf(),
        processed == has_due(*old(sim)),
        crate::simulation::steps_to(*old(sim), *final(sim)),
        processed ==> call_ensures(*side_effect, (&*final(sim),), ()),
        final(sim).scheduler@.budget() <= old(sim).scheduler@.budget(),
        old(sim).scheduler@.events.len() > 0 ==> final(sim).scheduler@.budget() < old(
            sim,
        ).scheduler@.budget(),
{
    let processed = sim.step();
    if processed {
        side_effect(&*sim);
    }
    processed
}

/// Runs a simulation until its end condition is met.
fn run_with<C: Component<T, R>, T: Task<C::Event, R>, R, Q: EventFrontierPolicy, F>(
    sim: &mut Simulation<C, T, R, Q>,
    end_condition: EndCondition,
    side_effect: F,
) where F: Fn(&Simulation<C, T, R, Q>)
    requires
        old(sim).wf(),
        forall|s: &Simulation<C, T, R, Q>| #[trigger] call_requires(side_effect, (s,)),
    ensures
        final(sim).wf(),
        exists|states: Seq<Simulation<C, T, R, Q>>|
            {
                &&& #[trigger] is_run(states)
                &&& ends_at(end_condition, states)
                &&& observed(side_effect, states)
                &&& states[0] == *old(sim)
                &&& states.last() == *final(sim)
            },
{
    match end_condition {
        EndCondition::Time(time) => execute_until(sim, time, side_effect),
        EndCondition::NoEvents => execute_until_empty(sim, side_effect),
        EndCondition::Steps(steps) => execute_steps(sim, steps, side_effect),
    }
}

/// A run with one more step.
proof fn lemma_extend<
    C: Component<T, R>,
    T: Task<C::Event, R>,
    R,
    Q: EventFrontierPolicy,
    F: Fn(&Simulation<C, T, R, Q>),
>(effect: F, states: Seq<Simulation<C, T, R, Q>>, next: Simulation<C, T, R, Q>)
    requires
        is_run(states),
        observed(effect, states),
        crate::simulation::steps_to(states.last(), next),
        has_due(states.last()) ==> call_ensures(effect, (&next,), ()),
    ensures
        is_run(states.push(next)),
        observed(effect, states.push(next)),
        states.push(next).last() == next,
        states.push(next)[0] == states[0],
{
    let longer = states.push(next);
    assert forall|i: int| 0 <= i < longer.len() - 1 implies crate::simulation::steps_to(
        #[trigger] longer[i],
        longer[i + 1],
    ) by {
        assert(longer[i] == states[i]);
        if i + 1 < states.len() {
            assert(longer[i + 1] == states[i + 1]);
        }
    }
    assert forall|i: int|
        0 <= i < longer.len() - 1 && has_due(#[trigger] longer[i]) implies call_ensures(
        effect,
        (&longer[i + 1],),
        (),
    ) by {
        assert(longer[i] == states[i]);
        if i + 1 < states.len() {
            assert(longer[i + 1] == states[i + 1]);
        }
    }
}

fn execute_until_empty<C: Component<T, R>, T: Task<C::Event, R>, R, Q: EventFrontierPolicy, F>(
    sim: &mut Simulation<C, T, R, Q>,
    side_effect: F,
) where F: Fn(&Simulation<C, T, R, Q>)
    requires
        old(sim).wf(),
        forall|s: &Simulation<C, T, R, Q>| #[trigger] call_requires(side_effect, (s,)),
    ensures
        final(sim).wf(),
        exists|states: Seq<Simulation<C, T, R, Q>>|
            {
                &&& #[trigger] is_run(states)
                &&& ends_at(EndCondition::NoEvents, states)
                &&& observed(side_effect, states)
                &&& states[0] == *old(sim)
                &&& states.last() == *final(sim)
            },
{
    let ghost mut states = seq![*sim];
    loop
        invariant
            sim.wf(),
            forall|s: &Simulation<C, T, R, Q>| #[trigger] call_requires(side_effect, (s,)),
            is_run(states),
            observed(side_effect, states),
            states[0] == *old(sim),
            states.last() == *sim,
            forall|i: int| 0 <= i < states.len() - 1 ==> has_due(#[trigger] states[i]),
        decreases sim.scheduler@.budget(),
    {
        let ghost before = *sim;
        let processed = step_with(sim, &side_effect);
        proof {
            lemma_extend(side_effect, states, *sim);
            states = states.push(*sim);
            if processed {
                lemma_due_needs_events(before.scheduler@);
            }
        }
        if !processed {
            proof {
                assert(ends_at(EndCondition::NoEvents, states));
            }
            return;
        }
    }
}

fn execute_until<C: Component<T, R>, T: Task<C::Event, R>, R, Q: EventFrontierPolicy, F>(
    sim: &mut Simulation<C, T, R, Q>,
    time: SimTime,
    side_effect: F,
) where F: Fn(&Simulation<C, T, R, Q>)
    requires
        old(sim).wf(),
        forall|s: &Simulation<C, T, R, Q>| #[trigger] call_requires(side_effect, (s,)),
    ensures
        final(sim).wf(),
        exists|states: Seq<Simulation<C, T, R, Q>>|
            {
                &&& #[trigger] is_run(states)
                &&& ends_at(EndCondition::Time(time), states)
                &&& observed(side_effect, states)
                &&& states[0] == *old(sim)
                &&& states.last() == *final(sim)
            },
{
    let ghost mut states = seq![*sim];
    loop
        invariant
            sim.wf(),
            forall|s: &Simulation<C, T, R, Q>| #[trigger] call_requires(side_effect, (s,)),
            is_run(states),
            observed(side_effect, states),
            states[0] == *old(sim),
            states.last() == *sim,
            forall|i: int| 0 <= i < states.len() - 1 ==> has_due_by(#[trigger] states[i], time),
        decreases sim.scheduler@.budget(),
    {
        let due = match sim.next_live_event_time() {
            Some(t) => t.0 <= time.0,
            None => false,
        };
        if !due {
            proof {
                assert(ends_at(EndCondition::Time(time), states));
            }
            return;
        }
        proof {
            lemma_due_needs_events(sim.scheduler@);
        }
        step_with(sim, &side_effect);
        proof {
            lemma_extend(side_effect, states, *sim);
            states = states.push(*sim);
        }
    }
}

fn execute_steps<C: Component<T, R>, T: Task<C::Event, R>, R, Q: EventFrontierPolicy, F>(
    sim: &mut Simulation<C, T, R, Q>,
    steps: usize,
    side_effect: F,
) where F: Fn(&Simulation<C, T, R, Q>)
    requires
        old(sim).wf(),
        forall|s: &Simulation<C, T, R, Q>| #[trigger] call_requires(side_effect, (s,)),
    ensures
        final(sim).wf(),
        exists|states: Seq<Simulation<C, T, R, Q>>|
            {
                &&& #[trigger] is_run(states)
                &&& ends_at(EndCondition::Steps(steps), states)
                &&& observed(side_effect, states)
                &&& states[0] == *old(sim)
                &&& states.last() == *final(sim)
            },
{
    let ghost mut states = seq![*sim];
    let mut done: usize = 0;
    while done < steps
        invariant
            sim.wf(),
            forall|s: &Simulation<C, T, R, Q>| #[trigger] call_requires(side_effect, (s,)),
            is_run(states),
            observed(side_effect, states),
            states[0] == *old(sim),
            states.last() == *sim,
            done <= steps,
            states.len() == done + 1,
            forall|i: int| 0 <= i < states.len() - 1 ==> has_due(#[trigger] states[i]),
        decreases steps - done,
    {
        let processed = step_with(sim, &side_effect);
        proof {
            lemma_extend(side_effect, states, *sim);
            states = states.push(*sim);
        }
        if !processed {
            proof {
                assert(ends_at(EndCondition::Steps(steps), states));
            }
            return;
        }
        done = done + 1;
    }
    proof {
        assert(ends_at(EndCondition::Steps(steps), states));
    }
}

proof fn lemma_due_needs_events<P, T, R>(v: crate::scheduler::SchedulerView<P, T, R>)
    requires
        v.frontier().due.len() > 0,
    ensures
        v.events.len() > 0,
{
}

impl<C: Component<T, R>, T: Task<C::Event, R>, R, Q: EventFrontierPolicy> Simulation<C, T, R, Q> {
    /// Runs the simulation in a given way.
    pub fn execute<X: Execute<C, T, R, Q>>(&mut self, executor: X)
        requires
            old(self).wf(),
            executor.ready(),
        ensures
            final(self).wf(),
            exists|states: Seq<Simulation<C, T, R, Q>>|
                {
                    &&& #[trigger] is_run(states)
                    &&& executor.allows(states)
                    &&& states[0] == *old(self)
                    &&& states.last() == *final(self)
                },
    {
        executor.execute(self);
    }
}

/// After an unbound run there is no event left to process, and none in the queue.
pub proof fn unbound_run_leaves_no_events<
    C: Component<T, R>,
    T: Task<C::Event, R>,
    R,
    Q: EventFrontierPolicy,
>(states: Seq<Simulation<C, T, R, Q>>)
    requires
        is_run(states),
        ends_at(EndCondition::NoEvents, states),
    ensures
        states.last().scheduler@.events.len() == 0,
{
    let n = states.len() - 2;
    assert(crate::simulation::steps_to(states[n], states[n + 1]));
    crate::simulation::nothing_due_empties_the_queue(states[n].scheduler@);
}

/// After a timed run no event is left that is due by the given time, but for those that
/// were cancelled.
pub proof fn timed_run_leaves_only_later_events<
    C: Component<T, R>,
    T: Task<C::Event, R>,
    R,
    Q: EventFrontierPolicy,
>(states: Seq<Simulation<C, T, R, Q>>, time: SimTime, i: int)
    requires
        is_run(states),
        ends_at(EndCondition::Time(time), states),
        states.last().wf(),
        0 <= i < states.last().scheduler@.events.len(),
    ensures
        ({
            let v = states.last().scheduler@;
            time.0 < v.events[i].spec_time() || crate::scheduler::is_marked(
                v.events[i],
                v.cancelled,
            )
        }),
{
    let v = states.last().scheduler@;
    if !crate::scheduler::is_marked(v.events[i], v.cancelled) {
        crate::scheduler_laws::live_events_are_due_with_the_frontier(v, i);
    }
}

/// What one step does to the clock: it shows the time of the event that was processed,
/// and stays where there was none.
pub proof fn step_moves_the_clock_to_its_event<
    C: Component<T, R>,
    T: Task<C::Event, R>,
    R,
    Q: EventFrontierPolicy,
>(before: Simulation<C, T, R, Q>, after: Simulation<C, T, R, Q>)
    requires
        before.scheduler@.wf(),
        crate::simulation::steps_to(before, after),
    ensures
        !has_due(before) ==> after.scheduler@.now == before.scheduler@.now,
        has_due(before) ==> after.scheduler@.now
            == before.scheduler@.frontier().due[0].spec_time(),
        before.scheduler@.now <= after.scheduler@.now,
{
    let v = before.scheduler@;
    if has_due(before) {
        let (index, left) = choose|
            index: usize,
            left: crate::scheduler::SchedulerView<C::Event, T, R>,
        | #[trigger]
            crate::simulation::stepped(before, after, index, left);
        let k = crate::scheduler::clamped(index, v.frontier().due.len());
        crate::scheduler_laws::frontier_is_due_at_one_time(v, k);
        crate::scheduler_laws::draining_leaves_the_clock(
            crate::scheduler::SchedulerView { in_event: false, ..left },
        );
    } else {
        crate::scheduler_laws::first_due_event_is_popped(v);
    }
}

/// Time never goes back during a run.
pub proof fn time_never_goes_back_in_a_run<
    C: Component<T, R>,
    T: Task<C::Event, R>,
    R,
    Q: EventFrontierPolicy,
>(states: Seq<Simulation<C, T, R, Q>>, i: int, j: int)
    requires
        is_run(states),
        states[0].scheduler@.wf(),
        0 <= i <= j < states.len(),
    ensures
        states[i].scheduler@.now <= states[j].scheduler@.now,
    decreases j - i,
{
    if i < j {
        time_never_goes_back_in_a_run(states, i, j - 1);
        every_state_of_a_run_is_in_order(states, j - 1);
        assert(crate::simulation::steps_to(states[j - 1], states[j - 1 + 1]));
        step_moves_the_clock_to_its_event(states[j - 1], states[j]);
    }
}

/// A timed run lasts no longer than the given time: its events are due by then, and the
/// clock does not show a later time at its end, unless it did so before.
pub proof fn timed_run_ends_in_time<
    C: Component<T, R>,
    T: Task<C::Event, R>,
    R,
    Q: EventFrontierPolicy,
>(states: Seq<Simulation<C, T, R, Q>>, time: SimTime)
    requires
        is_run(states),
        ends_at(EndCondition::Time(time), states),
        states[0].scheduler@.wf(),
    ensures
        states.last().scheduler@.now <= states[0].scheduler@.now || states.last().scheduler@.now
            <= time.0,
        forall|i: int|
            0 < i < states.len() ==> (#[trigger] states[i]).scheduler@.now <= time.0,
{
    assert forall|i: int| 0 < i < states.len() implies (#[trigger] states[i]).scheduler@.now
        <= time.0 by {
        every_state_of_a_run_is_in_order(states, i - 1);
        let before = states[i - 1];
        assert(crate::simulation::steps_to(before, states[i - 1 + 1]));
        assert(has_due_by(before, time));
        step_moves_the_clock_to_its_event(before, states[i]);
    }
}

/// Every state of a run is in order if its first one is: no event lies in the past, and
/// no two have the same number.
pub proof fn every_state_of_a_run_is_in_order<
    C: Component<T, R>,
    T: Task<C::Event, R>,
    R,
    Q: EventFrontierPolicy,
>(states: Seq<Simulation<C, T, R, Q>>, i: int)
    requires
        is_run(states),
        states[0].scheduler@.wf(),
        0 <= i < states.len(),
    ensures
        states[i].scheduler@.wf(),
    decreases i,
{
    if i > 0 {
        every_state_of_a_run_is_in_order(states, i - 1);
        let before = states[i - 1];
        assert(crate::simulation::steps_to(before, states[i - 1 + 1]));
        if before.scheduler@.frontier().due.len() == 0 {
            crate::simulation::nothing_due_empties_the_queue(before.scheduler@);
        } else {
            let (index, left) = choose|
                index: usize,
                left: crate::scheduler::SchedulerView<C::Event, T, R>,
            | #[trigger]
                crate::simulation::stepped(before, states[i], index, left);
            crate::scheduler_laws::draining_keeps_the_order(
                crate::scheduler::SchedulerView { in_event: false, ..left },
            );
        }
    }
}

} // verus!
