//! A simulation: a scheduler, a policy and components.

use crate::component::{Component, Components, ComponentsView};
use crate::frontier_policy::{EventFrontierPolicy, FifoFrontierPolicy};
use crate::ids::{deterministic_uuid, UUID_DOMAIN_COMPONENT};
use crate::key::Key;
use crate::scheduler::{
    clear_scheduler_context, drain_deferred_wakes, set_scheduler_context, ClockRef, Scheduler,
    SchedulerView,
};
use crate::task::{ClosureTask, Task, TimeoutTask};
use crate::task_id::TaskHandle;
use crate::time::SimTime;
use vstd::prelude::*;

verus! {

/// How a simulation is set up.
#[derive(Debug, Clone, Copy, PartialEq, Eq, Structural)]
pub struct SimulationConfig {
    /// The seed that all identifiers and random choices are derived from.
    pub seed: u64,
}

impl Default for SimulationConfig {
    fn default() -> (config: Self)
        ensures
            config.seed == 1,
    {
        SimulationConfig { seed: 1 }
    }
}

/// A simulation with components of type `C`, tasks of type `T` with results of
/// type `R`, and the policy `Q` for events that are due at the same time.
pub struct Simulation<C: Component<T, R>, T, R, Q> {
    pub scheduler: Scheduler<C::Event, T, R>,
    pub frontier_policy: Q,
    pub next_component_id: u64,
    pub components: Components<C>,
    pub config: SimulationConfig,
}

/// Whether one step can lead from one state of a simulation to another, by
/// processing the event number `k` of those that are due.
pub open spec fn stepped<C: Component<T, R>, T: Task<C::Event, R>, R, Q: EventFrontierPolicy>(
    before: Simulation<C, T, R, Q>,
    after: Simulation<C, T, R, Q>,
    index: usize,
    left: SchedulerView<C::Event, T, R>,
) -> bool {
    let due = before.scheduler@.frontier().due;
    let k = crate::scheduler::clamped(index, due.len());
    &&& crate::scheduler::consulted(before.frontier_policy, due, after.frontier_policy, index)
    &&& crate::component::dispatched(
        due[k],
        before.components@,
        SchedulerView { in_event: true, ..before.scheduler@.taken(k) },
        after.components@,
        left,
    )
    &&& left.wf()
    &&& left.now == due[k].spec_time()
    &&& after.scheduler@ == SchedulerView { in_event: false, ..left }.drained()
    &&& after.next_component_id == before.next_component_id
    &&& after.config == before.config
}

/// Whether one step can lead from one state of a simulation to another.
pub open spec fn steps_to<C: Component<T, R>, T: Task<C::Event, R>, R, Q: EventFrontierPolicy>(
    before: Simulation<C, T, R, Q>,
    after: Simulation<C, T, R, Q>,
) -> bool {
    if before.scheduler@.frontier().due.len() == 0 {
        &&& after.scheduler@ == before.scheduler@.popped().1
        &&& after.frontier_policy == before.frontier_policy
        &&& after.components@ == before.components@
        &&& after.next_component_id == before.next_component_id
        &&& after.config == before.config
    } else {
        exists|index: usize, left: SchedulerView<C::Event, T, R>| #[trigger]
            stepped(before, after, index, left)
    }
}

impl<C: Component<T, R>, T, R> Default for Simulation<C, T, R, FifoFrontierPolicy> {
    fn default() -> (sim: Self)
        ensures
            sim.wf(),
            sim.is_new(SimulationConfig { seed: 42 }),
    {
        Self::new(SimulationConfig { seed: 42 })
    }
}

impl<C: Component<T, R>, T, R> Simulation<C, T, R, FifoFrontierPolicy> {
    /// Makes a simulation that processes events of the same time first in, first
    /// out.
    pub fn new(config: SimulationConfig) -> (sim: Self)
        ensures
            sim.wf(),
            sim.is_new(config),
    {
        Simulation {
            scheduler: Scheduler::with_seed(config.seed),
            frontier_policy: FifoFrontierPolicy,
            next_component_id: 0,
            components: Components::default(),
            config,
        }
    }
}

impl<C: Component<T, R>, T, R, Q> Simulation<C, T, R, Q> {
    pub open spec fn wf(&self) -> bool {
        self.scheduler.wf() && self.components.wf()
    }

    /// Whether this is a simulation in which nothing was done yet.
    pub open spec fn is_new(&self, config: SimulationConfig) -> bool {
        &&& self.scheduler@ == Scheduler::<C::Event, T, R>::empty(config.seed)
        &&& self.next_component_id == 0
        &&& self.components@ == (ComponentsView {
            components: Map::<u128, C>::empty(),
            next_component_id: 0,
            id_seed: 0,
        })
        &&& self.config == config
    }

    /// The identifier of the component that is added next.
    pub open spec fn next_component_value(&self) -> u128 {
        crate::ids::derived_id(
            self.config.seed,
            UUID_DOMAIN_COMPONENT,
            (self.next_component_id + 1) as u64,
        )
    }

    /// Sets the policy for events that are due at the same time.
    pub fn set_frontier_policy(&mut self, policy: Q)
        requires
            old(self).wf(),
        ensures
            final(self).wf(),
            *final(self) == (Simulation { frontier_policy: policy, ..*old(self) }),
    {
        self.frontier_policy = policy;
    }

    /// The same simulation with a policy of another type.
    pub fn with_frontier_policy<S>(self, policy: S) -> (sim: Simulation<C, T, R, S>)
        requires
            self.wf(),
        ensures
            sim.wf(),
            sim.frontier_policy == policy,
            sim.scheduler == self.scheduler,
            sim.next_component_id == self.next_component_id,
            sim.components == self.components,
            sim.config == self.config,
    {
        Simulation {
            scheduler: self.scheduler,
            frontier_policy: policy,
            next_component_id: self.next_component_id,
            components: self.components,
            config: self.config,
        }
    }

    pub fn config(&self) -> (config: &SimulationConfig)
        ensures
            *config == self.config,
    {
        &self.config
    }

    /// The present time.
    pub fn time(&self) -> (time: SimTime)
        ensures
            time.0 == self.scheduler@.now,
    {
        self.scheduler.time()
    }

    /// Adds a component under the next identifier of this simulation.
    pub fn add_component(&mut self, component: C) -> (key: Key<C::Event>)
        requires
            old(self).wf(),
            old(self).next_component_id < u64::MAX,
        ensures
            final(self).wf(),
            key.value() == old(self).next_component_value(),
            final(self).components@ == (ComponentsView {
                components: old(self).components@.components.insert(key.value(), component),
                ..old(self).components@
            }),
            final(self).next_component_id == old(self).next_component_id + 1,
            final(self).scheduler == old(self).scheduler,
            final(self).frontier_policy == old(self).frontier_policy,
            final(self).config == old(self).config,
    {
        self.next_component_id = self.next_component_id + 1;
        let id = deterministic_uuid(
            self.config.seed,
            UUID_DOMAIN_COMPONENT,
            self.next_component_id,
        );
        self.components.register_with_id(id, component)
    }

    /// Takes a component out of the simulation.
    pub fn remove_component(&mut self, key: Key<C::Event>) -> (component: Option<C>)
        requires
            old(self).wf(),
        ensures
            final(self).wf(),
            component == (if old(self).components@.components.contains_key(key.value()) {
                Some(old(self).components@.components[key.value()])
            } else {
                None
            }),
            final(self).components@ == (ComponentsView {
                components: old(self).components@.components.remove(key.value()),
                ..old(self).components@
            }),
            *final(self) == (Simulation { components: final(self).components, ..*old(self) }),
    {
        self.components.remove(key)
    }

    /// Lends a component out to be changed.
    pub fn get_component_mut(&mut self, key: Key<C::Event>) -> (component: Option<&mut C>)
        requires
            old(self).wf(),
        ensures
            final(self).wf(),
            component is Some <==> old(self).components@.components.contains_key(key.value()),
            match component {
                Some(c) => *c == old(self).components@.components[key.value()]
                    && final(self).components@ == (ComponentsView {
                    components: old(self).components@.components.insert(key.value(), *final(c)),
                    ..old(self).components@
                }),
                None => final(self).components@ == old(self).components@,
            },
            *final(self) == (Simulation { components: final(self).components, ..*old(self) }),
    {
        self.components.get_component_mut(key)
    }

    /// Schedules an event for a component, `time` from now.
    pub fn schedule(&mut self, time: SimTime, component: Key<C::Event>, event: C::Event)
        requires
            old(self).wf(),
            old(self).scheduler@.next_event_id < u64::MAX,
        ensures
            final(self).wf(),
            final(self).scheduler@ == old(self).scheduler@.scheduled(time.0, component.id, event),
            *final(self) == (Simulation { scheduler: final(self).scheduler, ..*old(self) }),
    {
        self.scheduler.schedule(time, component, event);
    }

    /// Schedules an event for a component at the present time.
    pub fn schedule_now(&mut self, component: Key<C::Event>, event: C::Event)
        requires
            old(self).wf(),
            old(self).scheduler@.next_event_id < u64::MAX,
        ensures
            final(self).wf(),
            final(self).scheduler@ == old(self).scheduler@.scheduled(0, component.id, event),
            *final(self) == (Simulation { scheduler: final(self).scheduler, ..*old(self) }),
    {
        self.scheduler.schedule(SimTime::zero(), component, event);
    }

    /// The time of the event that is due first, cancelled or not.
    pub fn peek_next_event_time(&self) -> (time: Option<SimTime>)
        ensures
            time == (if self.scheduler@.events.len() == 0 {
                None
            } else {
                Some(SimTime(self.scheduler@.events[0].spec_time()))
            }),
    {
        match self.scheduler.peek() {
            Some(event) => Some(event.time()),
            None => None,
        }
    }

    /// The time of the event that is processed next: that of the first one that is not
    /// cancelled.
    pub fn next_live_event_time(&self) -> (time: Option<SimTime>)
        requires
            self.wf(),
        ensures
            time == (if self.scheduler@.frontier().due.len() == 0 {
                None
            } else {
                Some(SimTime(self.scheduler@.frontier().due[0].spec_time()))
            }),
    {
        proof {
            crate::scheduler_laws::first_due_event_is_popped(self.scheduler@);
        }
        match self.scheduler.peek_live() {
            Some(event) => Some(event.time()),
            None => None,
        }
    }

    /// A reference through which the time can be read.
    pub fn clock(&self) -> (clock_ref: ClockRef)
        ensures
            clock_ref.cell() == self.scheduler.clock_cell(),
    {
        self.scheduler.clock()
    }

    /// Schedules a closure as a task, `delay` from now.
    pub fn schedule_closure<F, O>(&mut self, delay: SimTime, closure: F) -> (handle: TaskHandle<
        O,
    >) where T: From<ClosureTask<F, O>>
        requires
            old(self).wf(),
            old(self).scheduler@.next_event_id < u64::MAX,
            old(self).scheduler@.next_task_id < u64::MAX,
        ensures
            final(self).wf(),
            handle.id.value() == old(self).scheduler@.next_task_value(),
            exists|made: ClosureTask<F, O>, task: T|
                {
                    &&& made.closure == closure
                    &&& #[trigger] call_ensures(T::from, (made,), task)
                    &&& final(self).scheduler@ == old(self).scheduler@.with_next_task().with_task(
                        old(self).scheduler@.now.saturating_add(delay.0),
                        handle.id,
                        task,
                    )
                },
            *final(self) == (Simulation { scheduler: final(self).scheduler, ..*old(self) }),
    {
        self.scheduler.schedule_closure(delay, closure)
    }

    /// Schedules a callback as a task, `delay` from now.
    pub fn timeout<F>(&mut self, delay: SimTime, callback: F) -> (handle: TaskHandle<()>) where
        T: From<TimeoutTask<F>>,

        requires
            old(self).wf(),
            old(self).scheduler@.next_event_id < u64::MAX,
            old(self).scheduler@.next_task_id < u64::MAX,
        ensures
            final(self).wf(),
            handle.id.value() == old(self).scheduler@.next_task_value(),
            exists|task: T|
                {
                    &&& #[trigger] call_ensures(T::from, (TimeoutTask { callback },), task)
                    &&& final(self).scheduler@ == old(self).scheduler@.with_next_task().with_task(
                        old(self).scheduler@.now.saturating_add(delay.0),
                        handle.id,
                        task,
                    )
                },
            *final(self) == (Simulation { scheduler: final(self).scheduler, ..*old(self) }),
    {
        self.scheduler.timeout(delay, callback)
    }

    /// Schedules a task under a fresh identifier, `delay` from now.
    pub fn schedule_task<O>(&mut self, delay: SimTime, task: T) -> (handle: TaskHandle<O>)
        requires
            old(self).wf(),
            old(self).scheduler@.next_event_id < u64::MAX,
            old(self).scheduler@.next_task_id < u64::MAX,
        ensures
            final(self).wf(),
            handle.id.value() == old(self).scheduler@.next_task_value(),
            final(self).scheduler@ == old(self).scheduler@.with_next_task().with_task(
                old(self).scheduler@.now.saturating_add(delay.0),
                handle.id,
                task,
            ),
            *final(self) == (Simulation { scheduler: final(self).scheduler, ..*old(self) }),
    {
        self.scheduler.schedule_task(delay, task)
    }

    /// Cancels a task, and tells whether it was still waiting.
    pub fn cancel_task<O>(&mut self, handle: TaskHandle<O>) -> (was_pending: bool)
        requires
            old(self).wf(),
        ensures
            final(self).wf(),
            was_pending == old(self).scheduler@.pending.contains_key(handle.id.value()),
            final(self).scheduler@ == (if was_pending {
                old(self).scheduler@.with_task_cancelled(handle.id.value())
            } else {
                old(self).scheduler@
            }),
            *final(self) == (Simulation { scheduler: final(self).scheduler, ..*old(self) }),
    {
        self.scheduler.cancel_task(handle)
    }

    /// Fetches the result of a task that has run.
    pub fn get_task_result<O>(&mut self, handle: TaskHandle<O>) -> (result: Option<R>)
        requires
            old(self).wf(),
        ensures
            final(self).wf(),
            result == (if old(self).scheduler@.results.contains_key(handle.id.value()) {
                Some(old(self).scheduler@.results[handle.id.value()])
            } else {
                None
            }),
            final(self).scheduler@ == (SchedulerView {
                results: old(self).scheduler@.results.remove(handle.id.value()),
                ..old(self).scheduler@
            }),
            *final(self) == (Simulation { scheduler: final(self).scheduler, ..*old(self) }),
    {
        self.scheduler.get_task_result(handle)
    }

    /// Whether there is an event in the queue, cancelled or not.
    pub fn has_pending_events(&self) -> (has: bool)
        ensures
            has == (self.scheduler@.events.len() > 0),
    {
        self.scheduler.peek().is_some()
    }
}

impl<C: Component<T, R>, T: Task<C::Event, R>, R, Q: EventFrontierPolicy> Simulation<C, T, R, Q> {
    /// Processes one event, and tells whether there was one.
    pub fn step(&mut self) -> (processed: bool)
        requires
            old(self).wf(),
        ensures
            final(self).wf(),
            processed == (old(self).scheduler@.frontier().due.len() > 0),
            steps_to(*old(self), *final(self)),
            final(self).scheduler@.budget() <= old(self).scheduler@.budget(),
            old(self).scheduler@.events.len() > 0 ==> final(self).scheduler@.budget() < old(
                self,
            ).scheduler@.budget(),
    {
        let ghost before = *self;
        let ghost due = before.scheduler@.frontier().due;
        let event = match self.scheduler.pop_with_policy(&mut self.frontier_policy) {
            None => {
                proof {
                    nothing_due_empties_the_queue(before.scheduler@);
                }
                return false;
            },
            Some(event) => event,
        };
        let ghost index = choose|index: usize|
            {
                &&& #[trigger] crate::scheduler::consulted(
                    before.frontier_policy,
                    due,
                    self.frontier_policy,
                    index,
                )
                &&& event == due[crate::scheduler::clamped(index, due.len())]
                &&& self.scheduler@ == before.scheduler@.taken(
                    crate::scheduler::clamped(index, due.len()),
                )
            };
        set_scheduler_context(&mut self.scheduler);
        self.components.process_event_entry(event, &mut self.scheduler);
        let ghost left = self.scheduler@;
        clear_scheduler_context(&mut self.scheduler);
        drain_deferred_wakes(&mut self.scheduler);
        proof {
            assert(stepped(before, *self, index, left));
        }
        true
    }
}

/// Where no event is due, all events that were in the queue were cancelled, and
/// none is left.
pub proof fn nothing_due_empties_the_queue<P, T, R>(v: SchedulerView<P, T, R>)
    requires
        v.frontier().due.len() == 0,
    ensures
        v.popped().1.events.len() == 0,
{
    let (events, marks) = crate::scheduler::skip_marked(v.events, v.cancelled);
    if events.len() > 0 {
        lemma_head_is_not_marked(v.events, v.cancelled);
    }
}

proof fn lemma_head_is_not_marked<P>(s: Seq<crate::event::EventEntry<P>>, marks: Set<u128>)
    ensures
        ({
            let (events, left) = crate::scheduler::skip_marked(s, marks);
            events.len() > 0 ==> !crate::scheduler::is_marked(events[0], left)
        }),
    decreases s.len(),
{
    if s.len() > 0 && crate::scheduler::is_marked(s[0], marks) {
        lemma_head_is_not_marked(s.drop_first(), marks.remove(s[0].task_value()->0));
    }
}

/// Components that are added to one simulation get distinct identifiers, and
/// simulations with the same seed give out the same ones.
pub proof fn component_identifiers<C: Component<T, R>, T, R, Q>(
    a: Simulation<C, T, R, Q>,
    b: Simulation<C, T, R, Q>,
)
    requires
        a.config.seed == b.config.seed,
        a.next_component_id < u64::MAX,
        b.next_component_id < u64::MAX,
    ensures
        a.next_component_id == b.next_component_id <==> a.next_component_value()
            == b.next_component_value(),
{
    if a.next_component_id != b.next_component_id {
        crate::ids::derived_ids_are_distinct(
            a.config.seed,
            UUID_DOMAIN_COMPONENT,
            (a.next_component_id + 1) as u64,
            (b.next_component_id + 1) as u64,
        );
    }
}

} // verus!
