//! What a step of a simulation changes, and what it leaves as it was.

use crate::component::{Component, ComponentsView};
use crate::event::EventEntry;
use crate::execute::EndCondition;
use crate::frontier_policy::EventFrontierPolicy;
use crate::key::Key;
use crate::scheduler::SchedulerView;
use crate::simulation::Simulation;
use crate::task::Task;
use vstd::prelude::*;

verus! {

/// An event reaches the component that it is meant for, and no other one. That component is
/// told of what the event carries, under its own key. A component that is not there is told
/// nothing, and then nothing changes.
pub proof fn event_reaches_its_component<C: Component<T, R>, T: Task<C::Event, R>, R>(
    entry: EventEntry<C::Event>,
    before: ComponentsView<C>,
    scheduler_before: SchedulerView<C::Event, T, R>,
    after: ComponentsView<C>,
    scheduler_after: SchedulerView<C::Event, T, R>,
    other: u128,
)
    requires
        crate::component::dispatched(entry, before, scheduler_before, after, scheduler_after),
        entry is Component,
        other != crate::ids::uuid_value(entry->Component_0.component),
    ensures
        ({
            let e = entry->Component_0;
            let id = crate::ids::uuid_value(e.component);
            &&& after.components.dom() == before.components.dom()
            &&& before.components.contains_key(other) ==> after.components[other]
                == before.components[other]
            &&& after.next_component_id == before.next_component_id
            &&& after.id_seed == before.id_seed
            &&& before.components.contains_key(id) ==> exists|key: Key<C::Event>|
                {
                    &&& key.id == e.component
                    &&& #[trigger] C::processes(
                        before.components[id],
                        key,
                        e.inner,
                        scheduler_before,
                        after.components[id],
                        scheduler_after,
                    )
                }
            &&& !before.components.contains_key(id) ==> after == before && scheduler_after
                == scheduler_before
        }),
{
    let e = entry->Component_0;
    let id = crate::ids::uuid_value(e.component);
    if before.components.contains_key(id) {
        let (key, changed) = choose|key: Key<C::Event>, changed: C|
            {
                &&& key.id == e.component
                &&& #[trigger] C::processes(
                    before.components[id],
                    key,
                    e.inner,
                    scheduler_before,
                    changed,
                    scheduler_after,
                )
                &&& after == (ComponentsView {
                    components: before.components.insert(id, changed),
                    ..before
                })
            };
        assert(after.components[id] == changed);
        assert(after.components.dom() =~= before.components.dom());
    }
}

/// The event of a task changes no component.
pub proof fn task_event_leaves_the_components<C: Component<T, R>, T: Task<C::Event, R>, R>(
    entry: EventEntry<C::Event>,
    before: ComponentsView<C>,
    scheduler_before: SchedulerView<C::Event, T, R>,
    after: ComponentsView<C>,
    scheduler_after: SchedulerView<C::Event, T, R>,
)
    requires
        crate::component::dispatched(entry, before, scheduler_before, after, scheduler_after),
        entry is Task,
    ensures
        after == before,
        crate::scheduler::task_executed(
            entry->Task_0.task_id,
            scheduler_before,
            scheduler_after,
        ),
{
}

/// A step takes one of the events that are due next, and only the component that it is meant
/// for can change. The configuration stays, and no component is added or lost.
pub proof fn step_changes_one_component<
    C: Component<T, R>,
    T: Task<C::Event, R>,
    R,
    Q: EventFrontierPolicy,
>(before: Simulation<C, T, R, Q>, after: Simulation<C, T, R, Q>, a: u128, b: u128)
    requires
        before.scheduler@.wf(),
        crate::simulation::steps_to(before, after),
        before.components@.components.contains_key(a),
        before.components@.components.contains_key(b),
        a != b,
    ensures
        after.components@.components.dom() == before.components@.components.dom(),
        after.components@.components[a] == before.components@.components[a]
            || after.components@.components[b] == before.components@.components[b],
        after.config == before.config,
        after.next_component_id == before.next_component_id,
        before.scheduler@.popped().0 is None ==> after.components@ == before.components@
            && after.frontier_policy == before.frontier_policy,
{
    crate::scheduler_laws::first_due_event_is_popped(before.scheduler@);
    if before.scheduler@.frontier().due.len() > 0 {
        let (index, left) = choose|index: usize, left: SchedulerView<C::Event, T, R>| #[trigger]
            crate::simulation::stepped(before, after, index, left);
        let due = before.scheduler@.frontier().due;
        let k = crate::scheduler::clamped(index, due.len());
        let start = SchedulerView { in_event: true, ..before.scheduler@.taken(k) };
        match due[k] {
            EventEntry::Component(e) => {
                let id = crate::ids::uuid_value(e.component);
                let other = if id == a {
                    b
                } else {
                    a
                };
                event_reaches_its_component(
                    due[k],
                    before.components@,
                    start,
                    after.components@,
                    left,
                    other,
                );
            },
            EventEntry::Task(e) => {},
        }
    }
}

/// Whether a step hands one of the events that are due to what it is meant for, while the
/// scheduler shows the time of an event.
pub open spec fn hands_on<
    C: Component<T, R>,
    T: Task<C::Event, R>,
    R,
    Q: EventFrontierPolicy,
>(
    before: Simulation<C, T, R, Q>,
    after: Simulation<C, T, R, Q>,
    k: int,
    left: SchedulerView<C::Event, T, R>,
) -> bool {
    let start = SchedulerView { in_event: true, ..before.scheduler@.taken(k) };
    &&& start.event_time() == Some(crate::time::SimTime(start.now))
    &&& crate::component::dispatched(
        before.scheduler@.frontier().due[k],
        before.components@,
        start,
        after.components@,
        left,
    )
}

/// A step takes no event that was left to a later time: the event that is processed is one of
/// those that are due first, and within the step the clock shows its time.
pub proof fn step_processes_a_due_event<
    C: Component<T, R>,
    T: Task<C::Event, R>,
    R,
    Q: EventFrontierPolicy,
>(before: Simulation<C, T, R, Q>, after: Simulation<C, T, R, Q>)
    requires
        before.scheduler@.wf(),
        before.scheduler@.popped().0 is Some,
        crate::simulation::steps_to(before, after),
    ensures
        exists|k: int, left: SchedulerView<C::Event, T, R>|
            {
                &&& #[trigger] hands_on(before, after, k, left)
                &&& 0 <= k < before.scheduler@.frontier().due.len()
                &&& before.scheduler@.frontier().due[k].spec_time()
                    == before.scheduler@.popped().0->0.spec_time()
                &&& before.scheduler@.taken(k).now == before.scheduler@.popped().0->0.spec_time()
                &&& after.scheduler@ == SchedulerView { in_event: false, ..left }.drained()
            },
        !after.scheduler@.in_event,
{
    crate::scheduler_laws::first_due_event_is_popped(before.scheduler@);
    let (index, left) = choose|index: usize, left: SchedulerView<C::Event, T, R>| #[trigger]
        crate::simulation::stepped(before, after, index, left);
    let due = before.scheduler@.frontier().due;
    let k = crate::scheduler::clamped(index, due.len());
    crate::scheduler_laws::frontier_is_due_at_one_time(before.scheduler@, k);
    let start = SchedulerView { in_event: true, ..before.scheduler@.taken(k) };
    lemma_drained_is_outside(SchedulerView { in_event: false, ..left });
    assert(hands_on(before, after, k, left));
}

proof fn lemma_drained_is_outside<P, T, R>(v: SchedulerView<P, T, R>)
    ensures
        v.drained().in_event == v.in_event,
    decreases v.deferred.len(),
{
    if v.deferred.len() > 0 && v.next_event_id < u64::MAX {
        let wake = v.deferred[0];
        lemma_drained_is_outside(
            SchedulerView {
                deferred: v.deferred.drop_first(),
                ..v.scheduled(wake.delay.0, wake.component.id, wake.event)
            },
        );
    }
}

/// A run with a number of steps has as many of them, unless nothing is left before: then the
/// queue is empty at its end.
pub proof fn counted_run_has_its_steps<
    C: Component<T, R>,
    T: Task<C::Event, R>,
    R,
    Q: EventFrontierPolicy,
>(states: Seq<Simulation<C, T, R, Q>>, steps: usize)
    requires
        crate::execute::is_run(states),
        crate::execute::ends_at(EndCondition::Steps(steps), states),
        states[0].scheduler@.wf(),
    ensures
        states.len() - 1 <= steps,
        states.len() - 1 < steps ==> states.last().scheduler@.events.len() == 0,
        forall|i: int|
            0 <= i < states.len() - 2 ==> (#[trigger] states[i]).scheduler@.popped().0 is Some,
{
    let n = states.len() - 1;
    assert forall|i: int| 0 <= i < n - 1 implies (
    #[trigger] states[i]).scheduler@.popped().0 is Some by {
        crate::execute::every_state_of_a_run_is_in_order(states, i);
        assert(crate::execute::has_due(states[i]));
        crate::scheduler_laws::first_due_event_is_popped(states[i].scheduler@);
    }
    if n < steps {
        let last = states[n - 1];
        assert(crate::simulation::steps_to(last, states[n - 1 + 1]));
        crate::simulation::nothing_due_empties_the_queue(last.scheduler@);
    }
}

/// Without a limit a run goes on as long as there is an event to take, and with a time as
/// long as there is one that is due by then.
pub proof fn runs_go_on_while_events_are_due<
    C: Component<T, R>,
    T: Task<C::Event, R>,
    R,
    Q: EventFrontierPolicy,
>(states: Seq<Simulation<C, T, R, Q>>, end: EndCondition)
    requires
        crate::execute::is_run(states),
        crate::execute::ends_at(end, states),
        states[0].scheduler@.wf(),
    ensures
        end matches EndCondition::Time(time) ==> {
            let taken = states.last().scheduler@.popped().0;
            &&& taken is Some ==> taken->0.spec_time() > time.0
            &&& forall|i: int|
                0 <= i < states.len() - 1 ==> (
                #[trigger] states[i]).scheduler@.popped().0 is Some
                    && states[i].scheduler@.popped().0->0.spec_time() <= time.0
        },
        end is NoEvents ==> states.last().scheduler@.popped().0 is None,
{
    let n = states.len() - 1;
    assert forall|i: int| 0 <= i <= n implies (
    #[trigger] states[i]).scheduler@.frontier().due.len() > 0 <==> states[i].scheduler@.popped().0 is Some
        by {
        crate::execute::every_state_of_a_run_is_in_order(states, i);
        crate::scheduler_laws::first_due_event_is_popped(states[i].scheduler@);
    }
    assert forall|i: int| 0 <= i <= n && (
    #[trigger] states[i]).scheduler@.popped().0 is Some implies states[i].scheduler@.popped().0
        == Some(states[i].scheduler@.frontier().due[0]) by {
        crate::execute::every_state_of_a_run_is_in_order(states, i);
        crate::scheduler_laws::first_due_event_is_popped(states[i].scheduler@);
    }
    if let EndCondition::Time(time) = end {
        assert forall|i: int| 0 <= i < n implies (
        #[trigger] states[i]).scheduler@.popped().0 is Some
            && states[i].scheduler@.popped().0->0.spec_time() <= time.0 by {
            assert(crate::execute::has_due_by(states[i], time));
        }
    }
    if end is NoEvents {
        crate::execute::unbound_run_leaves_no_events(states);
        let v = states[n].scheduler@;
        assert(v.events.len() == 0);
    }
}

/// A side effect sees the simulation after every step that took an event.
pub proof fn side_effect_sees_every_step<
    C: Component<T, R>,
    T: Task<C::Event, R>,
    R,
    Q: EventFrontierPolicy,
    F: Fn(&Simulation<C, T, R, Q>),
>(effect: F, states: Seq<Simulation<C, T, R, Q>>, i: int)
    requires
        crate::execute::observed(effect, states),
        0 <= i < states.len() - 1,
        states[i].scheduler@.wf(),
        states[i].scheduler@.popped().0 is Some,
    ensures
        call_ensures(effect, (&states[i + 1],), ()),
{
    crate::scheduler_laws::first_due_event_is_popped(states[i].scheduler@);
    assert(crate::execute::has_due(states[i]));
}

/// A new simulation starts at time zero, with no events, tasks, results or components, and
/// gives out its identifiers from its own seed.
pub proof fn new_simulation_is_empty<
    C: Component<T, R>,
    T: Task<C::Event, R>,
    R,
    Q: EventFrontierPolicy,
>(sim: Simulation<C, T, R, Q>, config: crate::simulation::SimulationConfig, id: u128)
    requires
        sim.is_new(config),
    ensures
        sim.scheduler@.wf(),
        sim.scheduler@.now == 0,
        sim.scheduler@.popped().0 is None,
        sim.scheduler@.next_event_id == 0,
        sim.scheduler@.next_task_id == 0,
        sim.scheduler@.id_seed == config.seed,
        sim.scheduler@.deferred.len() == 0,
        sim.scheduler@.executing is None,
        !sim.scheduler@.in_event,
        !sim.scheduler@.pending.contains_key(id),
        !sim.scheduler@.results.contains_key(id),
        !sim.scheduler@.cancelled.contains(id),
        !sim.components@.components.contains_key(id),
        sim.next_component_id == 0,
        sim.config == config,
{
}

} // verus!
