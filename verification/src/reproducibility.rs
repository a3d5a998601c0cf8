//! Laws on repeated runs: what is the same at the start is the same at the end.

use crate::component::{Component, ComponentsView};
use crate::event::{EventEntry, FrontierEvent};
use crate::execute::EndCondition;
use crate::frontier_policy::{
    EventFrontierPolicy, FifoFrontierPolicy, UniformRandomFrontierPolicy,
};
use crate::key::Key;
use crate::scheduler::SchedulerView;
use crate::simulation::Simulation;
use crate::task::Task;
use crate::time::SimTime;
use vstd::prelude::*;

verus! {

/// Whether components do the same where they are alike and get the same event, and
/// are alike afterwards.
pub open spec fn components_are_determined<C: Component<T, R>, T, R>(
    alike: spec_fn(C, C) -> bool,
) -> bool {
    forall|
        c: C,
        d: C,
        ck: Key<C::Event>,
        dk: Key<C::Event>,
        event: C::Event,
        s: SchedulerView<C::Event, T, R>,
        c2: C,
        d2: C,
        cs: SchedulerView<C::Event, T, R>,
        ds: SchedulerView<C::Event, T, R>,
    |
        {
            &&& alike(c, d)
            &&& ck.id == dk.id
            &&& #[trigger] C::processes(c, ck, event, s, c2, cs)
            &&& #[trigger] C::processes(d, dk, event, s, d2, ds)
        } ==> alike(c2, d2) && cs == ds
}

/// Whether a task does the same each time that it is run on the same scheduler.
pub open spec fn tasks_are_determined<P, T: Task<P, R>, R>() -> bool {
    forall|
        task: T,
        s: SchedulerView<P, T, R>,
        a: SchedulerView<P, T, R>,
        b: SchedulerView<P, T, R>,
        ao: Option<R>,
        bo: Option<R>,
    |
        #[trigger] task.runs(s, a, ao) && #[trigger] task.runs(s, b, bo) ==> a == b && ao == bo
}

/// Whether policies select the same event where they are alike, and are alike
/// afterwards.
pub open spec fn policies_are_determined<Q: EventFrontierPolicy>(
    alike: spec_fn(Q, Q) -> bool,
) -> bool {
    forall|
        p: Q,
        q: Q,
        time: SimTime,
        frontier: Seq<FrontierEvent>,
        p2: Q,
        q2: Q,
        i: usize,
        j: usize,
    |
        {
            &&& alike(p, q)
            &&& #[trigger] Q::selects(p, time, frontier, p2, i)
            &&& #[trigger] Q::selects(q, time, frontier, q2, j)
        } ==> i == j && alike(p2, q2)
}

/// Whether two registries hold components that are alike, under the same
/// identifiers.
pub open spec fn same_components<C>(
    a: ComponentsView<C>,
    b: ComponentsView<C>,
    alike: spec_fn(C, C) -> bool,
) -> bool {
    &&& a.next_component_id == b.next_component_id
    &&& a.id_seed == b.id_seed
    &&& a.components.dom() == b.components.dom()
    &&& forall|id: u128| #[trigger]
        a.components.contains_key(id) ==> alike(a.components[id], b.components[id])
}

/// Whether two simulations, which may have policies of different kinds, are in the same
/// state apart from them: the same events at the same time, and components that are
/// alike.
pub open spec fn same_setting<C: Component<T, R>, T, R, Q, S>(
    a: Simulation<C, T, R, Q>,
    b: Simulation<C, T, R, S>,
    components_alike: spec_fn(C, C) -> bool,
) -> bool {
    &&& a.scheduler@ == b.scheduler@
    &&& same_components(a.components@, b.components@, components_alike)
    &&& a.next_component_id == b.next_component_id
    &&& a.config == b.config
}

/// Whether two simulations are in the same state, with policies that are alike.
pub open spec fn same_state<C: Component<T, R>, T, R, Q>(
    a: Simulation<C, T, R, Q>,
    b: Simulation<C, T, R, Q>,
    components_alike: spec_fn(C, C) -> bool,
    policies_alike: spec_fn(Q, Q) -> bool,
) -> bool {
    &&& same_setting(a, b, components_alike)
    &&& policies_alike(a.frontier_policy, b.frontier_policy)
}

/// Whether the components of one kind follow those of another: where they are alike and
/// get the same event, they do the same, and are alike afterwards. Which components are
/// alike may depend on their identifier. Only events count after which the first
/// component is one of those that are `kept`.
pub open spec fn components_follow<
    C: Component<T, R>,
    D: Component<T, R, Event = C::Event>,
    T,
    R,
>(alike: spec_fn(u128, C, D) -> bool, kept: spec_fn(u128, C) -> bool) -> bool {
    forall|
        c: C,
        d: D,
        ck: Key<C::Event>,
        dk: Key<C::Event>,
        event: C::Event,
        s: SchedulerView<C::Event, T, R>,
        c2: C,
        d2: D,
        cs: SchedulerView<C::Event, T, R>,
        ds: SchedulerView<C::Event, T, R>,
    |
        {
            &&& alike(ck.value(), c, d)
            &&& kept(ck.value(), c2)
            &&& ck.id == dk.id
            &&& #[trigger] C::processes(c, ck, event, s, c2, cs)
            &&& #[trigger] D::processes(d, dk, event, s, d2, ds)
        } ==> alike(ck.value(), c2, d2) && cs == ds
}

/// Whether two registries, which may hold components of different kinds, hold
/// components that are alike under the same identifiers.
pub open spec fn matching_components<C, D>(
    a: ComponentsView<C>,
    b: ComponentsView<D>,
    alike: spec_fn(u128, C, D) -> bool,
) -> bool {
    &&& a.next_component_id == b.next_component_id
    &&& a.id_seed == b.id_seed
    &&& a.components.dom() == b.components.dom()
    &&& forall|id: u128| #[trigger]
        a.components.contains_key(id) ==> alike(id, a.components[id], b.components[id])
}

/// Whether all components of a registry are among those that are kept.
pub open spec fn all_kept<C>(a: ComponentsView<C>, kept: spec_fn(u128, C) -> bool) -> bool {
    forall|id: u128| #[trigger] a.components.contains_key(id) ==> kept(id, a.components[id])
}

/// Whether two simulations, which may have components and policies of different kinds,
/// are in the same state apart from the policies: the same events at the same time, and
/// components that are alike.
pub open spec fn matching_setting<
    C: Component<T, R>,
    D: Component<T, R, Event = C::Event>,
    T,
    R,
    Q,
    S,
>(
    a: Simulation<C, T, R, Q>,
    b: Simulation<D, T, R, S>,
    alike: spec_fn(u128, C, D) -> bool,
) -> bool {
    &&& a.scheduler@ == b.scheduler@
    &&& matching_components(a.components@, b.components@, alike)
    &&& a.next_component_id == b.next_component_id
    &&& a.config == b.config
}

proof fn lemma_dispatch_follows<
    C: Component<T, R>,
    D: Component<T, R, Event = C::Event>,
    T: Task<C::Event, R>,
    R,
>(
    entry: EventEntry<C::Event>,
    a: ComponentsView<C>,
    b: ComponentsView<D>,
    s: SchedulerView<C::Event, T, R>,
    a2: ComponentsView<C>,
    b2: ComponentsView<D>,
    as2: SchedulerView<C::Event, T, R>,
    bs2: SchedulerView<C::Event, T, R>,
    alike: spec_fn(u128, C, D) -> bool,
    kept: spec_fn(u128, C) -> bool,
)
    requires
        components_follow::<C, D, T, R>(alike, kept),
        tasks_are_determined::<C::Event, T, R>(),
        matching_components(a, b, alike),
        all_kept(a2, kept),
        crate::component::dispatched(entry, a, s, a2, as2),
        crate::component::dispatched(entry, b, s, b2, bs2),
    ensures
        as2 == bs2,
        matching_components(a2, b2, alike),
{
    match entry {
        EventEntry::Component(e) => {
            let id = crate::ids::uuid_value(e.component);
            assert(a.components.contains_key(id) == b.components.contains_key(id)) by {
                assert(a.components.dom().contains(id) == b.components.dom().contains(id));
            }
            if a.components.contains_key(id) {
                let (ck, c2) = choose|key: Key<C::Event>, changed: C|
                    {
                        &&& key.id == e.component
                        &&& #[trigger] C::processes(a.components[id], key, e.inner, s, changed, as2)
                        &&& a2 == (ComponentsView {
                            components: a.components.insert(id, changed),
                            ..a
                        })
                    };
                let (dk, d2) = choose|key: Key<C::Event>, changed: D|
                    {
                        &&& key.id == e.component
                        &&& #[trigger] D::processes(b.components[id], key, e.inner, s, changed, bs2)
                        &&& b2 == (ComponentsView {
                            components: b.components.insert(id, changed),
                            ..b
                        })
                    };
                assert(a2.components.contains_key(id));
                assert(kept(ck.value(), c2));
                assert(C::processes(a.components[id], ck, e.inner, s, c2, as2));
                assert(D::processes(b.components[id], dk, e.inner, s, d2, bs2));
                assert(alike(id, c2, d2) && as2 == bs2);
                assert(a2.components.dom() =~= b2.components.dom());
                assert forall|other: u128| #[trigger] a2.components.contains_key(other) implies alike(
                    other,
                    a2.components[other],
                    b2.components[other],
                ) by {
                    if other != id {
                        assert(a.components.contains_key(other));
                    }
                }
            }
        },
        EventEntry::Task(e) => {},
    }
}

/// Where two simulations in matching settings process the same one of the events that
/// are due, they are in matching settings afterwards.
pub proof fn step_follows_the_choice<
    C: Component<T, R>,
    D: Component<T, R, Event = C::Event>,
    T: Task<C::Event, R>,
    R,
    Q: EventFrontierPolicy,
    S: EventFrontierPolicy,
>(
    a: Simulation<C, T, R, Q>,
    b: Simulation<D, T, R, S>,
    a2: Simulation<C, T, R, Q>,
    b2: Simulation<D, T, R, S>,
    index: usize,
    a_left: SchedulerView<C::Event, T, R>,
    b_left: SchedulerView<C::Event, T, R>,
    alike: spec_fn(u128, C, D) -> bool,
    kept: spec_fn(u128, C) -> bool,
)
    requires
        components_follow::<C, D, T, R>(alike, kept),
        tasks_are_determined::<C::Event, T, R>(),
        matching_setting(a, b, alike),
        all_kept(a2.components@, kept),
        crate::simulation::stepped(a, a2, index, a_left),
        crate::simulation::stepped(b, b2, index, b_left),
    ensures
        matching_setting(a2, b2, alike),
{
    let due = a.scheduler@.frontier().due;
    let k = crate::scheduler::clamped(index, due.len());
    lemma_dispatch_follows(
        due[k],
        a.components@,
        b.components@,
        SchedulerView { in_event: true, ..a.scheduler@.taken(k) },
        a2.components@,
        b2.components@,
        a_left,
        b_left,
        alike,
        kept,
    );
}

/// Components of one kind that are determined follow each other.
pub proof fn determined_components_follow_each_other<C: Component<T, R>, T, R>(
    alike: spec_fn(C, C) -> bool,
)
    requires
        components_are_determined::<C, T, R>(alike),
    ensures
        components_follow::<C, C, T, R>(|id: u128, c: C, d: C| alike(c, d), |id: u128, c: C| true),
{
}

/// Where two simulations in the same setting process the same one of the events that
/// are due, they are in the same setting afterwards.
pub proof fn step_is_determined_by_the_choice<
    C: Component<T, R>,
    T: Task<C::Event, R>,
    R,
    Q: EventFrontierPolicy,
    S: EventFrontierPolicy,
>(
    a: Simulation<C, T, R, Q>,
    b: Simulation<C, T, R, S>,
    a2: Simulation<C, T, R, Q>,
    b2: Simulation<C, T, R, S>,
    index: usize,
    a_left: SchedulerView<C::Event, T, R>,
    b_left: SchedulerView<C::Event, T, R>,
    components_alike: spec_fn(C, C) -> bool,
)
    requires
        components_are_determined::<C, T, R>(components_alike),
        tasks_are_determined::<C::Event, T, R>(),
        same_setting(a, b, components_alike),
        crate::simulation::stepped(a, a2, index, a_left),
        crate::simulation::stepped(b, b2, index, b_left),
    ensures
        same_setting(a2, b2, components_alike),
{
    determined_components_follow_each_other::<C, T, R>(components_alike);
    let alike = |id: u128, c: C, d: C| components_alike(c, d);
    step_follows_the_choice(a, b, a2, b2, index, a_left, b_left, alike, |id: u128, c: C| true);
    assert(matching_setting(a2, b2, alike));
    assert forall|id: u128| #[trigger] a2.components@.components.contains_key(
        id,
    ) implies components_alike(a2.components@.components[id], b2.components@.components[id]) by {
        assert(alike(id, a2.components@.components[id], b2.components@.components[id]));
    }
}

proof fn lemma_step_is_determined<
    C: Component<T, R>,
    T: Task<C::Event, R>,
    R,
    Q: EventFrontierPolicy,
>(
    a: Simulation<C, T, R, Q>,
    b: Simulation<C, T, R, Q>,
    a2: Simulation<C, T, R, Q>,
    b2: Simulation<C, T, R, Q>,
    components_alike: spec_fn(C, C) -> bool,
    policies_alike: spec_fn(Q, Q) -> bool,
)
    requires
        components_are_determined::<C, T, R>(components_alike),
        tasks_are_determined::<C::Event, T, R>(),
        policies_are_determined(policies_alike),
        same_state(a, b, components_alike, policies_alike),
        crate::simulation::steps_to(a, a2),
        crate::simulation::steps_to(b, b2),
    ensures
        same_state(a2, b2, components_alike, policies_alike),
{
    if a.scheduler@.frontier().due.len() > 0 {
        let (i, al) = choose|index: usize, left: SchedulerView<C::Event, T, R>| #[trigger]
            crate::simulation::stepped(a, a2, index, left);
        let (j, bl) = choose|index: usize, left: SchedulerView<C::Event, T, R>| #[trigger]
            crate::simulation::stepped(b, b2, index, left);
        assert(i == j && policies_alike(a2.frontier_policy, b2.frontier_policy));
        step_is_determined_by_the_choice(a, b, a2, b2, i, al, bl, components_alike);
    }
}

/// A simulation is reproducible: two runs that start in the same state are in the
/// same state after each step, as long as its components, its tasks and its policy
/// are determined by what they see.
pub proof fn runs_are_reproducible<
    C: Component<T, R>,
    T: Task<C::Event, R>,
    R,
    Q: EventFrontierPolicy,
>(
    a: Seq<Simulation<C, T, R, Q>>,
    b: Seq<Simulation<C, T, R, Q>>,
    components_alike: spec_fn(C, C) -> bool,
    policies_alike: spec_fn(Q, Q) -> bool,
    i: int,
)
    requires
        components_are_determined::<C, T, R>(components_alike),
        tasks_are_determined::<C::Event, T, R>(),
        policies_are_determined(policies_alike),
        crate::execute::is_run(a),
        crate::execute::is_run(b),
        same_state(a[0], b[0], components_alike, policies_alike),
        0 <= i < a.len(),
        i < b.len(),
    ensures
        same_state(a[i], b[i], components_alike, policies_alike),
    decreases i,
{
    if i > 0 {
        runs_are_reproducible(a, b, components_alike, policies_alike, i - 1);
        let before = a[i - 1];
        let other = b[i - 1];
        assert(crate::simulation::steps_to(before, a[i - 1 + 1]));
        assert(crate::simulation::steps_to(other, b[i - 1 + 1]));
        lemma_step_is_determined(before, other, a[i], b[i], components_alike, policies_alike);
    }
}

proof fn lemma_run_is_not_shorter<
    C: Component<T, R>,
    T: Task<C::Event, R>,
    R,
    Q: EventFrontierPolicy,
>(
    end: EndCondition,
    a: Seq<Simulation<C, T, R, Q>>,
    b: Seq<Simulation<C, T, R, Q>>,
    components_alike: spec_fn(C, C) -> bool,
    policies_alike: spec_fn(Q, Q) -> bool,
)
    requires
        components_are_determined::<C, T, R>(components_alike),
        tasks_are_determined::<C::Event, T, R>(),
        policies_are_determined(policies_alike),
        crate::execute::is_run(a),
        crate::execute::is_run(b),
        crate::execute::ends_at(end, a),
        crate::execute::ends_at(end, b),
        same_state(a[0], b[0], components_alike, policies_alike),
    ensures
        a.len() >= b.len(),
{
    if a.len() < b.len() {
        let n = a.len() - 1;
        runs_are_reproducible(a, b, components_alike, policies_alike, n);
        if n > 0 {
            runs_are_reproducible(a, b, components_alike, policies_alike, n - 1);
        }
        match end {
            EndCondition::Time(time) => {
                assert(crate::execute::has_due_by(b[n], time));
            },
            EndCondition::NoEvents => {
                assert(crate::execute::has_due(b[n - 1]));
            },
            EndCondition::Steps(steps) => {
                if n < steps {
                    assert(crate::execute::has_due(b[n - 1]));
                }
            },
        }
    }
}

/// Two runs to the same end condition that start in the same state have the same
/// number of steps, and end in the same state.
pub proof fn whole_runs_are_reproducible<
    C: Component<T, R>,
    T: Task<C::Event, R>,
    R,
    Q: EventFrontierPolicy,
>(
    end: EndCondition,
    a: Seq<Simulation<C, T, R, Q>>,
    b: Seq<Simulation<C, T, R, Q>>,
    components_alike: spec_fn(C, C) -> bool,
    policies_alike: spec_fn(Q, Q) -> bool,
)
    requires
        components_are_determined::<C, T, R>(components_alike),
        tasks_are_determined::<C::Event, T, R>(),
        policies_are_determined(policies_alike),
        forall|c: C, d: C| #[trigger] components_alike(c, d) ==> components_alike(d, c),
        forall|p: Q, q: Q| #[trigger] policies_alike(p, q) ==> policies_alike(q, p),
        crate::execute::is_run(a),
        crate::execute::is_run(b),
        crate::execute::ends_at(end, a),
        crate::execute::ends_at(end, b),
        same_state(a[0], b[0], components_alike, policies_alike),
    ensures
        a.len() == b.len(),
        same_state(a.last(), b.last(), components_alike, policies_alike),
{
    assert(same_state(b[0], a[0], components_alike, policies_alike)) by {
        assert forall|id: u128| #[trigger] b[0].components@.components.contains_key(
            id,
        ) implies components_alike(
            b[0].components@.components[id],
            a[0].components@.components[id],
        ) by {
            assert(a[0].components@.components.dom().contains(id));
        }
    }
    lemma_run_is_not_shorter(end, a, b, components_alike, policies_alike);
    lemma_run_is_not_shorter(end, b, a, components_alike, policies_alike);
    runs_are_reproducible(a, b, components_alike, policies_alike, a.len() - 1);
}

/// The order of events is determined by default: any two policies that are first in,
/// first out count as alike.
pub proof fn fifo_policies_are_determined()
    ensures
        policies_are_determined(|p: FifoFrontierPolicy, q: FifoFrontierPolicy| true),
{
}

/// Random policies are determined by their states, and so by their seeds.
pub proof fn random_policies_are_determined()
    ensures
        policies_are_determined(
            |p: UniformRandomFrontierPolicy, q: UniformRandomFrontierPolicy|
                p.state() == q.state(),
        ),
{
}

} // verus!
