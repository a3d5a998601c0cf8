//! Components and their registry.

use crate::event::EventEntry;
use crate::assoc_map::AssocMap;
use crate::ids::{deterministic_uuid, UUID_DOMAIN_COMPONENT};
use crate::key::Key;
use crate::scheduler::{Scheduler, SchedulerView};
use crate::task::Task;
use uuid::Uuid;
use vstd::prelude::*;

verus! {

/// A part of a simulation that events are addressed to.
///
/// An event is processed at its time. This is all that is asked of a component: that
/// the scheduler is still in order afterwards, that events were only added under
/// numbers of their own, and that the clock was left to the simulation.
pub trait Component<T, R>: Sized {
    type Event;

    /// Whether processing an event can leave the component and the scheduler like
    /// this.
    open spec fn processes(
        before: Self,
        self_id: Key<Self::Event>,
        event: Self::Event,
        scheduler_before: SchedulerView<Self::Event, T, R>,
        after: Self,
        scheduler_after: SchedulerView<Self::Event, T, R>,
    ) -> bool {
        true
    }

    /// Processes an event that is addressed to this component.
    fn process_event(
        &mut self,
        self_id: Key<Self::Event>,
        event: &Self::Event,
        scheduler: &mut Scheduler<Self::Event, T, R>,
    )
        requires
            old(scheduler).wf(),
        ensures
            final(scheduler).wf(),
            final(scheduler)@.budget() <= old(scheduler)@.budget(),
            final(scheduler)@.now == old(scheduler)@.now,
            Self::processes(
                *old(self),
                self_id,
                *event,
                old(scheduler)@,
                *final(self),
                final(scheduler)@,
            ),
    ;
}

/// What a registry of components holds.
#[verifier::ext_equal]
pub struct ComponentsView<C> {
    pub components: Map<u128, C>,
    pub next_component_id: u64,
    pub id_seed: u64,
}

/// The components of a simulation, by their identifiers.
pub struct Components<C> {
    components: AssocMap<u128, C>,
    next_component_id: u64,
    id_seed: u64,
}

impl<C> View for Components<C> {
    type V = ComponentsView<C>;

    closed spec fn view(&self) -> ComponentsView<C> {
        ComponentsView {
            components: self.components@,
            next_component_id: self.next_component_id,
            id_seed: self.id_seed,
        }
    }
}

impl<C> Default for Components<C> {
    fn default() -> (components: Self)
        ensures
            components.wf(),
            components@ == (ComponentsView {
                components: Map::<u128, C>::empty(),
                next_component_id: 0,
                id_seed: 0,
            }),
    {
        let components = Components { components: AssocMap::new(), next_component_id: 0, id_seed: 0 };
        proof {
            assert(components@ =~= ComponentsView {
                components: Map::<u128, C>::empty(),
                next_component_id: 0,
                id_seed: 0,
            });
        }
        components
    }
}

/// Whether an event can be dispatched with this outcome: an event for a registered
/// component is processed by it, one for an unknown component has no effect, and
/// the event of a task runs the task if it still waits.
pub open spec fn dispatched<C: Component<T, R>, T: Task<C::Event, R>, R>(
    entry: EventEntry<C::Event>,
    before: ComponentsView<C>,
    scheduler_before: SchedulerView<C::Event, T, R>,
    after: ComponentsView<C>,
    scheduler_after: SchedulerView<C::Event, T, R>,
) -> bool {
    match entry {
        EventEntry::Component(e) => {
            let id = crate::ids::uuid_value(e.component);
            if before.components.contains_key(id) {
                exists|key: Key<C::Event>, changed: C|
                    {
                        &&& key.id == e.component
                        &&& #[trigger] C::processes(
                            before.components[id],
                            key,
                            e.inner,
                            scheduler_before,
                            changed,
                            scheduler_after,
                        )
                        &&& after == (ComponentsView {
                            components: before.components.insert(id, changed),
                            ..before
                        })
                    }
            } else {
                after == before && scheduler_after == scheduler_before
            }
        },
        EventEntry::Task(e) => after == before && crate::scheduler::task_executed(
            e.task_id,
            scheduler_before,
            scheduler_after,
        ),
    }
}

impl<C> Components<C> {
    pub closed spec fn wf(&self) -> bool {
        self.components.wf()
    }

    /// Registers a component under a known identifier, in place of the one that
    /// was there.
    pub fn register_with_id<E>(&mut self, id: Uuid, component: C) -> (key: Key<E>)
        requires
            old(self).wf(),
        ensures
            final(self).wf(),
            key.id == id,
            final(self)@ == (ComponentsView {
                components: old(self)@.components.insert(crate::ids::uuid_value(id), component),
                ..old(self)@
            }),
    {
        self.components.insert(id.as_u128(), component);
        proof {
            assert(self@ =~= ComponentsView {
                components: old(self)@.components.insert(crate::ids::uuid_value(id), component),
                ..old(self)@
            });
        }
        Key::new_with_id(id)
    }

    /// Registers a component under the next identifier of this registry.
    pub fn register<E>(&mut self, component: C) -> (key: Key<E>)
        requires
            old(self).wf(),
            old(self)@.next_component_id < u64::MAX,
        ensures
            final(self).wf(),
            key.value() == crate::ids::derived_id(
                old(self)@.id_seed,
                UUID_DOMAIN_COMPONENT,
                (old(self)@.next_component_id + 1) as u64,
            ),
            final(self)@ == (ComponentsView {
                components: old(self)@.components.insert(key.value(), component),
                next_component_id: (old(self)@.next_component_id + 1) as u64,
                ..old(self)@
            }),
    {
        self.next_component_id = self.next_component_id + 1;
        let id = deterministic_uuid(self.id_seed, UUID_DOMAIN_COMPONENT, self.next_component_id);
        let key = self.register_with_id(id, component);
        proof {
            assert(self@ =~= ComponentsView {
                components: old(self)@.components.insert(key.value(), component),
                next_component_id: (old(self)@.next_component_id + 1) as u64,
                ..old(self)@
            });
        }
        key
    }

    /// Takes a component out of the registry.
    pub fn remove<E>(&mut self, key: Key<E>) -> (component: Option<C>)
        requires
            old(self).wf(),
        ensures
            final(self).wf(),
            component == (if old(self)@.components.contains_key(key.value()) {
                Some(old(self)@.components[key.value()])
            } else {
                None
            }),
            final(self)@ == (ComponentsView {
                components: old(self)@.components.remove(key.value()),
                ..old(self)@
            }),
    {
        let component = self.components.remove(&key.id.as_u128());
        proof {
            assert(self@ =~= ComponentsView {
                components: old(self)@.components.remove(key.value()),
                ..old(self)@
            });
        }
        component
    }

    /// Lends a component out to be changed.
    pub fn get_component_mut<E>(&mut self, key: Key<E>) -> (component: Option<&mut C>)
        requires
            old(self).wf(),
        ensures
            final(self).wf(),
            component is Some <==> old(self)@.components.contains_key(key.value()),
            match component {
                Some(c) => *c == old(self)@.components[key.value()] && final(self)@ == (
                ComponentsView {
                    components: old(self)@.components.insert(key.value(), *final(c)),
                    ..old(self)@
                }),
                None => final(self)@ == old(self)@,
            },
    {
        self.components.get_mut(&key.id.as_u128())
    }

    /// Hands an event to the component that it is addressed to, or runs the task
    /// that it starts.
    pub fn process_event_entry<T, R>(
        &mut self,
        entry: EventEntry<C::Event>,
        scheduler: &mut Scheduler<C::Event, T, R>,
    ) where C: Component<T, R>, T: Task<<C as Component<T, R>>::Event, R>
        requires
            old(self).wf(),
            old(scheduler).wf(),
        ensures
            final(self).wf(),
            final(scheduler).wf(),
            final(scheduler)@.budget() <= old(scheduler)@.budget(),
            final(scheduler)@.now == old(scheduler)@.now,
            dispatched(entry, old(self)@, old(scheduler)@, final(self)@, final(scheduler)@),
    {
        match entry {
            EventEntry::Component(event) => {
                let id: u128 = event.component.as_u128();
                if let Some(component) = self.components.remove(&id) {
                    let mut component = component;
                    let key = Key::new_with_id(event.component);
                    component.process_event(key, &event.inner, scheduler);
                    self.components.insert(id, component);
                    proof {
                        assert(self@ =~= ComponentsView {
                            components: old(self)@.components.insert(id, component),
                            ..old(self)@
                        });
                    }
                } else {
                    proof {
                        assert(self@.components =~= old(self)@.components);
                        assert(self@ =~= old(self)@);
                    }
                }
            },
            EventEntry::Task(event) => {
                scheduler.execute_task(event.task_id);
            },
        }
    }
}

} // verus!
