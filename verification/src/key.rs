//! Typed component identifiers.

use crate::ids::{deterministic_uuid, UUID_DOMAIN_KEY};
use std::marker::PhantomData;
use uuid::Uuid;
use vstd::prelude::*;

verus! {

/// The identifier of a component, together with the type of the events that the
/// component takes.
#[derive(Debug)]
pub struct Key<T> {
    pub id: Uuid,
    pub _marker: PhantomData<T>,
}

impl<T> Key<T> {
    /// The 128-bit value of the identifier.
    pub open spec fn value(self) -> u128 {
        crate::ids::uuid_value(self.id)
    }

    /// The key number `counter` of those that belong to no simulation.
    pub fn numbered(counter: u64) -> (key: Self)
        ensures
            key.value() == crate::ids::derived_id(0, UUID_DOMAIN_KEY, counter),
    {
        Self::new_with_id(deterministic_uuid(0, UUID_DOMAIN_KEY, counter))
    }

    /// The key of a component with a known identifier.
    pub fn new_with_id(id: Uuid) -> (key: Self)
        ensures
            key.id == id,
    {
        Key { id, _marker: PhantomData }
    }

    pub fn id(&self) -> (id: Uuid)
        ensures
            id == self.id,
    {
        self.id
    }
}

impl<T> Clone for Key<T> {
    fn clone(&self) -> (key: Self)
        ensures
            key == *self,
    {
        *self
    }
}

impl<T> Copy for Key<T> {

}

} // verus!
