//! Task identifiers and handles.

use crate::ids::{deterministic_uuid, uuid_string, UUID_DOMAIN_MANUAL_TASK};
use std::marker::PhantomData;
use uuid::Uuid;
use vstd::prelude::*;
use vstd::string::StringExecFns;

verus! {

/// The identifier of a task, unique within one scheduler.
#[derive(Debug, Clone, Copy, PartialEq, Eq, Hash)]
pub struct TaskId(pub Uuid);

impl TaskId {
    /// The 128-bit value of the identifier.
    pub open spec fn value(self) -> u128 {
        crate::ids::uuid_value(self.0)
    }

    /// The identifier number `counter` of those that no scheduler gives out.
    pub fn numbered(counter: u64) -> (id: Self)
        ensures
            id.value() == crate::ids::derived_id(0, UUID_DOMAIN_MANUAL_TASK, counter),
    {
        TaskId(deterministic_uuid(0, UUID_DOMAIN_MANUAL_TASK, counter))
    }

    /// The identifier as text: the UUID in `Task(..)`.
    pub fn to_string(&self) -> (text: String)
        ensures
            text@ == task_text(self.value()),
    {
        let mut text = String::from_str("Task(");
        text.append(uuid_string(self.0).as_str());
        text.append(")");
        text
    }
}

/// A task identifier as text.
pub open spec fn task_text(value: u128) -> Seq<char> {
    "Task("@ + crate::ids::uuid_text(value) + ")"@
}

/// A handle to a scheduled task, together with the type of its result.
#[derive(Debug)]
pub struct TaskHandle<T> {
    pub id: TaskId,
    pub _marker: PhantomData<T>,
}

impl<T> TaskHandle<T> {
    pub fn new(id: TaskId) -> (handle: Self)
        ensures
            handle.id == id,
    {
        TaskHandle { id, _marker: PhantomData }
    }

    pub fn id(&self) -> (id: TaskId)
        ensures
            id == self.id,
    {
        self.id
    }
}

impl<T> Clone for TaskHandle<T> {
    fn clone(&self) -> (handle: Self)
        ensures
            handle == *self,
    {
        *self
    }
}

impl<T> Copy for TaskHandle<T> {

}

} // verus!
