//! The errors of the library.

use std::time::Duration;
use vstd::prelude::*;
use vstd::std_specs::convert::FromSpecImpl;

verus! {

/// What can go wrong with events.
#[derive(Debug, PartialEq, Eq)]
pub enum EventError {
    InvalidTime(String),
    HandlerFailed(String),
    NotFound(String),
    EmptyQueue,
    ScheduleInPast,
    TypeMismatch { expected: String, actual: String },
    ProcessingTimeout { duration: Duration },
    QueueOverflow { current: usize, max: usize },
}

/// What can go wrong in a simulation.
#[derive(Debug, PartialEq, Eq)]
pub enum SimError {
    Event(EventError),
    Process(String),
    Component(String),
    Configuration(String),
    Internal(String),
    TaskExecutionFailed { message: String },
    SchedulerError { message: String },
    InvalidTime,
    ComponentNotFound { id: String },
}

impl From<EventError> for SimError {
    fn from(error: EventError) -> (e: Self) {
        SimError::Event(error)
    }
}

impl FromSpecImpl<EventError> for SimError {
    open spec fn obeys_from_spec() -> bool {
        true
    }

    open spec fn from_spec(error: EventError) -> Self {
        SimError::Event(error)
    }
}

} // verus!
