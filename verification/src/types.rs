//! Identifiers of the simulation.

use crate::text::decimal_string;
use vstd::prelude::*;
use vstd::string::StringExecFns;

verus! {

broadcast use vstd::string::group_string_axioms;

/// The identifier of an event, unique within one scheduler.
#[derive(Debug, Clone, Copy, PartialEq, Eq, Structural, Hash, PartialOrd, Ord)]
pub struct EventId(pub u64);

impl EventId {
    /// The identifier as text: `Event(7)`.
    pub fn to_string(&self) -> (s: String)
        ensures
            s@ == "Event("@ + crate::text::decimal(self.0 as nat) + ")"@,
    {
        let mut s = String::from_str("Event(");
        s.append(decimal_string(self.0).as_str());
        s.append(")");
        s
    }
}

} // verus!
