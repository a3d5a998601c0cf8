//! Running one trial of a study.

use crate::component::Component;
use crate::frontier_policy::EventFrontierPolicy;
use crate::simulation::Simulation;
use crate::task::Task;
use crate::time::SimTime;
use vstd::prelude::*;

verus! {

/// Whether a trial goes on: there is an event in the queue, cancelled or not, and the
/// end is still to come.
pub open spec fn goes_on<C: Component<T, R>, T, R, Q>(
    sim: Simulation<C, T, R, Q>,
    end_time: SimTime,
) -> bool {
    sim.scheduler@.events.len() > 0 && sim.scheduler@.now < end_time.0
}

/// Takes one step of a trial, and tells the time after it. Where the trial does not go
/// on, nothing happens.
pub fn step_before<C: Component<T, R>, T: Task<C::Event, R>, R, Q: EventFrontierPolicy>(
    sim: &mut Simulation<C, T, R, Q>,
    end_time: SimTime,
) -> (time: Option<SimTime>)
    requires
        old(sim).wf(),
    ensures
        final(sim).wf(),
        time is Some <==> goes_on(*old(sim), end_time),
        time is None ==> *final(sim) == *old(sim),
        time matches Some(t) ==> {
            &&& crate::simulation::steps_to(*old(sim), *final(sim))
            &&& t.0 == final(sim).scheduler@.now
            &&& final(sim).scheduler@.budget() < old(sim).scheduler@.budget()
        },
{
    if sim.peek_next_event_time().is_some() && sim.time() < end_time {
        sim.step();
        Some(sim.time())
    } else {
        None
    }
}

/// What follows a step of a trial.
#[derive(Debug, Clone, Copy, PartialEq, Eq, Structural)]
pub enum WatchAction {
    /// The trial ends.
    Stop,
    /// The trace so far is kept, and the trial goes on.
    Capture,
    /// The trial goes on.
    Continue,
}

/// Says what follows a step: the trial ends where what is looked for was found, and its
/// trace is kept where it has first reached its level.
pub fn watch_step(found: bool, reached: bool, captured: bool) -> (action: WatchAction)
    ensures
        action == if found {
            WatchAction::Stop
        } else if reached && !captured {
            WatchAction::Capture
        } else {
            WatchAction::Continue
        },
{
    if found {
        WatchAction::Stop
    } else if reached && !captured {
        WatchAction::Capture
    } else {
        WatchAction::Continue
    }
}

} // verus!
