//! How a run is set up: which choices it makes itself, which ones are recorded, and
//! which ones are read from a script or a trace.

use crate::explore::concurrency::{ReplayConcurrencyError, ReplayConcurrencyValidator};
use crate::explore::frontier::{ReplayFrontierError, ReplayFrontierPolicy};
use crate::explore::io::TraceFormat;
use crate::explore::ready_task::{ReplayReadyTaskError, ReplayReadyTaskPolicy};
use crate::explore::schedule_explore::DecisionScript;
use crate::explore::trace::{Trace, TraceEvent, TraceEventView};
use crate::simulation::SimulationConfig;
use vstd::prelude::*;

verus! {

#[derive(Debug)]
pub struct HarnessConfig {
    pub sim_config: SimulationConfig,
    pub scenario: String,
    /// Whether the async runtime is installed.
    pub install_tokio: bool,
    /// How the async runtime chooses among ready tasks. First come, first served, where
    /// nothing is given.
    pub tokio_ready: Option<HarnessTokioReadyConfig>,
    /// How a mutex of the async runtime chooses among waiters. First come, first
    /// served, where nothing is given.
    pub tokio_mutex: Option<HarnessTokioMutexConfig>,
    /// Whether what mutexes and atomics do is recorded.
    pub record_concurrency: bool,
    /// How the simulation chooses among events that are due at the same time. Where
    /// nothing is given, its policy stays as it is.
    pub frontier: Option<HarnessFrontierConfig>,
    /// Where the trace is written.
    pub trace_path: String,
    pub trace_format: TraceFormat,
}

/// How a choice among events is made.
#[derive(Debug, Clone, Copy, PartialEq, Eq, Structural)]
pub enum HarnessFrontierPolicy {
    Fifo,
    UniformRandom { seed: u64 },
}

/// How a choice among ready tasks is made.
#[derive(Debug, Clone, Copy, PartialEq, Eq, Structural)]
pub enum HarnessTokioReadyPolicy {
    Fifo,
    UniformRandom { seed: u64 },
}

/// How a choice among the waiters of a mutex is made.
#[derive(Debug, Clone, Copy, PartialEq, Eq, Structural)]
pub enum HarnessTokioMutexPolicy {
    Fifo,
    UniformRandom { seed: u64 },
}

#[derive(Debug, Clone, Copy, PartialEq, Eq, Structural)]
pub struct HarnessTokioMutexConfig {
    pub policy: HarnessTokioMutexPolicy,
}

impl Default for HarnessTokioMutexConfig {
    fn default() -> (cfg: Self)
        ensures
            cfg.policy == HarnessTokioMutexPolicy::Fifo,
    {
        HarnessTokioMutexConfig { policy: HarnessTokioMutexPolicy::Fifo }
    }
}

#[derive(Debug, Clone, Copy, PartialEq, Eq, Structural)]
pub struct HarnessTokioReadyConfig {
    pub policy: HarnessTokioReadyPolicy,
    /// Whether the choices are recorded.
    pub record_decisions: bool,
}

impl Default for HarnessTokioReadyConfig {
    fn default() -> (cfg: Self)
        ensures
            cfg.policy == HarnessTokioReadyPolicy::Fifo,
            !cfg.record_decisions,
    {
        HarnessTokioReadyConfig { policy: HarnessTokioReadyPolicy::Fifo, record_decisions: false }
    }
}

#[derive(Debug, Clone, Copy, PartialEq, Eq, Structural)]
pub struct HarnessFrontierConfig {
    pub policy: HarnessFrontierPolicy,
    /// Whether the choices are recorded. Random ones can be replayed only then.
    pub record_decisions: bool,
}

impl Default for HarnessFrontierConfig {
    fn default() -> (cfg: Self)
        ensures
            cfg.policy == HarnessFrontierPolicy::Fifo,
            !cfg.record_decisions,
    {
        HarnessFrontierConfig { policy: HarnessFrontierPolicy::Fifo, record_decisions: false }
    }
}

/// Why a run cannot be set up.
#[derive(Debug, Clone, Copy, PartialEq, Eq, Structural)]
pub enum HarnessError {
    /// The async runtime is asked for and is not there.
    TokioFeatureDisabled,
    /// Something of the async runtime is configured without installing it.
    TokioPolicyWithoutTokio,
}

/// Why a replay fails.
#[derive(Debug, PartialEq, Eq)]
pub enum HarnessReplayError {
    Harness(HarnessError),
    /// The choices among events are not those of the trace.
    Frontier(ReplayFrontierError),
    /// The choices among ready tasks are not those of the trace.
    TokioReady(ReplayReadyTaskError),
    /// What mutexes and atomics do is not what they do in the trace.
    Concurrency(ReplayConcurrencyError),
    /// A replay takes its choices among events from the trace.
    FrontierConfigNotAllowed,
    /// A replay takes its choices among ready tasks from the trace.
    TokioReadyConfigNotAllowed,
    /// The run panicked.
    Panic { message: String },
}

/// Which choices are read from a script.
///
/// A choice that the script does not have is made as it is configured. All of them are
/// recorded.
#[derive(Default)]
pub struct HarnessControl {
    pub decision_script: Option<DecisionScript>,
    pub explore_frontier: bool,
    pub explore_tokio_ready: bool,
}

/// What is done about one kind of choice.
#[derive(Debug, Clone, Copy, PartialEq, Eq, Structural)]
pub enum PolicyPlan<P> {
    /// The policy stays as it is.
    Untouched,
    /// The policy is installed.
    Plain(P),
    /// The policy is installed, and its choices are recorded.
    Recording(P),
    /// The choices are read from the script where it has them and made by the policy
    /// elsewhere. All of them are recorded.
    Exploring(P),
}

/// How the async runtime is installed.
#[derive(Debug, Clone, Copy, PartialEq, Eq, Structural)]
pub struct TokioPlan {
    pub ready: PolicyPlan<HarnessTokioReadyPolicy>,
    pub mutex: Option<HarnessTokioMutexPolicy>,
    pub record_concurrency: bool,
}

/// How a run is set up.
#[derive(Debug, Clone, Copy, PartialEq, Eq, Structural)]
pub struct RunPlan {
    pub tokio: Option<TokioPlan>,
    pub frontier: PolicyPlan<HarnessFrontierPolicy>,
}

/// What is done about the choices among events.
pub open spec fn frontier_plan(cfg: Option<HarnessFrontierConfig>, explore: bool) -> PolicyPlan<
    HarnessFrontierPolicy,
> {
    match cfg {
        None => if explore {
            PolicyPlan::Exploring(HarnessFrontierPolicy::Fifo)
        } else {
            PolicyPlan::Untouched
        },
        Some(c) => if explore {
            PolicyPlan::Exploring(c.policy)
        } else if c.record_decisions {
            PolicyPlan::Recording(c.policy)
        } else {
            PolicyPlan::Plain(c.policy)
        },
    }
}

fn plan_frontier(cfg: Option<HarnessFrontierConfig>, explore: bool) -> (plan: PolicyPlan<
    HarnessFrontierPolicy,
>)
    ensures
        plan == frontier_plan(cfg, explore),
{
    match cfg {
        None => if explore {
            PolicyPlan::Exploring(HarnessFrontierPolicy::Fifo)
        } else {
            PolicyPlan::Untouched
        },
        Some(c) => if explore {
            PolicyPlan::Exploring(c.policy)
        } else if c.record_decisions {
            PolicyPlan::Recording(c.policy)
        } else {
            PolicyPlan::Plain(c.policy)
        },
    }
}

/// What is done about the choices among ready tasks.
pub open spec fn ready_plan(cfg: Option<HarnessTokioReadyConfig>, explore: bool) -> PolicyPlan<
    HarnessTokioReadyPolicy,
> {
    match cfg {
        None => if explore {
            PolicyPlan::Exploring(HarnessTokioReadyPolicy::Fifo)
        } else {
            PolicyPlan::Untouched
        },
        Some(c) => if explore {
            PolicyPlan::Exploring(c.policy)
        } else if c.record_decisions {
            PolicyPlan::Recording(c.policy)
        } else {
            PolicyPlan::Plain(c.policy)
        },
    }
}

fn plan_ready(cfg: Option<HarnessTokioReadyConfig>, explore: bool) -> (plan: PolicyPlan<
    HarnessTokioReadyPolicy,
>)
    ensures
        plan == ready_plan(cfg, explore),
{
    match cfg {
        None => if explore {
            PolicyPlan::Exploring(HarnessTokioReadyPolicy::Fifo)
        } else {
            PolicyPlan::Untouched
        },
        Some(c) => if explore {
            PolicyPlan::Exploring(c.policy)
        } else if c.record_decisions {
            PolicyPlan::Recording(c.policy)
        } else {
            PolicyPlan::Plain(c.policy)
        },
    }
}

/// How the waiters of mutexes are chosen.
pub open spec fn mutex_plan(cfg: Option<HarnessTokioMutexConfig>) -> Option<
    HarnessTokioMutexPolicy,
> {
    match cfg {
        Some(c) => Some(c.policy),
        None => None,
    }
}

fn plan_mutex(cfg: Option<HarnessTokioMutexConfig>) -> (plan: Option<HarnessTokioMutexPolicy>)
    ensures
        plan == mutex_plan(cfg),
{
    match cfg {
        Some(c) => Some(c.policy),
        None => None,
    }
}

/// Whether something of the async runtime is configured.
pub open spec fn configures_tokio(cfg: HarnessConfig, explore_tokio_ready: bool) -> bool {
    cfg.tokio_ready is Some || cfg.tokio_mutex is Some || cfg.record_concurrency
        || explore_tokio_ready
}

/// How a run with a script is set up.
pub open spec fn controlled_plan(
    cfg: HarnessConfig,
    explore_frontier: bool,
    explore_tokio_ready: bool,
    tokio_available: bool,
) -> Result<RunPlan, HarnessError> {
    if configures_tokio(cfg, explore_tokio_ready) && !cfg.install_tokio {
        Err(HarnessError::TokioPolicyWithoutTokio)
    } else if cfg.install_tokio && !tokio_available {
        Err(HarnessError::TokioFeatureDisabled)
    } else {
        Ok(
            RunPlan {
                tokio: if cfg.install_tokio {
                    Some(
                        TokioPlan {
                            ready: ready_plan(cfg.tokio_ready, explore_tokio_ready),
                            mutex: mutex_plan(cfg.tokio_mutex),
                            record_concurrency: cfg.record_concurrency,
                        },
                    )
                } else {
                    None
                },
                frontier: frontier_plan(cfg.frontier, explore_frontier),
            },
        )
    }
}

/// Says whether the async runtime can be installed where it is asked for.
pub fn install_tokio_if_requested(install_tokio: bool, tokio_available: bool) -> (r: Result<
    bool,
    HarnessError,
>)
    ensures
        r == if install_tokio && !tokio_available {
            Err(HarnessError::TokioFeatureDisabled)
        } else {
            Ok(install_tokio)
        },
{
    if install_tokio && !tokio_available {
        Err(HarnessError::TokioFeatureDisabled)
    } else {
        Ok(install_tokio)
    }
}

/// Says how a run with a script is set up.
pub fn plan_controlled(cfg: &HarnessConfig, control: &HarnessControl, tokio_available: bool) -> (plan:
    Result<RunPlan, HarnessError>)
    ensures
        plan == controlled_plan(
            *cfg,
            control.explore_frontier,
            control.explore_tokio_ready,
            tokio_available,
        ),
{
    if (cfg.tokio_ready.is_some() || cfg.tokio_mutex.is_some() || cfg.record_concurrency
        || control.explore_tokio_ready) && !cfg.install_tokio {
        return Err(HarnessError::TokioPolicyWithoutTokio);
    }
    let installed = match install_tokio_if_requested(cfg.install_tokio, tokio_available) {
        Ok(installed) => installed,
        Err(e) => {
            return Err(e);
        },
    };
    let tokio = if installed {
        Some(
            TokioPlan {
                ready: plan_ready(cfg.tokio_ready, control.explore_tokio_ready),
                mutex: plan_mutex(cfg.tokio_mutex),
                record_concurrency: cfg.record_concurrency,
            },
        )
    } else {
        None
    };
    Ok(RunPlan { tokio, frontier: plan_frontier(cfg.frontier, control.explore_frontier) })
}

/// Says how a run without a script is set up.
pub fn plan_recorded(cfg: &HarnessConfig, tokio_available: bool) -> (plan: Result<
    RunPlan,
    HarnessError,
>)
    ensures
        plan == controlled_plan(*cfg, false, false, tokio_available),
{
    let control = HarnessControl {
        decision_script: None,
        explore_frontier: false,
        explore_tokio_ready: false,
    };
    plan_controlled(cfg, &control, tokio_available)
}

/// What is done about the events of mutexes and atomics in a replay.
#[derive(Debug, Clone, Copy, PartialEq, Eq, Structural)]
pub enum ConcurrencyPlan {
    Off,
    /// They are recorded.
    Record,
    /// They are held against those of the trace.
    Validate,
    /// They are held against those of the trace and recorded, in this order.
    ValidateAndRecord,
}

/// What is done about the events of mutexes and atomics in a replay.
pub open spec fn concurrency_plan(has_expected_events: bool, record: bool) -> ConcurrencyPlan {
    match (has_expected_events, record) {
        (false, false) => ConcurrencyPlan::Off,
        (false, true) => ConcurrencyPlan::Record,
        (true, false) => ConcurrencyPlan::Validate,
        (true, true) => ConcurrencyPlan::ValidateAndRecord,
    }
}

/// How the async runtime is installed for a replay.
pub struct ReplayTokioPlan {
    pub ready: ReplayReadyTaskPolicy,
    pub mutex: Option<HarnessTokioMutexPolicy>,
    pub validator: ReplayConcurrencyValidator,
    pub concurrency: ConcurrencyPlan,
}

/// How a replay is set up.
pub struct ReplayPlan {
    pub tokio: Option<ReplayTokioPlan>,
    /// The choices among events, if the trace has any. The policy of the simulation
    /// stays as it is otherwise.
    pub frontier: Option<ReplayFrontierPolicy>,
}

/// Whether an entry of a trace is a choice among events.
pub open spec fn is_scheduler_decision(e: TraceEventView) -> bool {
    e is SchedulerDecision
}

/// Whether a trace has choices among events.
pub open spec fn has_scheduler_decisions(events: Seq<TraceEventView>) -> bool {
    exists|i: int| 0 <= i < events.len() && is_scheduler_decision(#[trigger] events[i])
}

fn any_scheduler_decision(events: &Vec<TraceEvent>) -> (any: bool)
    ensures
        any == has_scheduler_decisions(crate::explore::trace::event_views(events@)),
{
    let ghost views = crate::explore::trace::event_views(events@);
    let mut i: usize = 0;
    while i < events.len()
        invariant
            i <= events@.len(),
            views == crate::explore::trace::event_views(events@),
            forall|k: int| 0 <= k < i ==> !is_scheduler_decision(#[trigger] views[k]),
        decreases events@.len() - i,
    {
        proof {
            assert(views[i as int] == events@[i as int]@);
        }
        if let TraceEvent::SchedulerDecision(_) = &events[i] {
            proof {
                assert(is_scheduler_decision(views[i as int]));
            }
            return true;
        }
        i = i + 1;
    }
    false
}

/// Says how a replay of a trace is set up.
pub fn plan_replayed(cfg: &HarnessConfig, input_trace: &Trace, tokio_available: bool) -> (plan:
    Result<ReplayPlan, HarnessReplayError>)
    ensures
        cfg.frontier is Some ==> plan == Err::<ReplayPlan, _>(
            HarnessReplayError::FrontierConfigNotAllowed,
        ),
        cfg.frontier is None && cfg.tokio_ready is Some ==> plan == Err::<ReplayPlan, _>(
            HarnessReplayError::TokioReadyConfigNotAllowed,
        ),
        cfg.frontier is None && cfg.tokio_ready is None && cfg.install_tokio && !tokio_available
            ==> plan == Err::<ReplayPlan, _>(
            HarnessReplayError::Harness(HarnessError::TokioFeatureDisabled),
        ),
        cfg.frontier is None && cfg.tokio_ready is None && (cfg.install_tokio ==> tokio_available)
            ==> plan is Ok,
        plan matches Ok(p) ==> {
            let events = input_trace@.events;
            let validated = crate::explore::concurrency::concurrency_events(events);
            &&& p.tokio is Some <==> cfg.install_tokio
            &&& p.tokio matches Some(t) ==> {
                &&& t.ready@.decisions == crate::explore::ready_task::ready_decisions(events)
                &&& t.ready@.next == 0
                &&& t.ready@.error is None
                &&& t.ready@.fifo_fallback == (t.ready@.decisions.len() == 0)
                &&& t.mutex == mutex_plan(cfg.tokio_mutex)
                &&& t.validator@ == (crate::explore::concurrency::ReplayConcurrencyView {
                    expected: validated,
                    next: 0,
                    error: None,
                })
                &&& t.concurrency == concurrency_plan(validated.len() > 0, cfg.record_concurrency)
            }
            &&& p.frontier is Some <==> has_scheduler_decisions(events)
            &&& p.frontier matches Some(f) ==> {
                &&& f@.decisions == crate::explore::frontier::scheduler_decisions(events)
                &&& f@.next == 0
                &&& f@.error is None
            }
        },
{
    if cfg.frontier.is_some() {
        return Err(HarnessReplayError::FrontierConfigNotAllowed);
    }
    if cfg.tokio_ready.is_some() {
        return Err(HarnessReplayError::TokioReadyConfigNotAllowed);
    }
    let installed = match install_tokio_if_requested(cfg.install_tokio, tokio_available) {
        Ok(installed) => installed,
        Err(e) => {
            return Err(HarnessReplayError::Harness(e));
        },
    };
    let tokio = if installed {
        let validator = ReplayConcurrencyValidator::from_trace_events(&input_trace.events);
        let concurrency = match (validator.has_expected_events(), cfg.record_concurrency) {
            (false, false) => ConcurrencyPlan::Off,
            (false, true) => ConcurrencyPlan::Record,
            (true, false) => ConcurrencyPlan::Validate,
            (true, true) => ConcurrencyPlan::ValidateAndRecord,
        };
        Some(
            ReplayTokioPlan {
                ready: ReplayReadyTaskPolicy::from_trace_events(&input_trace.events),
                mutex: plan_mutex(cfg.tokio_mutex),
                validator,
                concurrency,
            },
        )
    } else {
        None
    };
    let frontier = if any_scheduler_decision(&input_trace.events) {
        Some(ReplayFrontierPolicy::from_trace_events(&input_trace.events))
    } else {
        None
    };
    Ok(ReplayPlan { tokio, frontier })
}

/// What a replay comes to: a difference in the choices among ready tasks goes before
/// one in the choices among events, that before one in the events of mutexes and
/// atomics, and each of them before a panic.
pub fn replay_outcome(
    tokio_ready: Option<ReplayReadyTaskError>,
    frontier: Option<ReplayFrontierError>,
    concurrency: Option<ReplayConcurrencyError>,
    panic_message: Option<String>,
) -> (outcome: Result<(), HarnessReplayError>)
    ensures
        outcome == match (tokio_ready, frontier, concurrency, panic_message) {
            (Some(e), _, _, _) => Err::<(), _>(HarnessReplayError::TokioReady(e)),
            (None, Some(e), _, _) => Err(HarnessReplayError::Frontier(e)),
            (None, None, Some(e), _) => Err(HarnessReplayError::Concurrency(e)),
            (None, None, None, Some(message)) => Err(HarnessReplayError::Panic { message }),
            (None, None, None, None) => Ok(()),
        },
{
    if let Some(e) = tokio_ready {
        return Err(HarnessReplayError::TokioReady(e));
    }
    if let Some(e) = frontier {
        return Err(HarnessReplayError::Frontier(e));
    }
    if let Some(e) = concurrency {
        return Err(HarnessReplayError::Concurrency(e));
    }
    if let Some(message) = panic_message {
        return Err(HarnessReplayError::Panic { message });
    }
    Ok(())
}

/// A run that is explored makes the choices among events that the script does not have
/// as it would make them without one. What is explored is what is asked for.
pub proof fn exploring_keeps_the_configured_policy(
    cfg: HarnessConfig,
    explore_frontier: bool,
    explore_tokio_ready: bool,
    tokio_available: bool,
)
    requires
        controlled_plan(cfg, explore_frontier, explore_tokio_ready, tokio_available) is Ok,
    ensures
        controlled_plan(cfg, false, false, tokio_available) is Ok,
        ({
            let plan = controlled_plan(cfg, explore_frontier, explore_tokio_ready, tokio_available)->Ok_0;
            let plain = controlled_plan(cfg, false, false, tokio_available)->Ok_0;
            &&& plan.frontier is Exploring <==> explore_frontier
            &&& plan.frontier matches PolicyPlan::Exploring(p) ==> match plain.frontier {
                PolicyPlan::Plain(q) => p == q,
                PolicyPlan::Recording(q) => p == q,
                _ => p == HarnessFrontierPolicy::Fifo,
            }
            &&& plan.tokio matches Some(t) ==> plain.tokio is Some && (t.ready is Exploring
                <==> explore_tokio_ready)
        }),
{
}

/// A run is refused exactly where something is asked of the asynchronous runtime that is not
/// installed, or where it is to be installed and cannot be. The first reason is told first.
pub proof fn runs_are_refused_for_a_reason(
    cfg: HarnessConfig,
    explore_frontier: bool,
    explore_tokio_ready: bool,
    tokio_available: bool,
)
    ensures
        ({
            let plan = controlled_plan(cfg, explore_frontier, explore_tokio_ready, tokio_available);
            let asked = cfg.tokio_ready is Some || cfg.tokio_mutex is Some
                || cfg.record_concurrency || explore_tokio_ready;
            &&& plan == Err::<RunPlan, _>(HarnessError::TokioPolicyWithoutTokio) <==> asked
                && !cfg.install_tokio
            &&& plan == Err::<RunPlan, _>(HarnessError::TokioFeatureDisabled)
                <==> cfg.install_tokio && !tokio_available
            &&& plan is Ok <==> (cfg.install_tokio ==> tokio_available) && (asked
                ==> cfg.install_tokio)
        }),
{
}

/// A run without exploration uses the configured policies, and records what they decide
/// exactly if that is configured. Nothing is touched that is not configured.
pub proof fn plan_does_what_is_configured(cfg: HarnessConfig, tokio_available: bool)
    requires
        controlled_plan(cfg, false, false, tokio_available) is Ok,
    ensures
        ({
            let plan = controlled_plan(cfg, false, false, tokio_available)->Ok_0;
            &&& match cfg.frontier {
                None => plan.frontier == PolicyPlan::<HarnessFrontierPolicy>::Untouched,
                Some(f) => {
                    &&& plan.frontier is Recording <==> f.record_decisions
                    &&& plan.frontier is Plain <==> !f.record_decisions
                    &&& plan.frontier matches PolicyPlan::Recording(p) ==> p == f.policy
                    &&& plan.frontier matches PolicyPlan::Plain(p) ==> p == f.policy
                },
            }
            &&& plan.tokio is Some <==> cfg.install_tokio
            &&& plan.tokio matches Some(t) ==> {
                &&& t.record_concurrency == cfg.record_concurrency
                &&& t.mutex is Some <==> cfg.tokio_mutex is Some
                &&& cfg.tokio_mutex matches Some(m) ==> t.mutex == Some(m.policy)
                &&& match cfg.tokio_ready {
                    None => t.ready == PolicyPlan::<HarnessTokioReadyPolicy>::Untouched,
                    Some(r) => {
                        &&& t.ready is Recording <==> r.record_decisions
                        &&& t.ready is Plain <==> !r.record_decisions
                        &&& t.ready matches PolicyPlan::Recording(p) ==> p == r.policy
                        &&& t.ready matches PolicyPlan::Plain(p) ==> p == r.policy
                    },
                }
            }
        }),
{
}

/// Ready tasks are explored with the configured policy, and first in first out where none is
/// configured.
pub proof fn exploring_ready_tasks_keeps_the_policy(
    cfg: HarnessConfig,
    explore_frontier: bool,
    tokio_available: bool,
)
    requires
        controlled_plan(cfg, explore_frontier, true, tokio_available) is Ok,
    ensures
        ({
            let plan = controlled_plan(cfg, explore_frontier, true, tokio_available)->Ok_0;
            &&& plan.tokio is Some
            &&& plan.tokio->0.ready == PolicyPlan::Exploring(
                match cfg.tokio_ready {
                    Some(r) => r.policy,
                    None => HarnessTokioReadyPolicy::Fifo,
                },
            )
        }),
{
}

/// The events of locks and atomic variables are validated exactly if the trace has some, and
/// recorded exactly if that is configured.
pub proof fn concurrency_is_validated_if_there_are_events(has_expected_events: bool, record: bool)
    ensures
        ({
            let plan = concurrency_plan(has_expected_events, record);
            &&& has_expected_events <==> plan is Validate || plan is ValidateAndRecord
            &&& record <==> plan is Record || plan is ValidateAndRecord
        }),
{
}

/// A trace has decisions of the scheduler exactly if one of its events is one.
pub proof fn decisions_are_looked_for_in_the_whole_trace(
    events: Seq<TraceEventView>,
    e: TraceEventView,
)
    ensures
        !has_scheduler_decisions(Seq::empty()),
        has_scheduler_decisions(events.push(e)) <==> has_scheduler_decisions(events)
            || e is SchedulerDecision,
{
    let all = events.push(e);
    let n = events.len() as int;
    assert(all[n] == e);
    assert forall|i: int| 0 <= i < n implies #[trigger] events[i] == all[i] by {}
    if has_scheduler_decisions(events) {
        let i = choose|i: int| 0 <= i < n && is_scheduler_decision(#[trigger] events[i]);
        assert(is_scheduler_decision(all[i]));
    }
    if has_scheduler_decisions(all) {
        let i = choose|i: int| 0 <= i < n + 1 && is_scheduler_decision(#[trigger] all[i]);
        if i < n {
            assert(is_scheduler_decision(events[i]));
        }
    }
    if e is SchedulerDecision {
        assert(is_scheduler_decision(all[n]));
    }
}

} // verus!
