//! Searching for a policy under which a property fails often.
//!
//! The search starts from the empty table and changes one decision at a time. Each
//! table is evaluated on the same seeds. A table that does better becomes the one that
//! is changed next. The best one is evaluated again, on seeds of its own.
//!
//! [`PolicySearch`] says which trial comes next and takes in what came of it, and
//! [`search_policy`] makes a whole search with it. Whether a table does better than the
//! best one so far is for their user to say.

use crate::assoc_map::MapKey;
use crate::explore::harness::HarnessError;
use crate::explore::mutation::mutate_one;
use crate::explore::policy::{ActionView, TablePolicy};
use crate::explore::schedule_explore::{
    extract_decisions, DecisionKey, DecisionKeyView, DecisionScript, ObservedDecisionView,
};
use crate::explore::seeds::{rollout_seeds, RolloutSeeds};
use crate::explore::trace::Trace;
use crate::rng::seeded_rng;
use crate::simulation::SimulationConfig;
use crate::time::SimTime;
use rand::rngs::StdRng;
use vstd::prelude::*;
use vstd::string::StringExecFns;

verus! {

/// What is compared of two tables.
#[derive(Debug, Clone, Copy, PartialEq, Eq, Structural)]
pub enum PolicySearchObjective {
    /// The share of trials in which the property failed.
    PHat,
    /// The lower end of the Wilson interval for that share.
    WilsonLowerBound,
}

/// How events are chosen where the table has no entry.
#[derive(Debug, Clone, Copy, PartialEq, Eq, Structural)]
pub enum BaseFrontierPolicy {
    Fifo,
    UniformRandom,
}

/// How ready tasks are chosen where the table has no entry.
#[derive(Debug, Clone, Copy, PartialEq, Eq, Structural)]
pub enum BaseTokioReadyPolicy {
    Fifo,
    UniformRandom,
}

#[derive(Debug)]
pub struct PolicySearchConfig {
    pub base_sim_config: SimulationConfig,
    pub scenario: String,
    pub end_time: SimTime,
    pub install_tokio: bool,
    pub base_frontier: BaseFrontierPolicy,
    pub base_tokio_ready: BaseTokioReadyPolicy,
    /// How many changed tables are evaluated.
    pub budget_policies: usize,
    /// How many trials each table gets during the search.
    pub trials_per_policy: u64,
    /// How many trials the best table gets at the end.
    pub holdout_trials: u64,
    /// The confidence of the Wilson interval, as the bits of a floating-point number.
    pub confidence_bits: u64,
    pub objective: PolicySearchObjective,
    /// How many traces of failures are kept.
    pub max_failure_traces: usize,
    /// The seed of the changes.
    pub mutation_seed: u64,
}

/// 0.95.
pub const DEFAULT_CONFIDENCE_BITS: u64 = 0x3FEE_6666_6666_6666;

impl Default for PolicySearchConfig {
    fn default() -> (cfg: Self)
        ensures
            cfg.base_sim_config.seed == 1,
            cfg.scenario@ == "policy_search"@,
            cfg.end_time == SimTime(60_000_000_000),
            cfg.install_tokio,
            cfg.base_frontier == BaseFrontierPolicy::Fifo,
            cfg.base_tokio_ready == BaseTokioReadyPolicy::Fifo,
            cfg.budget_policies == 100,
            cfg.trials_per_policy == 20,
            cfg.holdout_trials == 200,
            cfg.confidence_bits == DEFAULT_CONFIDENCE_BITS,
            cfg.objective == PolicySearchObjective::WilsonLowerBound,
            cfg.max_failure_traces == 32,
            cfg.mutation_seed == 0xDEC0DED,
    {
        PolicySearchConfig {
            base_sim_config: SimulationConfig { seed: 1 },
            scenario: String::from_str("policy_search"),
            end_time: SimTime::from_secs(60),
            install_tokio: true,
            base_frontier: BaseFrontierPolicy::Fifo,
            base_tokio_ready: BaseTokioReadyPolicy::Fifo,
            budget_policies: 100,
            trials_per_policy: 20,
            holdout_trials: 200,
            confidence_bits: DEFAULT_CONFIDENCE_BITS,
            objective: PolicySearchObjective::WilsonLowerBound,
            max_failure_traces: 32,
            mutation_seed: 0xDEC0DED,
        }
    }
}

/// What came of the trials of a table.
#[derive(Debug, Clone, Copy, PartialEq, Eq, Structural)]
pub struct PolicyEvaluationSummary {
    pub policy_index: usize,
    pub successes: u64,
    pub trials: u64,
}

/// When a failure was found.
#[derive(Debug, Clone, Copy, PartialEq, Eq, Structural)]
pub enum FailurePhase {
    Search,
    Holdout,
}

/// A trial in which the property failed.
#[derive(Debug)]
pub struct PolicySearchFailure<S> {
    pub phase: FailurePhase,
    pub policy_index: usize,
    pub trial_index: u64,
    pub trace: Trace,
    pub status: Option<S>,
    pub panic_message: Option<String>,
}

/// What came of the trials at the end.
#[derive(Debug, Clone, Copy, PartialEq, Eq, Structural)]
pub struct TrialCounts {
    pub trials: u64,
    pub successes: u64,
}

/// What a search has found.
pub struct PolicySearchReport<S> {
    pub best_policy: TablePolicy,
    /// The evaluation of the empty table, and those of the changed ones.
    pub evaluations: Vec<PolicyEvaluationSummary>,
    pub holdout: TrialCounts,
    pub failures: Vec<PolicySearchFailure<S>>,
    /// The decisions that were seen during the search.
    pub observed_keys: Vec<DecisionKey>,
}

#[derive(Debug, Clone, Copy, PartialEq, Eq, Structural)]
pub enum PolicySearchError {
    Harness(HarnessError),
    ZeroTrialsPerPolicy,
    ZeroHoldoutTrials,
}

/// How a trial ended.
#[derive(Debug)]
pub enum RolloutOutcome<S> {
    /// It ran to its end, or until the property failed.
    Finished { status: S, hit_bad: bool },
    /// It panicked.
    Panicked { message: String },
}

impl<S> RolloutOutcome<S> {
    /// Whether the property failed. A panic counts as a failure.
    pub open spec fn hit(self) -> bool {
        match self {
            RolloutOutcome::Finished { hit_bad, .. } => hit_bad,
            RolloutOutcome::Panicked { .. } => true,
        }
    }

    /// The last status, if the trial ended with one.
    pub open spec fn last_status(self) -> Option<S> {
        match self {
            RolloutOutcome::Finished { status, .. } => Some(status),
            RolloutOutcome::Panicked { .. } => None,
        }
    }

    /// The message of the panic, if there was one.
    pub open spec fn message(self) -> Option<String> {
        match self {
            RolloutOutcome::Finished { .. } => None,
            RolloutOutcome::Panicked { message } => Some(message),
        }
    }
}

/// The trial that comes next.
#[derive(Debug, Clone, Copy, PartialEq, Eq, Structural)]
pub struct TrialPlan {
    pub phase: FailurePhase,
    pub policy_index: usize,
    pub trial_index: u64,
    pub seeds: RolloutSeeds,
}

/// What is being evaluated.
#[derive(Debug, Clone, Copy, PartialEq, Eq, Structural)]
pub enum SearchPhase {
    /// The empty table.
    Baseline,
    /// A changed table.
    Candidate,
    /// The best table, at the end.
    Holdout,
    /// Nothing: the search is over.
    Done,
}

/// What sets the seeds of the trials at the end apart from those of the search.
pub const HOLDOUT_MASK: u64 = 0xC0FF_EE00_C0FF_EE00;

/// The state of a search.
pub struct PolicySearch<S> {
    pub cfg: PolicySearchConfig,
    pub phase: SearchPhase,
    pub best_policy: TablePolicy,
    /// The number of the evaluation of the best table.
    pub best_evaluation: usize,
    /// The table that is being evaluated.
    pub current: TablePolicy,
    pub evaluations: Vec<PolicyEvaluationSummary>,
    pub failures: Vec<PolicySearchFailure<S>>,
    pub observed_keys: Vec<DecisionKey>,
    pub mutation_rng: StdRng,
    /// How many trials of the current evaluation are over.
    pub trial_index: u64,
    /// In how many of them the property failed.
    pub successes: u64,
}

/// Known decisions, with those that a trace adds to them.
pub open spec fn with_observed(
    known: Seq<DecisionKeyView>,
    found: Seq<ObservedDecisionView>,
) -> Seq<DecisionKeyView>
    decreases found.len(),
{
    if found.len() == 0 {
        known
    } else {
        let front = with_observed(known, found.drop_last());
        if front.contains(found.last().key) {
            front
        } else {
            front.push(found.last().key)
        }
    }
}

/// Whether no decision is listed twice.
pub open spec fn keys_are_distinct(keys: Seq<DecisionKeyView>) -> bool {
    forall|i: int, j: int| 0 <= i < j < keys.len() ==> #[trigger] keys[i] != #[trigger] keys[j]
}

fn has_key(keys: &Vec<DecisionKey>, key: &DecisionKey) -> (has: bool)
    ensures
        has == crate::explore::policy::key_views(keys@).contains(key@),
{
    let ghost views = crate::explore::policy::key_views(keys@);
    let mut i: usize = 0;
    while i < keys.len()
        invariant
            i <= keys@.len(),
            views == crate::explore::policy::key_views(keys@),
            forall|k: int| 0 <= k < i ==> views[k] != key@,
        decreases keys@.len() - i,
    {
        proof {
            assert(views[i as int] == keys@[i as int]@);
        }
        if keys[i].same(key) {
            return true;
        }
        i = i + 1;
    }
    false
}

/// Adds the decisions of a trace to the known ones.
pub fn observe_keys(keys: &mut Vec<DecisionKey>, trace: &Trace)
    requires
        forall|i: int|
            0 <= i < trace@.events.len() ==> crate::explore::schedule_explore::names_its_choice(
                #[trigger] trace@.events[i],
            ),
    ensures
        crate::explore::policy::key_views(final(keys)@) == with_observed(
            crate::explore::policy::key_views(old(keys)@),
            crate::explore::schedule_explore::decisions_of(trace@.events),
        ),
{
    let found = extract_decisions(trace);
    let ghost known = crate::explore::policy::key_views(keys@);
    let ghost views = crate::explore::schedule_explore::observed_views(found@);
    let mut i: usize = 0;
    proof {
        assert(views.take(0) =~= Seq::empty());
    }
    while i < found.len()
        invariant
            i <= found@.len(),
            views == crate::explore::schedule_explore::observed_views(found@),
            crate::explore::policy::key_views(keys@) == with_observed(known, views.take(i as int)),
        decreases found@.len() - i,
    {
        let ghost before = crate::explore::policy::key_views(keys@);
        proof {
            assert(views.take(i + 1).drop_last() =~= views.take(i as int));
            assert(views.take(i + 1).last() == found@[i as int]@);
        }
        if !has_key(keys, &found[i].key) {
            let key = found[i].key.clone();
            keys.push(key);
            proof {
                assert(crate::explore::policy::key_views(keys@) =~= before.push(key@));
            }
        }
        i = i + 1;
    }
    proof {
        assert(views.take(i as int) =~= views);
    }
}

/// The decisions of a trace are known after it was taken in, and so are those that were
/// known before. None is listed twice.
pub proof fn observed_keys_are_known(known: Seq<DecisionKeyView>, found: Seq<ObservedDecisionView>)
    ensures
        forall|k: DecisionKeyView| #[trigger]
            with_observed(known, found).contains(k) <==> known.contains(k) || exists|i: int|
                0 <= i < found.len() && (#[trigger] found[i]).key == k,
        keys_are_distinct(known) ==> keys_are_distinct(with_observed(known, found)),
    decreases found.len(),
{
    if found.len() > 0 {
        let rest = found.drop_last();
        observed_keys_are_known(known, rest);
        let front = with_observed(known, rest);
        let all = with_observed(known, found);
        assert forall|k: DecisionKeyView| #[trigger] all.contains(k) <==> known.contains(k)
            || exists|i: int| 0 <= i < found.len() && (#[trigger] found[i]).key == k by {
            if all.contains(k) {
                if front.contains(k) {
                    if !known.contains(k) {
                        let i = choose|i: int| 0 <= i < rest.len() && (#[trigger] rest[i]).key == k;
                        assert(found[i].key == k);
                    }
                } else {
                    let i = choose|i: int| 0 <= i < all.len() && all[i] == k;
                    if i < front.len() {
                        assert(front[i] == k);
                    }
                    assert(found[found.len() - 1].key == k);
                }
            }
            if front.contains(k) {
                let i = choose|i: int| 0 <= i < front.len() && front[i] == k;
                assert(all[i] == k);
            }
            if exists|i: int| 0 <= i < found.len() && (#[trigger] found[i]).key == k {
                let i = choose|i: int| 0 <= i < found.len() && (#[trigger] found[i]).key == k;
                if i < rest.len() {
                    assert(rest[i].key == k);
                    assert(front.contains(k));
                } else if !front.contains(k) {
                    assert(all[front.len() as int] == k);
                }
            }
        }
        if keys_are_distinct(known) {
            assert forall|i: int, j: int| 0 <= i < j < all.len() implies #[trigger] all[i]
                != #[trigger] all[j] by {
                if j == front.len() {
                    assert(all[i] == front[i]);
                    assert(front.contains(front[i]));
                }
            }
        }
    }
}

impl PolicySearchConfig {
    /// How many trials an evaluation has.
    pub open spec fn trials(self, phase: SearchPhase) -> u64 {
        match phase {
            SearchPhase::Baseline => self.trials_per_policy,
            SearchPhase::Candidate => self.trials_per_policy,
            SearchPhase::Holdout => self.holdout_trials,
            SearchPhase::Done => self.holdout_trials,
        }
    }

    /// From what the seeds of an evaluation are derived.
    pub open spec fn seed_base(self, phase: SearchPhase) -> u64 {
        match phase {
            SearchPhase::Baseline => self.base_sim_config.seed,
            SearchPhase::Candidate => self.base_sim_config.seed,
            SearchPhase::Holdout => self.base_sim_config.seed ^ HOLDOUT_MASK,
            SearchPhase::Done => self.base_sim_config.seed ^ HOLDOUT_MASK,
        }
    }
}

/// The phase in which a failure counts as found.
pub open spec fn failure_phase(phase: SearchPhase) -> FailurePhase {
    match phase {
        SearchPhase::Baseline => FailurePhase::Search,
        SearchPhase::Candidate => FailurePhase::Search,
        SearchPhase::Holdout => FailurePhase::Holdout,
        SearchPhase::Done => FailurePhase::Holdout,
    }
}

fn to_failure_phase(phase: SearchPhase) -> (p: FailurePhase)
    ensures
        p == failure_phase(phase),
{
    match phase {
        SearchPhase::Baseline => FailurePhase::Search,
        SearchPhase::Candidate => FailurePhase::Search,
        SearchPhase::Holdout => FailurePhase::Holdout,
        SearchPhase::Done => FailurePhase::Holdout,
    }
}

/// Whether this is the script of a table. The empty script is left out.
pub open spec fn is_script_of(
    table: Map<DecisionKeyView, ActionView>,
    script: Option<DecisionScript>,
) -> bool {
    &&& script is None <==> crate::explore::policy::table_script(table).len() == 0
    &&& script matches Some(s) ==> s.wf() && s@ == crate::explore::policy::table_script(table)
}

impl<S> PolicySearch<S> {
    pub open spec fn wf(self) -> bool {
        &&& self.best_policy.wf()
        &&& self.current.wf()
        &&& self.cfg.trials_per_policy > 0
        &&& self.cfg.holdout_trials > 0
        &&& self.trial_index <= self.cfg.trials(self.phase)
        &&& self.successes <= self.trial_index
        &&& self.failures@.len() <= self.cfg.max_failure_traces
        &&& keys_are_distinct(crate::explore::policy::key_views(self.observed_keys@))
        &&& self.phase == SearchPhase::Baseline ==> self.best_evaluation == 0
        &&& self.phase != SearchPhase::Baseline ==> self.best_evaluation < self.evaluations@.len()
        &&& match self.phase {
            SearchPhase::Baseline => self.evaluations@.len() == 0 && self.best_policy@
                == Map::<DecisionKeyView, ActionView>::empty() && self.current@
                == self.best_policy@,
            SearchPhase::Candidate => 1 <= self.evaluations@.len() <= self.cfg.budget_policies,
            SearchPhase::Holdout => 1 <= self.evaluations@.len() <= self.cfg.budget_policies + 1
                && self.current@ == self.best_policy@,
            SearchPhase::Done => 1 <= self.evaluations@.len() <= self.cfg.budget_policies + 1
                && self.current@ == self.best_policy@ && self.trial_index
                == self.cfg.holdout_trials,
        }
        &&& forall|i: int|
            0 <= i < self.evaluations@.len() ==> (#[trigger] self.evaluations@[i]).policy_index == i
                && self.evaluations@[i].trials == self.cfg.trials_per_policy
                && self.evaluations@[i].successes <= self.evaluations@[i].trials
    }

    /// How many evaluations there can be still.
    pub open spec fn evaluations_left(self) -> int {
        match self.phase {
            SearchPhase::Baseline => self.cfg.budget_policies + 2,
            SearchPhase::Candidate => self.cfg.budget_policies + 2 - self.evaluations@.len(),
            SearchPhase::Holdout => 1,
            SearchPhase::Done => 0,
        }
    }

    /// The trial that comes next.
    pub open spec fn plan(self) -> TrialPlan {
        TrialPlan {
            phase: failure_phase(self.phase),
            policy_index: self.evaluations@.len() as usize,
            trial_index: self.trial_index,
            seeds: crate::explore::seeds::seeds_of_rollout(
                self.cfg.seed_base(self.phase),
                self.trial_index,
            ),
        }
    }

    /// What has come of the trials of the current evaluation.
    pub open spec fn summary(self) -> PolicyEvaluationSummary {
        PolicyEvaluationSummary {
            policy_index: self.evaluations@.len() as usize,
            successes: self.successes,
            trials: self.trial_index,
        }
    }

    /// Whether a search stands at its start.
    pub open spec fn is_start(self, cfg: PolicySearchConfig) -> bool {
        &&& self.cfg == cfg
        &&& self.phase == SearchPhase::Baseline
        &&& self.best_policy@ == Map::<DecisionKeyView, ActionView>::empty()
        &&& self.current@ == Map::<DecisionKeyView, ActionView>::empty()
        &&& self.best_evaluation == 0
        &&& self.evaluations@.len() == 0
        &&& self.failures@.len() == 0
        &&& self.observed_keys@.len() == 0
        &&& self.mutation_rng == crate::rng::rng_seeded(cfg.mutation_seed)
        &&& self.trial_index == 0
        &&& self.successes == 0
    }

    /// Whether this is the search after it has taken in what came of a trial.
    pub open spec fn takes_in(self, after: Self, trace: Trace, outcome: RolloutOutcome<S>) -> bool {
        &&& after.cfg == self.cfg
        &&& after.phase == self.phase
        &&& after.best_policy == self.best_policy
        &&& after.best_evaluation == self.best_evaluation
        &&& after.current == self.current
        &&& after.evaluations == self.evaluations
        &&& after.mutation_rng == self.mutation_rng
        &&& after.trial_index == self.trial_index + 1
        &&& after.successes == self.successes + if outcome.hit() {
            1int
        } else {
            0
        }
        &&& after.failures@ == if outcome.hit() && self.failures@.len()
            < self.cfg.max_failure_traces {
            self.failures@.push(
                (PolicySearchFailure {
                    phase: self.plan().phase,
                    policy_index: self.plan().policy_index,
                    trial_index: self.plan().trial_index,
                    trace,
                    status: outcome.last_status(),
                    panic_message: outcome.message(),
                }),
            )
        } else {
            self.failures@
        }
        &&& crate::explore::policy::key_views(after.observed_keys@) == if self.phase
            == SearchPhase::Holdout {
            crate::explore::policy::key_views(self.observed_keys@)
        } else {
            with_observed(
                crate::explore::policy::key_views(self.observed_keys@),
                crate::explore::schedule_explore::decisions_of(trace@.events),
            )
        }
    }

    /// Whether this is the search after the current evaluation was ended.
    pub open spec fn goes_on(self, after: Self, improved: bool) -> bool {
        &&& after.cfg == self.cfg
        &&& after.failures == self.failures
        &&& after.observed_keys == self.observed_keys
        &&& self.phase == SearchPhase::Holdout ==> {
            &&& after.phase == SearchPhase::Done
            &&& after.best_policy == self.best_policy
            &&& after.best_evaluation == self.best_evaluation
            &&& after.evaluations == self.evaluations
            &&& after.trial_index == self.trial_index
            &&& after.successes == self.successes
            &&& after.mutation_rng == self.mutation_rng
        }
        &&& self.phase != SearchPhase::Holdout ==> {
            let better = self.phase == SearchPhase::Candidate && improved;
            let best = if better {
                self.current@
            } else {
                self.best_policy@
            };
            let next = if self.evaluations@.len() < self.cfg.budget_policies {
                crate::explore::mutation::mutated(
                    best,
                    crate::explore::policy::key_views(self.observed_keys@),
                    self.mutation_rng,
                )
            } else {
                (None, self.mutation_rng)
            };
            &&& after.evaluations@ == self.evaluations@.push(self.summary())
            &&& after.best_policy@ == best
            &&& after.best_evaluation == if better {
                self.evaluations@.len()
            } else {
                self.best_evaluation as nat
            }
            &&& after.mutation_rng == next.1
            &&& after.trial_index == 0
            &&& after.successes == 0
            &&& after.phase == if next.0 is Some {
                SearchPhase::Candidate
            } else {
                SearchPhase::Holdout
            }
            &&& after.current@ == if next.0 is Some {
                next.0->0
            } else {
                best
            }
        }
    }

    /// Starts a search with the empty table.
    pub fn start(cfg: PolicySearchConfig) -> (search: Result<Self, PolicySearchError>)
        ensures
            cfg.trials_per_policy == 0 ==> search == Err::<Self, _>(
                PolicySearchError::ZeroTrialsPerPolicy,
            ),
            cfg.trials_per_policy > 0 && cfg.holdout_trials == 0 ==> search == Err::<Self, _>(
                PolicySearchError::ZeroHoldoutTrials,
            ),
            cfg.trials_per_policy > 0 && cfg.holdout_trials > 0 ==> search is Ok,
            search matches Ok(s) ==> s.wf() && s.is_start(cfg),
    {
        if cfg.trials_per_policy == 0 {
            return Err(PolicySearchError::ZeroTrialsPerPolicy);
        }
        if cfg.holdout_trials == 0 {
            return Err(PolicySearchError::ZeroHoldoutTrials);
        }
        let mutation_rng = seeded_rng(cfg.mutation_seed);
        Ok(
            PolicySearch {
                cfg,
                phase: SearchPhase::Baseline,
                best_policy: TablePolicy::new(),
                best_evaluation: 0,
                current: TablePolicy::new(),
                evaluations: Vec::new(),
                failures: Vec::new(),
                observed_keys: Vec::new(),
                mutation_rng,
                trial_index: 0,
                successes: 0,
            },
        )
    }

    fn trials(&self) -> (trials: u64)
        ensures
            trials == self.cfg.trials(self.phase),
    {
        match self.phase {
            SearchPhase::Baseline => self.cfg.trials_per_policy,
            SearchPhase::Candidate => self.cfg.trials_per_policy,
            SearchPhase::Holdout => self.cfg.holdout_trials,
            SearchPhase::Done => self.cfg.holdout_trials,
        }
    }

    /// The trial that comes next, unless the current evaluation has had all of its
    /// trials.
    pub fn next_trial(&self) -> (plan: Option<TrialPlan>)
        ensures
            plan == if self.trial_index < self.cfg.trials(self.phase) {
                Some(self.plan())
            } else {
                None
            },
    {
        if self.trial_index < self.trials() {
            let base: u64 = match self.phase {
                SearchPhase::Baseline => self.cfg.base_sim_config.seed,
                SearchPhase::Candidate => self.cfg.base_sim_config.seed,
                SearchPhase::Holdout => self.cfg.base_sim_config.seed ^ HOLDOUT_MASK,
                SearchPhase::Done => self.cfg.base_sim_config.seed ^ HOLDOUT_MASK,
            };
            Some(
                TrialPlan {
                    phase: to_failure_phase(self.phase),
                    policy_index: self.evaluations.len(),
                    trial_index: self.trial_index,
                    seeds: rollout_seeds(base, self.trial_index),
                },
            )
        } else {
            None
        }
    }

    /// The script of the table that is being evaluated, unless it is empty.
    pub fn script(&self) -> (script: Option<DecisionScript>)
        requires
            self.wf(),
        ensures
            is_script_of(self.current@, script),
    {
        let script = self.current.to_decision_script();
        if script.is_empty() {
            None
        } else {
            Some(script)
        }
    }

    /// Takes in what came of the trial that came next.
    pub fn record_trial(&mut self, trace: Trace, outcome: RolloutOutcome<S>)
        requires
            old(self).wf(),
            old(self).trial_index < old(self).cfg.trials(old(self).phase),
            forall|i: int|
                0 <= i < trace@.events.len() ==> crate::explore::schedule_explore::names_its_choice(
                    #[trigger] trace@.events[i],
                ),
        ensures
            final(self).wf(),
            old(self).takes_in(*final(self), trace, outcome),
    {
        let search = matches!(self.phase, SearchPhase::Baseline | SearchPhase::Candidate);
        if search {
            proof {
                observed_keys_are_known(
                    crate::explore::policy::key_views(self.observed_keys@),
                    crate::explore::schedule_explore::decisions_of(trace@.events),
                );
            }
            observe_keys(&mut self.observed_keys, &trace);
        }
        let (hit_bad, status, panic_message) = match outcome {
            RolloutOutcome::Finished { status, hit_bad } => (hit_bad, Some(status), None),
            RolloutOutcome::Panicked { message } => (true, None, Some(message)),
        };
        if hit_bad {
            if self.failures.len() < self.cfg.max_failure_traces {
                let policy_index: usize = self.evaluations.len();
                self.failures.push(
                    PolicySearchFailure {
                        phase: to_failure_phase(self.phase),
                        policy_index,
                        trial_index: self.trial_index,
                        trace,
                        status,
                        panic_message,
                    },
                );
            }
            self.successes = self.successes + 1;
        }
        self.trial_index = self.trial_index + 1;
    }

    /// Ends the current evaluation and starts the next one.
    ///
    /// During the search, a changed table that did better becomes the best one. As
    /// long as there are tables to evaluate and decisions to change, the best table is
    /// changed. Then it is evaluated at the end.
    pub fn finish_evaluation(&mut self, improved: bool)
        requires
            old(self).wf(),
            old(self).phase != SearchPhase::Done,
            old(self).trial_index == old(self).cfg.trials(old(self).phase),
        ensures
            final(self).wf(),
            final(self).evaluations_left() < old(self).evaluations_left(),
            old(self).goes_on(*final(self), improved),
    {
        match self.phase {
            SearchPhase::Holdout => {
                self.phase = SearchPhase::Done;
                return ;
            },
            SearchPhase::Candidate => {
                if improved {
                    self.best_policy = self.current.copied();
                    self.best_evaluation = self.evaluations.len();
                }
            },
            _ => {},
        }
        let policy_index: usize = self.evaluations.len();
        self.evaluations.push(
            PolicyEvaluationSummary {
                policy_index,
                successes: self.successes,
                trials: self.trial_index,
            },
        );
        self.trial_index = 0;
        self.successes = 0;
        let next = if self.evaluations.len() <= self.cfg.budget_policies {
            mutate_one(&self.best_policy, &self.observed_keys, &mut self.mutation_rng)
        } else {
            None
        };
        match next {
            Some(candidate) => {
                self.current = candidate;
                self.phase = SearchPhase::Candidate;
            },
            None => {
                self.current = self.best_policy.copied();
                self.phase = SearchPhase::Holdout;
            },
        }
    }

    /// What a search that is over has found.
    pub fn into_report(self) -> (report: PolicySearchReport<S>)
        requires
            self.phase == SearchPhase::Done,
        ensures
            is_report(report, self),
    {
        PolicySearchReport {
            best_policy: self.best_policy,
            evaluations: self.evaluations,
            holdout: TrialCounts { trials: self.trial_index, successes: self.successes },
            failures: self.failures,
            observed_keys: self.observed_keys,
        }
    }
}

/// Whether a trial can come to this, when it is made as a search says: with the script
/// of the table that is being evaluated, on the seeds of the trial that comes next.
pub open spec fn trial_yields<
    S,
    F: Fn(Option<DecisionScript>, TrialPlan) -> Result<(Trace, RolloutOutcome<S>), HarnessError>,
>(
    trial: F,
    search: PolicySearch<S>,
    yielded: Result<(Trace, RolloutOutcome<S>), HarnessError>,
) -> bool {
    exists|script: Option<DecisionScript>|
        {
            &&& is_script_of(search.current@, script)
            &&& #[trigger] call_ensures(trial, (script, search.plan()), yielded)
        }
}

/// Whether one step can lead from one state of a search to another: a trial is made as
/// long as the current evaluation has not had all of its trials, and the evaluation is
/// ended then. Whether a changed table did better is asked of `better`, which is given
/// the number of failures under it and under the best table so far.
pub open spec fn search_step<
    S,
    F: Fn(Option<DecisionScript>, TrialPlan) -> Result<(Trace, RolloutOutcome<S>), HarnessError>,
    B: Fn(u64, u64) -> bool,
>(trial: F, better: B, before: PolicySearch<S>, after: PolicySearch<S>) -> bool {
    if before.trial_index < before.cfg.trials(before.phase) {
        exists|trace: Trace, outcome: RolloutOutcome<S>|
            {
                &&& trial_yields(trial, before, Ok((trace, outcome)))
                &&& #[trigger] before.takes_in(after, trace, outcome)
            }
    } else {
        exists|improved: bool|
            {
                &&& before.phase == SearchPhase::Candidate ==> call_ensures(
                    better,
                    (
                        before.successes,
                        before.evaluations@[before.best_evaluation as int].successes,
                    ),
                    improved,
                )
                &&& #[trigger] before.goes_on(after, improved)
            }
    }
}

/// Whether a sequence of states is a search from its start, with an end that need not
/// be that of the search.
pub open spec fn is_search<
    S,
    F: Fn(Option<DecisionScript>, TrialPlan) -> Result<(Trace, RolloutOutcome<S>), HarnessError>,
    B: Fn(u64, u64) -> bool,
>(trial: F, better: B, cfg: PolicySearchConfig, states: Seq<PolicySearch<S>>) -> bool {
    &&& states.len() > 0
    &&& states[0].is_start(cfg)
    &&& forall|i: int|
        0 <= i < states.len() - 1 ==> (#[trigger] states[i]).phase != SearchPhase::Done
            && search_step(trial, better, states[i], states[i + 1])
}

/// What a search that is over has found.
pub open spec fn is_report<S>(report: PolicySearchReport<S>, search: PolicySearch<S>) -> bool {
    &&& report.best_policy == search.best_policy
    &&& report.evaluations == search.evaluations
    &&& report.holdout == (TrialCounts { trials: search.trial_index, successes: search.successes })
    &&& report.failures == search.failures
    &&& report.observed_keys == search.observed_keys
}

/// Searches for a table of choices under which a property fails often. The first error
/// of a trial ends the search.
pub fn search_policy<
    S,
    F: Fn(Option<DecisionScript>, TrialPlan) -> Result<(Trace, RolloutOutcome<S>), HarnessError>,
    B: Fn(u64, u64) -> bool,
>(cfg: PolicySearchConfig, trial: F, better: B) -> (report: Result<
    PolicySearchReport<S>,
    PolicySearchError,
>)
    requires
        forall|script: Option<DecisionScript>, plan: TrialPlan|
            call_requires(trial, (script, plan)),
        forall|
            script: Option<DecisionScript>,
            plan: TrialPlan,
            trace: Trace,
            outcome: RolloutOutcome<S>,
            i: int,
        |
            {
                &&& #[trigger] call_ensures(trial, (script, plan), Ok((trace, outcome)))
                &&& 0 <= i < trace@.events.len()
            } ==> crate::explore::schedule_explore::names_its_choice(#[trigger] trace@.events[i]),
        forall|successes: u64, best: u64| call_requires(better, (successes, best)),
    ensures
        cfg.trials_per_policy == 0 ==> report is Err && report->Err_0
            == PolicySearchError::ZeroTrialsPerPolicy,
        cfg.trials_per_policy > 0 && cfg.holdout_trials == 0 ==> report is Err && report->Err_0
            == PolicySearchError::ZeroHoldoutTrials,
        cfg.trials_per_policy > 0 && cfg.holdout_trials > 0 ==> exists|
            states: Seq<PolicySearch<S>>,
        |
            {
                &&& #[trigger] is_search(trial, better, cfg, states)
                &&& match report {
                    Ok(report) => states.last().phase == SearchPhase::Done && is_report(
                        report,
                        states.last(),
                    ),
                    Err(PolicySearchError::Harness(e)) => {
                        &&& states.last().trial_index < cfg.trials(states.last().phase)
                        &&& trial_yields(trial, states.last(), Err(e))
                    },
                    Err(_) => false,
                }
            },
{
    let ghost given = cfg;
    let mut search: PolicySearch<S> = match PolicySearch::start(cfg) {
        Ok(search) => search,
        Err(e) => {
            return Err(e);
        },
    };
    let ghost mut states: Seq<PolicySearch<S>> = seq![search];
    while !matches!(search.phase, SearchPhase::Done)
        invariant
            given == cfg,
            cfg.trials_per_policy > 0,
            cfg.holdout_trials > 0,
            forall|script: Option<DecisionScript>, plan: TrialPlan|
                call_requires(trial, (script, plan)),
            forall|
                script: Option<DecisionScript>,
                plan: TrialPlan,
                trace: Trace,
                outcome: RolloutOutcome<S>,
                i: int,
            |
                {
                    &&& #[trigger] call_ensures(trial, (script, plan), Ok((trace, outcome)))
                    &&& 0 <= i < trace@.events.len()
                } ==> crate::explore::schedule_explore::names_its_choice(
                    #[trigger] trace@.events[i],
                ),
            forall|successes: u64, best: u64| call_requires(better, (successes, best)),
            search.wf(),
            search.cfg == given,
            is_search(trial, better, given, states),
            states.last() == search,
        decreases search.evaluations_left(), search.cfg.trials(search.phase) - search.trial_index,
    {
        let ghost before = search;
        match search.next_trial() {
            Some(plan) => {
                let script = search.script();
                let yielded = trial(script, plan);
                proof {
                    assert(trial_yields(trial, before, yielded));
                }
                match yielded {
                    Err(e) => {
                        return Err(PolicySearchError::Harness(e));
                    },
                    Ok((trace, outcome)) => {
                        search.record_trial(trace, outcome);
                        proof {
                            assert(before.takes_in(search, trace, outcome));
                        }
                    },
                }
            },
            None => {
                let improved: bool = if matches!(search.phase, SearchPhase::Candidate) {
                    better(search.successes, search.evaluations[search.best_evaluation].successes)
                } else {
                    true
                };
                search.finish_evaluation(improved);
                proof {
                    assert(before.goes_on(search, improved));
                }
            },
        }
        proof {
            assert(search_step(trial, better, before, search));
            let longer = states.push(search);
            assert forall|i: int| 0 <= i < longer.len() - 1 implies (#[trigger] longer[i]).phase
                != SearchPhase::Done && search_step(trial, better, longer[i], longer[i + 1]) by {
                assert(longer[i] == states[i]);
                if i < states.len() - 1 {
                    assert(longer[i + 1] == states[i + 1]);
                }
            }
            states = longer;
        }
    }
    proof {
        assert(is_search(trial, better, cfg, states));
    }
    Ok(search.into_report())
}

/// Every table is evaluated on the seeds of the others, and the best one at the end on
/// others.
pub proof fn holdout_seeds_are_fresh(cfg: PolicySearchConfig, i: u64)
    ensures
        ({
            let search = crate::explore::seeds::seeds_of_rollout(
                cfg.seed_base(SearchPhase::Candidate),
                i,
            );
            let holdout = crate::explore::seeds::seeds_of_rollout(
                cfg.seed_base(SearchPhase::Holdout),
                i,
            );
            &&& crate::explore::seeds::seeds_of_rollout(cfg.seed_base(SearchPhase::Baseline), i)
                == search
            &&& search.model_seed != holdout.model_seed
            &&& search.frontier_seed != holdout.frontier_seed
            &&& search.ready_seed != holdout.ready_seed
        }),
{
    let s = cfg.base_sim_config.seed;
    let h = s ^ HOLDOUT_MASK;
    assert(s ^ 0xC0FF_EE00_C0FF_EE00u64 != s) by (bit_vector);
    crate::explore::seeds::rollout_seeds_follow_their_base(s, h, i);
}

} // verus!
