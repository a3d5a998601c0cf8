//! What whole studies tell: how particles go on, what is counted, and what is kept.

use crate::explore::estimate::{
    ParticleOutcome, ParticleView, SplittingCounts,
};
use crate::explore::harness::HarnessError;
use crate::explore::policy_search::{
    FailurePhase, PolicyEvaluationSummary, PolicySearch, PolicySearchConfig, PolicySearchReport,
    RolloutOutcome, SearchPhase, TrialPlan,
};
use crate::explore::schedule_explore::{
    DecisionKeyView, DecisionScript, ObservedDecisionView,
};
use crate::explore::splitting::{SplitOutcome, SplittingConfig};
use crate::explore::trace::{Trace, TraceView};
use vstd::prelude::*;

verus! {

/// A particle goes on from the successful run whose number is what is left of the number
/// drawn for it when that is divided by the number of successful runs. So every successful
/// run can be gone on from, and is by every particle whose number says so.
pub proof fn every_success_can_go_on(
    successful: Seq<TraceView>,
    count: nat,
    seed: u64,
    level: usize,
    j: int,
    drawn: u64,
    k: int,
)
    requires
        0 <= j < count,
        0 <= k < successful.len(),
        drawn == crate::explore::seeds::derived_seed(seed ^ (level as u64), j as u64),
        (drawn as usize) as int % (successful.len() as int) == k,
    ensures
        crate::explore::estimate::resampled(successful, count, seed, level)[j].prefix == Some(
            successful[k],
        ),
        crate::explore::estimate::resampled(successful, count, seed, level).len() == count,
{
}

/// Two particles of a stage go on from the same run exactly if their numbers leave the same
/// remainder.
pub proof fn particles_are_told_apart_by_their_numbers(
    seed: u64,
    level: usize,
    i: int,
    j: int,
    successes: nat,
)
    requires
        successes > 0,
    ensures
        ({
            let a = crate::explore::seeds::derived_seed(seed ^ (level as u64), i as u64) as usize;
            let b = crate::explore::seeds::derived_seed(seed ^ (level as u64), j as u64) as usize;
            &&& crate::explore::estimate::picked(seed, level, i, successes)
                == crate::explore::estimate::picked(seed, level, j, successes) <==> a as int
                % successes as int == b as int % successes as int
            &&& 0 <= crate::explore::estimate::picked(seed, level, i, successes) < successes
            &&& a < successes ==> crate::explore::estimate::picked(seed, level, i, successes) == a
        }),
{
    let a = crate::explore::seeds::derived_seed(seed ^ (level as u64), i as u64) as usize;
    if a < successes {
        vstd::arithmetic::div_mod::lemma_small_mod(a as nat, successes);
    }
}

/// The number of trials in which it happened is that of the trials that say so.
pub proof fn hits_are_the_trials_that_say_so(outcomes: Seq<Result<bool, HarnessError>>)
    ensures
        crate::explore::estimate::hits(outcomes) == outcomes.filter(
            |o: Result<bool, HarnessError>| o is Ok && o->Ok_0,
        ).len(),
    decreases outcomes.len(),
{
    reveal(Seq::filter);
    if outcomes.len() > 0 {
        hits_are_the_trials_that_say_so(outcomes.drop_last());
    }
}

/// The runs that the next stage goes on from are those that have reached the level, in their
/// order; none is left out.
pub proof fn successes_are_the_particles_that_reach<S>(outcomes: Seq<ParticleOutcome<S>>)
    ensures
        crate::explore::estimate::successful_prefixes(outcomes) == outcomes.filter(
            |o: ParticleOutcome<S>| o.prefix is Some,
        ).map_values(|o: ParticleOutcome<S>| o.prefix->0),
        forall|i: int|
            0 <= i < outcomes.len() && (#[trigger] outcomes[i]).prefix is Some
                ==> crate::explore::estimate::successful_prefixes(outcomes).contains(
                outcomes[i].prefix->0,
            ),
    decreases outcomes.len(),
{
    reveal(Seq::filter);
    let reached = |o: ParticleOutcome<S>| o.prefix is Some;
    let prefix = |o: ParticleOutcome<S>| o.prefix->0;
    let all = crate::explore::estimate::successful_prefixes(outcomes);
    if outcomes.len() > 0 {
        let rest = outcomes.drop_last();
        successes_are_the_particles_that_reach(rest);
        let front = crate::explore::estimate::successful_prefixes(rest);
        assert forall|i: int|
            0 <= i < outcomes.len() && (#[trigger] outcomes[i]).prefix is Some implies all.contains(
            outcomes[i].prefix->0,
        ) by {
            if i < rest.len() {
                assert(rest[i] == outcomes[i]);
                let k = choose|k: int| 0 <= k < front.len() && front[k] == outcomes[i].prefix->0;
                assert(all[k] == outcomes[i].prefix->0);
            } else {
                assert(all[all.len() - 1] == outcomes[i].prefix->0);
            }
        }
    }
    assert(all =~= outcomes.filter(reached).map_values(prefix));
}

/// The last stage counts the particles in which it happened.
pub proof fn terminal_particles_are_counted<S>(outcomes: Seq<ParticleOutcome<S>>)
    ensures
        crate::explore::estimate::terminal_count(outcomes) == outcomes.filter(
            |o: ParticleOutcome<S>| o.terminal is Some,
        ).len(),
    decreases outcomes.len(),
{
    reveal(Seq::filter);
    if outcomes.len() > 0 {
        terminal_particles_are_counted(outcomes.drop_last());
    }
}

/// The example of a stage is the first particle in which it happened, and there is none
/// exactly if it happened in none.
pub proof fn first_example_of_a_stage<S>(outcomes: Seq<ParticleOutcome<S>>)
    ensures
        crate::explore::estimate::first_terminal(outcomes) is None <==> forall|i: int|
            0 <= i < outcomes.len() ==> (#[trigger] outcomes[i]).terminal is None,
        crate::explore::estimate::first_terminal(outcomes) is Some ==> exists|i: int|
            {
                &&& 0 <= i < outcomes.len()
                &&& (#[trigger] outcomes[i]).terminal
                    == crate::explore::estimate::first_terminal(outcomes)
                &&& forall|k: int| 0 <= k < i ==> (#[trigger] outcomes[k]).terminal is None
            },
    decreases outcomes.len(),
{
    if outcomes.len() > 0 {
        let rest = outcomes.drop_last();
        first_example_of_a_stage(rest);
        assert forall|i: int| 0 <= i < rest.len() implies #[trigger] rest[i] == outcomes[i] by {}
        let last = outcomes[outcomes.len() - 1];
        if crate::explore::estimate::first_terminal(rest) is Some {
            let i = choose|i: int|
                {
                    &&& 0 <= i < rest.len()
                    &&& (#[trigger] rest[i]).terminal
                        == crate::explore::estimate::first_terminal(rest)
                    &&& forall|k: int| 0 <= k < i ==> (#[trigger] rest[k]).terminal is None
                };
            assert(outcomes[i].terminal is Some);
            assert forall|k: int| 0 <= k < i implies (#[trigger] outcomes[k]).terminal is None by {
                assert(rest[k].terminal is None);
            }
        } else {
            assert forall|k: int| 0 <= k < outcomes.len() - 1 implies (
            #[trigger] outcomes[k]).terminal is None by {
                assert(rest[k].terminal is None);
            }
            assert(last.terminal == crate::explore::estimate::first_terminal(outcomes));
        }
    }
}

/// An estimate shows an example exactly if it happened in some particle of some stage, and
/// then the one of the first such stage.
pub proof fn first_example_of_an_estimate<S>(stages: Seq<Seq<ParticleOutcome<S>>>)
    ensures
        crate::explore::estimate::first_example(stages) is None <==> forall|s: int, i: int|
            0 <= s < stages.len() && 0 <= i < stages[s].len() ==> (
            #[trigger] stages[s][i]).terminal is None,
        crate::explore::estimate::first_example(stages) is Some ==> exists|s: int|
            {
                &&& 0 <= s < stages.len()
                &&& crate::explore::estimate::first_terminal(#[trigger] stages[s])
                    == crate::explore::estimate::first_example(stages)
                &&& forall|k: int|
                    0 <= k < s ==> crate::explore::estimate::first_terminal(
                        #[trigger] stages[k],
                    ) is None
            },
    decreases stages.len(),
{
    if stages.len() > 0 {
        let rest = stages.drop_last();
        first_example_of_an_estimate(rest);
        assert forall|s: int| 0 <= s < rest.len() implies #[trigger] rest[s] == stages[s] by {}
        let last = stages.len() - 1;
        first_example_of_a_stage(stages[last]);
        let found = crate::explore::estimate::first_example(rest);
        if found is Some {
            let s = choose|s: int|
                {
                    &&& 0 <= s < rest.len()
                    &&& crate::explore::estimate::first_terminal(#[trigger] rest[s]) == found
                    &&& forall|k: int|
                        0 <= k < s ==> crate::explore::estimate::first_terminal(
                            #[trigger] rest[k],
                        ) is None
                };
            assert(crate::explore::estimate::first_terminal(stages[s]) == found);
            assert forall|k: int| 0 <= k < s implies crate::explore::estimate::first_terminal(
                #[trigger] stages[k],
            ) is None by {
                assert(crate::explore::estimate::first_terminal(rest[k]) is None);
            }
            first_example_of_a_stage(stages[s]);
            let i = choose|i: int|
                0 <= i < stages[s].len() && (#[trigger] stages[s][i]).terminal == found;
            assert(stages[s][i].terminal is Some);
        } else {
            assert forall|k: int| 0 <= k < last implies crate::explore::estimate::first_terminal(
                #[trigger] stages[k],
            ) is None by {
                first_example_of_a_stage(rest[k]);
                assert forall|i: int| 0 <= i < rest[k].len() implies (
                #[trigger] rest[k][i]).terminal is None by {}
            }
            if crate::explore::estimate::first_terminal(stages[last]) is Some {
                let i = choose|i: int|
                    0 <= i < stages[last].len() && (#[trigger] stages[last][i]).terminal
                        == crate::explore::estimate::first_terminal(stages[last]);
                assert(stages[last][i].terminal is Some);
                assert(crate::explore::estimate::first_terminal(stages[last])
                    == crate::explore::estimate::first_example(stages));
            } else {
                assert forall|s: int, i: int|
                    0 <= s < stages.len() && 0 <= i < stages[s].len() implies (
                #[trigger] stages[s][i]).terminal is None by {
                    if s < last {
                        assert(rest[s][i].terminal is None);
                    }
                }
            }
        }
    }
}

/// What an estimate by splitting has counted: at each level the particles that have reached
/// it, and at the end those in which it happened.
pub proof fn estimate_counts_the_successes<S>(
    counts: SplittingCounts<S>,
    levels: usize,
    count: usize,
    stages: Seq<Seq<ParticleOutcome<S>>>,
    i: int,
)
    requires
        crate::explore::estimate::are_counts(counts, levels, count, stages),
        0 <= i < stages.len(),
    ensures
        counts.particles == count,
        counts.stage_successes@.len() == stages.len(),
        i < levels ==> counts.stage_successes@[i] == stages[i].filter(
            |o: ParticleOutcome<S>| o.prefix is Some,
        ).len(),
        i >= levels ==> counts.stage_successes@[i] == stages[i].filter(
            |o: ParticleOutcome<S>| o.terminal is Some,
        ).len(),
        counts.example is Some <==> exists|s: int, k: int|
            0 <= s < stages.len() && 0 <= k < stages[s].len() && (
            #[trigger] stages[s][k]).terminal is Some,
{
    successes_are_the_particles_that_reach(stages[i]);
    terminal_particles_are_counted(stages[i]);
    first_example_of_an_estimate(stages);
}

/// The particles of the first stage start from nothing, and those of a later one from the
/// successes of the stage before. There are as many in every stage.
pub proof fn stages_go_on_from_the_stage_before<S>(
    stages: Seq<Seq<ParticleOutcome<S>>>,
    stage: int,
    count: usize,
    seed: u64,
    j: int,
)
    requires
        0 <= stage <= stages.len(),
        0 <= j < count,
        stage > 0 ==> exists|i: int|
            0 <= i < stages[stage - 1].len() && (#[trigger] stages[stage - 1][i]).prefix is Some,
    ensures
        crate::explore::estimate::stage_particles(stages, stage, count, seed).len() == count,
        stage == 0 ==> crate::explore::estimate::stage_particles(
            stages,
            stage,
            count,
            seed,
        )[j].prefix is None,
        stage > 0 ==> exists|i: int|
            {
                &&& 0 <= i < stages[stage - 1].len()
                &&& (#[trigger] stages[stage - 1][i]).prefix is Some
                &&& crate::explore::estimate::stage_particles(stages, stage, count, seed)[j].prefix
                    == Some(stages[stage - 1][i].prefix->0@)
            },
{
    if stage > 0 {
        let before = stages[stage - 1];
        let level = (stage - 1) as usize;
        successes_are_the_particles_that_reach(before);
        let prefixes = crate::explore::estimate::successful_prefixes(before);
        let views = crate::explore::estimate::trace_views(prefixes);
        let w = choose|i: int| 0 <= i < before.len() && (#[trigger] before[i]).prefix is Some;
        assert(prefixes.contains(before[w].prefix->0));
        assert(views.len() == prefixes.len());
        let k = crate::explore::estimate::picked(seed, level, j, views.len());
        particles_are_told_apart_by_their_numbers(seed, level, j, j, views.len());
        assert(views[k] == prefixes[k]@);
        lemma_prefix_has_an_outcome(before, k);
        let i = choose|i: int|
            0 <= i < before.len() && (#[trigger] before[i]).prefix == Some(prefixes[k]);
        assert(stages[stage - 1][i].prefix is Some);
    }
}

proof fn lemma_prefix_has_an_outcome<S>(outcomes: Seq<ParticleOutcome<S>>, k: int)
    requires
        0 <= k < crate::explore::estimate::successful_prefixes(outcomes).len(),
    ensures
        exists|i: int|
            0 <= i < outcomes.len() && (#[trigger] outcomes[i]).prefix == Some(
                crate::explore::estimate::successful_prefixes(outcomes)[k],
            ),
    decreases outcomes.len(),
{
    let all = crate::explore::estimate::successful_prefixes(outcomes);
    if outcomes.len() > 0 {
        let rest = outcomes.drop_last();
        let front = crate::explore::estimate::successful_prefixes(rest);
        if k < front.len() {
            lemma_prefix_has_an_outcome(rest, k);
            let i = choose|i: int| 0 <= i < rest.len() && (#[trigger] rest[i]).prefix == Some(front[k]);
            assert(outcomes[i] == rest[i]);
        } else {
            assert(outcomes[outcomes.len() - 1].prefix == Some(all[k]));
        }
    }
}

/// The smaller of two numbers.
pub open spec fn at_most(a: nat, limit: nat) -> nat {
    if a <= limit {
        a
    } else {
        limit
    }
}

/// The next level has as many branches of each run that has reached the level as configured,
/// as far as there is room. Each of them goes on from such a run.
pub proof fn runs_that_reach_a_level_are_split<S>(
    cfg: SplittingConfig,
    level: int,
    particles: Seq<ParticleView>,
    outcomes: Seq<SplitOutcome<S>>,
)
    ensures
        ({
            let next = crate::explore::splitting::next_particles(cfg, level, particles, outcomes);
            let reached = outcomes.filter(|o: SplitOutcome<S>| o is Reached).len();
            &&& next.len() == at_most(
                reached * cfg.branch_factor as nat,
                cfg.max_particles_per_level as nat,
            )
            &&& forall|k: int|
                0 <= k < next.len() ==> exists|i: int|
                    {
                        &&& 0 <= i < outcomes.len()
                        &&& #[trigger] outcomes[i] matches SplitOutcome::Reached(prefix)
                        &&& (#[trigger] next[k]).prefix == Some(prefix@)
                    }
        }),
    decreases outcomes.len(),
{
    reveal(Seq::filter);
    let next = crate::explore::splitting::next_particles(cfg, level, particles, outcomes);
    let b = cfg.branch_factor as nat;
    let room = cfg.max_particles_per_level as nat;
    if outcomes.len() == 0 {
        assert(0 * b == 0) by (nonlinear_arith);
    } else {
        let rest = outcomes.drop_last();
        runs_that_reach_a_level_are_split(cfg, level, particles, rest);
        let front = crate::explore::splitting::next_particles(cfg, level, particles, rest);
        let n = rest.filter(|o: SplitOutcome<S>| o is Reached).len();
        assert((n + 1) * b == n * b + b) by (nonlinear_arith);
        let last = outcomes.len() - 1;
        if let SplitOutcome::Reached(prefix) = outcomes[last] {
            crate::explore::splitting::branches_have_room(
                front,
                prefix@,
                particles[last].seed,
                cfg.levels@[level],
                last as usize,
                b,
                room,
            );
        }
        assert forall|k: int| 0 <= k < next.len() implies exists|i: int|
            {
                &&& 0 <= i < outcomes.len()
                &&& #[trigger] outcomes[i] matches SplitOutcome::Reached(prefix)
                &&& (#[trigger] next[k]).prefix == Some(prefix@)
            } by {
            if k < front.len() {
                assert(next[k] == front[k]);
                let i = choose|i: int|
                    {
                        &&& 0 <= i < rest.len()
                        &&& #[trigger] rest[i] matches SplitOutcome::Reached(prefix)
                        &&& front[k].prefix == Some(prefix@)
                    };
                assert(outcomes[i] == rest[i]);
                assert(outcomes[i] is Reached);
            } else {
                assert(outcomes[last] is Reached);
            }
        }
    }
}

/// Whether the property failed in a trial: where it says so, and where the trial panicked.
pub open spec fn trial_failed<S>(outcome: RolloutOutcome<S>) -> bool {
    match outcome {
        RolloutOutcome::Finished { status, hit_bad } => hit_bad,
        RolloutOutcome::Panicked { message } => true,
    }
}

/// A trial in which the property failed is kept with all that is known of it, whatever is
/// being evaluated, as long as there is room. Any other trial is not.
pub proof fn failed_trials_are_kept<S>(
    before: PolicySearch<S>,
    after: PolicySearch<S>,
    trace: Trace,
    outcome: RolloutOutcome<S>,
)
    requires
        before.takes_in(after, trace, outcome),
    ensures
        ({
            let n = before.failures@.len();
            let kept = trial_failed(outcome) && n < before.cfg.max_failure_traces;
            &&& !kept ==> after.failures@ == before.failures@
            &&& kept ==> {
                let f = after.failures@[n as int];
                &&& after.failures@.len() == n + 1
                &&& before.failures@.is_prefix_of(after.failures@)
                &&& f.trace == trace
                &&& f.policy_index == before.evaluations@.len() as usize
                &&& f.trial_index == before.trial_index
                &&& f.phase == (if before.phase == SearchPhase::Baseline || before.phase
                    == SearchPhase::Candidate {
                    FailurePhase::Search
                } else {
                    FailurePhase::Holdout
                })
                &&& match outcome {
                    RolloutOutcome::Finished { status, hit_bad } => f.status == Some(status)
                        && f.panic_message is None,
                    RolloutOutcome::Panicked { message } => f.status is None && f.panic_message
                        == Some(message),
                }
            }
            &&& after.successes == before.successes + if trial_failed(outcome) {
                1int
            } else {
                0
            }
            &&& after.trial_index == before.trial_index + 1
            &&& after.evaluations == before.evaluations
            &&& after.best_policy == before.best_policy
            &&& after.current == before.current
        }),
{
    let (a, b) = (before.failures@, after.failures@);
    if trial_failed(outcome) && a.len() < before.cfg.max_failure_traces {
        assert(a =~= b.subrange(0, a.len() as int));
    }
}

/// In how many trials of some evaluations the property failed.
pub open spec fn failed_in(evaluations: Seq<PolicyEvaluationSummary>) -> nat
    decreases evaluations.len(),
{
    if evaluations.len() == 0 {
        0
    } else {
        failed_in(evaluations.drop_last()) + evaluations.last().successes as nat
    }
}

/// What a search keeps count of at any time: of all failed trials as many are kept as there
/// is room for, every evaluation has had all of its trials, and no table did better than the
/// best one.
pub open spec fn search_in_order<S>(s: PolicySearch<S>, cfg: PolicySearchConfig) -> bool {
    &&& s.cfg == cfg
    &&& s.failures@.len() == at_most(
        failed_in(s.evaluations@) + s.successes as nat,
        cfg.max_failure_traces as nat,
    )
    &&& s.trial_index <= cfg.trials(s.phase)
    &&& s.successes <= s.trial_index
    &&& s.phase == SearchPhase::Done ==> s.trial_index == cfg.holdout_trials
    &&& s.phase == SearchPhase::Baseline <==> s.evaluations@.len() == 0
    &&& s.evaluations@.len() > 0 ==> s.best_evaluation < s.evaluations@.len()
    &&& s.evaluations@.len() == 0 ==> s.best_evaluation == 0
    &&& s.evaluations@.len() <= cfg.budget_policies + 1
    &&& s.phase == SearchPhase::Candidate ==> s.evaluations@.len() <= cfg.budget_policies
    &&& forall|i: int|
        0 <= i < s.evaluations@.len() ==> {
            &&& (#[trigger] s.evaluations@[i]).trials == cfg.trials_per_policy
            &&& s.evaluations@[i].policy_index == i
            &&& s.evaluations@[i].successes <= cfg.trials_per_policy
        }
}

/// Whether the best table is one under which the property failed most often.
pub open spec fn best_is_best<S>(s: PolicySearch<S>) -> bool {
    forall|i: int|
        0 <= i < s.evaluations@.len() ==> (#[trigger] s.evaluations@[i]).successes
            <= s.evaluations@[s.best_evaluation as int].successes
}

proof fn lemma_search_step<
    S,
    F: Fn(Option<DecisionScript>, TrialPlan) -> Result<(Trace, RolloutOutcome<S>), HarnessError>,
    B: Fn(u64, u64) -> bool,
>(trial: F, better: B, cfg: PolicySearchConfig, before: PolicySearch<S>, after: PolicySearch<S>)
    requires
        search_in_order(before, cfg),
        before.phase != SearchPhase::Done,
        before.evaluations@.len() < usize::MAX,
        crate::explore::policy_search::search_step(trial, better, before, after),
    ensures
        search_in_order(after, cfg),
        (forall|x: u64, y: u64, b: bool|
            #[trigger] call_ensures(better, (x, y), b) ==> b == (x > y)) && best_is_best(before)
            ==> best_is_best(after),
{
    if before.trial_index < before.cfg.trials(before.phase) {
        let (trace, outcome) = choose|trace: Trace, outcome: RolloutOutcome<S>|
            {
                &&& crate::explore::policy_search::trial_yields(
                    trial,
                    before,
                    Ok((trace, outcome)),
                )
                &&& #[trigger] before.takes_in(after, trace, outcome)
            };
        failed_trials_are_kept(before, after, trace, outcome);
    } else {
        let improved = choose|improved: bool|
            {
                &&& before.phase == SearchPhase::Candidate ==> call_ensures(
                    better,
                    (
                        before.successes,
                        before.evaluations@[before.best_evaluation as int].successes,
                    ),
                    improved,
                )
                &&& #[trigger] before.goes_on(after, improved)
            };
        if before.phase != SearchPhase::Holdout {
            let (a, b) = (before.evaluations@, after.evaluations@);
            assert(b.drop_last() =~= a);
            assert(b.last().successes == before.successes);
            assert(b[a.len() as int].successes == before.successes);
            assert forall|i: int| 0 <= i < b.len() implies {
                &&& (#[trigger] b[i]).trials == cfg.trials_per_policy
                &&& b[i].policy_index == i
                &&& b[i].successes <= cfg.trials_per_policy
            } by {
                if i < a.len() {
                    assert(b[i] == a[i]);
                }
            }
            if best_is_best(before) && (forall|x: u64, y: u64, c: bool|
                #[trigger] call_ensures(better, (x, y), c) ==> c == (x > y)) {
                assert forall|i: int| 0 <= i < b.len() implies (#[trigger] b[i]).successes
                    <= b[after.best_evaluation as int].successes by {
                    if a.len() > 0 {
                        assert(b[before.best_evaluation as int]
                            == a[before.best_evaluation as int]);
                    }
                    if i < a.len() {
                        assert(b[i] == a[i]);
                    }
                }
            }
        }
    }
}

proof fn lemma_search<
    S,
    F: Fn(Option<DecisionScript>, TrialPlan) -> Result<(Trace, RolloutOutcome<S>), HarnessError>,
    B: Fn(u64, u64) -> bool,
>(trial: F, better: B, cfg: PolicySearchConfig, states: Seq<PolicySearch<S>>, i: int)
    requires
        cfg.budget_policies < usize::MAX - 1,
        crate::explore::policy_search::is_search(trial, better, cfg, states),
        0 <= i < states.len(),
    ensures
        search_in_order(states[i], cfg),
        (forall|x: u64, y: u64, b: bool|
            #[trigger] call_ensures(better, (x, y), b) ==> b == (x > y)) ==> best_is_best(states[i]),
    decreases i,
{
    if i > 0 {
        lemma_search(trial, better, cfg, states, i - 1);
        let before = states[i - 1];
        assert(before.phase != SearchPhase::Done && crate::explore::policy_search::search_step(
            trial,
            better,
            before,
            states[i - 1 + 1],
        ));
        lemma_search_step(trial, better, cfg, before, states[i]);
    }
}

/// A search keeps as many failed trials as there is room for, those of the evaluation at the
/// end included. Every table has had as many trials as configured, and so has the best one
/// at the end. There are no more tables than configured, besides the empty one.
pub proof fn report_accounts_for_every_trial<
    S,
    F: Fn(Option<DecisionScript>, TrialPlan) -> Result<(Trace, RolloutOutcome<S>), HarnessError>,
    B: Fn(u64, u64) -> bool,
>(
    trial: F,
    better: B,
    cfg: PolicySearchConfig,
    states: Seq<PolicySearch<S>>,
    report: PolicySearchReport<S>,
)
    requires
        cfg.budget_policies < usize::MAX - 1,
        crate::explore::policy_search::is_search(trial, better, cfg, states),
        states.last().phase == SearchPhase::Done,
        crate::explore::policy_search::is_report(report, states.last()),
    ensures
        report.failures@.len() == at_most(
            failed_in(report.evaluations@) + report.holdout.successes as nat,
            cfg.max_failure_traces as nat,
        ),
        report.holdout.trials == cfg.holdout_trials,
        report.holdout.successes <= report.holdout.trials,
        1 <= report.evaluations@.len() <= cfg.budget_policies + 1,
        forall|i: int|
            0 <= i < report.evaluations@.len() ==> {
                &&& (#[trigger] report.evaluations@[i]).trials == cfg.trials_per_policy
                &&& report.evaluations@[i].policy_index == i
                &&& report.evaluations@[i].successes <= cfg.trials_per_policy
            },
{
    lemma_search(trial, better, cfg, states, states.len() - 1);
}

/// Where the table with more failures counts as the better one, the search ends with one
/// under which the property failed most often.
pub proof fn best_table_did_best<
    S,
    F: Fn(Option<DecisionScript>, TrialPlan) -> Result<(Trace, RolloutOutcome<S>), HarnessError>,
    B: Fn(u64, u64) -> bool,
>(trial: F, better: B, cfg: PolicySearchConfig, states: Seq<PolicySearch<S>>, i: int)
    requires
        cfg.budget_policies < usize::MAX - 1,
        crate::explore::policy_search::is_search(trial, better, cfg, states),
        forall|x: u64, y: u64, b: bool|
            #[trigger] call_ensures(better, (x, y), b) ==> b == (x > y),
        0 <= i < states.last().evaluations@.len(),
    ensures
        states.last().best_evaluation < states.last().evaluations@.len(),
        states.last().evaluations@[i].successes <= states.last().evaluations@[states.last().best_evaluation as int].successes,
{
    lemma_search(trial, better, cfg, states, states.len() - 1);
}

/// The best table changes only to one that was just evaluated and did better, and every
/// evaluation is listed with what came of it.
pub proof fn only_better_tables_become_the_best<S>(
    before: PolicySearch<S>,
    after: PolicySearch<S>,
    improved: bool,
)
    requires
        before.goes_on(after, improved),
    ensures
        before.phase == SearchPhase::Candidate && improved ==> after.best_policy@
            == before.current@,
        !(before.phase == SearchPhase::Candidate && improved) ==> after.best_policy@
            == before.best_policy@,
        before.phase == SearchPhase::Holdout ==> after.evaluations == before.evaluations,
        before.phase != SearchPhase::Holdout ==> {
            &&& after.evaluations@.len() == before.evaluations@.len() + 1
            &&& before.evaluations@.is_prefix_of(after.evaluations@)
            &&& after.evaluations@.last().successes == before.successes
            &&& after.evaluations@.last().trials == before.trial_index
            &&& after.trial_index == 0
            &&& after.successes == 0
            &&& after.phase == SearchPhase::Holdout ==> after.current@ == after.best_policy@
            &&& after.phase == SearchPhase::Candidate || after.phase == SearchPhase::Holdout
        },
        after.failures == before.failures,
        after.observed_keys == before.observed_keys,
{
    let (a, b) = (before.evaluations@, after.evaluations@);
    if before.phase != SearchPhase::Holdout {
        assert(a =~= b.subrange(0, a.len() as int));
    }
}

/// Tables are compared on the same trials: whichever of them is evaluated, the trial with a
/// number has the same seeds, until the best one is evaluated at the end.
pub proof fn tables_are_compared_on_the_same_trials<S>(a: PolicySearch<S>, b: PolicySearch<S>)
    requires
        a.cfg == b.cfg,
        a.phase == SearchPhase::Baseline || a.phase == SearchPhase::Candidate,
        b.phase == SearchPhase::Baseline || b.phase == SearchPhase::Candidate,
        a.trial_index == b.trial_index,
    ensures
        a.plan().seeds == b.plan().seeds,
        a.plan().seeds == crate::explore::seeds::seeds_of_rollout(
            a.cfg.base_sim_config.seed,
            a.trial_index,
        ),
        a.plan().trial_index == a.trial_index,
        a.plan().policy_index == a.evaluations@.len() as usize,
        a.plan().phase == FailurePhase::Search,
        a.cfg.trials(a.phase) == a.cfg.trials_per_policy,
        a.cfg.trials(SearchPhase::Holdout) == a.cfg.holdout_trials,
{
}

/// What a trial shows of decisions is known afterwards, unless it is one of those at the
/// end; what was known stays known.
pub proof fn trials_make_decisions_known<S>(
    before: PolicySearch<S>,
    after: PolicySearch<S>,
    trace: Trace,
    outcome: RolloutOutcome<S>,
    i: int,
)
    requires
        before.takes_in(after, trace, outcome),
    ensures
        ({
            let known = crate::explore::policy::key_views(before.observed_keys@);
            let now = crate::explore::policy::key_views(after.observed_keys@);
            let found = crate::explore::schedule_explore::decisions_of(trace@.events);
            &&& before.phase == SearchPhase::Holdout ==> now == known
            &&& before.phase != SearchPhase::Holdout && 0 <= i < found.len() ==> now.contains(
                found[i].key,
            )
            &&& 0 <= i < known.len() ==> now.contains(known[i])
        }),
{
    let known = crate::explore::policy::key_views(before.observed_keys@);
    let now = crate::explore::policy::key_views(after.observed_keys@);
    let found = crate::explore::schedule_explore::decisions_of(trace@.events);
    crate::explore::policy_search::observed_keys_are_known(known, found);
    if 0 <= i < known.len() {
        assert(known.contains(known[i]));
        assert(now.contains(known[i]));
    }
    if before.phase != SearchPhase::Holdout && 0 <= i < found.len() {
        assert(found[i].key == found[i].key);
        assert(now.contains(found[i].key));
    }
}

/// Every trial of an estimate has a seed of its own, which follows from the seed of the
/// estimate and the number of the trial.
pub proof fn trials_have_seeds_of_their_own<F: Fn(u64) -> Result<bool, HarnessError>>(
    trial: F,
    seed: u64,
    outcomes: Seq<Result<bool, HarnessError>>,
    i: int,
    j: int,
)
    requires
        crate::explore::estimate::are_outcomes(trial, seed, outcomes),
        0 <= i < j < outcomes.len(),
        outcomes.len() <= u64::MAX,
    ensures
        exists|a: u64, b: u64|
            {
                &&& a != b
                &&& #[trigger] call_ensures(trial, (a,), outcomes[i])
                &&& #[trigger] call_ensures(trial, (b,), outcomes[j])
                &&& a == crate::explore::seeds::derived_seed(seed, i as u64)
                &&& b == crate::explore::seeds::derived_seed(seed, j as u64)
            },
{
    crate::explore::seeds::derived_seeds_are_distinct(seed, i as u64, j as u64);
    let a = crate::explore::seeds::derived_seed(seed, i as u64);
    let b = crate::explore::seeds::derived_seed(seed, j as u64);
    assert(call_ensures(trial, (a,), outcomes[i]));
    assert(call_ensures(trial, (b,), outcomes[j]));
}

/// The particles of the first stage start from nothing, each with a seed of its own.
pub proof fn first_particles_have_seeds_of_their_own(count: nat, seed: u64, i: int, j: int)
    requires
        0 <= i < j < count,
        count <= u64::MAX,
    ensures
        ({
            let first = crate::explore::estimate::first_particles(count, seed);
            &&& first.len() == count
            &&& first[i].prefix is None && first[j].prefix is None
            &&& first[i].seed == crate::explore::seeds::derived_seed(seed, i as u64)
            &&& first[i].seed != first[j].seed
        }),
{
    crate::explore::seeds::derived_seeds_are_distinct(seed, i as u64, j as u64);
}

/// The branches of a run are seeded apart from those of a run with another seed, of another
/// run of the same level, and of the same run at another level.
pub proof fn branches_follow_their_run(
    a: u64,
    b: u64,
    level_a: u64,
    level_b: u64,
    p: usize,
    q: usize,
    i: int,
)
    ensures
        a != b ==> crate::explore::splitting::branch_seed(a, level_a, p, i)
            != crate::explore::splitting::branch_seed(b, level_a, p, i),
        p < 0x1_0000_0000 && q < 0x1_0000_0000 && p != q
            ==> crate::explore::splitting::branch_seed(a, level_a, p, i)
            != crate::explore::splitting::branch_seed(a, level_a, q, i),
        level_a != level_b ==> crate::explore::splitting::branch_seed(a, level_a, p, i)
            != crate::explore::splitting::branch_seed(a, level_b, p, i),
{
    let x = level_a.wrapping_mul(0x9E37_79B9);
    let y = level_b.wrapping_mul(0x9E37_79B9);
    crate::ids::wrapping_product_is_undone(level_a, 0x9E37_79B9, 0xE85E_E980_144C_BC89);
    crate::ids::wrapping_product_is_undone(level_b, 0x9E37_79B9, 0xE85E_E980_144C_BC89);
    let (m, n) = (p as u64, q as u64);
    let z = (i as u64).wrapping_mul(0xD1B5_4A32_D192_ED03);
    assert(a != b ==> a ^ x ^ (m << 32u64) ^ z != b ^ x ^ (m << 32u64) ^ z) by (bit_vector);
    assert(m < 0x1_0000_0000 && n < 0x1_0000_0000 && m != n ==> a ^ x ^ (m << 32u64) ^ z != a ^ x
        ^ (n << 32u64) ^ z) by (bit_vector);
    assert(x != y ==> a ^ x ^ (m << 32u64) ^ z != a ^ y ^ (m << 32u64) ^ z) by (bit_vector);
}

/// A search by splitting starts with one run, from nothing and with the seed that it is given.
pub proof fn split_search_starts_with_one_run<S>(
    cfg: SplittingConfig,
    seed: u64,
    levels: Seq<Seq<SplitOutcome<S>>>,
)
    ensures
        crate::explore::splitting::level_particles(cfg, seed, levels, 0).len() == 1,
        crate::explore::splitting::level_particles(cfg, seed, levels, 0)[0].prefix is None,
        crate::explore::splitting::level_particles(cfg, seed, levels, 0)[0].seed == seed,
{
}

/// Runs that do not reach the level have no branches, and the branches of earlier runs come
/// first. The branches of a run are seeded by its seed, its level, its number and theirs.
pub proof fn branches_stand_in_the_order_of_their_runs<S>(
    cfg: SplittingConfig,
    level: int,
    particles: Seq<ParticleView>,
    outcomes: Seq<SplitOutcome<S>>,
    last: SplitOutcome<S>,
)
    ensures
        ({
            let before = crate::explore::splitting::next_particles(cfg, level, particles, outcomes);
            let after = crate::explore::splitting::next_particles(
                cfg,
                level,
                particles,
                outcomes.push(last),
            );
            &&& before.is_prefix_of(after)
            &&& !(last is Reached) ==> after == before
            &&& last matches SplitOutcome::Reached(prefix) ==> forall|k: int|
                before.len() <= k < after.len() ==> (#[trigger] after[k]).prefix == Some(prefix@)
                    && after[k].seed == crate::explore::splitting::branch_seed(
                    particles[outcomes.len() as int].seed,
                    cfg.levels@[level],
                    outcomes.len() as usize,
                    k - before.len(),
                )
        }),
{
    let before = crate::explore::splitting::next_particles(cfg, level, particles, outcomes);
    let after = crate::explore::splitting::next_particles(
        cfg,
        level,
        particles,
        outcomes.push(last),
    );
    assert(outcomes.push(last).drop_last() =~= outcomes);
    if let SplitOutcome::Reached(prefix) = last {
        let i = outcomes.len() as int;
        crate::explore::splitting::branches_have_room(
            before,
            prefix@,
            particles[i].seed,
            cfg.levels@[level],
            i as usize,
            cfg.branch_factor as nat,
            cfg.max_particles_per_level as nat,
        );
    }
    assert(before =~= after.subrange(0, before.len() as int));
}

/// What a search by splitting finds is the first that there is: no run before it, at its
/// level or at an earlier one, has found anything.
pub proof fn split_search_finds_the_first<
    S,
    F: Fn(&crate::explore::splitting::SplitParticle, usize) -> Result<SplitOutcome<S>, HarnessError>,
>(
    trial: F,
    cfg: SplittingConfig,
    seed: u64,
    levels: Seq<Seq<SplitOutcome<S>>>,
    outcomes: Seq<SplitOutcome<S>>,
    bug: crate::explore::splitting::FoundBug<S>,
    level: int,
    i: int,
)
    requires
        crate::explore::splitting::search_finds(trial, cfg, seed, levels, outcomes, bug),
    ensures
        levels.len() < cfg.levels@.len(),
        0 <= i < outcomes.len() ==> !(outcomes[i] is Found),
        0 <= level < levels.len() && 0 <= i < levels[level].len() ==> !(levels[level][i] is Found),
        0 <= level < levels.len() ==> levels[level].len()
            == crate::explore::splitting::level_particles(cfg, seed, levels, level).len(),
{
    if 0 <= level < levels.len() {
        assert(crate::explore::splitting::level_through(trial, cfg, seed, levels, level));
    }
}

/// A trial is run under the script of the table that is evaluated: it fixes what the table
/// fixes, and there is none where the table fixes nothing.
pub proof fn trials_run_under_the_current_table<
    S,
    F: Fn(Option<DecisionScript>, TrialPlan) -> Result<(Trace, RolloutOutcome<S>), HarnessError>,
>(
    trial: F,
    search: PolicySearch<S>,
    yielded: Result<(Trace, RolloutOutcome<S>), HarnessError>,
    key: DecisionKeyView,
)
    requires
        crate::explore::policy_search::trial_yields(trial, search, yielded),
        crate::explore::policy::table_script(search.current@).dom().finite(),
    ensures
        exists|script: Option<DecisionScript>|
            {
                let fixed = search.current@.contains_key(key)
                    && search.current@[key] is Deterministic;
                &&& #[trigger] call_ensures(trial, (script, search.plan()), yielded)
                &&& fixed ==> script is Some && (script->0)@.contains_key(key) && (script->0)@[key]
                    == search.current@[key]->chosen_id
                &&& !fixed && script is Some ==> !(script->0)@.contains_key(key)
            },
{
    let script = choose|script: Option<DecisionScript>|
        {
            &&& crate::explore::policy_search::is_script_of(search.current@, script)
            &&& #[trigger] call_ensures(trial, (script, search.plan()), yielded)
        };
    let fixed = crate::explore::policy::table_script(search.current@);
    if fixed.contains_key(key) && script is None {
        assert(fixed.dom().len() == 0);
        assert(fixed.dom() =~= Set::empty());
        assert(fixed.dom().contains(key));
    }
    assert(call_ensures(trial, (script, search.plan()), yielded));
}

/// The trials at the end have seeds of their own and are told apart from those of the search.
pub proof fn trials_at_the_end_are_told_apart<S>(search: PolicySearch<S>, end: PolicySearch<S>)
    requires
        search.cfg == end.cfg,
        search.phase == SearchPhase::Candidate,
        end.phase == SearchPhase::Holdout,
        search.trial_index == end.trial_index,
    ensures
        end.plan().phase == FailurePhase::Holdout,
        search.plan().phase == FailurePhase::Search,
        end.plan().trial_index == end.trial_index,
        end.plan().seeds.model_seed != search.plan().seeds.model_seed,
        end.plan().seeds.frontier_seed != search.plan().seeds.frontier_seed,
        end.plan().seeds.ready_seed != search.plan().seeds.ready_seed,
        end.summary().successes == end.successes,
        end.summary().trials == end.trial_index,
{
    crate::explore::policy_search::holdout_seeds_are_fresh(search.cfg, search.trial_index);
}

/// What is known comes first, and what is newly seen behind it in the order in which it was
/// seen, each once.
pub proof fn new_decisions_come_last(
    known: Seq<DecisionKeyView>,
    found: Seq<ObservedDecisionView>,
    last: ObservedDecisionView,
)
    ensures
        ({
            let before = crate::explore::policy_search::with_observed(known, found);
            let after = crate::explore::policy_search::with_observed(known, found.push(last));
            &&& crate::explore::policy_search::with_observed(known, Seq::empty()) == known
            &&& before.contains(last.key) ==> after == before
            &&& !before.contains(last.key) ==> after == before.push(last.key)
        }),
{
    assert(found.push(last).drop_last() =~= found);
}

/// A rollout goes on exactly as long as something is scheduled and its end is not reached.
pub proof fn rollout_ends_in_time<
    C: crate::component::Component<T, R>,
    T,
    R,
    Q,
>(sim: crate::simulation::Simulation<C, T, R, Q>, end_time: crate::time::SimTime)
    ensures
        crate::explore::rollout::goes_on(sim, end_time) ==> sim.scheduler@.now < end_time.0,
        sim.scheduler@.events.len() == 0 ==> !crate::explore::rollout::goes_on(sim, end_time),
        sim.scheduler@.now < end_time.0 && sim.scheduler@.popped().0 is Some
            ==> crate::explore::rollout::goes_on(sim, end_time),
{
    if sim.scheduler@.popped().0 is Some {
        crate::scheduler_effects::popping_keeps_the_other_events(
            sim.scheduler@,
            sim.scheduler@.popped().0->0,
        );
    }
}

/// Tables are tried until as many as configured were tried, besides the empty one, or until
/// there is nothing to change. Each next one is a change of the best one so far, by what is
/// known of decisions.
pub proof fn tables_are_tried_while_the_budget_lasts<S>(
    before: PolicySearch<S>,
    after: PolicySearch<S>,
    improved: bool,
)
    requires
        before.goes_on(after, improved),
        before.phase == SearchPhase::Baseline || before.phase == SearchPhase::Candidate,
    ensures
        ({
            let changed = crate::explore::mutation::mutated(
                after.best_policy@,
                crate::explore::policy::key_views(before.observed_keys@),
                before.mutation_rng,
            );
            let tried = after.evaluations@.len() - 1;
            &&& after.phase == SearchPhase::Candidate <==> tried < before.cfg.budget_policies
                && changed.0 is Some
            &&& after.phase == SearchPhase::Holdout <==> tried >= before.cfg.budget_policies
                || changed.0 is None
            &&& after.phase == SearchPhase::Candidate ==> after.current@ == changed.0->0
            &&& tried < before.cfg.budget_policies ==> after.mutation_rng == changed.1
            &&& tried >= before.cfg.budget_policies ==> after.mutation_rng == before.mutation_rng
        }),
{
}

} // verus!
