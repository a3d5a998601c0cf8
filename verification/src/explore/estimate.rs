//! Estimating how often something happens, by trials and by splitting.

use crate::explore::harness::HarnessError;
use crate::explore::policy_search::TrialCounts;
use crate::explore::seeds::derive_seed;
use crate::explore::trace::{Trace, TraceView};
use vstd::prelude::*;

verus! {

#[derive(Debug, Clone, Copy, PartialEq, Eq, Structural)]
pub enum EstimateError {
    Harness(HarnessError),
    ZeroTrials,
    ZeroParticles,
}

/// In how many trials it happened.
pub open spec fn hits(outcomes: Seq<Result<bool, HarnessError>>) -> nat
    decreases outcomes.len(),
{
    if outcomes.len() == 0 {
        0
    } else if outcomes.last() == Ok::<bool, HarnessError>(true) {
        hits(outcomes.drop_last()) + 1
    } else {
        hits(outcomes.drop_last())
    }
}

/// Whether these are outcomes of the first trials.
pub open spec fn are_outcomes<F: Fn(u64) -> Result<bool, HarnessError>>(
    trial: F,
    seed: u64,
    outcomes: Seq<Result<bool, HarnessError>>,
) -> bool {
    forall|i: int|
        0 <= i < outcomes.len() ==> call_ensures(
            trial,
            (crate::explore::seeds::derived_seed(seed, i as u64),),
            #[trigger] outcomes[i],
        )
}

proof fn lemma_hits_are_bounded(outcomes: Seq<Result<bool, HarnessError>>)
    ensures
        hits(outcomes) <= outcomes.len(),
    decreases outcomes.len(),
{
    if outcomes.len() > 0 {
        lemma_hits_are_bounded(outcomes.drop_last());
    }
}

/// Runs trials on seeds that are derived from one, and counts in how many of them it
/// happened. The first error ends the study.
pub fn estimate_monte_carlo<F: Fn(u64) -> Result<bool, HarnessError>>(
    trials: u64,
    seed: u64,
    trial: F,
) -> (counts: Result<TrialCounts, EstimateError>)
    requires
        forall|s: u64| call_requires(trial, (s,)),
    ensures
        trials == 0 <==> counts == Err::<TrialCounts, _>(EstimateError::ZeroTrials),
        trials > 0 ==> exists|outcomes: Seq<Result<bool, HarnessError>>|
            {
                &&& #[trigger] are_outcomes(trial, seed, outcomes)
                &&& 0 < outcomes.len() <= trials
                &&& forall|i: int| 0 <= i < outcomes.len() - 1 ==> (#[trigger] outcomes[i]) is Ok
                &&& outcomes.last() is Ok ==> outcomes.len() == trials
                &&& counts == match outcomes.last() {
                    Ok(_) => Ok(TrialCounts { trials, successes: hits(outcomes) as u64 }),
                    Err(e) => Err(EstimateError::Harness(e)),
                }
            },
{
    if trials == 0 {
        return Err(EstimateError::ZeroTrials);
    }
    let mut successes: u64 = 0;
    let mut i: u64 = 0;
    let ghost mut outcomes: Seq<Result<bool, HarnessError>> = Seq::empty();
    while i < trials
        invariant
            forall|s: u64| call_requires(trial, (s,)),
            i <= trials,
            outcomes.len() == i,
            are_outcomes(trial, seed, outcomes),
            forall|k: int| 0 <= k < outcomes.len() ==> (#[trigger] outcomes[k]) is Ok,
            successes == hits(outcomes),
            successes <= i,
        decreases trials - i,
    {
        let trial_seed: u64 = derive_seed(seed, i);
        let outcome = trial(trial_seed);
        let ghost before = outcomes;
        proof {
            outcomes = outcomes.push(outcome);
            assert(outcomes.drop_last() =~= before);
            assert forall|k: int| 0 <= k < outcomes.len() implies call_ensures(
                trial,
                (crate::explore::seeds::derived_seed(seed, k as u64),),
                #[trigger] outcomes[k],
            ) by {
                if k < before.len() {
                    assert(outcomes[k] == before[k]);
                }
            }
        }
        match outcome {
            Err(e) => {
                proof {
                    assert(are_outcomes(trial, seed, outcomes));
                    assert forall|k: int| 0 <= k < outcomes.len() - 1 implies (
                    #[trigger] outcomes[k]) is Ok by {
                        assert(outcomes[k] == before[k]);
                    }
                }
                return Err(EstimateError::Harness(e));
            },
            Ok(hit) => {
                if hit {
                    successes = successes + 1;
                }
            },
        }
        i = i + 1;
    }
    proof {
        assert(are_outcomes(trial, seed, outcomes));
    }
    Ok(TrialCounts { trials, successes })
}

/// A run that is to be made: a trace to repeat first, and the seed of what follows.
#[derive(Debug)]
pub struct Particle {
    pub prefix: Option<Trace>,
    pub seed: u64,
}

#[verifier::ext_equal]
pub struct ParticleView {
    pub prefix: Option<TraceView>,
    pub seed: u64,
}

/// The view of a trace that may be missing.
pub open spec fn prefix_view(prefix: Option<Trace>) -> Option<TraceView> {
    match prefix {
        Some(trace) => Some(trace@),
        None => None,
    }
}

impl View for Particle {
    type V = ParticleView;

    open spec fn view(&self) -> ParticleView {
        ParticleView { prefix: prefix_view(self.prefix), seed: self.seed }
    }
}

/// The views of particles.
pub open spec fn particle_views(s: Seq<Particle>) -> Seq<ParticleView> {
    s.map_values(|p: Particle| p@)
}

/// The views of traces.
pub open spec fn trace_views(s: Seq<Trace>) -> Seq<TraceView> {
    s.map_values(|t: Trace| t@)
}

/// The particles of the first stage: they start from nothing, on seeds that are derived
/// from one.
pub open spec fn first_particles(count: nat, seed: u64) -> Seq<ParticleView> {
    Seq::new(
        count,
        |i: int|
            ParticleView {
                prefix: None,
                seed: crate::explore::seeds::derived_seed(seed, i as u64),
            },
    )
}

/// What sets the seeds of later stages apart from those of the first one.
pub const STAGE_MASK: u64 = 0xD1B5_4A32_D192_ED03;

/// Which of the successful runs a particle of the next stage goes on from.
pub open spec fn picked(seed: u64, level: usize, j: int, successes: nat) -> int {
    (crate::explore::seeds::derived_seed(seed ^ (level as u64), j as u64) as usize) as int
        % successes as int
}

/// The seed of a particle of the stage after a level.
pub open spec fn stage_seed(seed: u64, level: usize, j: int) -> u64 {
    crate::explore::seeds::derived_seed(seed ^ STAGE_MASK, (level as u64) << 32u64 | j as u64)
}

/// The particles of the stage after a level: each goes on from one of the runs that
/// were successful at it, on a seed of its own.
pub open spec fn resampled(
    successful: Seq<TraceView>,
    count: nat,
    seed: u64,
    level: usize,
) -> Seq<ParticleView> {
    Seq::new(
        count,
        |j: int|
            ParticleView {
                prefix: Some(successful[picked(seed, level, j, successful.len())]),
                seed: stage_seed(seed, level, j),
            },
    )
}

fn make_first_particles(count: usize, seed: u64) -> (particles: Vec<Particle>)
    ensures
        particle_views(particles@) == first_particles(count as nat, seed),
{
    let mut particles: Vec<Particle> = Vec::new();
    let mut i: usize = 0;
    while i < count
        invariant
            i <= count,
            particles@.len() == i,
            forall|k: int|
                0 <= k < i ==> (#[trigger] particles@[k])@ == (ParticleView {
                    prefix: None,
                    seed: crate::explore::seeds::derived_seed(seed, k as u64),
                }),
        decreases count - i,
    {
        particles.push(Particle { prefix: None, seed: derive_seed(seed, i as u64) });
        i = i + 1;
    }
    proof {
        assert(particle_views(particles@) =~= first_particles(count as nat, seed));
    }
    particles
}

/// Draws the particles of the stage after a level from the runs that were successful at
/// it.
pub fn resample(successful: &Vec<Trace>, count: usize, seed: u64, level: usize) -> (particles: Vec<
    Particle,
>)
    requires
        successful@.len() > 0,
    ensures
        particle_views(particles@) == resampled(
            trace_views(successful@),
            count as nat,
            seed,
            level,
        ),
{
    let ghost views = trace_views(successful@);
    let mut particles: Vec<Particle> = Vec::new();
    let mut j: usize = 0;
    while j < count
        invariant
            j <= count,
            views == trace_views(successful@),
            successful@.len() > 0,
            particles@.len() == j,
            forall|k: int|
                0 <= k < j ==> (#[trigger] particles@[k])@ == (ParticleView {
                    prefix: Some(views[picked(seed, level, k, views.len())]),
                    seed: stage_seed(seed, level, k),
                }),
        decreases count - j,
    {
        let pick: usize = derive_seed(seed ^ (level as u64), j as u64) as usize % successful.len();
        let particle_seed: u64 = derive_seed(
            seed ^ STAGE_MASK,
            (level as u64) << 32u64 | j as u64,
        );
        let prefix = successful[pick].clone();
        proof {
            assert(views[pick as int] == successful@[pick as int]@);
        }
        particles.push(Particle { prefix: Some(prefix), seed: particle_seed });
        j = j + 1;
    }
    proof {
        assert(particle_views(particles@) =~= resampled(views, count as nat, seed, level));
    }
    particles
}

/// A run in which it happened.
#[derive(Debug)]
pub struct FoundCounterexample<S> {
    pub trace: Trace,
    pub status: S,
}

/// What came of a particle.
#[derive(Debug)]
pub struct ParticleOutcome<S> {
    /// The trace up to where the run has first reached the level, if it has.
    pub prefix: Option<Trace>,
    /// The run, if it happened in it.
    pub terminal: Option<FoundCounterexample<S>>,
}

/// What an estimate by splitting has counted.
pub struct SplittingCounts<S> {
    pub particles: usize,
    /// How many particles were successful at each level, and in how many it happened
    /// at the end.
    pub stage_successes: Vec<usize>,
    /// The first run in which it happened.
    pub example: Option<FoundCounterexample<S>>,
}

/// The state of an estimate by splitting.
///
/// At each level the particles run until they reach it. The next stage goes on from
/// those that did. The last stage counts in how many particles it happened.
pub struct SplittingRun<S> {
    pub levels: usize,
    pub count: usize,
    pub seed: u64,
    /// The number of the stage: that of a level, or the number of levels.
    pub stage: usize,
    pub particles: Vec<Particle>,
    /// How many particles of the stage are through.
    pub next: usize,
    pub successful: Vec<Trace>,
    pub terminal_successes: usize,
    pub stage_successes: Vec<usize>,
    pub example: Option<FoundCounterexample<S>>,
    pub done: bool,
}

impl<S> SplittingRun<S> {
    pub open spec fn wf(self) -> bool {
        &&& self.count > 0
        &&& self.stage <= self.levels
        &&& self.particles@.len() == self.count
        &&& self.next <= self.count
        &&& self.successful@.len() <= self.next
        &&& self.terminal_successes <= self.next
        &&& self.stage < self.levels ==> self.terminal_successes == 0
        &&& self.terminal_successes > 0 ==> self.example is Some
        &&& self.done && self.stage == self.levels ==> self.stage_successes@.last()
            == self.terminal_successes
        &&& !self.done ==> self.stage_successes@.len() == self.stage
        &&& self.done ==> self.stage_successes@.len() == self.stage + 1
        &&& forall|i: int|
            0 <= i < self.stage_successes@.len() ==> #[trigger] self.stage_successes@[i]
                <= self.count
        &&& forall|i: int|
            0 <= i < self.stage_successes@.len() - 1 ==> #[trigger] self.stage_successes@[i] > 0
        &&& !self.done ==> forall|i: int|
            0 <= i < self.stage_successes@.len() ==> #[trigger] self.stage_successes@[i] > 0
    }

    /// Starts an estimate.
    pub fn start(levels: usize, particles: usize, seed: u64) -> (run: Result<Self, EstimateError>)
        ensures
            particles == 0 ==> run == Err::<Self, _>(EstimateError::ZeroParticles),
            particles > 0 ==> run is Ok,
            run matches Ok(r) ==> {
                &&& r.wf()
                &&& r.levels == levels
                &&& r.count == particles
                &&& r.seed == seed
                &&& r.stage == 0
                &&& r.next == 0
                &&& !r.done
                &&& r.example is None
                &&& r.terminal_successes == 0
                &&& r.stage_successes@.len() == 0
                &&& r.successful@.len() == 0
                &&& particle_views(r.particles@) == first_particles(particles as nat, seed)
            },
    {
        if particles == 0 {
            return Err(EstimateError::ZeroParticles);
        }
        let first = make_first_particles(particles, seed);
        proof {
            assert(particle_views(first@).len() == particles);
        }
        Ok(
            SplittingRun {
                levels,
                count: particles,
                seed,
                stage: 0,
                particles: first,
                next: 0,
                successful: Vec::new(),
                terminal_successes: 0,
                stage_successes: Vec::new(),
                example: None,
                done: false,
            },
        )
    }

    /// The particle that runs next, unless all of the stage are through.
    pub fn next_particle(&self) -> (particle: Option<&Particle>)
        requires
            self.wf(),
        ensures
            particle == if self.next < self.count {
                Some(&self.particles@[self.next as int])
            } else {
                None
            },
    {
        if self.next < self.count {
            Some(&self.particles[self.next])
        } else {
            None
        }
    }

    /// Takes in what came of the particle that ran next.
    pub fn record(&mut self, outcome: ParticleOutcome<S>)
        requires
            old(self).wf(),
            !old(self).done,
            old(self).next < old(self).count,
        ensures
            final(self).wf(),
            !final(self).done,
            final(self).levels == old(self).levels,
            final(self).count == old(self).count,
            final(self).seed == old(self).seed,
            final(self).stage == old(self).stage,
            final(self).particles == old(self).particles,
            final(self).stage_successes == old(self).stage_successes,
            final(self).next == old(self).next + 1,
            final(self).example == if old(self).example is Some {
                old(self).example
            } else {
                outcome.terminal
            },
            final(self).successful@ == match outcome.prefix {
                Some(trace) if old(self).stage < old(self).levels => old(self).successful@.push(
                    trace,
                ),
                _ => old(self).successful@,
            },
            final(self).terminal_successes == old(self).terminal_successes + if old(self).stage
                == old(self).levels && outcome.terminal is Some {
                1int
            } else {
                0
            },
    {
        if self.stage < self.levels {
            if let Some(trace) = outcome.prefix {
                self.successful.push(trace);
            }
        } else if outcome.terminal.is_some() {
            self.terminal_successes = self.terminal_successes + 1;
        }
        if self.example.is_none() {
            self.example = outcome.terminal;
        }
        self.next = self.next + 1;
    }

    /// Ends a stage all of whose particles are through.
    ///
    /// After a level, the next stage starts, unless no particle was successful. After
    /// the last stage the estimate is done.
    pub fn finish_stage(&mut self)
        requires
            old(self).wf(),
            !old(self).done,
            old(self).next == old(self).count,
        ensures
            final(self).wf(),
            final(self).levels == old(self).levels,
            final(self).count == old(self).count,
            final(self).seed == old(self).seed,
            final(self).example == old(self).example,
            final(self).stage_successes@ == old(self).stage_successes@.push(
                if old(self).stage < old(self).levels {
                    old(self).successful@.len() as usize
                } else {
                    old(self).terminal_successes
                },
            ),
            final(self).done <==> old(self).stage == old(self).levels || old(
                self,
            ).successful@.len() == 0,
            final(self).done ==> {
                &&& final(self).stage == old(self).stage
                &&& final(self).next == old(self).next
                &&& final(self).particles == old(self).particles
                &&& final(self).successful == old(self).successful
                &&& final(self).terminal_successes == old(self).terminal_successes
            },
            !final(self).done ==> {
                &&& final(self).stage == old(self).stage + 1
                &&& final(self).next == 0
                &&& final(self).successful@.len() == 0
                &&& final(self).terminal_successes == 0
                &&& particle_views(final(self).particles@) == resampled(
                    trace_views(old(self).successful@),
                    old(self).count as nat,
                    old(self).seed,
                    old(self).stage,
                )
            },
    {
        if self.stage < self.levels {
            let successes: usize = self.successful.len();
            self.stage_successes.push(successes);
            if successes == 0 {
                self.done = true;
            } else {
                let particles = resample(&self.successful, self.count, self.seed, self.stage);
                proof {
                    assert(particle_views(particles@).len() == self.count);
                }
                self.particles = particles;
                self.successful = Vec::new();
                self.stage = self.stage + 1;
                self.next = 0;
            }
        } else {
            self.stage_successes.push(self.terminal_successes);
            self.done = true;
        }
    }

    /// What an estimate that is done has counted.
    pub fn into_counts(self) -> (counts: SplittingCounts<S>)
        requires
            self.done,
        ensures
            counts.particles == self.count,
            counts.stage_successes == self.stage_successes,
            counts.example == self.example,
            self.wf() && self.stage == self.levels && counts.stage_successes@.last() > 0
                ==> counts.example is Some,
    {
        SplittingCounts {
            particles: self.count,
            stage_successes: self.stage_successes,
            example: self.example,
        }
    }
}

/// The traces of the particles that were successful at a level, in their order.
pub open spec fn successful_prefixes<S>(outcomes: Seq<ParticleOutcome<S>>) -> Seq<Trace>
    decreases outcomes.len(),
{
    if outcomes.len() == 0 {
        Seq::empty()
    } else {
        let front = successful_prefixes(outcomes.drop_last());
        match outcomes.last().prefix {
            Some(trace) => front.push(trace),
            None => front,
        }
    }
}

/// In how many particles it happened.
pub open spec fn terminal_count<S>(outcomes: Seq<ParticleOutcome<S>>) -> nat
    decreases outcomes.len(),
{
    if outcomes.len() == 0 {
        0
    } else if outcomes.last().terminal is Some {
        terminal_count(outcomes.drop_last()) + 1
    } else {
        terminal_count(outcomes.drop_last())
    }
}

/// The first particle in which it happened.
pub open spec fn first_terminal<S>(outcomes: Seq<ParticleOutcome<S>>) -> Option<
    FoundCounterexample<S>,
>
    decreases outcomes.len(),
{
    if outcomes.len() == 0 {
        None
    } else if first_terminal(outcomes.drop_last()) is Some {
        first_terminal(outcomes.drop_last())
    } else {
        outcomes.last().terminal
    }
}

/// The first particle in which it happened, over several stages.
pub open spec fn first_example<S>(stages: Seq<Seq<ParticleOutcome<S>>>) -> Option<
    FoundCounterexample<S>,
>
    decreases stages.len(),
{
    if stages.len() == 0 {
        None
    } else if first_example(stages.drop_last()) is Some {
        first_example(stages.drop_last())
    } else {
        first_terminal(stages.last())
    }
}

/// How many particles of a stage were successful: those that have reached its level, and
/// after the last level those in which it happened.
pub open spec fn stage_count<S>(
    outcomes: Seq<ParticleOutcome<S>>,
    stage: int,
    levels: usize,
) -> nat {
    if stage < levels {
        successful_prefixes(outcomes).len()
    } else {
        terminal_count(outcomes)
    }
}

/// The particles of a stage, where it came to this in the stages before.
pub open spec fn stage_particles<S>(
    stages: Seq<Seq<ParticleOutcome<S>>>,
    stage: int,
    count: usize,
    seed: u64,
) -> Seq<ParticleView> {
    if stage == 0 {
        first_particles(count as nat, seed)
    } else {
        resampled(
            trace_views(successful_prefixes(stages[stage - 1])),
            count as nat,
            seed,
            (stage - 1) as usize,
        )
    }
}

/// Whether a trial of a particle in a stage can have this outcome.
pub open spec fn trial_gives<S, F: Fn(&Particle, usize) -> Result<ParticleOutcome<S>, HarnessError>>(
    trial: F,
    particle: ParticleView,
    stage: int,
    outcome: Result<ParticleOutcome<S>, HarnessError>,
) -> bool {
    exists|p: Particle|
        p@ == particle && #[trigger] call_ensures(trial, (&p, stage as usize), outcome)
}

/// Whether these are outcomes of the first particles of a stage.
pub open spec fn are_stage_outcomes<
    S,
    F: Fn(&Particle, usize) -> Result<ParticleOutcome<S>, HarnessError>,
>(
    trial: F,
    particles: Seq<ParticleView>,
    stage: int,
    outcomes: Seq<ParticleOutcome<S>>,
) -> bool {
    &&& outcomes.len() <= particles.len()
    &&& forall|i: int|
        0 <= i < outcomes.len() ==> trial_gives(
            trial,
            particles[i],
            stage,
            Ok(#[trigger] outcomes[i]),
        )
}

/// Whether a stage is through with these outcomes.
pub open spec fn stage_through<
    S,
    F: Fn(&Particle, usize) -> Result<ParticleOutcome<S>, HarnessError>,
>(trial: F, stages: Seq<Seq<ParticleOutcome<S>>>, stage: int, count: usize, seed: u64) -> bool {
    &&& stages[stage].len() == count
    &&& are_stage_outcomes(
        trial,
        stage_particles(stages, stage, count, seed),
        stage,
        stages[stage],
    )
}

/// Whether the first stages of an estimate are through with these outcomes: in each of
/// them but the last, particles were successful.
pub open spec fn stages_through<
    S,
    F: Fn(&Particle, usize) -> Result<ParticleOutcome<S>, HarnessError>,
>(
    trial: F,
    levels: usize,
    count: usize,
    seed: u64,
    stages: Seq<Seq<ParticleOutcome<S>>>,
) -> bool {
    &&& stages.len() <= levels + 1
    &&& forall|i: int|
        0 <= i < stages.len() ==> #[trigger] stage_through(trial, stages, i, count, seed)
    &&& forall|i: int|
        0 <= i < stages.len() - 1 ==> successful_prefixes(#[trigger] stages[i]).len() > 0
}

/// What an estimate has counted that ended with these outcomes.
pub open spec fn are_counts<S>(
    counts: SplittingCounts<S>,
    levels: usize,
    count: usize,
    stages: Seq<Seq<ParticleOutcome<S>>>,
) -> bool {
    &&& counts.particles == count
    &&& counts.stage_successes@.len() == stages.len()
    &&& forall|i: int|
        0 <= i < stages.len() ==> counts.stage_successes@[i] == stage_count(
            #[trigger] stages[i],
            i,
            levels,
        )
    &&& counts.example == first_example(stages)
}

/// Whether an estimate can fail like this: after some stages and some particles of the
/// next one, the trial of a particle fails.
pub open spec fn estimate_fails<
    S,
    F: Fn(&Particle, usize) -> Result<ParticleOutcome<S>, HarnessError>,
>(
    trial: F,
    levels: usize,
    count: usize,
    seed: u64,
    stages: Seq<Seq<ParticleOutcome<S>>>,
    outcomes: Seq<ParticleOutcome<S>>,
    error: HarnessError,
) -> bool {
    let stage = stages.len() as int;
    let tried = stage_particles(stages, stage, count, seed);
    &&& stages_through(trial, levels, count, seed, stages)
    &&& stages.len() <= levels
    &&& stages.len() > 0 ==> successful_prefixes(stages.last()).len() > 0
    &&& are_stage_outcomes(trial, tried, stage, outcomes)
    &&& outcomes.len() < count
    &&& trial_gives(trial, tried[outcomes.len() as int], stage, Err(error))
}

proof fn lemma_one_more_outcome<S>(outcomes: Seq<ParticleOutcome<S>>, outcome: ParticleOutcome<S>)
    ensures
        successful_prefixes(outcomes.push(outcome)) == match outcome.prefix {
            Some(trace) => successful_prefixes(outcomes).push(trace),
            None => successful_prefixes(outcomes),
        },
        terminal_count(outcomes.push(outcome)) == terminal_count(outcomes)
            + if outcome.terminal is Some {
            1nat
        } else {
            0
        },
        first_terminal(outcomes.push(outcome)) == if first_terminal(outcomes) is Some {
            first_terminal(outcomes)
        } else {
            outcome.terminal
        },
{
    assert(outcomes.push(outcome).drop_last() =~= outcomes);
}

proof fn lemma_one_more_stage<
    S,
    F: Fn(&Particle, usize) -> Result<ParticleOutcome<S>, HarnessError>,
>(
    trial: F,
    levels: usize,
    count: usize,
    seed: u64,
    stages: Seq<Seq<ParticleOutcome<S>>>,
    outcomes: Seq<ParticleOutcome<S>>,
)
    requires
        stages_through(trial, levels, count, seed, stages),
        stages.len() <= levels,
        stages.len() > 0 ==> successful_prefixes(stages.last()).len() > 0,
        outcomes.len() == count,
        are_stage_outcomes(
            trial,
            stage_particles(stages, stages.len() as int, count, seed),
            stages.len() as int,
            outcomes,
        ),
    ensures
        stages_through(trial, levels, count, seed, stages.push(outcomes)),
        first_example(stages.push(outcomes)) == if first_example(stages) is Some {
            first_example(stages)
        } else {
            first_terminal(outcomes)
        },
{
    let all = stages.push(outcomes);
    assert(all.drop_last() =~= stages);
    assert forall|i: int| 0 <= i < all.len() implies #[trigger] stage_through(
        trial,
        all,
        i,
        count,
        seed,
    ) by {
        if i < stages.len() {
            assert(stage_through(trial, stages, i, count, seed));
        }
    }
    assert forall|i: int| 0 <= i < all.len() - 1 implies successful_prefixes(
        #[trigger] all[i],
    ).len() > 0 by {
        assert(all[i] == stages[i]);
    }
}

/// Estimates how likely something rare is, by splitting: the particles of each stage are
/// tried, and the next stage goes on from those that have reached the level. The last
/// stage counts in how many particles it happened. The estimate ends early where no
/// particle is successful. The first error ends the study.
pub fn estimate_with_splitting<
    S,
    F: Fn(&Particle, usize) -> Result<ParticleOutcome<S>, HarnessError>,
>(levels: usize, particles: usize, seed: u64, trial: F) -> (counts: Result<
    SplittingCounts<S>,
    EstimateError,
>)
    requires
        forall|p: Particle, stage: usize| call_requires(trial, (&p, stage)),
    ensures
        particles == 0 ==> counts is Err && counts->Err_0 == EstimateError::ZeroParticles,
        particles > 0 ==> match counts {
            Ok(counts) => exists|stages: Seq<Seq<ParticleOutcome<S>>>|
                {
                    &&& #[trigger] stages_through(trial, levels, particles, seed, stages)
                    &&& stages.len() > 0
                    &&& stages.len() == levels + 1 || successful_prefixes(stages.last()).len() == 0
                    &&& are_counts(counts, levels, particles, stages)
                },
            Err(EstimateError::Harness(e)) => exists|
                stages: Seq<Seq<ParticleOutcome<S>>>,
                outcomes: Seq<ParticleOutcome<S>>,
            |
                #[trigger] estimate_fails(trial, levels, particles, seed, stages, outcomes, e),
            Err(_) => false,
        },
{
    let mut run: SplittingRun<S> = match SplittingRun::start(levels, particles, seed) {
        Ok(run) => run,
        Err(e) => {
            return Err(e);
        },
    };
    let ghost mut stages: Seq<Seq<ParticleOutcome<S>>> = Seq::empty();
    while !run.done
        invariant
            forall|p: Particle, stage: usize| call_requires(trial, (&p, stage)),
            run.wf(),
            run.levels == levels,
            run.count == particles,
            run.seed == seed,
            particles > 0,
            stages_through(trial, levels, particles, seed, stages),
            run.example == first_example(stages),
            run.stage_successes@.len() == stages.len(),
            forall|i: int|
                0 <= i < stages.len() ==> run.stage_successes@[i] == stage_count(
                    #[trigger] stages[i],
                    i,
                    levels,
                ),
            !run.done ==> {
                &&& run.next == 0
                &&& run.stage == stages.len()
                &&& run.successful@.len() == 0
                &&& run.terminal_successes == 0
                &&& stages.len() > 0 ==> successful_prefixes(stages.last()).len() > 0
                &&& particle_views(run.particles@) == stage_particles(
                    stages,
                    run.stage as int,
                    particles,
                    seed,
                )
            },
            run.done ==> stages.len() > 0 && (stages.len() == levels + 1 || successful_prefixes(
                stages.last(),
            ).len() == 0),
        decreases levels + 1 - run.stage + if run.done {
            0int
        } else {
            1
        },
    {
        let ghost mut outcomes: Seq<ParticleOutcome<S>> = Seq::empty();
        let ghost stage = run.stage;
        let ghost tried = stage_particles(stages, stage as int, particles, seed);
        let ghost former = run.stage_successes@;
        while run.next < run.count
            invariant
                forall|p: Particle, stage: usize| call_requires(trial, (&p, stage)),
                run.wf(),
                !run.done,
                run.levels == levels,
                run.count == particles,
                run.seed == seed,
                run.stage == stage,
                stage == stages.len(),
                stages_through(trial, levels, particles, seed, stages),
                stages.len() > 0 ==> successful_prefixes(stages.last()).len() > 0,
                tried == stage_particles(stages, stage as int, particles, seed),
                particle_views(run.particles@) == tried,
                run.stage_successes@ == former,
                are_stage_outcomes(trial, tried, stage as int, outcomes),
                outcomes.len() == run.next,
                run.successful@ == if stage < levels {
                    successful_prefixes(outcomes)
                } else {
                    Seq::empty()
                },
                run.terminal_successes == if stage < levels {
                    0
                } else {
                    terminal_count(outcomes)
                },
                run.example == if first_example(stages) is Some {
                    first_example(stages)
                } else {
                    first_terminal(outcomes)
                },
            decreases run.count - run.next,
        {
            let particle: &Particle = &run.particles[run.next];
            proof {
                assert(tried[run.next as int] == particle@);
            }
            let tried_out = trial(particle, run.stage);
            proof {
                assert(trial_gives(trial, tried[outcomes.len() as int], stage as int, tried_out));
            }
            match tried_out {
                Err(e) => {
                    proof {
                        assert(estimate_fails(trial, levels, particles, seed, stages, outcomes, e));
                    }
                    return Err(EstimateError::Harness(e));
                },
                Ok(outcome) => {
                    let ghost before = outcomes;
                    proof {
                        lemma_one_more_outcome(before, outcome);
                        outcomes = before.push(outcome);
                        assert forall|i: int| 0 <= i < outcomes.len() implies trial_gives(
                            trial,
                            tried[i],
                            stage as int,
                            Ok(#[trigger] outcomes[i]),
                        ) by {
                            if i < before.len() {
                                assert(outcomes[i] == before[i]);
                            }
                        }
                        assert(tried.len() == particles);
                    }
                    run.record(outcome);
                },
            }
        }
        let ghost before = stages;
        proof {
            lemma_one_more_stage(trial, levels, particles, seed, before, outcomes);
            stages = before.push(outcomes);
        }
        run.finish_stage();
        proof {
            assert(run.stage_successes@ == former.push(
                stage_count(outcomes, stage as int, levels) as usize,
            ));
            assert forall|i: int| 0 <= i < stages.len() implies run.stage_successes@[i]
                == stage_count(#[trigger] stages[i], i, levels) by {
                if i < before.len() {
                    assert(stages[i] == before[i]);
                }
            }
        }
    }
    proof {
        assert(stages_through(trial, levels, particles, seed, stages));
    }
    Ok(run.into_counts())
}

/// No two particles of the later stages have the same seed, as long as the numbers of
/// levels and particles fit in 32 bits.
pub proof fn stage_seeds_are_distinct(seed: u64, a: usize, i: int, b: usize, j: int)
    requires
        a < 0x1_0000_0000,
        b < 0x1_0000_0000,
        0 <= i < 0x1_0000_0000,
        0 <= j < 0x1_0000_0000,
        a != b || i != j,
    ensures
        stage_seed(seed, a, i) != stage_seed(seed, b, j),
{
    let (p, q) = (a as u64, b as u64);
    let (x, y) = (i as u64, j as u64);
    assert(p << 32u64 | x != q << 32u64 | y) by (bit_vector)
        requires
            p < 0x1_0000_0000,
            q < 0x1_0000_0000,
            x < 0x1_0000_0000,
            y < 0x1_0000_0000,
            p != q || x != y,
    ;
    crate::explore::seeds::derived_seeds_are_distinct(
        seed ^ STAGE_MASK,
        p << 32u64 | x,
        q << 32u64 | y,
    );
}

/// Every particle of a later stage goes on from a run that was successful at the level
/// before.
pub proof fn particles_go_on_from_successes(
    successful: Seq<TraceView>,
    count: nat,
    seed: u64,
    level: usize,
    j: int,
)
    requires
        successful.len() > 0,
        0 <= j < count,
    ensures
        resampled(successful, count, seed, level)[j].prefix is Some,
        successful.contains(resampled(successful, count, seed, level)[j].prefix->0),
{
    let p = picked(seed, level, j, successful.len());
    assert(0 <= p < successful.len());
    assert(successful[p] == resampled(successful, count, seed, level)[j].prefix->0);
}

} // verus!
