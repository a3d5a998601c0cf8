//! Finding a run in which something happens, by splitting runs that come close.

use crate::explore::estimate::ParticleView;
use crate::explore::harness::HarnessError;
use crate::explore::trace::{Trace, TraceView};
use crate::time::SimTime;
use vstd::prelude::*;

verus! {

#[derive(Debug)]
pub struct SplittingConfig {
    /// The scores that a run has to reach, one after the other, as the bits of
    /// floating-point numbers.
    pub levels: Vec<u64>,
    /// In how many runs a run is split that has reached its level.
    pub branch_factor: usize,
    /// How many runs there are at most at one level.
    pub max_particles_per_level: usize,
    pub end_time: SimTime,
    pub install_tokio: bool,
}

impl Default for SplittingConfig {
    /// The levels are 50, 150 and 300.
    fn default() -> (cfg: Self)
        ensures
            cfg.levels@ == seq![
                0x4049_0000_0000_0000u64,
                0x4062_C000_0000_0000u64,
                0x4072_C000_0000_0000u64,
            ],
            cfg.branch_factor == 2,
            cfg.max_particles_per_level == 32,
            cfg.end_time == SimTime(60_000_000_000),
            cfg.install_tokio,
    {
        SplittingConfig {
            levels: vec![0x4049_0000_0000_0000, 0x4062_C000_0000_0000, 0x4072_C000_0000_0000],
            branch_factor: 2,
            max_particles_per_level: 32,
            end_time: SimTime::from_secs(60),
            install_tokio: true,
        }
    }
}

/// A run in which it happened.
#[derive(Debug)]
pub struct FoundBug<S> {
    pub trace: Trace,
    pub status: S,
}

#[derive(Debug, Clone, Copy, PartialEq, Eq, Structural)]
pub enum SplittingError {
    Harness(HarnessError),
}

/// A run that is to be made: a trace to repeat first, and the seed of what follows.
#[derive(Debug)]
pub struct SplitParticle {
    pub prefix: Option<Trace>,
    pub continuation_seed: u64,
}

impl View for SplitParticle {
    type V = ParticleView;

    open spec fn view(&self) -> ParticleView {
        ParticleView {
            prefix: crate::explore::estimate::prefix_view(self.prefix),
            seed: self.continuation_seed,
        }
    }
}

/// The views of particles.
pub open spec fn split_views(s: Seq<SplitParticle>) -> Seq<ParticleView> {
    s.map_values(|p: SplitParticle| p@)
}

/// The seed of a branch of a run.
pub open spec fn branch_seed(seed: u64, level_bits: u64, p_index: usize, i: int) -> u64 {
    seed ^ level_bits.wrapping_mul(0x9E37_79B9) ^ ((p_index as u64) << 32u64) ^ (
    i as u64).wrapping_mul(0xD1B5_4A32_D192_ED03)
}

/// Some particles, with the branches of a run added to them, as far as there is room.
pub open spec fn with_branches(
    particles: Seq<ParticleView>,
    prefix: TraceView,
    seed: u64,
    level_bits: u64,
    p_index: usize,
    branches: nat,
    room: nat,
) -> Seq<ParticleView>
    decreases branches,
{
    if branches == 0 {
        particles
    } else {
        let front = with_branches(
            particles,
            prefix,
            seed,
            level_bits,
            p_index,
            (branches - 1) as nat,
            room,
        );
        if front.len() >= room {
            front
        } else {
            front.push(
                ParticleView {
                    prefix: Some(prefix),
                    seed: branch_seed(seed, level_bits, p_index, branches - 1),
                },
            )
        }
    }
}

proof fn lemma_no_more_branches(
    particles: Seq<ParticleView>,
    prefix: TraceView,
    seed: u64,
    level_bits: u64,
    p_index: usize,
    some: nat,
    branches: nat,
    room: nat,
)
    requires
        some <= branches,
        with_branches(particles, prefix, seed, level_bits, p_index, some, room).len() >= room,
    ensures
        with_branches(particles, prefix, seed, level_bits, p_index, branches, room)
            == with_branches(particles, prefix, seed, level_bits, p_index, some, room),
    decreases branches,
{
    if some < branches {
        lemma_no_more_branches(
            particles,
            prefix,
            seed,
            level_bits,
            p_index,
            some,
            (branches - 1) as nat,
            room,
        );
    }
}

/// Adds the branches of a run.
pub fn push_branches(
    particles: &mut Vec<SplitParticle>,
    prefix: &Trace,
    seed: u64,
    level_bits: u64,
    p_index: usize,
    branches: usize,
    room: usize,
)
    ensures
        split_views(final(particles)@) == with_branches(
            split_views(old(particles)@),
            prefix@,
            seed,
            level_bits,
            p_index,
            branches as nat,
            room as nat,
        ),
{
    let ghost first = split_views(particles@);
    let mut i: usize = 0;
    while i < branches
        invariant
            i <= branches,
            first == split_views(old(particles)@),
            split_views(particles@) == with_branches(
                first,
                prefix@,
                seed,
                level_bits,
                p_index,
                i as nat,
                room as nat,
            ),
        decreases branches - i,
    {
        let ghost before = split_views(particles@);
        if particles.len() >= room {
            proof {
                assert(before.len() == particles@.len());
                lemma_no_more_branches(
                    first,
                    prefix@,
                    seed,
                    level_bits,
                    p_index,
                    i as nat,
                    branches as nat,
                    room as nat,
                );
            }
            return ;
        }
        let continuation_seed: u64 = seed ^ level_bits.wrapping_mul(0x9E37_79B9) ^ ((p_index as u64)
            << 32u64) ^ (i as u64).wrapping_mul(0xD1B5_4A32_D192_ED03);
        let particle = SplitParticle { prefix: Some(prefix.clone()), continuation_seed };
        particles.push(particle);
        proof {
            assert(split_views(particles@) =~= before.push(particle@));
        }
        i = i + 1;
    }
}

/// What came of a particle.
#[derive(Debug)]
pub enum SplitOutcome<S> {
    /// It happened.
    Found(FoundBug<S>),
    /// It did not happen. The trace goes up to where the run has first reached the
    /// level.
    Reached(Trace),
    /// It did not happen, and the run has not reached the level.
    Missed,
}

/// The state of a search by splitting.
pub struct SplittingSearch<S> {
    pub cfg: SplittingConfig,
    /// The number of the level that runs are to reach.
    pub level: usize,
    pub particles: Vec<SplitParticle>,
    /// How many particles of the level are through.
    pub next: usize,
    pub next_level: Vec<SplitParticle>,
    pub found: Option<FoundBug<S>>,
    pub done: bool,
}

impl<S> SplittingSearch<S> {
    pub open spec fn wf(self) -> bool {
        &&& self.level <= self.cfg.levels@.len()
        &&& self.next <= self.particles@.len()
        &&& !self.done ==> self.level < self.cfg.levels@.len() && self.particles@.len() > 0
            && self.found is None
        &&& self.level > 0 ==> self.particles@.len() <= self.cfg.max_particles_per_level
        &&& self.next_level@.len() <= self.cfg.max_particles_per_level
    }

    /// Starts a search from one run. Without levels there is nothing to do.
    pub fn start(cfg: SplittingConfig, seed: u64) -> (search: Self)
        ensures
            search.wf(),
            search.cfg == cfg,
            search.level == 0,
            search.next == 0,
            search.next_level@.len() == 0,
            search.found is None,
            search.done <==> cfg.levels@.len() == 0,
            split_views(search.particles@) == seq![ParticleView { prefix: None, seed }],
    {
        let mut particles: Vec<SplitParticle> = Vec::new();
        particles.push(SplitParticle { prefix: None, continuation_seed: seed });
        let done = cfg.levels.len() == 0;
        proof {
            assert(split_views(particles@) =~= seq![ParticleView { prefix: None, seed }]);
        }
        SplittingSearch {
            cfg,
            level: 0,
            particles,
            next: 0,
            next_level: Vec::new(),
            found: None,
            done,
        }
    }

    /// The particle that runs next, unless all of the level are through.
    pub fn next_particle(&self) -> (particle: Option<&SplitParticle>)
        requires
            self.wf(),
        ensures
            particle == if !self.done && self.next < self.particles@.len() {
                Some(&self.particles@[self.next as int])
            } else {
                None
            },
    {
        if !self.done && self.next < self.particles.len() {
            Some(&self.particles[self.next])
        } else {
            None
        }
    }

    /// Takes in what came of the particle that ran next.
    ///
    /// The search is done where it happened. A run that has reached its level is split.
    pub fn record(&mut self, outcome: SplitOutcome<S>)
        requires
            old(self).wf(),
            !old(self).done,
            old(self).next < old(self).particles@.len(),
        ensures
            final(self).wf(),
            final(self).cfg == old(self).cfg,
            final(self).level == old(self).level,
            final(self).particles == old(self).particles,
            final(self).next == old(self).next + 1,
            final(self).done <==> outcome is Found,
            final(self).found == match outcome {
                SplitOutcome::Found(bug) => Some(bug),
                _ => None,
            },
            split_views(final(self).next_level@) == match outcome {
                SplitOutcome::Reached(prefix) => with_branches(
                    split_views(old(self).next_level@),
                    prefix@,
                    old(self).particles@[old(self).next as int].continuation_seed,
                    old(self).cfg.levels@[old(self).level as int],
                    old(self).next,
                    old(self).cfg.branch_factor as nat,
                    old(self).cfg.max_particles_per_level as nat,
                ),
                _ => split_views(old(self).next_level@),
            },
    {
        let through: usize = self.next;
        let count: usize = self.particles.len();
        proof {
            assert(through < count);
        }
        match outcome {
            SplitOutcome::Found(bug) => {
                self.found = Some(bug);
                self.done = true;
            },
            SplitOutcome::Reached(prefix) => {
                let seed: u64 = self.particles[self.next].continuation_seed;
                let level_bits: u64 = self.cfg.levels[self.level];
                proof {
                    branches_have_room(
                        split_views(self.next_level@),
                        prefix@,
                        seed,
                        level_bits,
                        self.next,
                        self.cfg.branch_factor as nat,
                        self.cfg.max_particles_per_level as nat,
                    );
                }
                push_branches(
                    &mut self.next_level,
                    &prefix,
                    seed,
                    level_bits,
                    self.next,
                    self.cfg.branch_factor,
                    self.cfg.max_particles_per_level,
                );
                proof {
                    assert(split_views(self.next_level@).len() == self.next_level@.len());
                }
            },
            SplitOutcome::Missed => {},
        }
        self.next = through + 1;
    }

    /// Ends a level all of whose particles are through.
    ///
    /// The search is done where no run has reached the level, and after the last one.
    pub fn finish_level(&mut self)
        requires
            old(self).wf(),
            !old(self).done,
            old(self).next == old(self).particles@.len(),
        ensures
            final(self).wf(),
            final(self).cfg == old(self).cfg,
            final(self).found is None,
            final(self).done <==> old(self).next_level@.len() == 0 || old(self).level + 1 == old(
                self,
            ).cfg.levels@.len(),
            old(self).next_level@.len() == 0 ==> final(self).level == old(self).level,
            old(self).next_level@.len() > 0 ==> {
                &&& final(self).level == old(self).level + 1
                &&& final(self).next == 0
                &&& final(self).particles@ == old(self).next_level@
                &&& final(self).next_level@.len() == 0
            },
    {
        if self.next_level.len() == 0 {
            self.done = true;
            return ;
        }
        let mut particles: Vec<SplitParticle> = Vec::new();
        std::mem::swap(&mut particles, &mut self.next_level);
        self.particles = particles;
        self.next = 0;
        let levels: usize = self.cfg.levels.len();
        self.level = self.level + 1;
        if self.level == levels {
            self.done = true;
        }
    }
}

/// Branches are added as far as there is room, and those that were there stay.
pub proof fn branches_have_room(
    particles: Seq<ParticleView>,
    prefix: TraceView,
    seed: u64,
    level_bits: u64,
    p_index: usize,
    branches: nat,
    room: nat,
)
    ensures
        ({
            let all = with_branches(particles, prefix, seed, level_bits, p_index, branches, room);
            &&& particles.len() <= room ==> all.len() == if particles.len() + branches <= room {
                particles.len() + branches
            } else {
                room
            }
            &&& particles.len() <= all.len()
            &&& forall|i: int| 0 <= i < particles.len() ==> all[i] == particles[i]
            &&& forall|i: int|
                particles.len() <= i < all.len() ==> #[trigger] all[i] == (ParticleView {
                    prefix: Some(prefix),
                    seed: branch_seed(seed, level_bits, p_index, i - particles.len()),
                })
        }),
    decreases branches,
{
    if branches > 0 {
        let fewer = (branches - 1) as nat;
        branches_have_room(particles, prefix, seed, level_bits, p_index, fewer, room);
        let front = with_branches(particles, prefix, seed, level_bits, p_index, fewer, room);
        let all = with_branches(particles, prefix, seed, level_bits, p_index, branches, room);
        if front.len() < room && particles.len() > room {
            assert(false);
        }
        if front.len() < room {
            lemma_branches_fill(particles, prefix, seed, level_bits, p_index, fewer, room);
        }
    }
}

proof fn lemma_branches_fill(
    particles: Seq<ParticleView>,
    prefix: TraceView,
    seed: u64,
    level_bits: u64,
    p_index: usize,
    branches: nat,
    room: nat,
)
    requires
        with_branches(particles, prefix, seed, level_bits, p_index, branches, room).len() < room,
    ensures
        with_branches(particles, prefix, seed, level_bits, p_index, branches, room).len()
            == particles.len() + branches,
    decreases branches,
{
    if branches > 0 {
        lemma_branches_fill(
            particles,
            prefix,
            seed,
            level_bits,
            p_index,
            (branches - 1) as nat,
            room,
        );
    }
}

/// The branches of a run have distinct seeds.
pub proof fn branch_seeds_are_distinct(seed: u64, level_bits: u64, p_index: usize, i: int, j: int)
    requires
        0 <= i <= u64::MAX,
        0 <= j <= u64::MAX,
        i != j,
    ensures
        branch_seed(seed, level_bits, p_index, i) != branch_seed(seed, level_bits, p_index, j),
{
    let (x, y) = (i as u64, j as u64);
    crate::ids::wrapping_product_is_undone(x, 0xD1B5_4A32_D192_ED03, 0x0610_6CCF_A448_E5AB);
    crate::ids::wrapping_product_is_undone(y, 0xD1B5_4A32_D192_ED03, 0x0610_6CCF_A448_E5AB);
    let common = seed ^ level_bits.wrapping_mul(0x9E37_79B9) ^ ((p_index as u64) << 32u64);
    let a = x.wrapping_mul(0xD1B5_4A32_D192_ED03);
    let b = y.wrapping_mul(0xD1B5_4A32_D192_ED03);
    assert(a != b ==> common ^ a != common ^ b) by (bit_vector);
}

/// The particles of the next level, where it came to this with the first particles of a
/// level.
pub open spec fn next_particles<S>(
    cfg: SplittingConfig,
    level: int,
    particles: Seq<ParticleView>,
    outcomes: Seq<SplitOutcome<S>>,
) -> Seq<ParticleView>
    decreases outcomes.len(),
{
    if outcomes.len() == 0 {
        Seq::empty()
    } else {
        let front = next_particles(cfg, level, particles, outcomes.drop_last());
        let i = outcomes.len() - 1;
        match outcomes.last() {
            SplitOutcome::Reached(prefix) => with_branches(
                front,
                prefix@,
                particles[i].seed,
                cfg.levels@[level],
                i as usize,
                cfg.branch_factor as nat,
                cfg.max_particles_per_level as nat,
            ),
            _ => front,
        }
    }
}

/// The particles of a level, where it came to this at the levels before.
pub open spec fn level_particles<S>(
    cfg: SplittingConfig,
    seed: u64,
    levels: Seq<Seq<SplitOutcome<S>>>,
    level: int,
) -> Seq<ParticleView>
    decreases level,
{
    if level <= 0 {
        seq![ParticleView { prefix: None, seed }]
    } else {
        next_particles(
            cfg,
            level - 1,
            level_particles(cfg, seed, levels, level - 1),
            levels[level - 1],
        )
    }
}

/// Whether a trial of a particle at a level can have this outcome.
pub open spec fn split_gives<S, F: Fn(&SplitParticle, usize) -> Result<SplitOutcome<S>, HarnessError>>(
    trial: F,
    particle: ParticleView,
    level: int,
    outcome: Result<SplitOutcome<S>, HarnessError>,
) -> bool {
    exists|p: SplitParticle|
        p@ == particle && #[trigger] call_ensures(trial, (&p, level as usize), outcome)
}

/// Whether these are outcomes of the first particles of a level, and it happened in none
/// of them.
pub open spec fn are_level_outcomes<
    S,
    F: Fn(&SplitParticle, usize) -> Result<SplitOutcome<S>, HarnessError>,
>(
    trial: F,
    particles: Seq<ParticleView>,
    level: int,
    outcomes: Seq<SplitOutcome<S>>,
) -> bool {
    &&& outcomes.len() <= particles.len()
    &&& forall|i: int|
        0 <= i < outcomes.len() ==> (#[trigger] outcomes[i]) !is Found && split_gives(
            trial,
            particles[i],
            level,
            Ok(outcomes[i]),
        )
}

/// Whether a level is through with these outcomes.
pub open spec fn level_through<
    S,
    F: Fn(&SplitParticle, usize) -> Result<SplitOutcome<S>, HarnessError>,
>(
    trial: F,
    cfg: SplittingConfig,
    seed: u64,
    levels: Seq<Seq<SplitOutcome<S>>>,
    level: int,
) -> bool {
    let particles = level_particles(cfg, seed, levels, level);
    &&& particles.len() > 0
    &&& levels[level].len() == particles.len()
    &&& are_level_outcomes(trial, particles, level, levels[level])
}

/// Whether the first levels of a search are through with these outcomes. It happened at
/// none of them.
pub open spec fn levels_through<
    S,
    F: Fn(&SplitParticle, usize) -> Result<SplitOutcome<S>, HarnessError>,
>(trial: F, cfg: SplittingConfig, seed: u64, levels: Seq<Seq<SplitOutcome<S>>>) -> bool {
    &&& levels.len() <= cfg.levels@.len()
    &&& forall|i: int|
        0 <= i < levels.len() ==> #[trigger] level_through(trial, cfg, seed, levels, i)
}

/// Whether a search can come to this end: after some levels and some particles of the
/// next one, the trial of a particle finds it or fails.
pub open spec fn search_ends<
    S,
    F: Fn(&SplitParticle, usize) -> Result<SplitOutcome<S>, HarnessError>,
>(
    trial: F,
    cfg: SplittingConfig,
    seed: u64,
    levels: Seq<Seq<SplitOutcome<S>>>,
    outcomes: Seq<SplitOutcome<S>>,
    end: Result<SplitOutcome<S>, HarnessError>,
) -> bool {
    let level = levels.len() as int;
    let particles = level_particles(cfg, seed, levels, level);
    &&& levels_through(trial, cfg, seed, levels)
    &&& levels.len() < cfg.levels@.len()
    &&& are_level_outcomes(trial, particles, level, outcomes)
    &&& outcomes.len() < particles.len()
    &&& split_gives(trial, particles[outcomes.len() as int], level, end)
}

/// Whether a search can find this run.
pub open spec fn search_finds<
    S,
    F: Fn(&SplitParticle, usize) -> Result<SplitOutcome<S>, HarnessError>,
>(
    trial: F,
    cfg: SplittingConfig,
    seed: u64,
    levels: Seq<Seq<SplitOutcome<S>>>,
    outcomes: Seq<SplitOutcome<S>>,
    bug: FoundBug<S>,
) -> bool {
    search_ends(trial, cfg, seed, levels, outcomes, Ok(SplitOutcome::Found(bug)))
}

proof fn lemma_one_more_split<S>(
    cfg: SplittingConfig,
    level: int,
    particles: Seq<ParticleView>,
    outcomes: Seq<SplitOutcome<S>>,
    outcome: SplitOutcome<S>,
)
    ensures
        next_particles(cfg, level, particles, outcomes.push(outcome)) == match outcome {
            SplitOutcome::Reached(prefix) => with_branches(
                next_particles(cfg, level, particles, outcomes),
                prefix@,
                particles[outcomes.len() as int].seed,
                cfg.levels@[level],
                outcomes.len() as usize,
                cfg.branch_factor as nat,
                cfg.max_particles_per_level as nat,
            ),
            _ => next_particles(cfg, level, particles, outcomes),
        },
{
    assert(outcomes.push(outcome).drop_last() =~= outcomes);
}

proof fn lemma_earlier_levels<S>(
    cfg: SplittingConfig,
    seed: u64,
    levels: Seq<Seq<SplitOutcome<S>>>,
    outcomes: Seq<SplitOutcome<S>>,
    level: int,
)
    requires
        level <= levels.len(),
    ensures
        level_particles(cfg, seed, levels.push(outcomes), level) == level_particles(
            cfg,
            seed,
            levels,
            level,
        ),
    decreases level,
{
    if level > 0 {
        lemma_earlier_levels(cfg, seed, levels, outcomes, level - 1);
        assert(levels.push(outcomes)[level - 1] == levels[level - 1]);
    }
}

proof fn lemma_one_more_level<
    S,
    F: Fn(&SplitParticle, usize) -> Result<SplitOutcome<S>, HarnessError>,
>(
    trial: F,
    cfg: SplittingConfig,
    seed: u64,
    levels: Seq<Seq<SplitOutcome<S>>>,
    outcomes: Seq<SplitOutcome<S>>,
)
    requires
        levels_through(trial, cfg, seed, levels),
        levels.len() < cfg.levels@.len(),
        level_particles(cfg, seed, levels, levels.len() as int).len() > 0,
        outcomes.len() == level_particles(cfg, seed, levels, levels.len() as int).len(),
        are_level_outcomes(
            trial,
            level_particles(cfg, seed, levels, levels.len() as int),
            levels.len() as int,
            outcomes,
        ),
    ensures
        levels_through(trial, cfg, seed, levels.push(outcomes)),
        level_particles(cfg, seed, levels.push(outcomes), (levels.len() + 1) as int) == next_particles(
            cfg,
            levels.len() as int,
            level_particles(cfg, seed, levels, levels.len() as int),
            outcomes,
        ),
{
    let all = levels.push(outcomes);
    assert forall|i: int| 0 <= i < all.len() implies #[trigger] level_through(
        trial,
        cfg,
        seed,
        all,
        i,
    ) by {
        lemma_earlier_levels(cfg, seed, levels, outcomes, i);
        if i < levels.len() {
            assert(level_through(trial, cfg, seed, levels, i));
        }
    }
    lemma_earlier_levels(cfg, seed, levels, outcomes, levels.len() as int);
}

/// Looks for a run in which it happens. The runs that reach a level are split, and the
/// branches go on to the next level. The search ends with the first run in which it
/// happens, where no run reaches a level, and after the last one. The first error ends
/// the search.
pub fn find_with_splitting<
    S,
    F: Fn(&SplitParticle, usize) -> Result<SplitOutcome<S>, HarnessError>,
>(cfg: SplittingConfig, seed: u64, trial: F) -> (found: Result<
    Option<FoundBug<S>>,
    SplittingError,
>)
    requires
        forall|p: SplitParticle, level: usize| call_requires(trial, (&p, level)),
    ensures
        match found {
            Ok(None) => exists|levels: Seq<Seq<SplitOutcome<S>>>|
                {
                    &&& #[trigger] levels_through(trial, cfg, seed, levels)
                    &&& levels.len() == cfg.levels@.len() || level_particles(
                        cfg,
                        seed,
                        levels,
                        levels.len() as int,
                    ).len() == 0
                },
            Ok(Some(bug)) => exists|
                levels: Seq<Seq<SplitOutcome<S>>>,
                outcomes: Seq<SplitOutcome<S>>,
            |
                #[trigger] search_finds(trial, cfg, seed, levels, outcomes, bug),
            Err(SplittingError::Harness(e)) => exists|
                levels: Seq<Seq<SplitOutcome<S>>>,
                outcomes: Seq<SplitOutcome<S>>,
            |
                #[trigger] search_ends(trial, cfg, seed, levels, outcomes, Err(e)),
        },
{
    let ghost given = cfg;
    let mut search: SplittingSearch<S> = SplittingSearch::start(cfg, seed);
    let ghost mut levels: Seq<Seq<SplitOutcome<S>>> = Seq::empty();
    while !search.done
        invariant
            forall|p: SplitParticle, level: usize| call_requires(trial, (&p, level)),
            search.wf(),
            given == cfg,
            search.cfg == given,
            search.found is None,
            levels_through(trial, given, seed, levels),
            !search.done ==> {
                &&& search.level == levels.len()
                &&& search.next == 0
                &&& search.next_level@.len() == 0
                &&& split_views(search.particles@) == level_particles(
                    given,
                    seed,
                    levels,
                    levels.len() as int,
                )
            },
            search.done ==> levels.len() == given.levels@.len() || level_particles(
                given,
                seed,
                levels,
                levels.len() as int,
            ).len() == 0,
        decreases given.levels@.len() - search.level + if search.done {
            0int
        } else {
            1
        },
    {
        let ghost mut outcomes: Seq<SplitOutcome<S>> = Seq::empty();
        let ghost level = levels.len() as int;
        let ghost particles = level_particles(given, seed, levels, level);
        let ghost tried = search.particles@;
        proof {
            assert(split_views(search.next_level@) =~= Seq::empty());
        }
        while search.next < search.particles.len()
            invariant
                forall|p: SplitParticle, level: usize| call_requires(trial, (&p, level)),
                search.wf(),
                !search.done,
                given == cfg,
                search.cfg == given,
                search.found is None,
                level == levels.len(),
                search.level == level,
                levels_through(trial, given, seed, levels),
                particles == level_particles(given, seed, levels, level),
                search.particles@ == tried,
                split_views(tried) == particles,
                are_level_outcomes(trial, particles, level, outcomes),
                outcomes.len() == search.next,
                split_views(search.next_level@) == next_particles(
                    given,
                    level,
                    particles,
                    outcomes,
                ),
            decreases search.particles@.len() - search.next,
        {
            let particle: &SplitParticle = &search.particles[search.next];
            proof {
                assert(particles[search.next as int] == particle@);
                assert(level as usize == search.level);
                assert(particles.len() == tried.len());
            }
            let outcome = trial(particle, search.level);
            proof {
                assert(split_gives(trial, particles[outcomes.len() as int], level, outcome));
            }
            match outcome {
                Err(e) => {
                    proof {
                        assert(search_ends(trial, given, seed, levels, outcomes, Err(e)));
                    }
                    return Err(SplittingError::Harness(e));
                },
                Ok(SplitOutcome::Found(bug)) => {
                    proof {
                        assert(search_finds(trial, cfg, seed, levels, outcomes, bug));
                        let found: Result<Option<FoundBug<S>>, SplittingError> = Ok(Some(bug));
                        assert(found matches Ok(Some(b)) && b == bug);
                    }
                    return Ok(Some(bug));
                },
                Ok(other) => {
                    let ghost before = outcomes;
                    proof {
                        lemma_one_more_split(given, level, particles, before, other);
                        outcomes = before.push(other);
                        assert forall|i: int| 0 <= i < outcomes.len() implies (
                        #[trigger] outcomes[i]) !is Found && split_gives(
                            trial,
                            particles[i],
                            level,
                            Ok(outcomes[i]),
                        ) by {
                            if i < before.len() {
                                assert(outcomes[i] == before[i]);
                            }
                        }
                    }
                    search.record(other);
                },
            }
        }
        let ghost next = split_views(search.next_level@);
        proof {
            assert(particles.len() == tried.len());
            assert(next.len() == search.next_level@.len());
            lemma_one_more_level(trial, given, seed, levels, outcomes);
            levels = levels.push(outcomes);
        }
        search.finish_level();
    }
    proof {
        assert(levels_through(trial, given, seed, levels));
    }
    Ok(search.found)
}

} // verus!
