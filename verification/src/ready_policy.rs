//! Policies that pick the next async task among those that are ready.

use crate::frontier_policy::draw_index;
use crate::rng::seeded_rng;
use crate::time::SimTime;
use rand::rngs::StdRng;
use vstd::prelude::*;

verus! {

/// The identifier of an async task, unique within one runtime.
#[derive(Debug, Clone, Copy, PartialEq, Eq, Structural, Hash)]
pub struct TaskId(pub u64);

/// A policy for choosing among ready async tasks.
pub trait ReadyTaskPolicy: Sized {
    /// Whether the policy may select `index` and become `after`.
    open spec fn selects(
        before: Self,
        time: SimTime,
        ready: Seq<TaskId>,
        after: Self,
        index: usize,
    ) -> bool {
        true
    }

    /// Selects one of the ready tasks by its index.
    fn select(&mut self, time: SimTime, ready: &[TaskId]) -> (index: usize)
        ensures
            Self::selects(*old(self), time, ready@, *final(self), index),
    ;
}

/// First in, first out.
#[derive(Debug, Clone, Copy)]
pub struct FifoReadyTaskPolicy;

impl Default for FifoReadyTaskPolicy {
    fn default() -> (policy: Self)
        ensures
            policy == FifoReadyTaskPolicy,
    {
        FifoReadyTaskPolicy
    }
}

impl ReadyTaskPolicy for FifoReadyTaskPolicy {
    open spec fn selects(
        before: Self,
        time: SimTime,
        ready: Seq<TaskId>,
        after: Self,
        index: usize,
    ) -> bool {
        index == 0
    }

    fn select(&mut self, time: SimTime, ready: &[TaskId]) -> (index: usize) {
        0
    }
}

/// A uniformly random choice, which is determined by the seed.
#[derive(Debug)]
pub struct UniformRandomReadyTaskPolicy {
    rng: StdRng,
}

impl UniformRandomReadyTaskPolicy {
    /// The state of the generator.
    pub closed spec fn state(self) -> StdRng {
        self.rng
    }

    pub fn new(seed: u64) -> (policy: Self)
        ensures
            policy.state() == crate::rng::rng_seeded(seed),
    {
        UniformRandomReadyTaskPolicy { rng: seeded_rng(seed) }
    }
}

impl ReadyTaskPolicy for UniformRandomReadyTaskPolicy {
    open spec fn selects(
        before: Self,
        time: SimTime,
        ready: Seq<TaskId>,
        after: Self,
        index: usize,
    ) -> bool {
        &&& (index, after.state()) == crate::frontier_policy::uniform_choice(
            before.state(),
            ready.len(),
        )
        &&& ready.len() > 0 ==> index < ready.len()
    }

    fn select(&mut self, time: SimTime, ready: &[TaskId]) -> (index: usize) {
        draw_index(&mut self.rng, ready.len())
    }
}

/// Two uniform policies in the same state select the same index among as many
/// tasks, and are in the same state afterwards.
pub proof fn uniform_ready_selection_is_reproducible(
    p: UniformRandomReadyTaskPolicy,
    q: UniformRandomReadyTaskPolicy,
    t: SimTime,
    u: SimTime,
    f: Seq<TaskId>,
    g: Seq<TaskId>,
    p2: UniformRandomReadyTaskPolicy,
    q2: UniformRandomReadyTaskPolicy,
    i: usize,
    j: usize,
)
    requires
        p.state() == q.state(),
        f.len() == g.len(),
        UniformRandomReadyTaskPolicy::selects(p, t, f, p2, i),
        UniformRandomReadyTaskPolicy::selects(q, u, g, q2, j),
    ensures
        i == j,
        p2.state() == q2.state(),
{
}

/// The numbers of task identifiers.
pub open spec fn ids_of(ready: Seq<TaskId>) -> Seq<u64> {
    ready.map_values(|t: TaskId| t.0)
}

/// Collects the numbers of task identifiers.
pub fn ready_ids(ready: &[TaskId]) -> (ids: Vec<u64>)
    ensures
        ids@ == ids_of(ready@),
{
    let mut ids: Vec<u64> = Vec::new();
    let mut i: usize = 0;
    while i < ready.len()
        invariant
            i <= ready@.len(),
            ids@ == ids_of(ready@.take(i as int)),
        decreases ready@.len() - i,
    {
        ids.push(ready[i].0);
        i = i + 1;
        proof {
            assert(ids@ =~= ids_of(ready@.take(i as int)));
        }
    }
    proof {
        assert(ready@.take(i as int) =~= ready@);
    }
    ids
}

/// What identifies a choice among ready tasks.
#[derive(Debug, PartialEq, Eq)]
pub struct ReadyTaskSignature {
    pub time_nanos: u64,
    pub ready_task_ids: Vec<u64>,
}

impl ReadyTaskSignature {
    pub fn new(time: SimTime, ready: &[TaskId]) -> (signature: Self)
        ensures
            signature.time_nanos == time.0,
            signature.ready_task_ids@ == ids_of(ready@),
    {
        ReadyTaskSignature { time_nanos: time.0, ready_task_ids: ready_ids(ready) }
    }
}

} // verus!
