//! Policies that pick one of the events that are due at the same time.

use crate::event::FrontierEvent;
use crate::rng::{draw_below, seeded_rng};
use crate::time::SimTime;
use rand::rngs::StdRng;
use vstd::prelude::*;

verus! {

/// A policy for choosing among the events that are due at the same time.
pub trait EventFrontierPolicy: Sized {
    /// Whether the policy may select `index` and become `after`.
    open spec fn selects(
        before: Self,
        time: SimTime,
        frontier: Seq<FrontierEvent>,
        after: Self,
        index: usize,
    ) -> bool {
        true
    }

    /// Selects one of the events by its index.
    fn select(&mut self, time: SimTime, frontier: &[FrontierEvent]) -> (index: usize)
        ensures
            Self::selects(*old(self), time, frontier@, *final(self), index),
    ;
}

/// The sequence numbers of a frontier.
pub open spec fn seqs_of(frontier: Seq<FrontierEvent>) -> Seq<u64> {
    frontier.map_values(|e: FrontierEvent| e.seq)
}

/// What identifies a choice among events that are due at the same time.
#[derive(Debug, PartialEq, Eq)]
pub struct FrontierSignature {
    pub time_nanos: u64,
    pub frontier_seqs: Vec<u64>,
}

impl FrontierSignature {
    pub fn new(time: SimTime, frontier: &[FrontierEvent]) -> (signature: Self)
        ensures
            signature.time_nanos == time.0,
            signature.frontier_seqs@ == seqs_of(frontier@),
    {
        FrontierSignature { time_nanos: time.0, frontier_seqs: frontier_seqs(frontier) }
    }
}

/// Collects the sequence numbers of a frontier.
pub fn frontier_seqs(frontier: &[FrontierEvent]) -> (seqs: Vec<u64>)
    ensures
        seqs@ == seqs_of(frontier@),
{
    let mut seqs: Vec<u64> = Vec::new();
    let mut i: usize = 0;
    while i < frontier.len()
        invariant
            i <= frontier@.len(),
            seqs@ == seqs_of(frontier@.take(i as int)),
        decreases frontier@.len() - i,
    {
        seqs.push(frontier[i].seq);
        i = i + 1;
        proof {
            assert(seqs@ =~= seqs_of(frontier@.take(i as int)));
        }
    }
    proof {
        assert(frontier@.take(i as int) =~= frontier@);
    }
    seqs
}

/// Whether `index` is the first one whose event has the smallest sequence number.
pub open spec fn is_first_smallest(frontier: Seq<FrontierEvent>, index: int) -> bool {
    &&& 0 <= index < frontier.len()
    &&& forall|i: int| 0 <= i < frontier.len() ==> frontier[index].seq <= (#[trigger] frontier[i]).seq
    &&& forall|i: int| 0 <= i < index ==> frontier[index].seq < (#[trigger] frontier[i]).seq
}

/// First in, first out: the event with the smallest sequence number.
#[derive(Debug, Clone, Copy)]
pub struct FifoFrontierPolicy;

impl Default for FifoFrontierPolicy {
    fn default() -> (policy: Self)
        ensures
            policy == FifoFrontierPolicy,
    {
        FifoFrontierPolicy
    }
}

impl EventFrontierPolicy for FifoFrontierPolicy {
    open spec fn selects(
        before: Self,
        time: SimTime,
        frontier: Seq<FrontierEvent>,
        after: Self,
        index: usize,
    ) -> bool {
        &&& frontier.len() == 0 ==> index == 0
        &&& frontier.len() > 0 ==> is_first_smallest(frontier, index as int)
    }

    fn select(&mut self, time: SimTime, frontier: &[FrontierEvent]) -> (index: usize) {
        if frontier.len() == 0 {
            return 0;
        }
        let mut best: usize = 0;
        let mut i: usize = 1;
        while i < frontier.len()
            invariant
                best < i <= frontier@.len(),
                forall|k: int| 0 <= k < i ==> frontier@[best as int].seq <= (#[trigger] frontier@[k]).seq,
                forall|k: int| 0 <= k < best ==> frontier@[best as int].seq < (#[trigger] frontier@[k]).seq,
            decreases frontier@.len() - i,
        {
            if frontier[i].seq < frontier[best].seq {
                best = i;
            }
            i = i + 1;
        }
        best
    }
}

/// A uniformly random choice, which is determined by the seed.
#[derive(Debug)]
pub struct UniformRandomFrontierPolicy {
    rng: StdRng,
}

/// What a seeded generator chooses among a number of alternatives, and the
/// generator that it becomes.
pub open spec fn uniform_choice(rng: StdRng, len: nat) -> (usize, StdRng) {
    if len == 0 {
        (0, rng)
    } else {
        crate::rng::rng_below(rng, len as usize, usize::BITS)
    }
}

/// Draws an index below a length, and zero where there is none.
pub(crate) fn draw_index(rng: &mut StdRng, len: usize) -> (index: usize)
    ensures
        (index, *final(rng)) == uniform_choice(*old(rng), len as nat),
        len > 0 ==> index < len,
{
    if len == 0 {
        return 0;
    }
    draw_below(rng, len)
}

impl UniformRandomFrontierPolicy {
    /// The state of the generator.
    pub closed spec fn state(self) -> StdRng {
        self.rng
    }

    pub fn new(seed: u64) -> (policy: Self)
        ensures
            policy.state() == crate::rng::rng_seeded(seed),
    {
        UniformRandomFrontierPolicy { rng: seeded_rng(seed) }
    }
}

impl EventFrontierPolicy for UniformRandomFrontierPolicy {
    open spec fn selects(
        before: Self,
        time: SimTime,
        frontier: Seq<FrontierEvent>,
        after: Self,
        index: usize,
    ) -> bool {
        &&& (index, after.state()) == uniform_choice(before.state(), frontier.len())
        &&& frontier.len() > 0 ==> index < frontier.len()
    }

    fn select(&mut self, time: SimTime, frontier: &[FrontierEvent]) -> (index: usize) {
        draw_index(&mut self.rng, frontier.len())
    }
}

/// Two uniform policies in the same state select the same index of frontiers of
/// the same length, and are in the same state afterwards.
pub proof fn uniform_selection_is_reproducible(
    p: UniformRandomFrontierPolicy,
    q: UniformRandomFrontierPolicy,
    t: SimTime,
    u: SimTime,
    f: Seq<FrontierEvent>,
    g: Seq<FrontierEvent>,
    p2: UniformRandomFrontierPolicy,
    q2: UniformRandomFrontierPolicy,
    i: usize,
    j: usize,
)
    requires
        p.state() == q.state(),
        f.len() == g.len(),
        UniformRandomFrontierPolicy::selects(p, t, f, p2, i),
        UniformRandomFrontierPolicy::selects(q, u, g, q2, j),
    ensures
        i == j,
        p2.state() == q2.state(),
{
}

} // verus!
