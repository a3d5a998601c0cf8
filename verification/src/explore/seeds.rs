//! Seeds of the trials of a study, derived from one seed.

use crate::ids::{scramble, GOLDEN_GAMMA};
use vstd::prelude::*;

verus! {

/// The seed number `i` of those that are derived from one.
pub open spec fn derived_seed(base: u64, i: u64) -> u64 {
    crate::ids::scrambled(base.wrapping_add(i.wrapping_mul(GOLDEN_GAMMA)))
}

/// Derives the seed number `i` from one.
pub fn derive_seed(base: u64, i: u64) -> (seed: u64)
    ensures
        seed == derived_seed(base, i),
{
    scramble(base.wrapping_add(i.wrapping_mul(GOLDEN_GAMMA)))
}

/// The seeds that are derived from one are distinct.
pub proof fn derived_seeds_are_distinct(base: u64, i: u64, j: u64)
    requires
        i != j,
    ensures
        derived_seed(base, i) != derived_seed(base, j),
{
    if derived_seed(base, i) == derived_seed(base, j) {
        crate::ids::scrambled_is_injective(
            base.wrapping_add(i.wrapping_mul(GOLDEN_GAMMA)),
            base.wrapping_add(j.wrapping_mul(GOLDEN_GAMMA)),
        );
        crate::ids::wrapping_product_is_undone(i, GOLDEN_GAMMA, 0xF1DE_83E1_9937_733D);
        crate::ids::wrapping_product_is_undone(j, GOLDEN_GAMMA, 0xF1DE_83E1_9937_733D);
    }
}

/// Seeds of the same number that are derived from distinct ones are distinct.
pub proof fn derived_seeds_follow_their_base(a: u64, b: u64, i: u64)
    requires
        a != b,
    ensures
        derived_seed(a, i) != derived_seed(b, i),
{
    if derived_seed(a, i) == derived_seed(b, i) {
        crate::ids::scrambled_is_injective(
            a.wrapping_add(i.wrapping_mul(GOLDEN_GAMMA)),
            b.wrapping_add(i.wrapping_mul(GOLDEN_GAMMA)),
        );
    }
}

/// The seeds of one trial of a policy: that of the model, and those of the choices
/// among events and among ready tasks.
#[derive(Debug, Clone, Copy, PartialEq, Eq, Structural)]
pub struct RolloutSeeds {
    pub model_seed: u64,
    pub frontier_seed: u64,
    pub ready_seed: u64,
}

/// The seeds of the trial number `i` of a policy.
pub open spec fn seeds_of_rollout(base: u64, i: u64) -> RolloutSeeds {
    let policy_seed = derived_seed(base ^ 0xA0A0_A0A0_A0A0_A0A0, i);
    RolloutSeeds {
        model_seed: derived_seed(base, i),
        frontier_seed: derived_seed(policy_seed ^ 0xF00D_F00D_F00D_F00D, 0),
        ready_seed: derived_seed(policy_seed ^ 0xBEEF_BEEF_BEEF_BEEF, 0),
    }
}

/// Derives the seeds of the trial number `i` of a policy.
pub fn rollout_seeds(base: u64, i: u64) -> (seeds: RolloutSeeds)
    ensures
        seeds == seeds_of_rollout(base, i),
{
    let policy_seed: u64 = derive_seed(base ^ 0xA0A0_A0A0_A0A0_A0A0, i);
    RolloutSeeds {
        model_seed: derive_seed(base, i),
        frontier_seed: derive_seed(policy_seed ^ 0xF00D_F00D_F00D_F00D, 0),
        ready_seed: derive_seed(policy_seed ^ 0xBEEF_BEEF_BEEF_BEEF, 0),
    }
}

/// Within one trial, the choices among events and among ready tasks are seeded apart,
/// and no two trials have the same seed for the model.
pub proof fn rollout_seeds_are_apart(base: u64, i: u64, j: u64)
    ensures
        seeds_of_rollout(base, i).frontier_seed != seeds_of_rollout(base, i).ready_seed,
        i != j ==> seeds_of_rollout(base, i).model_seed != seeds_of_rollout(base, j).model_seed,
        i != j ==> seeds_of_rollout(base, i).frontier_seed != seeds_of_rollout(
            base,
            j,
        ).frontier_seed,
        i != j ==> seeds_of_rollout(base, i).ready_seed != seeds_of_rollout(base, j).ready_seed,
{
    let p = derived_seed(base ^ 0xA0A0_A0A0_A0A0_A0A0, i);
    let q = derived_seed(base ^ 0xA0A0_A0A0_A0A0_A0A0, j);
    assert(p ^ 0xF00D_F00D_F00D_F00D != p ^ 0xBEEF_BEEF_BEEF_BEEF) by (bit_vector);
    derived_seeds_follow_their_base(p ^ 0xF00D_F00D_F00D_F00D, p ^ 0xBEEF_BEEF_BEEF_BEEF, 0);
    if i != j {
        derived_seeds_are_distinct(base, i, j);
        derived_seeds_are_distinct(base ^ 0xA0A0_A0A0_A0A0_A0A0, i, j);
        assert(p != q ==> p ^ 0xF00D_F00D_F00D_F00D != q ^ 0xF00D_F00D_F00D_F00D) by (bit_vector);
        assert(p != q ==> p ^ 0xBEEF_BEEF_BEEF_BEEF != q ^ 0xBEEF_BEEF_BEEF_BEEF) by (bit_vector);
        derived_seeds_follow_their_base(p ^ 0xF00D_F00D_F00D_F00D, q ^ 0xF00D_F00D_F00D_F00D, 0);
        derived_seeds_follow_their_base(p ^ 0xBEEF_BEEF_BEEF_BEEF, q ^ 0xBEEF_BEEF_BEEF_BEEF, 0);
    }
}

/// Trials of the same number that are seeded from distinct seeds have distinct ones.
pub proof fn rollout_seeds_follow_their_base(a: u64, b: u64, i: u64)
    requires
        a != b,
    ensures
        seeds_of_rollout(a, i).model_seed != seeds_of_rollout(b, i).model_seed,
        seeds_of_rollout(a, i).frontier_seed != seeds_of_rollout(b, i).frontier_seed,
        seeds_of_rollout(a, i).ready_seed != seeds_of_rollout(b, i).ready_seed,
{
    let p = derived_seed(a ^ 0xA0A0_A0A0_A0A0_A0A0, i);
    let q = derived_seed(b ^ 0xA0A0_A0A0_A0A0_A0A0, i);
    derived_seeds_follow_their_base(a, b, i);
    assert(a != b ==> a ^ 0xA0A0_A0A0_A0A0_A0A0 != b ^ 0xA0A0_A0A0_A0A0_A0A0) by (bit_vector);
    derived_seeds_follow_their_base(a ^ 0xA0A0_A0A0_A0A0_A0A0, b ^ 0xA0A0_A0A0_A0A0_A0A0, i);
    assert(p != q ==> p ^ 0xF00D_F00D_F00D_F00D != q ^ 0xF00D_F00D_F00D_F00D) by (bit_vector);
    assert(p != q ==> p ^ 0xBEEF_BEEF_BEEF_BEEF != q ^ 0xBEEF_BEEF_BEEF_BEEF) by (bit_vector);
    derived_seeds_follow_their_base(p ^ 0xF00D_F00D_F00D_F00D, q ^ 0xF00D_F00D_F00D_F00D, 0);
    derived_seeds_follow_their_base(p ^ 0xBEEF_BEEF_BEEF_BEEF, q ^ 0xBEEF_BEEF_BEEF_BEEF, 0);
}

} // verus!
