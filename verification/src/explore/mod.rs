//! Recording, replaying and exploring the decisions of a simulation.

pub mod choices;
pub mod concurrency;
pub mod decision_laws;
pub mod estimate;
pub mod frontier;
pub mod harness;
pub mod histogram;
pub mod io;
pub mod monitor;
pub mod monitor_laws;
pub mod mutation;
pub mod policy;
pub mod policy_search;
pub mod ready_task;
pub mod replay_laws;
pub mod replay_rng;
pub mod rollout;
pub mod schedule_explore;
pub mod seeds;
pub mod splitting;
pub mod study_laws;
pub mod trace;
