//! A discrete event simulation core and its schedule exploration tools, with
//! their behaviour stated and proved.

pub mod assoc_map;
pub mod async_runtime;
pub mod basic_laws;
pub mod call_laws;
pub mod component;
pub mod des_runtime;
pub mod dists;
pub mod dists_laws;
pub mod duration;
pub mod environment;
pub mod error;
pub mod event;
pub mod execute;
pub mod explore;
pub mod formal;
pub mod frontier_policy;
pub mod ids;
pub mod key;
pub mod measurement;
pub mod process;
pub mod randomness;
pub mod ready_policy;
pub mod reproducibility;
pub mod rng;
pub mod runtime_determinism;
pub mod runtime_effects;
pub mod runtime_laws;
pub mod scheduler;
pub mod scheduler_effects;
pub mod scheduler_laws;
pub mod simulation;
pub mod simulation_effects;
pub mod task;
pub mod task_id;
pub mod text;
pub mod time;
pub mod types;
