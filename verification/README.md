# descartes

A deterministic, single-threaded discrete event simulation core together with tools that
explore its schedules: traces, replay, scripted choices, policy search, splitting and
monitoring. What each part does is stated in its contract and proved by Verus.

## Layout

- `src/` is the library.
  - `time`, `duration`, `ids`, `key`, `task_id`, `types`, `text`: values.
  - `event`, `frontier_policy`, `scheduler`, `task`, `component`, `simulation`, `execute`:
    the simulation.
  - `async_runtime`, `ready_policy`, `des_runtime`: tasks that are polled in simulation time.
  - `scheduler_laws`, `runtime_laws`: what holds across calls.
  - `reproducibility`, `runtime_determinism`: runs that start in the same state stay in the
    same state, with runtimes for async tasks too.
  - `dists`, `randomness`, `rng`, `measurement`, `process`, `environment`, `error`, `formal`:
    models and what they measure.
  - `explore`: traces, recording and replay (`replay_laws`: a recorded run is repeated by its
    replay), scripts, tables, policy search, estimates, splitting, monitors. Whole studies
    take a function that makes one trial.
- `tests/` holds scenarios on concrete values.
- `app/` is ordinary Rust around the library: floating-point distributions and statistics,
  trace files, futures, logging, and the trials of studies.

Floating-point numbers are kept as their bits in the library.
