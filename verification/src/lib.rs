//! Node-level resource governance: evaluate per-process policy rules over
//! resource snapshots, track sustained violations with a dwell-time
//! hysteresis state machine, and plan idempotent containment actions
//! against a cgroup-style backend.

pub mod config;
pub mod errors;
pub mod limiter;
pub mod metrics;
pub mod process;
pub mod rules;
pub mod state;
