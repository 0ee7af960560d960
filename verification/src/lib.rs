//! Value iteration over a discretized grid world with a heading dimension.
//!
//! The state space is `(row, col, heading)`; a reward landscape (goal,
//! boundaries, an obstacle zone, a hazard zone) and a finite action set are
//! fixed up front, and the engine refines a value table by repeated Bellman
//! backups until the largest per-state change falls below a threshold.
//!
//! All quantities are fixed-point numbers: an `i64` counts millionths, so
//! `-1_000_000` stands for a reward of minus one. The tables live in
//! `ndarray` arrays behind the small trusted layer in [`grids`].

pub mod grids;
pub mod rewards;
pub mod actions;
pub mod rng;
pub mod engine;
