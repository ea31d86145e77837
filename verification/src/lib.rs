//! A particle-life simulation engine: a population of typed point
//! particles exerting pairwise forces on each other under a per-type-pair
//! rule set, advanced one tick at a time under a configurable boundary
//! policy.
//!
//! All coordinates, radii and coefficients are fixed-point integers with
//! `UNIT` (1000) fractional steps per whole unit; every contract is stated
//! over this exact arithmetic.
//!
//! - [`force`] holds the pairwise force law: zero outside the interaction
//!   band, a triangular attraction profile between `min_r` and `max_r`,
//!   and a smoothed short-range repulsion below `min_r` that meets the
//!   triangular branch (both zero) at `min_r` itself.
//! - [`ruleset`] holds the validated per-simulation parameters and the
//!   flattened per-type-pair cache the hot loop reads.
//! - [`boundary`] holds the domain policies: open, reflecting walls, or a
//!   periodic torus, with their displacement corrections.
//! - [`random`] and [`config`] hold the explicit random source and the
//!   distribution descriptors that generate rule sets and initial
//!   placements from it, deterministically per source state.
//! - [`simulation`] ties it together: one tick evaluates every pairwise
//!   force against a frozen snapshot of the particle array, then
//!   integrates and enforces the boundary, with no partially updated
//!   state ever observable.

pub mod boundary;
pub mod config;
pub mod fixed;
pub mod force;
pub mod matrix;
pub mod random;
pub mod ruleset;
pub mod simulation;
