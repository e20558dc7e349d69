//! A fixed-timestep 2-D particle physics core.
//!
//! The crate advances point particles under gravity with axis-aligned
//! boundary reflection, optionally resolves pairwise collisions through a
//! uniform spatial hash grid, and publishes per-frame position snapshots
//! through a single-slot, latest-wins channel model.
//!
//! All simulation state is kept in a fixed-point numeric representation
//! (scaled 64-bit integers, see [`fx`]), so every arithmetic step of the
//! core carries an exact contract.

pub mod collision;
pub mod fx;
pub mod grid;
pub mod limited;
pub mod particles;
pub mod rng;
pub mod snapshot;
