//! Fixed-timestep mechanics of the simulation.
//!
//! The world never advances by wall-clock deltas: every logical change
//! happens in whole steps, each worth one tick of `1 / TICK_HZ` seconds.
//! Hosts accumulate real time and issue whole steps, never partial ones, so
//! the simulation is reproducible from a seed alone.

use vstd::prelude::*;

verus! {

/// Simulation frequency: 30 logical ticks per second. Part of the meaning
/// of saved worlds.
pub const TICK_HZ: u32 = 30;

} // verus!
