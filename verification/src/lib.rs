//! Neogen: the deterministic core of a programming/automation game in
//! which players steer rovers with Lua scripts.
//!
//! The crate holds the verified parts of the simulation: typed ids and
//! their issuer, the seeded random generator, the FNV-1a state hash, the
//! world state with its rover registry and the tick driver, the snapshot
//! codec, command validation and the rovers' command queues; and the
//! script side: the error taxonomy, the log buffer, budget accounting, the
//! script lifecycle and scheduling decisions, the script API's checks, the
//! sandbox, and the script store.

pub mod api;
pub mod budget;
pub mod commands;
pub mod errors;
pub mod hash;
pub mod ids;
pub mod lifecycle;
pub mod logbuffer;
pub mod lua_globals;
pub mod order;
pub mod rng;
pub mod rover;
pub mod sandbox;
pub mod script_store;
pub mod scheduler;
pub mod snapshot;
pub mod text;
pub mod tick;
pub mod world;

use vstd::prelude::*;

verus! {

/// Version of the simulation engine API (the crate version).
pub fn engine_version() -> (v: &'static str)
    ensures
        v@ == "0.1.0"@,
{
    "0.1.0"
}

} // verus!
