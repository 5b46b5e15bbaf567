//! Script lifecycle states.

use vstd::prelude::*;

use crate::errors::ScriptError;

verus! {

/// Lifecycle state of a managed script.
///
/// Failure policy: a script error stops only that script; the world, the
/// tick loop and every other script keep running. Restarting a failed
/// script is manual by design.
#[derive(Debug, Clone, PartialEq, Eq)]
pub enum ScriptState {
    /// Alive; resumed on the next world step.
    Running,
    /// Alive, but the instruction budget for the current tick is spent: a
    /// pause, not a failure. Continues next tick from the same spot.
    SuspendedBudget,
    /// Ran to completion.
    Finished,
    /// Died on a script error; stays down until a manual restart.
    Failed(ScriptError),
}

impl ScriptState {
    /// Whether the script is still alive (will make progress).
    pub fn is_alive(&self) -> (alive: bool)
        ensures
            alive == (*self is Running || *self is SuspendedBudget),
    {
        match self {
            ScriptState::Running | ScriptState::SuspendedBudget => true,
            _ => false,
        }
    }

    /// The short name the HUD shows for the state: `running`, `suspended`,
    /// `finished` or `error`.
    pub fn label(&self) -> (name: &'static str)
        ensures
            name@ == state_label(*self),
    {
        match self {
            ScriptState::Running => "running",
            ScriptState::SuspendedBudget => "suspended",
            ScriptState::Finished => "finished",
            ScriptState::Failed(_) => "error",
        }
    }
}

/// The short name of a state.
pub open spec fn state_label(state: ScriptState) -> Seq<char> {
    match state {
        ScriptState::Running => "running"@,
        ScriptState::SuspendedBudget => "suspended"@,
        ScriptState::Finished => "finished"@,
        ScriptState::Failed(_) => "error"@,
    }
}

} // verus!
