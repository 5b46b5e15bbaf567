//! Multi-script scheduling decisions.
//!
//! One world step is two phases, in this order: the execution phase
//! resumes every alive script in ascending script-id order, each with its
//! own per-tick budget; the world phase then applies the queued commands
//! and advances the simulation. The decisions of the execution phase are
//! stated here: which scripts are resumed, and what state a script is in
//! after its resume.

use vstd::prelude::*;

use crate::errors::{log_line, script_error_text, ScriptError};
use crate::lifecycle::ScriptState;

verus! {

/// How one resume of a script ended.
#[derive(Debug, Clone, PartialEq, Eq)]
pub enum ResumeOutcome {
    /// The script ran to its end.
    Completed,
    /// The script yielded on its own; it continues next tick.
    Yielded,
    /// The resume ended with an error (budget exhaustion included).
    Error(ScriptError),
}

/// Whether the scheduler resumes a script in this state: only alive ones
/// (a finished or failed coroutine is never resumed).
pub fn should_resume(state: &ScriptState) -> (resume: bool)
    ensures
        resume == (*state is Running || *state is SuspendedBudget),
{
    state.is_alive()
}

/// The ids of the alive scripts, in table order.
pub open spec fn alive_ids(scripts: Seq<(u32, ScriptState)>) -> Seq<u32>
    decreases scripts.len(),
{
    if scripts.len() == 0 {
        Seq::empty()
    } else {
        let rest = alive_ids(scripts.drop_last());
        let (id, state) = scripts.last();
        if state is Running || state is SuspendedBudget {
            rest.push(id)
        } else {
            rest
        }
    }
}

/// The execution phase of a tick: the ids of the scripts to resume, the
/// alive ones, in the order of the script table (ascending id in the host).
pub fn resume_order(scripts: &Vec<(u32, ScriptState)>) -> (ids: Vec<u32>)
    ensures
        ids@ == alive_ids(scripts@),
{
    let mut ids: Vec<u32> = Vec::new();
    let mut k: usize = 0;
    while k < scripts.len()
        invariant
            k <= scripts@.len(),
            ids@ == alive_ids(scripts@.take(k as int)),
        decreases scripts@.len() - k,
    {
        proof {
            assert(scripts@.take(k + 1).drop_last() =~= scripts@.take(k as int));
        }
        if should_resume(&scripts[k].1) {
            ids.push(scripts[k].0);
        }
        k = k + 1;
    }
    proof {
        assert(scripts@.take(scripts@.len() as int) =~= scripts@);
    }
    ids
}

/// The resumed ids keep the table's order and skip exactly the scripts
/// that are finished or failed: with ids ascending in the table, the
/// scripts are resumed in ascending id order, and no dead script is
/// resumed.
pub proof fn lemma_resume_order(scripts: Seq<(u32, ScriptState)>)
    requires
        forall|i: int, j: int| 0 <= i < j < scripts.len() ==> scripts[i].0 < scripts[j].0,
    ensures
        forall|i: int, j: int|
            0 <= i < j < alive_ids(scripts).len() ==> alive_ids(scripts)[i] < alive_ids(scripts)[j],
        forall|x: u32|
            alive_ids(scripts).contains(x) <==> exists|i: int|
                0 <= i < scripts.len() && scripts[i].0 == x && (scripts[i].1 is Running
                    || scripts[i].1 is SuspendedBudget),
    decreases scripts.len(),
{
    if scripts.len() > 0 {
        let d = scripts.drop_last();
        lemma_resume_order(d);
        let rest = alive_ids(d);
        let (id, state) = scripts.last();
        let alive = state is Running || state is SuspendedBudget;
        assert(alive_ids(scripts) == (if alive { rest.push(id) } else { rest }));
        assert forall|x: u32| rest.contains(x) implies x < id by {
            let i = choose|i: int| 0 <= i < d.len() && d[i].0 == x && (d[i].1 is Running || d[i].1 is SuspendedBudget);
            assert(scripts[i] == d[i]);
        }
        assert forall|x: u32|
            alive_ids(scripts).contains(x) <==> exists|i: int|
                0 <= i < scripts.len() && scripts[i].0 == x && (scripts[i].1 is Running
                    || scripts[i].1 is SuspendedBudget) by {
            if alive_ids(scripts).contains(x) {
                let a = choose|a: int| 0 <= a < alive_ids(scripts).len() && alive_ids(scripts)[a] == x;
                if a < rest.len() {
                    assert(rest[a] == x);
                    assert(rest.contains(x));
                    let i = choose|i: int| 0 <= i < d.len() && d[i].0 == x && (d[i].1 is Running || d[i].1 is SuspendedBudget);
                    assert(scripts[i] == d[i]);
                } else {
                    assert(scripts[scripts.len() - 1].0 == x);
                }
            }
            if exists|i: int|
                0 <= i < scripts.len() && scripts[i].0 == x && (scripts[i].1 is Running
                    || scripts[i].1 is SuspendedBudget) {
                let i = choose|i: int|
                    0 <= i < scripts.len() && scripts[i].0 == x && (scripts[i].1 is Running
                        || scripts[i].1 is SuspendedBudget);
                if i < scripts.len() - 1 {
                    assert(d[i] == scripts[i]);
                    assert(rest.contains(x));
                    let a = choose|a: int| 0 <= a < rest.len() && rest[a] == x;
                    assert(alive_ids(scripts)[a] == x);
                } else {
                    assert(alive_ids(scripts)[alive_ids(scripts).len() - 1] == x);
                }
            }
        }
        assert forall|i: int, j: int|
            0 <= i < j < alive_ids(scripts).len() implies alive_ids(scripts)[i] < alive_ids(scripts)[j] by {
            if j >= rest.len() {
                assert(rest.contains(rest[i]));
            }
        }
    }
}

/// State of a script after a resume, and the console line to log for a
/// failure: completion finishes the script, a yield keeps it running,
/// budget exhaustion suspends it (a pause), and any other error fails only
/// this script and is logged.
pub fn state_after_resume(outcome: ResumeOutcome) -> (res: (ScriptState, Option<String>))
    ensures
        match outcome {
            ResumeOutcome::Completed => res.0 == ScriptState::Finished && res.1 is None,
            ResumeOutcome::Yielded => res.0 == ScriptState::Running && res.1 is None,
            ResumeOutcome::Error(e) => if e is BudgetExceeded {
                res.0 == ScriptState::SuspendedBudget && res.1 is None
            } else {
                res.0 == ScriptState::Failed(e) && (res.1 matches Some(line) && line@ == "error: "@
                    + script_error_text(e))
            },
        },
{
    match outcome {
        ResumeOutcome::Completed => (ScriptState::Finished, None),
        ResumeOutcome::Yielded => (ScriptState::Running, None),
        ResumeOutcome::Error(error) => {
            match error {
                ScriptError::BudgetExceeded { .. } => (ScriptState::SuspendedBudget, None),
                _ => {
                    let line = log_line(&error);
                    (ScriptState::Failed(error), Some(line))
                },
            }
        },
    }
}

} // verus!
