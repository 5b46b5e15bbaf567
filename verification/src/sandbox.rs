//! Sandbox policy for player scripts.
//!
//! The script environment is built by whitelist (only the base, coroutine,
//! table, string, utf8 and math libraries are loaded); on top of that the
//! globals below are removed from a fresh state before any player code
//! runs: the never-loaded library tables (defensively), the standalone
//! loaders, the garbage-collector control, and the built-in `print`, which
//! each script environment replaces with a log-buffer-backed one.

use mlua::Lua;
use vstd::prelude::*;

use crate::errors::{truncation_of, ScriptError};
use crate::lua_globals::{globals_of, lua_error_text, raw_remove, RemovedGlobal};

verus! {

/// The standard libraries a script state loads besides the base library
/// (which is always there): coroutines and the pure-data libraries. `os`,
/// `io`, `package` and `debug` never enter the state.
pub open spec fn loaded_library_names() -> Seq<Seq<char>> {
    seq!["coroutine"@, "table"@, "string"@, "utf8"@, "math"@]
}

/// The standard libraries a script state is created with (the whitelist).
pub fn loaded_libraries() -> (names: Vec<&'static str>)
    ensures
        names@.len() == loaded_library_names().len(),
        forall|i: int| 0 <= i < names@.len() ==> #[trigger] names@[i]@ == loaded_library_names()[i],
{
    vec!["coroutine", "table", "string", "utf8", "math"]
}

/// The globals removed from a fresh script state.
pub open spec fn removed_global_names() -> Seq<Seq<char>> {
    seq![
        "os"@,
        "io"@,
        "package"@,
        "debug"@,
        "load"@,
        "loadfile"@,
        "dofile"@,
        "require"@,
        "collectgarbage"@,
        "print"@,
    ]
}

/// The globals the sandbox removes, in removal order.
pub fn removed_globals() -> (names: Vec<&'static str>)
    ensures
        names@.len() == removed_global_names().len(),
        forall|i: int| 0 <= i < names@.len() ==> #[trigger] names@[i]@ == removed_global_names()[i],
{
    vec!["os", "io", "package", "debug", "load", "loadfile", "dofile", "require", "collectgarbage", "print"]
}

/// The names of removal records, in order.
pub open spec fn removed_names(removed: Seq<RemovedGlobal>) -> Seq<Seq<char>> {
    removed.map_values(|r: RemovedGlobal| r.name())
}

/// Strip a fresh Lua state: remove the globals of [`removed_global_names`]
/// one by one, in order, stopping at the first removal that fails.
///
/// Returns the records of the removals that succeeded, in order, and the
/// outcome: `Ok` exactly when every listed global was removed; otherwise a
/// host-side runtime error (script id 0, tick 0) carrying the truncated
/// error text, after the globals before the failing one were removed.
pub fn install_sandbox(lua: &Lua) -> (r: (Vec<RemovedGlobal>, Result<(), ScriptError>))
    ensures
        r.0@.len() <= removed_global_names().len(),
        removed_names(r.0@) == removed_global_names().take(r.0@.len() as int),
        r.1 is Ok <==> r.0@.len() == removed_global_names().len(),
        r.1 matches Err(e) ==> (e matches ScriptError::Runtime { script_id, tick, message } && script_id == 0
            && tick == 0 && exists|text: Seq<char>| truncation_of(text, message@)),
{
    let globals = globals_of(lua);
    let names = removed_globals();
    let mut removed: Vec<RemovedGlobal> = Vec::new();
    let mut k: usize = 0;
    while k < names.len()
        invariant
            k <= names@.len(),
            names@.len() == removed_global_names().len(),
            forall|i: int| 0 <= i < names@.len() ==> #[trigger] names@[i]@ == removed_global_names()[i],
            removed@.len() == k,
            removed_names(removed@) == removed_global_names().take(k as int),
        decreases names@.len() - k,
    {
        match raw_remove(&globals, names[k]) {
            Ok(record) => {
                let ghost before = removed@;
                removed.push(record);
                proof {
                    assert(removed_names(removed@) =~= removed_names(before).push(names@[k as int]@));
                    assert(removed_global_names().take(k + 1) =~= removed_global_names().take(k as int).push(
                        removed_global_names()[k as int],
                    ));
                }
            },
            Err(error) => {
                let text = lua_error_text(&error);
                let e = ScriptError::runtime(0, 0, text.as_str());
                assert(e matches ScriptError::Runtime { message, .. } && truncation_of(text@, message@));
                return (removed, Err(e));
            },
        }
        k = k + 1;
    }
    (removed, Ok(()))
}

} // verus!
