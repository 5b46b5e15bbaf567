//! The calls into mlua that strip globals from a Lua state.
//!
//! A successful removal hands back a [`RemovedGlobal`] naming the key that
//! was removed. Its field is private to this module, so outside it the only
//! way to hold one is a successful [`raw_remove`] of that key.

use mlua::{Lua, Table};
use vstd::prelude::*;

verus! {

/// Declares mlua's Lua state so verified code can pass it to the calls
/// below; nothing about its contents is visible.
#[verifier::external_type_specification]
#[verifier::external_body]
pub struct ExLua(Lua);

/// Declares mlua's table handle; nothing about its contents is visible.
#[verifier::external_type_specification]
#[verifier::external_body]
pub struct ExLuaTable(Table);

/// Declares mlua's error type; nothing about its contents is visible.
#[verifier::external_type_specification]
#[verifier::external_body]
pub struct ExLuaError(mlua::Error);

/// Record of one global that was removed from a Lua state's globals table
/// (set to nil without metamethods).
#[derive(Debug, PartialEq, Eq)]
pub struct RemovedGlobal {
    name: String,
}

impl RemovedGlobal {
    /// The name of the removed global.
    pub closed spec fn name(&self) -> Seq<char> {
        self.name@
    }

    /// The name of the removed global.
    pub fn global(&self) -> (name: &str)
        ensures
            name@ == self.name(),
    {
        self.name.as_str()
    }
}

/// `Lua::globals`: the globals table of a state. Nothing is stated of the
/// handle (it refers into the state).
#[verifier::external_body]
pub(crate) fn globals_of(lua: &Lua) -> Table {
    lua.globals()
}

/// `Table::raw_remove` with a string key: it converts the key to a Lua
/// string and sets the key to nil without metamethods (`raw_set` with
/// nil). On success the record names the key handed in; whether it
/// succeeds is not stated, as it depends on the state (key conversion can
/// fail, for one, when memory runs out).
#[verifier::external_body]
pub(crate) fn raw_remove(table: &Table, name: &str) -> (r: Result<RemovedGlobal, mlua::Error>)
    ensures
        r matches Ok(removed) ==> removed.name() == name@,
{
    match table.raw_remove(name) {
        Ok(()) => Ok(RemovedGlobal { name: name.to_string() }),
        Err(error) => Err(error),
    }
}

/// The `Display` text of an mlua error. Nothing is stated of it.
#[verifier::external_body]
pub(crate) fn lua_error_text(error: &mlua::Error) -> String {
    error.to_string()
}

} // verus!
