//! Trusted boundary to the embedded interpreter.
//!
//! The interpreter is an external collaborator: the bridge only loads source,
//! queries and sets globals, and calls named global functions. Nothing is
//! assumed about what a script does; every caller states what holds whatever
//! an invocation returns.

use vstd::prelude::*;

verus! {

/// The embedded interpreter instance (`rlua` re-exports `mlua::Lua`).
#[verifier::external_type_specification]
#[verifier::external_body]
pub struct ExLua(rlua::Lua);

/// Relies on `rlua::Lua::new`: a fresh interpreter with its standard globals
/// and none of this bridge's state.
#[verifier::external_body]
pub(crate) fn lua_new() -> rlua::Lua {
    rlua::Lua::new()
}

/// Relies on `rlua::Lua::load` and `rlua::Chunk::exec`: compiles the chunk
/// under the given name and runs it once; `Err` carries the interpreter's
/// message when compilation or execution fails.
#[verifier::external_body]
pub(crate) fn lua_load_exec(lua: &rlua::Lua, source: &str, chunk_name: &str) -> Result<(), String> {
    match lua.load(source).set_name(chunk_name).exec() {
        Ok(()) => Ok(()),
        Err(e) => Err(e.to_string()),
    }
}

/// Relies on `rlua::Table::get` on the globals table: whether a global
/// function with this name is currently defined.
#[verifier::external_body]
pub(crate) fn lua_has_global_function(lua: &rlua::Lua, name: &str) -> bool {
    lua.globals().get::<_, rlua::Function>(name).is_ok()
}

/// Relies on `rlua::Table::get` and `rlua::Function::call`: invokes the global
/// function of that name with the given integer arguments; `Err` carries the
/// interpreter's message when the global is missing, not callable, or raises
/// a runtime error.
#[verifier::external_body]
pub(crate) fn lua_call_global(lua: &rlua::Lua, name: &str, args: &Vec<i64>) -> Result<(), String> {
    let f: rlua::Function = match lua.globals().get(name) {
        Ok(f) => f,
        Err(e) => return Err(e.to_string()),
    };
    let multi: rlua::Variadic<i64> = args.iter().copied().collect();
    match f.call::<_, ()>(multi) {
        Ok(()) => Ok(()),
        Err(e) => Err(e.to_string()),
    }
}

/// Relies on `rlua::Table::set` on the globals table: sets a global to an
/// integer value.
#[verifier::external_body]
pub(crate) fn lua_set_global_int(lua: &rlua::Lua, name: &str, v: i64) -> Result<(), String> {
    lua.globals().set(name, v).map_err(|e| e.to_string())
}

/// Relies on `rlua::Table::get` on the globals table: reads a global back as
/// an integer, `None` when it is unset or not convertible.
#[verifier::external_body]
pub(crate) fn lua_get_global_int(lua: &rlua::Lua, name: &str) -> Option<i64> {
    lua.globals().get::<_, i64>(name).ok()
}

} // verus!
