use mlua::{Lua, LuaOptions, StdLib, Value};

use neogen::sandbox::install_sandbox;

fn fresh_state() -> Lua {
    let libs = StdLib::COROUTINE | StdLib::TABLE | StdLib::STRING | StdLib::UTF8 | StdLib::MATH;
    Lua::new_with(libs, LuaOptions::default()).expect("state")
}

fn is_set(lua: &Lua, name: &str) -> bool {
    !matches!(lua.globals().get::<Value>(name).expect("lookup"), Value::Nil)
}

#[test]
fn sandbox_strips_the_dangerous_globals() {
    let lua = fresh_state();
    assert!(is_set(&lua, "print"));
    assert!(is_set(&lua, "load"));
    let (removed, outcome) = install_sandbox(&lua);
    assert_eq!(outcome, Ok(()));
    let removed: Vec<&str> = removed.iter().map(|r| r.global()).collect();
    assert_eq!(
        removed,
        vec!["os", "io", "package", "debug", "load", "loadfile", "dofile", "require", "collectgarbage", "print"]
    );
    for name in ["os", "io", "package", "debug", "load", "loadfile", "dofile", "require", "collectgarbage", "print"] {
        assert!(!is_set(&lua, name), "{name} still visible");
    }
    for name in ["string", "table", "math", "coroutine", "utf8", "pairs", "tostring"] {
        assert!(is_set(&lua, name), "{name} missing");
    }
}

#[test]
fn stripping_twice_is_harmless() {
    let lua = fresh_state();
    assert_eq!(install_sandbox(&lua).1, Ok(()));
    let (again, outcome) = install_sandbox(&lua);
    assert_eq!(outcome, Ok(()));
    assert_eq!(again.len(), 10);
    assert!(lua.load("return os").eval::<Value>().map(|v| matches!(v, Value::Nil)).unwrap_or(false));
}
