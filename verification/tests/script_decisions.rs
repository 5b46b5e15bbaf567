use neogen::api::{act_command, join_print_args};
use neogen::budget::{begin_tick, tick_outcome, HookBudget, RuntimeConfig, TickKind};
use neogen::commands::Command;
use neogen::errors::ScriptError;
use neogen::lifecycle::ScriptState;
use neogen::sandbox::removed_globals;
use neogen::scheduler::resume_order;

#[test]
fn act_maps_known_kinds_to_the_placeholder() {
    assert_eq!(act_command("plant"), Ok(Command::Noop));
    assert_eq!(act_command("drain"), Ok(Command::Noop));
    assert_eq!(
        act_command("dig"),
        Err("act: unknown kind \"dig\" (allowed: [\"plant\", \"drain\"])".to_string())
    );
}

#[test]
fn print_arguments_are_tab_joined() {
    assert_eq!(join_print_args(&vec![]), "");
    assert_eq!(join_print_args(&vec!["hello".to_string()]), "hello");
    assert_eq!(
        join_print_args(&vec!["a".to_string(), "1".to_string(), "nil".to_string()]),
        "a\t1\tnil"
    );
}

#[test]
fn budget_exhaustion_reports_the_consumed_instructions() {
    let config = RuntimeConfig { instructions_per_tick: 1000, hook_interval: 100 };
    assert_eq!(
        tick_outcome(4, 9, &config, true, false),
        Err(ScriptError::BudgetExceeded { script_id: 4, tick: 9, consumed: 1100 })
    );
    assert_eq!(tick_outcome(4, 9, &config, false, true), Ok(TickKind::Completed));
    assert_eq!(tick_outcome(4, 9, &config, false, false), Ok(TickKind::Yielded));
}

#[test]
fn a_tick_rearms_the_budget_and_counts_up() {
    let config = RuntimeConfig { instructions_per_tick: 1000, hook_interval: 100 };
    let mut budget = HookBudget { intervals_left: 0, exceeded: true };
    assert_eq!(begin_tick(7, &mut budget, &config), 8);
    assert_eq!(budget, HookBudget { intervals_left: 10, exceeded: false });
    assert_eq!(begin_tick(u64::MAX, &mut budget, &config), u64::MAX);
}

#[test]
fn execution_phase_resumes_alive_scripts_in_table_order() {
    let table = vec![
        (1, ScriptState::Finished),
        (2, ScriptState::Running),
        (3, ScriptState::Failed(ScriptError::compile("x"))),
        (5, ScriptState::SuspendedBudget),
        (8, ScriptState::Running),
    ];
    assert_eq!(resume_order(&table), vec![2, 5, 8]);
    assert!(resume_order(&vec![]).is_empty());
}

#[test]
fn state_labels_for_the_hud() {
    assert_eq!(ScriptState::Running.label(), "running");
    assert_eq!(ScriptState::SuspendedBudget.label(), "suspended");
    assert_eq!(ScriptState::Finished.label(), "finished");
    assert_eq!(ScriptState::Failed(ScriptError::compile("x")).label(), "error");
}

#[test]
fn sandbox_removes_loaders_and_print() {
    let names = removed_globals();
    assert_eq!(
        names,
        vec!["os", "io", "package", "debug", "load", "loadfile", "dofile", "require", "collectgarbage", "print"]
    );
}

#[test]
fn quoted_texts_are_framed() {
    assert_eq!(
        neogen::api::unknown_act_message("\"x\""),
        "act: unknown kind \"x\" (allowed: [\"plant\", \"drain\"])"
    );
    assert_eq!(
        neogen::snapshot::bad_magic_message("\"JUNK\""),
        "bad magic \"JUNK\" (expected \"NEGN\")"
    );
}

#[test]
fn whitelisted_libraries() {
    assert_eq!(neogen::sandbox::loaded_libraries(), vec!["coroutine", "table", "string", "utf8", "math"]);
}
