use neogen::api::{is_act_kind, str_eq};
use neogen::budget::{HookBudget, HookVerdict, RuntimeConfig, DEFAULT_HOOK_INTERVAL, DEFAULT_INSTRUCTIONS_PER_TICK};
use neogen::errors::{log_line, truncate, ScriptError, MAX_ERROR_TEXT};
use neogen::ids::RoverId;
use neogen::lifecycle::ScriptState;
use neogen::logbuffer::{LogBuffer, LogEntry, MAX_LOG_BUFFER};
use neogen::scheduler::{should_resume, state_after_resume, ResumeOutcome};

#[test]
fn display_is_readable_for_every_variant() {
    let compile = ScriptError::Compile {
        message: "syntax error near '+'".into(),
    };
    assert!(compile.message().contains("compile"));
    assert!(compile.message().contains("'+'"));
    assert_eq!(compile.tick(), 0);

    let runtime = ScriptError::Runtime {
        script_id: 3,
        tick: 12,
        message: "boom\nstack traceback...".into(),
    };
    let text = runtime.message();
    assert!(
        text.contains('3') && text.contains("12") && text.contains("boom"),
        "{text}"
    );
    assert_eq!(runtime.tick(), 12);

    let budget = ScriptError::BudgetExceeded {
        script_id: 1,
        tick: 4,
        consumed: 4096,
    };
    assert!(budget.message().contains("suspended"));
    assert_eq!(budget.tick(), 4);
}

#[test]
fn long_messages_are_truncated() {
    let long = "x".repeat(MAX_ERROR_TEXT + 100);
    let error = ScriptError::Runtime {
        script_id: 1,
        tick: 1,
        message: truncate(&long),
    };
    let ScriptError::Runtime { message, .. } = &error else {
        panic!("wrong variant");
    };
    assert!(message.len() < MAX_ERROR_TEXT + 32);
    assert!(message.ends_with("…[truncated]"));
}

#[test]
fn log_line_is_prefixed() {
    let error = ScriptError::Compile {
        message: "oops".into(),
    };
    assert!(log_line(&error).starts_with("error: "));
}

#[test]
fn error_texts_are_exact() {
    assert_eq!(
        ScriptError::compile("oops").message(),
        "script failed to compile: oops"
    );
    assert_eq!(
        ScriptError::runtime(3, 12, "boom").message(),
        "script 3 failed at tick 12: boom"
    );
    assert_eq!(
        ScriptError::BudgetExceeded { script_id: 1, tick: 4, consumed: 4096 }.message(),
        "script 1 exhausted its budget at tick 4 (4096 instructions consumed); suspended, not killed"
    );
    assert_eq!(log_line(&ScriptError::compile("oops")), "error: script failed to compile: oops");
}

#[test]
fn short_texts_are_kept_and_cuts_respect_characters() {
    assert_eq!(truncate("short"), "short");
    let exact = "y".repeat(MAX_ERROR_TEXT);
    assert_eq!(truncate(&exact), exact);
    // A two-byte character straddling the limit is dropped whole.
    let mut text = "a".repeat(MAX_ERROR_TEXT - 1);
    text.push('é');
    let cut = truncate(&text);
    assert_eq!(cut, format!("{}…[truncated]", "a".repeat(MAX_ERROR_TEXT - 1)));
}

fn entry(tick: u64) -> LogEntry {
    LogEntry {
        tick,
        script_id: 1,
        rover_id: RoverId::from_raw(1),
        text: format!("line {tick}"),
    }
}

#[test]
fn push_drain_snapshot_roundtrip() {
    let mut buffer = LogBuffer::new();
    buffer.push(entry(1));
    buffer.push(entry(2));
    assert_eq!(buffer.len(), 2);
    assert_eq!(buffer.snapshot().len(), 2);

    let drained = buffer.drain();
    assert_eq!(drained.len(), 2);
    assert_eq!(drained[0].tick, 1);
    assert!(buffer.is_empty());
    assert!(buffer.drain().is_empty());
}

#[test]
fn overflow_evicts_oldest() {
    let mut buffer = LogBuffer::new();
    for tick in 0..=(MAX_LOG_BUFFER as u64) {
        buffer.push(entry(tick));
    }
    assert_eq!(buffer.len(), MAX_LOG_BUFFER);
    assert_eq!(buffer.snapshot()[0].tick, 1);
    assert_eq!(
        buffer.snapshot().last().unwrap().tick,
        MAX_LOG_BUFFER as u64
    );
}

#[test]
fn snapshot_leaves_the_buffer_alone() {
    let mut buffer = LogBuffer::default();
    buffer.push(entry(5));
    let seen = buffer.snapshot();
    assert_eq!(seen, vec![entry(5)]);
    assert_eq!(buffer.len(), 1);
    assert_eq!(buffer.drain(), vec![entry(5)]);
}

#[test]
fn default_budget_matches_backlog() {
    assert_eq!(DEFAULT_INSTRUCTIONS_PER_TICK, 100_000);
}

#[test]
fn default_config_values() {
    let config = RuntimeConfig::default();
    assert_eq!(config.instructions_per_tick, 100_000);
    assert_eq!(config.hook_interval, DEFAULT_HOOK_INTERVAL);
    assert_eq!(config.intervals_per_tick(), 100_000 / 512);
    assert_eq!(config.consumed_on_exhaustion(), (100_000 / 512 + 1) * 512);
}

#[test]
fn tiny_budgets_still_allow_one_interval() {
    let config = RuntimeConfig { instructions_per_tick: 10, hook_interval: 512 };
    assert_eq!(config.intervals_per_tick(), 1);
    let zero_interval = RuntimeConfig { instructions_per_tick: 7, hook_interval: 0 };
    assert_eq!(zero_interval.effective_hook_interval(), 1);
    assert_eq!(zero_interval.intervals_per_tick(), 7);
}

#[test]
fn hook_suspends_after_the_allowance() {
    let config = RuntimeConfig { instructions_per_tick: 3 * 64, hook_interval: 64 };
    let mut budget = HookBudget::armed(&config);
    assert_eq!(budget.fire(), HookVerdict::Continue);
    assert_eq!(budget.fire(), HookVerdict::Continue);
    assert_eq!(budget.fire(), HookVerdict::Continue);
    assert!(!budget.exceeded);
    assert_eq!(budget.fire(), HookVerdict::Yield);
    assert!(budget.exceeded);
    budget.rearm(&config);
    assert!(!budget.exceeded);
    assert_eq!(budget.intervals_left, 3);
}

#[test]
fn only_alive_scripts_are_resumed() {
    assert!(should_resume(&ScriptState::Running));
    assert!(should_resume(&ScriptState::SuspendedBudget));
    assert!(!should_resume(&ScriptState::Finished));
    assert!(!should_resume(&ScriptState::Failed(ScriptError::compile("x"))));
    assert!(ScriptState::Running.is_alive());
    assert!(!ScriptState::Finished.is_alive());
}

#[test]
fn resume_outcomes_map_to_states() {
    assert_eq!(state_after_resume(ResumeOutcome::Completed), (ScriptState::Finished, None));
    assert_eq!(state_after_resume(ResumeOutcome::Yielded), (ScriptState::Running, None));
    let budget = ScriptError::BudgetExceeded { script_id: 2, tick: 9, consumed: 100 };
    assert_eq!(
        state_after_resume(ResumeOutcome::Error(budget)),
        (ScriptState::SuspendedBudget, None)
    );
    let failure = ScriptError::runtime(2, 9, "bad");
    assert_eq!(
        state_after_resume(ResumeOutcome::Error(failure.clone())),
        (
            ScriptState::Failed(failure),
            Some("error: script 2 failed at tick 9: bad".to_string())
        )
    );
}

#[test]
fn act_kinds_are_plant_and_drain() {
    assert!(is_act_kind("plant"));
    assert!(is_act_kind("drain"));
    assert!(!is_act_kind("dig"));
    assert!(!is_act_kind("Plant"));
    assert!(!is_act_kind(""));
    assert!(str_eq("abc", "abc"));
    assert!(!str_eq("abc", "abd"));
    assert!(!str_eq("abc", "ab"));
}

#[test]
fn pushes_keep_the_last_entries_in_order() {
    let mut buffer = LogBuffer::new();
    for tick in 0..600u64 {
        buffer.push(entry(tick));
        let expected = ((tick + 1) as usize).min(MAX_LOG_BUFFER);
        assert_eq!(buffer.len(), expected);
    }
    let ticks: Vec<u64> = buffer.snapshot().iter().map(|e| e.tick).collect();
    assert_eq!(ticks, (600 - MAX_LOG_BUFFER as u64..600).collect::<Vec<_>>());
}
