//! Per-tick instruction budget accounting.
//!
//! Every script runs as its own coroutine with a counting hook that fires
//! every `hook_interval` VM instructions. The hook may fire
//! [`RuntimeConfig::intervals_per_tick`] times per tick; the next firing
//! suspends the coroutine at that instruction boundary (a pause, not an
//! error), and the resume reports the instructions consumed. The budget is
//! re-armed at the start of every tick.

use vstd::prelude::*;

use crate::errors::ScriptError;

verus! {

/// Default instructions per tick.
pub const DEFAULT_INSTRUCTIONS_PER_TICK: u32 = 100_000;

/// Default hook interval: the hook fires every 512 VM instructions.
pub const DEFAULT_HOOK_INTERVAL: u32 = 512;

/// The interval actually used: at least one instruction.
pub open spec fn effective_interval(hook_interval: u32) -> u32 {
    if hook_interval == 0 {
        1
    } else {
        hook_interval
    }
}

/// Hook firings allowed per tick: the budget divided by the interval, but
/// at least one, so tiny budgets still stop the script.
pub open spec fn allowed_intervals(instructions_per_tick: u32, hook_interval: u32) -> u32 {
    let n = instructions_per_tick / effective_interval(hook_interval);
    if n == 0 {
        1
    } else {
        n
    }
}

/// The allowance is the budget divided by the interval, rounded down, and
/// at least one: when the budget covers at least one interval, the allowed
/// intervals fit in the budget and one more would not; when it covers
/// less, exactly one interval is allowed.
pub proof fn lemma_allowed_intervals_round_down(instructions_per_tick: u32, hook_interval: u32)
    ensures
        allowed_intervals(instructions_per_tick, hook_interval) >= 1,
        instructions_per_tick >= effective_interval(hook_interval) ==> {
            &&& allowed_intervals(instructions_per_tick, hook_interval) as int * effective_interval(hook_interval) as int
                <= instructions_per_tick as int
            &&& (instructions_per_tick as int) < (allowed_intervals(instructions_per_tick, hook_interval) as int + 1)
                * effective_interval(hook_interval) as int
        },
        instructions_per_tick < effective_interval(hook_interval) ==> allowed_intervals(
            instructions_per_tick,
            hook_interval,
        ) == 1,
{
    let ipt = instructions_per_tick as int;
    let e = effective_interval(hook_interval) as int;
    let q = ipt / e;
    assert(q * e <= ipt < (q + 1) * e) by (nonlinear_arith)
        requires
            e > 0,
            ipt >= 0,
            q == ipt / e,
    ;
    if ipt >= e {
        assert(q >= 1) by (nonlinear_arith)
            requires
                e > 0,
                ipt >= e,
                q == ipt / e,
        ;
    } else {
        assert(q == 0) by (nonlinear_arith)
            requires
                e > 0,
                0 <= ipt < e,
                q == ipt / e,
        ;
    }
}

/// Runtime tuning knobs.
#[derive(Debug, Clone, Copy, PartialEq, Eq, Structural)]
pub struct RuntimeConfig {
    /// Instructions a script may execute per tick before suspension.
    pub instructions_per_tick: u32,
    /// How often (in VM instructions) the counting hook fires.
    pub hook_interval: u32,
}

impl Default for RuntimeConfig {
    fn default() -> (config: Self)
        ensures
            config.instructions_per_tick == DEFAULT_INSTRUCTIONS_PER_TICK,
            config.hook_interval == DEFAULT_HOOK_INTERVAL,
    {
        RuntimeConfig {
            instructions_per_tick: DEFAULT_INSTRUCTIONS_PER_TICK,
            hook_interval: DEFAULT_HOOK_INTERVAL,
        }
    }
}

impl RuntimeConfig {
    /// The hook interval in effect (a zero interval counts as one).
    pub fn effective_hook_interval(&self) -> (interval: u32)
        ensures
            interval == effective_interval(self.hook_interval),
    {
        if self.hook_interval == 0 {
            1
        } else {
            self.hook_interval
        }
    }

    /// Intervals the hook may consume per tick (at least one).
    pub fn intervals_per_tick(&self) -> (n: u32)
        ensures
            n == allowed_intervals(self.instructions_per_tick, self.hook_interval),
            n >= 1,
            self.instructions_per_tick >= effective_interval(self.hook_interval) ==> n as int * effective_interval(
                self.hook_interval,
            ) as int <= self.instructions_per_tick as int,
            self.instructions_per_tick >= effective_interval(self.hook_interval) ==> (self.instructions_per_tick as int)
                < (n as int + 1) * effective_interval(self.hook_interval) as int,
            self.instructions_per_tick < effective_interval(self.hook_interval) ==> n == 1,
    {
        proof {
            lemma_allowed_intervals_round_down(self.instructions_per_tick, self.hook_interval);
        }
        let n = self.instructions_per_tick / self.effective_hook_interval();
        if n == 0 {
            1
        } else {
            n
        }
    }

    /// Instructions reported as consumed when the budget runs out: the
    /// suspension happens at the firing after the allowance, the
    /// (n+1)-th, so `(n + 1) * interval`.
    pub fn consumed_on_exhaustion(&self) -> (consumed: u64)
        ensures
            consumed == (allowed_intervals(self.instructions_per_tick, self.hook_interval) as int + 1)
                * effective_interval(self.hook_interval) as int,
    {
        let n = self.intervals_per_tick() as u64;
        let interval = self.effective_hook_interval() as u64;
        assert((n + 1) * interval <= 0x1_0000_0000 * 0xffff_ffff) by (nonlinear_arith)
            requires
                n <= 0xffff_ffff,
                interval <= 0xffff_ffff,
        ;
        (n + 1) * interval
    }
}

/// Budget state shared between a script's driver and its hook.
#[derive(Debug, Clone, Copy, PartialEq, Eq, Structural)]
pub struct HookBudget {
    /// Firings still allowed this tick.
    pub intervals_left: u32,
    /// Whether the hook suspended the script this tick.
    pub exceeded: bool,
}

/// What the hook tells the VM after one firing.
#[derive(Debug, Clone, Copy, PartialEq, Eq, Structural)]
pub enum HookVerdict {
    /// Keep executing.
    Continue,
    /// Suspend the coroutine at this instruction boundary.
    Yield,
}

impl HookBudget {
    /// A fresh budget for one tick.
    pub fn armed(config: &RuntimeConfig) -> (budget: Self)
        ensures
            budget == armed_for(*config),
    {
        HookBudget { intervals_left: config.intervals_per_tick(), exceeded: false }
    }

    /// Re-arm the budget at the start of a tick.
    pub fn rearm(&mut self, config: &RuntimeConfig)
        ensures
            *final(self) == armed_for(*config),
    {
        self.intervals_left = config.intervals_per_tick();
        self.exceeded = false;
    }

    /// One hook firing: spend one interval, or, when none is left, mark the
    /// budget exceeded and suspend.
    pub fn fire(&mut self) -> (verdict: HookVerdict)
        ensures
            (*final(self), verdict) == fire_step(*old(self)),
    {
        if self.intervals_left == 0 {
            self.exceeded = true;
            return HookVerdict::Yield;
        }
        self.intervals_left = self.intervals_left - 1;
        HookVerdict::Continue
    }
}

/// How a resume that raised no script error ended.
#[derive(Debug, Clone, Copy, PartialEq, Eq, Structural)]
pub enum TickKind {
    /// The script ran to its end.
    Completed,
    /// The script yielded on its own.
    Yielded,
}

/// Start a tick of a script: re-arm its budget and count the resume
/// (saturating). Returns the new resume count.
pub fn begin_tick(tick: u64, budget: &mut HookBudget, config: &RuntimeConfig) -> (next: u64)
    ensures
        *final(budget) == armed_for(*config),
        next == (if tick == u64::MAX {
            u64::MAX
        } else {
            (tick + 1) as u64
        }),
{
    budget.rearm(config);
    tick.saturating_add(1)
}

/// What a resume that raised no script error means: if the hook suspended
/// the script it is budget exhaustion (reported with the instructions
/// consumed up to the suspending firing), otherwise completion or the
/// script's own yield.
pub fn tick_outcome(script_id: u32, tick: u64, config: &RuntimeConfig, exceeded: bool, finished: bool) -> (r:
    Result<TickKind, ScriptError>)
    ensures
        exceeded ==> r == Err::<TickKind, ScriptError>(
            ScriptError::BudgetExceeded {
                script_id,
                tick,
                consumed: ((allowed_intervals(config.instructions_per_tick, config.hook_interval) as int
                    + 1) * effective_interval(config.hook_interval) as int) as u64,
            },
        ),
        !exceeded ==> r == Ok::<TickKind, ScriptError>(
            if finished {
                TickKind::Completed
            } else {
                TickKind::Yielded
            },
        ),
{
    if exceeded {
        Err(ScriptError::BudgetExceeded { script_id, tick, consumed: config.consumed_on_exhaustion() })
    } else if finished {
        Ok(TickKind::Completed)
    } else {
        Ok(TickKind::Yielded)
    }
}

/// One hook firing as a step: with an interval left, spend it and
/// continue; with none left, mark the budget exceeded and suspend.
pub open spec fn fire_step(b: HookBudget) -> (HookBudget, HookVerdict) {
    if b.intervals_left == 0 {
        (HookBudget { intervals_left: 0, exceeded: true }, HookVerdict::Yield)
    } else {
        (HookBudget { intervals_left: (b.intervals_left - 1) as u32, exceeded: b.exceeded }, HookVerdict::Continue)
    }
}

/// The budget after `k` firings.
pub open spec fn after_firings(b: HookBudget, k: nat) -> HookBudget
    decreases k,
{
    if k == 0 {
        b
    } else {
        fire_step(after_firings(b, (k - 1) as nat)).0
    }
}

/// A budget as armed for a tick under a configuration.
pub open spec fn armed_for(config: RuntimeConfig) -> HookBudget {
    HookBudget {
        intervals_left: allowed_intervals(config.instructions_per_tick, config.hook_interval),
        exceeded: false,
    }
}

proof fn lemma_firings_count_down(b: HookBudget, k: nat)
    requires
        !b.exceeded,
        k <= b.intervals_left,
    ensures
        after_firings(b, k).intervals_left == b.intervals_left - k,
        !after_firings(b, k).exceeded,
    decreases k,
{
    if k > 0 {
        lemma_firings_count_down(b, (k - 1) as nat);
    }
}

/// Within one tick, the first `n` firings of a freshly armed budget continue
/// and the next one suspends, where `n` is the configuration's allowance:
/// the suspension point depends on the configuration alone, so budget
/// exhaustion is deterministic.
pub proof fn lemma_budget_allowance(config: RuntimeConfig, k: nat)
    ensures
        k < allowed_intervals(config.instructions_per_tick, config.hook_interval) ==> fire_step(
            after_firings(armed_for(config), k),
        ).1 == HookVerdict::Continue,
        k == allowed_intervals(config.instructions_per_tick, config.hook_interval) ==> fire_step(
            after_firings(armed_for(config), k),
        ).1 == HookVerdict::Yield && fire_step(after_firings(armed_for(config), k)).0.exceeded,
{
    let n = allowed_intervals(config.instructions_per_tick, config.hook_interval);
    if k <= n {
        lemma_firings_count_down(armed_for(config), k);
    }
}

} // verus!
