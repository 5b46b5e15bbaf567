//! Script error taxonomy.
//!
//! Every variant carries enough context for the console (message and tick
//! of occurrence); messages are rendered without panicking, and error text
//! is capped at [`MAX_ERROR_TEXT`] bytes so a pathological traceback cannot
//! flood memory.

use vstd::prelude::*;
use vstd::string::StringSliceAdditionalSpecFns;
use vstd::utf8::{encode_utf8, is_char_boundary, valid_utf8};

use crate::text::{decimal, push_decimal};

verus! {

/// Hard cap, in bytes, on error text carried into [`ScriptError`] variants
/// and the log buffer.
pub const MAX_ERROR_TEXT: usize = 512;

/// Marker appended to cut error text.
pub const TRUNCATION_MARK: &'static str = "…[truncated]";

/// Failure inside the script runtime.
#[derive(Debug, Clone, PartialEq, Eq)]
pub enum ScriptError {
    /// The source failed to compile (syntax error): surfaced at script
    /// creation or restart, before any tick ran.
    Compile {
        /// Compiler message (already truncated to [`MAX_ERROR_TEXT`]).
        message: String,
    },
    /// The script raised a runtime error; the message embeds the traceback
    /// where one is available (truncated).
    Runtime {
        /// Script the error belongs to (`0` marks host-side evaluation,
        /// which has no script identity; ids start at 1).
        script_id: u32,
        /// Tick the script was on when it failed.
        tick: u64,
        /// Error message with traceback, truncated.
        message: String,
    },
    /// The per-tick instruction allowance is spent. The coroutine is
    /// suspended, not killed: the next resume continues from the same
    /// instruction. This is control flow, never a failure.
    BudgetExceeded {
        /// Id of the script.
        script_id: u32,
        /// Tick number of the exhausted resume.
        tick: u64,
        /// Instructions consumed this tick (a multiple of the hook interval).
        consumed: u64,
    },
}

/// The largest character boundary of `b` at or below `k` (0 is always one).
pub open spec fn last_boundary(b: Seq<u8>, k: int) -> int
    decreases k,
{
    if k <= 0 {
        0
    } else if is_char_boundary(b, k) {
        k
    } else {
        last_boundary(b, k - 1)
    }
}

/// What truncating `text` yields: the text itself when it fits in
/// [`MAX_ERROR_TEXT`] bytes, otherwise its longest prefix of at most that
/// many bytes that ends on a character boundary, followed by the marker.
pub open spec fn truncation_of(text: Seq<char>, out: Seq<char>) -> bool {
    let b = encode_utf8(text);
    if b.len() <= MAX_ERROR_TEXT {
        out == text
    } else {
        exists|prefix: Seq<char>|
            encode_utf8(prefix) == b.subrange(0, last_boundary(b, MAX_ERROR_TEXT as int)) && out == prefix
                + TRUNCATION_MARK@
    }
}

/// Truncate to [`MAX_ERROR_TEXT`] bytes on a character boundary, marking
/// the cut.
pub fn truncate(text: &str) -> (out: String)
    ensures
        truncation_of(text@, out@),
{
    broadcast use vstd::utf8::encode_utf8_valid_utf8;
    let ghost b = text.spec_bytes();
    assert(valid_utf8(b));
    if text.as_bytes().len() <= MAX_ERROR_TEXT {
        return String::from_str(text);
    }
    let mut end: usize = MAX_ERROR_TEXT;
    while !text.is_char_boundary(end)
        invariant
            end <= MAX_ERROR_TEXT,
            b == text.spec_bytes(),
            valid_utf8(b),
            last_boundary(b, end as int) == last_boundary(b, MAX_ERROR_TEXT as int),
        decreases end,
    {
        assert(end > 0);
        end = end - 1;
    }
    assert(last_boundary(b, end as int) == end);
    let (head, _) = text.split_at(end);
    let mut out = String::from_str(head);
    out.append(TRUNCATION_MARK);
    proof {
        broadcast use vstd::utf8::decode_utf8_encode_utf8, vstd::utf8::encode_utf8_decode_utf8;
        assert(encode_utf8(head@) == head.spec_bytes());
    }
    out
}

/// Readable description of a script error.
pub open spec fn script_error_text(e: ScriptError) -> Seq<char> {
    match e {
        ScriptError::Compile { message } => "script failed to compile: "@ + message@,
        ScriptError::Runtime { script_id, tick, message } => "script "@ + decimal(script_id as nat)
            + " failed at tick "@ + decimal(tick as nat) + ": "@ + message@,
        ScriptError::BudgetExceeded { script_id, tick, consumed } => "script "@ + decimal(script_id as nat)
            + " exhausted its budget at tick "@ + decimal(tick as nat) + " ("@ + decimal(consumed as nat)
            + " instructions consumed); suspended, not killed"@,
    }
}

impl ScriptError {
    /// A compile error carrying the (truncated) compiler message.
    pub fn compile(message: &str) -> (e: Self)
        ensures
            e matches ScriptError::Compile { message: m } && truncation_of(message@, m@),
    {
        ScriptError::Compile { message: truncate(message) }
    }

    /// A runtime error of a script at a tick, carrying the (truncated)
    /// message.
    pub fn runtime(script_id: u32, tick: u64, message: &str) -> (e: Self)
        ensures
            e matches ScriptError::Runtime { script_id: id, tick: t, message: m } && id == script_id && t
                == tick && truncation_of(message@, m@),
    {
        ScriptError::Runtime { script_id, tick, message: truncate(message) }
    }

    /// Tick of occurrence (0 for a compile error: nothing ran yet).
    pub fn tick(&self) -> (tick: u64)
        ensures
            tick == match *self {
                ScriptError::Compile { .. } => 0,
                ScriptError::Runtime { tick, .. } => tick,
                ScriptError::BudgetExceeded { tick, .. } => tick,
            },
    {
        match self {
            ScriptError::Compile { .. } => 0,
            ScriptError::Runtime { tick, .. } => *tick,
            ScriptError::BudgetExceeded { tick, .. } => *tick,
        }
    }

    /// Readable description of the error (what `Display` shows).
    pub fn message(&self) -> (text: String)
        ensures
            text@ == script_error_text(*self),
    {
        match self {
            ScriptError::Compile { message } => {
                let mut text = String::from_str("script failed to compile: ");
                text.append(message.as_str());
                text
            },
            ScriptError::Runtime { script_id, tick, message } => {
                let mut text = String::from_str("script ");
                push_decimal(&mut text, *script_id as u64);
                text.append(" failed at tick ");
                push_decimal(&mut text, *tick);
                text.append(": ");
                text.append(message.as_str());
                text
            },
            ScriptError::BudgetExceeded { script_id, tick, consumed } => {
                let mut text = String::from_str("script ");
                push_decimal(&mut text, *script_id as u64);
                text.append(" exhausted its budget at tick ");
                push_decimal(&mut text, *tick);
                text.append(" (");
                push_decimal(&mut text, *consumed);
                text.append(" instructions consumed); suspended, not killed");
                text
            },
        }
    }
}

/// One-line console text for an error, prefixed the way the host logs it.
pub fn log_line(error: &ScriptError) -> (line: String)
    ensures
        line@ == "error: "@ + script_error_text(*error),
{
    let mut line = String::from_str("error: ");
    let text = error.message();
    line.append(text.as_str());
    line
}

} // verus!
