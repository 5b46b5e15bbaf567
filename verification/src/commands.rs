//! Player-script commands as pure data, and their validation.
//!
//! Float payloads (targets, radii) are carried as IEEE 754 `f64` bit
//! patterns; validation reads the exponent and sign fields of those
//! patterns, which is exactly what `f64::is_finite` and `< 0.0` decide.

use vstd::prelude::*;

use crate::text::decimal;

verus! {

/// Duration of a scan, in ticks.
pub const SCAN_TICKS: u64 = 5;

/// `f64::is_finite` of the value with these bits: the exponent field is
/// not all ones.
pub open spec fn bits_finite(bits: u64) -> bool {
    (bits >> 52u64) & 0x7ff != 0x7ff
}

/// `value < 0.0` for the value with these bits: not NaN, sign bit set,
/// and not a zero.
pub open spec fn bits_below_zero(bits: u64) -> bool {
    &&& bits >> 63u64 == 1
    &&& bits & 0x7fff_ffff_ffff_ffff != 0
    &&& !(((bits >> 52u64) & 0x7ff == 0x7ff) && (bits & 0x000f_ffff_ffff_ffff != 0))
}

/// Whether an `f64` bit pattern is finite.
pub fn f64_bits_finite(bits: u64) -> (finite: bool)
    ensures
        finite == bits_finite(bits),
{
    (bits >> 52) & 0x7ff != 0x7ff
}

/// Whether an `f64` bit pattern is below zero.
pub fn f64_bits_below_zero(bits: u64) -> (below: bool)
    ensures
        below == bits_below_zero(bits),
{
    bits >> 63 == 1 && bits & 0x7fff_ffff_ffff_ffff != 0 && !((bits >> 52) & 0x7ff == 0x7ff && bits
        & 0x000f_ffff_ffff_ffff != 0)
}

/// One command for a rover.
#[derive(Debug, Clone, Copy, PartialEq, Eq, Structural)]
pub enum Command {
    /// Move to the target point at the rover's cruise speed; completes
    /// when the rover lands exactly on the target. Coordinates are `f64`
    /// bit patterns and must be finite.
    MoveTo {
        /// Target X (bits).
        target_x: u64,
        /// Target Y (bits).
        target_y: u64,
    },
    /// Scan the surroundings within a radius (bits; zero allowed, negative
    /// not); takes [`SCAN_TICKS`] ticks and buffers a scan result.
    Scan {
        /// Radius (bits).
        radius: u64,
    },
    /// Placeholder for terraforming actions: completes in one tick and does
    /// nothing.
    Noop,
}

/// Validation failure of a single command.
#[derive(Debug, Clone, Copy, PartialEq, Eq)]
pub enum CommandError {
    /// A component is NaN or infinite; `field` names it (`"target.x"`,
    /// `"target.y"`, `"radius"`).
    NotFinite {
        /// Name of the offending field.
        field: &'static str,
    },
    /// Scan radius is negative.
    NegativeRadius,
}

/// Field name reported for a non-finite target X.
pub const FIELD_TARGET_X: &'static str = "target.x";
/// Field name reported for a non-finite target Y.
pub const FIELD_TARGET_Y: &'static str = "target.y";
/// Field name reported for a non-finite radius.
pub const FIELD_RADIUS: &'static str = "radius";

/// What [`Command::validate`] decides.
pub open spec fn validation(c: Command) -> Result<(), CommandError> {
    match c {
        Command::MoveTo { target_x, target_y } => if !bits_finite(target_x) {
            Err(CommandError::NotFinite { field: FIELD_TARGET_X })
        } else if !bits_finite(target_y) {
            Err(CommandError::NotFinite { field: FIELD_TARGET_Y })
        } else {
            Ok(())
        },
        Command::Scan { radius } => if !bits_finite(radius) {
            Err(CommandError::NotFinite { field: FIELD_RADIUS })
        } else if bits_below_zero(radius) {
            Err(CommandError::NegativeRadius)
        } else {
            Ok(())
        },
        Command::Noop => Ok(()),
    }
}

impl Command {
    /// Check the command's data for NaN/infinite coordinates and a negative
    /// radius, so that invalid data never enters the simulation state.
    pub fn validate(&self) -> (res: Result<(), CommandError>)
        ensures
            res == validation(*self),
    {
        match self {
            Command::MoveTo { target_x, target_y } => {
                if !f64_bits_finite(*target_x) {
                    Err(CommandError::NotFinite { field: FIELD_TARGET_X })
                } else if !f64_bits_finite(*target_y) {
                    Err(CommandError::NotFinite { field: FIELD_TARGET_Y })
                } else {
                    Ok(())
                }
            },
            Command::Scan { radius } => {
                if !f64_bits_finite(*radius) {
                    Err(CommandError::NotFinite { field: FIELD_RADIUS })
                } else if f64_bits_below_zero(*radius) {
                    Err(CommandError::NegativeRadius)
                } else {
                    Ok(())
                }
            },
            Command::Noop => Ok(()),
        }
    }
}

/// Readable description of a command error.
pub open spec fn command_error_text(e: CommandError) -> Seq<char> {
    match e {
        CommandError::NotFinite { field } => field@ + " is not finite"@,
        CommandError::NegativeRadius => "scan radius is negative"@,
    }
}

impl CommandError {
    /// Readable description of the error (what `Display` shows).
    pub fn message(&self) -> (text: String)
        ensures
            text@ == command_error_text(*self),
    {
        match self {
            CommandError::NotFinite { field } => {
                let mut text = String::from_str(field);
                text.append(" is not finite");
                text
            },
            CommandError::NegativeRadius => String::from_str("scan radius is negative"),
        }
    }
}

/// A point found by a scan (bit patterns of its coordinates).
#[derive(Debug, Clone, Copy, PartialEq, Eq, Structural)]
pub struct ScanPoint {
    /// X (bits).
    pub x: u64,
    /// Y (bits).
    pub y: u64,
}

/// Result of a completed scan, kept in the rover's scan buffer.
#[derive(Debug, Clone, PartialEq, Eq)]
pub struct ScanResult {
    /// World tick at which the scan completed.
    pub tick: u64,
    /// Radius as requested by the command (bits).
    pub radius: u64,
    /// Points discovered; an empty placeholder until the world has tiles.
    pub points: Vec<ScanPoint>,
}

} // verus!
