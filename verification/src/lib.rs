//! A verified waveshaper engine.
//!
//! A user-supplied mathematical expression is compiled into a fixed-size
//! lookup table sampled over the input range [-1, 1], and audio samples are
//! mapped through that table with linear interpolation.  A freshly built
//! table is handed from the control thread to the audio thread through a
//! non-blocking triple buffer, and a decaying peak tracker follows the
//! block extrema.
//!
//! All sample values, gains and rates are fixed-point numbers: the integer
//! `SCALE` stands for 1.0, so a stored value `v` means the real number
//! `v / SCALE`.  This keeps every contract exact.

use vstd::prelude::*;

pub mod engine;
pub mod eval;
pub mod expr;
pub mod fixed;
pub mod handoff;
pub mod laws;
pub mod peak;
pub mod shaper;

verus! {

/// Fixed-point representation of 1.0.
pub const SCALE: i64 = 1_000_000;

/// Fixed-point representation of 2.0: the width of the input range [-1, 1].
pub const TWO_SCALE: i64 = 2_000_000;

/// Fixed-point representation of pi, rounded to the nearest unit.
pub const PI_FP: i64 = 3_141_593;

/// Largest magnitude an expression value may take (4000.0); larger
/// intermediate results are rejected as non-finite.
pub const VAL_LIMIT: i64 = 4_000_000_000;

/// Largest magnitude a table entry may take (1000.0).
pub const TABLE_LIMIT: i64 = 1_000_000_000;

/// Largest gain the block processor accepts (1000.0).
pub const GAIN_LIMIT: i64 = 1_000_000_000;

/// Largest magnitude of an input sample to the block processor (4000.0).
pub const SAMPLE_LIMIT: i64 = 4_000_000_000;

/// Largest magnitude a tracked peak may take: a pre-gained sample is at
/// most SAMPLE_LIMIT * GAIN_LIMIT / SCALE.
pub const PEAK_LIMIT: i64 = 4_000_000_000_000;

/// Largest number of table entries.
pub const MAX_SIZE: usize = 65536;

/// Number of entries of the default table.
pub const DEFAULT_SIZE: usize = 512;

/// Rejection of an expression text at parse time.
#[derive(Clone, Copy, Debug, PartialEq, Eq, Structural)]
pub enum CompileError {
    /// The text does not follow the expression grammar.
    Syntax,
    /// The text holds an identifier that is not part of the vocabulary.
    UnknownSymbol,
}

/// Rejection of a table build at evaluation time.
#[derive(Clone, Copy, Debug, PartialEq, Eq, Structural)]
pub enum EvalError {
    /// A function was applied outside its domain (a Chebyshev polynomial
    /// of negative order).
    Domain,
    /// A value left the representable range (the fixed-point analogue of
    /// an infinite or NaN result), or a division by zero occurred.
    NonFinite,
}

/// Any failure of a rebuild request.
#[derive(Clone, Copy, Debug, PartialEq, Eq, Structural)]
pub enum ShaperError {
    Compile(CompileError),
    Eval(EvalError),
}

} // verus!
