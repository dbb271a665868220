use vstd::prelude::*;

verus! {

/// Number of samples kept in each rolling history.
pub const HISTORY_LEN: usize = 300;

/// Narrowest tile the grid layout will produce when it has room to choose.
pub const MIN_TILE_WIDTH: u16 = 28;

/// Step by which the sample interval grows or shrinks, in milliseconds.
pub const INTERVAL_STEP_MS: u64 = 250;

/// Shortest allowed sample interval, in milliseconds.
pub const MIN_INTERVAL_MS: u64 = 250;

/// Longest allowed sample interval, in milliseconds.
pub const MAX_INTERVAL_MS: u64 = 10000;

/// Sample interval used when none is configured, in milliseconds.
pub const DEFAULT_INTERVAL_MS: u64 = 1000;

/// Smallest elapsed time used for a rate, in microseconds.
pub const MIN_ELAPSED_MICROS: u64 = 1000;

} // verus!
