//! Streaming order-flow aggregation and adaptive chart composition.
//!
//! The crate ingests normalized order-book depth events and candle events
//! for one trading instrument and maintains two bounded derived views: a
//! sparse liquidity heatmap (price bucket x time bucket -> signed resting
//! size) and an ordered candlestick series. A single pure composition pass
//! turns snapshots of both stores into a renderer-agnostic draw plan.
//!
//! All prices, sizes and volumes are fixed-point integers: the caller picks
//! a scale (for example ten-thousandths of the quote currency) and every
//! value is the scaled amount as an `i64`. Statistics that land between two
//! integers are carried exactly as small rationals.

use vstd::prelude::*;

pub mod composer;
pub mod engine;
pub mod heatmap;
pub mod klines;
pub mod ratio;
pub mod scheduler;
pub mod stats;

verus! {

/// Largest magnitude (in scaled units) the library accepts for a price,
/// size or volume. Keeping inputs within this bound lets every derived
/// statistic fit comfortably in an `i64`.
pub const MAX_UNIT: i64 = 0x20_0000_0000_0000;

/// A price, size or volume is accepted when its magnitude stays within
/// [`MAX_UNIT`].
pub open spec fn in_unit_range(x: int) -> bool {
    -(MAX_UNIT as int) <= x <= MAX_UNIT as int
}

/// Statistic samples may be derived values (a price rounded down to a
/// bucket boundary) and so get twice the headroom of raw inputs.
pub open spec fn in_sample_range(x: int) -> bool {
    -2 * (MAX_UNIT as int) <= x <= 2 * (MAX_UNIT as int)
}

} // verus!
