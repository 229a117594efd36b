//! Exact small rationals.
//!
//! Medians of integer samples land on half-integers and deviation ratios
//! are quotients of integers, so the library carries such values as exact
//! numerator/denominator pairs instead of rounding them.

use vstd::prelude::*;

verus! {

/// An exact rational `num / den` with a positive denominator.
#[derive(Clone, Copy, Debug)]
pub struct Ratio {
    pub num: i64,
    pub den: i64,
}

impl Ratio {
    /// A ratio is well formed when its denominator is positive.
    pub open spec fn wf(self) -> bool {
        self.den > 0
    }

}

} // verus!
