//! Exact fractions.
use vstd::prelude::*;

verus! {

/// Shares and percentages that are settings are counted in parts of one by this
/// number.
pub const FRACTION_UNIT: u64 = 0x20_0000_0000_0000;

/// A non-negative fraction, kept exact.
#[derive(Debug, Clone, Copy, PartialEq, Eq)]
pub struct Ratio {
    /// The dividend.
    pub numerator: u128,
    /// The divisor, never zero.
    pub denominator: u128,
}

impl Ratio {
    /// The divisor is not zero.
    pub open spec fn wf(self) -> bool {
        self.denominator > 0
    }

    /// The fraction zero.
    pub fn zero() -> (ratio: Self)
        ensures
            ratio.numerator == 0,
            ratio.denominator == 1,
    {
        Ratio { numerator: 0, denominator: 1 }
    }
}

}
