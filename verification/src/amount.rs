//! Quantities, carried but not computed with.
use vstd::prelude::*;

verus! {

/// A double-precision quantity, held as its IEEE 754 bit pattern. The book only carries
/// quantities and asks whether one is zero; arithmetic on them happens outside.
#[derive(Clone, Copy, Debug, PartialEq, Eq, Structural)]
pub struct Amount {
    pub bits: u64,
}

/// The bit pattern of minus zero.
pub const NEGATIVE_ZERO_BITS: u64 = 0x8000_0000_0000_0000;

impl Amount {
    /// Whether the quantity compares equal to zero: exactly the two signed zeros do.
    pub open spec fn zero_quantity(self) -> bool {
        self.bits == 0 || self.bits == NEGATIVE_ZERO_BITS
    }

    /// The quantity zero.
    pub fn zero() -> (r: Amount)
        ensures
            r.bits == 0,
    {
        Amount { bits: 0 }
    }

    /// Tells whether the quantity compares equal to zero.
    pub fn is_zero(&self) -> (r: bool)
        ensures
            r == self.zero_quantity(),
    {
        self.bits == 0 || self.bits == NEGATIVE_ZERO_BITS
    }
}

} // verus!
