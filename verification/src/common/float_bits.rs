//! Floating-point numbers that pass through the library.

use vstd::prelude::*;

verus! {

/// A floating-point number, carried as its IEEE 754 double-precision bits.
/// The library hands such numbers on and never computes with them.
#[derive(Debug, Clone, Copy, PartialEq, Eq, Structural)]
pub struct FloatBits {
    pub bits: u64,
}

impl FloatBits {
    /// Zero: all bits are clear.
    pub fn zero() -> (r: FloatBits)
        ensures
            r.bits == 0,
    {
        FloatBits { bits: 0 }
    }
}

} // verus!
