//! Single-precision numbers as bit patterns.

use vstd::prelude::*;

verus! {

/// The bit pattern of 0.0.
pub const ZERO: u32 = 0;

/// The bit pattern of 1.0.
pub const ONE: u32 = 0x3F80_0000;

/// The bit pattern of -1.0.
pub const MINUS_ONE: u32 = 0xBF80_0000;

/// The bit pattern of 2.0.
pub const TWO: u32 = 0x4000_0000;

/// An IEEE-754 single-precision number, carried as its 32-bit pattern.
///
/// The graph and the optimiser only pass such numbers on to the device, so
/// the bit pattern is all they need; two scalars are equal exactly when
/// their bit patterns are.
#[derive(Clone, Copy, Debug, PartialEq, Eq, Structural, Hash)]
pub struct Scalar {
    pub bits: u32,
}

impl Scalar {
    /// The number with the given bit pattern.
    pub fn from_bits(bits: u32) -> (s: Scalar)
        ensures
            s == (Scalar { bits }),
    {
        Scalar { bits }
    }

    /// The bit pattern of this number.
    pub fn to_bits(self) -> (bits: u32)
        ensures
            bits == self.bits,
    {
        self.bits
    }
}

} // verus!
