//! Decimal quantities, carried without arithmetic.

use vstd::prelude::*;

verus! {

/// A decimal quantity held as the bit pattern of an IEEE-754 binary64 number.
///
/// The library never computes with these values; it only moves them around
/// and asks whether one is zero. Callers turn a floating-point number into a
/// `Decimal` with the number's bit pattern and back again.
#[derive(Clone, Copy, Debug, PartialEq, Eq, Structural)]
pub struct Decimal {
    pub bits: u64,
}

/// Bit pattern of negative zero: only the sign bit is set.
pub const NEGATIVE_ZERO_BITS: u64 = 0x8000_0000_0000_0000;

impl Decimal {
    /// The quantity is zero: every bit but the sign is clear.
    pub open spec fn is_zero_spec(self) -> bool {
        self.bits == 0 || self.bits == NEGATIVE_ZERO_BITS
    }

    /// The quantity `+0.0`.
    pub open spec fn zero_spec() -> Decimal {
        Decimal { bits: 0 }
    }

    /// The quantity `+0.0`.
    #[verifier::when_used_as_spec(zero_spec)]
    pub fn zero() -> (d: Decimal)
        ensures
            d == Decimal::zero_spec(),
            d.is_zero_spec(),
    {
        Decimal { bits: 0 }
    }

    /// The quantity with the given bit pattern.
    pub fn from_bits(bits: u64) -> (d: Decimal)
        ensures
            d.bits == bits,
    {
        Decimal { bits }
    }

    /// The bit pattern of the quantity.
    pub fn to_bits(self) -> (bits: u64)
        ensures
            bits == self.bits,
    {
        self.bits
    }

    /// Whether the quantity is zero, of either sign.
    #[verifier::when_used_as_spec(is_zero_spec)]
    pub fn is_zero(self) -> (zero: bool)
        ensures
            zero == self.is_zero_spec(),
    {
        self.bits == 0 || self.bits == NEGATIVE_ZERO_BITS
    }
}

} // verus!
