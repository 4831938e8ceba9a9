//! A small set of boolean properties of a computation node, packed into the
//! bits of one byte.

use vstd::prelude::*;

verus! {

/// Boolean node properties packed into one byte: one bit each for being
/// constant, being explicitly computable, being sampleable, and using
/// automatic naming.
#[derive(Clone, Copy, Hash, Debug, PartialEq, Eq, Structural)]
pub struct CircuitFlags(pub u8);

impl CircuitFlags {
    /// The bit for a node that is a constant.
    pub const IS_CONSTANT: u8 = 0b0001;

    /// The bit for a node that can be computed explicitly.
    pub const IS_EXPLICITLY_COMPUTABLE: u8 = 0b0010;

    /// The bit for a node that can be sampled.
    pub const CAN_BE_SAMPLED: u8 = 0b0100;

    /// The bit for a node that takes an automatic name.
    pub const USE_AUTONAME: u8 = 0b1000;

    /// No property set.
    pub const NONE: u8 = 0b0;

    /// Whether any of the other set's properties is set here too.
    pub fn check(self, other: CircuitFlags) -> (r: bool)
        ensures
            r == ((self.0 & other.0) != 0),
    {
        (self.0 & other.0) != 0
    }

    /// All four properties set.
    pub fn all_true() -> (r: CircuitFlags)
        ensures
            r == (CircuitFlags(0b1111u8)),
    {
        let bits = CircuitFlags::IS_EXPLICITLY_COMPUTABLE | CircuitFlags::IS_CONSTANT
            | CircuitFlags::CAN_BE_SAMPLED | CircuitFlags::USE_AUTONAME;
        proof {
            assert(2u8 | 1u8 | 4u8 | 8u8 == 15u8) by (bit_vector);
        }
        CircuitFlags(bits)
    }
}

impl Default for CircuitFlags {
    /// A fresh node has every property until something clears one.
    fn default() -> (r: CircuitFlags)
        ensures
            r == (CircuitFlags(0b1111u8)),
    {
        CircuitFlags::all_true()
    }
}

} // verus!
