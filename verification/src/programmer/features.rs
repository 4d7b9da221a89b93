//! Capability flags of a programmer.
use vstd::prelude::*;

verus! {

/// SPI master feature flags.
///
/// The flags tell which capabilities a programmer supports; the names follow
/// flashprog. The associated constants are bit masks.
#[derive(Debug, Clone, Copy, PartialEq, Eq, Hash, Structural)]
pub struct SpiFeatures {
    /// The raw flag bits.
    pub bits: u32,
}

impl SpiFeatures {
    /// Supports 4-byte addressing commands
    pub const FOUR_BYTE_ADDR: u32 = 1u32 << 0u32;
    /// Supports no 4BA modes (compatibility modes don't work)
    pub const NO_4BA_MODES: u32 = 1u32 << 1u32;
    /// Can read two bits at once (1-1-2 mode)
    pub const DUAL_IN: u32 = 1u32 << 2u32;
    /// Can transfer two bits at once (1-2-2 mode)
    pub const DUAL_IO: u32 = 1u32 << 3u32;
    /// Can read four bits at once (1-1-4 mode)
    pub const QUAD_IN: u32 = 1u32 << 4u32;
    /// Can transfer four bits at once (1-4-4 mode)
    pub const QUAD_IO: u32 = 1u32 << 5u32;
    /// Can send commands with quad I/O (4-4-4 mode)
    pub const QPI: u32 = 1u32 << 6u32;
    /// Shorthand for dual mode (both DUAL_IN and DUAL_IO)
    pub const DUAL: u32 = 0x0C;
    /// Shorthand for quad mode (both QUAD_IN and QUAD_IO)
    pub const QUAD: u32 = 0x30;

    /// Whether every flag of `flags` is set.
    pub open spec fn has(self, flags: u32) -> bool {
        self.bits & flags == flags
    }

    /// Whether any flag of `flags` is set.
    pub open spec fn has_any(self, flags: u32) -> bool {
        self.bits & flags != 0
    }

    /// No flag set.
    pub fn empty() -> (r: SpiFeatures)
        ensures
            r.bits == 0,
    {
        SpiFeatures { bits: 0 }
    }

    /// Features with exactly the given bits.
    pub fn from_bits_retain(bits: u32) -> (r: SpiFeatures)
        ensures
            r.bits == bits,
    {
        SpiFeatures { bits }
    }

    /// The raw bits.
    pub fn bits(&self) -> (r: u32)
        ensures
            r == self.bits,
    {
        self.bits
    }

    /// Whether all flags in `flags` are set.
    pub fn contains(&self, flags: u32) -> (r: bool)
        ensures
            r == self.has(flags),
    {
        self.bits & flags == flags
    }

    /// Whether any flag in `flags` is set.
    pub fn intersects(&self, flags: u32) -> (r: bool)
        ensures
            r == self.has_any(flags),
    {
        self.bits & flags != 0
    }

    /// The features with the flags of `flags` added.
    pub fn union(&self, flags: u32) -> (r: SpiFeatures)
        ensures
            r.bits == self.bits | flags,
    {
        SpiFeatures { bits: self.bits | flags }
    }
}

} // verus!
