//! Flash context: the runtime state for operations on one identified chip.
use vstd::prelude::*;
use crate::chip::features::Features;
use crate::chip::types::FlashChip;

verus! {

/// Address mode currently in use
#[derive(Debug, Clone, Copy, PartialEq, Eq, Structural)]
pub enum AddressMode {
    /// 3-byte addressing (up to 16 MiB)
    ThreeByte,
    /// 4-byte addressing (up to 4 GiB)
    FourByte,
}

impl Default for AddressMode {
    fn default() -> (r: AddressMode)
        ensures
            r == AddressMode::ThreeByte,
    {
        AddressMode::ThreeByte
    }
}

/// Runtime context for flash operations
///
/// This structure holds the state needed to interact with a specific
/// flash chip through a programmer.
#[derive(Debug)]
pub struct FlashContext {
    /// The identified flash chip
    pub chip: &'static FlashChip,
    /// Current address mode
    pub address_mode: AddressMode,
    /// Whether to use native 4-byte commands or mode switching
    pub use_native_4byte: bool,
}

impl FlashContext {
    /// Create a new flash context for the given chip
    ///
    /// Chips over 16 MiB start in 4-byte mode; native 4-byte commands are
    /// used where the chip has them.
    pub fn new(chip: &'static FlashChip) -> (r: FlashContext)
        ensures
            r.chip == chip,
            r.address_mode == (if chip.spec_requires_4byte_addr() { AddressMode::FourByte } else { AddressMode::ThreeByte }),
            r.use_native_4byte == chip.features.has(Features::FOUR_BYTE_NATIVE),
    {
        let address_mode = if chip.requires_4byte_addr() {
            AddressMode::FourByte
        } else {
            AddressMode::ThreeByte
        };
        let use_native_4byte = chip.features.contains(Features::FOUR_BYTE_NATIVE);
        FlashContext { chip, address_mode, use_native_4byte }
    }

    /// Get the page size for this chip
    pub fn page_size(&self) -> (r: usize)
        ensures
            r == self.chip.page_size,
    {
        self.chip.page_size as usize
    }

    /// Get the total size of this chip
    pub fn total_size(&self) -> (r: usize)
        ensures
            r == self.chip.total_size,
    {
        self.chip.total_size as usize
    }

    /// Check if an address is valid for this chip
    pub fn is_valid_address(&self, addr: u32) -> (r: bool)
        ensures
            r == (addr < self.chip.total_size),
    {
        addr < self.chip.total_size
    }

    /// Check if an address range is valid for this chip
    pub fn is_valid_range(&self, addr: u32, len: usize) -> (r: bool)
        ensures
            r == (addr < self.chip.total_size && addr + len <= self.chip.total_size),
    {
        if addr >= self.chip.total_size {
            return false;
        }
        match (addr as u64).checked_add(len as u64) {
            Some(end) => end <= self.chip.total_size as u64,
            None => false,
        }
    }
}

} // verus!
