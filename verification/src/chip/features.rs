//! Flash chip feature flags.
use vstd::prelude::*;

verus! {

/// Feature flags for flash chips.
///
/// The flags describe what capabilities and behaviours a flash chip has.
/// The associated constants are bit masks.
#[derive(Debug, Clone, Copy, PartialEq, Eq, Hash, Structural)]
pub struct Features {
    /// The raw flag bits.
    pub bits: u64,
}

impl Features {
    /// Use WREN (0x06) before WRSR
    pub const WRSR_WREN: u64 = 1u64 << 0u64;
    /// Use EWSR (0x50) before WRSR (legacy SST)
    pub const WRSR_EWSR: u64 = 1u64 << 1u64;
    /// WRSR writes both SR1 and SR2 with one command
    pub const WRSR_EXT: u64 = 1u64 << 2u64;
    /// Supports Fast Read (0x0B)
    pub const FAST_READ: u64 = 1u64 << 3u64;
    /// Supports Dual I/O read commands
    pub const DUAL_IO: u64 = 1u64 << 4u64;
    /// Supports Quad I/O read commands
    pub const QUAD_IO: u64 = 1u64 << 5u64;
    /// Supports 4-byte address mode
    pub const FOUR_BYTE_ADDR: u64 = 1u64 << 6u64;
    /// Can enter 4BA mode with EN4B (0xB7)
    pub const FOUR_BYTE_ENTER: u64 = 1u64 << 7u64;
    /// Has flashprog-style native 4BA commands (0x13 read, 0x0C fast read, 0x12 page program)
    pub const FOUR_BYTE_NATIVE: u64 = 1u64 << 8u64;
    /// Supports extended address register (legacy coarse flag)
    pub const EXT_ADDR_REG: u64 = 1u64 << 9u64;
    /// Has OTP (One-Time Programmable) area
    pub const OTP: u64 = 1u64 << 10u64;
    /// Supports QPI mode (4-4-4)
    pub const QPI: u64 = 1u64 << 11u64;
    /// Has security registers
    pub const SECURITY_REG: u64 = 1u64 << 12u64;
    /// Supports SFDP (Serial Flash Discoverable Parameters)
    pub const SFDP: u64 = 1u64 << 13u64;
    /// Byte-granularity writes (can write single bytes)
    pub const WRITE_BYTE: u64 = 1u64 << 14u64;
    /// Supports AAI (Auto Address Increment) word program
    pub const AAI_WORD: u64 = 1u64 << 15u64;
    /// SST26-style per-block protection register (not SR BP bits); needs WREN + ULBPR (0x98) to unlock
    pub const SST26_BPR: u64 = 1u64 << 16u64;
    /// Has status register 2
    pub const STATUS_REG_2: u64 = 1u64 << 19u64;
    /// Has status register 3
    pub const STATUS_REG_3: u64 = 1u64 << 20u64;
    /// Quad Enable bit is in SR2
    pub const QE_SR2: u64 = 1u64 << 21u64;
    /// Supports deep power down
    pub const DEEP_POWER_DOWN: u64 = 1u64 << 22u64;
    /// Top/Bottom protect bit available
    pub const WP_TB: u64 = 1u64 << 23u64;
    /// Sector/Block protect bit available
    pub const WP_SEC: u64 = 1u64 << 24u64;
    /// Complement (CMP) bit available
    pub const WP_CMP: u64 = 1u64 << 25u64;
    /// Has Status Register Lock (SRL) bit
    pub const WP_SRL: u64 = 1u64 << 26u64;
    /// Supports volatile status register writes (EWSR)
    pub const WP_VOLATILE: u64 = 1u64 << 27u64;
    /// Has BP3 (4th block protect bit)
    pub const WP_BP3: u64 = 1u64 << 28u64;
    /// Has Write Protect Selection (WPS) for per-sector mode
    pub const WP_WPS: u64 = 1u64 << 29u64;
    /// Enter/exit 4BA mode with WREN + 0xB7 / WREN + 0xE9
    pub const FOUR_BYTE_ENTER_WREN: u64 = 1u64 << 30u64;
    /// Extended Address Register uses 0xC5/0xC8
    pub const EXT_ADDR_REG_C5C8: u64 = 1u64 << 31u64;
    /// Enter/exit 4BA mode by setting bit 7 of the extended address register
    pub const FOUR_BYTE_ENTER_EAR7: u64 = 1u64 << 32u64;
    /// Extended Address Register uses 0x17/0x16
    pub const EXT_ADDR_REG_1716: u64 = 1u64 << 33u64;
    /// Native 4BA read instruction 0x13
    pub const FOUR_BYTE_READ: u64 = 1u64 << 34u64;
    /// Native 4BA fast-read instruction 0x0C
    pub const FOUR_BYTE_FAST_READ: u64 = 1u64 << 35u64;
    /// Native 4BA page-program instruction 0x12
    pub const FOUR_BYTE_PROGRAM: u64 = 1u64 << 36u64;
    /// Native 4BA dual-output read instruction 0x3C
    pub const FOUR_BYTE_DUAL_OUT_READ: u64 = 1u64 << 37u64;
    /// Native 4BA dual-I/O read instruction 0xBC
    pub const FOUR_BYTE_DUAL_IO_READ: u64 = 1u64 << 38u64;
    /// Native 4BA quad-output read instruction 0x6C
    pub const FOUR_BYTE_QUAD_OUT_READ: u64 = 1u64 << 39u64;
    /// Native 4BA quad-I/O read instruction 0xEC
    pub const FOUR_BYTE_QUAD_IO_READ: u64 = 1u64 << 40u64;
    /// Supports Dual Output Fast Read (1-1-2, opcode 0x3B / 0x3C)
    pub const FAST_READ_DOUT: u64 = 1u64 << 41u64;
    /// Supports Dual I/O Fast Read (1-2-2, opcode 0xBB / 0xBC)
    pub const FAST_READ_DIO: u64 = 1u64 << 42u64;
    /// Supports Quad Output Fast Read (1-1-4, opcode 0x6B / 0x6C)
    pub const FAST_READ_QOUT: u64 = 1u64 << 43u64;
    /// Supports Quad I/O Fast Read (1-4-4, opcode 0xEB / 0xEC)
    pub const FAST_READ_QIO: u64 = 1u64 << 44u64;
    /// Supports 4-byte QPI Fast Read (4-4-4, opcode 0xEC)
    pub const FAST_READ_QPI4B: u64 = 1u64 << 45u64;
    /// QPI entry/exit via 0x35/0xF5
    pub const QPI_35_F5: u64 = 1u64 << 46u64;
    /// QPI entry/exit via 0x38/0xFF
    pub const QPI_38_FF: u64 = 1u64 << 47u64;
    /// Supports Set Read Parameters (0xC0)
    pub const SET_READ_PARAMS: u64 = 1u64 << 48u64;
    /// Has a uniform 4 KiB erase
    pub const ERASE_4K: u64 = 1u64 << 49u64;
    /// Has a uniform 32 KiB erase
    pub const ERASE_32K: u64 = 1u64 << 50u64;
    /// Has a uniform 64 KiB erase
    pub const ERASE_64K: u64 = 1u64 << 51u64;
    /// Fast-read and dual-read capabilities.
    pub const DIO_BUNDLE: u64 = 0x60000000008;
    /// Fast-read, dual-read, and quad-read capabilities.
    pub const QIO_BUNDLE: u64 = 0x1E0000000008;
    /// All capabilities that require quad data lines.
    pub const ANY_QUAD: u64 = 0x1F80000000000;
    /// All QPI entry/exit mechanisms.
    pub const ANY_QPI: u64 = 0xC00000000000;
    /// Every way to switch the chip into 4-byte mode.
    pub const ANY_4BA_ENTER: u64 = 0x140000080;
    /// Every kind of extended address register.
    pub const ANY_EXT_ADDR_REG: u64 = 0x280000200;

    /// Whether every flag of `flags` is set.
    pub open spec fn has(self, flags: u64) -> bool {
        self.bits & flags == flags
    }

    /// Whether any flag of `flags` is set.
    pub open spec fn has_any(self, flags: u64) -> bool {
        self.bits & flags != 0
    }

    /// No flag set.
    pub fn empty() -> (r: Features)
        ensures
            r.bits == 0,
    {
        Features { bits: 0 }
    }

    /// Features with exactly the given bits.
    pub fn from_bits_retain(bits: u64) -> (r: Features)
        ensures
            r.bits == bits,
    {
        Features { bits }
    }

    /// The raw bits.
    pub fn bits(&self) -> (r: u64)
        ensures
            r == self.bits,
    {
        self.bits
    }

    /// Whether all flags in `flags` are set.
    pub fn contains(&self, flags: u64) -> (r: bool)
        ensures
            r == self.has(flags),
    {
        self.bits & flags == flags
    }

    /// Whether any flag in `flags` is set.
    pub fn intersects(&self, flags: u64) -> (r: bool)
        ensures
            r == self.has_any(flags),
    {
        self.bits & flags != 0
    }

    /// The features with the flags of `flags` added.
    pub fn union(&self, flags: u64) -> (r: Features)
        ensures
            r.bits == self.bits | flags,
    {
        Features { bits: self.bits | flags }
    }

    /// Add the flags of `flags`.
    pub fn insert(&mut self, flags: u64)
        ensures
            final(self).bits == old(self).bits | flags,
    {
        self.bits = self.bits | flags;
    }

    /// Whether any 4-byte mode enter/exit mechanism is supported.
    pub fn supports_4ba_mode_switch(self) -> (r: bool)
        ensures
            r == self.has_any(Features::ANY_4BA_ENTER),
    {
        self.intersects(Features::ANY_4BA_ENTER)
    }

    /// Whether an extended address register can select the high address byte.
    pub fn supports_extended_address_register(self) -> (r: bool)
        ensures
            r == self.has_any(Features::ANY_EXT_ADDR_REG),
    {
        self.intersects(Features::ANY_EXT_ADDR_REG)
    }

    /// Whether the native 4BA 0x13 read opcode is supported.
    pub fn supports_4ba_read(self) -> (r: bool)
        ensures
            r == self.has(Features::FOUR_BYTE_READ),
    {
        self.contains(Features::FOUR_BYTE_READ)
    }

    /// Whether the native 4BA 0x0C fast-read opcode is supported.
    pub fn supports_4ba_fast_read(self) -> (r: bool)
        ensures
            r == self.has(Features::FOUR_BYTE_FAST_READ),
    {
        self.contains(Features::FOUR_BYTE_FAST_READ)
    }

    /// Whether the native 4BA 0x12 page-program opcode is supported.
    pub fn supports_4ba_program(self) -> (r: bool)
        ensures
            r == self.has(Features::FOUR_BYTE_PROGRAM),
    {
        self.contains(Features::FOUR_BYTE_PROGRAM)
    }

    /// Whether native 4BA 0x3C dual-output read is supported.
    pub fn supports_4ba_dual_out_read(self) -> (r: bool)
        ensures
            r == self.has(Features::FOUR_BYTE_DUAL_OUT_READ),
    {
        self.contains(Features::FOUR_BYTE_DUAL_OUT_READ)
    }

    /// Whether native 4BA 0xBC dual-I/O read is supported.
    pub fn supports_4ba_dual_io_read(self) -> (r: bool)
        ensures
            r == self.has(Features::FOUR_BYTE_DUAL_IO_READ),
    {
        self.contains(Features::FOUR_BYTE_DUAL_IO_READ)
    }

    /// Whether native 4BA 0x6C quad-output read is supported.
    pub fn supports_4ba_quad_out_read(self) -> (r: bool)
        ensures
            r == self.has(Features::FOUR_BYTE_QUAD_OUT_READ),
    {
        self.contains(Features::FOUR_BYTE_QUAD_OUT_READ)
    }

    /// Whether native 4BA 0xEC quad-I/O read is supported.
    pub fn supports_4ba_quad_io_read(self) -> (r: bool)
        ensures
            r == self.has(Features::FOUR_BYTE_QUAD_IO_READ),
    {
        self.contains(Features::FOUR_BYTE_QUAD_IO_READ)
    }

}

/// Method used to enable quad I/O on a flash chip.
#[derive(Debug, Clone, Copy, PartialEq, Eq, Default, Structural)]
pub enum QeMethod {
    /// The chip has no QE bit.
    #[default]
    NoQeBit,
    /// QE is SR2 bit 1, written with command 0x01 and two status bytes.
    Sr2Bit1WriteSr,
    /// QE is SR2 bit 1, written with the dedicated 0x31 command.
    Sr2Bit1WriteSr2,
    /// QE is SR1 bit 6, written with command 0x01.
    Sr1Bit6,
    /// QE is SR2 bit 7 and requires the chip-specific unlocked sequence.
    Sr2Bit7,
}

} // verus!
