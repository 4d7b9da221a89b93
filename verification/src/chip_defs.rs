//! The chip database schema: chip definitions as vendors write them, with
//! sizes in human units and features as named switches, and the rules a
//! vendor file must satisfy.
use vstd::prelude::*;
use crate::chip::features::{Features, QeMethod};
use crate::chip::types::{
    ChipTestStatus, EraseBlock, EraseRegion, FlashChip, TestStatus as ChipStatus,
    WriteGranularity as ChipGranularity,
};
use crate::layout::fmap::decimal;
use crate::layout::toml::{format_decimal, format_message, push_str};

verus! {

/// Size specification with human-readable units
#[derive(Debug, Clone, Copy, PartialEq, Eq, Structural)]
pub enum Size {
    /// Size in bytes
    B(u32),
    /// Size in kibibytes (1024 bytes)
    KiB(u32),
    /// Size in mebibytes (1024 * 1024 bytes)
    MiB(u32),
}

impl Size {
    /// The size in bytes, as a mathematical integer.
    pub open spec fn spec_bytes(self) -> int {
        match self {
            Size::B(n) => n as int,
            Size::KiB(n) => n * 1024,
            Size::MiB(n) => n * 1048576,
        }
    }

    /// The size in bytes, or `None` when it does not fit in 32 bits.
    pub fn checked_bytes(self) -> (r: Option<u32>)
        ensures
            match r {
                Some(b) => b == self.spec_bytes(),
                None => self.spec_bytes() > u32::MAX,
            },
    {
        match self {
            Size::B(n) => Some(n),
            Size::KiB(n) => n.checked_mul(1024),
            Size::MiB(n) => n.checked_mul(1024 * 1024),
        }
    }

    /// Convert to bytes
    pub fn to_bytes(self) -> (r: u32)
        requires
            self.spec_bytes() <= u32::MAX,
        ensures
            r == self.spec_bytes(),
    {
        match self {
            Size::B(n) => n,
            Size::KiB(n) => n * 1024,
            Size::MiB(n) => n * 1024 * 1024,
        }
    }
}

/// Feature flags for flash chips (structured for better RON ergonomics)
#[derive(Debug, Clone, Copy, Default)]
pub struct FeaturesDef {
    /// Use WREN (0x06) before WRSR
    pub wrsr_wren: bool,
    /// Use EWSR (0x50) before WRSR (legacy SST)
    pub wrsr_ewsr: bool,
    /// WRSR writes both SR1 and SR2 with one command
    pub wrsr_ext: bool,
    /// Supports Fast Read (0x0B)
    pub fast_read: bool,
    /// Supports Dual I/O read commands
    pub dual_io: bool,
    /// Supports Quad I/O read commands
    pub quad_io: bool,
    /// Supports 4-byte address mode
    pub four_byte_addr: bool,
    /// Can enter 4BA mode with EN4B (0xB7)
    pub four_byte_enter: bool,
    /// Has native 4BA commands (0x13, 0x12, etc.)
    pub four_byte_native: bool,
    /// Supports extended address register (legacy coarse flag)
    pub ext_addr_reg: bool,
    /// Enter/exit 4BA mode requires WREN before 0xB7/0xE9
    pub four_byte_enter_wren: bool,
    /// Enter/exit 4BA mode by setting bit 7 of the extended address register
    pub four_byte_enter_ear7: bool,
    /// Extended Address Register uses 0xC5/0xC8
    pub ext_addr_reg_c5c8: bool,
    /// Extended Address Register uses 0x17/0x16
    pub ext_addr_reg_1716: bool,
    /// Native 4BA read instruction 0x13
    pub four_byte_read: bool,
    /// Native 4BA fast-read instruction 0x0C
    pub four_byte_fast_read: bool,
    /// Native 4BA page-program instruction 0x12
    pub four_byte_program: bool,
    /// Native 4BA dual-output read instruction 0x3C
    pub four_byte_dual_out_read: bool,
    /// Native 4BA dual-I/O read instruction 0xBC
    pub four_byte_dual_io_read: bool,
    /// Native 4BA quad-output read instruction 0x6C
    pub four_byte_quad_out_read: bool,
    /// Native 4BA quad-I/O read instruction 0xEC
    pub four_byte_quad_io_read: bool,
    /// Has OTP (One-Time Programmable) area
    pub otp: bool,
    /// Supports QPI mode (4-4-4)
    pub qpi: bool,
    /// Has security registers
    pub security_reg: bool,
    /// Supports SFDP (Serial Flash Discoverable Parameters)
    pub sfdp: bool,
    /// Byte-granularity writes (can write single bytes)
    pub write_byte: bool,
    /// Supports AAI (Auto Address Increment) word program
    pub aai_word: bool,
    /// SST26-style per-block protection register (requires WREN + ULBPR to unlock)
    pub sst26_bpr: bool,
    /// Has status register 2
    pub status_reg_2: bool,
    /// Has status register 3
    pub status_reg_3: bool,
    /// Quad Enable bit is in SR2
    pub qe_sr2: bool,
    /// Supports deep power down
    pub deep_power_down: bool,
    /// Top/Bottom protect bit available
    pub wp_tb: bool,
    /// Sector/Block protect bit available
    pub wp_sec: bool,
    /// Complement (CMP) bit available
    pub wp_cmp: bool,
}

/// The feature bits that a definition switches on; the extended address
/// register is on when any of its three switches is.
pub open spec fn def_feature_bits(d: FeaturesDef) -> u64 {
    let b0: u64 = 0u64;
    let b1: u64 = b0 | flag(d.wrsr_wren, Features::WRSR_WREN);
    let b2: u64 = b1 | flag(d.wrsr_ewsr, Features::WRSR_EWSR);
    let b3: u64 = b2 | flag(d.wrsr_ext, Features::WRSR_EXT);
    let b4: u64 = b3 | flag(d.fast_read, Features::FAST_READ);
    let b5: u64 = b4 | flag(d.dual_io, Features::DUAL_IO);
    let b6: u64 = b5 | flag(d.quad_io, Features::QUAD_IO);
    let b7: u64 = b6 | flag(d.four_byte_addr, Features::FOUR_BYTE_ADDR);
    let b8: u64 = b7 | flag(d.four_byte_enter, Features::FOUR_BYTE_ENTER);
    let b9: u64 = b8 | flag(d.four_byte_native, Features::FOUR_BYTE_NATIVE);
    let b10: u64 = b9 | flag(d.ext_addr_reg || d.ext_addr_reg_c5c8 || d.ext_addr_reg_1716, Features::EXT_ADDR_REG);
    let b11: u64 = b10 | flag(d.four_byte_enter_wren, Features::FOUR_BYTE_ENTER_WREN);
    let b12: u64 = b11 | flag(d.four_byte_enter_ear7, Features::FOUR_BYTE_ENTER_EAR7);
    let b13: u64 = b12 | flag(d.ext_addr_reg_c5c8, Features::EXT_ADDR_REG_C5C8);
    let b14: u64 = b13 | flag(d.ext_addr_reg_1716, Features::EXT_ADDR_REG_1716);
    let b15: u64 = b14 | flag(d.four_byte_read, Features::FOUR_BYTE_READ);
    let b16: u64 = b15 | flag(d.four_byte_fast_read, Features::FOUR_BYTE_FAST_READ);
    let b17: u64 = b16 | flag(d.four_byte_program, Features::FOUR_BYTE_PROGRAM);
    let b18: u64 = b17 | flag(d.four_byte_dual_out_read, Features::FOUR_BYTE_DUAL_OUT_READ);
    let b19: u64 = b18 | flag(d.four_byte_dual_io_read, Features::FOUR_BYTE_DUAL_IO_READ);
    let b20: u64 = b19 | flag(d.four_byte_quad_out_read, Features::FOUR_BYTE_QUAD_OUT_READ);
    let b21: u64 = b20 | flag(d.four_byte_quad_io_read, Features::FOUR_BYTE_QUAD_IO_READ);
    let b22: u64 = b21 | flag(d.otp, Features::OTP);
    let b23: u64 = b22 | flag(d.qpi, Features::QPI);
    let b24: u64 = b23 | flag(d.security_reg, Features::SECURITY_REG);
    let b25: u64 = b24 | flag(d.sfdp, Features::SFDP);
    let b26: u64 = b25 | flag(d.write_byte, Features::WRITE_BYTE);
    let b27: u64 = b26 | flag(d.aai_word, Features::AAI_WORD);
    let b28: u64 = b27 | flag(d.sst26_bpr, Features::SST26_BPR);
    let b29: u64 = b28 | flag(d.status_reg_2, Features::STATUS_REG_2);
    let b30: u64 = b29 | flag(d.status_reg_3, Features::STATUS_REG_3);
    let b31: u64 = b30 | flag(d.qe_sr2, Features::QE_SR2);
    let b32: u64 = b31 | flag(d.deep_power_down, Features::DEEP_POWER_DOWN);
    let b33: u64 = b32 | flag(d.wp_tb, Features::WP_TB);
    let b34: u64 = b33 | flag(d.wp_sec, Features::WP_SEC);
    let b35: u64 = b34 | flag(d.wp_cmp, Features::WP_CMP);
    b35
}

/// `bits` when `on`, else no bits.
#[verifier::opaque]
pub open spec fn flag(on: bool, bits: u64) -> u64 {
    if on { bits } else { 0u64 }
}

/// `bits` when `on`, else no bits.
pub fn flag_bits(on: bool, bits: u64) -> (r: u64)
    ensures
        r == flag(on, bits),
{
    reveal(flag);
    if on {
        bits
    } else {
        0
    }
}

/// The `Features` that a definition switches on.
pub fn features_from_def(def: FeaturesDef) -> (r: Features)
    ensures
        r.bits == def_feature_bits(def),
{
    let d = def;
    let mut b: u64 = 0u64;
    b = b | flag_bits(d.wrsr_wren, Features::WRSR_WREN);
    b = b | flag_bits(d.wrsr_ewsr, Features::WRSR_EWSR);
    b = b | flag_bits(d.wrsr_ext, Features::WRSR_EXT);
    b = b | flag_bits(d.fast_read, Features::FAST_READ);
    b = b | flag_bits(d.dual_io, Features::DUAL_IO);
    b = b | flag_bits(d.quad_io, Features::QUAD_IO);
    b = b | flag_bits(d.four_byte_addr, Features::FOUR_BYTE_ADDR);
    b = b | flag_bits(d.four_byte_enter, Features::FOUR_BYTE_ENTER);
    b = b | flag_bits(d.four_byte_native, Features::FOUR_BYTE_NATIVE);
    b = b | flag_bits(d.ext_addr_reg || d.ext_addr_reg_c5c8 || d.ext_addr_reg_1716, Features::EXT_ADDR_REG);
    b = b | flag_bits(d.four_byte_enter_wren, Features::FOUR_BYTE_ENTER_WREN);
    b = b | flag_bits(d.four_byte_enter_ear7, Features::FOUR_BYTE_ENTER_EAR7);
    b = b | flag_bits(d.ext_addr_reg_c5c8, Features::EXT_ADDR_REG_C5C8);
    b = b | flag_bits(d.ext_addr_reg_1716, Features::EXT_ADDR_REG_1716);
    b = b | flag_bits(d.four_byte_read, Features::FOUR_BYTE_READ);
    b = b | flag_bits(d.four_byte_fast_read, Features::FOUR_BYTE_FAST_READ);
    b = b | flag_bits(d.four_byte_program, Features::FOUR_BYTE_PROGRAM);
    b = b | flag_bits(d.four_byte_dual_out_read, Features::FOUR_BYTE_DUAL_OUT_READ);
    b = b | flag_bits(d.four_byte_dual_io_read, Features::FOUR_BYTE_DUAL_IO_READ);
    b = b | flag_bits(d.four_byte_quad_out_read, Features::FOUR_BYTE_QUAD_OUT_READ);
    b = b | flag_bits(d.four_byte_quad_io_read, Features::FOUR_BYTE_QUAD_IO_READ);
    b = b | flag_bits(d.otp, Features::OTP);
    b = b | flag_bits(d.qpi, Features::QPI);
    b = b | flag_bits(d.security_reg, Features::SECURITY_REG);
    b = b | flag_bits(d.sfdp, Features::SFDP);
    b = b | flag_bits(d.write_byte, Features::WRITE_BYTE);
    b = b | flag_bits(d.aai_word, Features::AAI_WORD);
    b = b | flag_bits(d.sst26_bpr, Features::SST26_BPR);
    b = b | flag_bits(d.status_reg_2, Features::STATUS_REG_2);
    b = b | flag_bits(d.status_reg_3, Features::STATUS_REG_3);
    b = b | flag_bits(d.qe_sr2, Features::QE_SR2);
    b = b | flag_bits(d.deep_power_down, Features::DEEP_POWER_DOWN);
    b = b | flag_bits(d.wp_tb, Features::WP_TB);
    b = b | flag_bits(d.wp_sec, Features::WP_SEC);
    b = b | flag_bits(d.wp_cmp, Features::WP_CMP);
    Features::from_bits_retain(b)
}

impl From<FeaturesDef> for Features {
    fn from(def: FeaturesDef) -> (r: Features) {
        features_from_def(def)
    }
}

impl vstd::std_specs::convert::FromSpecImpl<FeaturesDef> for Features {
    open spec fn obeys_from_spec() -> bool {
        true
    }

    open spec fn from_spec(v: FeaturesDef) -> Features {
        Features { bits: def_feature_bits(v) }
    }
}

/// Region definition: size and count pair
#[derive(Debug, Clone, Copy)]
pub struct RegionDef {
    /// Size of each block in this region
    pub size: Size,
    /// Number of blocks of this size
    pub count: u32,
}

/// Erase block definition in RON format
///
/// Supports both uniform blocks (single size across entire chip) and
/// non-uniform layouts (multiple regions with different sizes, common
/// in boot sector chips like PT/PU variants).
#[derive(Debug, Clone)]
pub struct EraseBlockDef {
    /// Regular SPI opcode for this erase operation
    pub opcode: u8,
    /// Native 4-byte-address SPI opcode for this erase operation, if supported
    pub opcode_4b: Option<u8>,
    /// Regions for this erase opcode.
    pub regions: Vec<RegionDef>,
}

/// Test status for chip operations
#[derive(Debug, Clone, Copy, Default, PartialEq, Eq, Structural)]
pub enum TestStatus {
    /// Not tested
    #[default]
    Untested,
    /// Tested and working
    Works,
    /// Tested but has issues
    Bad,
    /// Not applicable
    Na,
}

/// Test results for various chip operations
#[derive(Debug, Clone, Copy, Default)]
pub struct TestStatusDef {
    /// Probe/identification
    pub probe: TestStatus,
    /// Read operation
    pub read: TestStatus,
    /// Erase operation
    pub erase: TestStatus,
    /// Write operation
    pub write: TestStatus,
    /// Write protection
    pub wp: TestStatus,
}

/// Write granularity
#[derive(Debug, Clone, Copy, Default, PartialEq, Eq, Structural)]
pub enum WriteGranularity {
    /// Can write individual bits
    Bit,
    /// Can write individual bytes
    Byte,
    /// Must write full pages
    #[default]
    Page,
}

/// Voltage range in millivolts
#[derive(Debug, Clone, Copy)]
pub struct VoltageDef {
    /// Minimum voltage
    pub min: u16,
    /// Maximum voltage
    pub max: u16,
}

impl Default for VoltageDef {
    fn default() -> (r: VoltageDef)
        ensures
            r.min == 2700,
            r.max == 3600,
    {
        VoltageDef { min: 2700, max: 3600 }
    }
}

/// The page size a chip definition gets when it names none.
pub fn default_page_size() -> (r: u16)
    ensures
        r == 256,
{
    256
}

/// Single chip definition in RON format
#[derive(Debug, Clone)]
pub struct ChipDef {
    /// Chip model name (e.g., "W25Q128FV")
    pub name: String,
    /// JEDEC device ID (2 bytes, e.g., 0x4018)
    pub device_id: u16,
    /// Total flash size
    pub total_size: Size,
    /// Page size in bytes (for programming)
    pub page_size: u16,
    /// Feature flags
    pub features: FeaturesDef,
    /// Operating voltage range
    pub voltage: VoltageDef,
    /// Write granularity
    pub write_granularity: WriteGranularity,
    /// Available erase block sizes
    pub erase_blocks: Vec<EraseBlockDef>,
    /// Test status
    pub tested: TestStatusDef,
}

/// Vendor definition containing multiple chips
#[derive(Debug, Clone)]
pub struct VendorDef {
    /// Vendor name (e.g., "Winbond")
    pub vendor: String,
    /// JEDEC manufacturer ID (1 byte, e.g., 0xEF)
    pub manufacturer_id: u8,
    /// List of chips from this vendor
    pub chips: Vec<ChipDef>,
}

} // verus!

verus! {

/// Bytes covered by the first `k` regions of `rs` laid end to end.
pub open spec fn regions_prefix_total(rs: Seq<RegionDef>, k: int) -> int
    decreases k,
{
    if k <= 0 {
        0
    } else {
        regions_prefix_total(rs, k - 1) + rs[k - 1].size.spec_bytes() * rs[k - 1].count
    }
}

/// The erase regions of a block reach beyond the 32-bit address space: a
/// block size does not fit in 32 bits, or all blocks together do not.
pub open spec fn regions_overflow(rs: Seq<RegionDef>) -> bool {
    ||| exists|k: int| 0 <= k < rs.len() && #[trigger] rs[k].size.spec_bytes() > u32::MAX
    ||| regions_prefix_total(rs, rs.len() as int) > u32::MAX
}

/// Message: the vendor defines a chip name twice.
pub open spec fn msg_duplicate(vendor: Seq<char>, name: Seq<char>) -> Seq<char> {
    "Vendor "@ + vendor + " defines chip name "@ + name + " more than once"@
}

/// Message: a chip has no erase blocks.
pub open spec fn msg_no_blocks(name: Seq<char>) -> Seq<char> {
    "Chip "@ + name + " has no erase blocks defined"@
}

/// Message: a chip size exceeds the 32-bit address space.
pub open spec fn msg_size_overflow(name: Seq<char>) -> Seq<char> {
    "Chip "@ + name + " has a size exceeding u32 address space"@
}

/// Message: erase regions exceed the 32-bit address space.
pub open spec fn msg_regions_overflow(name: Seq<char>) -> Seq<char> {
    "Chip "@ + name + " has erase regions exceeding u32 address space"@
}

/// Message: no erase block covers the whole chip.
pub open spec fn msg_no_chip_erase(name: Seq<char>, size: u32) -> Seq<char> {
    "Chip "@ + name + " has no chip-erase block (size "@ + decimal(size as nat)
        + " not found in erase_blocks)"@
}

/// Formats the duplicate-name message.
fn format_duplicate(vendor: &str, name: &str) -> (r: String)
    ensures
        r@ == msg_duplicate(vendor@, name@),
{
    let mut s = format_message("Vendor ", vendor);
    push_str(&mut s, " defines chip name ");
    push_str(&mut s, name);
    push_str(&mut s, " more than once");
    s
}

/// Formats the no-erase-blocks message.
fn format_no_blocks(name: &str) -> (r: String)
    ensures
        r@ == msg_no_blocks(name@),
{
    let mut s = format_message("Chip ", name);
    push_str(&mut s, " has no erase blocks defined");
    s
}

/// Formats the chip-size overflow message.
fn format_size_overflow(name: &str) -> (r: String)
    ensures
        r@ == msg_size_overflow(name@),
{
    let mut s = format_message("Chip ", name);
    push_str(&mut s, " has a size exceeding u32 address space");
    s
}

/// Formats the erase-region overflow message.
fn format_regions_overflow(name: &str) -> (r: String)
    ensures
        r@ == msg_regions_overflow(name@),
{
    let mut s = format_message("Chip ", name);
    push_str(&mut s, " has erase regions exceeding u32 address space");
    s
}

/// Formats the missing chip-erase message.
fn format_no_chip_erase(name: &str, size: u32) -> (r: String)
    ensures
        r@ == msg_no_chip_erase(name@, size),
{
    let mut s = format_message("Chip ", name);
    push_str(&mut s, " has no chip-erase block (size ");
    let digits = format_decimal(size);
    push_str(&mut s, digits.as_str());
    push_str(&mut s, " not found in erase_blocks)");
    s
}

/// What is wrong with chip `i` of the vendor, checked in this order: its
/// name repeats an earlier chip's, it has no erase blocks, its size does
/// not fit in 32 bits, an erase block's regions overflow, or no erase block
/// covers exactly the whole chip. `None` when nothing is.
pub open spec fn chip_error(vendor: Seq<char>, chips: Seq<ChipDef>, i: int) -> Option<Seq<char>> {
    let c = chips[i];
    let blocks = c.erase_blocks@;
    if exists|j: int| 0 <= j < i && #[trigger] chips[j].name@ == c.name@ {
        Some(msg_duplicate(vendor, c.name@))
    } else if blocks.len() == 0 {
        Some(msg_no_blocks(c.name@))
    } else if c.total_size.spec_bytes() > u32::MAX {
        Some(msg_size_overflow(c.name@))
    } else if exists|b: int| 0 <= b < blocks.len() && regions_overflow(#[trigger] blocks[b].regions@) {
        Some(msg_regions_overflow(c.name@))
    } else if !exists|b: int| 0 <= b < blocks.len()
        && regions_prefix_total(#[trigger] blocks[b].regions@, blocks[b].regions@.len() as int)
        == c.total_size.spec_bytes() {
        Some(msg_no_chip_erase(c.name@, c.total_size.spec_bytes() as u32))
    } else {
        None
    }
}

/// `msg` is the error of the first chip, in order, that has one.
pub open spec fn first_chip_error(vendor: Seq<char>, chips: Seq<ChipDef>, msg: Seq<char>) -> bool {
    exists|i: int| 0 <= i < chips.len() && #[trigger] chip_error(vendor, chips, i) == Some(msg)
        && forall|k: int| 0 <= k < i ==> #[trigger] chip_error(vendor, chips, k) is None
}

proof fn lemma_prefix_monotone(rs: Seq<RegionDef>, a: int, b: int)
    requires
        0 <= a <= b <= rs.len(),
    ensures
        regions_prefix_total(rs, a) <= regions_prefix_total(rs, b),
    decreases b - a,
{
    if a < b {
        lemma_prefix_monotone(rs, a, b - 1);
        assert(rs[b - 1].size.spec_bytes() * rs[b - 1].count >= 0) by (nonlinear_arith)
            requires
                rs[b - 1].size.spec_bytes() >= 0,
        ;
    }
}

/// Total of the regions of one erase block, or `None` when they overflow.
fn block_total(rs: &Vec<RegionDef>) -> (r: Option<u32>)
    ensures
        match r {
            Some(t) => !regions_overflow(rs@) && t == regions_prefix_total(rs@, rs@.len() as int),
            None => regions_overflow(rs@),
        },
{
    let mut total: u32 = 0;
    let mut k: usize = 0;
    while k < rs.len()
        invariant
            k <= rs@.len(),
            total == regions_prefix_total(rs@, k as int),
            forall|j: int| 0 <= j < k ==> #[trigger] rs@[j].size.spec_bytes() <= u32::MAX,
        decreases rs@.len() - k,
    {
        let region = rs[k];
        let next = match region.size.checked_bytes() {
            Some(size) => match size.checked_mul(region.count) {
                Some(bytes) => total.checked_add(bytes),
                None => None,
            },
            None => None,
        };
        match next {
            Some(t) => {
                total = t;
            },
            None => {
                proof {
                    if region.size.spec_bytes() <= u32::MAX {
                        lemma_prefix_monotone(rs@, k + 1, rs@.len() as int);
                        assert(region.size.spec_bytes() * region.count >= 0) by (nonlinear_arith)
                            requires
                                region.size.spec_bytes() >= 0,
                        ;
                    }
                }
                return None;
            },
        }
        k += 1;
    }
    Some(total)
}

impl VendorDef {
    /// Validate the chip database
    pub fn validate(&self) -> (r: Result<(), String>)
        ensures
            match r {
                Ok(()) => forall|i: int| 0 <= i < self.chips@.len()
                    ==> #[trigger] chip_error(self.vendor@, self.chips@, i) is None,
                Err(m) => first_chip_error(self.vendor@, self.chips@, m@),
            },
    {
        let ghost chips = self.chips@;
        let mut i: usize = 0;
        while i < self.chips.len()
            invariant
                chips == self.chips@,
                i <= chips.len(),
                forall|k: int| 0 <= k < i ==> #[trigger] chip_error(self.vendor@, chips, k) is None,
            decreases chips.len() - i,
        {
            let chip = &self.chips[i];
            let mut j: usize = 0;
            while j < i
                invariant
                    chips == self.chips@,
                    i < chips.len(),
                    j <= i,
                    *chip == chips[i as int],
                    forall|k: int| 0 <= k < i ==> #[trigger] chip_error(self.vendor@, chips, k) is None,
                    forall|k: int| 0 <= k < j ==> chips[k].name@ != chip.name@,
                decreases i - j,
            {
                if self.chips[j].name == chip.name {
                    let m = format_duplicate(self.vendor.as_str(), chip.name.as_str());
                    assert(chip_error(self.vendor@, chips, i as int) == Some(m@));
                    return Err(m);
                }
                j += 1;
            }
            assert(!exists|k: int| 0 <= k < i && #[trigger] chips[k].name@ == chips[i as int].name@);
            if chip.erase_blocks.len() == 0 {
                let m = format_no_blocks(chip.name.as_str());
                assert(chip_error(self.vendor@, chips, i as int) == Some(m@));
                return Err(m);
            }
            let total_size = match chip.total_size.checked_bytes() {
                Some(t) => t,
                None => {
                    let m = format_size_overflow(chip.name.as_str());
                    assert(chip_error(self.vendor@, chips, i as int) == Some(m@));
                    return Err(m);
                },
            };
            let ghost blocks = chip.erase_blocks@;
            let mut has_chip_erase = false;
            let mut b: usize = 0;
            while b < chip.erase_blocks.len()
                invariant
                    chips == self.chips@,
                    i < chips.len(),
                    *chip == chips[i as int],
                    blocks == chip.erase_blocks@,
                    blocks.len() > 0,
                    forall|k: int| 0 <= k < i ==> #[trigger] chip_error(self.vendor@, chips, k) is None,
                    !exists|k: int| 0 <= k < i && #[trigger] chips[k].name@ == chips[i as int].name@,
                    total_size == chip.total_size.spec_bytes(),
                    b <= blocks.len(),
                    forall|c: int| 0 <= c < b ==> !regions_overflow(#[trigger] blocks[c].regions@),
                    has_chip_erase == exists|c: int| 0 <= c < b && regions_prefix_total(
                        #[trigger] blocks[c].regions@,
                        blocks[c].regions@.len() as int,
                    ) == total_size,
                decreases blocks.len() - b,
            {
                match block_total(&chip.erase_blocks[b].regions) {
                    Some(t) => {
                        if t == total_size {
                            has_chip_erase = true;
                        }
                    },
                    None => {
                        assert(regions_overflow(blocks[b as int].regions@));
                        let m = format_regions_overflow(chip.name.as_str());
                        assert(chip_error(self.vendor@, chips, i as int) == Some(m@));
                        return Err(m);
                    },
                }
                b += 1;
            }
            if !has_chip_erase {
                let m = format_no_chip_erase(chip.name.as_str(), total_size);
                assert(chip_error(self.vendor@, chips, i as int) == Some(m@));
                return Err(m);
            }
            assert(chip_error(self.vendor@, chips, i as int) is None);
            i += 1;
        }
        Ok(())
    }
}

} // verus!

verus! {

/// The chip test status that a definition's status stands for.
pub open spec fn chip_status_of(s: TestStatus) -> ChipStatus {
    match s {
        TestStatus::Untested => ChipStatus::Untested,
        TestStatus::Works => ChipStatus::Works,
        TestStatus::Bad => ChipStatus::Bad,
        TestStatus::Na => ChipStatus::Na,
    }
}

impl TestStatus {
    /// The chip test status this definition stands for.
    pub fn to_chip_status(self) -> (r: ChipStatus)
        ensures
            r == chip_status_of(self),
    {
        match self {
            TestStatus::Untested => ChipStatus::Untested,
            TestStatus::Works => ChipStatus::Works,
            TestStatus::Bad => ChipStatus::Bad,
            TestStatus::Na => ChipStatus::Na,
        }
    }
}

/// The chip test results that a definition's results stand for.
pub open spec fn chip_statuses_of(t: TestStatusDef) -> ChipTestStatus {
    ChipTestStatus {
        probe: chip_status_of(t.probe),
        read: chip_status_of(t.read),
        erase: chip_status_of(t.erase),
        write: chip_status_of(t.write),
        wp: chip_status_of(t.wp),
    }
}

impl TestStatusDef {
    /// The chip test results this definition stands for.
    pub fn to_chip_test_status(self) -> (r: ChipTestStatus)
        ensures
            r == chip_statuses_of(self),
    {
        ChipTestStatus {
            probe: self.probe.to_chip_status(),
            read: self.read.to_chip_status(),
            erase: self.erase.to_chip_status(),
            write: self.write.to_chip_status(),
            wp: self.wp.to_chip_status(),
        }
    }
}

/// The chip write granularity that a definition's granularity stands for.
pub open spec fn chip_granularity_of(g: WriteGranularity) -> ChipGranularity {
    match g {
        WriteGranularity::Bit => ChipGranularity::Bit,
        WriteGranularity::Byte => ChipGranularity::Byte,
        WriteGranularity::Page => ChipGranularity::Page,
    }
}

impl WriteGranularity {
    /// The chip write granularity this definition stands for.
    pub fn to_chip_granularity(self) -> (r: ChipGranularity)
        ensures
            r == chip_granularity_of(self),
    {
        match self {
            WriteGranularity::Bit => ChipGranularity::Bit,
            WriteGranularity::Byte => ChipGranularity::Byte,
            WriteGranularity::Page => ChipGranularity::Page,
        }
    }
}

/// The erase region that a region definition describes.
pub open spec fn erase_region_of(r: RegionDef) -> EraseRegion {
    EraseRegion { size: r.size.spec_bytes() as u32, count: r.count }
}

/// Every block size of the regions fits in 32 bits.
pub open spec fn region_sizes_fit(rs: Seq<RegionDef>) -> bool {
    forall|k: int| 0 <= k < rs.len() ==> #[trigger] rs[k].size.spec_bytes() <= u32::MAX
}

/// The chip size and every block size of the definition fit in 32 bits.
pub open spec fn chip_def_fits(c: ChipDef) -> bool {
    &&& c.total_size.spec_bytes() <= u32::MAX
    &&& forall|b: int| 0 <= b < c.erase_blocks@.len() ==> region_sizes_fit(
        #[trigger] c.erase_blocks@[b].regions@,
    )
}

/// `block` is the erase block that `def` describes.
pub open spec fn erase_block_of(def: EraseBlockDef, block: EraseBlock) -> bool {
    &&& block.opcode == def.opcode
    &&& block.opcode_4b == def.opcode_4b
    &&& block.regions@.len() == def.regions@.len()
    &&& forall|k: int| 0 <= k < def.regions@.len() ==> #[trigger] block.regions@[k] == erase_region_of(
        def.regions@[k],
    )
}

impl EraseBlockDef {
    /// The erase block this definition describes.
    pub fn to_erase_block(&self) -> (r: EraseBlock)
        requires
            region_sizes_fit(self.regions@),
        ensures
            erase_block_of(*self, r),
    {
        let mut regions: Vec<EraseRegion> = Vec::new();
        let mut k: usize = 0;
        while k < self.regions.len()
            invariant
                k <= self.regions@.len(),
                region_sizes_fit(self.regions@),
                regions@.len() == k,
                forall|j: int| 0 <= j < k ==> #[trigger] regions@[j] == erase_region_of(self.regions@[j]),
            decreases self.regions@.len() - k,
        {
            let r = self.regions[k];
            assert(r.size.spec_bytes() <= u32::MAX);
            regions.push(EraseRegion::new(r.size.to_bytes(), r.count));
            k += 1;
        }
        EraseBlock::with_regions_and_4b(self.opcode, self.opcode_4b, regions.as_slice())
    }
}

/// `chip` is the flash chip that `def` describes for a vendor named
/// `vendor` with manufacturer ID `manufacturer_id`.
pub open spec fn flash_chip_of(def: ChipDef, vendor: Seq<char>, manufacturer_id: u8, chip: FlashChip) -> bool {
    &&& chip.vendor@ == vendor
    &&& chip.name@ == def.name@
    &&& chip.jedec_manufacturer == manufacturer_id
    &&& chip.jedec_device == def.device_id
    &&& chip.total_size == def.total_size.spec_bytes()
    &&& chip.page_size == def.page_size
    &&& chip.features.bits == def_feature_bits(def.features)
    &&& chip.voltage_min_mv == def.voltage.min
    &&& chip.voltage_max_mv == def.voltage.max
    &&& chip.write_granularity == chip_granularity_of(def.write_granularity)
    &&& chip.erase_blocks@.len() == def.erase_blocks@.len()
    &&& forall|b: int| 0 <= b < def.erase_blocks@.len() ==> erase_block_of(
        #[trigger] def.erase_blocks@[b],
        chip.erase_blocks@[b],
    )
    &&& chip.tested == chip_statuses_of(def.tested)
    &&& chip.qe_method == QeMethod::NoQeBit
}

impl ChipDef {
    /// The flash chip this definition describes, for the given vendor.
    pub fn to_flash_chip(&self, vendor: &str, manufacturer_id: u8) -> (r: FlashChip)
        requires
            chip_def_fits(*self),
        ensures
            flash_chip_of(*self, vendor@, manufacturer_id, r),
    {
        let mut blocks: Vec<EraseBlock> = Vec::new();
        let mut b: usize = 0;
        while b < self.erase_blocks.len()
            invariant
                b <= self.erase_blocks@.len(),
                chip_def_fits(*self),
                blocks@.len() == b,
                forall|j: int| 0 <= j < b ==> erase_block_of(
                    #[trigger] self.erase_blocks@[j],
                    blocks@[j],
                ),
            decreases self.erase_blocks@.len() - b,
        {
            let eb = self.erase_blocks[b].to_erase_block();
            let ghost before = blocks@;
            blocks.push(eb);
            proof {
                assert forall|j: int| 0 <= j < b + 1 implies erase_block_of(
                    #[trigger] self.erase_blocks@[j],
                    blocks@[j],
                ) by {
                    if j < b {
                        assert(blocks@[j] == before[j]);
                    }
                }
            }
            b += 1;
        }
        FlashChip {
            vendor: vendor.to_owned(),
            name: self.name.clone(),
            jedec_manufacturer: manufacturer_id,
            jedec_device: self.device_id,
            total_size: self.total_size.to_bytes(),
            page_size: self.page_size,
            features: features_from_def(self.features),
            voltage_min_mv: self.voltage.min,
            voltage_max_mv: self.voltage.max,
            write_granularity: self.write_granularity.to_chip_granularity(),
            erase_blocks: blocks,
            tested: self.tested.to_chip_test_status(),
            qe_method: QeMethod::NoQeBit,
        }
    }
}

impl ChipDef {
    /// The chip size and every erase block size fit in 32 bits.
    pub fn sizes_fit(&self) -> (r: bool)
        ensures
            r == chip_def_fits(*self),
    {
        if self.total_size.checked_bytes().is_none() {
            return false;
        }
        let nb = self.erase_blocks.len();
        let mut b: usize = 0;
        while b < nb
            invariant
                nb == self.erase_blocks@.len(),
                b <= nb,
                self.total_size.spec_bytes() <= u32::MAX,
                forall|j: int| 0 <= j < b ==> region_sizes_fit(#[trigger] self.erase_blocks@[j].regions@),
            decreases nb - b,
        {
            let regions = &self.erase_blocks[b].regions;
            let nr = regions.len();
            let mut k: usize = 0;
            while k < nr
                invariant
                    nr == regions@.len(),
                    nb == self.erase_blocks@.len(),
                    b < nb,
                    regions@ == self.erase_blocks@[b as int].regions@,
                    k <= nr,
                    forall|q: int| 0 <= q < k ==> #[trigger] regions@[q].size.spec_bytes() <= u32::MAX,
                decreases nr - k,
            {
                if regions[k].size.checked_bytes().is_none() {
                    proof {
                        assert(!region_sizes_fit(self.erase_blocks@[b as int].regions@)) by {
                            assert(self.erase_blocks@[b as int].regions@[k as int].size.spec_bytes() > u32::MAX);
                        }
                    }
                    return false;
                }
                k += 1;
            }
            b += 1;
        }
        true
    }
}

} // verus!
