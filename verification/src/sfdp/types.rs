//! SFDP type definitions (JEDEC JESD216H structures).
use vstd::prelude::*;

verus! {

/// SFDP signature magic value ("SFDP" in little-endian)
pub const SFDP_SIGNATURE: u32 = 0x50444653;

/// Maximum number of parameter headers to support
pub const MAX_PARAMETER_HEADERS: usize = 16;

/// Maximum parameter table size in bytes (256 DWORDs * 4)
pub const MAX_PARAMETER_TABLE_SIZE: usize = 1024;

/// Basic Flash Parameter Table ID
pub const PARAM_ID_BASIC: u16 = 0xFF00;
/// Sector Map Parameter Table ID
pub const PARAM_ID_SECTOR_MAP: u16 = 0xFF81;
/// 4-byte Address Instruction Table ID
pub const PARAM_ID_4BYTE_ADDR: u16 = 0xFF84;
/// xSPI Profile 1.0 Parameter Table ID
pub const PARAM_ID_XSPI_1_0: u16 = 0xFF05;
/// Status/Control/Config Register Map ID
pub const PARAM_ID_SCCR_MAP: u16 = 0xFF87;

/// The little-endian 32-bit value of four bytes.
pub open spec fn le_u32(b0: u8, b1: u8, b2: u8, b3: u8) -> u32 {
    (b0 as u32) | ((b1 as u32) << 8u32) | ((b2 as u32) << 16u32) | ((b3 as u32) << 24u32)
}

/// Assemble a little-endian 32-bit value.
pub fn u32_from_le(b0: u8, b1: u8, b2: u8, b3: u8) -> (r: u32)
    ensures
        r == le_u32(b0, b1, b2, b3),
{
    (b0 as u32) | ((b1 as u32) << 8u32) | ((b2 as u32) << 16u32) | ((b3 as u32) << 24u32)
}

/// Parameters for a fast read command: opcode, number of mode clocks and
/// number of dummy/wait cycles.
#[derive(Debug, Clone, Copy, PartialEq, Eq, Default, Structural)]
pub struct FastReadParams {
    /// Instruction opcode (0x00 if not supported)
    pub opcode: u8,
    /// Number of mode clock cycles
    pub mode_clocks: u8,
    /// Number of dummy/wait clock cycles before valid output
    pub dummy_clocks: u8,
}

/// Fast read parameters from an opcode and its clock fields; all zero when
/// the opcode is 0x00 (not supported).
pub open spec fn spec_fast_read_params(opcode: u8, mode_clocks: u8, dummy_clocks: u8) -> FastReadParams {
    if opcode == 0 {
        FastReadParams { opcode: 0, mode_clocks: 0, dummy_clocks: 0 }
    } else {
        FastReadParams { opcode, mode_clocks, dummy_clocks }
    }
}

impl FastReadParams {
    /// Create new fast read parameters
    pub fn new(opcode: u8, mode_clocks: u8, dummy_clocks: u8) -> (r: FastReadParams)
        ensures
            r == (FastReadParams { opcode, mode_clocks, dummy_clocks }),
    {
        FastReadParams { opcode, mode_clocks, dummy_clocks }
    }

    /// Check if this fast read mode is supported
    pub fn is_supported(&self) -> (r: bool)
        ensures
            r == (self.opcode != 0),
    {
        self.opcode != 0x00
    }

    /// The parameters held in the high half of a DWORD: [31:24]
    /// instruction, [23:21] mode clocks, [20:16] dummy clocks.
    pub open spec fn spec_from_high_half(dword: u32) -> FastReadParams {
        spec_fast_read_params(((dword >> 24u32) & 0xFF) as u8, ((dword >> 21u32) & 0x07) as u8,
            ((dword >> 16u32) & 0x1F) as u8)
    }

    /// The parameters held in the low half of a DWORD: [15:8] instruction,
    /// [7:5] mode clocks, [4:0] dummy clocks.
    pub open spec fn spec_from_low_half(dword: u32) -> FastReadParams {
        spec_fast_read_params(((dword >> 8u32) & 0xFF) as u8, ((dword >> 5u32) & 0x07) as u8,
            (dword & 0x1F) as u8)
    }

    /// Parse from the high half of a DWORD.
    pub fn from_high_half(dword: u32) -> (r: FastReadParams)
        ensures
            r == FastReadParams::spec_from_high_half(dword),
    {
        let opcode = ((dword >> 24u32) & 0xFF) as u8;
        let mode_clocks = ((dword >> 21u32) & 0x07) as u8;
        let dummy_clocks = ((dword >> 16u32) & 0x1F) as u8;
        if opcode == 0x00 {
            FastReadParams { opcode: 0, mode_clocks: 0, dummy_clocks: 0 }
        } else {
            FastReadParams::new(opcode, mode_clocks, dummy_clocks)
        }
    }

    /// Parse from the low half of a DWORD.
    pub fn from_low_half(dword: u32) -> (r: FastReadParams)
        ensures
            r == FastReadParams::spec_from_low_half(dword),
    {
        let opcode = ((dword >> 8u32) & 0xFF) as u8;
        let mode_clocks = ((dword >> 5u32) & 0x07) as u8;
        let dummy_clocks = (dword & 0x1F) as u8;
        if opcode == 0x00 {
            FastReadParams { opcode: 0, mode_clocks: 0, dummy_clocks: 0 }
        } else {
            FastReadParams::new(opcode, mode_clocks, dummy_clocks)
        }
    }
}

/// SFDP revision information
#[derive(Debug, Clone, Copy, PartialEq, Eq, Default, Structural)]
pub struct SfdpRevision {
    /// Major revision number
    pub major: u8,
    /// Minor revision number
    pub minor: u8,
}

impl SfdpRevision {
    /// Create a new revision
    pub fn new(major: u8, minor: u8) -> (r: SfdpRevision)
        ensures
            r == (SfdpRevision { major, minor }),
    {
        SfdpRevision { major, minor }
    }

    /// Check if this revision is at least the specified version
    pub fn at_least(&self, major: u8, minor: u8) -> (r: bool)
        ensures
            r == (self.major > major || (self.major == major && self.minor >= minor)),
    {
        self.major > major || (self.major == major && self.minor >= minor)
    }
}

/// SFDP header structure (first 8 bytes at address 0x00)
#[derive(Debug, Clone, Copy, Default, PartialEq, Eq, Structural)]
pub struct SfdpHeader {
    /// SFDP signature (should be 0x50444653)
    pub signature: u32,
    /// SFDP revision
    pub revision: SfdpRevision,
    /// Number of parameter headers (0-based, so actual count is nph + 1)
    pub nph: u8,
    /// Access protocol (0xFF for legacy)
    pub access_protocol: u8,
}

impl SfdpHeader {
    /// The header held in 8 little-endian bytes.
    pub open spec fn spec_parse(data: Seq<u8>) -> SfdpHeader {
        SfdpHeader {
            signature: le_u32(data[0], data[1], data[2], data[3]),
            revision: SfdpRevision { minor: data[4], major: data[5] },
            nph: data[6],
            access_protocol: data[7],
        }
    }

    /// Parse SFDP header from raw bytes (8 bytes, little-endian).
    pub fn parse(data: &[u8; 8]) -> (r: SfdpHeader)
        ensures
            r == SfdpHeader::spec_parse(data@),
    {
        SfdpHeader {
            signature: u32_from_le(data[0], data[1], data[2], data[3]),
            revision: SfdpRevision { minor: data[4], major: data[5] },
            nph: data[6],
            access_protocol: data[7],
        }
    }

    /// Check if the signature is valid
    pub fn is_valid(&self) -> (r: bool)
        ensures
            r == (self.signature == SFDP_SIGNATURE),
    {
        self.signature == SFDP_SIGNATURE
    }

    /// Get the number of parameter headers
    pub fn num_param_headers(&self) -> (r: usize)
        ensures
            r == self.nph + 1,
    {
        (self.nph as usize) + 1
    }
}

/// Parameter header structure (8 bytes each, starting at address 0x08)
#[derive(Debug, Clone, Copy, Default, PartialEq, Eq, Structural)]
pub struct ParameterHeader {
    /// Parameter ID (MSB << 8 | LSB)
    pub id: u16,
    /// Parameter table revision
    pub revision: SfdpRevision,
    /// Parameter table length in DWORDs
    pub length_dwords: u8,
    /// Parameter table pointer (24-bit byte address)
    pub table_pointer: u32,
}

impl ParameterHeader {
    /// The parameter header held in 8 little-endian bytes.
    pub open spec fn spec_parse(data: Seq<u8>) -> ParameterHeader {
        ParameterHeader {
            id: ((data[7] as u16) << 8u16) | (data[0] as u16),
            revision: SfdpRevision { minor: data[1], major: data[2] },
            length_dwords: data[3],
            table_pointer: le_u32(data[4], data[5], data[6], 0),
        }
    }

    /// Parse a parameter header from raw bytes (8 bytes, little-endian).
    pub fn parse(data: &[u8; 8]) -> (r: ParameterHeader)
        ensures
            r == ParameterHeader::spec_parse(data@),
    {
        ParameterHeader {
            id: ((data[7] as u16) << 8u16) | (data[0] as u16),
            revision: SfdpRevision { minor: data[1], major: data[2] },
            length_dwords: data[3],
            table_pointer: u32_from_le(data[4], data[5], data[6], 0),
        }
    }

    /// Get the table length in bytes
    pub fn length_bytes(&self) -> (r: usize)
        ensures
            r == self.length_dwords * 4,
    {
        (self.length_dwords as usize) * 4
    }

    /// Check if this is the Basic Flash Parameter Table
    pub fn is_basic(&self) -> (r: bool)
        ensures
            r == (self.id == PARAM_ID_BASIC),
    {
        self.id == PARAM_ID_BASIC
    }

    /// Check if this is a JEDEC-defined table (MSB >= 0x80)
    pub fn is_jedec(&self) -> (r: bool)
        ensures
            r == ((self.id >> 8u16) >= 0x80),
    {
        (self.id >> 8u16) >= 0x80
    }
}

/// Flash addressing mode
#[derive(Debug, Clone, Copy, PartialEq, Eq, Default, Structural)]
pub enum AddressMode {
    /// 3-byte addressing only (up to 16 MiB)
    #[default]
    ThreeByteOnly,
    /// 3-byte default, can switch to 4-byte
    ThreeOrFourByte,
    /// 4-byte addressing only (required for > 16 MiB)
    FourByteOnly,
}

impl AddressMode {
    /// The mode encoded in BFPT DWORD 1 bits [18:17]; the reserved value
    /// counts as 3-byte only.
    pub open spec fn spec_from_bfpt(value: u8) -> AddressMode {
        let v = value & 0x03;
        if v == 1 {
            AddressMode::ThreeOrFourByte
        } else if v == 2 {
            AddressMode::FourByteOnly
        } else {
            AddressMode::ThreeByteOnly
        }
    }

    /// Parse from BFPT DWORD 1 bits [18:17]
    pub fn from_bfpt(value: u8) -> (r: AddressMode)
        ensures
            r == AddressMode::spec_from_bfpt(value),
            (value & 0x03 == 0 || value & 0x03 == 3) <==> r == AddressMode::ThreeByteOnly,
            (value & 0x03 == 1) <==> r == AddressMode::ThreeOrFourByte,
            (value & 0x03 == 2) <==> r == AddressMode::FourByteOnly,
    {
        assert(value & 0x03 < 4) by (bit_vector);
        let v = value & 0x03;
        if v == 1 {
            AddressMode::ThreeOrFourByte
        } else if v == 2 {
            AddressMode::FourByteOnly
        } else {
            AddressMode::ThreeByteOnly
        }
    }

    /// Check if 4-byte addressing is required
    pub fn requires_4byte(&self) -> (r: bool)
        ensures
            r == (*self == AddressMode::FourByteOnly),
    {
        match self {
            AddressMode::FourByteOnly => true,
            _ => false,
        }
    }

    /// Check if 4-byte addressing is supported
    pub fn supports_4byte(&self) -> (r: bool)
        ensures
            r == (*self != AddressMode::ThreeByteOnly),
    {
        match self {
            AddressMode::ThreeByteOnly => false,
            _ => true,
        }
    }
}

/// Erase type from SFDP (up to 4 types supported)
#[derive(Debug, Clone, Copy, PartialEq, Eq, Default, Structural)]
pub struct SfdpEraseType {
    /// Erase opcode
    pub opcode: u8,
    /// Erase size in bytes (0 if not supported)
    pub size: u32,
}

/// The erase type of a size exponent and opcode: absent (all zero) when
/// the exponent is 0 or the opcode 0xFF, else `2^size_exp` bytes.
pub open spec fn spec_erase_type(size_exp: u8, opcode: u8) -> SfdpEraseType {
    if size_exp == 0 || opcode == 0xFF {
        SfdpEraseType { opcode: 0, size: 0 }
    } else {
        SfdpEraseType { opcode, size: (1u32 << size_exp) as u32 }
    }
}

impl SfdpEraseType {
    /// Valid: a non-zero size and an opcode other than 0xFF.
    pub open spec fn spec_is_valid(self) -> bool {
        self.size > 0 && self.opcode != 0xFF
    }

    /// Check if this erase type is valid/supported
    pub fn is_valid(&self) -> (r: bool)
        ensures
            r == self.spec_is_valid(),
    {
        self.size > 0 && self.opcode != 0xFF
    }

    /// Parse from size exponent (N where size = 2^N) and opcode. An
    /// exponent of 32 or more does not fit the 32-bit size.
    pub fn from_raw(size_exp: u8, opcode: u8) -> (r: SfdpEraseType)
        requires
            size_exp == 0 || opcode == 0xFF || size_exp < 32,
        ensures
            r == spec_erase_type(size_exp, opcode),
    {
        if size_exp == 0 || opcode == 0xFF {
            SfdpEraseType { opcode: 0, size: 0 }
        } else {
            SfdpEraseType { opcode, size: 1u32 << size_exp }
        }
    }
}

/// Write enable instruction required before volatile status register write
#[derive(Debug, Clone, Copy, PartialEq, Eq, Default, Structural)]
pub enum WriteEnableForVolatileSr {
    /// Use WREN (0x06) instruction
    #[default]
    Wren,
    /// Use EWSR (0x50) instruction
    Ewsr,
}

/// Quad Enable (QE) bit location and method
///
/// Different manufacturers use different methods to enable quad I/O mode.
#[derive(Debug, Clone, Copy, PartialEq, Eq, Default, Structural)]
#[allow(non_camel_case_types)]
pub enum QuadEnableRequirement {
    /// No QE bit; device does not have a QE bit
    #[default]
    NoQeBit,
    /// QE is bit 1 of SR2; write SR1 and SR2 with 0x01 (2 bytes)
    Sr2Bit1_WriteCmd01,
    /// QE is bit 6 of SR1; write SR1 with 0x01 (1 byte)
    Sr1Bit6_WriteCmd01,
    /// QE is bit 7 of SR2; write SR2 with 0x3E, read with 0x3F
    Sr2Bit7_WriteCmdSpecial,
    /// QE is bit 1 of SR2; write SR2 with 0x31
    Sr2Bit1_WriteCmd31,
    /// QE is bit 1 of SR2; write SR1 and SR2 with 0x01; status read with 0x05/0x35
    Sr2Bit1_WriteCmd01_StatusSplit,
}

impl QuadEnableRequirement {
    /// The requirement encoded in BFPT DWORD 15 bits [22:20]; reserved
    /// values count as no QE bit.
    pub open spec fn spec_from_bfpt(value: u8) -> QuadEnableRequirement {
        let v = value & 0x07;
        if v == 1 {
            QuadEnableRequirement::Sr2Bit1_WriteCmd01
        } else if v == 2 {
            QuadEnableRequirement::Sr1Bit6_WriteCmd01
        } else if v == 3 {
            QuadEnableRequirement::Sr2Bit7_WriteCmdSpecial
        } else if v == 4 {
            QuadEnableRequirement::Sr2Bit1_WriteCmd31
        } else if v == 5 {
            QuadEnableRequirement::Sr2Bit1_WriteCmd01_StatusSplit
        } else {
            QuadEnableRequirement::NoQeBit
        }
    }

    /// Parse from BFPT DWORD 15 bits [22:20]
    pub fn from_bfpt(value: u8) -> (r: QuadEnableRequirement)
        ensures
            r == QuadEnableRequirement::spec_from_bfpt(value),
    {
        let v = value & 0x07;
        if v == 1 {
            QuadEnableRequirement::Sr2Bit1_WriteCmd01
        } else if v == 2 {
            QuadEnableRequirement::Sr1Bit6_WriteCmd01
        } else if v == 3 {
            QuadEnableRequirement::Sr2Bit7_WriteCmdSpecial
        } else if v == 4 {
            QuadEnableRequirement::Sr2Bit1_WriteCmd31
        } else if v == 5 {
            QuadEnableRequirement::Sr2Bit1_WriteCmd01_StatusSplit
        } else {
            QuadEnableRequirement::NoQeBit
        }
    }

    /// Check if quad enable is needed
    pub fn is_needed(&self) -> (r: bool)
        ensures
            r == (*self != QuadEnableRequirement::NoQeBit),
    {
        match self {
            QuadEnableRequirement::NoQeBit => false,
            _ => true,
        }
    }
}

/// Methods to enter 4-byte address mode
#[derive(Debug, Clone, Copy, PartialEq, Eq, Default, Structural)]
pub struct FourByteEntryMethods {
    /// Bit field of supported methods
    pub methods: u8,
}

impl FourByteEntryMethods {
    /// Enter with instruction 0xB7, exit with 0xE9
    pub const INSTR_B7_E9: u8 = 0x01;
    /// Enter with WREN + instruction 0xB7, exit with WREN + 0xE9
    pub const WREN_INSTR_B7_E9: u8 = 0x02;
    /// 8-bit volatile extended address register with 0xC5/0xC8
    pub const EXT_ADDR_REG: u8 = 0x04;
    /// 8-bit volatile bank register
    pub const BANK_REG: u8 = 0x08;
    /// Always operates in 4-byte mode
    pub const ALWAYS_4BYTE: u8 = 0x10;

    /// Parse from BFPT DWORD 16 bits [31:24]
    pub fn from_bfpt(value: u8) -> (r: FourByteEntryMethods)
        ensures
            r.methods == value,
    {
        FourByteEntryMethods { methods: value }
    }

    /// Check if a specific method is supported
    pub fn supports(&self, method: u8) -> (r: bool)
        ensures
            r == (self.methods & method != 0),
    {
        (self.methods & method) != 0
    }

    /// Check if always in 4-byte mode
    pub fn always_4byte(&self) -> (r: bool)
        ensures
            r == (self.methods & FourByteEntryMethods::ALWAYS_4BYTE != 0),
    {
        self.supports(FourByteEntryMethods::ALWAYS_4BYTE)
    }
}

/// Soft reset sequence support
#[derive(Debug, Clone, Copy, PartialEq, Eq, Default, Structural)]
pub struct SoftResetSupport {
    /// Bit field of supported reset methods
    pub methods: u8,
}

impl SoftResetSupport {
    /// 0x66 (Reset Enable) + 0x99 (Reset)
    pub const RESET_66_99: u8 = 0x10;
    /// 0xF0 instruction
    pub const INSTR_F0: u8 = 0x08;
    /// Exit 0-4-4 mode required before reset
    pub const EXIT_044_REQUIRED: u8 = 0x01;

    /// Parse from BFPT DWORD 16 bits [13:8]
    pub fn from_bfpt(value: u8) -> (r: SoftResetSupport)
        ensures
            r.methods == value & 0x3F,
    {
        SoftResetSupport { methods: value & 0x3F }
    }

    /// Check if 66/99 reset sequence is supported
    pub fn supports_66_99(&self) -> (r: bool)
        ensures
            r == (self.methods & SoftResetSupport::RESET_66_99 != 0),
    {
        (self.methods & SoftResetSupport::RESET_66_99) != 0
    }
}

/// Parsed Basic Flash Parameter Table: the key information of the BFPT.
#[derive(Debug, Clone, Copy, Default)]
pub struct BasicFlashParams {
    /// Parameter table revision
    pub revision: SfdpRevision,
    /// Flash density in bytes
    pub density_bytes: u64,
    /// Page size in bytes (for programming)
    pub page_size: u32,
    /// Address mode support
    pub address_mode: AddressMode,
    /// Erase types (up to 4)
    pub erase_types: [SfdpEraseType; 4],
    /// Write enable for volatile status register
    pub volatile_sr_write_enable: WriteEnableForVolatileSr,
    /// Status register is volatile
    pub status_reg_volatile: bool,
    /// Write granularity (true = 64+ bytes, false = 1 byte)
    pub write_granularity_64: bool,
    /// Supports 1-1-2 fast read
    pub fast_read_112: bool,
    /// Supports 1-2-2 fast read
    pub fast_read_122: bool,
    /// Supports 1-1-4 fast read
    pub fast_read_114: bool,
    /// Supports 1-4-4 fast read
    pub fast_read_144: bool,
    /// Supports 2-2-2 fast read
    pub fast_read_222: bool,
    /// Supports 4-4-4 fast read
    pub fast_read_444: bool,
    /// Supports DTR clocking
    pub dtr_clocking: bool,
    /// Quad enable requirements
    pub quad_enable: QuadEnableRequirement,
    /// 4-byte address entry methods
    pub four_byte_entry: FourByteEntryMethods,
    /// Soft reset support
    pub soft_reset: SoftResetSupport,
    /// 4KB erase opcode (0xFF if not supported)
    pub erase_4k_opcode: u8,
    /// 1S-1S-4S fast read parameters (DWORD 3 high)
    pub fast_read_114_params: FastReadParams,
    /// 1S-4S-4S fast read parameters (DWORD 3 low)
    pub fast_read_144_params: FastReadParams,
    /// 1S-2S-2S fast read parameters (DWORD 4 high)
    pub fast_read_122_params: FastReadParams,
    /// 1S-1S-2S fast read parameters (DWORD 4 low)
    pub fast_read_112_params: FastReadParams,
    /// 2S-2S-2S fast read parameters (DWORD 6 high)
    pub fast_read_222_params: FastReadParams,
    /// 4S-4S-4S fast read parameters (DWORD 7 high)
    pub fast_read_444_params: FastReadParams,
}

/// Smallest size among the valid erase types.
pub open spec fn min_valid_erase_size(s: Seq<SfdpEraseType>) -> Option<u32>
    decreases s.len(),
{
    if s.len() == 0 {
        None
    } else {
        let rest = min_valid_erase_size(s.drop_last());
        let e = s.last();
        if !e.spec_is_valid() {
            rest
        } else {
            match rest {
                None => Some(e.size),
                Some(m) => Some(if e.size < m { e.size } else { m }),
            }
        }
    }
}

/// Largest size among the valid erase types.
pub open spec fn max_valid_erase_size(s: Seq<SfdpEraseType>) -> Option<u32>
    decreases s.len(),
{
    if s.len() == 0 {
        None
    } else {
        let rest = max_valid_erase_size(s.drop_last());
        let e = s.last();
        if !e.spec_is_valid() {
            rest
        } else {
            match rest {
                None => Some(e.size),
                Some(m) => Some(if e.size > m { e.size } else { m }),
            }
        }
    }
}

/// `e` inserted into a list sorted by size, after every entry of at most
/// its size.
pub open spec fn insert_by_size(s: Seq<SfdpEraseType>, e: SfdpEraseType) -> Seq<SfdpEraseType>
    decreases s.len(),
{
    if s.len() == 0 {
        seq![e]
    } else if s.last().size <= e.size {
        s.push(e)
    } else {
        insert_by_size(s.drop_last(), e).push(s.last())
    }
}

/// The valid erase types, stably sorted by size.
pub open spec fn sorted_valid_erase_types(s: Seq<SfdpEraseType>) -> Seq<SfdpEraseType>
    decreases s.len(),
{
    if s.len() == 0 {
        Seq::empty()
    } else {
        let r = sorted_valid_erase_types(s.drop_last());
        if s.last().spec_is_valid() {
            insert_by_size(r, s.last())
        } else {
            r
        }
    }
}

/// Sizes never decrease along the sequence.
pub open spec fn sorted_by_size(s: Seq<SfdpEraseType>) -> bool {
    forall|i: int, j: int| 0 <= i < j < s.len() ==> s[i].size <= s[j].size
}

/// Inserting by size keeps a list sorted, adds one entry, and takes every
/// entry from the list or the inserted one.
pub proof fn lemma_insert_by_size_sorted(s: Seq<SfdpEraseType>, e: SfdpEraseType)
    requires
        sorted_by_size(s),
    ensures
        sorted_by_size(insert_by_size(s, e)),
        insert_by_size(s, e).len() == s.len() + 1,
        forall|i: int| 0 <= i < insert_by_size(s, e).len()
            ==> #[trigger] insert_by_size(s, e)[i] == e || s.contains(insert_by_size(s, e)[i]),
    decreases s.len(),
{
    if s.len() > 0 && s.last().size > e.size {
        let t = s.drop_last();
        lemma_insert_by_size_sorted(t, e);
        let it = insert_by_size(t, e);
        let r = it.push(s.last());
        assert forall|i: int| 0 <= i < it.len() implies #[trigger] it[i].size <= s.last().size by {
            if it[i] != e {
                let j = choose|j: int| 0 <= j < t.len() && t[j] == it[i];
                assert(t[j] == s[j]);
            }
        }
        assert forall|i: int| 0 <= i < r.len() implies #[trigger] r[i] == e || s.contains(r[i]) by {
            if i == r.len() - 1 {
                assert(s[s.len() - 1] == r[i]);
            } else {
                assert(r[i] == it[i]);
                if it[i] != e {
                    let j = choose|j: int| 0 <= j < t.len() && t[j] == it[i];
                    assert(t[j] == s[j]);
                }
            }
        }
        assert forall|i: int, j: int| 0 <= i < j < r.len() implies r[i].size <= r[j].size by {
            if j == r.len() - 1 {
                assert(r[i] == it[i]);
            } else {
                assert(r[i] == it[i] && r[j] == it[j]);
            }
        }
    } else if s.len() > 0 {
        let r = s.push(e);
        assert forall|i: int| 0 <= i < r.len() implies #[trigger] r[i] == e || s.contains(r[i]) by {
            if i < s.len() {
                assert(s[i] == r[i]);
            }
        }
    }
}

impl BasicFlashParams {
    /// Get the smallest supported erase size
    pub fn min_erase_size(&self) -> (r: Option<u32>)
        ensures
            r == min_valid_erase_size(self.erase_types@),
    {
        let mut best: Option<u32> = None;
        let mut i: usize = 0;
        while i < 4
            invariant
                i <= 4,
                self.erase_types@.len() == 4,
                best == min_valid_erase_size(self.erase_types@.take(i as int)),
            decreases 4 - i,
        {
            assert(self.erase_types@.take(i + 1).drop_last() =~= self.erase_types@.take(i as int));
            let e = self.erase_types[i];
            if e.is_valid() {
                best = match best {
                    None => Some(e.size),
                    Some(m) => Some(if e.size < m { e.size } else { m }),
                };
            }
            i = i + 1;
        }
        assert(self.erase_types@.take(4) =~= self.erase_types@);
        best
    }

    /// Get the largest supported erase size
    pub fn max_erase_size(&self) -> (r: Option<u32>)
        ensures
            r == max_valid_erase_size(self.erase_types@),
    {
        let mut best: Option<u32> = None;
        let mut i: usize = 0;
        while i < 4
            invariant
                i <= 4,
                self.erase_types@.len() == 4,
                best == max_valid_erase_size(self.erase_types@.take(i as int)),
            decreases 4 - i,
        {
            assert(self.erase_types@.take(i + 1).drop_last() =~= self.erase_types@.take(i as int));
            let e = self.erase_types[i];
            if e.is_valid() {
                best = match best {
                    None => Some(e.size),
                    Some(m) => Some(if e.size > m { e.size } else { m }),
                };
            }
            i = i + 1;
        }
        assert(self.erase_types@.take(4) =~= self.erase_types@);
        best
    }

    /// Get the first valid erase type of a specific size
    pub fn erase_for_size(&self, size: u32) -> (r: Option<&SfdpEraseType>)
        ensures
            r is None <==> forall|i: int| 0 <= i < 4
                ==> !(#[trigger] self.erase_types@[i].spec_is_valid() && self.erase_types@[i].size == size),
            r matches Some(e) ==> exists|i: int| 0 <= i < 4 && *e == #[trigger] self.erase_types@[i]
                && e.spec_is_valid() && e.size == size
                && forall|j: int| 0 <= j < i ==> !(#[trigger] self.erase_types@[j].spec_is_valid()
                    && self.erase_types@[j].size == size),
    {
        let mut i: usize = 0;
        while i < 4
            invariant
                i <= 4,
                forall|j: int| 0 <= j < i ==> !(#[trigger] self.erase_types@[j].spec_is_valid()
                    && self.erase_types@[j].size == size),
            decreases 4 - i,
        {
            if self.erase_types[i].is_valid() && self.erase_types[i].size == size {
                return Some(&self.erase_types[i]);
            }
            i = i + 1;
        }
        None
    }

    /// 4-byte addressing is needed: more than 16 MiB, or the address mode
    /// says 4-byte only.
    pub open spec fn spec_requires_4byte_addr(self) -> bool {
        self.density_bytes > 16 * 1024 * 1024 || self.address_mode == AddressMode::FourByteOnly
    }

    /// Check if 4-byte addressing is required based on density
    pub fn requires_4byte_addr(&self) -> (r: bool)
        ensures
            r == self.spec_requires_4byte_addr(),
    {
        self.density_bytes > 16 * 1024 * 1024 || self.address_mode.requires_4byte()
    }

    /// Get valid erase types sorted by size (smallest first, stable)
    pub fn sorted_erase_types(&self) -> (r: Vec<SfdpEraseType>)
        ensures
            r@ == sorted_valid_erase_types(self.erase_types@),
            sorted_by_size(r@),
    {
        let mut r: Vec<SfdpEraseType> = Vec::new();
        let mut i: usize = 0;
        while i < 4
            invariant
                i <= 4,
                self.erase_types@.len() == 4,
                r@ == sorted_valid_erase_types(self.erase_types@.take(i as int)),
                sorted_by_size(r@),
            decreases 4 - i,
        {
            assert(self.erase_types@.take(i + 1).drop_last() =~= self.erase_types@.take(i as int));
            let e = self.erase_types[i];
            if e.is_valid() {
                proof { lemma_insert_by_size_sorted(r@, e); }
                insert_erase_type_by_size(&mut r, e);
            }
            i = i + 1;
        }
        assert(self.erase_types@.take(4) =~= self.erase_types@);
        r
    }
}

/// Insert `e` after every entry of at most its size.
fn insert_erase_type_by_size(v: &mut Vec<SfdpEraseType>, e: SfdpEraseType)
    ensures
        final(v)@ == insert_by_size(old(v)@, e),
    decreases old(v)@.len(),
{
    let n = v.len();
    if n == 0 {
        v.push(e);
    } else {
        let last = v[n - 1];
        if last.size <= e.size {
            v.push(e);
        } else {
            let ghost before = v@;
            v.pop();
            assert(v@ =~= before.drop_last());
            insert_erase_type_by_size(v, e);
            v.push(last);
        }
    }
}

/// 4-Byte Address Instruction Table support flags (DWORD 1): which
/// commands are supported with native 4-byte addressing.
#[derive(Debug, Clone, Copy, PartialEq, Eq, Default, Structural)]
pub struct FourByteAddrInstructions {
    /// Bit field of supported instructions
    pub flags: u32,
}

impl FourByteAddrInstructions {
    /// Support for 1S-1S-1S READ command (0x13)
    pub const READ_1S_1S_1S: u32 = 1u32 << 0u32;
    /// Support for 1S-1S-1S FAST_READ command (0x0C)
    pub const FAST_READ_1S_1S_1S: u32 = 1u32 << 1u32;
    /// Support for 1S-1S-2S FAST_READ command (0x3C)
    pub const FAST_READ_1S_1S_2S: u32 = 1u32 << 2u32;
    /// Support for 1S-2S-2S FAST_READ command (0xBC)
    pub const FAST_READ_1S_2S_2S: u32 = 1u32 << 3u32;
    /// Support for 1S-1S-4S FAST_READ command (0x6C)
    pub const FAST_READ_1S_1S_4S: u32 = 1u32 << 4u32;
    /// Support for 1S-4S-4S FAST_READ command (0xEC)
    pub const FAST_READ_1S_4S_4S: u32 = 1u32 << 5u32;
    /// Support for 1S-1S-1S PAGE_PROGRAM command (0x12)
    pub const PAGE_PROGRAM_1S_1S_1S: u32 = 1u32 << 6u32;
    /// Support for 1S-1S-4S PAGE_PROGRAM command (0x34)
    pub const PAGE_PROGRAM_1S_1S_4S: u32 = 1u32 << 7u32;
    /// Support for 1S-4S-4S PAGE_PROGRAM command (0x3E)
    pub const PAGE_PROGRAM_1S_4S_4S: u32 = 1u32 << 8u32;
    /// Support for Erase Type 1 with 4-byte address
    pub const ERASE_TYPE_1: u32 = 1u32 << 9u32;
    /// Support for Erase Type 2 with 4-byte address
    pub const ERASE_TYPE_2: u32 = 1u32 << 10u32;
    /// Support for Erase Type 3 with 4-byte address
    pub const ERASE_TYPE_3: u32 = 1u32 << 11u32;
    /// Support for Erase Type 4 with 4-byte address
    pub const ERASE_TYPE_4: u32 = 1u32 << 12u32;
    /// Support for 1S-1D-1D DTR_Read command (0x0E)
    pub const DTR_READ_1S_1D_1D: u32 = 1u32 << 13u32;
    /// Support for 1S-2D-2D DTR_Read command (0xBE)
    pub const DTR_READ_1S_2D_2D: u32 = 1u32 << 14u32;
    /// Support for 1S-4D-4D DTR_Read command (0xEE)
    pub const DTR_READ_1S_4D_4D: u32 = 1u32 << 15u32;
    /// Support for volatile individual sector lock read command (0xE0)
    pub const VOLATILE_SECTOR_LOCK_READ: u32 = 1u32 << 16u32;
    /// Support for volatile individual sector lock write command (0xE1)
    pub const VOLATILE_SECTOR_LOCK_WRITE: u32 = 1u32 << 17u32;
    /// Support for non-volatile individual sector lock read command (0xE2)
    pub const NONVOLATILE_SECTOR_LOCK_READ: u32 = 1u32 << 18u32;
    /// Support for non-volatile individual sector lock write command (0xE3)
    pub const NONVOLATILE_SECTOR_LOCK_WRITE: u32 = 1u32 << 19u32;
    /// Support for 1S-1S-8S FAST_READ command (0x7C)
    pub const FAST_READ_1S_1S_8S: u32 = 1u32 << 20u32;
    /// Support for 1S-8S-8S FAST_READ command (0xCC)
    pub const FAST_READ_1S_8S_8S: u32 = 1u32 << 21u32;
    /// Support for 1S-8D-8D DTR_READ command (0xFD)
    pub const DTR_READ_1S_8D_8D: u32 = 1u32 << 22u32;
    /// Support for 1S-1S-8S PAGE_PROGRAM command (0x84)
    pub const PAGE_PROGRAM_1S_1S_8S: u32 = 1u32 << 23u32;
    /// Support for 1S-8S-8S PAGE_PROGRAM command (0x8E)
    pub const PAGE_PROGRAM_1S_8S_8S: u32 = 1u32 << 24u32;

    /// Whether a flag of `flag` is set.
    pub open spec fn spec_supports(self, flag: u32) -> bool {
        self.flags & flag != 0
    }

    /// Parse from DWORD 1 of 4-byte address instruction table
    pub fn from_dword1(dword: u32) -> (r: FourByteAddrInstructions)
        ensures
            r.flags == dword,
    {
        FourByteAddrInstructions { flags: dword }
    }

    /// Check if a specific instruction is supported
    pub fn supports(&self, flag: u32) -> (r: bool)
        ensures
            r == self.spec_supports(flag),
    {
        (self.flags & flag) != 0
    }

    /// Check if native 4-byte read is supported
    pub fn supports_4ba_read(&self) -> (r: bool)
        ensures
            r == self.spec_supports(FourByteAddrInstructions::READ_1S_1S_1S),
    {
        self.supports(FourByteAddrInstructions::READ_1S_1S_1S)
    }

    /// Check if native 4-byte fast read is supported
    pub fn supports_4ba_fast_read(&self) -> (r: bool)
        ensures
            r == self.spec_supports(FourByteAddrInstructions::FAST_READ_1S_1S_1S),
    {
        self.supports(FourByteAddrInstructions::FAST_READ_1S_1S_1S)
    }

    /// Check if native 4-byte page program is supported
    pub fn supports_4ba_page_program(&self) -> (r: bool)
        ensures
            r == self.spec_supports(FourByteAddrInstructions::PAGE_PROGRAM_1S_1S_1S),
    {
        self.supports(FourByteAddrInstructions::PAGE_PROGRAM_1S_1S_1S)
    }

    /// Check if any 4-byte erase is supported
    pub fn supports_any_4ba_erase(&self) -> (r: bool)
        ensures
            r == (self.spec_supports(FourByteAddrInstructions::ERASE_TYPE_1)
                || self.spec_supports(FourByteAddrInstructions::ERASE_TYPE_2)
                || self.spec_supports(FourByteAddrInstructions::ERASE_TYPE_3)
                || self.spec_supports(FourByteAddrInstructions::ERASE_TYPE_4)),
    {
        self.supports(FourByteAddrInstructions::ERASE_TYPE_1)
            || self.supports(FourByteAddrInstructions::ERASE_TYPE_2)
            || self.supports(FourByteAddrInstructions::ERASE_TYPE_3)
            || self.supports(FourByteAddrInstructions::ERASE_TYPE_4)
    }
}

/// 4-Byte Address Erase Instructions (DWORD 2): the 4-byte address erase
/// opcodes for each erase type.
#[derive(Debug, Clone, Copy, PartialEq, Eq, Default, Structural)]
pub struct FourByteAddrEraseOpcodes {
    /// Erase opcode for type 1 (0x00 if not supported)
    pub erase_type_1: u8,
    /// Erase opcode for type 2 (0x00 if not supported)
    pub erase_type_2: u8,
    /// Erase opcode for type 3 (0x00 if not supported)
    pub erase_type_3: u8,
    /// Erase opcode for type 4 (0x00 if not supported)
    pub erase_type_4: u8,
}

impl FourByteAddrEraseOpcodes {
    /// The opcodes held in DWORD 2, one byte each, type 1 lowest.
    pub open spec fn spec_from_dword2(dword: u32) -> FourByteAddrEraseOpcodes {
        FourByteAddrEraseOpcodes {
            erase_type_1: (dword & 0xFF) as u8,
            erase_type_2: ((dword >> 8u32) & 0xFF) as u8,
            erase_type_3: ((dword >> 16u32) & 0xFF) as u8,
            erase_type_4: ((dword >> 24u32) & 0xFF) as u8,
        }
    }

    /// Parse from DWORD 2 of 4-byte address instruction table
    pub fn from_dword2(dword: u32) -> (r: FourByteAddrEraseOpcodes)
        ensures
            r == FourByteAddrEraseOpcodes::spec_from_dword2(dword),
    {
        FourByteAddrEraseOpcodes {
            erase_type_1: (dword & 0xFF) as u8,
            erase_type_2: ((dword >> 8u32) & 0xFF) as u8,
            erase_type_3: ((dword >> 16u32) & 0xFF) as u8,
            erase_type_4: ((dword >> 24u32) & 0xFF) as u8,
        }
    }

    /// The opcode of erase type `type_index` (0 to 3), whether or not it is 0.
    pub open spec fn spec_raw_opcode(self, type_index: int) -> u8 {
        if type_index == 0 {
            self.erase_type_1
        } else if type_index == 1 {
            self.erase_type_2
        } else if type_index == 2 {
            self.erase_type_3
        } else {
            self.erase_type_4
        }
    }

    /// Get the 4-byte erase opcode for a given erase type index (0-3);
    /// `None` for another index or an opcode of 0x00.
    pub fn opcode_for_type(&self, type_index: usize) -> (r: Option<u8>)
        ensures
            r == (if type_index < 4 && self.spec_raw_opcode(type_index as int) != 0 {
                Some(self.spec_raw_opcode(type_index as int))
            } else {
                None
            }),
    {
        let o = if type_index == 0 {
            self.erase_type_1
        } else if type_index == 1 {
            self.erase_type_2
        } else if type_index == 2 {
            self.erase_type_3
        } else if type_index == 3 {
            self.erase_type_4
        } else {
            return None;
        };
        if o != 0 { Some(o) } else { None }
    }
}

/// Complete 4-Byte Address Instruction Table
#[derive(Debug, Clone, Copy, PartialEq, Eq, Default, Structural)]
pub struct FourByteAddrTable {
    /// Table revision
    pub revision: SfdpRevision,
    /// Supported 4-byte address instructions
    pub instructions: FourByteAddrInstructions,
    /// 4-byte address erase opcodes
    pub erase_opcodes: FourByteAddrEraseOpcodes,
}

impl FourByteAddrTable {
    /// Standard 4-byte address read opcode
    pub const READ_4B_OPCODE: u8 = 0x13;
    /// Standard 4-byte address fast read opcode
    pub const FAST_READ_4B_OPCODE: u8 = 0x0C;
    /// Standard 4-byte address page program opcode
    pub const PAGE_PROGRAM_4B_OPCODE: u8 = 0x12;
    /// Standard 4-byte address dual output fast read opcode
    pub const FAST_READ_DUAL_OUT_4B_OPCODE: u8 = 0x3C;
    /// Standard 4-byte address dual I/O fast read opcode
    pub const FAST_READ_DUAL_IO_4B_OPCODE: u8 = 0xBC;
    /// Standard 4-byte address quad output fast read opcode
    pub const FAST_READ_QUAD_OUT_4B_OPCODE: u8 = 0x6C;
    /// Standard 4-byte address quad I/O fast read opcode
    pub const FAST_READ_QUAD_IO_4B_OPCODE: u8 = 0xEC;

    /// Get the 4-byte read opcode if supported
    pub fn read_opcode(&self) -> (r: Option<u8>)
        ensures
            r == (if self.instructions.spec_supports(FourByteAddrInstructions::READ_1S_1S_1S) {
                Some(FourByteAddrTable::READ_4B_OPCODE)
            } else {
                None
            }),
    {
        if self.instructions.supports_4ba_read() {
            Some(FourByteAddrTable::READ_4B_OPCODE)
        } else {
            None
        }
    }

    /// Get the 4-byte fast read opcode if supported
    pub fn fast_read_opcode(&self) -> (r: Option<u8>)
        ensures
            r == (if self.instructions.spec_supports(FourByteAddrInstructions::FAST_READ_1S_1S_1S) {
                Some(FourByteAddrTable::FAST_READ_4B_OPCODE)
            } else {
                None
            }),
    {
        if self.instructions.supports_4ba_fast_read() {
            Some(FourByteAddrTable::FAST_READ_4B_OPCODE)
        } else {
            None
        }
    }

    /// Get the 4-byte page program opcode if supported
    pub fn page_program_opcode(&self) -> (r: Option<u8>)
        ensures
            r == (if self.instructions.spec_supports(FourByteAddrInstructions::PAGE_PROGRAM_1S_1S_1S) {
                Some(FourByteAddrTable::PAGE_PROGRAM_4B_OPCODE)
            } else {
                None
            }),
    {
        if self.instructions.supports_4ba_page_program() {
            Some(FourByteAddrTable::PAGE_PROGRAM_4B_OPCODE)
        } else {
            None
        }
    }
}

/// Complete SFDP information parsed from a flash chip
#[derive(Debug, Clone, Copy, Default)]
pub struct SfdpInfo {
    /// SFDP header
    pub header: SfdpHeader,
    /// Basic Flash Parameter Table
    pub basic_params: BasicFlashParams,
    /// Number of parameter headers found
    pub num_param_headers: usize,
    /// 4-Byte Address Instruction Table (if present)
    pub four_byte_addr_table: Option<FourByteAddrTable>,
}

impl SfdpInfo {
    /// Get the flash size in bytes
    pub fn total_size(&self) -> (r: u64)
        ensures
            r == self.basic_params.density_bytes,
    {
        self.basic_params.density_bytes
    }

    /// Get the page size in bytes
    pub fn page_size(&self) -> (r: u32)
        ensures
            r == self.basic_params.page_size,
    {
        self.basic_params.page_size
    }

    /// Check if SFDP data appears valid
    pub fn is_valid(&self) -> (r: bool)
        ensures
            r == (self.header.signature == SFDP_SIGNATURE && self.basic_params.density_bytes > 0),
    {
        self.header.is_valid() && self.basic_params.density_bytes > 0
    }
}

} // verus!
