//! The message types of the postcard-spi programmer protocol, shared
//! between the host and the programmer's firmware.
//!
//! The protocol supports multi-I/O SPI modes (1-1-1, 1-1-2, 1-2-2, 1-1-4,
//! 1-4-4, 4-4-4) and multiple chip select lines.
use vstd::prelude::*;
use vstd::string::StringSliceAdditionalSpecFns;

verus! {

/// Current protocol version
pub const PROTOCOL_VERSION: u16 = 1;
/// Default USB VID (shared testing VID from pid.codes)
pub const USB_VID: u16 = 0x16c0;
/// Default USB PID (shared testing PID)
pub const USB_PID: u16 = 0x27DD;
/// Maximum data size for inline transfers (1KB)
pub const MAX_INLINE_DATA: usize = 1024;

/// SPI I/O mode for transactions: the lines used for the command, address
/// and data phases (X-Y-Z).
#[derive(Debug, Clone, Copy, PartialEq, Eq, Default, Structural)]
pub enum IoMode {
    /// Standard SPI: 1-1-1
    #[default]
    Single,
    /// Dual Output: 1-1-2
    DualOut,
    /// Dual I/O: 1-2-2
    DualIo,
    /// Quad Output: 1-1-4
    QuadOut,
    /// Quad I/O: 1-4-4
    QuadIo,
    /// QPI mode: 4-4-4
    Qpi,
}

/// The wire number of a mode.
pub open spec fn io_mode_code(m: IoMode) -> u8 {
    match m {
        IoMode::Single => 0,
        IoMode::DualOut => 1,
        IoMode::DualIo => 2,
        IoMode::QuadOut => 3,
        IoMode::QuadIo => 4,
        IoMode::Qpi => 5,
    }
}

impl IoMode {
    /// Returns the number of data lines used for the command phase
    pub fn cmd_lines(&self) -> (r: u8)
        ensures
            r == (if *self == IoMode::Qpi { 4u8 } else { 1u8 }),
    {
        match self {
            IoMode::Single | IoMode::DualOut | IoMode::DualIo | IoMode::QuadOut | IoMode::QuadIo => 1,
            IoMode::Qpi => 4,
        }
    }

    /// Returns the number of data lines used for the address phase
    pub fn addr_lines(&self) -> (r: u8)
        ensures
            r == match *self {
                IoMode::Single | IoMode::DualOut | IoMode::QuadOut => 1u8,
                IoMode::DualIo => 2u8,
                IoMode::QuadIo | IoMode::Qpi => 4u8,
            },
    {
        match self {
            IoMode::Single | IoMode::DualOut | IoMode::QuadOut => 1,
            IoMode::DualIo => 2,
            IoMode::QuadIo | IoMode::Qpi => 4,
        }
    }

    /// Returns the number of data lines used for the data phase
    pub fn data_lines(&self) -> (r: u8)
        ensures
            r == match *self {
                IoMode::Single => 1u8,
                IoMode::DualOut | IoMode::DualIo => 2u8,
                IoMode::QuadOut | IoMode::QuadIo | IoMode::Qpi => 4u8,
            },
    {
        match self {
            IoMode::Single => 1,
            IoMode::DualOut | IoMode::DualIo => 2,
            IoMode::QuadOut | IoMode::QuadIo | IoMode::Qpi => 4,
        }
    }
}

/// The mode a wire number stands for; unknown numbers are single I/O.
pub open spec fn io_mode_from_code(v: u8) -> IoMode {
    if v == 1 {
        IoMode::DualOut
    } else if v == 2 {
        IoMode::DualIo
    } else if v == 3 {
        IoMode::QuadOut
    } else if v == 4 {
        IoMode::QuadIo
    } else if v == 5 {
        IoMode::Qpi
    } else {
        IoMode::Single
    }
}

impl From<u8> for IoMode {
    fn from(v: u8) -> (r: IoMode) {
        match v {
            1 => IoMode::DualOut,
            2 => IoMode::DualIo,
            3 => IoMode::QuadOut,
            4 => IoMode::QuadIo,
            5 => IoMode::Qpi,
            _ => IoMode::Single,
        }
    }
}

impl vstd::std_specs::convert::FromSpecImpl<u8> for IoMode {
    open spec fn obeys_from_spec() -> bool {
        true
    }

    open spec fn from_spec(v: u8) -> IoMode {
        io_mode_from_code(v)
    }
}

/// A mode is read back from its own wire number.
pub proof fn lemma_io_mode_code_roundtrip(m: IoMode)
    ensures
        io_mode_from_code(io_mode_code(m)) == m,
{
}

/// Address width for SPI commands
#[derive(Debug, Clone, Copy, PartialEq, Eq, Default, Structural)]
pub enum AddressWidth {
    /// No address phase
    #[default]
    NoAddress,
    /// 3-byte (24-bit) address
    ThreeByte,
    /// 4-byte (32-bit) address
    FourByte,
}

/// The number of address bytes of a width.
pub open spec fn address_bytes(w: AddressWidth) -> u8 {
    match w {
        AddressWidth::NoAddress => 0,
        AddressWidth::ThreeByte => 3,
        AddressWidth::FourByte => 4,
    }
}

/// The width a wire number stands for; unknown numbers mean no address.
pub open spec fn address_width_from_code(v: u8) -> AddressWidth {
    if v == 3 {
        AddressWidth::ThreeByte
    } else if v == 4 {
        AddressWidth::FourByte
    } else {
        AddressWidth::NoAddress
    }
}

impl AddressWidth {
    /// Returns the number of address bytes
    pub fn bytes(&self) -> (r: u8)
        ensures
            r == address_bytes(*self),
    {
        match self {
            AddressWidth::NoAddress => 0,
            AddressWidth::ThreeByte => 3,
            AddressWidth::FourByte => 4,
        }
    }
}

impl From<u8> for AddressWidth {
    fn from(v: u8) -> (r: AddressWidth) {
        match v {
            3 => AddressWidth::ThreeByte,
            4 => AddressWidth::FourByte,
            _ => AddressWidth::NoAddress,
        }
    }
}

impl vstd::std_specs::convert::FromSpecImpl<u8> for AddressWidth {
    open spec fn obeys_from_spec() -> bool {
        true
    }

    open spec fn from_spec(v: u8) -> AddressWidth {
        address_width_from_code(v)
    }
}

/// A width is read back from its number of address bytes.
pub proof fn lemma_address_width_roundtrip(w: AddressWidth)
    ensures
        address_width_from_code(address_bytes(w)) == w,
{
}

/// I/O mode capability flags (bitmap for DeviceInfo)
#[derive(Debug, Clone, Copy, PartialEq, Eq, Default, Structural)]
pub struct IoModeFlags(pub u8);

/// The flag of a mode in an `IoModeFlags` bitmap.
pub open spec fn io_mode_flag(m: IoMode) -> u8 {
    match m {
        IoMode::Single => IoModeFlags::SINGLE,
        IoMode::DualOut => IoModeFlags::DUAL_OUT,
        IoMode::DualIo => IoModeFlags::DUAL_IO,
        IoMode::QuadOut => IoModeFlags::QUAD_OUT,
        IoMode::QuadIo => IoModeFlags::QUAD_IO,
        IoMode::Qpi => IoModeFlags::QPI,
    }
}

impl IoModeFlags {
    /// Single I/O
    pub const SINGLE: u8 = 0x01;
    /// Dual output
    pub const DUAL_OUT: u8 = 0x02;
    /// Dual I/O
    pub const DUAL_IO: u8 = 0x04;
    /// Quad output
    pub const QUAD_OUT: u8 = 0x08;
    /// Quad I/O
    pub const QUAD_IO: u8 = 0x10;
    /// QPI
    pub const QPI: u8 = 0x20;
    /// All single-line and dual modes
    pub const DUAL: u8 = 0x07;
    /// All modes including quad
    pub const QUAD: u8 = 0x1F;
    /// All modes including QPI
    pub const ALL: u8 = 0x3F;

    /// Flags with the given bits.
    pub fn new(flags: u8) -> (r: IoModeFlags)
        ensures
            r.0 == flags,
    {
        IoModeFlags(flags)
    }

    /// Whether the bitmap has the flag of `mode`.
    pub fn supports(&self, mode: IoMode) -> (r: bool)
        ensures
            r == (self.0 & io_mode_flag(mode) != 0),
    {
        let flag = match mode {
            IoMode::Single => IoModeFlags::SINGLE,
            IoMode::DualOut => IoModeFlags::DUAL_OUT,
            IoMode::DualIo => IoModeFlags::DUAL_IO,
            IoMode::QuadOut => IoModeFlags::QUAD_OUT,
            IoMode::QuadIo => IoModeFlags::QUAD_IO,
            IoMode::Qpi => IoModeFlags::QPI,
        };
        (self.0 & flag) != 0
    }

    /// Whether the bitmap has any bit of `flag`.
    pub fn contains(&self, flag: u8) -> (r: bool)
        ensures
            r == (self.0 & flag != 0),
    {
        (self.0 & flag) != 0
    }
}

/// Device information and capabilities (response to GetInfo)
#[derive(Debug, Clone, Copy)]
pub struct DeviceInfo {
    /// Device name (null-terminated ASCII)
    pub name: [u8; 16],
    /// Protocol version
    pub version: u16,
    /// Maximum bytes per single transfer
    pub max_transfer_size: u32,
    /// Number of chip select lines available
    pub num_cs: u8,
    /// Currently selected chip select
    pub current_cs: u8,
    /// Supported I/O modes (bitmap)
    pub supported_modes: IoModeFlags,
    /// Current SPI clock frequency in Hz
    pub current_speed_hz: u32,
}

/// The bytes of `name` before its first NUL (all 16 when it has none).
pub open spec fn name_bytes(name: Seq<u8>) -> Seq<u8> {
    name.take(nul_index(name))
}

/// Index of the first NUL byte of `s`, or its length.
pub open spec fn nul_index(s: Seq<u8>) -> int
    decreases s.len(),
{
    if s.len() == 0 {
        0
    } else if s[0] == 0 {
        0
    } else {
        1 + nul_index(s.drop_first())
    }
}

/// `core::str::from_utf8`: the bytes as text when they are valid UTF-8.
#[verifier::external_body]
fn str_from_utf8(bytes: &[u8]) -> (r: Option<&str>)
    ensures
        match r {
            Some(s) => vstd::utf8::valid_utf8(bytes@) && s.spec_bytes() == bytes@,
            None => !vstd::utf8::valid_utf8(bytes@),
        },
{
    core::str::from_utf8(bytes).ok()
}

impl DeviceInfo {
    /// Get the device name as a string slice: the bytes before the first
    /// NUL, or `(invalid)` when they are not UTF-8.
    pub fn name_str(&self) -> (r: &str)
        ensures
            vstd::utf8::valid_utf8(name_bytes(self.name@)) ==> r.spec_bytes() == name_bytes(self.name@),
            !vstd::utf8::valid_utf8(name_bytes(self.name@)) ==> r@ == "(invalid)"@,
    {
        let mut len: usize = 0;
        while len < 16 && self.name[len] != 0
            invariant
                len <= 16,
                self.name@.len() == 16,
                forall|k: int| 0 <= k < len ==> self.name@[k] != 0,
            decreases 16 - len,
        {
            len += 1;
        }
        proof {
            lemma_nul_index(self.name@, len as int);
        }
        let bytes = vstd::slice::slice_subrange(self.name.as_slice(), 0, len);
        match str_from_utf8(bytes) {
            Some(s) => s,
            None => "(invalid)",
        }
    }
}

proof fn lemma_nul_index(s: Seq<u8>, p: int)
    requires
        0 <= p <= s.len(),
        forall|k: int| 0 <= k < p ==> s[k] != 0,
        p == s.len() || s[p] == 0,
    ensures
        nul_index(s) == p,
    decreases s.len(),
{
    if s.len() > 0 && p > 0 {
        lemma_nul_index(s.drop_first(), p - 1);
    }
}

/// Request to set SPI clock speed
#[derive(Debug, Clone, Copy)]
pub struct SetSpeedReq {
    /// Desired speed in Hz
    pub hz: u32,
}

/// Response to SetSpeed request
#[derive(Debug, Clone, Copy)]
pub struct SetSpeedResp {
    /// Actual speed that was set (may differ from requested)
    pub actual_hz: u32,
}

/// Request to select a chip select line
#[derive(Debug, Clone, Copy)]
pub struct SetCsReq {
    /// Chip select index (0-based)
    pub cs: u8,
}

/// Request to delay for a specified time
#[derive(Debug, Clone, Copy)]
pub struct DelayReq {
    /// Delay in microseconds
    pub us: u32,
}

/// SPI transfer request: a complete SPI transaction with optional address,
/// dummy cycles, write data and read data.
#[derive(Debug, Clone, Copy)]
pub struct SpiTransferReq {
    /// SPI opcode byte
    pub opcode: u8,
    /// Optional address (None if no address phase)
    pub address: Option<u32>,
    /// Address width
    pub address_width: AddressWidth,
    /// I/O mode for the transaction
    pub io_mode: IoMode,
    /// Number of dummy clock cycles after address
    pub dummy_cycles: u8,
    /// Number of bytes to write
    pub write_len: u16,
    /// Number of bytes to read
    pub read_len: u16,
}

/// SPI transfer response
#[derive(Debug, Clone, Copy)]
pub struct SpiTransferResp {
    /// Whether the transfer completed successfully
    pub success: bool,
    /// Number of bytes actually read
    pub bytes_read: u16,
}

/// Wire error type for failed RPC calls
#[derive(Debug, Clone, Copy, PartialEq, Eq, Structural)]
pub enum SpiWireError {
    /// Invalid chip select index
    InvalidCs,
    /// Requested I/O mode not supported
    UnsupportedIoMode,
    /// Transfer size exceeds maximum
    TransferTooLarge,
    /// Hardware error during transfer
    HardwareError,
    /// Device is busy
    Busy,
    /// Invalid request parameters
    InvalidRequest,
    /// Deserialization error
    DeserializeError,
}

} // verus!
