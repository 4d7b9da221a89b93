//! The SPI engine of ATI/AMD Radeon GPUs, as the host drives it: a command
//! register with the opcode and up to three address bytes, data registers
//! with the remaining bytes, and a control register that starts the
//! transfer. R600-family GPUs map these registers directly; Sea Islands and
//! later reach them through the SMC, with a gap in the data registers on
//! Bonaire. This module computes the register writes of a transfer and the
//! bytes of its answer; the register access itself is the caller's.
use vstd::prelude::*;
use crate::error::Error;
use crate::spi::address::AddressWidth;
use crate::spi::command::SpiCommand;

verus! {

/// Polls of the status register before a transfer times out
pub const STATUS_LOOP_COUNT: usize = 1000;
/// Bytes the data registers hold
pub const SPI_TRANSFER_SIZE: usize = 0x100;

/// R600 software control register (MMIO offset)
pub const R600_SW_CONTROL: u32 = 0x1618;
/// R600 software status register
pub const R600_SW_STATUS: u32 = 0x161c;
/// R600 software command register
pub const R600_SW_COMMAND: u32 = 0x1620;
/// R600 first software data register
pub const R600_SW_DATA: u32 = 0x1624;
/// SMC software control register (Sea Islands and later)
pub const SMC_SW_CONTROL: u32 = 0xC060001C;
/// SMC software status register
pub const SMC_SW_STATUS: u32 = 0xC0600020;
/// SMC software command register
pub const SMC_SW_COMMAND: u32 = 0xC0600024;
/// SMC first software data register
pub const SMC_SW_DATA_BASE: u32 = 0xC0600028;

/// Errors of the ATI SPI programmer
#[derive(Debug, Clone, Copy, PartialEq, Eq)]
pub enum AtiSpiError {
    /// The GPU is not supported
    UnsupportedDevice {
        /// PCI vendor ID
        vendor_id: u16,
        /// PCI device ID
        device_id: u16,
        /// Marketing name
        name: &'static str,
    },
    /// SPI controller initialization failed
    SpiInit(&'static str),
    /// The operation is not supported
    NotSupported(&'static str),
    /// An SPI transfer failed
    Io(&'static str),
}

/// How the SPI engine's registers are reached.
#[derive(Debug, Clone, Copy, PartialEq, Eq, Structural)]
pub enum AtiSpiEngine {
    /// R600 through Southern Islands: direct MMIO
    R600,
    /// Sea Islands and later: indirect through the SMC
    Ci {
        /// Bonaire, whose data registers have a gap
        bonaire: bool,
    },
}

/// One write of a value to a register.
#[derive(Debug, Clone, Copy, PartialEq, Eq, Structural)]
pub struct RegisterWrite {
    /// Register address (MMIO offset or SMC address)
    pub register: u32,
    /// Value written
    pub value: u32,
}

/// What `send_command` refuses before touching the hardware: an empty
/// command, more data than the data registers hold, or a longer read.
pub open spec fn spec_check_transfer(write_len: int, read_len: int) -> Result<(), AtiSpiError> {
    if write_len == 0 {
        Err(AtiSpiError::Io("SPI command must have at least 1 byte"))
    } else if write_len - 4 > SPI_TRANSFER_SIZE {
        Err(AtiSpiError::Io("SPI write exceeds the hardware FIFO"))
    } else if read_len > SPI_TRANSFER_SIZE {
        Err(AtiSpiError::Io("SPI read exceeds the hardware FIFO"))
    } else {
        Ok(())
    }
}

/// Check the sizes of a transfer.
pub fn check_transfer(write_len: usize, read_len: usize) -> (r: Result<(), AtiSpiError>)
    ensures
        r == spec_check_transfer(write_len as int, read_len as int),
{
    if write_len == 0 {
        return Err(AtiSpiError::Io("SPI command must have at least 1 byte"));
    }
    if write_len.saturating_sub(4) > SPI_TRANSFER_SIZE {
        return Err(AtiSpiError::Io("SPI write exceeds the hardware FIFO"));
    }
    if read_len > SPI_TRANSFER_SIZE {
        return Err(AtiSpiError::Io("SPI read exceeds the hardware FIFO"));
    }
    Ok(())
}

/// Byte `k` of `w`, or 0 beyond its end.
pub open spec fn byte_or_zero(w: Seq<u8>, k: int) -> int {
    if 0 <= k < w.len() { w[k] as int } else { 0 }
}

/// The command register: the opcode in the low byte, the next three bytes
/// from the top byte down.
pub open spec fn spec_command_word(w: Seq<u8>) -> int {
    w[0] + byte_or_zero(w, 1) * 0x100_0000 + byte_or_zero(w, 2) * 0x1_0000 + byte_or_zero(w, 3) * 0x100
}

/// Build the command register value.
pub fn command_word(w: &[u8]) -> (r: u32)
    requires
        w@.len() >= 1,
    ensures
        r == spec_command_word(w@),
{
    let n = w.len();
    let b1: u32 = if n > 1 { w[1] as u32 } else { 0 };
    let b2: u32 = if n > 2 { w[2] as u32 } else { 0 };
    let b3: u32 = if n > 3 { w[3] as u32 } else { 0 };
    w[0] as u32 + b1 * 0x100_0000 + b2 * 0x1_0000 + b3 * 0x100
}

/// A data register: the four bytes from `i`, most significant first
/// (missing bytes are 0).
pub open spec fn spec_data_word(w: Seq<u8>, i: int) -> int {
    byte_or_zero(w, i) * 0x100_0000 + byte_or_zero(w, i + 1) * 0x1_0000 + byte_or_zero(w, i + 2) * 0x100
        + byte_or_zero(w, i + 3)
}

/// Build the data register value for the bytes from `i`.
pub fn data_word(w: &[u8], i: usize) -> (r: u32)
    ensures
        r == spec_data_word(w@, i as int),
{
    let n = w.len();
    let b0: u32 = if i < n { w[i] as u32 } else { 0 };
    let b1: u32 = if i < n && n - i > 1 { w[i + 1] as u32 } else { 0 };
    let b2: u32 = if i < n && n - i > 2 { w[i + 2] as u32 } else { 0 };
    let b3: u32 = if i < n && n - i > 3 { w[i + 3] as u32 } else { 0 };
    b0 * 0x100_0000 + b1 * 0x1_0000 + b2 * 0x100 + b3
}

/// The control register: the number of data bytes (those read, or those
/// written after the command) in bits 0-15, the command bytes less one in
/// bits 16-17, and the read flag in bit 18.
pub open spec fn spec_control_word(write_len: int, read_len: int) -> int {
    let command_size = if write_len < 4 { write_len } else { 4 };
    let data_bytes = if read_len > 0 { read_len } else if write_len > 4 { write_len - 4 } else { 0 };
    data_bytes + (command_size - 1) * 0x1_0000 + if read_len > 0 { 0x4_0000int } else { 0 }
}

/// Build the control register value.
pub fn control_word(write_len: usize, read_len: usize) -> (r: u32)
    requires
        spec_check_transfer(write_len as int, read_len as int) is Ok,
    ensures
        r == spec_control_word(write_len as int, read_len as int),
{
    let command_size: u32 = if write_len < 4 { write_len as u32 } else { 4 };
    let data_bytes: u32 = if read_len > 0 {
        read_len as u32
    } else if write_len > 4 {
        (write_len - 4) as u32
    } else {
        0
    };
    let read_flag: u32 = if read_len > 0 { 0x4_0000 } else { 0 };
    data_bytes + (command_size - 1) * 0x1_0000 + read_flag
}

impl AtiSpiEngine {
    /// The command register.
    pub open spec fn spec_command_register(self) -> u32 {
        match self {
            AtiSpiEngine::R600 => R600_SW_COMMAND,
            AtiSpiEngine::Ci { .. } => SMC_SW_COMMAND,
        }
    }

    /// The control register.
    pub open spec fn spec_control_register(self) -> u32 {
        match self {
            AtiSpiEngine::R600 => R600_SW_CONTROL,
            AtiSpiEngine::Ci { .. } => SMC_SW_CONTROL,
        }
    }

    /// The status register.
    pub open spec fn spec_status_register(self) -> u32 {
        match self {
            AtiSpiEngine::R600 => R600_SW_STATUS,
            AtiSpiEngine::Ci { .. } => SMC_SW_STATUS,
        }
    }

    /// The register written with the data bytes from byte `i` of the
    /// command (`i` at least 4, a multiple of 4).
    pub open spec fn spec_write_data_register(self, i: int) -> int {
        match self {
            AtiSpiEngine::R600 => R600_SW_DATA + (i - 4),
            AtiSpiEngine::Ci { bonaire } => if bonaire && i >= 0xdc {
                SMC_SW_DATA_BASE + i + 0x0C
            } else {
                SMC_SW_DATA_BASE + i - 4
            },
        }
    }

    /// The register read for the answer bytes from byte `i` (a multiple
    /// of 4).
    pub open spec fn spec_read_data_register(self, i: int) -> int {
        match self {
            AtiSpiEngine::R600 => R600_SW_DATA + i,
            AtiSpiEngine::Ci { bonaire } => if bonaire && i >= 0xd8 {
                SMC_SW_DATA_BASE + i + 0x10
            } else {
                SMC_SW_DATA_BASE + i
            },
        }
    }

    /// The status register, polled until it is non-zero and then cleared.
    pub fn status_register(self) -> (r: u32)
        ensures
            r == self.spec_status_register(),
    {
        match self {
            AtiSpiEngine::R600 => R600_SW_STATUS,
            AtiSpiEngine::Ci { .. } => SMC_SW_STATUS,
        }
    }

    /// The register for the data bytes written from byte `i`.
    pub fn write_data_register(self, i: u32) -> (r: u32)
        requires
            4 <= i <= 0x104,
        ensures
            r == self.spec_write_data_register(i as int),
    {
        match self {
            AtiSpiEngine::R600 => R600_SW_DATA + (i - 4),
            AtiSpiEngine::Ci { bonaire } => {
                if bonaire && i >= 0xdc {
                    SMC_SW_DATA_BASE + i + 0x0C
                } else {
                    SMC_SW_DATA_BASE + i - 4
                }
            },
        }
    }

    /// The register for the answer bytes from byte `i`.
    pub fn read_data_register(self, i: u32) -> (r: u32)
        requires
            i <= 0x100,
        ensures
            r == self.spec_read_data_register(i as int),
    {
        match self {
            AtiSpiEngine::R600 => R600_SW_DATA + i,
            AtiSpiEngine::Ci { bonaire } => {
                if bonaire && i >= 0xd8 {
                    SMC_SW_DATA_BASE + i + 0x10
                } else {
                    SMC_SW_DATA_BASE + i
                }
            },
        }
    }
}

/// The register writes of a transfer: the command register, one data
/// register for each four bytes after the command, then the control
/// register, which starts the transfer.
pub open spec fn spec_transfer_writes(engine: AtiSpiEngine, w: Seq<u8>, read_len: int) -> Seq<RegisterWrite> {
    seq![RegisterWrite { register: engine.spec_command_register(), value: spec_command_word(w) as u32 }]
        + data_writes(engine, w)
        + seq![RegisterWrite { register: engine.spec_control_register(), value: spec_control_word(w.len() as int, read_len) as u32 }]
}

/// Number of data registers the bytes after the command fill.
pub open spec fn data_word_count(w: Seq<u8>) -> int {
    if w.len() > 4 { (w.len() - 4 + 3) / 4 } else { 0 }
}

/// The data register writes: the bytes after the command, four at a time.
pub open spec fn data_writes(engine: AtiSpiEngine, w: Seq<u8>) -> Seq<RegisterWrite> {
    Seq::new(data_word_count(w) as nat, |k: int| RegisterWrite {
        register: engine.spec_write_data_register(4 + 4 * k) as u32,
        value: spec_data_word(w, 4 + 4 * k) as u32,
    })
}

/// The register writes that send the command bytes `w` and ask for
/// `read_len` bytes back.
pub fn transfer_writes(engine: AtiSpiEngine, w: &[u8], read_len: usize) -> (r: Vec<RegisterWrite>)
    requires
        spec_check_transfer(w@.len() as int, read_len as int) is Ok,
    ensures
        r@ == spec_transfer_writes(engine, w@, read_len as int),
{
    let n = w.len();
    let ghost data_words: int = data_word_count(w@);
    let ghost middle = data_writes(engine, w@);
    let command_register = match engine {
        AtiSpiEngine::R600 => R600_SW_COMMAND,
        AtiSpiEngine::Ci { .. } => SMC_SW_COMMAND,
    };
    let mut writes: Vec<RegisterWrite> = Vec::new();
    writes.push(RegisterWrite { register: command_register, value: command_word(w) });
    let mut i: usize = 4;
    while i < n
        invariant
            n == w@.len(),
            n <= 0x104,
            4 <= i,
            i % 4 == 0,
            i < n ==> i <= 0x104,
            i >= n ==> i < n + 4,
            data_words == data_word_count(w@),
            writes@.len() == 1 + (i - 4) / 4,
            writes@[0] == (RegisterWrite { register: engine.spec_command_register(), value: spec_command_word(w@) as u32 }),
            forall|k: int| 0 <= k < (i - 4) / 4 ==> #[trigger] writes@[1 + k] == middle[k],
            middle == data_writes(engine, w@),
        decreases (if i < n { n - i } else { 0 }),
    {
        let register = engine.write_data_register(i as u32);
        let value = data_word(w, i);
        writes.push(RegisterWrite { register, value });
        proof {
            assert(middle[(i - 4) / 4] == RegisterWrite { register, value });
        }
        i += 4;
    }
    let control_register = match engine {
        AtiSpiEngine::R600 => R600_SW_CONTROL,
        AtiSpiEngine::Ci { .. } => SMC_SW_CONTROL,
    };
    writes.push(RegisterWrite { register: control_register, value: control_word(n, read_len) });
    proof {
        assert((i - 4) / 4 == data_words);
        let spec = spec_transfer_writes(engine, w@, read_len as int);
        assert(spec.len() == writes@.len());
        assert forall|k: int| 0 <= k < writes@.len() implies #[trigger] writes@[k] == spec[k] by {
            if 1 <= k < 1 + data_words {
                assert(writes@[1 + (k - 1)] == middle[k - 1]);
            }
        }
        assert(writes@ =~= spec);
    }
    writes
}

/// Number of data registers an answer of `read_len` bytes fills.
pub open spec fn answer_word_count(read_len: int) -> int {
    (read_len + 3) / 4
}

/// The registers read for an answer of `read_len` bytes, in order.
pub open spec fn spec_answer_registers(engine: AtiSpiEngine, read_len: int) -> Seq<u32> {
    Seq::new(answer_word_count(read_len) as nat, |k: int| engine.spec_read_data_register(4 * k) as u32)
}

/// The registers to read for an answer of `read_len` bytes.
pub fn answer_registers(engine: AtiSpiEngine, read_len: usize) -> (r: Vec<u32>)
    requires
        read_len <= SPI_TRANSFER_SIZE,
    ensures
        r@ == spec_answer_registers(engine, read_len as int),
{
    let ghost want = spec_answer_registers(engine, read_len as int);
    let mut regs: Vec<u32> = Vec::new();
    let mut i: usize = 0;
    while i < read_len
        invariant
            read_len <= SPI_TRANSFER_SIZE,
            i % 4 == 0,
            i < read_len + 4,
            regs@.len() == i / 4,
            want == spec_answer_registers(engine, read_len as int),
            forall|k: int| 0 <= k < i / 4 ==> #[trigger] regs@[k] == want[k],
        decreases (if i < read_len { read_len - i } else { 0 }),
    {
        let reg = engine.read_data_register(i as u32);
        regs.push(reg);
        i += 4;
    }
    assert(regs@ =~= want);
    regs
}

/// Byte `k` (0 to 3) of a register value, least significant first.
pub open spec fn value_byte(v: u32, k: int) -> u8 {
    if k == 0 {
        (v % 0x100) as u8
    } else if k == 1 {
        ((v / 0x100) % 0x100) as u8
    } else if k == 2 {
        ((v / 0x1_0000) % 0x100) as u8
    } else {
        ((v / 0x100_0000) % 0x100) as u8
    }
}

/// The answer bytes: byte `j` is byte `j % 4` of the value read from
/// register `j / 4`, least significant first.
pub open spec fn spec_answer(values: Seq<u32>, read_len: int) -> Seq<u8> {
    Seq::new(read_len as nat, |j: int| value_byte(values[j / 4], j % 4))
}

/// Unpack the values read from the data registers into the answer.
pub fn unpack_answer(values: &[u32], read_len: usize) -> (r: Vec<u8>)
    requires
        values@.len() == answer_word_count(read_len as int),
    ensures
        r@ == spec_answer(values@, read_len as int),
{
    let ghost want = spec_answer(values@, read_len as int);
    let mut out: Vec<u8> = Vec::new();
    let mut j: usize = 0;
    while j < read_len
        invariant
            values@.len() == answer_word_count(read_len as int),
            j <= read_len,
            out@.len() == j,
            want == spec_answer(values@, read_len as int),
            forall|q: int| 0 <= q < j ==> #[trigger] out@[q] == want[q],
        decreases read_len - j,
    {
        let v = values[j / 4];
        let k = j % 4;
        let b = if k == 0 {
            (v % 0x100) as u8
        } else if k == 1 {
            ((v / 0x100) % 0x100) as u8
        } else if k == 2 {
            ((v / 0x1_0000) % 0x100) as u8
        } else {
            ((v / 0x100_0000) % 0x100) as u8
        };
        out.push(b);
        j += 1;
    }
    assert(out@ =~= want);
    out
}

/// Byte `k` (0 first) of `a` sent most significant first in `n` bytes.
pub open spec fn address_byte(a: u32, n: int, k: int) -> u8 {
    ((a as int / pow256(n - 1 - k)) % 0x100) as u8
}

/// 256 to the power `e` (0 to 3).
pub open spec fn pow256(e: int) -> int {
    if e <= 0 {
        1
    } else if e == 1 {
        0x100
    } else if e == 2 {
        0x1_0000
    } else {
        0x100_0000
    }
}

/// The address bytes of a command, most significant first.
pub open spec fn address_bytes(width: AddressWidth, addr: u32) -> Seq<u8> {
    match width {
        AddressWidth::NoAddress => seq![],
        AddressWidth::ThreeByte => seq![address_byte(addr, 3, 0), address_byte(addr, 3, 1), address_byte(addr, 3, 2)],
        AddressWidth::FourByte => seq![
            address_byte(addr, 4, 0),
            address_byte(addr, 4, 1),
            address_byte(addr, 4, 2),
            address_byte(addr, 4, 3),
        ],
    }
}

/// The bytes a command sends: opcode, address (0 when the command has
/// none), then its data.
pub open spec fn spec_command_bytes(cmd: SpiCommand) -> Seq<u8> {
    let addr = match cmd.address {
        Some(a) => a,
        None => 0u32,
    };
    seq![cmd.opcode] + address_bytes(cmd.address_width, addr) + cmd.write_data@
}

/// A command fits the engine: its data and its answer fit the data
/// registers, and all its bytes fit the command and data registers.
pub open spec fn command_fits(cmd: SpiCommand) -> bool {
    &&& cmd.write_data@.len() <= SPI_TRANSFER_SIZE
    &&& cmd.read_buf@.len() <= SPI_TRANSFER_SIZE
    &&& spec_command_bytes(cmd).len() <= SPI_TRANSFER_SIZE + 4
}

/// The bytes of an SPI command for the engine; a command that does not
/// fit cannot be sent.
pub fn command_bytes(cmd: &SpiCommand) -> (r: Result<Vec<u8>, Error>)
    ensures
        match r {
            Ok(bytes) => bytes@ == spec_command_bytes(*cmd) && command_fits(*cmd),
            Err(e) => e == Error::SpiTransferFailed && !command_fits(*cmd),
        },
{
    if cmd.write_data.len() > SPI_TRANSFER_SIZE || cmd.read_buf.len() > SPI_TRANSFER_SIZE {
        return Err(Error::SpiTransferFailed);
    }
    let addr: u32 = match cmd.address {
        Some(a) => a,
        None => 0,
    };
    let mut bytes: Vec<u8> = Vec::new();
    bytes.push(cmd.opcode);
    match cmd.address_width {
        AddressWidth::NoAddress => {},
        AddressWidth::ThreeByte => {
            bytes.push(((addr / 0x1_0000) % 0x100) as u8);
            bytes.push(((addr / 0x100) % 0x100) as u8);
            bytes.push((addr % 0x100) as u8);
        },
        AddressWidth::FourByte => {
            bytes.push(((addr / 0x100_0000) % 0x100) as u8);
            bytes.push(((addr / 0x1_0000) % 0x100) as u8);
            bytes.push(((addr / 0x100) % 0x100) as u8);
            bytes.push((addr % 0x100) as u8);
        },
    }
    let ghost head = bytes@;
    assert(head =~= seq![cmd.opcode] + address_bytes(cmd.address_width, addr));
    let n = cmd.write_data.len();
    if n > SPI_TRANSFER_SIZE + 4 - bytes.len() {
        return Err(Error::SpiTransferFailed);
    }
    let mut i: usize = 0;
    while i < n
        invariant
            n == cmd.write_data@.len(),
            i <= n,
            bytes@ == head + cmd.write_data@.subrange(0, i as int),
        decreases n - i,
    {
        bytes.push(cmd.write_data[i]);
        assert(cmd.write_data@.subrange(0, i + 1) =~= cmd.write_data@.subrange(0, i as int).push(cmd.write_data@[i as int]));
        i += 1;
    }
    assert(cmd.write_data@.subrange(0, n as int) =~= cmd.write_data@);
    Ok(bytes)
}

} // verus!
