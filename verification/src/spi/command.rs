//! SPI command structure.
use vstd::prelude::*;
use super::address::AddressWidth;
use super::io_mode::IoMode;

verus! {

/// A single SPI transaction.
///
/// The command owns its data: `write_data` is sent after the opcode, address
/// and dummy cycles, and `read_buf` is filled by the programmer. The length
/// of `read_buf` is the number of bytes to read.
pub struct SpiCommand {
    /// The opcode byte
    pub opcode: u8,
    /// Address (if any)
    pub address: Option<u32>,
    /// Address width
    pub address_width: AddressWidth,
    /// I/O mode
    pub io_mode: IoMode,
    /// Number of dummy cycles after address
    pub dummy_cycles: u8,
    /// Data to write after opcode/address/dummy
    pub write_data: Vec<u8>,
    /// Buffer to read into
    pub read_buf: Vec<u8>,
}

impl SpiCommand {
    /// Whether the command has the given shape: opcode, address, width and
    /// buffers, sent in single I/O mode without dummy cycles.
    pub open spec fn is_plain(
        self,
        opcode: u8,
        address: Option<u32>,
        width: AddressWidth,
        write: Seq<u8>,
        read: Seq<u8>,
    ) -> bool {
        &&& self.opcode == opcode
        &&& self.address == address
        &&& self.address_width == width
        &&& self.io_mode == IoMode::Single
        &&& self.dummy_cycles == 0
        &&& self.write_data@ == write
        &&& self.read_buf@ == read
    }

    /// Create a simple command with no address or data (e.g., WREN, WRDI)
    pub fn simple(opcode: u8) -> (r: SpiCommand)
        ensures
            r.is_plain(opcode, None, AddressWidth::NoAddress, seq![], seq![]),
    {
        SpiCommand {
            opcode,
            address: None,
            address_width: AddressWidth::NoAddress,
            io_mode: IoMode::Single,
            dummy_cycles: 0,
            write_data: Vec::new(),
            read_buf: Vec::new(),
        }
    }

    /// Create a read register command with no address (e.g., RDSR); `buf`
    /// gives the number of bytes to read.
    pub fn read_reg(opcode: u8, buf: Vec<u8>) -> (r: SpiCommand)
        ensures
            r.is_plain(opcode, None, AddressWidth::NoAddress, seq![], buf@),
    {
        SpiCommand {
            opcode,
            address: None,
            address_width: AddressWidth::NoAddress,
            io_mode: IoMode::Single,
            dummy_cycles: 0,
            write_data: Vec::new(),
            read_buf: buf,
        }
    }

    /// Create a write register command with no address (e.g., WRSR)
    pub fn write_reg(opcode: u8, data: &[u8]) -> (r: SpiCommand)
        ensures
            r.is_plain(opcode, None, AddressWidth::NoAddress, data@, seq![]),
    {
        SpiCommand {
            opcode,
            address: None,
            address_width: AddressWidth::NoAddress,
            io_mode: IoMode::Single,
            dummy_cycles: 0,
            write_data: vstd::slice::slice_to_vec(data),
            read_buf: Vec::new(),
        }
    }

    /// Create a read command with 3-byte address (e.g., READ)
    pub fn read_3b(opcode: u8, addr: u32, buf: Vec<u8>) -> (r: SpiCommand)
        ensures
            r.is_plain(opcode, Some(addr), AddressWidth::ThreeByte, seq![], buf@),
    {
        SpiCommand {
            opcode,
            address: Some(addr),
            address_width: AddressWidth::ThreeByte,
            io_mode: IoMode::Single,
            dummy_cycles: 0,
            write_data: Vec::new(),
            read_buf: buf,
        }
    }

    /// Create a read command with 4-byte address
    pub fn read_4b(opcode: u8, addr: u32, buf: Vec<u8>) -> (r: SpiCommand)
        ensures
            r.is_plain(opcode, Some(addr), AddressWidth::FourByte, seq![], buf@),
    {
        SpiCommand {
            opcode,
            address: Some(addr),
            address_width: AddressWidth::FourByte,
            io_mode: IoMode::Single,
            dummy_cycles: 0,
            write_data: Vec::new(),
            read_buf: buf,
        }
    }

    /// Create a write command with 3-byte address (e.g., PP)
    pub fn write_3b(opcode: u8, addr: u32, data: &[u8]) -> (r: SpiCommand)
        ensures
            r.is_plain(opcode, Some(addr), AddressWidth::ThreeByte, data@, seq![]),
    {
        SpiCommand {
            opcode,
            address: Some(addr),
            address_width: AddressWidth::ThreeByte,
            io_mode: IoMode::Single,
            dummy_cycles: 0,
            write_data: vstd::slice::slice_to_vec(data),
            read_buf: Vec::new(),
        }
    }

    /// Create a write command with 4-byte address
    pub fn write_4b(opcode: u8, addr: u32, data: &[u8]) -> (r: SpiCommand)
        ensures
            r.is_plain(opcode, Some(addr), AddressWidth::FourByte, data@, seq![]),
    {
        SpiCommand {
            opcode,
            address: Some(addr),
            address_width: AddressWidth::FourByte,
            io_mode: IoMode::Single,
            dummy_cycles: 0,
            write_data: vstd::slice::slice_to_vec(data),
            read_buf: Vec::new(),
        }
    }

    /// Create an erase command with 3-byte address
    pub fn erase_3b(opcode: u8, addr: u32) -> (r: SpiCommand)
        ensures
            r.is_plain(opcode, Some(addr), AddressWidth::ThreeByte, seq![], seq![]),
    {
        SpiCommand {
            opcode,
            address: Some(addr),
            address_width: AddressWidth::ThreeByte,
            io_mode: IoMode::Single,
            dummy_cycles: 0,
            write_data: Vec::new(),
            read_buf: Vec::new(),
        }
    }

    /// Create an erase command with 4-byte address
    pub fn erase_4b(opcode: u8, addr: u32) -> (r: SpiCommand)
        ensures
            r.is_plain(opcode, Some(addr), AddressWidth::FourByte, seq![], seq![]),
    {
        SpiCommand {
            opcode,
            address: Some(addr),
            address_width: AddressWidth::FourByte,
            io_mode: IoMode::Single,
            dummy_cycles: 0,
            write_data: Vec::new(),
            read_buf: Vec::new(),
        }
    }

    /// Set the I/O mode for this command
    pub fn with_io_mode(self, mode: IoMode) -> (r: SpiCommand)
        ensures
            r.io_mode == mode,
            r.opcode == self.opcode,
            r.address == self.address,
            r.address_width == self.address_width,
            r.dummy_cycles == self.dummy_cycles,
            r.write_data@ == self.write_data@,
            r.read_buf@ == self.read_buf@,
    {
        let mut s = self;
        s.io_mode = mode;
        s
    }

    /// Set the number of dummy cycles
    pub fn with_dummy_cycles(self, cycles: u8) -> (r: SpiCommand)
        ensures
            r.dummy_cycles == cycles,
            r.opcode == self.opcode,
            r.address == self.address,
            r.address_width == self.address_width,
            r.io_mode == self.io_mode,
            r.write_data@ == self.write_data@,
            r.read_buf@ == self.read_buf@,
    {
        let mut s = self;
        s.dummy_cycles = cycles;
        s
    }

    /// Returns true if this command has a read phase
    pub fn has_read(&self) -> (r: bool)
        ensures
            r == (self.read_buf@.len() > 0),
    {
        self.read_buf.len() > 0
    }

    /// Returns true if this command has a write phase
    pub fn has_write(&self) -> (r: bool)
        ensures
            r == (self.write_data@.len() > 0),
    {
        self.write_data.len() > 0
    }

    /// Returns true if this command has an address phase
    pub fn has_address(&self) -> (r: bool)
        ensures
            r == self.address is Some,
    {
        self.address.is_some()
    }

    /// Number of bytes on the wire: opcode, address, whole dummy bytes,
    /// write data and read data.
    pub open spec fn spec_total_bytes(self) -> int {
        1 + self.address_width.spec_bytes() + self.dummy_cycles / 8 + self.write_data@.len()
            + self.read_buf@.len()
    }

    /// Calculate the total number of bytes to transfer (for timing/buffer allocation)
    pub fn total_bytes(&self) -> (r: usize)
        requires
            self.spec_total_bytes() <= usize::MAX,
        ensures
            r == self.spec_total_bytes(),
    {
        let mut total: usize = 1;
        total = total + self.address_width.bytes() as usize;
        total = total + (self.dummy_cycles as usize) / 8;
        total = total + self.write_data.len();
        total = total + self.read_buf.len();
        total
    }
}

} // verus!
