//! Programmer trait definitions.
use vstd::prelude::*;
use crate::error::Error;
use crate::spi::command::SpiCommand;
use super::features::SpiFeatures;

verus! {

/// One SPI transaction: the command handed to the programmer, the bytes
/// read back for it (as many as the command's read buffer holds) and what
/// the programmer answered.
pub ghost struct Transaction {
    /// The command as it was handed over.
    pub command: SpiCommand,
    /// The bytes read back.
    pub reply: Seq<u8>,
    /// What the programmer answered.
    pub result: Result<(), Error>,
}

/// A programmer that can execute SPI commands.
///
/// Implementations report their multi-I/O capabilities through
/// `features()` and honour the `io_mode` of each command in `execute()`.
pub trait SpiMaster {
    /// The transactions carried out so far, oldest first: each command as it
    /// was handed to `execute()`, with the bytes read back for it.
    /// `execute()` promises to add one transaction per call, so a programmer
    /// that meets its contract keeps this record. The default, an empty
    /// record, only lets programmers written outside Verus compile: such a
    /// programmer does not meet that contract, and what is proved here about
    /// the transactions does not hold of it.
    open spec fn transactions(&self) -> Seq<Transaction> {
        Seq::empty()
    }

    /// The features the programmer reports. The default, no features, only
    /// lets programmers written outside Verus compile: one that reports
    /// others does not meet the contract of `features()`.
    open spec fn spec_features(&self) -> SpiFeatures {
        SpiFeatures { bits: 0 }
    }

    /// Get the features supported by this programmer
    fn features(&self) -> (r: SpiFeatures)
        ensures
            r == self.spec_features(),
    ;

    /// The most bytes the programmer reads in one transaction. The default,
    /// none, only lets programmers written outside Verus compile: one that
    /// reads more does not meet the contract of `max_read_len()`.
    open spec fn spec_max_read_len(&self) -> usize {
        0
    }

    /// Get the maximum number of bytes that can be read in a single transaction
    fn max_read_len(&self) -> (r: usize)
        ensures
            r == self.spec_max_read_len(),
    ;

    /// The most bytes the programmer writes in one transaction. The default,
    /// none, only lets programmers written outside Verus compile: one that
    /// writes more does not meet the contract of `max_write_len()`.
    open spec fn spec_max_write_len(&self) -> usize {
        0
    }

    /// Get the maximum number of bytes that can be written in a single transaction
    fn max_write_len(&self) -> (r: usize)
        ensures
            r == self.spec_max_write_len(),
    ;

    /// Execute a single SPI command, filling `cmd.read_buf` with the bytes
    /// read. The read buffer keeps its length.
    fn execute(&mut self, cmd: &mut SpiCommand) -> (r: Result<(), Error>)
        ensures
            final(cmd).read_buf@.len() == old(cmd).read_buf@.len(),
            final(self).transactions() == old(self).transactions().push(
                Transaction { command: *old(cmd), reply: final(cmd).read_buf@, result: r },
            ),
            final(self).spec_max_read_len() == old(self).spec_max_read_len(),
    ;

    /// Whether the programmer accepts `opcode`. The default, every opcode,
    /// only lets programmers written outside Verus compile: one that refuses
    /// some does not meet the contract of `probe_opcode()`.
    open spec fn spec_probe_opcode(&self, opcode: u8) -> bool {
        true
    }

    /// Check if an opcode is supported by this programmer
    fn probe_opcode(&self, opcode: u8) -> (r: bool)
        ensures
            r == self.spec_probe_opcode(opcode),
    ;

    /// Delay for the specified number of microseconds
    fn delay_us(&mut self, us: u32)
        ensures
            final(self).transactions() == old(self).transactions(),
    ;
}

/// A programmer with address-based access only (the hardware runs the SPI
/// protocol itself).
pub trait OpaqueMaster {
    /// Get the total flash size in bytes
    fn size(&self) -> usize;

    /// Read flash contents into the provided buffer
    fn read(&mut self, addr: u32, buf: &mut [u8]) -> (r: Result<(), Error>)
        ensures
            final(buf)@.len() == old(buf)@.len(),
    ;

    /// Write data to flash (assumes the region is already erased)
    fn write(&mut self, addr: u32, data: &[u8]) -> Result<(), Error>;

    /// Erase a region of flash
    fn erase(&mut self, addr: u32, len: u32) -> Result<(), Error>;
}

/// Information about a programmer
#[derive(Debug, Clone)]
pub struct ProgrammerInfo {
    /// Name of the programmer
    pub name: &'static str,
    /// Description
    pub description: &'static str,
    /// Whether this programmer requires elevated privileges
    pub requires_root: bool,
}

} // verus!
