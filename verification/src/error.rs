//! Error type shared by the flash core.
use vstd::prelude::*;

verus! {

/// Core error type.
#[derive(Debug, Clone, Copy, PartialEq, Eq, Structural)]
pub enum Error {
    /// SPI transfer failed
    SpiTransferFailed,
    /// SPI operation timed out
    SpiTimeout,
    /// Opcode is not supported by the programmer
    OpcodeNotSupported,
    /// Flash chip not found (JEDEC ID read failed or unknown)
    ChipNotFound,
    /// Flash chip detected but not supported
    ChipNotSupported,
    /// JEDEC ID does not match expected value
    JedecIdMismatch,
    /// Erase operation failed
    EraseError,
    /// Write/program operation failed
    WriteError,
    /// Verify operation failed (data mismatch)
    VerifyError,
    /// Operation timed out
    Timeout,
    /// Address is beyond flash chip size
    AddressOutOfBounds,
    /// Operation requires aligned address or size
    InvalidAlignment,
    /// Provided buffer is too small for the operation
    BufferTooSmall,
    /// Flash chip is write protected
    WriteProtected,
    /// Specific region is protected
    RegionProtected,
    /// Programmer is not ready (not initialized or busy)
    ProgrammerNotReady,
    /// General programmer error
    ProgrammerError,
    /// Read operation failed
    ReadError,
    /// I/O error occurred
    IoError,
    /// An earlier operation left the chip in an unknown state; the hardware
    /// has to be recovered and the chip probed again.
    RecoveryRequired,
    /// An I/O mode was requested that the programmer cannot drive.
    IoModeNotSupported,
    /// A flash layout is not valid for the chip
    LayoutError,
}

/// The description of each error.
pub open spec fn error_text(e: Error) -> Seq<char> {
    match e {
        Error::SpiTransferFailed => "SPI transfer failed"@,
        Error::SpiTimeout => "SPI operation timed out"@,
        Error::OpcodeNotSupported => "SPI opcode not supported by programmer"@,
        Error::ChipNotFound => "flash chip not found"@,
        Error::ChipNotSupported => "flash chip not supported"@,
        Error::JedecIdMismatch => "JEDEC ID mismatch"@,
        Error::EraseError => "erase operation failed"@,
        Error::WriteError => "write operation failed"@,
        Error::VerifyError => "verify failed: data mismatch"@,
        Error::Timeout => "operation timed out"@,
        Error::AddressOutOfBounds => "address out of bounds"@,
        Error::InvalidAlignment => "invalid alignment"@,
        Error::BufferTooSmall => "buffer too small"@,
        Error::WriteProtected => "flash chip is write protected"@,
        Error::RegionProtected => "region is protected"@,
        Error::ProgrammerNotReady => "programmer not ready"@,
        Error::ProgrammerError => "programmer error"@,
        Error::ReadError => "read operation failed"@,
        Error::IoError => "I/O error"@,
        Error::RecoveryRequired => "hardware recovery required"@,
        Error::IoModeNotSupported => "I/O mode not supported by programmer"@,
        Error::LayoutError => "invalid flash layout"@,
    }
}

impl Error {
    /// Human-readable description of the error.
    pub fn message(&self) -> (r: &'static str)
        ensures
            r@ == error_text(*self),
    {
        match self {
            Error::SpiTransferFailed => "SPI transfer failed",
            Error::SpiTimeout => "SPI operation timed out",
            Error::OpcodeNotSupported => "SPI opcode not supported by programmer",
            Error::ChipNotFound => "flash chip not found",
            Error::ChipNotSupported => "flash chip not supported",
            Error::JedecIdMismatch => "JEDEC ID mismatch",
            Error::EraseError => "erase operation failed",
            Error::WriteError => "write operation failed",
            Error::VerifyError => "verify failed: data mismatch",
            Error::Timeout => "operation timed out",
            Error::AddressOutOfBounds => "address out of bounds",
            Error::InvalidAlignment => "invalid alignment",
            Error::BufferTooSmall => "buffer too small",
            Error::WriteProtected => "flash chip is write protected",
            Error::RegionProtected => "region is protected",
            Error::ProgrammerNotReady => "programmer not ready",
            Error::ProgrammerError => "programmer error",
            Error::ReadError => "read operation failed",
            Error::IoError => "I/O error",
            Error::RecoveryRequired => "hardware recovery required",
            Error::IoModeNotSupported => "I/O mode not supported by programmer",
            Error::LayoutError => "invalid flash layout",
        }
    }
}

} // verus!
