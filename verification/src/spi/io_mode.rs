//! SPI I/O modes.
use vstd::prelude::*;
use crate::error::Error;
use crate::programmer::features::SpiFeatures;

verus! {

/// I/O mode for SPI transactions: how many data lines each phase uses.
#[derive(Clone, Copy, Debug, Default, PartialEq, Eq, Hash, Structural)]
pub enum IoMode {
    /// Standard SPI: 1-1-1 (cmd, addr, data all on single line)
    #[default]
    Single,
    /// Dual Output: 1-1-2 (data phase on 2 lines)
    DualOut,
    /// Dual I/O: 1-2-2 (addr and data on 2 lines)
    DualIo,
    /// Quad Output: 1-1-4 (data phase on 4 lines)
    QuadOut,
    /// Quad I/O: 1-4-4 (addr and data on 4 lines)
    QuadIo,
    /// QPI mode: 4-4-4 (everything on 4 lines)
    Qpi,
}

impl IoMode {
    /// Lines used by the command phase.
    pub open spec fn spec_cmd_lines(self) -> u8 {
        if self == IoMode::Qpi { 4 } else { 1 }
    }

    /// Lines used by the address phase.
    pub open spec fn spec_addr_lines(self) -> u8 {
        match self {
            IoMode::Single | IoMode::DualOut | IoMode::QuadOut => 1,
            IoMode::DualIo => 2,
            IoMode::QuadIo | IoMode::Qpi => 4,
        }
    }

    /// Lines used by the data phase.
    pub open spec fn spec_data_lines(self) -> u8 {
        match self {
            IoMode::Single => 1,
            IoMode::DualOut | IoMode::DualIo => 2,
            IoMode::QuadOut | IoMode::QuadIo | IoMode::Qpi => 4,
        }
    }

    /// The programmer capability flag that this mode needs (0 for single I/O).
    pub open spec fn required_feature(self) -> u32 {
        match self {
            IoMode::Single => 0,
            IoMode::DualOut => SpiFeatures::DUAL_IN,
            IoMode::DualIo => SpiFeatures::DUAL_IO,
            IoMode::QuadOut => SpiFeatures::QUAD_IN,
            IoMode::QuadIo => SpiFeatures::QUAD_IO,
            IoMode::Qpi => SpiFeatures::QPI,
        }
    }

    /// Returns the number of data lines used for the command phase.
    pub fn cmd_lines(&self) -> (r: u8)
        ensures
            r == self.spec_cmd_lines(),
    {
        match self {
            IoMode::Single | IoMode::DualOut | IoMode::DualIo | IoMode::QuadOut
            | IoMode::QuadIo => 1,
            IoMode::Qpi => 4,
        }
    }

    /// Returns the number of data lines used for the address phase.
    pub fn addr_lines(&self) -> (r: u8)
        ensures
            r == self.spec_addr_lines(),
    {
        match self {
            IoMode::Single | IoMode::DualOut | IoMode::QuadOut => 1,
            IoMode::DualIo => 2,
            IoMode::QuadIo | IoMode::Qpi => 4,
        }
    }

    /// Returns the number of data lines used for the data phase.
    pub fn data_lines(&self) -> (r: u8)
        ensures
            r == self.spec_data_lines(),
    {
        match self {
            IoMode::Single => 1,
            IoMode::DualOut | IoMode::DualIo => 2,
            IoMode::QuadOut | IoMode::QuadIo | IoMode::Qpi => 4,
        }
    }

    /// Returns true if this mode uses multiple data lines.
    pub fn is_multi_io(&self) -> (r: bool)
        ensures
            r == (*self != IoMode::Single),
    {
        !matches!(self, IoMode::Single)
    }

    /// Returns true if this mode requires dual I/O capability.
    pub fn requires_dual(&self) -> (r: bool)
        ensures
            r == (*self == IoMode::DualOut || *self == IoMode::DualIo),
    {
        matches!(self, IoMode::DualOut | IoMode::DualIo)
    }

    /// Returns true if this mode requires quad I/O capability.
    pub fn requires_quad(&self) -> (r: bool)
        ensures
            r == (*self == IoMode::QuadOut || *self == IoMode::QuadIo || *self == IoMode::Qpi),
    {
        matches!(self, IoMode::QuadOut | IoMode::QuadIo | IoMode::Qpi)
    }
}

/// A mode is multi-I/O exactly when it needs dual or quad capability, and the
/// data phase uses as many lines as the mode's name says: one for single,
/// two for the dual modes, four for the quad modes.
pub proof fn lemma_io_mode_classes(mode: IoMode)
    ensures
        (mode != IoMode::Single) == ((mode == IoMode::DualOut || mode == IoMode::DualIo) || (
        mode == IoMode::QuadOut || mode == IoMode::QuadIo || mode == IoMode::Qpi)),
        (mode == IoMode::DualOut || mode == IoMode::DualIo) ==> mode.spec_data_lines() == 2,
        (mode == IoMode::QuadOut || mode == IoMode::QuadIo || mode == IoMode::Qpi)
            ==> mode.spec_data_lines() == 4,
        mode == IoMode::Single ==> mode.spec_data_lines() == 1,
        mode.spec_cmd_lines() <= mode.spec_addr_lines() <= mode.spec_data_lines(),
{
}

/// Check if a programmer supports the requested I/O mode.
///
/// Returns `Ok(())` if the mode is supported, or `Err(IoModeNotSupported)` if not.
pub fn check_io_mode_supported(mode: IoMode, features: SpiFeatures) -> (r: Result<(), Error>)
    ensures
        r is Ok <==> features.has(mode.required_feature()),
        r is Err ==> r == Err::<(), Error>(Error::IoModeNotSupported),
{
    match mode {
        IoMode::Single => {
            assert(features.bits & 0 == 0) by (bit_vector);
            Ok(())
        },
        IoMode::DualOut => {
            if features.contains(SpiFeatures::DUAL_IN) {
                Ok(())
            } else {
                Err(Error::IoModeNotSupported)
            }
        },
        IoMode::DualIo => {
            if features.contains(SpiFeatures::DUAL_IO) {
                Ok(())
            } else {
                Err(Error::IoModeNotSupported)
            }
        },
        IoMode::QuadOut => {
            if features.contains(SpiFeatures::QUAD_IN) {
                Ok(())
            } else {
                Err(Error::IoModeNotSupported)
            }
        },
        IoMode::QuadIo => {
            if features.contains(SpiFeatures::QUAD_IO) {
                Ok(())
            } else {
                Err(Error::IoModeNotSupported)
            }
        },
        IoMode::Qpi => {
            if features.contains(SpiFeatures::QPI) {
                Ok(())
            } else {
                Err(Error::IoModeNotSupported)
            }
        },
    }
}

} // verus!
