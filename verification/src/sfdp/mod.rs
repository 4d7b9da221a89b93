//! SFDP (Serial Flash Discoverable Parameters) parsing.
//!
//! SFDP data (JEDEC JESD216, through revision H) is stored in a reserved
//! area of the flash chip and read with the RDSFDP command (0x5A). It holds
//! an SFDP header with signature and revision, parameter headers, and the
//! parameter tables that describe the chip's capabilities.
pub mod parser;
pub mod types;

pub use parser::{
    compare_with_chip, is_supported, parse_4byte_addr_table_bytes, parse_bfpt_dword1,
    parse_bfpt_dword11, parse_bfpt_dword15, parse_bfpt_dword16, parse_bfpt_dword2,
    parse_bfpt_dword3, parse_bfpt_dword4, parse_bfpt_dword5, parse_bfpt_dword6,
    parse_bfpt_dword7, parse_bfpt_erase_types, parse_bfpt_table, probe, probe_with_database,
    read_sfdp, to_flash_chip, SfdpMismatch, SfdpProbeResult,
};
pub use types::{
    AddressMode, BasicFlashParams, FastReadParams, FourByteAddrEraseOpcodes,
    FourByteAddrInstructions, FourByteAddrTable, FourByteEntryMethods, ParameterHeader,
    QuadEnableRequirement, SfdpEraseType, SfdpHeader, SfdpInfo, SfdpRevision, SoftResetSupport,
    WriteEnableForVolatileSr,
};
