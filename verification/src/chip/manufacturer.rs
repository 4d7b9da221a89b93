//! JEDEC manufacturer IDs.
//!
//! Some manufacturer IDs are shared between vendors; JEDEC bank extensions
//! would disambiguate them, but many cheap chips report a single byte.
use vstd::prelude::*;

verus! {

/// AMD/Spansion
pub const AMD: u8 = 0x01;
/// Atmel
pub const ATMEL: u8 = 0x1F;
/// EON
pub const EON: u8 = 0x1C;
/// Fujitsu
pub const FUJITSU: u8 = 0x04;
/// GigaDevice
pub const GIGADEVICE: u8 = 0xC8;
/// Intel
pub const INTEL: u8 = 0x89;
/// ISSI (shares 0x9D with PMC — disambiguated by device ID)
pub const ISSI: u8 = 0x9D;
/// Macronix
pub const MACRONIX: u8 = 0xC2;
/// Micron (shares 0x20 with ST and XMC — disambiguated by device ID)
pub const MICRON: u8 = 0x20;
/// PMC (shares 0x9D with ISSI — disambiguated by device ID)
pub const PMC: u8 = 0x9D;
/// Sanyo
pub const SANYO: u8 = 0x62;
/// SST
pub const SST: u8 = 0xBF;
/// ST / STMicroelectronics, now Micron (shares 0x20 with Micron and XMC)
pub const ST: u8 = 0x20;
/// Winbond
pub const WINBOND: u8 = 0xEF;
/// XMC (shares 0x20 with Micron and ST — disambiguated by device ID)
pub const XMC: u8 = 0x20;

} // verus!
