//! The WCH CH347 USB-to-SPI bridge: its protocol constants, configuration
//! packet and programmer options.
pub mod device;
pub mod protocol;

pub use device::{parse_options, Ch347DeviceInfo, Ch347Error};
pub use protocol::{Ch347Variant, ChipSelect, SpiConfig, SpiMode, SpiSpeed};
