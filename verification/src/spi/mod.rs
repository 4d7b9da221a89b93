//! SPI types and command structures.
//!
//! Types for representing SPI transactions, I/O modes, and the standard
//! JEDEC opcodes.
pub mod address;
pub mod command;
pub mod io_mode;
pub mod opcodes;

pub use address::AddressWidth;
pub use command::SpiCommand;
pub use io_mode::{check_io_mode_supported, IoMode};
