//! Core library for reading, writing and erasing SPI flash chips.
//!
//! The crate is organised as in the flashprog tradition: SPI command
//! primitives, programmer abstractions, the SPI25 protocol, chip
//! descriptions, SFDP parsing, flash layouts and the planning logic that
//! decides which erase and write commands a flash update needs.
use vstd::prelude::*;

pub mod ati_spi;
pub mod ch341a;
pub mod ch347;
pub mod chip;
pub mod chip_defs;
pub mod codegen;
pub mod error;
pub mod flash;
pub mod layout;
pub mod programmer;
pub mod protocol;
pub mod sfdp;
pub mod spi;
pub mod spi_icd;

verus! {

} // verus!
