//! Programmer traits and abstractions.
//!
//! The traits that every programmer implements to talk to a flash chip.
pub mod bitbang;
pub mod features;
pub mod traits;

pub use bitbang::{BitbangDualIo, BitbangQuadIo, BitbangSpiMaster};
pub use features::SpiFeatures;
pub use traits::{OpaqueMaster, ProgrammerInfo, SpiMaster};
