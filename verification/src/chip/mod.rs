//! Flash chip types and database.
pub mod database;
pub mod features;
pub mod manufacturer;
pub mod types;

pub use database::ChipDatabase;
pub use features::{Features, QeMethod};
pub use types::{
    ChipTestStatus, EraseBlock, EraseRegion, FlashChip, TestStatus, WriteGranularity,
};
