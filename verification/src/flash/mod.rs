//! Flash planning: which bytes to write, which blocks to erase, and how
//! addresses and commands are chosen for a chip.
pub mod context;
pub mod device;
pub mod erase_plan;
pub mod io;
pub mod memory;
pub mod operations;
pub mod probe;
pub mod unified;

pub use erase_plan::{plan_optimal_erase, plan_optimal_erase_region, OptimalEraseOp};
pub use operations::{
    read,
    get_all_write_ranges, get_next_write_range, map_to_4byte_erase_opcode, need_erase,
    need_write, select_erase_block, NoProgress, WriteProgress, WriteRange, WriteStats,
};
pub use context::{AddressMode, FlashContext};
pub use memory::MemoryFlash;
pub use io::{AddressPlan, ErasePlan, IoLifecycle, WritePlan};
pub use probe::{probe_detailed, ProbeResult};
