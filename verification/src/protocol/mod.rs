//! SPI flash protocol: the JEDEC command sequences.
pub mod read_mode;
pub mod spi25;

pub use read_mode::select_read_mode;
pub use spi25::{
    aai_word_program, check_wel, chip_erase, disable_quad_mode, enable_quad_mode,
    enter_4byte_mode, enter_4byte_mode_with_features, enter_qpi_mode, erase_block,
    exit_4byte_mode, exit_4byte_mode_with_features, exit_qpi_mode, is_busy, is_quad_enabled,
    program_page_3b, program_page_4b, program_page_with_addressing, read_3b, read_4b,
    read_dual_io_3b, read_dual_io_4b, read_dual_out_3b, read_dual_out_4b,
    read_io_with_addressing, read_jedec_id, read_quad_io_3b, read_quad_io_4b, read_quad_out_3b,
    read_quad_out_4b, read_sfdp, read_status1, read_status2, read_status3,
    read_with_addressing, set_extended_address, software_reset, sst26_global_unprotect,
    wait_ready, write_disable, write_enable, write_enable_ewsr, write_status1,
    write_status12, write_status12_ewsr, write_status1_ewsr, CommandAddressing,
    QuadEnableMethod,
};
