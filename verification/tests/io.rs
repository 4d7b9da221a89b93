use rflasher::chip::{EraseBlock, EraseRegion, Features, FlashChip, QeMethod, WriteGranularity};
use rflasher::error::Error;
use rflasher::flash::io::{
    addresses, erase_spi, select_erase_plan, select_write_plan, write_chunk_len, write_spi,
};
use rflasher::flash::{AddressMode, AddressPlan, FlashContext, IoLifecycle};
use rflasher::programmer::{SpiFeatures, SpiMaster};
use rflasher::protocol::spi25::{CommandAddressing, QuadEnableMethod};
use rflasher::spi::{opcodes, AddressWidth, SpiCommand};

/// A programmer that records every command and answers status reads with
/// a programmable status register.
struct Recorder {
    features: SpiFeatures,
    max_write: usize,
    sent: Vec<(u8, Option<u32>, usize)>,
    sr1: u8,
    sr2: u8,
    ear: u8,
    refuse: Vec<u8>,
    fail_opcode: Option<(u8, Error)>,
}

impl Recorder {
    fn new(features: u32) -> Self {
        Recorder {
            features: SpiFeatures::from_bits_retain(features),
            max_write: 256,
            sent: Vec::new(),
            sr1: 0,
            sr2: 0,
            ear: 0,
            refuse: Vec::new(),
            fail_opcode: None,
        }
    }

    fn opcodes(&self) -> Vec<u8> {
        self.sent.iter().map(|c| c.0).collect()
    }
}

impl SpiMaster for Recorder {
    fn features(&self) -> SpiFeatures {
        self.features
    }

    fn max_read_len(&self) -> usize {
        4096
    }

    fn max_write_len(&self) -> usize {
        self.max_write
    }

    fn execute(&mut self, cmd: &mut SpiCommand) -> Result<(), Error> {
        self.sent.push((cmd.opcode, cmd.address, cmd.write_data.len()));
        if let Some((op, e)) = self.fail_opcode {
            if op == cmd.opcode {
                return Err(e);
            }
        }
        match cmd.opcode {
            opcodes::RDSR => cmd.read_buf[0] = self.sr1,
            opcodes::RDSR2 => cmd.read_buf[0] = self.sr2,
            opcodes::RDEAR => cmd.read_buf[0] = self.ear,
            opcodes::WREAR => self.ear = cmd.write_data[0],
            opcodes::WRSR2 => self.sr2 = cmd.write_data[0],
            opcodes::WRSR => {
                self.sr1 = cmd.write_data[0];
                if cmd.write_data.len() > 1 {
                    self.sr2 = cmd.write_data[1];
                }
            }
            _ => {}
        }
        Ok(())
    }

    fn probe_opcode(&self, opcode: u8) -> bool {
        !self.refuse.contains(&opcode)
    }

    fn delay_us(&mut self, _us: u32) {}
}

fn chip(total: u32, features: u64, qe: QeMethod) -> &'static FlashChip {
    Box::leak(Box::new(FlashChip {
        vendor: "Test".to_string(),
        name: "Chip".to_string(),
        jedec_manufacturer: 0xEF,
        jedec_device: 0x4018,
        total_size: total,
        page_size: 256,
        features: Features::from_bits_retain(features),
        voltage_min_mv: 2700,
        voltage_max_mv: 3600,
        write_granularity: WriteGranularity::Page,
        erase_blocks: vec![
            EraseBlock::with_regions_and_4b(0x20, Some(0x21), &[EraseRegion::new(4096, total / 4096)]),
            EraseBlock::with_count(0xD8, 65536, total / 65536),
            EraseBlock::new(0xC7, total),
        ],
        tested: Default::default(),
        qe_method: qe,
    }))
}

#[test]
fn test_address_plan_validate_range() {
    assert_eq!(AddressPlan::ThreeByte.validate_range(0xFF_FF00, 0x100), Ok(()));
    assert_eq!(AddressPlan::ThreeByte.validate_range(0xFF_FF00, 0x101), Err(Error::AddressOutOfBounds));
    assert_eq!(AddressPlan::NativeFourByte.validate_range(0xFF_FF00, 0x101), Ok(()));
    assert_eq!(AddressPlan::NativeFourByte.validate_range(0xFFFF_FF00, 0x100), Ok(()));
    assert_eq!(AddressPlan::NativeFourByte.validate_range(0xFFFF_FF00, 0x101), Err(Error::AddressOutOfBounds));
}

#[test]
fn test_address_plan_width_and_addressing() {
    let f = Features::from_bits_retain(Features::EXT_ADDR_REG_C5C8);
    assert_eq!(AddressPlan::ThreeByte.width(), AddressWidth::ThreeByte);
    assert_eq!(AddressPlan::NativeFourByte.width(), AddressWidth::FourByte);
    assert_eq!(AddressPlan::EnterFourByte(f).width(), AddressWidth::FourByte);
    assert_eq!(AddressPlan::Ear(f).width(), AddressWidth::ThreeByte);
    assert_eq!(AddressPlan::ThreeByte.command_addressing(), CommandAddressing::ThreeByte);
    assert_eq!(AddressPlan::EnterFourByte(f).command_addressing(), CommandAddressing::FourByte);
    assert_eq!(AddressPlan::Ear(f).command_addressing(), CommandAddressing::ExtendedAddressRegister(f));
}

#[test]
fn test_addresses() {
    let small = FlashContext::new(chip(16 * 1024 * 1024, 0, QeMethod::NoQeBit));
    assert_eq!(addresses(&small, SpiFeatures::from_bits_retain(SpiFeatures::FOUR_BYTE_ADDR), true), [
        Some(AddressPlan::ThreeByte),
        None,
        None
    ]);
    let bits = Features::FOUR_BYTE_ENTER | Features::EXT_ADDR_REG_C5C8;
    let big = FlashContext::new(chip(32 * 1024 * 1024, bits, QeMethod::NoQeBit));
    let f = Features::from_bits_retain(bits);
    assert_eq!(addresses(&big, SpiFeatures::from_bits_retain(SpiFeatures::FOUR_BYTE_ADDR), true), [
        Some(AddressPlan::NativeFourByte),
        Some(AddressPlan::EnterFourByte(f)),
        Some(AddressPlan::Ear(f))
    ]);
    assert_eq!(addresses(&big, SpiFeatures::empty(), true), [None, None, Some(AddressPlan::Ear(f))]);
    assert_eq!(
        addresses(&big, SpiFeatures::from_bits_retain(SpiFeatures::FOUR_BYTE_ADDR | SpiFeatures::NO_4BA_MODES), false),
        [None, None, None]
    );
}

#[test]
fn test_write_chunk_len() {
    assert_eq!(write_chunk_len(WriteGranularity::Byte, 256, 64, 0x10, 1000), 1);
    assert_eq!(write_chunk_len(WriteGranularity::Page, 256, 4096, 0x10, 1000), 240);
    assert_eq!(write_chunk_len(WriteGranularity::Page, 256, 64, 0x10, 1000), 64);
    assert_eq!(write_chunk_len(WriteGranularity::Page, 256, 4096, 0x100, 10), 10);
    assert_eq!(write_chunk_len(WriteGranularity::Page, 0x100_0000, 0x100_0000, 0x00FF_FFF0, 0x100), 0x10);
    assert_eq!(write_chunk_len(WriteGranularity::Page, 256, 0, 0, 10), 0);
}

#[test]
fn test_select_write_plan() {
    let ctx = FlashContext::new(chip(16 * 1024 * 1024, 0, QeMethod::NoQeBit));
    let master = Recorder::new(0);
    let plan = select_write_plan(&master, &ctx, |_| true).unwrap();
    assert_eq!(plan.opcode, opcodes::PP);
    assert_eq!(plan.address, AddressPlan::ThreeByte);
    assert_eq!(plan.page_size, 256);
    assert!(select_write_plan(&master, &ctx, |_| false).is_err());

    let aai = FlashContext::new(chip(16 * 1024 * 1024, Features::AAI_WORD, QeMethod::NoQeBit));
    assert_eq!(select_write_plan(&master, &aai, |_| true).unwrap().opcode, opcodes::AAI_WP);

    let big = FlashContext::new(chip(32 * 1024 * 1024, Features::FOUR_BYTE_PROGRAM, QeMethod::NoQeBit));
    let four = Recorder::new(SpiFeatures::FOUR_BYTE_ADDR);
    let plan = select_write_plan(&four, &big, |_| true).unwrap();
    assert_eq!(plan.opcode, opcodes::PP_4B);
    assert_eq!(plan.address, AddressPlan::NativeFourByte);
    assert_eq!(select_write_plan(&master, &big, |_| true).unwrap_err(), Error::ChipNotSupported);
}

#[test]
fn test_select_erase_plan() {
    let ctx = FlashContext::new(chip(16 * 1024 * 1024, 0, QeMethod::NoQeBit));
    let master = Recorder::new(0);
    let plan = select_erase_plan(&master, &ctx, 0x10000, 0x10000).unwrap();
    assert_eq!(plan.opcode, 0xD8);
    assert_eq!((plan.poll_delay_us, plan.timeout_us), (100_000, 4_000_000));
    let plan = select_erase_plan(&master, &ctx, 0x1000, 0x1000).unwrap();
    assert_eq!(plan.opcode, 0x20);
    assert_eq!((plan.poll_delay_us, plan.timeout_us), (10_000, 1_000_000));
    assert_eq!(select_erase_plan(&master, &ctx, 0x10, 0x1000).unwrap_err(), Error::InvalidAlignment);

    let big = FlashContext::new(chip(32 * 1024 * 1024, 0, QeMethod::NoQeBit));
    let four = Recorder::new(SpiFeatures::FOUR_BYTE_ADDR);
    let plan = select_erase_plan(&four, &big, 0x1000, 0x1000).unwrap();
    assert_eq!(plan.opcode, 0x21);
    assert_eq!(plan.address, AddressPlan::NativeFourByte);
}

#[test]
fn test_write_spi_chunks_at_page_boundaries() {
    let ctx = FlashContext::new(chip(16 * 1024 * 1024, 0, QeMethod::NoQeBit));
    let mut master = Recorder::new(0);
    let plan = select_write_plan(&master, &ctx, |_| true).unwrap();
    let data = vec![0u8; 600];
    write_spi(&mut master, &plan, 0x80, &data).unwrap();
    let programs: Vec<(Option<u32>, usize)> =
        master.sent.iter().filter(|c| c.0 == opcodes::PP).map(|c| (c.1, c.2)).collect();
    assert_eq!(programs, vec![(Some(0x80), 128), (Some(0x100), 256), (Some(0x200), 216)]);

    master.max_write = 0;
    assert_eq!(write_spi(&mut master, &plan, 0, &data), Err(Error::ProgrammerError));
}

#[test]
fn test_erase_spi_steps_by_block() {
    let ctx = FlashContext::new(chip(16 * 1024 * 1024, 0, QeMethod::NoQeBit));
    let mut master = Recorder::new(0);
    let plan = select_erase_plan(&master, &ctx, 0x1000, 0x3000).unwrap();
    erase_spi(&mut master, &plan, 0x1000, 0x3000).unwrap();
    let erases: Vec<Option<u32>> = master.sent.iter().filter(|c| c.0 == 0x20).map(|c| c.1).collect();
    assert_eq!(erases, vec![Some(0x1000), Some(0x2000), Some(0x3000)]);
}

#[test]
fn test_lifecycle_latches_when_cleanup_fails() {
    let mut life = IoLifecycle::default();
    assert!(!life.recovery_required());
    assert_eq!(life.check(), Ok(()));
    let mut master = Recorder::new(0);
    let r = life.run(&mut master, AddressPlan::ThreeByte, QuadEnableMethod::NoQeBit, |_m: &mut Recorder| Ok(7u32));
    assert_eq!(r, Ok(7));
    assert!(!life.recovery_required());

    // The chip never reports idle: cleanup cannot be confirmed.
    master.sr1 = 0x01;
    let r = life.run(&mut master, AddressPlan::ThreeByte, QuadEnableMethod::NoQeBit, |_m: &mut Recorder| Ok(7u32));
    assert_eq!(r, Err(Error::RecoveryRequired));
    assert!(life.recovery_required());
    assert_eq!(life.check(), Err(Error::RecoveryRequired));

    // A latched lifecycle sends nothing.
    master.sr1 = 0;
    master.sent.clear();
    let r = life.run(&mut master, AddressPlan::ThreeByte, QuadEnableMethod::NoQeBit, |_m: &mut Recorder| Ok(7u32));
    assert_eq!(r, Err(Error::RecoveryRequired));
    assert!(master.sent.is_empty());
}

#[test]
fn test_lifecycle_transfer_recovery_skips_cleanup() {
    let mut life = IoLifecycle::default();
    let mut master = Recorder::new(0);
    let r: Result<u32, Error> =
        life.run(&mut master, AddressPlan::ThreeByte, QuadEnableMethod::NoQeBit, |_m: &mut Recorder| {
            Err(Error::RecoveryRequired)
        });
    assert_eq!(r, Err(Error::RecoveryRequired));
    assert!(life.recovery_required());
    assert!(master.sent.is_empty());
}

#[test]
fn test_lifecycle_restores_quad_enable_and_ear() {
    let bits = Features::EXT_ADDR_REG_C5C8;
    let f = Features::from_bits_retain(bits);
    let mut life = IoLifecycle::default();
    let mut master = Recorder::new(0);
    master.ear = 0x05;
    let r = life.run(&mut master, AddressPlan::Ear(f), QuadEnableMethod::Sr2Bit1WriteSr2, |m: &mut Recorder| {
        m.ear = 0x01;
        Ok(m.sr2)
    });
    // QE was set during the transfer and cleared afterwards; the EAR was restored.
    assert_eq!(r, Ok(0x02));
    assert_eq!(master.sr2 & 0x02, 0);
    assert_eq!(master.ear, 0x05);
    assert!(!life.recovery_required());
    let ops = master.opcodes();
    assert_eq!(ops[0], opcodes::RDEAR);
    assert!(ops.contains(&opcodes::WRDI));
}

#[test]
fn test_lifecycle_setup_error_is_reported_after_cleanup() {
    let f = Features::from_bits_retain(Features::FOUR_BYTE_ENTER);
    let mut life = IoLifecycle::default();
    let mut master = Recorder::new(0);
    // Entering 4-byte mode fails: the transfer does not run, cleanup does.
    master.fail_opcode = Some((opcodes::EN4B, Error::SpiTransferFailed));
    let r = life.run(&mut master, AddressPlan::EnterFourByte(f), QuadEnableMethod::NoQeBit, |_m: &mut Recorder| Ok(1u8));
    assert_eq!(r, Err(Error::SpiTransferFailed));
    assert!(!life.recovery_required());
    assert_eq!(*master.opcodes().last().unwrap(), opcodes::EX4B);

    // Leaving 4-byte mode is impossible: the cleanup fails and latches.
    let none = Features::from_bits_retain(0);
    let mut life = IoLifecycle::default();
    let mut master = Recorder::new(0);
    let r = life.run(&mut master, AddressPlan::EnterFourByte(none), QuadEnableMethod::NoQeBit, |_m: &mut Recorder| Ok(1u8));
    assert_eq!(r, Err(Error::RecoveryRequired));
    assert!(life.recovery_required());
    assert_eq!(AddressMode::default(), AddressMode::ThreeByte);
}

#[test]
fn test_spi_write_splits_at_pages() {
    let ctx = FlashContext::new(chip(16 * 1024 * 1024, 0, QeMethod::NoQeBit));
    let mut master = Recorder::new(0);
    let data = vec![0u8; 600];
    rflasher::flash::operations::write(&mut master, &ctx, 0x80, &data).unwrap();
    let programs: Vec<(Option<u32>, usize)> =
        master.sent.iter().filter(|c| c.0 == opcodes::PP).map(|c| (c.1, c.2)).collect();
    assert_eq!(programs, vec![(Some(0x80), 128), (Some(0x100), 256), (Some(0x200), 216)]);
    assert_eq!(
        rflasher::flash::operations::write(&mut master, &ctx, 16 * 1024 * 1024 - 10, &data),
        Err(Error::AddressOutOfBounds)
    );
}

#[test]
fn test_spi_read_selects_mode() {
    let ctx = FlashContext::new(chip(16 * 1024 * 1024, Features::DUAL_IO, QeMethod::NoQeBit));
    let mut master = Recorder::new(0);
    let mut buf = vec![0u8; 16];
    rflasher::flash::read(&mut master, &ctx, 0x100, &mut buf).unwrap();
    assert_eq!(master.opcodes(), vec![opcodes::READ]);

    let mut dual = Recorder::new(SpiFeatures::DUAL_IO);
    rflasher::flash::read(&mut dual, &ctx, 0x100, &mut buf).unwrap();
    assert_eq!(dual.opcodes(), vec![opcodes::DIOR]);

    assert_eq!(
        rflasher::flash::read(&mut master, &ctx, 16 * 1024 * 1024 - 8, &mut buf),
        Err(Error::AddressOutOfBounds)
    );
}

#[test]
fn still_busy_cleanup_does_not_exit_address_mode_or_allow_reuse() {
    let f = Features::from_bits_retain(Features::FOUR_BYTE_ENTER);
    let mut life = IoLifecycle::default();
    let mut master = Recorder::new(0);
    master.sr1 = 0x01;
    let r = life.run(&mut master, AddressPlan::EnterFourByte(f), QuadEnableMethod::NoQeBit, |_m: &mut Recorder| Ok(1u8));
    assert_eq!(r, Err(Error::RecoveryRequired));
    assert!(life.recovery_required());
    let ops = master.opcodes();
    assert_eq!(ops[0], opcodes::EN4B);
    assert!(!ops.contains(&opcodes::EX4B));
    // Not reusable: a further transfer sends nothing.
    master.sr1 = 0;
    master.sent.clear();
    let r = life.run(&mut master, AddressPlan::EnterFourByte(f), QuadEnableMethod::NoQeBit, |_m: &mut Recorder| Ok(1u8));
    assert_eq!(r, Err(Error::RecoveryRequired));
    assert!(master.sent.is_empty());
}

#[test]
fn uncertain_firmware_failure_skips_even_status_cleanup_and_blocks_wp() {
    let f = Features::from_bits_retain(Features::FOUR_BYTE_ENTER);
    let mut life = IoLifecycle::default();
    let mut master = Recorder::new(0);
    let r: Result<u8, Error> =
        life.run(&mut master, AddressPlan::EnterFourByte(f), QuadEnableMethod::NoQeBit, |_m: &mut Recorder| {
            Err(Error::RecoveryRequired)
        });
    assert_eq!(r, Err(Error::RecoveryRequired));
    assert!(life.recovery_required());
    // Setup's EN4B is the only command: no RDSR, WRDI or EX4B.
    assert_eq!(master.opcodes(), vec![opcodes::EN4B]);
    assert_eq!(life.check(), Err(Error::RecoveryRequired));
    assert_eq!(master.opcodes(), vec![opcodes::EN4B]);
}

#[test]
fn planned_erase_capability_selects_firmware_or_spi_before_io_never_retries_failure() {
    let bits = Features::FOUR_BYTE_ENTER;
    let f = Features::from_bits_retain(bits);
    for (supported, failed) in [(false, false), (true, false), (true, true)] {
        let ctx = FlashContext::new(chip(32 * 1024 * 1024, bits, QeMethod::NoQeBit));
        let mut life = IoLifecycle::default();
        let mut master = Recorder::new(SpiFeatures::FOUR_BYTE_ADDR);
        // The native four-byte erase is refused: the ordinary 0x20 erase
        // runs in four-byte mode.
        master.refuse.push(0x21);
        let mut firmware_erases = 0usize;
        let r = life.run(&mut master, AddressPlan::EnterFourByte(f), QuadEnableMethod::NoQeBit, |m: &mut Recorder| {
            if supported {
                // The programmer's own erase: no SPI erase command is sent.
                firmware_erases += 1;
                if failed {
                    Err(Error::RecoveryRequired)
                } else {
                    Ok(())
                }
            } else {
                let plan = select_erase_plan(m, &ctx, 0x0100_0000, 4096)?;
                erase_spi(m, &plan, 0x0100_0000, 4096)
            }
        });
        assert_eq!(r.is_ok(), !failed);
        assert_eq!(firmware_erases, usize::from(supported));
        assert_eq!(master.opcodes().contains(&0x20), !supported);
        assert_eq!(life.recovery_required(), failed);
    }
}
