use rflasher::ati_spi::{
    answer_registers, check_transfer, command_bytes, command_word, control_word, data_word,
    transfer_writes, unpack_answer, AtiSpiEngine, AtiSpiError, RegisterWrite, R600_SW_COMMAND,
    R600_SW_CONTROL, R600_SW_DATA, SMC_SW_COMMAND, SMC_SW_CONTROL, SMC_SW_DATA_BASE,
};
use rflasher::error::Error;
use rflasher::spi::{opcodes, SpiCommand};

#[test]
fn test_check_transfer() {
    assert_eq!(check_transfer(0, 0), Err(AtiSpiError::Io("SPI command must have at least 1 byte")));
    assert_eq!(check_transfer(0x105, 0), Err(AtiSpiError::Io("SPI write exceeds the hardware FIFO")));
    assert_eq!(check_transfer(1, 0x101), Err(AtiSpiError::Io("SPI read exceeds the hardware FIFO")));
    assert_eq!(check_transfer(0x104, 0x100), Ok(()));
}

#[test]
fn test_register_values() {
    assert_eq!(command_word(&[0x03]), 0x03);
    assert_eq!(command_word(&[0x03, 0x12, 0x34, 0x56]), 0x1234_5603);
    assert_eq!(data_word(&[0, 0, 0, 0, 0xAA, 0xBB], 4), 0xAABB_0000);
    assert_eq!(control_word(4, 3), 0x4_0000 + 0x3_0000 + 3);
    assert_eq!(control_word(9, 0), 0x3_0000 + 5);
    assert_eq!(control_word(1, 0), 0);
}

#[test]
fn test_transfer_writes_r600() {
    let w = [0x02, 0x00, 0x10, 0x00, 1, 2, 3, 4, 5];
    let writes = transfer_writes(AtiSpiEngine::R600, &w, 0);
    assert_eq!(
        writes,
        vec![
            RegisterWrite { register: R600_SW_COMMAND, value: 0x0010_0002 },
            RegisterWrite { register: R600_SW_DATA, value: 0x0102_0304 },
            RegisterWrite { register: R600_SW_DATA + 4, value: 0x0500_0000 },
            RegisterWrite { register: R600_SW_CONTROL, value: 0x3_0000 + 5 },
        ]
    );
}

#[test]
fn test_transfer_writes_bonaire_gap() {
    let w = vec![0xAB; 0x104];
    let writes = transfer_writes(AtiSpiEngine::Ci { bonaire: true }, &w, 0);
    assert_eq!(writes.len(), 1 + 0x40 + 1);
    assert_eq!(writes[0].register, SMC_SW_COMMAND);
    assert_eq!(writes[1].register, SMC_SW_DATA_BASE);
    // Data from byte 0xd8 is the last before the gap; from 0xdc it moves up.
    assert_eq!(writes[(0xd8 - 4) / 4 + 1].register, SMC_SW_DATA_BASE + 0xd8 - 4);
    assert_eq!(writes[(0xdc - 4) / 4 + 1].register, SMC_SW_DATA_BASE + 0xdc + 0x0C);
    assert_eq!(writes[0x41].register, SMC_SW_CONTROL);
    let plain = transfer_writes(AtiSpiEngine::Ci { bonaire: false }, &w, 0);
    assert_eq!(plain[(0xdc - 4) / 4 + 1].register, SMC_SW_DATA_BASE + 0xdc - 4);
}

#[test]
fn test_answer() {
    assert_eq!(answer_registers(AtiSpiEngine::R600, 5), vec![R600_SW_DATA, R600_SW_DATA + 4]);
    let regs = answer_registers(AtiSpiEngine::Ci { bonaire: true }, 0x100);
    assert_eq!(regs[0xd4 / 4], SMC_SW_DATA_BASE + 0xd4);
    assert_eq!(regs[0xd8 / 4], SMC_SW_DATA_BASE + 0xd8 + 0x10);
    assert_eq!(unpack_answer(&[0x4433_2211, 0x0000_0055], 5), vec![0x11, 0x22, 0x33, 0x44, 0x55]);
}

#[test]
fn test_command_bytes() {
    let data = [0xAA, 0xBB];
    let cmd = SpiCommand::write_3b(opcodes::PP, 0x12_3456, &data);
    assert_eq!(command_bytes(&cmd).unwrap(), vec![opcodes::PP, 0x12, 0x34, 0x56, 0xAA, 0xBB]);
    let cmd = SpiCommand::read_4b(opcodes::READ_4B, 0x0102_0304, vec![0u8; 4]);
    assert_eq!(command_bytes(&cmd).unwrap(), vec![opcodes::READ_4B, 1, 2, 3, 4]);
    let big = vec![0u8; 0x100];
    let cmd = SpiCommand::write_4b(opcodes::PP_4B, 0, &big);
    assert_eq!(command_bytes(&cmd).unwrap_err(), Error::SpiTransferFailed);
    let cmd = SpiCommand::write_3b(opcodes::PP, 0, &big);
    assert_eq!(command_bytes(&cmd).unwrap().len(), 0x104);
}
