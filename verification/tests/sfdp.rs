use rflasher::chip::Features;
use rflasher::error::Error;
use rflasher::programmer::{SpiFeatures, SpiMaster};
use rflasher::sfdp::{
    parse_bfpt_dword2, parse_bfpt_dword3, parse_bfpt_dword4, parse_bfpt_erase_types, probe,
    to_flash_chip, AddressMode, BasicFlashParams, FastReadParams, FourByteAddrEraseOpcodes,
    FourByteAddrInstructions, ParameterHeader, SfdpHeader,
};
use rflasher::spi::{opcodes, SpiCommand};

#[test]
fn test_sfdp_header_parse() {
    let data = [0x53, 0x46, 0x44, 0x50, 0x06, 0x01, 0x00, 0xFF];
    let header = SfdpHeader::parse(&data);
    assert!(header.is_valid());
    assert_eq!(header.revision.major, 1);
    assert_eq!(header.revision.minor, 6);
    assert_eq!(header.num_param_headers(), 1);
    assert_eq!(header.access_protocol, 0xFF);
}

#[test]
fn test_param_header_parse() {
    let data = [0x00, 0x06, 0x01, 0x10, 0x80, 0x00, 0x00, 0xFF];
    let header = ParameterHeader::parse(&data);
    assert!(header.is_basic());
    assert_eq!(header.id, 0xFF00);
    assert_eq!(header.revision.major, 1);
    assert_eq!(header.revision.minor, 6);
    assert_eq!(header.length_dwords, 16);
    assert_eq!(header.length_bytes(), 64);
    assert_eq!(header.table_pointer, 0x80);
}

#[test]
fn test_density_parsing() {
    let mut params = BasicFlashParams::default();
    parse_bfpt_dword2(0x00FFFFFF, &mut params);
    assert_eq!(params.density_bytes, 2 * 1024 * 1024);
    params = BasicFlashParams::default();
    parse_bfpt_dword2(0x8000001C, &mut params);
    assert_eq!(params.density_bytes, 32 * 1024 * 1024);
}

#[test]
fn test_erase_type_parsing() {
    let mut params = BasicFlashParams::default();
    let dword8: u32 = 0x520F_200C;
    let dword9: u32 = 0xD812_D810;
    parse_bfpt_erase_types(dword8, dword9, &mut params);
    assert_eq!(params.erase_types[0].size, 4096);
    assert_eq!(params.erase_types[0].opcode, 0x20);
    assert_eq!(params.erase_types[1].size, 32768);
    assert_eq!(params.erase_types[1].opcode, 0x52);
    assert_eq!(params.erase_types[2].size, 65536);
    assert_eq!(params.erase_types[2].opcode, 0xD8);
    assert_eq!(params.erase_types[3].size, 262144);
    assert_eq!(params.erase_types[3].opcode, 0xD8);
}

#[test]
fn test_address_mode() {
    assert!(!AddressMode::ThreeByteOnly.requires_4byte());
    assert!(!AddressMode::ThreeByteOnly.supports_4byte());
    assert!(!AddressMode::ThreeOrFourByte.requires_4byte());
    assert!(AddressMode::ThreeOrFourByte.supports_4byte());
    assert!(AddressMode::FourByteOnly.requires_4byte());
    assert!(AddressMode::FourByteOnly.supports_4byte());
}

const MX25L6436E_SFDP: [u8; 88] = [
    0x53, 0x46, 0x44, 0x50, 0x00, 0x01, 0x01, 0xFF, 0x00, 0x00, 0x01, 0x09, 0x1C, 0x00, 0x00,
    0xFF, 0xC2, 0x00, 0x01, 0x04, 0x48, 0x00, 0x00, 0xFF, 0xFF, 0xFF, 0xFF, 0xFF, 0xE5, 0x20,
    0xC9, 0xFF, 0xFF, 0xFF, 0xFF, 0x03, 0x00, 0xFF, 0x08, 0x6B, 0x08, 0x3B, 0x00, 0xFF, 0xEE,
    0xFF, 0xFF, 0xFF, 0xFF, 0xFF, 0x00, 0x00, 0xFF, 0xFF, 0x00, 0xFF, 0x0C, 0x20, 0x0F, 0x52,
    0x10, 0xD8, 0x00, 0xFF, 0xFF, 0xFF, 0xFF, 0xFF, 0xFF, 0xFF, 0xFF, 0xFF, 0x00, 0x36, 0x00,
    0x27, 0xF4, 0x4F, 0xFF, 0xFF, 0xD9, 0xC8, 0xFF, 0xFF, 0xFF, 0xFF, 0xFF, 0xFF,
];

struct MockSfdpFlash {
    sfdp_data: &'static [u8],
}

impl MockSfdpFlash {
    fn new() -> Self {
        Self { sfdp_data: &MX25L6436E_SFDP }
    }
}

impl SpiMaster for MockSfdpFlash {
    fn probe_opcode(&self, _opcode: u8) -> bool {
        true
    }

    fn features(&self) -> SpiFeatures {
        SpiFeatures::empty()
    }

    fn max_read_len(&self) -> usize {
        256
    }

    fn max_write_len(&self) -> usize {
        256
    }

    fn execute(&mut self, cmd: &mut SpiCommand) -> Result<(), Error> {
        match cmd.opcode {
            opcodes::RDSFDP => {
                if let Some(addr) = cmd.address {
                    let addr = addr as usize;
                    let len = cmd.read_buf.len();
                    if addr < self.sfdp_data.len() {
                        let end = core::cmp::min(addr + len, self.sfdp_data.len());
                        let copy_len = end - addr;
                        cmd.read_buf[..copy_len].copy_from_slice(&self.sfdp_data[addr..end]);
                        if copy_len < len {
                            cmd.read_buf[copy_len..].fill(0xFF);
                        }
                    } else {
                        cmd.read_buf.fill(0xFF);
                    }
                }
                Ok(())
            }
            opcodes::RDSR => {
                if !cmd.read_buf.is_empty() {
                    cmd.read_buf[0] = 0x00;
                }
                Ok(())
            }
            _ => Ok(()),
        }
    }

    fn delay_us(&mut self, _us: u32) {}
}

#[test]
fn test_parse_mx25l6436e_sfdp() {
    let mut mock = MockSfdpFlash::new();
    let info = probe(&mut mock).expect("SFDP probe should succeed");
    assert!(info.header.is_valid(), "SFDP signature should be valid");
    assert_eq!(info.header.revision.major, 1);
    assert_eq!(info.header.revision.minor, 0);
    assert_eq!(info.header.num_param_headers(), 2, "Should have 2 parameter headers");
    let params = &info.basic_params;
    assert_eq!(params.density_bytes, 8 * 1024 * 1024, "Should be 8 MiB (64 Mbit)");
    let erase_4k = params.erase_types.iter().find(|e| e.size == 4096);
    assert!(erase_4k.is_some(), "Should have 4KB erase");
    assert_eq!(erase_4k.unwrap().opcode, 0x20);
    let erase_32k = params.erase_types.iter().find(|e| e.size == 32768);
    assert!(erase_32k.is_some(), "Should have 32KB erase");
    assert_eq!(erase_32k.unwrap().opcode, 0x52);
    let erase_64k = params.erase_types.iter().find(|e| e.size == 65536);
    assert!(erase_64k.is_some(), "Should have 64KB erase");
    assert_eq!(erase_64k.unwrap().opcode, 0xD8);
    assert_eq!(params.address_mode, AddressMode::ThreeByteOnly);
    assert!(params.fast_read_112, "Should support 1-1-2 fast read");
    assert!(!params.requires_4byte_addr(), "8 MiB chip should not require 4-byte addressing");
}

#[test]
fn test_mx25l6436e_to_flash_chip() {
    let mut mock = MockSfdpFlash::new();
    let info = probe(&mut mock).expect("SFDP probe should succeed");
    let chip = to_flash_chip(&info, 0xC2, 0x2017);
    assert_eq!(chip.jedec_manufacturer, 0xC2);
    assert_eq!(chip.jedec_device, 0x2017);
    assert_eq!(chip.total_size, 8 * 1024 * 1024);
    assert!(!chip.erase_blocks.is_empty());
    assert!(
        chip.erase_blocks.iter().any(|eb| eb.is_uniform() && eb.uniform_size() == Some(4096)),
        "Should have 4KB erase block"
    );
    assert!(
        chip.erase_blocks.iter().any(|eb| eb.is_uniform() && eb.uniform_size() == Some(32768)),
        "Should have 32KB erase block"
    );
    assert!(
        chip.erase_blocks.iter().any(|eb| eb.is_uniform() && eb.uniform_size() == Some(65536)),
        "Should have 64KB erase block"
    );
    assert!(chip.features.contains(Features::SFDP));
}

#[test]
fn test_fast_read_params_parsing() {
    let dword3: u32 = 0x6B08FF00;
    let mut params = BasicFlashParams::default();
    parse_bfpt_dword3(dword3, &mut params);
    assert!(params.fast_read_114_params.is_supported());
    assert_eq!(params.fast_read_114_params.opcode, 0x6B);
    assert_eq!(params.fast_read_114_params.mode_clocks, 0);
    assert_eq!(params.fast_read_114_params.dummy_clocks, 8);
    let dword4: u32 = 0xFF003B08;
    let mut params = BasicFlashParams::default();
    parse_bfpt_dword4(dword4, &mut params);
    assert!(params.fast_read_112_params.is_supported());
    assert_eq!(params.fast_read_112_params.opcode, 0x3B);
    assert_eq!(params.fast_read_112_params.mode_clocks, 0);
    assert_eq!(params.fast_read_112_params.dummy_clocks, 8);
}

#[test]
fn test_fast_read_params_from_halves() {
    let dword = 0xEB44_0000_u32;
    let params = FastReadParams::from_high_half(dword);
    assert!(params.is_supported());
    assert_eq!(params.opcode, 0xEB);
    assert_eq!(params.mode_clocks, 2);
    assert_eq!(params.dummy_clocks, 4);
    let dword = 0x0000_BB24u32;
    let params = FastReadParams::from_low_half(dword);
    assert!(params.is_supported());
    assert_eq!(params.opcode, 0xBB);
    assert_eq!(params.mode_clocks, 1);
    assert_eq!(params.dummy_clocks, 4);
    let dword = 0x0000_0000_u32;
    let params = FastReadParams::from_high_half(dword);
    assert!(!params.is_supported());
}

#[test]
fn test_4byte_addr_instructions_parsing() {
    let dword1: u32 = (1 << 0) | (1 << 1) | (1 << 6) | (1 << 9);
    let instr = FourByteAddrInstructions::from_dword1(dword1);
    assert!(instr.supports_4ba_read());
    assert!(instr.supports_4ba_fast_read());
    assert!(instr.supports_4ba_page_program());
    assert!(instr.supports_any_4ba_erase());
    assert!(instr.supports(FourByteAddrInstructions::ERASE_TYPE_1));
    assert!(!instr.supports(FourByteAddrInstructions::ERASE_TYPE_2));
}

#[test]
fn test_4byte_addr_erase_opcodes_parsing() {
    let dword2: u32 = 0xDC_DC_5C_21;
    let opcodes = FourByteAddrEraseOpcodes::from_dword2(dword2);
    assert_eq!(opcodes.erase_type_1, 0x21);
    assert_eq!(opcodes.erase_type_2, 0x5C);
    assert_eq!(opcodes.erase_type_3, 0xDC);
    assert_eq!(opcodes.erase_type_4, 0xDC);
    assert_eq!(opcodes.opcode_for_type(0), Some(0x21));
    assert_eq!(opcodes.opcode_for_type(1), Some(0x5C));
    assert_eq!(opcodes.opcode_for_type(2), Some(0xDC));
    assert_eq!(opcodes.opcode_for_type(3), Some(0xDC));
    assert_eq!(opcodes.opcode_for_type(4), None);
    let dword2: u32 = 0x00_DC_00_21;
    let opcodes = FourByteAddrEraseOpcodes::from_dword2(dword2);
    assert_eq!(opcodes.opcode_for_type(0), Some(0x21));
    assert_eq!(opcodes.opcode_for_type(1), None);
    assert_eq!(opcodes.opcode_for_type(2), Some(0xDC));
    assert_eq!(opcodes.opcode_for_type(3), None);
}

#[test]
fn test_mx25l6436e_fast_read_params() {
    let mut mock = MockSfdpFlash::new();
    let info = probe(&mut mock).expect("SFDP probe should succeed");
    let params = &info.basic_params;
    assert!(params.fast_read_114_params.is_supported());
    assert_eq!(params.fast_read_114_params.opcode, 0x6B);
    assert_eq!(params.fast_read_114_params.dummy_clocks, 8);
    assert!(params.fast_read_112_params.is_supported());
    assert_eq!(params.fast_read_112_params.opcode, 0x3B);
    assert_eq!(params.fast_read_112_params.dummy_clocks, 8);
}

#[test]
fn test_probe_detailed_without_database_uses_sfdp() {
    let mut mock = MockSfdpFlash::new();
    let db = rflasher::chip::ChipDatabase::new();
    let res = rflasher::flash::probe_detailed(&mut mock, &db).unwrap();
    assert!(!res.from_database);
    assert!(res.sfdp.is_some());
    assert_eq!(res.chip.vendor, "SFDP");
    assert_eq!(res.chip.total_size, 8 * 1024 * 1024);
    assert!(!res.has_mismatches());
    assert!(!res.has_critical_mismatches());
}

/// A programmer whose chip answers nothing: no SFDP and an all-zero ID.
struct SilentMaster;

impl SpiMaster for SilentMaster {
    fn probe_opcode(&self, _opcode: u8) -> bool {
        true
    }

    fn features(&self) -> SpiFeatures {
        SpiFeatures::empty()
    }
    fn max_read_len(&self) -> usize {
        256
    }
    fn max_write_len(&self) -> usize {
        256
    }
    fn execute(&mut self, _cmd: &mut SpiCommand) -> Result<(), Error> {
        Ok(())
    }
    fn delay_us(&mut self, _us: u32) {}
}

#[test]
fn test_probe_detailed_unknown_chip() {
    let db = rflasher::chip::ChipDatabase::new();
    let err = rflasher::flash::probe_detailed(&mut SilentMaster, &db).unwrap_err();
    assert_eq!(err, Error::ChipNotFound);
}
