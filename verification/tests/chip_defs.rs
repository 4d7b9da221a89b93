use rflasher::codegen::{erase_block_form, ChipDatabase as CodegenDatabase, CodegenError, EraseBlockForm};
use rflasher::chip::database::Size as DbSize;
use rflasher::chip::{ChipDatabase, Features};
use rflasher::chip_defs::{
    ChipDef, EraseBlockDef, FeaturesDef, RegionDef, Size, TestStatusDef, VendorDef, VoltageDef,
    WriteGranularity,
};

#[test]
fn lib_test_size_conversion() {
    assert_eq!(Size::B(256).to_bytes(), 256);
    assert_eq!(Size::KiB(4).to_bytes(), 4096);
    assert_eq!(Size::KiB(64).to_bytes(), 65536);
    assert_eq!(Size::MiB(1).to_bytes(), 1048576);
    assert_eq!(Size::MiB(16).to_bytes(), 16777216);
}

#[test]
fn database_test_size_conversion() {
    assert_eq!(DbSize::B(256).to_bytes(), 256);
    assert_eq!(DbSize::KiB(4).to_bytes(), 4096);
    assert_eq!(DbSize::KiB(64).to_bytes(), 65536);
    assert_eq!(DbSize::MiB(1).to_bytes(), 1048576);
    assert_eq!(DbSize::MiB(16).to_bytes(), 16777216);
}

#[test]
fn test_checked_bytes_overflow() {
    assert_eq!(Size::MiB(4096).checked_bytes(), None);
    assert_eq!(Size::KiB(4).checked_bytes(), Some(4096));
}

fn chip(name: &str, total: Size, regions: Vec<RegionDef>) -> ChipDef {
    ChipDef {
        name: name.to_string(),
        device_id: 1,
        total_size: total,
        page_size: 256,
        features: FeaturesDef::default(),
        voltage: VoltageDef::default(),
        write_granularity: WriteGranularity::default(),
        erase_blocks: vec![EraseBlockDef { opcode: 0x20, opcode_4b: None, regions }],
        tested: TestStatusDef::default(),
    }
}

#[test]
fn test_vendor_validation() {
    let mut vendor = VendorDef {
        vendor: "Test".to_string(),
        manufacturer_id: 1,
        chips: vec![chip("Chip", Size::KiB(8), vec![RegionDef { size: Size::KiB(4), count: 2 }])],
    };
    assert!(vendor.validate().is_ok());
    vendor.chips.push(chip("Chip", Size::KiB(8), vec![RegionDef { size: Size::KiB(4), count: 2 }]));
    assert_eq!(vendor.validate().unwrap_err(), "Vendor Test defines chip name Chip more than once");
    vendor.chips.pop();
    vendor.chips[0].erase_blocks[0].regions[0].count = 1;
    assert_eq!(
        vendor.validate().unwrap_err(),
        "Chip Chip has no chip-erase block (size 8192 not found in erase_blocks)"
    );
    vendor.chips[0].erase_blocks[0].regions[0].count = u32::MAX;
    assert!(vendor.validate().unwrap_err().contains("exceeding u32"));
    vendor.chips[0].erase_blocks.clear();
    assert_eq!(vendor.validate().unwrap_err(), "Chip Chip has no erase blocks defined");
    vendor.chips[0].total_size = Size::MiB(8192);
    vendor.chips[0].erase_blocks.push(EraseBlockDef { opcode: 0x20, opcode_4b: None, regions: vec![] });
    assert_eq!(vendor.validate().unwrap_err(), "Chip Chip has a size exceeding u32 address space");
}

#[test]
fn test_features_from_def() {
    let def = FeaturesDef { wrsr_wren: true, fast_read: true, ext_addr_reg_1716: true, ..Default::default() };
    let f: Features = def.into();
    assert!(f.contains(Features::WRSR_WREN));
    assert!(f.contains(Features::FAST_READ));
    assert!(f.contains(Features::EXT_ADDR_REG));
    assert!(f.contains(Features::EXT_ADDR_REG_1716));
    assert!(!f.contains(Features::QPI));
}

#[test]
fn test_load_vendor_into_database() {
    let vendor = VendorDef {
        vendor: "Winbond".to_string(),
        manufacturer_id: 0xEF,
        chips: vec![ChipDef {
            name: "W25Q128FV".to_string(),
            device_id: 0x4018,
            total_size: Size::MiB(16),
            page_size: 256,
            features: FeaturesDef { wrsr_wren: true, fast_read: true, ..Default::default() },
            voltage: VoltageDef { min: 2700, max: 3600 },
            write_granularity: WriteGranularity::Page,
            erase_blocks: vec![
                EraseBlockDef { opcode: 0x20, opcode_4b: Some(0x21), regions: vec![RegionDef { size: Size::KiB(4), count: 4096 }] },
                EraseBlockDef { opcode: 0xC7, opcode_4b: None, regions: vec![RegionDef { size: Size::MiB(16), count: 1 }] },
            ],
            tested: TestStatusDef::default(),
        }],
    };
    let mut db = ChipDatabase::new();
    assert_eq!(db.load_vendor(&vendor), 1);
    let chip = db.find_by_jedec_id(0xEF, 0x4018).unwrap();
    assert_eq!(chip.name, "W25Q128FV");
    assert_eq!(chip.vendor, "Winbond");
    assert_eq!(chip.total_size, 16 * 1024 * 1024);
    assert!(chip.features.contains(Features::WRSR_WREN));
    assert!(chip.features.contains(Features::FAST_READ));
    assert_eq!(chip.erase_blocks[0].opcode_4b, Some(0x21));
    assert_eq!(chip.erase_blocks[0].regions[0].size, 4096);
}

#[test]
fn vendor_validation_covers_duplicates_and_erase_geometry() {
    // The definition: vendor "Test", manufacturer 1, one chip "Chip" of
    // 8 KiB with a 0x20 erase of two 4 KiB regions (page size defaulted).
    let mut vendor = VendorDef {
        vendor: "Test".to_string(),
        manufacturer_id: 1,
        chips: vec![chip("Chip", Size::KiB(8), vec![RegionDef { size: Size::KiB(4), count: 2 }])],
    };
    assert!(vendor.validate().is_ok());
    assert_eq!(vendor.chips[0].page_size, 256);

    vendor.chips.push(vendor.chips[0].clone());
    assert!(vendor.validate().unwrap_err().contains("more than once"));
    vendor.chips.pop();

    vendor.chips[0].erase_blocks[0].regions[0].count = 1;
    assert!(vendor.validate().unwrap_err().contains("no chip-erase block"));

    vendor.chips[0].erase_blocks[0].regions[0].count = u32::MAX;
    assert!(vendor.validate().unwrap_err().contains("exceeding u32"));
}

#[test]
fn static_validation_rejects_missing_chip_erase() {
    // The definition: vendor "Test", manufacturer 1, one chip "Broken" of
    // 8 KiB whose only erase covers a single 4 KiB block.
    let invalid = VendorDef {
        vendor: "Test".to_string(),
        manufacturer_id: 1,
        chips: vec![chip("Broken", Size::KiB(8), vec![RegionDef { size: Size::KiB(4), count: 1 }])],
    };
    let db = CodegenDatabase { vendors: vec![invalid] };
    assert!(matches!(db.validate(), Err(CodegenError::Validation(msg)) if msg.contains("no chip-erase block")));
}

#[test]
fn test_codegen_database_counts_and_forms() {
    let good = VendorDef {
        vendor: "Test".to_string(),
        manufacturer_id: 1,
        chips: vec![
            chip("A", Size::KiB(8), vec![RegionDef { size: Size::KiB(8), count: 1 }]),
            chip("B", Size::KiB(8), vec![RegionDef { size: Size::KiB(8), count: 1 }]),
        ],
    };
    let db = CodegenDatabase { vendors: vec![good.clone(), good] };
    assert_eq!(db.chip_count(), 4);
    assert_eq!(db.validate(), Ok(()));

    let single = EraseBlockDef { opcode: 0xC7, opcode_4b: None, regions: vec![RegionDef { size: Size::KiB(8), count: 1 }] };
    let uniform = EraseBlockDef { opcode: 0x20, opcode_4b: None, regions: vec![RegionDef { size: Size::KiB(4), count: 2 }] };
    let four = EraseBlockDef { opcode: 0x20, opcode_4b: Some(0x21), regions: vec![RegionDef { size: Size::KiB(4), count: 2 }] };
    assert_eq!(erase_block_form(&single), EraseBlockForm::Single);
    assert_eq!(erase_block_form(&uniform), EraseBlockForm::Uniform);
    assert_eq!(erase_block_form(&four), EraseBlockForm::Regions);
}
