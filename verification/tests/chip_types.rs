use rflasher::chip::{EraseBlock, EraseRegion};

#[test]
fn test_is_chip_erase() {
    // Chip erase: single block with count=1
    let chip_erase = EraseBlock::new(0xC7, 8 * 1024 * 1024);
    assert!(chip_erase.is_chip_erase());
    assert!(chip_erase.is_uniform());

    // 4KB sector erase: count > 1
    let sector_erase = EraseBlock::with_count(0x20, 4096, 2048);
    assert!(!sector_erase.is_chip_erase());
    assert!(sector_erase.is_uniform());

    // 64KB block erase: count > 1
    let block_erase = EraseBlock::with_count(0xD8, 65536, 128);
    assert!(!block_erase.is_chip_erase());
    assert!(block_erase.is_uniform());
}

#[test]
fn test_non_uniform_is_not_chip_erase() {
    // Non-uniform boot sector chip - not a chip erase
    let boot_sector = EraseBlock::with_regions(
        0xD8,
        &[
            EraseRegion::new(4096, 2),
            EraseRegion::new(8192, 1),
            EraseRegion::new(65536, 1),
        ],
    );
    assert!(!boot_sector.is_chip_erase());
    assert!(!boot_sector.is_uniform());
}

#[test]
fn test_block_size_at_offset() {
    let boot_sector = EraseBlock::with_regions(
        0xD8,
        &[EraseRegion::new(4096, 2), EraseRegion::new(8192, 1), EraseRegion::new(65536, 1)],
    );
    assert_eq!(boot_sector.total_size(), 4096 * 2 + 8192 + 65536);
    assert_eq!(boot_sector.block_size_at_offset(0), Some(4096));
    assert_eq!(boot_sector.block_size_at_offset(4096), Some(4096));
    assert_eq!(boot_sector.block_size_at_offset(8192), Some(8192));
    assert_eq!(boot_sector.block_size_at_offset(16384), Some(65536));
    assert_eq!(boot_sector.block_size_at_offset(16384 + 65536), None);
    assert_eq!(boot_sector.min_block_size(), 4096);
    assert_eq!(boot_sector.max_block_size(), 65536);
    assert_eq!(boot_sector.uniform_size(), None);
}
