use rflasher::chip::{EraseBlock, WriteGranularity};
use rflasher::flash::{
    get_all_write_ranges, get_next_write_range, need_erase, need_write, plan_optimal_erase,
    plan_optimal_erase_region, WriteRange,
};
use rflasher::spi::opcodes;

fn test_erase_blocks_4k_64k(flash_size: u32) -> Vec<EraseBlock> {
    vec![
        EraseBlock::with_count(opcodes::SE_20, 4096, flash_size / 4096),
        EraseBlock::with_count(opcodes::BE_D8, 65536, flash_size / 65536),
    ]
}

fn test_erase_blocks_4k_32k_64k(flash_size: u32) -> Vec<EraseBlock> {
    vec![
        EraseBlock::with_count(opcodes::SE_20, 4096, flash_size / 4096),
        EraseBlock::with_count(opcodes::BE_52, 32768, flash_size / 32768),
        EraseBlock::with_count(opcodes::BE_D8, 65536, flash_size / 65536),
    ]
}

#[test]
fn test_need_erase_no_change() {
    let have = [0xAA, 0xBB, 0xCC, 0xDD];
    let want = [0xAA, 0xBB, 0xCC, 0xDD];
    assert!(!need_erase(&have, &want, WriteGranularity::Byte));
}

#[test]
fn test_need_erase_already_erased() {
    let have = [0xFF, 0xFF, 0xFF, 0xFF];
    let want = [0xAA, 0xBB, 0xCC, 0xDD];
    assert!(!need_erase(&have, &want, WriteGranularity::Byte));
}

#[test]
fn test_need_erase_bit_clear_only() {
    let have = [0xF0];
    let want = [0xE0];
    assert!(!need_erase(&have, &want, WriteGranularity::Bit));
}

#[test]
fn test_need_erase_bit_set_needed() {
    let have = [0xE0];
    let want = [0xF0];
    assert!(need_erase(&have, &want, WriteGranularity::Bit));
}

#[test]
fn test_need_erase_byte_granularity() {
    let have = [0xAA];
    let want = [0xBB];
    assert!(need_erase(&have, &want, WriteGranularity::Byte));
}

#[test]
fn test_need_write_no_change() {
    let have = [0xAA, 0xBB, 0xCC];
    let want = [0xAA, 0xBB, 0xCC];
    assert!(!need_write(&have, &want));
}

#[test]
fn test_need_write_with_change() {
    let have = [0xAA, 0xBB, 0xCC];
    let want = [0xAA, 0x00, 0xCC];
    assert!(need_write(&have, &want));
}

#[test]
fn test_get_next_write_range_no_changes() {
    let have = [0xAA, 0xBB, 0xCC, 0xDD];
    let want = [0xAA, 0xBB, 0xCC, 0xDD];
    assert!(get_next_write_range(&have, &want, 0).is_none());
}

#[test]
fn test_get_next_write_range_single_byte() {
    let have = [0xAA, 0xBB, 0xCC, 0xDD];
    let want = [0xAA, 0x00, 0xCC, 0xDD];
    let range = get_next_write_range(&have, &want, 0).unwrap();
    assert_eq!(range.start, 1);
    assert_eq!(range.len, 1);
}

#[test]
fn test_get_next_write_range_contiguous() {
    let have = [0xAA, 0xBB, 0xCC, 0xDD, 0xEE];
    let want = [0xAA, 0x00, 0x00, 0x00, 0xEE];
    let range = get_next_write_range(&have, &want, 0).unwrap();
    assert_eq!(range.start, 1);
    assert_eq!(range.len, 3);
}

#[test]
fn test_get_next_write_range_multiple_ranges() {
    let have = [0xAA, 0xBB, 0xCC, 0xDD, 0xEE, 0xFF];
    let want = [0x00, 0xBB, 0xCC, 0x00, 0xEE, 0xFF];
    let range1 = get_next_write_range(&have, &want, 0).unwrap();
    assert_eq!(range1.start, 0);
    assert_eq!(range1.len, 1);
    let range2 = get_next_write_range(&have, &want, range1.start + range1.len).unwrap();
    assert_eq!(range2.start, 3);
    assert_eq!(range2.len, 1);
    assert!(get_next_write_range(&have, &want, range2.start + range2.len).is_none());
}

#[test]
fn test_get_all_write_ranges() {
    let have = [0xAA, 0xBB, 0xCC, 0xDD, 0xEE, 0xFF, 0x00, 0x11];
    let want = [0x00, 0xBB, 0xCC, 0x00, 0x00, 0xFF, 0x00, 0x22];
    let ranges = get_all_write_ranges(&have, &want);
    assert_eq!(ranges.len(), 3);
    assert_eq!(ranges[0], WriteRange { start: 0, len: 1 });
    assert_eq!(ranges[1], WriteRange { start: 3, len: 2 });
    assert_eq!(ranges[2], WriteRange { start: 7, len: 1 });
}

#[test]
fn test_get_all_write_ranges_cover_every_difference() {
    let have = [1u8, 2, 3, 4, 5, 6, 7, 8, 9, 10];
    let want = [1u8, 0, 0, 4, 5, 0, 7, 8, 0, 0];
    let ranges = get_all_write_ranges(&have, &want);
    let mut covered = [false; 10];
    for r in &ranges {
        for i in r.start..r.start + r.len {
            covered[i as usize] = true;
        }
    }
    for i in 0..10 {
        assert_eq!(covered[i], have[i] != want[i]);
    }
    assert_eq!(ranges.len(), 3);
}

#[test]
fn test_optimal_erase_single_small_block() {
    let erase_blocks = test_erase_blocks_4k_64k(1024 * 1024);
    let ops = plan_optimal_erase_region(&erase_blocks, 1024 * 1024, 0, 4095);
    assert_eq!(ops.len(), 1);
    assert_eq!(ops[0].start, 0);
    assert_eq!(ops[0].size, 4096);
    assert_eq!(ops[0].erase_block.opcode, opcodes::SE_20);
}

#[test]
fn test_optimal_erase_promotes_to_larger_block() {
    let erase_blocks = test_erase_blocks_4k_64k(1024 * 1024);
    let ops = plan_optimal_erase_region(&erase_blocks, 1024 * 1024, 0, 40959);
    assert_eq!(ops.len(), 10);
    assert!(ops.iter().all(|op| op.size == 4096));
}

#[test]
fn test_optimal_erase_full_64kb_block() {
    let erase_blocks = test_erase_blocks_4k_64k(1024 * 1024);
    let ops = plan_optimal_erase_region(&erase_blocks, 1024 * 1024, 0, 65535);
    assert_eq!(ops.len(), 1);
    assert_eq!(ops[0].start, 0);
    assert_eq!(ops[0].size, 65536);
    assert_eq!(ops[0].erase_block.opcode, opcodes::BE_D8);
}

#[test]
fn test_optimal_erase_more_than_half_promotes() {
    let erase_blocks = test_erase_blocks_4k_64k(1024 * 1024);
    let ops = plan_optimal_erase_region(&erase_blocks, 1024 * 1024, 0, 36863);
    assert_eq!(ops.len(), 9);
    assert!(ops.iter().all(|op| op.size == 4096));
}

#[test]
fn test_optimal_erase_aligned_larger_block() {
    let erase_blocks = test_erase_blocks_4k_32k_64k(1024 * 1024);
    let ops = plan_optimal_erase_region(&erase_blocks, 1024 * 1024, 0, 65535);
    assert_eq!(ops.len(), 1);
    assert_eq!(ops[0].size, 65536);
}

#[test]
fn test_optimal_erase_with_32kb_blocks() {
    let erase_blocks = test_erase_blocks_4k_32k_64k(1024 * 1024);
    let ops = plan_optimal_erase_region(&erase_blocks, 1024 * 1024, 0, 49151);
    let total_erased: u32 = ops.iter().map(|op| op.size).sum();
    assert_eq!(total_erased, 49152, "Should erase exactly 48KB");
    assert!(ops.iter().any(|op| op.size == 32768), "Should have a 32KB erase");
}

#[test]
fn test_optimal_erase_smart_no_erase_needed() {
    let have = vec![0xAA; 65536];
    let want = vec![0xAA; 65536];
    let erase_blocks = test_erase_blocks_4k_64k(65536);
    let ops = plan_optimal_erase(
        &erase_blocks,
        65536,
        Some(&have),
        Some(&want),
        0,
        65535,
        WriteGranularity::Byte,
    );
    assert!(ops.is_empty(), "No erase needed when contents match");
}

#[test]
fn test_optimal_erase_smart_erased_flash() {
    let have = vec![0xFF; 65536];
    let want = vec![0xAA; 65536];
    let erase_blocks = test_erase_blocks_4k_64k(65536);
    let ops = plan_optimal_erase(
        &erase_blocks,
        65536,
        Some(&have),
        Some(&want),
        0,
        65535,
        WriteGranularity::Byte,
    );
    assert!(ops.is_empty(), "No erase needed when flash is already erased");
}

#[test]
fn test_optimal_erase_smart_partial_erase() {
    let mut have = vec![0xFF; 65536];
    have[0..4096].fill(0xAA);
    let mut want = vec![0xFF; 65536];
    want[0..4096].fill(0xBB);
    let erase_blocks = test_erase_blocks_4k_64k(65536);
    let ops = plan_optimal_erase(
        &erase_blocks,
        65536,
        Some(&have),
        Some(&want),
        0,
        65535,
        WriteGranularity::Byte,
    );
    assert_eq!(ops.len(), 1);
    assert_eq!(ops[0].start, 0);
    assert_eq!(ops[0].size, 4096);
}

#[test]
fn test_optimal_erase_offset_region() {
    let erase_blocks = test_erase_blocks_4k_64k(1024 * 1024);
    let ops = plan_optimal_erase_region(&erase_blocks, 1024 * 1024, 65536, 73727);
    assert_eq!(ops.len(), 2);
    assert_eq!(ops[0].start, 65536);
    assert_eq!(ops[0].size, 4096);
    assert_eq!(ops[1].start, 69632);
    assert_eq!(ops[1].size, 4096);
}

#[test]
fn test_optimal_erase_empty_blocks() {
    let ops = plan_optimal_erase_region(&[], 65536, 0, 4095);
    assert!(ops.is_empty());
}

#[test]
fn test_optimal_erase_chip_erase_when_beneficial() {
    let flash_size = 1024 * 1024;
    let mut erase_blocks = test_erase_blocks_4k_64k(flash_size);
    erase_blocks.push(EraseBlock::new(0xC7, flash_size));
    let ops = plan_optimal_erase_region(&erase_blocks, flash_size, 0, flash_size - 1);
    assert_eq!(ops.len(), 1, "Should use chip erase for full chip");
    assert_eq!(ops[0].start, 0);
    assert_eq!(ops[0].size, flash_size);
    assert_eq!(ops[0].erase_block.opcode, 0xC7);
}

#[test]
fn test_optimal_erase_chip_erase_smart_when_most_needs_erasing() {
    let flash_size = 256 * 1024;
    let mut erase_blocks = test_erase_blocks_4k_64k(flash_size);
    erase_blocks.push(EraseBlock::new(0xC7, flash_size));
    let erase_portion = (flash_size as usize * 3) / 4;
    let mut have = vec![0xFF; flash_size as usize];
    let mut want = vec![0xFF; flash_size as usize];
    have[..erase_portion].fill(0xAA);
    want[..erase_portion].fill(0xBB);
    let ops = plan_optimal_erase(
        &erase_blocks,
        flash_size,
        Some(&have),
        Some(&want),
        0,
        flash_size - 1,
        WriteGranularity::Byte,
    );
    assert_eq!(ops.len(), 1, "Should use chip erase when >50% needs erasing, got {} ops", ops.len());
    assert_eq!(ops[0].erase_block.opcode, 0xC7);
}

#[test]
fn test_optimal_erase_no_chip_erase_when_less_than_half() {
    let flash_size = 256 * 1024;
    let mut erase_blocks = test_erase_blocks_4k_64k(flash_size);
    erase_blocks.push(EraseBlock::new(0xC7, flash_size));
    let mut have = vec![0xFF; flash_size as usize];
    let mut want = vec![0xFF; flash_size as usize];
    let erase_portion = (flash_size as usize * 2) / 5;
    have[..erase_portion].fill(0xAA);
    want[..erase_portion].fill(0xBB);
    let ops = plan_optimal_erase(
        &erase_blocks,
        flash_size,
        Some(&have),
        Some(&want),
        0,
        flash_size - 1,
        WriteGranularity::Byte,
    );
    assert!(!ops.iter().any(|op| op.erase_block.opcode == 0xC7), "Should not use chip erase when <50% needs erasing");
    assert!(ops.len() > 1, "Should use multiple block erases, got {}", ops.len());
}

#[test]
fn test_optimal_erase_no_chip_erase_for_partial_region() {
    let flash_size = 1024 * 1024;
    let mut erase_blocks = test_erase_blocks_4k_64k(flash_size);
    erase_blocks.push(EraseBlock::new(0xC7, flash_size));
    let region_end = (flash_size as f32 * 0.6) as u32 - 1;
    let ops = plan_optimal_erase_region(&erase_blocks, flash_size, 0, region_end);
    assert!(!ops.iter().any(|op| op.erase_block.opcode == 0xC7), "Should not use chip erase for partial region");
}
