use rflasher::chip::{EraseBlock, FlashChip, WriteGranularity};
use rflasher::error::Error;
use rflasher::flash::device::{FlashDevice, FlashDeviceExt};
use rflasher::flash::MemoryFlash;
use rflasher::flash::unified::{
    erase_by_layout, erase_region, read_by_layout, read_with_progress, smart_write,
    smart_write_by_layout, smart_write_region, verify, verify_by_layout,
};
use rflasher::flash::{AddressMode, FlashContext, NoProgress, WriteProgress, WriteStats};
use rflasher::layout::{Layout, Region};

fn mem(size: u32) -> MemoryFlash {
    MemoryFlash::new(
        vec![0xFF; size as usize],
        vec![
            EraseBlock::with_count(0x20, 4096, size / 4096),
            EraseBlock::with_count(0xD8, 65536, size / 65536),
            EraseBlock::new(0xC7, size),
        ],
        4096,
        WriteGranularity::Page,
    )
}

fn pattern(len: usize, seed: u8) -> Vec<u8> {
    (0..len).map(|i| (i as u8).wrapping_mul(31).wrapping_add(seed)).collect()
}

#[test]
fn test_smart_write_reaches_data() {
    let mut dev = mem(128 * 1024);
    let first = pattern(128 * 1024, 7);
    let stats = smart_write(&mut dev, &first, &mut NoProgress).unwrap();
    assert!(stats.flash_modified);
    assert_eq!(dev.data().to_vec(), first);

    let mut second = first.clone();
    second[5000] = 0xFF;
    second[70000] = 0x00;
    let stats = smart_write(&mut dev, &second, &mut NoProgress).unwrap();
    assert!(stats.flash_modified);
    assert_eq!(dev.data().to_vec(), second);
}

#[test]
fn test_smart_write_unchanged_does_nothing() {
    let mut dev = mem(64 * 1024);
    let data = pattern(64 * 1024, 3);
    smart_write(&mut dev, &data, &mut NoProgress).unwrap();
    let stats = smart_write(&mut dev, &data, &mut NoProgress).unwrap();
    assert!(!stats.flash_modified);
    assert_eq!(stats, WriteStats::default());
    assert_eq!(dev.data(), &data[..]);
}

#[test]
fn test_smart_write_buffer_too_small() {
    let mut dev = mem(64 * 1024);
    let data = vec![0u8; 100];
    assert_eq!(smart_write(&mut dev, &data, &mut NoProgress).unwrap_err(), Error::BufferTooSmall);
}

#[test]
fn test_smart_write_region_keeps_outside() {
    let mut dev = mem(64 * 1024);
    let base = pattern(64 * 1024, 11);
    smart_write(&mut dev, &base, &mut NoProgress).unwrap();
    let region = pattern(1000, 200);
    let stats = smart_write_region(&mut dev, 5000, &region, &mut NoProgress).unwrap();
    assert!(stats.flash_modified);
    assert_eq!(&dev.data()[5000..6000], &region[..]);
    assert_eq!(&dev.data()[..5000], &base[..5000]);
    assert_eq!(&dev.data()[6000..], &base[6000..]);
}

#[test]
fn test_smart_write_region_out_of_bounds() {
    let mut dev = mem(64 * 1024);
    let region = vec![0u8; 10];
    assert_eq!(
        smart_write_region(&mut dev, 64 * 1024 - 5, &region, &mut NoProgress).unwrap_err(),
        Error::AddressOutOfBounds
    );
    let empty: Vec<u8> = Vec::new();
    let stats = smart_write_region(&mut dev, 0, &empty, &mut NoProgress).unwrap();
    assert_eq!(stats, WriteStats::default());
}

#[test]
fn test_verify() {
    let mut dev = mem(64 * 1024);
    let data = pattern(64 * 1024, 5);
    smart_write(&mut dev, &data, &mut NoProgress).unwrap();
    assert_eq!(verify(&mut dev, &data, 0), Ok(()));
    assert_eq!(verify(&mut dev, &data[100..9000], 100), Ok(()));
    let mut wrong = data[100..9000].to_vec();
    wrong[8000] ^= 1;
    assert_eq!(verify(&mut dev, &wrong, 100), Err(Error::VerifyError));
    assert_eq!(verify(&mut dev, &data, 1), Err(Error::AddressOutOfBounds));
}

#[test]
fn test_read_with_progress() {
    let mut dev = mem(64 * 1024);
    let data = pattern(64 * 1024, 9);
    smart_write(&mut dev, &data, &mut NoProgress).unwrap();
    let mut buf = vec![0u8; 10000];
    read_with_progress(&mut dev, &mut buf, &mut NoProgress).unwrap();
    assert_eq!(&buf[..], &data[..10000]);
}

#[test]
fn test_erase_region_preserves_neighbours() {
    let mut dev = mem(64 * 1024);
    let data = vec![0u8; 64 * 1024];
    smart_write(&mut dev, &data, &mut NoProgress).unwrap();
    let region = Region::new("r", 100, 5099);
    erase_region(&mut dev, &region).unwrap();
    assert!(dev.data()[100..5100].iter().all(|b| *b == 0xFF));
    assert!(dev.data()[..100].iter().all(|b| *b == 0));
    assert!(dev.data()[5100..].iter().all(|b| *b == 0));
    let outside = Region::new("x", 0, 64 * 1024);
    assert_eq!(erase_region(&mut dev, &outside), Err(Error::AddressOutOfBounds));
}

fn test_layout() -> Layout {
    let mut layout = Layout::new();
    layout.add_region(Region::new("a", 0x0000, 0x0FFF));
    layout.add_region(Region::new("b", 0x1000, 0x7FFF));
    layout.add_region(Region::new("c", 0x8000, 0xFFFF));
    layout.include_region("a").unwrap();
    layout.include_region("c").unwrap();
    layout
}

#[test]
fn test_read_by_layout() {
    let mut dev = mem(64 * 1024);
    let data = pattern(64 * 1024, 1);
    smart_write(&mut dev, &data, &mut NoProgress).unwrap();
    let layout = test_layout();
    let mut buf = vec![0x55u8; 64 * 1024];
    read_by_layout(&mut dev, &layout, &mut buf).unwrap();
    assert_eq!(&buf[..0x1000], &data[..0x1000]);
    assert!(buf[0x1000..0x8000].iter().all(|b| *b == 0x55));
    assert_eq!(&buf[0x8000..], &data[0x8000..]);

    let mut small = vec![0u8; 100];
    assert_eq!(read_by_layout(&mut dev, &layout, &mut small), Err(Error::BufferTooSmall));
}

#[test]
fn test_layout_errors_map_to_flash_errors() {
    let mut dev = mem(64 * 1024);
    let mut layout = Layout::new();
    layout.add_region(Region::new("big", 0, 0x1_0000));
    let mut buf = vec![0u8; 64 * 1024];
    assert_eq!(read_by_layout(&mut dev, &layout, &mut buf), Err(Error::AddressOutOfBounds));

    let mut overlapping = Layout::new();
    overlapping.add_region(Region::new("a", 0, 0x1FFF));
    overlapping.add_region(Region::new("b", 0x1000, 0x2FFF));
    assert_eq!(erase_by_layout(&mut dev, &overlapping), Err(Error::LayoutError));
}

#[test]
fn test_erase_and_verify_by_layout() {
    let mut dev = mem(64 * 1024);
    let zeros = vec![0u8; 64 * 1024];
    smart_write(&mut dev, &zeros, &mut NoProgress).unwrap();
    let layout = test_layout();
    erase_by_layout(&mut dev, &layout).unwrap();
    assert!(dev.data()[..0x1000].iter().all(|b| *b == 0xFF));
    assert!(dev.data()[0x1000..0x8000].iter().all(|b| *b == 0));
    assert!(dev.data()[0x8000..].iter().all(|b| *b == 0xFF));

    let mut expected = vec![0u8; 64 * 1024];
    for b in &mut expected[..0x1000] {
        *b = 0xFF;
    }
    for b in &mut expected[0x8000..] {
        *b = 0xFF;
    }
    assert_eq!(verify_by_layout(&mut dev, &layout, &expected), Ok(()));
    expected[0x9000] = 0;
    assert_eq!(verify_by_layout(&mut dev, &layout, &expected), Err(Error::VerifyError));
}

#[derive(Default)]
struct Recorder {
    reading: Vec<usize>,
    read_progress: Vec<usize>,
    completed: usize,
}

impl WriteProgress for Recorder {
    fn reading(&mut self, total_bytes: usize) {
        self.reading.push(total_bytes);
    }
    fn read_progress(&mut self, bytes_read: usize) {
        self.read_progress.push(bytes_read);
    }
    fn erasing(&mut self, _blocks_to_erase: usize, _bytes_to_erase: usize) {}
    fn erase_progress(&mut self, _blocks_erased: usize, _bytes_erased: usize) {}
    fn writing(&mut self, _bytes_to_write: usize) {}
    fn write_progress(&mut self, _bytes_written: usize) {}
    fn complete(&mut self, _stats: &WriteStats) {
        self.completed += 1;
    }
}

#[test]
fn test_smart_write_by_layout() {
    let mut dev = mem(64 * 1024);
    let base = pattern(64 * 1024, 21);
    smart_write(&mut dev, &base, &mut NoProgress).unwrap();
    let image = pattern(64 * 1024, 99);
    let layout = test_layout();
    let mut progress = Recorder::default();
    let stats = smart_write_by_layout(&mut dev, &layout, &image, &mut progress).unwrap();
    assert!(stats.flash_modified);
    assert_eq!(&dev.data()[..0x1000], &image[..0x1000]);
    assert_eq!(&dev.data()[0x1000..0x8000], &base[0x1000..0x8000]);
    assert_eq!(&dev.data()[0x8000..], &image[0x8000..]);
    assert_eq!(progress.reading, vec![0x1000 + 0x8000]);
    assert_eq!(progress.completed, 1);
    assert_eq!(progress.read_progress.last(), Some(&(0x1000 + 0x8000)));

    let mut none = Layout::new();
    none.add_region(Region::new("a", 0, 0xFFF));
    let stats = smart_write_by_layout(&mut dev, &none, &image, &mut NoProgress).unwrap();
    assert_eq!(stats, WriteStats::default());
    let short = vec![0u8; 10];
    assert_eq!(
        smart_write_by_layout(&mut dev, &layout, &short, &mut NoProgress).unwrap_err(),
        Error::BufferTooSmall
    );
}

#[test]
fn test_flash_context() {
    let chip: &'static FlashChip = Box::leak(Box::new(FlashChip {
        vendor: "Test".to_string(),
        name: "Big".to_string(),
        jedec_manufacturer: 0xEF,
        jedec_device: 0x4020,
        total_size: 32 * 1024 * 1024,
        page_size: 256,
        features: rflasher::chip::Features::from_bits_retain(rflasher::chip::Features::FOUR_BYTE_NATIVE),
        voltage_min_mv: 2700,
        voltage_max_mv: 3600,
        write_granularity: WriteGranularity::Page,
        erase_blocks: vec![EraseBlock::new(0xC7, 32 * 1024 * 1024)],
        tested: Default::default(),
        qe_method: Default::default(),
    }));
    let ctx = FlashContext::new(chip);
    assert_eq!(ctx.address_mode, AddressMode::FourByte);
    assert!(ctx.use_native_4byte);
    assert_eq!(ctx.page_size(), 256);
    assert_eq!(ctx.total_size(), 32 * 1024 * 1024);
    assert!(ctx.is_valid_address(32 * 1024 * 1024 - 1));
    assert!(!ctx.is_valid_address(32 * 1024 * 1024));
    assert!(ctx.is_valid_range(0, 32 * 1024 * 1024));
    assert!(!ctx.is_valid_range(1, 32 * 1024 * 1024));
    assert!(!ctx.is_valid_range(32 * 1024 * 1024, 0));
    assert_eq!(AddressMode::default(), AddressMode::ThreeByte);
}

#[test]
fn test_memory_flash_programs_by_clearing_bits() {
    let mut dev = mem(64 * 1024);
    dev.write(10, &[0xF0, 0x0F]).unwrap();
    dev.write(10, &[0x3C, 0xFF]).unwrap();
    assert_eq!(&dev.data()[10..12], &[0x30, 0x0F]);
    dev.erase(0, 4096).unwrap();
    assert_eq!(&dev.data()[10..12], &[0xFF, 0xFF]);
    assert_eq!(dev.size(), 64 * 1024);
    assert!(dev.is_valid_range(64 * 1024 - 1, 1));
    assert!(!dev.is_valid_range(64 * 1024, 1));
    let mut buf = [0u8; 4];
    assert_eq!(dev.read(64 * 1024 - 2, &mut buf), Err(Error::AddressOutOfBounds));
}

#[test]
fn test_flash_device_ext() {
    let mut dev = mem(64 * 1024);
    let data = pattern(64 * 1024, 4);
    smart_write(&mut dev, &data, &mut NoProgress).unwrap();
    assert_eq!(FlashDeviceExt::read_all(&mut dev).unwrap(), data);
    FlashDeviceExt::erase_all(&mut dev).unwrap();
    assert!(dev.data().iter().all(|b| *b == 0xFF));
}

#[test]
fn test_program_after_erase_gives_data() {
    let mut dev = mem(64 * 1024);
    dev.write(0, &vec![0x00; 8192]).unwrap();
    dev.erase(4096, 4096).unwrap();
    let data = pattern(100, 9);
    dev.write(5000, &data).unwrap();
    assert_eq!(&dev.data()[5000..5100], &data[..]);
    assert!(dev.data()[4096..5000].iter().all(|b| *b == 0xFF));
    assert!(dev.data()[..4096].iter().all(|b| *b == 0));
}

#[test]
fn test_smart_write_counts_changed_bytes() {
    let mut dev = mem(64 * 1024);
    let data = pattern(64 * 1024, 3);
    let expected = data.iter().filter(|b| **b != 0xFF).count();
    let stats = smart_write(&mut dev, &data, &mut NoProgress).unwrap();
    assert_eq!(stats.bytes_changed, expected);

    let mut region = data[100..200].to_vec();
    region[0] ^= 1;
    region[50] ^= 2;
    let stats = smart_write_region(&mut dev, 100, &region, &mut NoProgress).unwrap();
    assert_eq!(stats.bytes_changed, 2);
}

#[test]
fn smart_write_region_with_no_data_only_reports_completion() {
    let mut dev = mem(64 * 1024);
    let before = dev.data().to_vec();
    let mut progress = Recorder::default();
    let stats = smart_write_region(&mut dev, 0x100, &[], &mut progress).unwrap();
    assert_eq!(stats, WriteStats::default());
    assert_eq!(progress.completed, 1);
    assert!(progress.reading.is_empty());
    assert!(progress.read_progress.is_empty());
    assert_eq!(dev.data(), &before[..]);
}

#[test]
fn smart_write_counts_each_erase_and_write() {
    let mut dev = mem(64 * 1024);
    let mut image = dev.data().to_vec();
    for b in &mut image[0x1000..0x1010] {
        *b = 0x00;
    }
    let stats = smart_write(&mut dev, &image, &mut NoProgress).unwrap();
    assert_eq!(stats.bytes_changed, 16);
    assert_eq!(stats.writes_performed, 1);
    assert_eq!(stats.bytes_written, 16);
    assert_eq!(dev.data(), &image[..]);
    let mut again = image.clone();
    again[0x1000] = 0xFF;
    let stats = smart_write(&mut dev, &again, &mut NoProgress).unwrap();
    assert_eq!(stats.erases_performed, 1);
    assert_eq!(stats.bytes_erased, 4096);
    assert_eq!(dev.data(), &again[..]);
}
