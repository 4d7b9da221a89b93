use rflasher::layout::fmap::{
    binary_search_fmap, search_fmap, FmapSearchable, AREA_FLAG_STATIC, FMAP_AREA_SIZE, FMAP_HEADER_SIZE,
};
use rflasher::chip::{EraseBlock, Features, FlashChip, WriteGranularity};
use rflasher::error::Error;
use rflasher::flash::FlashContext;
use rflasher::layout::flash::{fmap_bsearch_rom, read_fmap_from_flash, read_ifd_from_flash, read_layout_from_flash};
use rflasher::programmer::{SpiFeatures, SpiMaster};
use rflasher::spi::{opcodes, SpiCommand};
use rflasher::layout::toml::{parse_number, parse_size, TomlLayoutFile, TomlLayoutMeta, TomlRegion};
use rflasher::layout::{
    fmap_offset, has_fmap, has_ifd, is_valid_fmap_header, parse_fmap, parse_ifd, validate_fmap,
    Layout, LayoutError, LayoutSource, Region,
};

const FMAP_SIGNATURE: &[u8; 8] = b"__FMAP__";

fn make_test_fmap() -> Vec<u8> {
    let mut data = vec![0xFF; 0x1000];
    let offset = 0x100;
    data[offset..offset + 8].copy_from_slice(FMAP_SIGNATURE);
    data[offset + 8] = 1;
    data[offset + 9] = 0;
    data[offset + 10..offset + 18].copy_from_slice(&0u64.to_le_bytes());
    data[offset + 18..offset + 22].copy_from_slice(&0x1000u32.to_le_bytes());
    let name = b"TEST_FMAP\0";
    data[offset + 22..offset + 22 + name.len()].copy_from_slice(name);
    data[offset + 54..offset + 56].copy_from_slice(&2u16.to_le_bytes());
    let area0_offset = offset + FMAP_HEADER_SIZE;
    data[area0_offset..area0_offset + 4].copy_from_slice(&0u32.to_le_bytes());
    data[area0_offset + 4..area0_offset + 8].copy_from_slice(&0x200u32.to_le_bytes());
    let area0_name = b"RO_SECTION\0";
    data[area0_offset + 8..area0_offset + 8 + area0_name.len()].copy_from_slice(area0_name);
    data[area0_offset + 40..area0_offset + 42].copy_from_slice(&AREA_FLAG_STATIC.to_le_bytes());
    let area1_offset = area0_offset + FMAP_AREA_SIZE;
    data[area1_offset..area1_offset + 4].copy_from_slice(&0x200u32.to_le_bytes());
    data[area1_offset + 4..area1_offset + 8].copy_from_slice(&0xE00u32.to_le_bytes());
    let area1_name = b"RW_SECTION\0";
    data[area1_offset + 8..area1_offset + 8 + area1_name.len()].copy_from_slice(area1_name);
    data[area1_offset + 40..area1_offset + 42].copy_from_slice(&0u16.to_le_bytes());
    data
}

#[test]
fn test_has_fmap() {
    let data = make_test_fmap();
    assert!(has_fmap(&data));
    assert!(!has_fmap(&[0xFF; 0x1000]));
}

#[test]
fn test_fmap_offset() {
    let data = make_test_fmap();
    assert_eq!(fmap_offset(&data), Some(0x100));
}

#[test]
fn test_parse_fmap() {
    let data = make_test_fmap();
    let layout = parse_fmap(&data).unwrap();
    assert!(layout.name.as_ref().unwrap().contains("TEST_FMAP"));
    assert_eq!(layout.regions.len(), 2);
    assert_eq!(layout.regions[0].name, "RO_SECTION");
    assert_eq!(layout.regions[0].start, 0x000);
    assert_eq!(layout.regions[0].end, 0x1FF);
    assert!(layout.regions[0].readonly);
    assert_eq!(layout.regions[1].name, "RW_SECTION");
    assert_eq!(layout.regions[1].start, 0x200);
    assert_eq!(layout.regions[1].end, 0xFFF);
    assert!(!layout.regions[1].readonly);
}

#[test]
fn test_parse_fmap_name_and_source() {
    let data = make_test_fmap();
    let layout = Layout::from_fmap(&data).unwrap();
    assert_eq!(layout.name.as_deref(), Some("FMAP: TEST_FMAP (v1.0)"));
    assert_eq!(layout.source, LayoutSource::Fmap);
    assert_eq!(layout.chip_size, None);
}

#[test]
fn test_parse_fmap_refuses_missing_and_overflowing_maps() {
    assert_eq!(parse_fmap(&[0xFF; 0x200]).unwrap_err(), LayoutError::InvalidFmapSignature);
    let mut data = make_test_fmap();
    let area0 = 0x100 + FMAP_HEADER_SIZE;
    data[area0..area0 + 4].copy_from_slice(&0xFFFF_FF00u32.to_le_bytes());
    assert_eq!(parse_fmap(&data).unwrap_err(), LayoutError::InvalidFmapSignature);
}

#[test]
fn test_validate_fmap_errors() {
    let data = make_test_fmap();
    assert_eq!(validate_fmap(&data[0x100..]), Ok(()));
    let mut bad_version = data[0x100..].to_vec();
    bad_version[8] = 2;
    assert_eq!(validate_fmap(&bad_version), Err(LayoutError::UnsupportedFmapVersion));
    assert_eq!(validate_fmap(&data[0x100..0x100 + 60]), Err(LayoutError::InvalidFmapSignature));
    assert_eq!(validate_fmap(&data[..0x100]), Err(LayoutError::InvalidFmapSignature));
}

#[test]
fn test_is_valid_fmap_header() {
    let mut header = vec![0u8; FMAP_HEADER_SIZE];
    header[0..8].copy_from_slice(FMAP_SIGNATURE);
    header[8] = 1;
    header[9] = 0;
    header[54..56].copy_from_slice(&5u16.to_le_bytes());
    assert!(is_valid_fmap_header(&header));
    let mut bad_sig = header.clone();
    bad_sig[0] = 0xFF;
    assert!(!is_valid_fmap_header(&bad_sig));
    let mut bad_ver = header.clone();
    bad_ver[8] = 5;
    assert!(!is_valid_fmap_header(&bad_ver));
    let mut too_many_areas = header.clone();
    too_many_areas[54..56].copy_from_slice(&2000u16.to_le_bytes());
    assert!(!is_valid_fmap_header(&too_many_areas));
    assert!(!is_valid_fmap_header(&[0u8; 10]));
}

const IFD_SIGNATURE: u32 = 0x0FF0_A55A;
const UPPER_MAP_OFFSET: usize = 0xEFC;
const FLREG_UNUSED: u32 = 0x00007FFF;

fn make_test_ifd_at(offset: usize) -> Vec<u8> {
    let mut data = vec![0x00; 0x1000];
    data[offset..offset + 4].copy_from_slice(&IFD_SIGNATURE.to_le_bytes());
    let flmap0: u32 = (2 << 24) | (0x04 << 16);
    data[offset + 4..offset + 8].copy_from_slice(&flmap0.to_le_bytes());
    data[UPPER_MAP_OFFSET..UPPER_MAP_OFFSET + 4].copy_from_slice(&0u32.to_le_bytes());
    for i in 0..3 {
        let region_offset = 0x40 + i * 4;
        data[region_offset..region_offset + 4].copy_from_slice(&FLREG_UNUSED.to_le_bytes());
    }
    let freg0: u32 = 0x0000_0000;
    data[0x40..0x44].copy_from_slice(&freg0.to_le_bytes());
    let freg1: u32 = (0x07FF << 16) | 0x0001;
    data[0x44..0x48].copy_from_slice(&freg1.to_le_bytes());
    let freg2: u32 = (0x0FFF << 16) | 0x0800;
    data[0x48..0x4C].copy_from_slice(&freg2.to_le_bytes());
    data
}

fn make_test_ifd() -> Vec<u8> {
    make_test_ifd_at(0x10)
}

fn make_sunrise_point_ifd() -> Vec<u8> {
    let mut data = vec![0x00; 0x1000];
    data[0..4].copy_from_slice(&IFD_SIGNATURE.to_le_bytes());
    let flmap0: u32 = 0x04 << 16;
    data[4..8].copy_from_slice(&flmap0.to_le_bytes());
    let flmap2: u32 = 0x31 << 16;
    data[12..16].copy_from_slice(&flmap2.to_le_bytes());
    data[UPPER_MAP_OFFSET..UPPER_MAP_OFFSET + 4].copy_from_slice(&0u32.to_le_bytes());
    for i in 0..10 {
        let offset = 0x40 + i * 4;
        data[offset..offset + 4].copy_from_slice(&FLREG_UNUSED.to_le_bytes());
    }
    let regions: [(usize, u32); 4] = [
        (0, 0x0000_0000),
        (1, (0x0fff << 16) | 0x0500),
        (2, (0x03ff << 16) | 0x0001),
        (8, (0x04ff << 16) | 0x0400),
    ];
    for (index, flreg) in regions {
        let offset = 0x40 + index * 4;
        data[offset..offset + 4].copy_from_slice(&flreg.to_le_bytes());
    }
    data
}

fn make_lunar_panther_ifd(csso: u32, isl: u32) -> Vec<u8> {
    let mut data = vec![0x00; 0x1000];
    data[0..4].copy_from_slice(&IFD_SIGNATURE.to_le_bytes());
    data[4..8].copy_from_slice(&(0x04u32 << 16).to_le_bytes());
    data[8..12].copy_from_slice(&(isl << 24).to_le_bytes());
    let flmap2 = (0x03u32 << 16) | (csso << 2);
    data[12..16].copy_from_slice(&flmap2.to_le_bytes());
    data[UPPER_MAP_OFFSET..UPPER_MAP_OFFSET + 4].copy_from_slice(&(1u32 << 24).to_le_bytes());
    for i in 0..16 {
        let offset = 0x40 + i * 4;
        data[offset..offset + 4].copy_from_slice(&FLREG_UNUSED.to_le_bytes());
    }
    let regions: [(usize, u32); 3] = [
        (0, 0x0000_0000),
        (10, (0x0001 << 16) | 0x0001),
        (11, (0x0002 << 16) | 0x0002),
    ];
    for (index, flreg) in regions {
        let offset = 0x40 + index * 4;
        data[offset..offset + 4].copy_from_slice(&flreg.to_le_bytes());
    }
    data
}

#[test]
fn test_has_ifd() {
    let data = make_test_ifd();
    assert!(has_ifd(&data));
    assert!(!has_ifd(&[0xFF; 0x1000]));
}

#[test]
fn test_parse_ifd() {
    let data = make_test_ifd();
    let layout = parse_ifd(&data).unwrap();
    assert_eq!(layout.regions.len(), 3);
    assert_eq!(layout.regions[0].name, "descriptor");
    assert_eq!(layout.regions[0].start, 0x000000);
    assert_eq!(layout.regions[0].end, 0x000FFF);
    assert!(layout.regions[0].readonly);
    assert_eq!(layout.regions[1].name, "bios");
    assert_eq!(layout.regions[1].start, 0x001000);
    assert_eq!(layout.regions[1].end, 0x7FFFFF);
    assert_eq!(layout.regions[2].name, "me");
    assert_eq!(layout.regions[2].start, 0x800000);
    assert_eq!(layout.regions[2].end, 0xFFFFFF);
    assert!(layout.regions[2].dangerous);
}

#[test]
fn test_parse_standard_ifd_location() {
    let data = make_test_ifd_at(0);
    assert!(has_ifd(&data));
    assert_eq!(parse_ifd(&data).unwrap().regions.len(), 3);
}

#[test]
fn test_parse_sunrise_point_with_reserved_nr() {
    let layout = parse_ifd(&make_sunrise_point_ifd()).unwrap();
    assert_eq!(layout.regions.len(), 4);
    assert_eq!(layout.find_region("descriptor").unwrap().start, 0);
    assert_eq!(layout.find_region("me").unwrap().start, 0x001000);
    assert_eq!(layout.find_region("ec").unwrap().start, 0x400000);
    assert_eq!(layout.find_region("bios").unwrap().start, 0x500000);
}

#[test]
fn test_lunar_and_panther_lake_region_names() {
    for data in [make_lunar_panther_ifd(0x70, 0x7d), make_lunar_panther_ifd(0x60, 0x9a)] {
        let layout = parse_ifd(&data).unwrap();
        assert_eq!(layout.find_region("pse").unwrap().start, 0x001000);
        assert_eq!(layout.find_region("region11").unwrap().start, 0x002000);
        assert!(layout.find_region("ie").is_none());
        assert!(layout.find_region("10gbe").is_none());
    }
}

#[test]
fn test_parse_ifd_rejects_short_or_unsigned_data() {
    assert_eq!(parse_ifd(&[0u8; 0x800]).unwrap_err(), LayoutError::InvalidIfdSignature);
    assert_eq!(parse_ifd(&[0xFFu8; 0x1000]).unwrap_err(), LayoutError::InvalidIfdSignature);
}

fn region(name: &str, start: u32, end: u32) -> Region {
    Region::new(name, start, end)
}

#[test]
fn test_region_geometry() {
    let r = region("bios", 0x1000, 0x1FFF);
    assert_eq!(r.size(), 0x1000);
    assert!(r.contains(0x1000));
    assert!(r.contains(0x1FFF));
    assert!(!r.contains(0x2000));
    assert!(r.overlaps(&region("x", 0x1FFF, 0x3000)));
    assert!(!r.overlaps(&region("y", 0x2000, 0x3000)));
    assert!(r.is_aligned(0x1000));
    assert!(!r.is_aligned(0x2000));
    assert!(!r.is_aligned(0));
}

#[test]
fn test_include_exclude_find_case_insensitive() {
    let mut layout = Layout::new();
    layout.add_region(region("BIOS", 0x1000, 0x1FFF));
    layout.add_region(region("me", 0x2000, 0x2FFF));
    assert_eq!(layout.include_region("bios"), Ok(()));
    assert!(layout.regions[0].included);
    assert!(layout.has_included_regions());
    assert_eq!(layout.include_region("gbe"), Err(LayoutError::RegionNotFound));
    assert_eq!(layout.exclude_region("BiOs"), Ok(()));
    assert!(!layout.has_included_regions());
    layout.include_all();
    assert_eq!(layout.included_regions().len(), 2);
    layout.exclude_all();
    assert!(layout.included_regions().is_empty());
    assert_eq!(layout.find_region("ME").unwrap().start, 0x2000);
    assert!(layout.find_region_mut("nothing").is_none());
    layout.find_region_mut("me").unwrap().dangerous = true;
    layout.include_all();
    assert_eq!(layout.dangerous_included().len(), 1);
    assert!(layout.readonly_included().is_empty());
}

#[test]
fn test_update_region_end() {
    let mut layout = Layout::new();
    layout.add_region(region("bios", 0x1000, 0x1FFF));
    assert_eq!(layout.update_region_end("bios", 0x2FFF), Ok(()));
    assert_eq!(layout.regions[0].end, 0x2FFF);
    assert_eq!(layout.update_region_end("bios", 0x0FFF), Err(LayoutError::InvalidRegion));
    assert_eq!(layout.update_region_end("me", 0x0FFF), Err(LayoutError::RegionNotFound));
}

#[test]
fn test_validate_errors_in_order() {
    let mut layout = Layout::new();
    layout.add_region(region("a", 0x0000, 0x0FFF));
    layout.add_region(region("b", 0x1000, 0x1FFF));
    assert_eq!(layout.validate(0x2000), Ok(()));
    assert_eq!(layout.validate(0x1000), Err(LayoutError::RegionOutOfBounds));
    layout.chip_size = Some(0x4000);
    assert_eq!(
        layout.validate(0x2000),
        Err(LayoutError::ChipSizeMismatch { expected: 0x4000, actual: 0x2000 })
    );
    layout.chip_size = None;
    layout.add_region(region("A", 0x3000, 0x3FFF));
    assert_eq!(layout.validate(0x4000), Err(LayoutError::DuplicateRegionName));
    let mut overlapping = Layout::new();
    overlapping.add_region(region("a", 0x0000, 0x0FFF));
    overlapping.add_region(region("b", 0x1000, 0x1FFF));
    overlapping.add_region(region("c", 0x0800, 0x08FF));
    overlapping.add_region(region("A", 0x3000, 0x3FFF));
    assert_eq!(overlapping.validate(0x4000), Err(LayoutError::OverlappingRegions));
    let mut bad = Layout::new();
    bad.add_region(region("x", 0x10, 0x0F));
    assert_eq!(bad.validate(0x1000), Err(LayoutError::InvalidRegion));
}

#[test]
fn test_sort_by_address_is_stable() {
    let mut layout = Layout::with_source(LayoutSource::Manual);
    layout.add_region(region("c", 0x3000, 0x3FFF));
    layout.add_region(region("a1", 0x1000, 0x1FFF));
    layout.add_region(region("b", 0x2000, 0x2FFF));
    layout.add_region(region("a2", 0x1000, 0x10FF));
    layout.sort_by_address();
    let names: Vec<&str> = layout.regions.iter().map(|r| r.name.as_str()).collect();
    assert_eq!(names, vec!["a1", "a2", "b", "c"]);
    assert_eq!(layout.len(), 4);
    assert!(!layout.is_empty());
}

#[test]
fn test_parse_size() {
    assert_eq!(parse_size("4096").unwrap(), 4096);
    assert_eq!(parse_size("0x1000").unwrap(), 4096);
    assert_eq!(parse_size("4 KiB").unwrap(), 4096);
    assert_eq!(parse_size("4KiB").unwrap(), 4096);
    assert_eq!(parse_size("16 MiB").unwrap(), 16 * 1024 * 1024);
    assert_eq!(parse_size("16MiB").unwrap(), 16 * 1024 * 1024);
}

/// The parsed form of:
///
/// [layout]
/// name = "Test Layout"
/// chip_size = "16 MiB"
///
/// [[region]]
/// name = "descriptor"
/// start = 0x000000
/// end = 0x000FFF
/// readonly = true
///
/// [[region]]
/// name = "bios"
/// start = 0x001000
/// end = 0xFFFFFF
fn test_toml_file() -> TomlLayoutFile {
    TomlLayoutFile {
        layout: Some(TomlLayoutMeta {
            name: Some("Test Layout".to_string()),
            chip_size: Some("16 MiB".to_string()),
        }),
        region: vec![
            TomlRegion {
                name: "descriptor".to_string(),
                start: 0x000000,
                end: 0x000FFF,
                readonly: true,
                dangerous: false,
            },
            TomlRegion {
                name: "bios".to_string(),
                start: 0x001000,
                end: 0xFFFFFF,
                readonly: false,
                dangerous: false,
            },
        ],
    }
}

#[test]
fn test_parse_toml() {
    let layout = Layout::from_toml_file_data(test_toml_file()).unwrap();
    assert_eq!(layout.name, Some("Test Layout".to_string()));
    assert_eq!(layout.chip_size, Some(16 * 1024 * 1024));
    assert_eq!(layout.regions.len(), 2);
    assert_eq!(layout.regions[0].name, "descriptor");
    assert!(layout.regions[0].readonly);
    assert_eq!(layout.regions[1].name, "bios");
    assert!(!layout.regions[1].readonly);
}

#[test]
fn test_parse_size_errors() {
    assert!(parse_size("").is_err());
    assert_eq!(parse_size("12 GiB").unwrap_err(), "invalid size: 12 GiB");
    assert_eq!(parse_size("zz").unwrap_err(), "invalid size: zz");
    assert_eq!(parse_size("2 kb").unwrap(), 2048);
    assert_eq!(parse_size("3 MB").unwrap(), 3 * 1024 * 1024);
    assert_eq!(parse_size("8 B").unwrap(), 8);
    assert_eq!(parse_size(" 0X10 ").unwrap(), 16);
}

#[test]
fn test_toml_round_trip() {
    let layout = Layout::from_toml_file_data(test_toml_file()).unwrap();
    let text = layout.to_toml_string().unwrap();
    assert_eq!(
        text,
        "[layout]\nname = \"Test Layout\"\nchip_size = \"16 MiB\"\n\n\
         [[region]]\nname = \"descriptor\"\nstart = 0x00000000\nend = 0x00000FFF\nreadonly = true\n\n\
         [[region]]\nname = \"bios\"\nstart = 0x00001000\nend = 0x00FFFFFF\n\n"
    );
}

/// The test FMAP moved to `at` in an erased image of `size` bytes.
fn fmap_image(size: usize, at: usize) -> Vec<u8> {
    let fmap = make_test_fmap();
    let mut data = vec![0xFF; size];
    let body = &fmap[0x100..0x100 + FMAP_HEADER_SIZE + 2 * FMAP_AREA_SIZE];
    data[at..at + body.len()].copy_from_slice(body);
    data
}

#[test]
fn test_search_fmap_binary() {
    let data = fmap_image(0x10000, 0x8000);
    let mut storage: &[u8] = &data;
    assert_eq!(binary_search_fmap(&mut storage, 0, 0x10000), Ok(Some(0x8000)));
    let layout = search_fmap(&mut storage).unwrap();
    assert_eq!(layout.regions.len(), 2);
    assert_eq!(layout.regions[1].name, "RW_SECTION");
}

#[test]
fn test_search_fmap_linear_fallback() {
    let data = fmap_image(0x10000, 0x1234);
    let mut storage: &[u8] = &data;
    assert_eq!(binary_search_fmap(&mut storage, 0, 0x10000), Ok(None));
    let layout = search_fmap(&mut storage).unwrap();
    assert_eq!(layout.regions[0].name, "RO_SECTION");

    let empty = vec![0xFF; 0x10000];
    let mut storage: &[u8] = &empty;
    assert_eq!(search_fmap(&mut storage).unwrap_err(), LayoutError::InvalidFmapSignature);
}

#[test]
fn test_search_fmap_near_end_reads_past_storage() {
    // Found by the binary search, but the 4 KiB read at it runs off the end.
    let data = fmap_image(0x10000, 0xF000 + 0x800);
    let mut storage: &[u8] = &data;
    assert_eq!(search_fmap(&mut storage).unwrap_err(), LayoutError::IoError);
}

#[test]
fn test_fmap_searchable_slice() {
    let data = vec![1u8, 2, 3, 4];
    let mut storage: &[u8] = &data;
    assert_eq!(storage.size(), 4);
    let mut buf = [0u8; 2];
    assert_eq!(storage.read_at(2, &mut buf), Ok(()));
    assert_eq!(buf, [3, 4]);
    assert_eq!(storage.read_at(3, &mut buf), Err(LayoutError::IoError));
}

/// A programmer whose chip holds `image`: plain reads return its bytes.
struct ImageMaster {
    image: Vec<u8>,
}

impl SpiMaster for ImageMaster {
    fn probe_opcode(&self, _opcode: u8) -> bool {
        true
    }

    fn features(&self) -> SpiFeatures {
        SpiFeatures::empty()
    }
    fn max_read_len(&self) -> usize {
        4096
    }
    fn max_write_len(&self) -> usize {
        256
    }
    fn execute(&mut self, cmd: &mut SpiCommand) -> Result<(), Error> {
        if cmd.opcode == opcodes::READ {
            let addr = cmd.address.unwrap() as usize;
            let n = cmd.read_buf.len();
            cmd.read_buf.copy_from_slice(&self.image[addr..addr + n]);
        }
        Ok(())
    }
    fn delay_us(&mut self, _us: u32) {}
}

fn image_chip(size: u32) -> &'static FlashChip {
    Box::leak(Box::new(FlashChip {
        vendor: "Test".to_string(),
        name: "Image".to_string(),
        jedec_manufacturer: 0xEF,
        jedec_device: 0x4017,
        total_size: size,
        page_size: 256,
        features: Features::empty(),
        voltage_min_mv: 2700,
        voltage_max_mv: 3600,
        write_granularity: WriteGranularity::Page,
        erase_blocks: vec![EraseBlock::new(0xC7, size)],
        tested: Default::default(),
        qe_method: Default::default(),
    }))
}

#[test]
fn test_read_fmap_from_flash() {
    let ctx = FlashContext::new(image_chip(0x10000));
    let mut master = ImageMaster { image: fmap_image(0x10000, 0x8000) };
    let layout = read_fmap_from_flash(&mut master, &ctx).unwrap();
    assert_eq!(layout.regions.len(), 2);
    assert_eq!(fmap_bsearch_rom(&mut master, &ctx, 0, 0x10000, 256).unwrap().unwrap().regions.len(), 2);
    assert_eq!(fmap_bsearch_rom(&mut master, &ctx, 0x8000, 0x8001, 256).unwrap_err(), LayoutError::IoError);

    // Unaligned: only the linear search finds it.
    let mut master = ImageMaster { image: fmap_image(0x10000, 0x1234) };
    assert!(fmap_bsearch_rom(&mut master, &ctx, 0, 0x10000, 256).unwrap().is_none());
    let layout = read_layout_from_flash(&mut master, &ctx).unwrap();
    assert_eq!(layout.regions[0].name, "RO_SECTION");
}

#[test]
fn test_read_ifd_from_flash() {
    let ctx = FlashContext::new(image_chip(0x10000));
    let mut image = make_test_ifd();
    image.resize(0x10000, 0xFF);
    let mut master = ImageMaster { image };
    let from_flash = read_ifd_from_flash(&mut master, &ctx).unwrap();
    let direct = parse_ifd(&make_test_ifd()).unwrap();
    assert_eq!(from_flash.regions.len(), direct.regions.len());
    assert_eq!(read_layout_from_flash(&mut master, &ctx).unwrap().regions.len(), direct.regions.len());

    let mut blank = ImageMaster { image: vec![0xFF; 0x10000] };
    assert_eq!(read_ifd_from_flash(&mut blank, &ctx).unwrap_err(), LayoutError::InvalidIfdSignature);
    let tiny = FlashContext::new(image_chip(0x800));
    assert_eq!(read_ifd_from_flash(&mut blank, &tiny).unwrap_err(), LayoutError::IoError);
}

#[test]
fn test_binary_search_finds_header_at_0x100() {
    let data = fmap_image(0x1000, 0x100);
    let mut storage: &[u8] = &data;
    assert_eq!(binary_search_fmap(&mut storage, 0, 0x1000), Ok(Some(0x100)));
}

#[test]
fn test_parse_number_error_texts() {
    assert_eq!(parse_number("").unwrap_err(), "invalid number: cannot parse integer from empty string");
    assert_eq!(parse_number("12x").unwrap_err(), "invalid number: invalid digit found in string");
    assert_eq!(parse_number("99999999999").unwrap_err(), "invalid number: number too large to fit in target type");
    assert_eq!(parse_number("0xZZ").unwrap_err(), "invalid hex: invalid digit found in string");
    assert_eq!(parse_number("0x123456789").unwrap_err(), "invalid hex: number too large to fit in target type");
    assert_eq!(parse_number("+").unwrap_err(), "invalid number: invalid digit found in string");
    assert_eq!(parse_number("0x1F").unwrap(), 31);
}
