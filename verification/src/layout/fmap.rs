//! FMAP (flash map) parsing.
//!
//! An FMAP is a structure embedded anywhere in a flash image that names its
//! areas. The header is 56 bytes: the signature `__FMAP__`, major and minor
//! version, a 64-bit base, a 32-bit size, a 32-byte name and a 16-bit area
//! count. It is followed by that many 42-byte areas: 32-bit offset and size,
//! a 32-byte name and 16-bit flags. All values are little-endian.
use vstd::prelude::*;
use super::types::{stably_sorted_by_start, Layout, LayoutError, LayoutSource, Region};
use super::toml::{format_decimal, format_message, push_str};

verus! {

/// Size of the FMAP header in bytes.
pub const FMAP_HEADER_SIZE: usize = 56;
/// Size of one FMAP area in bytes.
pub const FMAP_AREA_SIZE: usize = 42;
/// Highest FMAP major version understood.
pub const FMAP_VER_MAJOR: u8 = 1;
/// Area flag: the area is static (read-only).
pub const AREA_FLAG_STATIC: u16 = 1;
/// Area flag: the area is compressed.
pub const AREA_FLAG_COMPRESSED: u16 = 2;
/// Area flag: the area is read-only.
pub const AREA_FLAG_RO: u16 = 4;

/// The FMAP signature, `__FMAP__`.
pub open spec fn fmap_signature() -> Seq<u8> {
    seq![0x5Fu8, 0x5Fu8, 0x46u8, 0x4Du8, 0x41u8, 0x50u8, 0x5Fu8, 0x5Fu8]
}

/// The little-endian 16-bit value at `i`.
pub open spec fn le16_at(d: Seq<u8>, i: int) -> int {
    d[i] + 256 * d[i + 1]
}

/// The little-endian 32-bit value at `i`.
pub open spec fn le32_at(d: Seq<u8>, i: int) -> int {
    d[i] + 256 * d[i + 1] + 65536 * d[i + 2] + 16777216 * d[i + 3]
}

/// The number of areas the header at the start of `d` announces.
pub open spec fn fmap_nareas(d: Seq<u8>) -> int {
    le16_at(d, 54)
}

/// What `validate_fmap` returns for the bytes `d`: the header must be
/// complete and start with the signature, its major version must be at most
/// 1, it may announce at most 256 areas, and all of them must follow in `d`.
pub open spec fn spec_validate_fmap(d: Seq<u8>) -> Result<(), LayoutError> {
    if d.len() < 56 || d.subrange(0, 8) != fmap_signature() {
        Err(LayoutError::InvalidFmapSignature)
    } else if d[8] > 1 {
        Err(LayoutError::UnsupportedFmapVersion)
    } else if fmap_nareas(d) > 256 {
        Err(LayoutError::InvalidFmapSignature)
    } else if d.len() - 56 < fmap_nareas(d) * 42 {
        Err(LayoutError::InvalidFmapSignature)
    } else {
        Ok(())
    }
}

/// A valid FMAP starts at offset `o` of `d`.
pub open spec fn fmap_valid_at(d: Seq<u8>, o: int) -> bool {
    0 <= o <= d.len() && spec_validate_fmap(d.subrange(o, d.len() as int)) is Ok
}

/// `o` is the first offset of `d` at which a valid FMAP starts.
pub open spec fn first_fmap(d: Seq<u8>, o: int) -> bool {
    &&& fmap_valid_at(d, o)
    &&& forall|k: int| 0 <= k < o ==> !#[trigger] fmap_valid_at(d, k)
}

/// No valid FMAP starts anywhere in `d`.
pub open spec fn no_fmap(d: Seq<u8>) -> bool {
    forall|k: int| 0 <= k <= d.len() ==> !#[trigger] fmap_valid_at(d, k)
}

/// The little-endian 16-bit value at `i`.
fn read_le16(d: &[u8], i: usize) -> (r: u16)
    requires
        i + 2 <= d@.len(),
    ensures
        r == le16_at(d@, i as int),
{
    (d[i] as u16) + (d[i + 1] as u16) * 256
}

/// The little-endian 32-bit value at `i`.
fn read_le32(d: &[u8], i: usize) -> (r: u32)
    requires
        i + 4 <= d@.len(),
    ensures
        r == le32_at(d@, i as int),
{
    (d[i] as u32) + (d[i + 1] as u32) * 256 + (d[i + 2] as u32) * 65536 + (d[i + 3] as u32) * 16777216
}

/// The FMAP signature starts at `base`.
fn signature_at(d: &[u8], base: usize) -> (r: bool)
    requires
        base + 8 <= d@.len(),
    ensures
        r == (d@.subrange(base as int, base + 8) == fmap_signature()),
{
    let r = d[base] == 0x5F && d[base + 1] == 0x5F && d[base + 2] == 0x46 && d[base + 3] == 0x4D
        && d[base + 4] == 0x41 && d[base + 5] == 0x50 && d[base + 6] == 0x5F && d[base + 7] == 0x5F;
    if r {
        assert(d@.subrange(base as int, base + 8) =~= fmap_signature());
    } else {
        assert(d@.subrange(base as int, base + 8) != fmap_signature()) by {
            let s = d@.subrange(base as int, base + 8);
            if s == fmap_signature() {
                assert(s[0] == d@[base as int] && s[1] == d@[base + 1] && s[2] == d@[base + 2]);
                assert(s[3] == d@[base + 3] && s[4] == d@[base + 4] && s[5] == d@[base + 5]);
                assert(s[6] == d@[base + 6] && s[7] == d@[base + 7]);
            }
        }
    }
    r
}

/// Validate the FMAP that starts at `base`.
fn validate_at(data: &[u8], base: usize) -> (r: Result<(), LayoutError>)
    requires
        base <= data@.len(),
    ensures
        r == spec_validate_fmap(data@.subrange(base as int, data@.len() as int)),
{
    let ghost d = data@.subrange(base as int, data@.len() as int);
    let avail = data.len() - base;
    if avail < FMAP_HEADER_SIZE {
        return Err(LayoutError::InvalidFmapSignature);
    }
    let sig = signature_at(data, base);
    assert(d.subrange(0, 8) =~= data@.subrange(base as int, base + 8));
    if !sig {
        return Err(LayoutError::InvalidFmapSignature);
    }
    if data[base + 8] > FMAP_VER_MAJOR {
        return Err(LayoutError::UnsupportedFmapVersion);
    }
    let nareas = read_le16(data, base + 54) as usize;
    assert(nareas == fmap_nareas(d));
    if nareas > 256 {
        return Err(LayoutError::InvalidFmapSignature);
    }
    if avail - FMAP_HEADER_SIZE < nareas * FMAP_AREA_SIZE {
        return Err(LayoutError::InvalidFmapSignature);
    }
    Ok(())
}

/// Validate an FMAP structure
///
/// Checks signature, version, and structure validity.
pub fn validate_fmap(data: &[u8]) -> (r: Result<(), LayoutError>)
    ensures
        r == spec_validate_fmap(data@),
{
    let r = validate_at(data, 0);
    assert(data@.subrange(0, data@.len() as int) =~= data@);
    r
}

/// The bytes start with a complete, valid FMAP header: the signature, a
/// major version of at most 1 and at most 256 announced areas (the areas
/// themselves need not follow).
pub open spec fn spec_valid_fmap_header(d: Seq<u8>) -> bool {
    &&& d.len() >= 56
    &&& d.subrange(0, 8) == fmap_signature()
    &&& d[8] <= 1
    &&& fmap_nareas(d) <= 256
}

/// Check if a buffer contains a valid FMAP header
pub fn is_valid_fmap_header(data: &[u8]) -> (r: bool)
    ensures
        r == spec_valid_fmap_header(data@),
{
    if data.len() < FMAP_HEADER_SIZE {
        return false;
    }
    signature_at(data, 0) && data[8] <= FMAP_VER_MAJOR && read_le16(data, 54) <= 256
}

/// Search for the first valid FMAP in data.
fn find_fmap(data: &[u8]) -> (r: Option<usize>)
    ensures
        match r {
            Some(o) => first_fmap(data@, o as int),
            None => no_fmap(data@),
        },
{
    if data.len() < FMAP_HEADER_SIZE {
        assert forall|k: int| 0 <= k <= data@.len() implies !#[trigger] fmap_valid_at(data@, k) by {
            assert(data@.subrange(k, data@.len() as int).len() < 56);
        }
        return None;
    }
    let n = data.len();
    let last = n - FMAP_HEADER_SIZE;
    let mut offset: usize = 0;
    while offset <= last
        invariant
            n == data@.len(),
            last + 56 == n,
            offset <= last + 1,
            forall|k: int| 0 <= k < offset ==> !#[trigger] fmap_valid_at(data@, k),
        decreases last + 1 - offset,
    {
        if signature_at(data, offset) {
            if validate_at(data, offset).is_ok() {
                return Some(offset);
            }
        } else {
            assert(data@.subrange(offset as int, data@.len() as int).subrange(0, 8)
                =~= data@.subrange(offset as int, offset + 8));
        }
        offset += 1;
    }
    assert forall|k: int| 0 <= k <= data@.len() implies !#[trigger] fmap_valid_at(data@, k) by {
        if k > last {
            assert(data@.subrange(k, data@.len() as int).len() < 56);
        }
    }
    None
}

/// Check if data appears to contain an FMAP
pub fn has_fmap(data: &[u8]) -> (r: bool)
    ensures
        r == !no_fmap(data@),
{
    find_fmap(data).is_some()
}

/// Find the offset of FMAP in data
pub fn fmap_offset(data: &[u8]) -> (r: Option<usize>)
    ensures
        match r {
            Some(o) => first_fmap(data@, o as int),
            None => no_fmap(data@),
        },
{
    find_fmap(data)
}

/// The bytes of `s` up to its first NUL byte (all of `s` if it has none).
pub open spec fn c_string(s: Seq<u8>) -> Seq<u8>
    decreases s.len(),
{
    if s.len() == 0 {
        s
    } else if s[0] == 0 {
        Seq::empty()
    } else {
        seq![s[0]] + c_string(s.drop_first())
    }
}

/// The text that `String::from_utf8_lossy` makes of `bytes`: a function of
/// the bytes alone.
pub uninterp spec fn spec_utf8_lossy(bytes: Seq<u8>) -> Seq<char>;

/// Every byte is ASCII.
pub open spec fn all_ascii(bytes: Seq<u8>) -> bool {
    forall|i: int| 0 <= i < bytes.len() ==> #[trigger] bytes[i] < 128
}

/// `String::from_utf8_lossy`: the bytes decoded as UTF-8, each invalid
/// sequence replaced by U+FFFD. Stated: the result is a function of the
/// bytes, and ASCII bytes decode to the characters with the same codes.
#[verifier::external_body]
fn utf8_lossy(bytes: &[u8]) -> (r: String)
    ensures
        r@ == spec_utf8_lossy(bytes@),
        all_ascii(bytes@) ==> r@ == bytes@.map_values(|b: u8| b as char),
{
    String::from_utf8_lossy(bytes).into_owned()
}

/// The character of the decimal digit `d`.
pub open spec fn digit_char(d: int) -> char {
    (48 + d) as char
}

/// The decimal notation of `n`, without leading zeros.
pub open spec fn decimal(n: nat) -> Seq<char>
    decreases n,
{
    if n < 10 {
        seq![digit_char(n as int)]
    } else {
        decimal(n / 10).push(digit_char((n % 10) as int))
    }
}

/// The layout name given to an FMAP: `FMAP: <name> (v<major>.<minor>)`.
pub open spec fn fmap_title(name: Seq<char>, major: u8, minor: u8) -> Seq<char> {
    "FMAP: "@ + name + " (v"@ + decimal(major as nat) + "."@ + decimal(minor as nat) + ")"@
}

/// The layout name of an FMAP.
fn format_fmap_title(name: &str, major: u8, minor: u8) -> (r: String)
    ensures
        r@ == fmap_title(name@, major, minor),
{
    let mut s = format_message("FMAP: ", name);
    push_str(&mut s, " (v");
    let ma = format_decimal(major as u32);
    push_str(&mut s, ma.as_str());
    push_str(&mut s, ".");
    let mi = format_decimal(minor as u32);
    push_str(&mut s, mi.as_str());
    push_str(&mut s, ")");
    s
}

/// Offset of area `k` from the start of the FMAP.
pub open spec fn area_base(k: int) -> int {
    56 + 42 * k
}

/// Start offset of area `k`.
pub open spec fn area_start(d: Seq<u8>, k: int) -> int {
    le32_at(d, area_base(k))
}

/// Size of area `k`.
pub open spec fn area_size(d: Seq<u8>, k: int) -> int {
    le32_at(d, area_base(k) + 4)
}

/// Flags of area `k`.
pub open spec fn area_flags(d: Seq<u8>, k: int) -> u16 {
    le16_at(d, area_base(k) + 40) as u16
}

/// Name of area `k`.
pub open spec fn area_name(d: Seq<u8>, k: int) -> Seq<char> {
    spec_utf8_lossy(c_string(d.subrange(area_base(k) + 8, area_base(k) + 40)))
}

/// Name in the FMAP header.
pub open spec fn fmap_header_name(d: Seq<u8>) -> Seq<char> {
    spec_utf8_lossy(c_string(d.subrange(22, 54)))
}

/// `r` is the region that area `k` describes: its name, its first and last
/// address, read-only when the area is static or read-only.
pub open spec fn region_of_area(r: Region, d: Seq<u8>, k: int) -> bool {
    &&& r.name@ == area_name(d, k)
    &&& r.start == area_start(d, k)
    &&& r.end == area_start(d, k) + area_size(d, k) - 1
    &&& r.readonly == (area_flags(d, k) & AREA_FLAG_STATIC != 0 || area_flags(d, k) & AREA_FLAG_RO != 0)
    &&& !r.dangerous
    &&& !r.included
}

/// The indices, in order, of the areas among the first `n` whose size is not 0.
pub open spec fn nonempty_areas(d: Seq<u8>, n: int) -> Seq<int> {
    index_seq(n).filter(area_nonempty(d))
}

/// The indices `0..n`.
pub open spec fn index_seq(n: int) -> Seq<int> {
    Seq::new(n as nat, |k: int| k)
}

/// Whether an area of `d` is non-empty, by index.
pub open spec fn area_nonempty(d: Seq<u8>) -> spec_fn(int) -> bool {
    |k: int| area_size(d, k) != 0
}

/// Every non-empty area ends within the 32-bit address space.
pub open spec fn areas_fit(d: Seq<u8>) -> bool {
    forall|k: int| 0 <= k < fmap_nareas(d) && area_size(d, k) != 0
        ==> #[trigger] area_start(d, k) + area_size(d, k) - 1 <= u32::MAX
}

/// `u` holds, in area order, the regions of the non-empty areas of `d`.
pub open spec fn regions_of_areas(u: Seq<Region>, d: Seq<u8>) -> bool {
    let idx = nonempty_areas(d, fmap_nareas(d));
    &&& u.len() == idx.len()
    &&& forall|j: int| 0 <= j < u.len() ==> #[trigger] region_of_area(u[j], d, idx[j])
}

/// `regions` are the regions of the non-empty areas of `d`, stably sorted by
/// start address.
pub open spec fn fmap_regions(regions: Seq<Region>, d: Seq<u8>) -> bool {
    exists|u: Seq<Region>| #[trigger] regions_of_areas(u, d) && stably_sorted_by_start(u, regions)
}

/// `l` is the layout that the FMAP `d` describes.
pub open spec fn fmap_layout(l: Layout, d: Seq<u8>) -> bool {
    &&& l.source == LayoutSource::Fmap
    &&& l.chip_size is None
    &&& l.name is Some
    &&& l.name->0@ == fmap_title(fmap_header_name(d), d[8], d[9])
    &&& fmap_regions(l.regions@, d)
}

proof fn lemma_c_string_prefix(s: Seq<u8>, p: int)
    requires
        0 <= p <= s.len(),
        forall|k: int| 0 <= k < p ==> s[k] != 0,
        p == s.len() || s[p] == 0,
    ensures
        c_string(s) == s.take(p),
    decreases s.len(),
{
    if s.len() == 0 {
        assert(s.take(p) =~= s);
    } else if p == 0 {
        assert(s.take(p) =~= Seq::<u8>::empty());
    } else {
        lemma_c_string_prefix(s.drop_first(), p - 1);
        assert(seq![s[0]] + s.drop_first().take(p - 1) =~= s.take(p));
    }
}

/// The bytes of `data[start..start + len]` up to the first NUL.
fn c_string_at(data: &[u8], start: usize, len: usize) -> (r: Vec<u8>)
    requires
        start + len <= data@.len(),
    ensures
        r@ == c_string(data@.subrange(start as int, start + len)),
{
    let ghost s = data@.subrange(start as int, start + len);
    let n = data.len();
    let mut out: Vec<u8> = Vec::new();
    let mut i: usize = 0;
    while i < len && data[start + i] != 0
        invariant
            n == data@.len(),
            start + len <= data@.len(),
            s == data@.subrange(start as int, start + len),
            i <= len,
            out@ == s.take(i as int),
            forall|k: int| 0 <= k < i ==> s[k] != 0,
        decreases len - i,
    {
        out.push(data[start + i]);
        assert(out@ =~= s.take(i + 1));
        i += 1;
    }
    proof {
        lemma_c_string_prefix(s, i as int);
    }
    out
}

/// The region that area `k` of the FMAP at `base` describes, or `None`
/// when it ends beyond the 32-bit address space.
fn area_region(data: &[u8], base: usize, k: usize) -> (r: Option<Region>)
    requires
        base <= data@.len(),
        base + 56 + 42 * (k + 1) <= data@.len(),
        area_size(data@.subrange(base as int, data@.len() as int), k as int) != 0,
    ensures
        ({
            let d = data@.subrange(base as int, data@.len() as int);
            match r {
                Some(reg) => area_start(d, k as int) + area_size(d, k as int) - 1 <= u32::MAX
                    && region_of_area(reg, d, k as int),
                None => area_start(d, k as int) + area_size(d, k as int) - 1 > u32::MAX,
            }
        }),
{
    let ghost d = data@.subrange(base as int, data@.len() as int);
    let _n = data.len();
    let at = base + 56 + 42 * k;
    let start = read_le32(data, at);
    let size = read_le32(data, at + 4);
    let flags = read_le16(data, at + 40);
    assert(start == area_start(d, k as int));
    assert(size == area_size(d, k as int));
    assert(flags == area_flags(d, k as int));
    if size - 1 > u32::MAX - start {
        return None;
    }
    let bytes = c_string_at(data, at + 8, 32);
    assert(data@.subrange(at + 8, at + 40) =~= d.subrange(area_base(k as int) + 8, area_base(k as int) + 40));
    let name = utf8_lossy(bytes.as_slice());
    Some(Region {
        name,
        start,
        end: start + (size - 1),
        readonly: (flags & AREA_FLAG_STATIC) != 0 || (flags & AREA_FLAG_RO) != 0,
        dangerous: false,
        included: false,
    })
}

/// Parse FMAP from a specific offset
///
/// An area that would end beyond the 32-bit address space is refused as an
/// invalid FMAP.
pub fn parse_fmap_at(data: &[u8], offset: usize) -> (r: Result<Layout, LayoutError>)
    requires
        offset <= data@.len(),
    ensures
        ({
            let d = data@.subrange(offset as int, data@.len() as int);
            match r {
                Ok(l) => spec_validate_fmap(d) is Ok && areas_fit(d) && fmap_layout(l, d),
                Err(e) => match spec_validate_fmap(d) {
                    Err(v) => e == v,
                    Ok(_) => !areas_fit(d) && e == LayoutError::InvalidFmapSignature,
                },
            }
        }),
{
    let ghost d = data@.subrange(offset as int, data@.len() as int);
    validate_at(data, offset)?;
    let n = data.len();
    let nareas = read_le16(data, offset + 54) as usize;
    assert(nareas == fmap_nareas(d));
    let header_name = c_string_at(data, offset + 22, 32);
    assert(data@.subrange(offset + 22, offset + 54) =~= d.subrange(22, 54));
    let name = utf8_lossy(header_name.as_slice());
    let title = format_fmap_title(name.as_str(), data[offset + 8], data[offset + 9]);
    let mut layout = Layout::with_source(LayoutSource::Fmap);
    layout.name = Some(title);
    let ghost pred = area_nonempty(d);
    proof {
        reveal(Seq::filter);
        assert(index_seq(0).filter(pred) =~= Seq::<int>::empty());
    }
    let mut k: usize = 0;
    while k < nareas
        invariant
            offset <= data@.len(),
            d == data@.subrange(offset as int, data@.len() as int),
            n == data@.len(),
            spec_validate_fmap(d) is Ok,
            nareas == fmap_nareas(d),
            k <= nareas,
            pred == area_nonempty(d),
            layout.source == LayoutSource::Fmap,
            layout.chip_size is None,
            layout.name is Some,
            layout.name->0@ == fmap_title(fmap_header_name(d), d[8], d[9]),
            layout.regions@.len() == nonempty_areas(d, k as int).len(),
            forall|j: int| 0 <= j < layout.regions@.len() ==> #[trigger] region_of_area(
                layout.regions@[j],
                d,
                nonempty_areas(d, k as int)[j],
            ),
            forall|k2: int| 0 <= k2 < k && area_size(d, k2) != 0
                ==> #[trigger] area_start(d, k2) + area_size(d, k2) - 1 <= u32::MAX,
        decreases nareas - k,
    {
        let ghost s0 = index_seq(k as int);
        let ghost s1 = index_seq(k + 1);
        proof {
            reveal(Seq::filter);
            assert(s1.drop_last() =~= s0);
            assert(s1.last() == k);
            assert(pred(k as int) == (area_size(d, k as int) != 0));
        }
        let at = offset + 56 + 42 * k;
        let size = read_le32(data, at + 4);
        assert(size == area_size(d, k as int));
        if size != 0 {
            match area_region(data, offset, k) {
                Some(region) => {
                    let ghost before = layout.regions@;
                    layout.add_region(region);
                    proof {
                        assert(s1.filter(pred) == s0.filter(pred).push(k as int));
                        assert forall|j: int| 0 <= j < layout.regions@.len() implies #[trigger] region_of_area(
                            layout.regions@[j],
                            d,
                            s1.filter(pred)[j],
                        ) by {
                            if j < before.len() {
                                assert(layout.regions@[j] == before[j]);
                            }
                        }
                    }
                },
                None => {
                    return Err(LayoutError::InvalidFmapSignature);
                },
            }
        } else {
            assert(s1.filter(pred) == s0.filter(pred));
        }
        k += 1;
    }
    let ghost unsorted = layout.regions@;
    assert(regions_of_areas(unsorted, d));
    layout.sort_by_address();
    assert(fmap_regions(layout.regions@, d));
    Ok(layout)
}

/// Parse FMAP from raw data
pub fn parse_fmap(data: &[u8]) -> (r: Result<Layout, LayoutError>)
    ensures
        match r {
            Ok(l) => exists|o: int| #[trigger] first_fmap(data@, o)
                && fmap_layout(l, data@.subrange(o, data@.len() as int))
                && areas_fit(data@.subrange(o, data@.len() as int)),
            Err(e) => e == LayoutError::InvalidFmapSignature && (no_fmap(data@) || exists|o: int|
                #[trigger] first_fmap(data@, o) && !areas_fit(data@.subrange(o, data@.len() as int))),
        },
{
    match find_fmap(data) {
        Some(offset) => parse_fmap_at(data, offset),
        None => Err(LayoutError::InvalidFmapSignature),
    }
}

impl Layout {
    /// Parse layout from FMAP in raw data
    pub fn from_fmap(data: &[u8]) -> (r: Result<Layout, LayoutError>)
        ensures
            match r {
                Ok(l) => exists|o: int| #[trigger] first_fmap(data@, o)
                    && fmap_layout(l, data@.subrange(o, data@.len() as int))
                    && areas_fit(data@.subrange(o, data@.len() as int)),
                Err(e) => e == LayoutError::InvalidFmapSignature && (no_fmap(data@) || exists|o: int|
                    #[trigger] first_fmap(data@, o) && !areas_fit(data@.subrange(o, data@.len() as int))),
            },
    {
        parse_fmap(data)
    }
}

} // verus!

verus! {

/// Smallest stride of the binary FMAP search.
pub const MIN_STRIDE: u32 = 256;

/// Storage in which an FMAP can be searched: a file buffer or a flash chip.
pub trait FmapSearchable {
    /// The bytes the storage holds.
    spec fn stored(&self) -> Seq<u8>;

    /// The size the storage reports.
    spec fn spec_size(&self) -> u32;

    /// Whether a read of `len` bytes at `offset` succeeds.
    spec fn reads_ok(&self, offset: u32, len: nat) -> bool;

    /// Get the total size of the searchable storage
    fn size(&self) -> (r: u32)
        ensures
            r == self.spec_size(),
    ;

    /// Read data from an offset: it succeeds as `reads_ok` says, with the
    /// stored bytes there.
    fn read_at(&mut self, offset: u32, buf: &mut [u8]) -> (r: Result<(), LayoutError>)
        ensures
            final(buf)@.len() == old(buf)@.len(),
            final(self).stored() == old(self).stored(),
            final(self).spec_size() == old(self).spec_size(),
            forall|o: u32, l: nat| #[trigger] final(self).reads_ok(o, l) == old(self).reads_ok(o, l),
            r is Ok <==> old(self).reads_ok(offset, old(buf)@.len()),
            r is Ok ==> offset + old(buf)@.len() <= old(self).stored().len()
                && final(buf)@ == old(self).stored().subrange(offset as int, offset + old(buf)@.len()),
    ;
}

/// Byte slices (file buffers) are searched in place; a read beyond the end
/// is an I/O error.
impl FmapSearchable for &[u8] {
    open spec fn stored(&self) -> Seq<u8> {
        self@
    }

    open spec fn spec_size(&self) -> u32 {
        self@.len() as u32
    }

    open spec fn reads_ok(&self, offset: u32, len: nat) -> bool {
        offset + len <= self@.len()
    }

    fn size(&self) -> (r: u32) {
        self.len() as u32
    }

    fn read_at(&mut self, offset: u32, buf: &mut [u8]) -> (r: Result<(), LayoutError>)
        ensures
            r is Ok <==> offset + old(buf)@.len() <= old(self)@.len(),
            r is Ok ==> final(buf)@ == old(self)@.subrange(offset as int, offset + old(buf)@.len()),
            *final(self) == *old(self),
            r is Err ==> final(buf)@ == old(buf)@,
    {
        let n = buf.len();
        let len = self.len();
        if offset as usize > len || n > len - offset as usize {
            return Err(LayoutError::IoError);
        }
        let start = offset as usize;
        let mut i: usize = 0;
        while i < n
            invariant
                n == old(buf)@.len(),
                buf@.len() == n,
                start + n <= self@.len(),
                len == self@.len(),
                *self == *old(self),
                i <= n,
                forall|k: int| 0 <= k < i ==> #[trigger] buf@[k] == self@[start + k],
            decreases n - i,
        {
            buf[i] = self[start + i];
            i += 1;
        }
        assert(buf@ =~= self@.subrange(offset as int, offset + n));
        Ok(())
    }
}

/// The bytes `d` hold an FMAP whose areas fit 32 bits, and `l` is its layout.
pub open spec fn fmap_parses_to(d: Seq<u8>, l: Layout) -> bool {
    spec_validate_fmap(d) is Ok && areas_fit(d) && fmap_layout(l, d)
}

/// The result of parsing an FMAP header and its areas from `d`.
pub open spec fn fmap_parse_result(d: Seq<u8>, r: Result<Layout, LayoutError>) -> bool {
    match r {
        Ok(l) => spec_validate_fmap(d) is Ok && areas_fit(d) && fmap_layout(l, d),
        Err(e) => match spec_validate_fmap(d) {
            Err(v) => e == v,
            Ok(_) => !areas_fit(d) && e == LayoutError::InvalidFmapSignature,
        },
    }
}

/// The result of a linear search of `d`: the first FMAP in it parsed, or
/// `InvalidFmapSignature` when there is none.
pub open spec fn linear_search_result(d: Seq<u8>, r: Result<Layout, LayoutError>) -> bool {
    &&& no_fmap(d) ==> r == Err::<Layout, LayoutError>(LayoutError::InvalidFmapSignature)
    &&& forall|o: int| #[trigger] first_fmap(d, o) ==> fmap_parse_result(d.subrange(o, d.len() as int), r)
}

/// The binary search over the whole storage finds no header.
pub open spec fn binary_search_misses<S: FmapSearchable>(st: &S) -> bool {
    st.spec_size() >= FMAP_HEADER_SIZE ==> forall|j: nat, p: int|
        #[trigger] probed(st.spec_size(), 0, st.spec_size(), j, p) ==> !header_found(st, p)
}

/// The binary search over the whole storage finds its first header at `o`.
pub open spec fn binary_search_hits<S: FmapSearchable>(st: &S, o: int) -> bool {
    exists|i: nat| {
        &&& #[trigger] probed(st.spec_size(), 0, st.spec_size(), i, o)
        &&& header_found(st, o)
        &&& forall|j: nat, p: int| #[trigger] probed(st.spec_size(), 0, st.spec_size(), j, p)
            && (j < i || (j == i && p < o)) ==> !header_found(st, p)
    }
}

/// Search for FMAP using binary search followed by linear search
///
/// 1. Binary search at power-of-2 aligned offsets (fast, checks common
///    locations): the FMAP found there is parsed from the 4 KiB read at it.
/// 2. Linear search as fallback: the whole storage is read and the first
///    FMAP in it parsed.
///
/// Works on both file buffers and flash chips through the FmapSearchable trait.
pub fn search_fmap<S: FmapSearchable>(storage: &mut S) -> (r: Result<Layout, LayoutError>)
    ensures
        final(storage).stored() == old(storage).stored(),
        r matches Ok(l) ==> exists|o: int, e: int| 0 <= o <= e <= old(storage).stored().len()
            && #[trigger] fmap_parses_to(old(storage).stored().subrange(o, e), l),
        forall|o: int| #[trigger] binary_search_hits(old(storage), o) && old(storage).reads_ok(o as u32, 4096)
            ==> fmap_parse_result(old(storage).stored().subrange(o, o + 4096), r),
        binary_search_misses(old(storage)) && old(storage).reads_ok(0, old(storage).spec_size() as nat)
            ==> linear_search_result(old(storage).stored().subrange(0, old(storage).spec_size() as int), r),
{
    let ghost st0 = *storage;
    let size = storage.size();
    if let Some(offset) = binary_search_fmap(storage, 0, size)? {
        let mut header: Vec<u8> = vec![0u8; 4096];
        proof {
            assert(binary_search_hits(&st0, offset as int));
            assert forall|o: int| #[trigger] binary_search_hits(&st0, o) implies o == offset by {
                let i = choose|i: nat| {
                    &&& #[trigger] probed(st0.spec_size(), 0, st0.spec_size(), i, o)
                    &&& header_found(&st0, o)
                    &&& forall|j: nat, p: int| #[trigger] probed(st0.spec_size(), 0, st0.spec_size(), j, p)
                        && (j < i || (j == i && p < o)) ==> !header_found(&st0, p)
                };
                let i2 = choose|i: nat| {
                    &&& #[trigger] probed(st0.spec_size(), 0, st0.spec_size(), i, offset as int)
                    &&& header_found(&st0, offset as int)
                    &&& forall|j: nat, p: int| #[trigger] probed(st0.spec_size(), 0, st0.spec_size(), j, p)
                        && (j < i || (j == i && p < offset)) ==> !header_found(&st0, p)
                };
                if i < i2 || (i == i2 && o < offset) {
                    assert(!header_found(&st0, o));
                } else if i2 < i || (i == i2 && offset < o) {
                    assert(!header_found(&st0, offset as int));
                }
            }
        }
        storage.read_at(offset, header.as_mut_slice())?;
        let r = parse_fmap_at(header.as_slice(), 0);
        proof {
            assert(header@.subrange(0, header@.len() as int) =~= header@);
            if r is Ok {
                assert(header@.subrange(0, header@.len() as int) =~= header@);
                assert(fmap_parses_to(header@, r->Ok_0));
                assert(fmap_parses_to(old(storage).stored().subrange(offset as int, offset + 4096), r->Ok_0));
            }
        }
        return r;
    }
    let mut buffer: Vec<u8> = vec![0u8; size as usize];
    proof {
        assert forall|o: int| #[trigger] binary_search_hits(&st0, o) implies false by {
            let i = choose|i: nat| {
                &&& #[trigger] probed(st0.spec_size(), 0, st0.spec_size(), i, o)
                &&& header_found(&st0, o)
                &&& forall|j: nat, p: int| #[trigger] probed(st0.spec_size(), 0, st0.spec_size(), j, p)
                    && (j < i || (j == i && p < o)) ==> !header_found(&st0, p)
            };
        }
    }
    storage.read_at(0, buffer.as_mut_slice())?;
    proof {
        assert(buffer@ =~= st0.stored().subrange(0, size as int));
    }
    match find_fmap(buffer.as_slice()) {
        Some(offset) => {
            let r = parse_fmap_at(buffer.as_slice(), offset);
            proof {
                if r is Ok {
                    assert(fmap_parses_to(buffer@.subrange(offset as int, buffer@.len() as int), r->Ok_0));
                    assert(buffer@.subrange(offset as int, buffer@.len() as int)
                        =~= old(storage).stored().subrange(offset as int, size as int));
                }
            }
            r
        },
        None => Err(LayoutError::InvalidFmapSignature),
    }
}

/// The stride of pass `i` of the binary search over `size` bytes: half
/// the size, halved on each pass.
pub open spec fn search_stride(size: u32, i: nat) -> int
    decreases i,
{
    if i == 0 { size as int / 2 } else { search_stride(size, (i - 1) as nat) / 2 }
}

/// Pass `i` scans offsets: it is reached (the first pass always, later
/// ones while the stride is at least `MIN_STRIDE`), and its stride is
/// positive and at most the searched length.
pub open spec fn pass_scans(size: u32, len: u32, i: nat) -> bool {
    &&& (i == 0 || search_stride(size, i) >= MIN_STRIDE)
    &&& 0 < search_stride(size, i) <= len
}

/// Pass `i` checks offset `p`: a multiple of the stride from `rom_offset`
/// with room for a header before `rom_offset + len`, not checked by a
/// larger stride, and offset 0 only in the first pass that scans.
pub open spec fn probed(size: u32, rom_offset: u32, len: u32, i: nat, p: int) -> bool {
    let s = search_stride(size, i);
    &&& pass_scans(size, len, i)
    &&& rom_offset <= p <= rom_offset + len - FMAP_HEADER_SIZE
    &&& (p - rom_offset) % s == 0
    &&& !(p % (2 * s) == 0 && p != 0)
    &&& p == 0 ==> forall|j: nat| j < i ==> !#[trigger] pass_scans(size, len, j)
}

/// The storage shows an FMAP header at `p`: the signature read there and
/// a valid header read there.
pub open spec fn header_found<S: FmapSearchable>(st: &S, p: int) -> bool {
    &&& st.reads_ok(p as u32, 8)
    &&& st.stored().subrange(p, p + 8) == fmap_signature()
    &&& st.reads_ok(p as u32, FMAP_HEADER_SIZE as nat)
    &&& spec_valid_fmap_header(st.stored().subrange(p, p + FMAP_HEADER_SIZE))
}

/// Strides only shrink.
proof fn lemma_stride_shrinks(size: u32, i: nat, k: nat)
    requires
        i <= k,
    ensures
        search_stride(size, k) <= search_stride(size, i),
        search_stride(size, k) >= 0,
    decreases k,
{
    if k > i {
        lemma_stride_shrinks(size, i, (k - 1) as nat);
    } else if k > 0 {
        lemma_stride_shrinks(size, 0, (k - 1) as nat);
    }
}

/// Binary search for FMAP at power-of-2 aligned offsets
///
/// Strides run from half the storage size down by halves to
/// `MIN_STRIDE`; each stride checks the offsets of `rom_offset..len` at
/// that stride that no larger stride checked (offset 0 once). An offset is
/// taken when the bytes read there start with the FMAP signature and the
/// header read there is valid; a failed read skips the offset. The first
/// such offset, in that order, is returned.
#[verifier::spinoff_prover]
#[verifier::rlimit(40)]
pub fn binary_search_fmap<S: FmapSearchable>(storage: &mut S, rom_offset: u32, len: u32) -> (r: Result<
    Option<u32>,
    LayoutError,
>)
    ensures
        r is Ok,
        rom_offset + len > 0x1_0000_0000 ==> r == Ok::<Option<u32>, LayoutError>(None),
        len < FMAP_HEADER_SIZE ==> r == Ok::<Option<u32>, LayoutError>(None),
        r matches Ok(Some(off)) ==> rom_offset <= off && off + FMAP_HEADER_SIZE <= rom_offset + len
            && off + FMAP_HEADER_SIZE <= old(storage).stored().len()
            && spec_valid_fmap_header(old(storage).stored().subrange(off as int, off + FMAP_HEADER_SIZE)),
        final(storage).stored() == old(storage).stored(),
        final(storage).spec_size() == old(storage).spec_size(),
        forall|o: u32, l: nat| #[trigger] final(storage).reads_ok(o, l) == old(storage).reads_ok(o, l),
        r matches Ok(Some(off)) ==> exists|i: nat| {
            &&& #[trigger] probed(old(storage).spec_size(), rom_offset, len, i, off as int)
            &&& header_found(old(storage), off as int)
            &&& forall|j: nat, p: int| #[trigger] probed(old(storage).spec_size(), rom_offset, len, j, p)
                && (j < i || (j == i && p < off)) ==> !header_found(old(storage), p)
        },
        r matches Ok(None) ==> (rom_offset + len <= old(storage).spec_size() && len >= FMAP_HEADER_SIZE ==> forall|j: nat, p: int|
            #[trigger] probed(old(storage).spec_size(), rom_offset, len, j, p) ==> !header_found(old(storage), p)),
{
    let ghost st0 = *storage;
    let size = storage.size();
    if rom_offset as u64 + len as u64 > size as u64 || (len as usize) < FMAP_HEADER_SIZE {
        return Ok(None);
    }
    let last = rom_offset + len - FMAP_HEADER_SIZE as u32;
    let mut sig_buf: Vec<u8> = vec![0u8; 8];
    let mut header_buf: Vec<u8> = vec![0u8; FMAP_HEADER_SIZE];
    let mut offset_0_checked = false;
    let mut stride: u32 = size / 2;
    let mut more = true;
    let ghost mut pass: nat = 0;
    while more
        invariant
            rom_offset + len <= size,
            len >= FMAP_HEADER_SIZE,
            last == rom_offset + len - FMAP_HEADER_SIZE,
            sig_buf@.len() == 8,
            header_buf@.len() == FMAP_HEADER_SIZE,
            stride <= size / 2,
            size == st0.spec_size(),
            st0 == *old(storage),
            storage.stored() == st0.stored(),
            storage.spec_size() == st0.spec_size(),
            forall|o: u32, l: nat| #[trigger] storage.reads_ok(o, l) == st0.reads_ok(o, l),
            more ==> stride == search_stride(size, pass) && (pass == 0 || stride >= MIN_STRIDE),
            !more ==> forall|k: nat| k >= pass ==> !#[trigger] pass_scans(size, len, k),
            offset_0_checked <==> (rom_offset == 0 && exists|j: nat| j < pass && #[trigger] pass_scans(size, len, j)),
            forall|j: nat, p: int| #[trigger] probed(size, rom_offset, len, j, p) && j < pass
                ==> !header_found(&st0, p),
        decreases stride + (if more { 1int } else { 0int }),
    {
        if stride > 0 && stride <= len {
            assert(pass_scans(size, len, pass));
            let mut offset = rom_offset;
            let mut scanning = true;
            let ghost mut done_upto: int = rom_offset as int;
            let ghost checked_before = offset_0_checked;
            proof {
                vstd::arithmetic::div_mod::lemma_small_mod(0, stride as nat);
            }
            assert((offset - rom_offset) % (stride as int) == 0);
            while scanning && offset <= last
                invariant
                    stride > 0,
                    stride <= len,
                    stride <= size / 2,
                    stride == search_stride(size, pass),
                    pass_scans(size, len, pass),
                    rom_offset <= offset,
                    last == rom_offset + len - FMAP_HEADER_SIZE,
                    rom_offset + len <= size,
                    sig_buf@.len() == 8,
                    header_buf@.len() == FMAP_HEADER_SIZE,
                    size == st0.spec_size(),
                    st0 == *old(storage),
                    storage.stored() == st0.stored(),
                    storage.spec_size() == st0.spec_size(),
                    forall|o: u32, l: nat| #[trigger] storage.reads_ok(o, l) == st0.reads_ok(o, l),
                    (offset - rom_offset) % (stride as int) == 0,
                    scanning ==> done_upto == offset,
                    !scanning ==> done_upto > last,
                    checked_before <==> (rom_offset == 0 && exists|j: nat| j < pass && #[trigger] pass_scans(size, len, j)),
                    offset_0_checked <==> (checked_before || (rom_offset == 0 && done_upto > 0)),
                    forall|j: nat, p: int| #[trigger] probed(size, rom_offset, len, j, p) && j < pass
                        ==> !header_found(&st0, p),
                    forall|p: int| #[trigger] probed(size, rom_offset, len, pass, p) && p < done_upto
                        ==> !header_found(&st0, p),
                decreases (if scanning && offset <= last { last - offset + 1 } else { 0 }),
            {
                let skip = (offset % (stride * 2) == 0 && offset != 0) || (offset == 0 && offset_0_checked);
                proof {
                    if !skip {
                        assert(probed(size, rom_offset, len, pass, offset as int));
                    } else {
                        assert(!probed(size, rom_offset, len, pass, offset as int));
                    }
                }
                if !skip {
                    if offset == 0 {
                        offset_0_checked = true;
                    }
                    let sig_ok = storage.read_at(offset, sig_buf.as_mut_slice()).is_ok();
                    if sig_ok && signature_at(sig_buf.as_slice(), 0) {
                        let header_ok = storage.read_at(offset, header_buf.as_mut_slice()).is_ok();
                        if header_ok && is_valid_fmap_header(header_buf.as_slice()) {
                            proof {
                                assert(sig_buf@.subrange(0, 8) =~= sig_buf@);
                                assert(header_found(&st0, offset as int));
                                assert(probed(size, rom_offset, len, pass, offset as int));
                                assert forall|j: nat, p: int| #[trigger] probed(size, rom_offset, len, j, p)
                                    && (j < pass || (j == pass && p < offset)) implies !header_found(&st0, p) by {}
                                assert(probed(old(storage).spec_size(), rom_offset, len, pass, offset as int));
                                assert(header_found(old(storage), offset as int));
                                assert(forall|j: nat, p: int| #[trigger] probed(old(storage).spec_size(), rom_offset, len, j, p)
                                    && (j < pass || (j == pass && p < offset)) ==> !header_found(old(storage), p));
                                assert(exists|i: nat| {
                                    &&& #[trigger] probed(old(storage).spec_size(), rom_offset, len, i, offset as int)
                                    &&& header_found(old(storage), offset as int)
                                    &&& forall|j: nat, p: int| #[trigger] probed(old(storage).spec_size(), rom_offset, len, j, p)
                                        && (j < i || (j == i && p < offset)) ==> !header_found(old(storage), p)
                                });
                            }
                            let res: Result<Option<u32>, LayoutError> = Ok(Some(offset));
                            assert(res matches Ok(Some(off)) ==> off == offset);
                            assert(res matches Ok(Some(off)) ==> probed(old(storage).spec_size(), rom_offset, len, pass, off as int));
                            assert(res matches Ok(Some(off)) ==> exists|i: nat| {
                                &&& #[trigger] probed(old(storage).spec_size(), rom_offset, len, i, off as int)
                                &&& header_found(old(storage), off as int)
                                &&& forall|j: nat, p: int| #[trigger] probed(old(storage).spec_size(), rom_offset, len, j, p)
                                    && (j < i || (j == i && p < off)) ==> !header_found(old(storage), p)
                            });
                            return res;
                        }
                        proof {
                            if header_ok {
                                assert(!header_found(&st0, offset as int));
                            }
                        }
                    } else {
                        proof {
                            if sig_ok {
                                assert(sig_buf@.subrange(0, 8) =~= sig_buf@);
                            }
                            assert(!header_found(&st0, offset as int));
                        }
                    }
                }
                proof {
                    assert(!probed(size, rom_offset, len, pass, offset as int) || !header_found(&st0, offset as int));
                    assert forall|p: int| #[trigger] probed(size, rom_offset, len, pass, p) && p < offset + stride
                        implies !header_found(&st0, p) by {
                        if p > offset {
                            assert(false) by (nonlinear_arith)
                                requires
                                    (p - rom_offset) % (stride as int) == 0,
                                    (offset - rom_offset) % (stride as int) == 0,
                                    offset < p < offset + stride,
                                    stride > 0,
                            ;
                        }
                    }
                }
                match offset.checked_add(stride) {
                    Some(next) => {
                        proof {
                            vstd::arithmetic::div_mod::lemma_mod_add_multiples_vanish(
                                (offset - rom_offset) as int, stride as int);
                            assert(next - rom_offset == stride + (offset - rom_offset));
                            assert forall|p: int| #[trigger] probed(size, rom_offset, len, pass, p) && p < next
                                implies !header_found(&st0, p) by {
                                if p > offset {
                                    assert((p - rom_offset) % (stride as int) == 0);
                                    assert(false) by (nonlinear_arith)
                                        requires
                                            (p - rom_offset) % (stride as int) == 0,
                                            (offset - rom_offset) % (stride as int) == 0,
                                            offset < p < offset + stride,
                                            stride > 0,
                                    ;
                                }
                            }
                            done_upto = next as int;
                        }
                        offset = next;
                    },
                    None => {
                        proof {
                            done_upto = offset + stride;
                        }
                        scanning = false;
                    },
                }
            }
        }
        proof {
            assert forall|j: nat, p: int| #[trigger] probed(size, rom_offset, len, j, p) && j < pass + 1
                implies !header_found(&st0, p) by {
                if j == pass && pass_scans(size, len, pass) {
                    assert(p <= last);
                }
            }
        }
        let next = stride / 2;
        proof {
            if offset_0_checked {
            }
        }
        if next >= MIN_STRIDE {
            stride = next;
        } else {
            more = false;
            proof {
                assert forall|k: nat| k >= pass + 1 implies !#[trigger] pass_scans(size, len, k) by {
                    lemma_stride_shrinks(size, pass + 1, k);
                }
            }
        }
        proof {
            pass = pass + 1;
        }
    }
    Ok(None)
}

} // verus!
