//! Chip database: the known flash chips and their lookup.
use vstd::prelude::*;
use super::types::FlashChip;
use super::features::Features;
use crate::chip_defs::{chip_def_fits, flag, flag_bits, flash_chip_of, VendorDef};
pub use crate::chip_defs::Size;

verus! {

/// Runtime chip database: a collection of flash chip definitions.
#[derive(Debug, Clone)]
pub struct ChipDatabase {
    chips: Vec<FlashChip>,
}

/// `s` lower-cased (Unicode-aware, as `str::to_lowercase` does).
pub uninterp spec fn spec_to_lowercase(s: Seq<char>) -> Seq<char>;

/// `pattern` occurs in `s` as a contiguous run of characters.
pub open spec fn spec_contains_str(s: Seq<char>, pattern: Seq<char>) -> bool {
    exists|i: int| 0 <= i <= s.len() - pattern.len() && #[trigger] s.subrange(i, i + pattern.len()) == pattern
}

/// The character lower-cased as ASCII: `A`..`Z` become `a`..`z`.
pub open spec fn ascii_lower_char(c: char) -> char {
    if 'A' <= c <= 'Z' { ((c as u32) + 32) as char } else { c }
}

/// Every character is ASCII.
pub open spec fn all_ascii_chars(s: Seq<char>) -> bool {
    forall|i: int| 0 <= i < s.len() ==> (#[trigger] s[i] as u32) < 128
}

/// `str::to_lowercase`: the lower-case form of `s`, a function of `s` alone;
/// for ASCII text, each letter lower-cased as ASCII and every other
/// character kept.
#[verifier::external_body]
pub(crate) fn to_lowercase(s: &str) -> (r: String)
    ensures
        r@ == spec_to_lowercase(s@),
        all_ascii_chars(s@) ==> r@ == s@.map_values(|c: char| ascii_lower_char(c)),
{
    s.to_lowercase()
}

/// `str::contains` with a string pattern: whether `pattern` occurs in `s`.
#[verifier::external_body]
fn str_contains(s: &str, pattern: &str) -> (r: bool)
    ensures
        r == spec_contains_str(s@, pattern@),
{
    s.contains(pattern)
}

/// The name (or vendor) `field` matches `query` case-insensitively: the
/// lower-cased query occurs in the lower-cased field.
pub open spec fn matches_ignoring_case(field: Seq<char>, query: Seq<char>) -> bool {
    spec_contains_str(spec_to_lowercase(field), spec_to_lowercase(query))
}

impl ChipDatabase {
    /// The chips, in the order they were added.
    pub closed spec fn spec_chips(self) -> Seq<FlashChip> {
        self.chips@
    }

    /// Create an empty chip database
    pub fn new() -> (r: ChipDatabase)
        ensures
            r.spec_chips() == Seq::<FlashChip>::empty(),
    {
        ChipDatabase { chips: Vec::new() }
    }

    /// Add chips at the end of the database; returns how many were added.
    pub fn add_chips(&mut self, chips: Vec<FlashChip>) -> (r: usize)
        ensures
            r == chips@.len(),
            final(self).spec_chips() == old(self).spec_chips() + chips@,
    {
        let n = chips.len();
        let mut chips = chips;
        self.chips.append(&mut chips);
        n
    }

    /// Get all chips in the database
    pub fn chips(&self) -> (r: &[FlashChip])
        ensures
            r@ == self.spec_chips(),
    {
        self.chips.as_slice()
    }

    /// Get the number of chips in the database
    pub fn len(&self) -> (r: usize)
        ensures
            r == self.spec_chips().len(),
    {
        self.chips.len()
    }

    /// Check if the database is empty
    pub fn is_empty(&self) -> (r: bool)
        ensures
            r == (self.spec_chips().len() == 0),
    {
        self.chips.len() == 0
    }

    /// Find the first chip with the given JEDEC ID
    pub fn find_by_jedec_id(&self, manufacturer: u8, device: u16) -> (r: Option<&FlashChip>)
        ensures
            r is None <==> forall|i: int| 0 <= i < self.spec_chips().len()
                ==> !(#[trigger] self.spec_chips()[i].jedec_manufacturer == manufacturer
                    && self.spec_chips()[i].jedec_device == device),
            r matches Some(c) ==> exists|i: int| 0 <= i < self.spec_chips().len()
                && *c == #[trigger] self.spec_chips()[i]
                && c.jedec_manufacturer == manufacturer && c.jedec_device == device
                && forall|j: int| 0 <= j < i ==> !(#[trigger] self.spec_chips()[j].jedec_manufacturer == manufacturer
                    && self.spec_chips()[j].jedec_device == device),
    {
        let mut i: usize = 0;
        while i < self.chips.len()
            invariant
                i <= self.chips@.len(),
                forall|j: int| 0 <= j < i ==> !(#[trigger] self.chips@[j].jedec_manufacturer == manufacturer
                    && self.chips@[j].jedec_device == device),
            decreases self.chips@.len() - i,
        {
            if self.chips[i].matches_jedec_id(manufacturer, device) {
                return Some(&self.chips[i]);
            }
            i = i + 1;
        }
        None
    }

    /// Find chips by name (case-insensitive partial match), in database order
    pub fn find_by_name(&self, chip_name: &str) -> (r: Vec<&FlashChip>)
        ensures
            forall|k: int| 0 <= k < r@.len() ==> found_in(self.spec_chips(), *#[trigger] r@[k], chip_name@, false),
            r@.len() == count_matching(self.spec_chips(), chip_name@, false),
    {
        self.find_matching(chip_name, false)
    }

    /// Find chips by vendor (case-insensitive partial match), in database order
    pub fn find_by_vendor(&self, vendor: &str) -> (r: Vec<&FlashChip>)
        ensures
            forall|k: int| 0 <= k < r@.len() ==> found_in(self.spec_chips(), *#[trigger] r@[k], vendor@, true),
            r@.len() == count_matching(self.spec_chips(), vendor@, true),
    {
        self.find_matching(vendor, true)
    }

    fn find_matching(&self, query: &str, by_vendor: bool) -> (r: Vec<&FlashChip>)
        ensures
            forall|k: int| 0 <= k < r@.len() ==> found_in(self.spec_chips(), *#[trigger] r@[k], query@, by_vendor),
            r@.len() == count_matching(self.spec_chips(), query@, by_vendor),
    {
        let lower_query = to_lowercase(query);
        let mut out: Vec<&FlashChip> = Vec::new();
        let mut i: usize = 0;
        while i < self.chips.len()
            invariant
                i <= self.chips@.len(),
                lower_query@ == spec_to_lowercase(query@),
                forall|k: int| 0 <= k < out@.len() ==> found_in(self.spec_chips(), *#[trigger] out@[k], query@, by_vendor),
                out@.len() == count_matching(self.chips@.take(i as int), query@, by_vendor),
            decreases self.chips@.len() - i,
        {
            assert(self.chips@.take(i + 1).drop_last() =~= self.chips@.take(i as int));
            let chip = &self.chips[i];
            let field = if by_vendor { chip.vendor.as_str() } else { chip.name.as_str() };
            let lower = to_lowercase(field);
            let ghost old_out = out@;
            if str_contains(lower.as_str(), lower_query.as_str()) {
                out.push(chip);
                assert forall|k: int| 0 <= k < out@.len() implies found_in(self.spec_chips(), *#[trigger] out@[k], query@, by_vendor) by {
                    if k < old_out.len() {
                        assert(out@[k] == old_out[k]);
                    } else {
                        assert(*out@[k] == self.spec_chips()[i as int]);
                    }
                }
            }
            i = i + 1;
        }
        assert(self.chips@.take(i as int) =~= self.chips@);
        out
    }
}

/// `c` is one of `chips` whose vendor (`by_vendor`) or name matches `query`.
pub open spec fn found_in(chips: Seq<FlashChip>, c: FlashChip, query: Seq<char>, by_vendor: bool) -> bool {
    exists|i: int| 0 <= i < chips.len() && c == chips[i] && matches_ignoring_case(chip_field(chips[i], by_vendor), query)
}

/// The vendor (`by_vendor`) or the name of a chip.
pub open spec fn chip_field(chip: FlashChip, by_vendor: bool) -> Seq<char> {
    if by_vendor { chip.vendor@ } else { chip.name@ }
}

/// How many chips' vendor or name fields match `query` case-insensitively.
pub open spec fn count_matching(chips: Seq<FlashChip>, query: Seq<char>, by_vendor: bool) -> nat
    decreases chips.len(),
{
    if chips.len() == 0 {
        0
    } else {
        count_matching(chips.drop_last(), query, by_vendor)
            + if matches_ignoring_case(chip_field(chips.last(), by_vendor), query) { 1nat } else { 0nat }
    }
}

} // verus!

verus! {

/// Feature flags of a chip as a database file states them, one switch per
/// feature.
#[derive(Debug, Clone, Copy, Default)]
pub struct FeaturesDef {
    /// The chip has the `WRSR_WREN` feature.
    pub wrsr_wren: bool,
    /// The chip has the `WRSR_EWSR` feature.
    pub wrsr_ewsr: bool,
    /// The chip has the `WRSR_EXT` feature.
    pub wrsr_ext: bool,
    /// The chip has the `FAST_READ` feature.
    pub fast_read: bool,
    /// The chip has the `DUAL_IO` feature.
    pub dual_io: bool,
    /// The chip has the `QUAD_IO` feature.
    pub quad_io: bool,
    /// The chip has the `FOUR_BYTE_ADDR` feature.
    pub four_byte_addr: bool,
    /// The chip has the `FOUR_BYTE_ENTER` feature.
    pub four_byte_enter: bool,
    /// The chip has the `FOUR_BYTE_NATIVE` feature.
    pub four_byte_native: bool,
    /// The chip has the `EXT_ADDR_REG` feature.
    pub ext_addr_reg: bool,
    /// The chip has the `OTP` feature.
    pub otp: bool,
    /// The chip has the `QPI` feature.
    pub qpi: bool,
    /// The chip has the `SECURITY_REG` feature.
    pub security_reg: bool,
    /// The chip has the `SFDP` feature.
    pub sfdp: bool,
    /// The chip has the `WRITE_BYTE` feature.
    pub write_byte: bool,
    /// The chip has the `AAI_WORD` feature.
    pub aai_word: bool,
    /// The chip has the `ERASE_4K` feature.
    pub erase_4k: bool,
    /// The chip has the `ERASE_32K` feature.
    pub erase_32k: bool,
    /// The chip has the `ERASE_64K` feature.
    pub erase_64k: bool,
    /// The chip has the `STATUS_REG_2` feature.
    pub status_reg_2: bool,
    /// The chip has the `STATUS_REG_3` feature.
    pub status_reg_3: bool,
    /// The chip has the `QE_SR2` feature.
    pub qe_sr2: bool,
    /// The chip has the `DEEP_POWER_DOWN` feature.
    pub deep_power_down: bool,
    /// The chip has the `WP_TB` feature.
    pub wp_tb: bool,
    /// The chip has the `WP_SEC` feature.
    pub wp_sec: bool,
    /// The chip has the `WP_CMP` feature.
    pub wp_cmp: bool,
}

/// The feature bits that the switches of `d` turn on.
pub open spec fn db_feature_bits(d: FeaturesDef) -> u64 {
    let b0: u64 = 0u64;
    let b1: u64 = b0 | flag(d.wrsr_wren, Features::WRSR_WREN);
    let b2: u64 = b1 | flag(d.wrsr_ewsr, Features::WRSR_EWSR);
    let b3: u64 = b2 | flag(d.wrsr_ext, Features::WRSR_EXT);
    let b4: u64 = b3 | flag(d.fast_read, Features::FAST_READ);
    let b5: u64 = b4 | flag(d.dual_io, Features::DUAL_IO);
    let b6: u64 = b5 | flag(d.quad_io, Features::QUAD_IO);
    let b7: u64 = b6 | flag(d.four_byte_addr, Features::FOUR_BYTE_ADDR);
    let b8: u64 = b7 | flag(d.four_byte_enter, Features::FOUR_BYTE_ENTER);
    let b9: u64 = b8 | flag(d.four_byte_native, Features::FOUR_BYTE_NATIVE);
    let b10: u64 = b9 | flag(d.ext_addr_reg, Features::EXT_ADDR_REG);
    let b11: u64 = b10 | flag(d.otp, Features::OTP);
    let b12: u64 = b11 | flag(d.qpi, Features::QPI);
    let b13: u64 = b12 | flag(d.security_reg, Features::SECURITY_REG);
    let b14: u64 = b13 | flag(d.sfdp, Features::SFDP);
    let b15: u64 = b14 | flag(d.write_byte, Features::WRITE_BYTE);
    let b16: u64 = b15 | flag(d.aai_word, Features::AAI_WORD);
    let b17: u64 = b16 | flag(d.erase_4k, Features::ERASE_4K);
    let b18: u64 = b17 | flag(d.erase_32k, Features::ERASE_32K);
    let b19: u64 = b18 | flag(d.erase_64k, Features::ERASE_64K);
    let b20: u64 = b19 | flag(d.status_reg_2, Features::STATUS_REG_2);
    let b21: u64 = b20 | flag(d.status_reg_3, Features::STATUS_REG_3);
    let b22: u64 = b21 | flag(d.qe_sr2, Features::QE_SR2);
    let b23: u64 = b22 | flag(d.deep_power_down, Features::DEEP_POWER_DOWN);
    let b24: u64 = b23 | flag(d.wp_tb, Features::WP_TB);
    let b25: u64 = b24 | flag(d.wp_sec, Features::WP_SEC);
    let b26: u64 = b25 | flag(d.wp_cmp, Features::WP_CMP);
    b26
}

/// Each switch of a chip definition turns on its own feature flag and no
/// other: a flag is in the loaded features exactly when its switch is set.
pub proof fn lemma_db_feature_bits(d: FeaturesDef)
    ensures
        (db_feature_bits(d) & Features::WRSR_WREN != 0) == d.wrsr_wren,
        (db_feature_bits(d) & Features::WRSR_EWSR != 0) == d.wrsr_ewsr,
        (db_feature_bits(d) & Features::WRSR_EXT != 0) == d.wrsr_ext,
        (db_feature_bits(d) & Features::FAST_READ != 0) == d.fast_read,
        (db_feature_bits(d) & Features::DUAL_IO != 0) == d.dual_io,
        (db_feature_bits(d) & Features::QUAD_IO != 0) == d.quad_io,
        (db_feature_bits(d) & Features::FOUR_BYTE_ADDR != 0) == d.four_byte_addr,
        (db_feature_bits(d) & Features::FOUR_BYTE_ENTER != 0) == d.four_byte_enter,
        (db_feature_bits(d) & Features::FOUR_BYTE_NATIVE != 0) == d.four_byte_native,
        (db_feature_bits(d) & Features::EXT_ADDR_REG != 0) == d.ext_addr_reg,
        (db_feature_bits(d) & Features::OTP != 0) == d.otp,
        (db_feature_bits(d) & Features::QPI != 0) == d.qpi,
        (db_feature_bits(d) & Features::SECURITY_REG != 0) == d.security_reg,
        (db_feature_bits(d) & Features::SFDP != 0) == d.sfdp,
        (db_feature_bits(d) & Features::WRITE_BYTE != 0) == d.write_byte,
        (db_feature_bits(d) & Features::AAI_WORD != 0) == d.aai_word,
        (db_feature_bits(d) & Features::ERASE_4K != 0) == d.erase_4k,
        (db_feature_bits(d) & Features::ERASE_32K != 0) == d.erase_32k,
        (db_feature_bits(d) & Features::ERASE_64K != 0) == d.erase_64k,
        (db_feature_bits(d) & Features::STATUS_REG_2 != 0) == d.status_reg_2,
        (db_feature_bits(d) & Features::STATUS_REG_3 != 0) == d.status_reg_3,
        (db_feature_bits(d) & Features::QE_SR2 != 0) == d.qe_sr2,
        (db_feature_bits(d) & Features::DEEP_POWER_DOWN != 0) == d.deep_power_down,
        (db_feature_bits(d) & Features::WP_TB != 0) == d.wp_tb,
        (db_feature_bits(d) & Features::WP_SEC != 0) == d.wp_sec,
        (db_feature_bits(d) & Features::WP_CMP != 0) == d.wp_cmp,
{
    let a0: bool = d.wrsr_wren;
    let g0: u64 = flag(a0, Features::WRSR_WREN);
    let a1: bool = d.wrsr_ewsr;
    let g1: u64 = flag(a1, Features::WRSR_EWSR);
    let a2: bool = d.wrsr_ext;
    let g2: u64 = flag(a2, Features::WRSR_EXT);
    let a3: bool = d.fast_read;
    let g3: u64 = flag(a3, Features::FAST_READ);
    let a4: bool = d.dual_io;
    let g4: u64 = flag(a4, Features::DUAL_IO);
    let a5: bool = d.quad_io;
    let g5: u64 = flag(a5, Features::QUAD_IO);
    let a6: bool = d.four_byte_addr;
    let g6: u64 = flag(a6, Features::FOUR_BYTE_ADDR);
    let a7: bool = d.four_byte_enter;
    let g7: u64 = flag(a7, Features::FOUR_BYTE_ENTER);
    let a8: bool = d.four_byte_native;
    let g8: u64 = flag(a8, Features::FOUR_BYTE_NATIVE);
    let a9: bool = d.ext_addr_reg;
    let g9: u64 = flag(a9, Features::EXT_ADDR_REG);
    let a10: bool = d.otp;
    let g10: u64 = flag(a10, Features::OTP);
    let a11: bool = d.qpi;
    let g11: u64 = flag(a11, Features::QPI);
    let a12: bool = d.security_reg;
    let g12: u64 = flag(a12, Features::SECURITY_REG);
    let a13: bool = d.sfdp;
    let g13: u64 = flag(a13, Features::SFDP);
    let a14: bool = d.write_byte;
    let g14: u64 = flag(a14, Features::WRITE_BYTE);
    let a15: bool = d.aai_word;
    let g15: u64 = flag(a15, Features::AAI_WORD);
    let a16: bool = d.erase_4k;
    let g16: u64 = flag(a16, Features::ERASE_4K);
    let a17: bool = d.erase_32k;
    let g17: u64 = flag(a17, Features::ERASE_32K);
    let a18: bool = d.erase_64k;
    let g18: u64 = flag(a18, Features::ERASE_64K);
    let a19: bool = d.status_reg_2;
    let g19: u64 = flag(a19, Features::STATUS_REG_2);
    let a20: bool = d.status_reg_3;
    let g20: u64 = flag(a20, Features::STATUS_REG_3);
    let a21: bool = d.qe_sr2;
    let g21: u64 = flag(a21, Features::QE_SR2);
    let a22: bool = d.deep_power_down;
    let g22: u64 = flag(a22, Features::DEEP_POWER_DOWN);
    let a23: bool = d.wp_tb;
    let g23: u64 = flag(a23, Features::WP_TB);
    let a24: bool = d.wp_sec;
    let g24: u64 = flag(a24, Features::WP_SEC);
    let a25: bool = d.wp_cmp;
    let g25: u64 = flag(a25, Features::WP_CMP);
    let x: u64 = db_feature_bits(d);
    assert((g0 == if a0 { Features::WRSR_WREN } else { 0u64 }) &&
        (g1 == if a1 { Features::WRSR_EWSR } else { 0u64 }) &&
        (g2 == if a2 { Features::WRSR_EXT } else { 0u64 }) &&
        (g3 == if a3 { Features::FAST_READ } else { 0u64 }) &&
        (g4 == if a4 { Features::DUAL_IO } else { 0u64 }) &&
        (g5 == if a5 { Features::QUAD_IO } else { 0u64 }) &&
        (g6 == if a6 { Features::FOUR_BYTE_ADDR } else { 0u64 }) &&
        (g7 == if a7 { Features::FOUR_BYTE_ENTER } else { 0u64 }) &&
        (g8 == if a8 { Features::FOUR_BYTE_NATIVE } else { 0u64 }) &&
        (g9 == if a9 { Features::EXT_ADDR_REG } else { 0u64 }) &&
        (g10 == if a10 { Features::OTP } else { 0u64 }) &&
        (g11 == if a11 { Features::QPI } else { 0u64 }) &&
        (g12 == if a12 { Features::SECURITY_REG } else { 0u64 }) &&
        (g13 == if a13 { Features::SFDP } else { 0u64 }) &&
        (g14 == if a14 { Features::WRITE_BYTE } else { 0u64 }) &&
        (g15 == if a15 { Features::AAI_WORD } else { 0u64 }) &&
        (g16 == if a16 { Features::ERASE_4K } else { 0u64 }) &&
        (g17 == if a17 { Features::ERASE_32K } else { 0u64 }) &&
        (g18 == if a18 { Features::ERASE_64K } else { 0u64 }) &&
        (g19 == if a19 { Features::STATUS_REG_2 } else { 0u64 }) &&
        (g20 == if a20 { Features::STATUS_REG_3 } else { 0u64 }) &&
        (g21 == if a21 { Features::QE_SR2 } else { 0u64 }) &&
        (g22 == if a22 { Features::DEEP_POWER_DOWN } else { 0u64 }) &&
        (g23 == if a23 { Features::WP_TB } else { 0u64 }) &&
        (g24 == if a24 { Features::WP_SEC } else { 0u64 }) &&
        (g25 == if a25 { Features::WP_CMP } else { 0u64 })) by {
        reveal(flag);
    }
    assert(x == 0u64 | g0 | g1 | g2 | g3 | g4 | g5 | g6 | g7 | g8 | g9 | g10 | g11 | g12 | g13 | g14 | g15 | g16 | g17 | g18 | g19 | g20 | g21 | g22 | g23 | g24 | g25);
    assert(((x & Features::WRSR_WREN != 0) == a0) &&
            ((x & Features::WRSR_EWSR != 0) == a1) &&
            ((x & Features::WRSR_EXT != 0) == a2) &&
            ((x & Features::FAST_READ != 0) == a3) &&
            ((x & Features::DUAL_IO != 0) == a4) &&
            ((x & Features::QUAD_IO != 0) == a5) &&
            ((x & Features::FOUR_BYTE_ADDR != 0) == a6) &&
            ((x & Features::FOUR_BYTE_ENTER != 0) == a7) &&
            ((x & Features::FOUR_BYTE_NATIVE != 0) == a8) &&
            ((x & Features::EXT_ADDR_REG != 0) == a9) &&
            ((x & Features::OTP != 0) == a10) &&
            ((x & Features::QPI != 0) == a11) &&
            ((x & Features::SECURITY_REG != 0) == a12) &&
            ((x & Features::SFDP != 0) == a13) &&
            ((x & Features::WRITE_BYTE != 0) == a14) &&
            ((x & Features::AAI_WORD != 0) == a15) &&
            ((x & Features::ERASE_4K != 0) == a16) &&
            ((x & Features::ERASE_32K != 0) == a17) &&
            ((x & Features::ERASE_64K != 0) == a18) &&
            ((x & Features::STATUS_REG_2 != 0) == a19) &&
            ((x & Features::STATUS_REG_3 != 0) == a20) &&
            ((x & Features::QE_SR2 != 0) == a21) &&
            ((x & Features::DEEP_POWER_DOWN != 0) == a22) &&
            ((x & Features::WP_TB != 0) == a23) &&
            ((x & Features::WP_SEC != 0) == a24) &&
            ((x & Features::WP_CMP != 0) == a25)) by (bit_vector)
        requires
            x == 0u64 | g0 | g1 | g2 | g3 | g4 | g5 | g6 | g7 | g8 | g9 | g10 | g11 | g12 | g13 | g14 | g15 | g16 | g17 | g18 | g19 | g20 | g21 | g22 | g23 | g24 | g25,
            g0 == if a0 { Features::WRSR_WREN } else { 0u64 },
            g1 == if a1 { Features::WRSR_EWSR } else { 0u64 },
            g2 == if a2 { Features::WRSR_EXT } else { 0u64 },
            g3 == if a3 { Features::FAST_READ } else { 0u64 },
            g4 == if a4 { Features::DUAL_IO } else { 0u64 },
            g5 == if a5 { Features::QUAD_IO } else { 0u64 },
            g6 == if a6 { Features::FOUR_BYTE_ADDR } else { 0u64 },
            g7 == if a7 { Features::FOUR_BYTE_ENTER } else { 0u64 },
            g8 == if a8 { Features::FOUR_BYTE_NATIVE } else { 0u64 },
            g9 == if a9 { Features::EXT_ADDR_REG } else { 0u64 },
            g10 == if a10 { Features::OTP } else { 0u64 },
            g11 == if a11 { Features::QPI } else { 0u64 },
            g12 == if a12 { Features::SECURITY_REG } else { 0u64 },
            g13 == if a13 { Features::SFDP } else { 0u64 },
            g14 == if a14 { Features::WRITE_BYTE } else { 0u64 },
            g15 == if a15 { Features::AAI_WORD } else { 0u64 },
            g16 == if a16 { Features::ERASE_4K } else { 0u64 },
            g17 == if a17 { Features::ERASE_32K } else { 0u64 },
            g18 == if a18 { Features::ERASE_64K } else { 0u64 },
            g19 == if a19 { Features::STATUS_REG_2 } else { 0u64 },
            g20 == if a20 { Features::STATUS_REG_3 } else { 0u64 },
            g21 == if a21 { Features::QE_SR2 } else { 0u64 },
            g22 == if a22 { Features::DEEP_POWER_DOWN } else { 0u64 },
            g23 == if a23 { Features::WP_TB } else { 0u64 },
            g24 == if a24 { Features::WP_SEC } else { 0u64 },
            g25 == if a25 { Features::WP_CMP } else { 0u64 },
    ;
}

/// The `Features` that the switches of `def` turn on.
pub fn features_from_db_def(def: FeaturesDef) -> (r: Features)
    ensures
        r.bits == db_feature_bits(def),
{
    let d = def;
    let mut b: u64 = 0u64;
    b = b | flag_bits(d.wrsr_wren, Features::WRSR_WREN);
    b = b | flag_bits(d.wrsr_ewsr, Features::WRSR_EWSR);
    b = b | flag_bits(d.wrsr_ext, Features::WRSR_EXT);
    b = b | flag_bits(d.fast_read, Features::FAST_READ);
    b = b | flag_bits(d.dual_io, Features::DUAL_IO);
    b = b | flag_bits(d.quad_io, Features::QUAD_IO);
    b = b | flag_bits(d.four_byte_addr, Features::FOUR_BYTE_ADDR);
    b = b | flag_bits(d.four_byte_enter, Features::FOUR_BYTE_ENTER);
    b = b | flag_bits(d.four_byte_native, Features::FOUR_BYTE_NATIVE);
    b = b | flag_bits(d.ext_addr_reg, Features::EXT_ADDR_REG);
    b = b | flag_bits(d.otp, Features::OTP);
    b = b | flag_bits(d.qpi, Features::QPI);
    b = b | flag_bits(d.security_reg, Features::SECURITY_REG);
    b = b | flag_bits(d.sfdp, Features::SFDP);
    b = b | flag_bits(d.write_byte, Features::WRITE_BYTE);
    b = b | flag_bits(d.aai_word, Features::AAI_WORD);
    b = b | flag_bits(d.erase_4k, Features::ERASE_4K);
    b = b | flag_bits(d.erase_32k, Features::ERASE_32K);
    b = b | flag_bits(d.erase_64k, Features::ERASE_64K);
    b = b | flag_bits(d.status_reg_2, Features::STATUS_REG_2);
    b = b | flag_bits(d.status_reg_3, Features::STATUS_REG_3);
    b = b | flag_bits(d.qe_sr2, Features::QE_SR2);
    b = b | flag_bits(d.deep_power_down, Features::DEEP_POWER_DOWN);
    b = b | flag_bits(d.wp_tb, Features::WP_TB);
    b = b | flag_bits(d.wp_sec, Features::WP_SEC);
    b = b | flag_bits(d.wp_cmp, Features::WP_CMP);
    Features::from_bits_retain(b)
}

impl From<FeaturesDef> for Features {
    fn from(def: FeaturesDef) -> (r: Features) {
        features_from_db_def(def)
    }
}

impl vstd::std_specs::convert::FromSpecImpl<FeaturesDef> for Features {
    open spec fn obeys_from_spec() -> bool {
        true
    }

    open spec fn from_spec(v: FeaturesDef) -> Features {
        Features { bits: db_feature_bits(v) }
    }
}

impl ChipDatabase {
    /// Add the chips of a vendor definition; returns how many were added.
    pub fn load_vendor(&mut self, vendor: &VendorDef) -> (r: usize)
        requires
            forall|i: int| 0 <= i < vendor.chips@.len() ==> chip_def_fits(#[trigger] vendor.chips@[i]),
        ensures
            r == vendor.chips@.len(),
            final(self).spec_chips().len() == old(self).spec_chips().len() + vendor.chips@.len(),
            forall|i: int| 0 <= i < old(self).spec_chips().len() ==> #[trigger] final(self).spec_chips()[i]
                == old(self).spec_chips()[i],
            forall|i: int| 0 <= i < vendor.chips@.len() ==> flash_chip_of(
                #[trigger] vendor.chips@[i],
                vendor.vendor@,
                vendor.manufacturer_id,
                final(self).spec_chips()[old(self).spec_chips().len() + i],
            ),
    {
        let ghost start = self.chips@.len();
        let mut i: usize = 0;
        while i < vendor.chips.len()
            invariant
                i <= vendor.chips@.len(),
                forall|k: int| 0 <= k < vendor.chips@.len() ==> chip_def_fits(#[trigger] vendor.chips@[k]),
                start == old(self).spec_chips().len(),
                self.chips@.len() == start + i,
                forall|k: int| 0 <= k < start ==> #[trigger] self.chips@[k] == old(self).spec_chips()[k],
                forall|k: int| 0 <= k < i ==> flash_chip_of(
                    #[trigger] vendor.chips@[k],
                    vendor.vendor@,
                    vendor.manufacturer_id,
                    self.chips@[start + k],
                ),
            decreases vendor.chips@.len() - i,
        {
            let chip = vendor.chips[i].to_flash_chip(vendor.vendor.as_str(), vendor.manufacturer_id);
            let ghost before = self.chips@;
            self.chips.push(chip);
            proof {
                assert forall|k: int| 0 <= k < i + 1 implies flash_chip_of(
                    #[trigger] vendor.chips@[k],
                    vendor.vendor@,
                    vendor.manufacturer_id,
                    self.chips@[start + k],
                ) by {
                    if k < i {
                        assert(self.chips@[start + k] == before[start + k]);
                    }
                }
            }
            i += 1;
        }
        i
    }
}

} // verus!
