//! Intel Flash Descriptor (IFD) parsing.
//!
//! The descriptor sits at the start of the flash of Intel platforms (its
//! signature at offset 0, or at 0x10 on PCHs that shift it by one dword)
//! and describes the flash regions through its FLREG registers.
use vstd::prelude::*;
use super::fmap::{index_seq, le32_at};
use super::types::{stably_sorted_by_start, Layout, LayoutError, LayoutSource, Region};

verus! {

/// Intel Flash Descriptor signature.
pub const IFD_SIGNATURE: u32 = 0x0FF0_A55A;
/// Maximum number of IFD regions.
pub const MAX_IFD_REGIONS: usize = 16;
/// Offset of the flash descriptor upper map.
pub const UPPER_MAP_OFFSET: usize = 0xEFC;

/// IFD families that differ in region count or region naming.
#[derive(Clone, Copy, Debug, PartialEq, Eq, Structural)]
pub enum IfdGeneration {
    /// ICH and early PCH descriptors; the region count comes from NR.
    Legacy,
    /// Lynx Point and Wildcat Point; the region count comes from NR.
    LynxPoint,
    /// Sunrise Point and compatible: ten regions.
    SunrisePoint,
    /// Apollo Lake and relatives: six regions, IFWI naming.
    SixRegions,
    /// Sixteen regions with IFWI naming.
    IfwiSixteenRegions,
    /// Server PCHs: sixteen regions with server naming.
    Server,
    /// Lunar Lake and Panther Lake: sixteen regions.
    LunarOrPantherLake,
    /// Cannon Point and later: sixteen regions.
    SixteenRegions,
}

/// The generation that the descriptor fields FLMAP1, FLMAP2 and FLUMAP1
/// indicate (the NR field became reserved with Sunrise Point, so it cannot
/// decide the region count of Skylake and newer PCHs).
pub open spec fn spec_guess_generation(flmap1: u32, flmap2: u32, flumap1: u32) -> IfdGeneration {
    let nm = (flmap1 >> 8u32) & 7u32;
    let isl = flmap1 >> 24u32;
    let fmsba = flmap2 & 0xffu32;
    let msl = (flmap2 >> 8u32) & 0xffu32;
    let iccriba = (flmap2 >> 16u32) & 0xffu32;
    let mdtba = flumap1 >> 24u32;
    if iccriba == 0 {
        if isl <= 16 {
            IfdGeneration::Legacy
        } else if flmap2 == 0 {
            IfdGeneration::SixRegions
        } else if isl < 0x50 {
            IfdGeneration::Legacy
        } else if nm == 6 {
            IfdGeneration::Server
        } else {
            IfdGeneration::SixteenRegions
        }
    } else if mdtba == 0 {
        if iccriba < 0x31 && fmsba < 0x30 {
            if (msl == 0 && isl <= 17) || (msl <= 1 && isl <= 18) {
                IfdGeneration::Legacy
            } else {
                IfdGeneration::LynxPoint
            }
        } else if nm == 6 {
            IfdGeneration::Server
        } else {
            IfdGeneration::SunrisePoint
        }
    } else if flmap2 == u32::MAX {
        IfdGeneration::SixteenRegions
    } else {
        let cssl = (flmap2 >> 16u32) & 0xffu32;
        let csso = (flmap2 >> 2u32) & 0x3ffu32;
        if cssl == 3 && csso == 0x58 {
            IfdGeneration::IfwiSixteenRegions
        } else if cssl == 3 && (csso == 0x60 || (csso == 0x70 && (isl == 0x7d || isl == 0x7e))) {
            IfdGeneration::LunarOrPantherLake
        } else {
            IfdGeneration::SixteenRegions
        }
    }
}

/// Infer the descriptor generation from FLMAP1, FLMAP2 and FLUMAP1.
pub fn guess_ifd_generation(flmap1: u32, flmap2: u32, flumap1: u32) -> (r: IfdGeneration)
    ensures
        r == spec_guess_generation(flmap1, flmap2, flumap1),
{
    let nm = (flmap1 >> 8u32) & 7u32;
    let isl = flmap1 >> 24u32;
    let fmsba = flmap2 & 0xffu32;
    let msl = (flmap2 >> 8u32) & 0xffu32;
    let iccriba = (flmap2 >> 16u32) & 0xffu32;
    let mdtba = flumap1 >> 24u32;
    if iccriba == 0 {
        if isl <= 16 {
            IfdGeneration::Legacy
        } else if flmap2 == 0 {
            IfdGeneration::SixRegions
        } else if isl < 0x50 {
            IfdGeneration::Legacy
        } else if nm == 6 {
            IfdGeneration::Server
        } else {
            IfdGeneration::SixteenRegions
        }
    } else if mdtba == 0 {
        if iccriba < 0x31 && fmsba < 0x30 {
            if (msl == 0 && isl <= 17) || (msl <= 1 && isl <= 18) {
                IfdGeneration::Legacy
            } else {
                IfdGeneration::LynxPoint
            }
        } else if nm == 6 {
            IfdGeneration::Server
        } else {
            IfdGeneration::SunrisePoint
        }
    } else if flmap2 == u32::MAX {
        IfdGeneration::SixteenRegions
    } else {
        let cssl = (flmap2 >> 16u32) & 0xffu32;
        let csso = (flmap2 >> 2u32) & 0x3ffu32;
        if cssl == 3 && csso == 0x58 {
            IfdGeneration::IfwiSixteenRegions
        } else if cssl == 3 && (csso == 0x60 || (csso == 0x70 && (isl == 0x7d || isl == 0x7e))) {
            IfdGeneration::LunarOrPantherLake
        } else {
            IfdGeneration::SixteenRegions
        }
    }
}

/// The number of FLREG entries of a descriptor of `generation` whose FLMAP0
/// is `flmap0`; `None` when its NR field is out of range.
pub open spec fn spec_region_count(generation: IfdGeneration, flmap0: u32) -> Option<int> {
    let nr = (flmap0 >> 24u32) & 7u32;
    match generation {
        IfdGeneration::Legacy => if nr <= 4 { Some(nr + 1) } else { None },
        IfdGeneration::LynxPoint => if nr <= 6 { Some(nr + 1) } else { None },
        IfdGeneration::SunrisePoint => Some(10),
        IfdGeneration::SixRegions => Some(6),
        _ => Some(16),
    }
}

/// Determine how many FLREG entries are valid for this descriptor generation.
pub fn ifd_region_count(generation: IfdGeneration, flmap0: u32) -> (r: Option<usize>)
    ensures
        match r {
            Some(n) => spec_region_count(generation, flmap0) == Some(n as int),
            None => spec_region_count(generation, flmap0) is None,
        },
{
    let nr = ((flmap0 >> 24u32) & 7u32) as usize;
    match generation {
        IfdGeneration::Legacy => if nr <= 4 { Some(nr + 1) } else { None },
        IfdGeneration::LynxPoint => if nr <= 6 { Some(nr + 1) } else { None },
        IfdGeneration::SunrisePoint => Some(10),
        IfdGeneration::SixRegions => Some(6),
        _ => Some(16),
    }
}

/// Region names of standard PCH100 and newer descriptors.
pub open spec fn standard_region_name(i: int) -> Seq<char> {
    if i == 0 {
        "descriptor"@
    } else if i == 1 {
        "bios"@
    } else if i == 2 {
        "me"@
    } else if i == 3 {
        "gbe"@
    } else if i == 4 {
        "platform"@
    } else if i == 5 {
        "region5"@
    } else if i == 6 {
        "bios2"@
    } else if i == 7 {
        "region7"@
    } else if i == 8 {
        "ec"@
    } else if i == 9 {
        "region9"@
    } else if i == 10 {
        "sse"@
    } else if i == 11 {
        "nis"@
    } else if i == 12 {
        "region12"@
    } else if i == 13 {
        "irc"@
    } else if i == 14 {
        "region14"@
    } else {
        "ptt"@
    }
}

/// Region names of standard PCH100 and newer descriptors.
fn standard_name(i: usize) -> (r: &'static str)
    requires
        i < 16,
    ensures
        r@ == standard_region_name(i as int),
{
    if i == 0 {
        "descriptor"
    } else if i == 1 {
        "bios"
    } else if i == 2 {
        "me"
    } else if i == 3 {
        "gbe"
    } else if i == 4 {
        "platform"
    } else if i == 5 {
        "region5"
    } else if i == 6 {
        "bios2"
    } else if i == 7 {
        "region7"
    } else if i == 8 {
        "ec"
    } else if i == 9 {
        "region9"
    } else if i == 10 {
        "sse"
    } else if i == 11 {
        "nis"
    } else if i == 12 {
        "region12"
    } else if i == 13 {
        "irc"
    } else if i == 14 {
        "region14"
    } else {
        "ptt"
    }
}

/// Region names of the IFWI/TXE map of Apollo Lake, Gemini Lake and Elkhart Lake.
pub open spec fn six_region_name(i: int) -> Seq<char> {
    if i == 0 {
        "descriptor"@
    } else if i == 1 {
        "ifwi"@
    } else if i == 2 {
        "txe"@
    } else if i == 3 {
        "region3"@
    } else if i == 4 {
        "platform"@
    } else if i == 5 {
        "devexp"@
    } else if i == 6 {
        "region6"@
    } else if i == 7 {
        "region7"@
    } else if i == 8 {
        "region8"@
    } else if i == 9 {
        "region9"@
    } else if i == 10 {
        "region10"@
    } else if i == 11 {
        "region11"@
    } else if i == 12 {
        "region12"@
    } else if i == 13 {
        "region13"@
    } else if i == 14 {
        "region14"@
    } else {
        "region15"@
    }
}

/// Region names of the IFWI/TXE map of Apollo Lake, Gemini Lake and Elkhart Lake.
fn six_name(i: usize) -> (r: &'static str)
    requires
        i < 16,
    ensures
        r@ == six_region_name(i as int),
{
    if i == 0 {
        "descriptor"
    } else if i == 1 {
        "ifwi"
    } else if i == 2 {
        "txe"
    } else if i == 3 {
        "region3"
    } else if i == 4 {
        "platform"
    } else if i == 5 {
        "devexp"
    } else if i == 6 {
        "region6"
    } else if i == 7 {
        "region7"
    } else if i == 8 {
        "region8"
    } else if i == 9 {
        "region9"
    } else if i == 10 {
        "region10"
    } else if i == 11 {
        "region11"
    } else if i == 12 {
        "region12"
    } else if i == 13 {
        "region13"
    } else if i == 14 {
        "region14"
    } else {
        "region15"
    }
}

/// Region names of the Lewisburg and Emmitsburg server PCHs.
pub open spec fn server_region_name(i: int) -> Seq<char> {
    if i == 0 {
        "descriptor"@
    } else if i == 1 {
        "bios"@
    } else if i == 2 {
        "me"@
    } else if i == 3 {
        "gbe"@
    } else if i == 4 {
        "platform"@
    } else if i == 5 {
        "devexp"@
    } else if i == 6 {
        "bios2"@
    } else if i == 7 {
        "region7"@
    } else if i == 8 {
        "bmc"@
    } else if i == 9 {
        "devexp2"@
    } else if i == 10 {
        "ie"@
    } else if i == 11 {
        "10gbe"@
    } else if i == 12 {
        "oprom"@
    } else if i == 13 {
        "region13"@
    } else if i == 14 {
        "region14"@
    } else {
        "region15"@
    }
}

/// Region names of the Lewisburg and Emmitsburg server PCHs.
fn server_name(i: usize) -> (r: &'static str)
    requires
        i < 16,
    ensures
        r@ == server_region_name(i as int),
{
    if i == 0 {
        "descriptor"
    } else if i == 1 {
        "bios"
    } else if i == 2 {
        "me"
    } else if i == 3 {
        "gbe"
    } else if i == 4 {
        "platform"
    } else if i == 5 {
        "devexp"
    } else if i == 6 {
        "bios2"
    } else if i == 7 {
        "region7"
    } else if i == 8 {
        "bmc"
    } else if i == 9 {
        "devexp2"
    } else if i == 10 {
        "ie"
    } else if i == 11 {
        "10gbe"
    } else if i == 12 {
        "oprom"
    } else if i == 13 {
        "region13"
    } else if i == 14 {
        "region14"
    } else {
        "region15"
    }
}

/// Region names of Lunar Lake and Panther Lake.
pub open spec fn lunar_panther_region_name(i: int) -> Seq<char> {
    if i == 0 {
        "descriptor"@
    } else if i == 1 {
        "bios"@
    } else if i == 2 {
        "me"@
    } else if i == 3 {
        "gbe"@
    } else if i == 4 {
        "platform"@
    } else if i == 5 {
        "region5"@
    } else if i == 6 {
        "region6"@
    } else if i == 7 {
        "region7"@
    } else if i == 8 {
        "ec"@
    } else if i == 9 {
        "region9"@
    } else if i == 10 {
        "pse"@
    } else if i == 11 {
        "region11"@
    } else if i == 12 {
        "region12"@
    } else if i == 13 {
        "region13"@
    } else if i == 14 {
        "region14"@
    } else {
        "region15"@
    }
}

/// Region names of Lunar Lake and Panther Lake.
fn lunar_panther_name(i: usize) -> (r: &'static str)
    requires
        i < 16,
    ensures
        r@ == lunar_panther_region_name(i as int),
{
    if i == 0 {
        "descriptor"
    } else if i == 1 {
        "bios"
    } else if i == 2 {
        "me"
    } else if i == 3 {
        "gbe"
    } else if i == 4 {
        "platform"
    } else if i == 5 {
        "region5"
    } else if i == 6 {
        "region6"
    } else if i == 7 {
        "region7"
    } else if i == 8 {
        "ec"
    } else if i == 9 {
        "region9"
    } else if i == 10 {
        "pse"
    } else if i == 11 {
        "region11"
    } else if i == 12 {
        "region12"
    } else if i == 13 {
        "region13"
    } else if i == 14 {
        "region14"
    } else {
        "region15"
    }
}

/// The name of FLREG `i` in a descriptor of `generation`.
pub open spec fn ifd_region_name(generation: IfdGeneration, i: int) -> Seq<char> {
    match generation {
        IfdGeneration::SixRegions | IfdGeneration::IfwiSixteenRegions => six_region_name(i),
        IfdGeneration::Server => server_region_name(i),
        IfdGeneration::LunarOrPantherLake => lunar_panther_region_name(i),
        _ => standard_region_name(i),
    }
}

/// Select the name of FLREG `i` for a descriptor of `generation`.
fn region_name(generation: IfdGeneration, i: usize) -> (r: &'static str)
    requires
        i < 16,
    ensures
        r@ == ifd_region_name(generation, i as int),
{
    match generation {
        IfdGeneration::SixRegions | IfdGeneration::IfwiSixteenRegions => six_name(i),
        IfdGeneration::Server => server_name(i),
        IfdGeneration::LunarOrPantherLake => lunar_panther_name(i),
        _ => standard_name(i),
    }
}

/// A region of this name can brick the system when modified.
pub open spec fn is_dangerous_name(name: Seq<char>) -> bool {
    name == "me"@ || name == "descriptor"@ || name == "ptt"@
}

/// A region of this name must not be written.
pub open spec fn is_readonly_name(name: Seq<char>) -> bool {
    name == "descriptor"@
}

proof fn lemma_standard_flags(i: int)
    requires
        0 <= i < 16,
    ensures
        is_readonly_name(standard_region_name(i)) == (i == 0),
        is_dangerous_name(standard_region_name(i)) == (i == 0 || i == 2 || i == 15),
{
    if i == 0 {
        reveal_strlit("descriptor");
        reveal_strlit("me");
        reveal_strlit("descriptor");
        reveal_strlit("ptt");
        assert("descriptor"@.len() == 10);
        assert("me"@.len() == 2);
        assert("descriptor"@.len() == 10);
        assert("ptt"@.len() == 3);
        assert(is_readonly_name(standard_region_name(i)) == (i == 0));
        assert(is_dangerous_name(standard_region_name(i)) == (i == 0 || i == 2 || i == 15));
    } else if i == 1 {
        reveal_strlit("bios");
        reveal_strlit("me");
        reveal_strlit("descriptor");
        reveal_strlit("ptt");
        assert("bios"@.len() == 4);
        assert("me"@.len() == 2);
        assert("descriptor"@.len() == 10);
        assert("ptt"@.len() == 3);
        assert(is_readonly_name(standard_region_name(i)) == (i == 0));
        assert(is_dangerous_name(standard_region_name(i)) == (i == 0 || i == 2 || i == 15));
    } else if i == 2 {
        reveal_strlit("me");
        reveal_strlit("me");
        reveal_strlit("descriptor");
        reveal_strlit("ptt");
        assert("me"@.len() == 2);
        assert("me"@.len() == 2);
        assert("descriptor"@.len() == 10);
        assert("ptt"@.len() == 3);
        assert(is_readonly_name(standard_region_name(i)) == (i == 0));
        assert(is_dangerous_name(standard_region_name(i)) == (i == 0 || i == 2 || i == 15));
    } else if i == 3 {
        reveal_strlit("gbe");
        reveal_strlit("me");
        reveal_strlit("descriptor");
        reveal_strlit("ptt");
        assert("gbe"@.len() == 3);
        assert("me"@.len() == 2);
        assert("descriptor"@.len() == 10);
        assert("ptt"@.len() == 3);
        assert("gbe"@[0] != "ptt"@[0]);
        assert(is_readonly_name(standard_region_name(i)) == (i == 0));
        assert(is_dangerous_name(standard_region_name(i)) == (i == 0 || i == 2 || i == 15));
    } else if i == 4 {
        reveal_strlit("platform");
        reveal_strlit("me");
        reveal_strlit("descriptor");
        reveal_strlit("ptt");
        assert("platform"@.len() == 8);
        assert("me"@.len() == 2);
        assert("descriptor"@.len() == 10);
        assert("ptt"@.len() == 3);
        assert(is_readonly_name(standard_region_name(i)) == (i == 0));
        assert(is_dangerous_name(standard_region_name(i)) == (i == 0 || i == 2 || i == 15));
    } else if i == 5 {
        reveal_strlit("region5");
        reveal_strlit("me");
        reveal_strlit("descriptor");
        reveal_strlit("ptt");
        assert("region5"@.len() == 7);
        assert("me"@.len() == 2);
        assert("descriptor"@.len() == 10);
        assert("ptt"@.len() == 3);
        assert(is_readonly_name(standard_region_name(i)) == (i == 0));
        assert(is_dangerous_name(standard_region_name(i)) == (i == 0 || i == 2 || i == 15));
    } else if i == 6 {
        reveal_strlit("bios2");
        reveal_strlit("me");
        reveal_strlit("descriptor");
        reveal_strlit("ptt");
        assert("bios2"@.len() == 5);
        assert("me"@.len() == 2);
        assert("descriptor"@.len() == 10);
        assert("ptt"@.len() == 3);
        assert(is_readonly_name(standard_region_name(i)) == (i == 0));
        assert(is_dangerous_name(standard_region_name(i)) == (i == 0 || i == 2 || i == 15));
    } else if i == 7 {
        reveal_strlit("region7");
        reveal_strlit("me");
        reveal_strlit("descriptor");
        reveal_strlit("ptt");
        assert("region7"@.len() == 7);
        assert("me"@.len() == 2);
        assert("descriptor"@.len() == 10);
        assert("ptt"@.len() == 3);
        assert(is_readonly_name(standard_region_name(i)) == (i == 0));
        assert(is_dangerous_name(standard_region_name(i)) == (i == 0 || i == 2 || i == 15));
    } else if i == 8 {
        reveal_strlit("ec");
        reveal_strlit("me");
        reveal_strlit("descriptor");
        reveal_strlit("ptt");
        assert("ec"@.len() == 2);
        assert("me"@.len() == 2);
        assert("descriptor"@.len() == 10);
        assert("ptt"@.len() == 3);
        assert("ec"@[0] != "me"@[0]);
        assert(is_readonly_name(standard_region_name(i)) == (i == 0));
        assert(is_dangerous_name(standard_region_name(i)) == (i == 0 || i == 2 || i == 15));
    } else if i == 9 {
        reveal_strlit("region9");
        reveal_strlit("me");
        reveal_strlit("descriptor");
        reveal_strlit("ptt");
        assert("region9"@.len() == 7);
        assert("me"@.len() == 2);
        assert("descriptor"@.len() == 10);
        assert("ptt"@.len() == 3);
        assert(is_readonly_name(standard_region_name(i)) == (i == 0));
        assert(is_dangerous_name(standard_region_name(i)) == (i == 0 || i == 2 || i == 15));
    } else if i == 10 {
        reveal_strlit("sse");
        reveal_strlit("me");
        reveal_strlit("descriptor");
        reveal_strlit("ptt");
        assert("sse"@.len() == 3);
        assert("me"@.len() == 2);
        assert("descriptor"@.len() == 10);
        assert("ptt"@.len() == 3);
        assert("sse"@[0] != "ptt"@[0]);
        assert(is_readonly_name(standard_region_name(i)) == (i == 0));
        assert(is_dangerous_name(standard_region_name(i)) == (i == 0 || i == 2 || i == 15));
    } else if i == 11 {
        reveal_strlit("nis");
        reveal_strlit("me");
        reveal_strlit("descriptor");
        reveal_strlit("ptt");
        assert("nis"@.len() == 3);
        assert("me"@.len() == 2);
        assert("descriptor"@.len() == 10);
        assert("ptt"@.len() == 3);
        assert("nis"@[0] != "ptt"@[0]);
        assert(is_readonly_name(standard_region_name(i)) == (i == 0));
        assert(is_dangerous_name(standard_region_name(i)) == (i == 0 || i == 2 || i == 15));
    } else if i == 12 {
        reveal_strlit("region12");
        reveal_strlit("me");
        reveal_strlit("descriptor");
        reveal_strlit("ptt");
        assert("region12"@.len() == 8);
        assert("me"@.len() == 2);
        assert("descriptor"@.len() == 10);
        assert("ptt"@.len() == 3);
        assert(is_readonly_name(standard_region_name(i)) == (i == 0));
        assert(is_dangerous_name(standard_region_name(i)) == (i == 0 || i == 2 || i == 15));
    } else if i == 13 {
        reveal_strlit("irc");
        reveal_strlit("me");
        reveal_strlit("descriptor");
        reveal_strlit("ptt");
        assert("irc"@.len() == 3);
        assert("me"@.len() == 2);
        assert("descriptor"@.len() == 10);
        assert("ptt"@.len() == 3);
        assert("irc"@[0] != "ptt"@[0]);
        assert(is_readonly_name(standard_region_name(i)) == (i == 0));
        assert(is_dangerous_name(standard_region_name(i)) == (i == 0 || i == 2 || i == 15));
    } else if i == 14 {
        reveal_strlit("region14");
        reveal_strlit("me");
        reveal_strlit("descriptor");
        reveal_strlit("ptt");
        assert("region14"@.len() == 8);
        assert("me"@.len() == 2);
        assert("descriptor"@.len() == 10);
        assert("ptt"@.len() == 3);
        assert(is_readonly_name(standard_region_name(i)) == (i == 0));
        assert(is_dangerous_name(standard_region_name(i)) == (i == 0 || i == 2 || i == 15));
    } else if i == 15 {
        reveal_strlit("ptt");
        reveal_strlit("me");
        reveal_strlit("descriptor");
        reveal_strlit("ptt");
        assert("ptt"@.len() == 3);
        assert("me"@.len() == 2);
        assert("descriptor"@.len() == 10);
        assert("ptt"@.len() == 3);
        assert(is_readonly_name(standard_region_name(i)) == (i == 0));
        assert(is_dangerous_name(standard_region_name(i)) == (i == 0 || i == 2 || i == 15));
    }
}

proof fn lemma_six_flags(i: int)
    requires
        0 <= i < 16,
    ensures
        is_readonly_name(six_region_name(i)) == (i == 0),
        is_dangerous_name(six_region_name(i)) == (i == 0),
{
    if i == 0 {
        reveal_strlit("descriptor");
        reveal_strlit("me");
        reveal_strlit("descriptor");
        reveal_strlit("ptt");
        assert("descriptor"@.len() == 10);
        assert("me"@.len() == 2);
        assert("descriptor"@.len() == 10);
        assert("ptt"@.len() == 3);
        assert(is_readonly_name(six_region_name(i)) == (i == 0));
        assert(is_dangerous_name(six_region_name(i)) == (i == 0));
    } else if i == 1 {
        reveal_strlit("ifwi");
        reveal_strlit("me");
        reveal_strlit("descriptor");
        reveal_strlit("ptt");
        assert("ifwi"@.len() == 4);
        assert("me"@.len() == 2);
        assert("descriptor"@.len() == 10);
        assert("ptt"@.len() == 3);
        assert(is_readonly_name(six_region_name(i)) == (i == 0));
        assert(is_dangerous_name(six_region_name(i)) == (i == 0));
    } else if i == 2 {
        reveal_strlit("txe");
        reveal_strlit("me");
        reveal_strlit("descriptor");
        reveal_strlit("ptt");
        assert("txe"@.len() == 3);
        assert("me"@.len() == 2);
        assert("descriptor"@.len() == 10);
        assert("ptt"@.len() == 3);
        assert("txe"@[0] != "ptt"@[0]);
        assert(is_readonly_name(six_region_name(i)) == (i == 0));
        assert(is_dangerous_name(six_region_name(i)) == (i == 0));
    } else if i == 3 {
        reveal_strlit("region3");
        reveal_strlit("me");
        reveal_strlit("descriptor");
        reveal_strlit("ptt");
        assert("region3"@.len() == 7);
        assert("me"@.len() == 2);
        assert("descriptor"@.len() == 10);
        assert("ptt"@.len() == 3);
        assert(is_readonly_name(six_region_name(i)) == (i == 0));
        assert(is_dangerous_name(six_region_name(i)) == (i == 0));
    } else if i == 4 {
        reveal_strlit("platform");
        reveal_strlit("me");
        reveal_strlit("descriptor");
        reveal_strlit("ptt");
        assert("platform"@.len() == 8);
        assert("me"@.len() == 2);
        assert("descriptor"@.len() == 10);
        assert("ptt"@.len() == 3);
        assert(is_readonly_name(six_region_name(i)) == (i == 0));
        assert(is_dangerous_name(six_region_name(i)) == (i == 0));
    } else if i == 5 {
        reveal_strlit("devexp");
        reveal_strlit("me");
        reveal_strlit("descriptor");
        reveal_strlit("ptt");
        assert("devexp"@.len() == 6);
        assert("me"@.len() == 2);
        assert("descriptor"@.len() == 10);
        assert("ptt"@.len() == 3);
        assert(is_readonly_name(six_region_name(i)) == (i == 0));
        assert(is_dangerous_name(six_region_name(i)) == (i == 0));
    } else if i == 6 {
        reveal_strlit("region6");
        reveal_strlit("me");
        reveal_strlit("descriptor");
        reveal_strlit("ptt");
        assert("region6"@.len() == 7);
        assert("me"@.len() == 2);
        assert("descriptor"@.len() == 10);
        assert("ptt"@.len() == 3);
        assert(is_readonly_name(six_region_name(i)) == (i == 0));
        assert(is_dangerous_name(six_region_name(i)) == (i == 0));
    } else if i == 7 {
        reveal_strlit("region7");
        reveal_strlit("me");
        reveal_strlit("descriptor");
        reveal_strlit("ptt");
        assert("region7"@.len() == 7);
        assert("me"@.len() == 2);
        assert("descriptor"@.len() == 10);
        assert("ptt"@.len() == 3);
        assert(is_readonly_name(six_region_name(i)) == (i == 0));
        assert(is_dangerous_name(six_region_name(i)) == (i == 0));
    } else if i == 8 {
        reveal_strlit("region8");
        reveal_strlit("me");
        reveal_strlit("descriptor");
        reveal_strlit("ptt");
        assert("region8"@.len() == 7);
        assert("me"@.len() == 2);
        assert("descriptor"@.len() == 10);
        assert("ptt"@.len() == 3);
        assert(is_readonly_name(six_region_name(i)) == (i == 0));
        assert(is_dangerous_name(six_region_name(i)) == (i == 0));
    } else if i == 9 {
        reveal_strlit("region9");
        reveal_strlit("me");
        reveal_strlit("descriptor");
        reveal_strlit("ptt");
        assert("region9"@.len() == 7);
        assert("me"@.len() == 2);
        assert("descriptor"@.len() == 10);
        assert("ptt"@.len() == 3);
        assert(is_readonly_name(six_region_name(i)) == (i == 0));
        assert(is_dangerous_name(six_region_name(i)) == (i == 0));
    } else if i == 10 {
        reveal_strlit("region10");
        reveal_strlit("me");
        reveal_strlit("descriptor");
        reveal_strlit("ptt");
        assert("region10"@.len() == 8);
        assert("me"@.len() == 2);
        assert("descriptor"@.len() == 10);
        assert("ptt"@.len() == 3);
        assert(is_readonly_name(six_region_name(i)) == (i == 0));
        assert(is_dangerous_name(six_region_name(i)) == (i == 0));
    } else if i == 11 {
        reveal_strlit("region11");
        reveal_strlit("me");
        reveal_strlit("descriptor");
        reveal_strlit("ptt");
        assert("region11"@.len() == 8);
        assert("me"@.len() == 2);
        assert("descriptor"@.len() == 10);
        assert("ptt"@.len() == 3);
        assert(is_readonly_name(six_region_name(i)) == (i == 0));
        assert(is_dangerous_name(six_region_name(i)) == (i == 0));
    } else if i == 12 {
        reveal_strlit("region12");
        reveal_strlit("me");
        reveal_strlit("descriptor");
        reveal_strlit("ptt");
        assert("region12"@.len() == 8);
        assert("me"@.len() == 2);
        assert("descriptor"@.len() == 10);
        assert("ptt"@.len() == 3);
        assert(is_readonly_name(six_region_name(i)) == (i == 0));
        assert(is_dangerous_name(six_region_name(i)) == (i == 0));
    } else if i == 13 {
        reveal_strlit("region13");
        reveal_strlit("me");
        reveal_strlit("descriptor");
        reveal_strlit("ptt");
        assert("region13"@.len() == 8);
        assert("me"@.len() == 2);
        assert("descriptor"@.len() == 10);
        assert("ptt"@.len() == 3);
        assert(is_readonly_name(six_region_name(i)) == (i == 0));
        assert(is_dangerous_name(six_region_name(i)) == (i == 0));
    } else if i == 14 {
        reveal_strlit("region14");
        reveal_strlit("me");
        reveal_strlit("descriptor");
        reveal_strlit("ptt");
        assert("region14"@.len() == 8);
        assert("me"@.len() == 2);
        assert("descriptor"@.len() == 10);
        assert("ptt"@.len() == 3);
        assert(is_readonly_name(six_region_name(i)) == (i == 0));
        assert(is_dangerous_name(six_region_name(i)) == (i == 0));
    } else if i == 15 {
        reveal_strlit("region15");
        reveal_strlit("me");
        reveal_strlit("descriptor");
        reveal_strlit("ptt");
        assert("region15"@.len() == 8);
        assert("me"@.len() == 2);
        assert("descriptor"@.len() == 10);
        assert("ptt"@.len() == 3);
        assert(is_readonly_name(six_region_name(i)) == (i == 0));
        assert(is_dangerous_name(six_region_name(i)) == (i == 0));
    }
}

proof fn lemma_server_flags(i: int)
    requires
        0 <= i < 16,
    ensures
        is_readonly_name(server_region_name(i)) == (i == 0),
        is_dangerous_name(server_region_name(i)) == (i == 0 || i == 2),
{
    if i == 0 {
        reveal_strlit("descriptor");
        reveal_strlit("me");
        reveal_strlit("descriptor");
        reveal_strlit("ptt");
        assert("descriptor"@.len() == 10);
        assert("me"@.len() == 2);
        assert("descriptor"@.len() == 10);
        assert("ptt"@.len() == 3);
        assert(is_readonly_name(server_region_name(i)) == (i == 0));
        assert(is_dangerous_name(server_region_name(i)) == (i == 0 || i == 2));
    } else if i == 1 {
        reveal_strlit("bios");
        reveal_strlit("me");
        reveal_strlit("descriptor");
        reveal_strlit("ptt");
        assert("bios"@.len() == 4);
        assert("me"@.len() == 2);
        assert("descriptor"@.len() == 10);
        assert("ptt"@.len() == 3);
        assert(is_readonly_name(server_region_name(i)) == (i == 0));
        assert(is_dangerous_name(server_region_name(i)) == (i == 0 || i == 2));
    } else if i == 2 {
        reveal_strlit("me");
        reveal_strlit("me");
        reveal_strlit("descriptor");
        reveal_strlit("ptt");
        assert("me"@.len() == 2);
        assert("me"@.len() == 2);
        assert("descriptor"@.len() == 10);
        assert("ptt"@.len() == 3);
        assert(is_readonly_name(server_region_name(i)) == (i == 0));
        assert(is_dangerous_name(server_region_name(i)) == (i == 0 || i == 2));
    } else if i == 3 {
        reveal_strlit("gbe");
        reveal_strlit("me");
        reveal_strlit("descriptor");
        reveal_strlit("ptt");
        assert("gbe"@.len() == 3);
        assert("me"@.len() == 2);
        assert("descriptor"@.len() == 10);
        assert("ptt"@.len() == 3);
        assert("gbe"@[0] != "ptt"@[0]);
        assert(is_readonly_name(server_region_name(i)) == (i == 0));
        assert(is_dangerous_name(server_region_name(i)) == (i == 0 || i == 2));
    } else if i == 4 {
        reveal_strlit("platform");
        reveal_strlit("me");
        reveal_strlit("descriptor");
        reveal_strlit("ptt");
        assert("platform"@.len() == 8);
        assert("me"@.len() == 2);
        assert("descriptor"@.len() == 10);
        assert("ptt"@.len() == 3);
        assert(is_readonly_name(server_region_name(i)) == (i == 0));
        assert(is_dangerous_name(server_region_name(i)) == (i == 0 || i == 2));
    } else if i == 5 {
        reveal_strlit("devexp");
        reveal_strlit("me");
        reveal_strlit("descriptor");
        reveal_strlit("ptt");
        assert("devexp"@.len() == 6);
        assert("me"@.len() == 2);
        assert("descriptor"@.len() == 10);
        assert("ptt"@.len() == 3);
        assert(is_readonly_name(server_region_name(i)) == (i == 0));
        assert(is_dangerous_name(server_region_name(i)) == (i == 0 || i == 2));
    } else if i == 6 {
        reveal_strlit("bios2");
        reveal_strlit("me");
        reveal_strlit("descriptor");
        reveal_strlit("ptt");
        assert("bios2"@.len() == 5);
        assert("me"@.len() == 2);
        assert("descriptor"@.len() == 10);
        assert("ptt"@.len() == 3);
        assert(is_readonly_name(server_region_name(i)) == (i == 0));
        assert(is_dangerous_name(server_region_name(i)) == (i == 0 || i == 2));
    } else if i == 7 {
        reveal_strlit("region7");
        reveal_strlit("me");
        reveal_strlit("descriptor");
        reveal_strlit("ptt");
        assert("region7"@.len() == 7);
        assert("me"@.len() == 2);
        assert("descriptor"@.len() == 10);
        assert("ptt"@.len() == 3);
        assert(is_readonly_name(server_region_name(i)) == (i == 0));
        assert(is_dangerous_name(server_region_name(i)) == (i == 0 || i == 2));
    } else if i == 8 {
        reveal_strlit("bmc");
        reveal_strlit("me");
        reveal_strlit("descriptor");
        reveal_strlit("ptt");
        assert("bmc"@.len() == 3);
        assert("me"@.len() == 2);
        assert("descriptor"@.len() == 10);
        assert("ptt"@.len() == 3);
        assert("bmc"@[0] != "ptt"@[0]);
        assert(is_readonly_name(server_region_name(i)) == (i == 0));
        assert(is_dangerous_name(server_region_name(i)) == (i == 0 || i == 2));
    } else if i == 9 {
        reveal_strlit("devexp2");
        reveal_strlit("me");
        reveal_strlit("descriptor");
        reveal_strlit("ptt");
        assert("devexp2"@.len() == 7);
        assert("me"@.len() == 2);
        assert("descriptor"@.len() == 10);
        assert("ptt"@.len() == 3);
        assert(is_readonly_name(server_region_name(i)) == (i == 0));
        assert(is_dangerous_name(server_region_name(i)) == (i == 0 || i == 2));
    } else if i == 10 {
        reveal_strlit("ie");
        reveal_strlit("me");
        reveal_strlit("descriptor");
        reveal_strlit("ptt");
        assert("ie"@.len() == 2);
        assert("me"@.len() == 2);
        assert("descriptor"@.len() == 10);
        assert("ptt"@.len() == 3);
        assert("ie"@[0] != "me"@[0]);
        assert(is_readonly_name(server_region_name(i)) == (i == 0));
        assert(is_dangerous_name(server_region_name(i)) == (i == 0 || i == 2));
    } else if i == 11 {
        reveal_strlit("10gbe");
        reveal_strlit("me");
        reveal_strlit("descriptor");
        reveal_strlit("ptt");
        assert("10gbe"@.len() == 5);
        assert("me"@.len() == 2);
        assert("descriptor"@.len() == 10);
        assert("ptt"@.len() == 3);
        assert(is_readonly_name(server_region_name(i)) == (i == 0));
        assert(is_dangerous_name(server_region_name(i)) == (i == 0 || i == 2));
    } else if i == 12 {
        reveal_strlit("oprom");
        reveal_strlit("me");
        reveal_strlit("descriptor");
        reveal_strlit("ptt");
        assert("oprom"@.len() == 5);
        assert("me"@.len() == 2);
        assert("descriptor"@.len() == 10);
        assert("ptt"@.len() == 3);
        assert(is_readonly_name(server_region_name(i)) == (i == 0));
        assert(is_dangerous_name(server_region_name(i)) == (i == 0 || i == 2));
    } else if i == 13 {
        reveal_strlit("region13");
        reveal_strlit("me");
        reveal_strlit("descriptor");
        reveal_strlit("ptt");
        assert("region13"@.len() == 8);
        assert("me"@.len() == 2);
        assert("descriptor"@.len() == 10);
        assert("ptt"@.len() == 3);
        assert(is_readonly_name(server_region_name(i)) == (i == 0));
        assert(is_dangerous_name(server_region_name(i)) == (i == 0 || i == 2));
    } else if i == 14 {
        reveal_strlit("region14");
        reveal_strlit("me");
        reveal_strlit("descriptor");
        reveal_strlit("ptt");
        assert("region14"@.len() == 8);
        assert("me"@.len() == 2);
        assert("descriptor"@.len() == 10);
        assert("ptt"@.len() == 3);
        assert(is_readonly_name(server_region_name(i)) == (i == 0));
        assert(is_dangerous_name(server_region_name(i)) == (i == 0 || i == 2));
    } else if i == 15 {
        reveal_strlit("region15");
        reveal_strlit("me");
        reveal_strlit("descriptor");
        reveal_strlit("ptt");
        assert("region15"@.len() == 8);
        assert("me"@.len() == 2);
        assert("descriptor"@.len() == 10);
        assert("ptt"@.len() == 3);
        assert(is_readonly_name(server_region_name(i)) == (i == 0));
        assert(is_dangerous_name(server_region_name(i)) == (i == 0 || i == 2));
    }
}

proof fn lemma_lunar_panther_flags(i: int)
    requires
        0 <= i < 16,
    ensures
        is_readonly_name(lunar_panther_region_name(i)) == (i == 0),
        is_dangerous_name(lunar_panther_region_name(i)) == (i == 0 || i == 2),
{
    if i == 0 {
        reveal_strlit("descriptor");
        reveal_strlit("me");
        reveal_strlit("descriptor");
        reveal_strlit("ptt");
        assert("descriptor"@.len() == 10);
        assert("me"@.len() == 2);
        assert("descriptor"@.len() == 10);
        assert("ptt"@.len() == 3);
        assert(is_readonly_name(lunar_panther_region_name(i)) == (i == 0));
        assert(is_dangerous_name(lunar_panther_region_name(i)) == (i == 0 || i == 2));
    } else if i == 1 {
        reveal_strlit("bios");
        reveal_strlit("me");
        reveal_strlit("descriptor");
        reveal_strlit("ptt");
        assert("bios"@.len() == 4);
        assert("me"@.len() == 2);
        assert("descriptor"@.len() == 10);
        assert("ptt"@.len() == 3);
        assert(is_readonly_name(lunar_panther_region_name(i)) == (i == 0));
        assert(is_dangerous_name(lunar_panther_region_name(i)) == (i == 0 || i == 2));
    } else if i == 2 {
        reveal_strlit("me");
        reveal_strlit("me");
        reveal_strlit("descriptor");
        reveal_strlit("ptt");
        assert("me"@.len() == 2);
        assert("me"@.len() == 2);
        assert("descriptor"@.len() == 10);
        assert("ptt"@.len() == 3);
        assert(is_readonly_name(lunar_panther_region_name(i)) == (i == 0));
        assert(is_dangerous_name(lunar_panther_region_name(i)) == (i == 0 || i == 2));
    } else if i == 3 {
        reveal_strlit("gbe");
        reveal_strlit("me");
        reveal_strlit("descriptor");
        reveal_strlit("ptt");
        assert("gbe"@.len() == 3);
        assert("me"@.len() == 2);
        assert("descriptor"@.len() == 10);
        assert("ptt"@.len() == 3);
        assert("gbe"@[0] != "ptt"@[0]);
        assert(is_readonly_name(lunar_panther_region_name(i)) == (i == 0));
        assert(is_dangerous_name(lunar_panther_region_name(i)) == (i == 0 || i == 2));
    } else if i == 4 {
        reveal_strlit("platform");
        reveal_strlit("me");
        reveal_strlit("descriptor");
        reveal_strlit("ptt");
        assert("platform"@.len() == 8);
        assert("me"@.len() == 2);
        assert("descriptor"@.len() == 10);
        assert("ptt"@.len() == 3);
        assert(is_readonly_name(lunar_panther_region_name(i)) == (i == 0));
        assert(is_dangerous_name(lunar_panther_region_name(i)) == (i == 0 || i == 2));
    } else if i == 5 {
        reveal_strlit("region5");
        reveal_strlit("me");
        reveal_strlit("descriptor");
        reveal_strlit("ptt");
        assert("region5"@.len() == 7);
        assert("me"@.len() == 2);
        assert("descriptor"@.len() == 10);
        assert("ptt"@.len() == 3);
        assert(is_readonly_name(lunar_panther_region_name(i)) == (i == 0));
        assert(is_dangerous_name(lunar_panther_region_name(i)) == (i == 0 || i == 2));
    } else if i == 6 {
        reveal_strlit("region6");
        reveal_strlit("me");
        reveal_strlit("descriptor");
        reveal_strlit("ptt");
        assert("region6"@.len() == 7);
        assert("me"@.len() == 2);
        assert("descriptor"@.len() == 10);
        assert("ptt"@.len() == 3);
        assert(is_readonly_name(lunar_panther_region_name(i)) == (i == 0));
        assert(is_dangerous_name(lunar_panther_region_name(i)) == (i == 0 || i == 2));
    } else if i == 7 {
        reveal_strlit("region7");
        reveal_strlit("me");
        reveal_strlit("descriptor");
        reveal_strlit("ptt");
        assert("region7"@.len() == 7);
        assert("me"@.len() == 2);
        assert("descriptor"@.len() == 10);
        assert("ptt"@.len() == 3);
        assert(is_readonly_name(lunar_panther_region_name(i)) == (i == 0));
        assert(is_dangerous_name(lunar_panther_region_name(i)) == (i == 0 || i == 2));
    } else if i == 8 {
        reveal_strlit("ec");
        reveal_strlit("me");
        reveal_strlit("descriptor");
        reveal_strlit("ptt");
        assert("ec"@.len() == 2);
        assert("me"@.len() == 2);
        assert("descriptor"@.len() == 10);
        assert("ptt"@.len() == 3);
        assert("ec"@[0] != "me"@[0]);
        assert(is_readonly_name(lunar_panther_region_name(i)) == (i == 0));
        assert(is_dangerous_name(lunar_panther_region_name(i)) == (i == 0 || i == 2));
    } else if i == 9 {
        reveal_strlit("region9");
        reveal_strlit("me");
        reveal_strlit("descriptor");
        reveal_strlit("ptt");
        assert("region9"@.len() == 7);
        assert("me"@.len() == 2);
        assert("descriptor"@.len() == 10);
        assert("ptt"@.len() == 3);
        assert(is_readonly_name(lunar_panther_region_name(i)) == (i == 0));
        assert(is_dangerous_name(lunar_panther_region_name(i)) == (i == 0 || i == 2));
    } else if i == 10 {
        reveal_strlit("pse");
        reveal_strlit("me");
        reveal_strlit("descriptor");
        reveal_strlit("ptt");
        assert("pse"@.len() == 3);
        assert("me"@.len() == 2);
        assert("descriptor"@.len() == 10);
        assert("ptt"@.len() == 3);
        assert("pse"@[1] != "ptt"@[1]);
        assert(is_readonly_name(lunar_panther_region_name(i)) == (i == 0));
        assert(is_dangerous_name(lunar_panther_region_name(i)) == (i == 0 || i == 2));
    } else if i == 11 {
        reveal_strlit("region11");
        reveal_strlit("me");
        reveal_strlit("descriptor");
        reveal_strlit("ptt");
        assert("region11"@.len() == 8);
        assert("me"@.len() == 2);
        assert("descriptor"@.len() == 10);
        assert("ptt"@.len() == 3);
        assert(is_readonly_name(lunar_panther_region_name(i)) == (i == 0));
        assert(is_dangerous_name(lunar_panther_region_name(i)) == (i == 0 || i == 2));
    } else if i == 12 {
        reveal_strlit("region12");
        reveal_strlit("me");
        reveal_strlit("descriptor");
        reveal_strlit("ptt");
        assert("region12"@.len() == 8);
        assert("me"@.len() == 2);
        assert("descriptor"@.len() == 10);
        assert("ptt"@.len() == 3);
        assert(is_readonly_name(lunar_panther_region_name(i)) == (i == 0));
        assert(is_dangerous_name(lunar_panther_region_name(i)) == (i == 0 || i == 2));
    } else if i == 13 {
        reveal_strlit("region13");
        reveal_strlit("me");
        reveal_strlit("descriptor");
        reveal_strlit("ptt");
        assert("region13"@.len() == 8);
        assert("me"@.len() == 2);
        assert("descriptor"@.len() == 10);
        assert("ptt"@.len() == 3);
        assert(is_readonly_name(lunar_panther_region_name(i)) == (i == 0));
        assert(is_dangerous_name(lunar_panther_region_name(i)) == (i == 0 || i == 2));
    } else if i == 14 {
        reveal_strlit("region14");
        reveal_strlit("me");
        reveal_strlit("descriptor");
        reveal_strlit("ptt");
        assert("region14"@.len() == 8);
        assert("me"@.len() == 2);
        assert("descriptor"@.len() == 10);
        assert("ptt"@.len() == 3);
        assert(is_readonly_name(lunar_panther_region_name(i)) == (i == 0));
        assert(is_dangerous_name(lunar_panther_region_name(i)) == (i == 0 || i == 2));
    } else if i == 15 {
        reveal_strlit("region15");
        reveal_strlit("me");
        reveal_strlit("descriptor");
        reveal_strlit("ptt");
        assert("region15"@.len() == 8);
        assert("me"@.len() == 2);
        assert("descriptor"@.len() == 10);
        assert("ptt"@.len() == 3);
        assert(is_readonly_name(lunar_panther_region_name(i)) == (i == 0));
        assert(is_dangerous_name(lunar_panther_region_name(i)) == (i == 0 || i == 2));
    }
}

/// Whether FLREG `i` of `generation` is read-only and whether it is dangerous.
fn region_flags(generation: IfdGeneration, i: usize) -> (r: (bool, bool))
    requires
        i < 16,
    ensures
        r.0 == is_readonly_name(ifd_region_name(generation, i as int)),
        r.1 == is_dangerous_name(ifd_region_name(generation, i as int)),
{
    proof {
        lemma_standard_flags(i as int);
        lemma_six_flags(i as int);
        lemma_server_flags(i as int);
        lemma_lunar_panther_flags(i as int);
    }
    let six = match generation {
        IfdGeneration::SixRegions | IfdGeneration::IfwiSixteenRegions => true,
        _ => false,
    };
    let standard = match generation {
        IfdGeneration::SixRegions | IfdGeneration::IfwiSixteenRegions | IfdGeneration::Server
        | IfdGeneration::LunarOrPantherLake => false,
        _ => true,
    };
    let readonly = i == 0;
    let dangerous = i == 0 || (i == 2 && !six) || (i == 15 && standard);
    (readonly, dangerous)
}

/// The base address that a FLREG value encodes (bits 14:0, address bits 26:12).
pub open spec fn flreg_base(flreg: u32) -> int {
    (flreg & 0x7FFFu32) * 4096
}

/// The inclusive limit address that a FLREG value encodes (bits 30:16,
/// address bits 26:12, with the low twelve bits set).
pub open spec fn flreg_limit(flreg: u32) -> int {
    ((flreg >> 16u32) & 0x7FFFu32) * 4096 + 4095
}

/// Extract base address from a Flash Region register (FLREG)
pub fn freg_base(flreg: u32) -> (r: u32)
    ensures
        r == flreg_base(flreg),
{
    assert(((flreg << 12u32) & 0x07FFF000u32) == (flreg & 0x7FFFu32) * 4096) by (bit_vector);
    (flreg << 12u32) & 0x07FFF000u32
}

/// Extract limit address from a Flash Region register (FLREG)
pub fn freg_limit(flreg: u32) -> (r: u32)
    ensures
        r == flreg_limit(flreg),
{
    assert((((flreg >> 4u32) & 0x07FFF000u32) | 0x00000FFFu32) == ((flreg >> 16u32) & 0x7FFFu32) * 4096
        + 4095) by (bit_vector);
    ((flreg >> 4u32) & 0x07FFF000u32) | 0x00000FFFu32
}

/// The little-endian dword of `d` at `i`.
pub open spec fn dword_at(d: Seq<u8>, i: int) -> u32 {
    le32_at(d, i) as u32
}

/// The descriptor signature is at offset `o` of `d`, with a whole header.
pub open spec fn ifd_signature_at(d: Seq<u8>, o: int) -> bool {
    o + 16 <= d.len() && le32_at(d, o) == IFD_SIGNATURE
}

/// `d` holds a descriptor signature at offset 0 or at 0x10.
pub open spec fn spec_has_ifd(d: Seq<u8>) -> bool {
    ifd_signature_at(d, 0) || ifd_signature_at(d, 16)
}

/// Offset of the descriptor header: 0 where the signature is there, else 0x10.
pub open spec fn ifd_header(d: Seq<u8>) -> int {
    if ifd_signature_at(d, 0) { 0 } else { 16 }
}

/// FLMAP0 of the descriptor.
pub open spec fn ifd_flmap0(d: Seq<u8>) -> u32 {
    dword_at(d, ifd_header(d) + 4)
}

/// The flash region base address (FRBA): bits 23:16 of FLMAP0, times 16.
pub open spec fn ifd_frba(d: Seq<u8>) -> int {
    ((ifd_flmap0(d) >> 16u32) & 0xFFu32) * 16
}

/// The generation of the descriptor.
pub open spec fn ifd_generation(d: Seq<u8>) -> IfdGeneration {
    spec_guess_generation(
        dword_at(d, ifd_header(d) + 8),
        dword_at(d, ifd_header(d) + 12),
        dword_at(d, UPPER_MAP_OFFSET as int),
    )
}

/// `d` is a descriptor that `parse_ifd` accepts: at least 4 KiB, a
/// signature, a region count for its generation, and all its FLREGs in `d`.
pub open spec fn ifd_parses(d: Seq<u8>) -> bool {
    &&& d.len() >= 0x1000
    &&& spec_has_ifd(d)
    &&& spec_region_count(ifd_generation(d), ifd_flmap0(d)) is Some
    &&& ifd_frba(d) + 4 * spec_region_count(ifd_generation(d), ifd_flmap0(d))->0 <= d.len()
}

/// The value of FLREG `i`.
pub open spec fn ifd_flreg(d: Seq<u8>, i: int) -> u32 {
    dword_at(d, ifd_frba(d) + 4 * i)
}

/// Whether a FLREG of `d` is in use (its limit lies above its base), by index.
pub open spec fn flreg_used(d: Seq<u8>) -> spec_fn(int) -> bool {
    |i: int| flreg_limit(ifd_flreg(d, i)) > flreg_base(ifd_flreg(d, i))
}

/// The indices, in order, of the used FLREGs among the first `n`.
pub open spec fn used_flregs(d: Seq<u8>, n: int) -> Seq<int> {
    index_seq(n).filter(flreg_used(d))
}

/// `r` is the region that FLREG `i` of `d` describes.
pub open spec fn region_of_flreg(r: Region, d: Seq<u8>, i: int) -> bool {
    let name = ifd_region_name(ifd_generation(d), i);
    &&& r.name@ == name
    &&& r.start == flreg_base(ifd_flreg(d, i))
    &&& r.end == flreg_limit(ifd_flreg(d, i))
    &&& r.readonly == is_readonly_name(name)
    &&& r.dangerous == is_dangerous_name(name)
    &&& !r.included
}

/// Regions take the Intel name of their FLREG index in a descriptor of a
/// generation without its own naming (ICH/early PCH, Lynx Point, Sunrise
/// Point, Cannon Point and later): FLREG0 is the descriptor, 1 the BIOS,
/// 2 the ME, 3 Gigabit Ethernet ("gbe"), 4 platform data ("platform"),
/// 6 the second BIOS, 8 the EC, 10 SSE, 11 NIS, 13 IRC, 15 PTT; the
/// others are called "region" and their index.
pub proof fn lemma_standard_flreg_names(r: Region, d: Seq<u8>, i: int)
    requires
        0 <= i < 16,
        region_of_flreg(r, d, i),
        ifd_generation(d) == IfdGeneration::Legacy || ifd_generation(d) == IfdGeneration::LynxPoint
            || ifd_generation(d) == IfdGeneration::SunrisePoint || ifd_generation(d)
            == IfdGeneration::SixteenRegions,
    ensures
        i == 0 ==> r.name@ == "descriptor"@,
        i == 1 ==> r.name@ == "bios"@,
        i == 2 ==> r.name@ == "me"@,
        i == 3 ==> r.name@ == "gbe"@,
        i == 4 ==> r.name@ == "platform"@,
        i == 5 ==> r.name@ == "region5"@,
        i == 6 ==> r.name@ == "bios2"@,
        i == 7 ==> r.name@ == "region7"@,
        i == 8 ==> r.name@ == "ec"@,
        i == 9 ==> r.name@ == "region9"@,
        i == 10 ==> r.name@ == "sse"@,
        i == 11 ==> r.name@ == "nis"@,
        i == 12 ==> r.name@ == "region12"@,
        i == 13 ==> r.name@ == "irc"@,
        i == 14 ==> r.name@ == "region14"@,
        i == 15 ==> r.name@ == "ptt"@,
{
}

/// `u` holds, in FLREG order, the regions of the used FLREGs of `d`.
pub open spec fn regions_of_flregs(u: Seq<Region>, d: Seq<u8>) -> bool {
    let idx = used_flregs(d, spec_region_count(ifd_generation(d), ifd_flmap0(d))->0);
    &&& u.len() == idx.len()
    &&& forall|j: int| 0 <= j < u.len() ==> #[trigger] region_of_flreg(u[j], d, idx[j])
}

/// `l` is the layout that the descriptor `d` describes: its used regions
/// stably sorted by start address.
pub open spec fn ifd_layout(l: Layout, d: Seq<u8>) -> bool {
    &&& l.source == LayoutSource::Ifd
    &&& l.chip_size is None
    &&& l.name is Some
    &&& l.name->0@ == "Intel Flash Descriptor"@
    &&& exists|u: Seq<Region>| #[trigger] regions_of_flregs(u, d) && stably_sorted_by_start(u, l.regions@)
}

/// The little-endian dword at `i`, if `d` holds it.
fn read_dword(d: &[u8], i: usize) -> (r: Option<u32>)
    ensures
        match r {
            Some(v) => i + 4 <= d@.len() && v == dword_at(d@, i as int),
            None => i + 4 > d@.len(),
        },
{
    let n = d.len();
    if i > n || n - i < 4 {
        return None;
    }
    let v = (d[i] as u32) + (d[i + 1] as u32) * 256 + (d[i + 2] as u32) * 65536 + (d[i + 3] as u32) * 16777216;
    Some(v)
}

/// Whether a descriptor header with its signature starts at `offset`.
fn ifd_header_at(data: &[u8], offset: usize) -> (r: bool)
    requires
        offset <= 16,
    ensures
        r == ifd_signature_at(data@, offset as int),
{
    let n = data.len();
    if n < offset + 16 {
        return false;
    }
    match read_dword(data, offset) {
        Some(sig) => sig == IFD_SIGNATURE,
        None => false,
    }
}

/// Check if data appears to contain an Intel Flash Descriptor
pub fn has_ifd(data: &[u8]) -> (r: bool)
    ensures
        r == spec_has_ifd(data@),
{
    ifd_header_at(data, 0) || ifd_header_at(data, 0x10)
}

/// Parse Intel Flash Descriptor from raw data
///
/// The IFD is located at the beginning of the flash chip (first 4KB typically).
pub fn parse_ifd(data: &[u8]) -> (r: Result<Layout, LayoutError>)
    ensures
        match r {
            Ok(l) => ifd_parses(data@) && ifd_layout(l, data@),
            Err(e) => e == LayoutError::InvalidIfdSignature && !ifd_parses(data@),
        },
{
    let ghost d = data@;
    let n = data.len();
    if n < 0x1000 {
        return Err(LayoutError::InvalidIfdSignature);
    }
    let header: usize = if ifd_header_at(data, 0) {
        0
    } else if ifd_header_at(data, 0x10) {
        0x10
    } else {
        return Err(LayoutError::InvalidIfdSignature);
    };
    assert(header == ifd_header(d));
    let flmap0 = match read_dword(data, header + 4) {
        Some(v) => v,
        None => return Err(LayoutError::InvalidIfdSignature),
    };
    let flmap1 = match read_dword(data, header + 8) {
        Some(v) => v,
        None => return Err(LayoutError::InvalidIfdSignature),
    };
    let flmap2 = match read_dword(data, header + 12) {
        Some(v) => v,
        None => return Err(LayoutError::InvalidIfdSignature),
    };
    let flumap1 = match read_dword(data, UPPER_MAP_OFFSET) {
        Some(v) => v,
        None => return Err(LayoutError::InvalidIfdSignature),
    };
    assert(((flmap0 >> 12u32) & 0xFF0u32) == ((flmap0 >> 16u32) & 0xFFu32) * 16) by (bit_vector);
    let frba = ((flmap0 >> 12u32) & 0xFF0u32) as usize;
    assert(frba == ifd_frba(d));
    let generation = guess_ifd_generation(flmap1, flmap2, flumap1);
    assert(generation == ifd_generation(d));
    let num_regions = match ifd_region_count(generation, flmap0) {
        Some(c) => c,
        None => return Err(LayoutError::InvalidIfdSignature),
    };
    if frba > n || (n - frba) / 4 < num_regions {
        return Err(LayoutError::InvalidIfdSignature);
    }
    let mut layout = Layout::with_source(LayoutSource::Ifd);
    layout.name = Some("Intel Flash Descriptor".to_owned());
    let ghost pred = flreg_used(d);
    proof {
        reveal(Seq::filter);
        assert(index_seq(0).filter(pred) =~= Seq::<int>::empty());
    }
    let mut i: usize = 0;
    while i < num_regions
        invariant
            d == data@,
            n == d.len(),
            ifd_parses(d),
            generation == ifd_generation(d),
            frba == ifd_frba(d),
            Some(num_regions as int) == spec_region_count(generation, ifd_flmap0(d)),
            num_regions <= 16,
            i <= num_regions,
            pred == flreg_used(d),
            layout.source == LayoutSource::Ifd,
            layout.chip_size is None,
            layout.name is Some,
            layout.name->0@ == "Intel Flash Descriptor"@,
            layout.regions@.len() == used_flregs(d, i as int).len(),
            forall|j: int| 0 <= j < layout.regions@.len() ==> #[trigger] region_of_flreg(
                layout.regions@[j],
                d,
                used_flregs(d, i as int)[j],
            ),
        decreases num_regions - i,
    {
        let ghost s0 = index_seq(i as int);
        let ghost s1 = index_seq(i + 1);
        proof {
            reveal(Seq::filter);
            assert(s1.drop_last() =~= s0);
            assert(s1.last() == i);
        }
        let flreg = match read_dword(data, frba + 4 * i) {
            Some(v) => v,
            None => return Err(LayoutError::InvalidIfdSignature),
        };
        assert(flreg == ifd_flreg(d, i as int));
        let base = freg_base(flreg);
        let limit = freg_limit(flreg);
        if limit > base {
            let name = region_name(generation, i);
            let flags = region_flags(generation, i);
            let mut region = Region::new(name, base, limit);
            region.readonly = flags.0;
            region.dangerous = flags.1;
            let ghost before = layout.regions@;
            layout.add_region(region);
            proof {
                assert(pred(i as int));
                assert(s1.filter(pred) == s0.filter(pred).push(i as int));
                assert forall|j: int| 0 <= j < layout.regions@.len() implies #[trigger] region_of_flreg(
                    layout.regions@[j],
                    d,
                    used_flregs(d, i + 1)[j],
                ) by {
                    if j < before.len() {
                        assert(layout.regions@[j] == before[j]);
                    }
                }
            }
        } else {
            assert(!pred(i as int));
            assert(s1.filter(pred) == s0.filter(pred));
        }
        i += 1;
    }
    let ghost unsorted = layout.regions@;
    assert(regions_of_flregs(unsorted, d));
    layout.sort_by_address();
    Ok(layout)
}

impl Layout {
    /// Parse layout from Intel Flash Descriptor in raw data
    pub fn from_ifd(data: &[u8]) -> (r: Result<Layout, LayoutError>)
        ensures
            match r {
                Ok(l) => ifd_parses(data@) && ifd_layout(l, data@),
                Err(e) => e == LayoutError::InvalidIfdSignature && !ifd_parses(data@),
            },
    {
        parse_ifd(data)
    }
}

} // verus!
