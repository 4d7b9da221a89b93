//! SFDP reading and parsing, conversion to a chip description and
//! comparison with a database entry.
use vstd::prelude::*;
use crate::chip::database::ChipDatabase;
use crate::chip::features::{Features, QeMethod};
use crate::chip::types::{same_chip, ChipTestStatus, EraseBlock, EraseRegion, FlashChip, TestStatus, WriteGranularity};
use vstd::string::StringExecFns;
use crate::error::Error;
use crate::programmer::traits::SpiMaster;
use crate::protocol::spi25;
use crate::protocol::spi25::{answered, chunked_read, extends, lemma_answered, lemma_new_chain, lemma_replies_concat, new_transactions, read_refused, replies, CommandAddressing};
use crate::programmer::traits::Transaction;
use crate::spi::io_mode::IoMode;
use crate::spi::opcodes;
use super::types::{
    le_u32, sorted_by_size, sorted_valid_erase_types, u32_from_le, AddressMode, BasicFlashParams, FastReadParams, FourByteAddrEraseOpcodes,
    FourByteAddrInstructions, FourByteAddrTable, FourByteEntryMethods, ParameterHeader,
    QuadEnableRequirement, SfdpEraseType, SfdpHeader, SfdpInfo, SfdpRevision, SoftResetSupport,
    WriteEnableForVolatileSr, spec_erase_type, MAX_PARAMETER_HEADERS, PARAM_ID_4BYTE_ADDR,
    PARAM_ID_BASIC, SFDP_SIGNATURE,
};

verus! {

/// Read raw SFDP data at `addr` from flash.
pub fn read_sfdp<M: SpiMaster + ?Sized>(master: &mut M, addr: u32, buf: &mut [u8]) -> (r: Result<(), Error>)
    requires
        addr + old(buf)@.len() <= 0x1_0000_0000,
    ensures
        final(buf)@.len() == old(buf)@.len(),
        extends(old(master).transactions(), final(master).transactions()),
        chunked_read(new_transactions(old(master).transactions(), final(master).transactions()), opcodes::RDSFDP,
            addr, CommandAddressing::ThreeByte, IoMode::Single, 8),
        r is Ok ==> final(buf)@ == replies(new_transactions(old(master).transactions(), final(master).transactions())),
        final(master).spec_max_read_len() == old(master).spec_max_read_len(),
        r matches Err(e) ==> answered(old(master).transactions(), final(master).transactions(), e)
            || (e == Error::ChipNotSupported && old(buf)@.len() > 0 && final(master).spec_max_read_len() == 0),
{
    spi25::read_sfdp(master, addr, buf)
}

/// No transaction after `before` answered an error, and the programmer
/// reads something per command.
pub open spec fn reads_clean(before: Seq<Transaction>, after: Seq<Transaction>, max_read_len: usize) -> bool {
    &&& !exists|e: Error| #[trigger] answered(before, after, e)
    &&& max_read_len > 0
}

/// A clean record stays clean back to any earlier point.
proof fn lemma_clean_earlier(t0: Seq<Transaction>, t1: Seq<Transaction>, t2: Seq<Transaction>, m: usize)
    requires
        extends(t0, t1),
        extends(t1, t2),
        reads_clean(t0, t2, m),
    ensures
        reads_clean(t0, t1, m),
        reads_clean(t1, t2, m),
{
    assert forall|e: Error| !#[trigger] answered(t0, t1, e) by {
        if answered(t0, t1, e) {
            lemma_answered(t0, t1, t2, e);
        }
    }
    assert forall|e: Error| !#[trigger] answered(t1, t2, e) by {
        if answered(t1, t2, e) {
            lemma_answered(t0, t1, t2, e);
        }
    }
}

/// What `check_header` makes of a header.
pub open spec fn spec_check_header(h: SfdpHeader) -> Result<SfdpHeader, Error> {
    if h.signature == SFDP_SIGNATURE && h.revision.major == 1 {
        Ok(h)
    } else {
        Err(Error::ChipNotSupported)
    }
}

/// Accept an SFDP header with a valid signature and major revision 1.
pub fn check_header(header: SfdpHeader) -> (r: Result<SfdpHeader, Error>)
    ensures
        r == (if header.signature == SFDP_SIGNATURE && header.revision.major == 1 {
            Ok::<SfdpHeader, Error>(header)
        } else {
            Err(Error::ChipNotSupported)
        }),
{
    if !header.is_valid() {
        return Err(Error::ChipNotSupported);
    }
    if header.revision.major != 1 {
        return Err(Error::ChipNotSupported);
    }
    Ok(header)
}

/// Read the SFDP header and verify signature and major revision.
fn parse_header<M: SpiMaster + ?Sized>(master: &mut M) -> (r: Result<SfdpHeader, Error>)
    ensures
        r matches Ok(h) ==> h.signature == SFDP_SIGNATURE && h.revision.major == 1,
        extends(old(master).transactions(), final(master).transactions()),
        chunked_read(new_transactions(old(master).transactions(), final(master).transactions()), opcodes::RDSFDP,
            0, CommandAddressing::ThreeByte, IoMode::Single, 8),
        r matches Ok(h) ==> h == SfdpHeader::spec_parse(replies(new_transactions(old(master).transactions(), final(master).transactions()))) && replies(new_transactions(old(master).transactions(), final(master).transactions())).len() == 8,
        final(master).spec_max_read_len() == old(master).spec_max_read_len(),
        r matches Err(e) ==> answered(old(master).transactions(), final(master).transactions(), e) || e == Error::ChipNotSupported,
        reads_clean(old(master).transactions(), final(master).transactions(), final(master).spec_max_read_len())
            ==> replies(new_transactions(old(master).transactions(), final(master).transactions())).len() == 8
            && r == spec_check_header(SfdpHeader::spec_parse(replies(new_transactions(old(master).transactions(), final(master).transactions())))),
{
    let mut buf = [0u8; 8];
    let rr = read_sfdp(master, 0x00, &mut buf);
    proof {
        if rr is Err {
            let e = rr->Err_0;
            if answered(old(master).transactions(), master.transactions(), e) {
                assert(!reads_clean(old(master).transactions(), master.transactions(), master.spec_max_read_len()));
            }
        }
    }
    rr?;
    check_header(SfdpHeader::parse(&buf))
}

/// Read and parse parameter header `index` (at 0x08 + 8 * index).
fn read_param_header<M: SpiMaster + ?Sized>(master: &mut M, index: usize) -> (r: Result<ParameterHeader, Error>)
    requires
        index < MAX_PARAMETER_HEADERS,
    ensures
        r matches Ok(h) ==> h.table_pointer < 0x0100_0000,
        extends(old(master).transactions(), final(master).transactions()),
        chunked_read(new_transactions(old(master).transactions(), final(master).transactions()), opcodes::RDSFDP,
            (0x08 + index * 8) as u32, CommandAddressing::ThreeByte, IoMode::Single, 8),
        r matches Ok(h) ==> h == ParameterHeader::spec_parse(replies(new_transactions(old(master).transactions(), final(master).transactions()))),
        final(master).spec_max_read_len() == old(master).spec_max_read_len(),
        r matches Err(e) ==> answered(old(master).transactions(), final(master).transactions(), e) || e == Error::ChipNotSupported,
        reads_clean(old(master).transactions(), final(master).transactions(), final(master).spec_max_read_len())
            ==> r is Ok && replies(new_transactions(old(master).transactions(), final(master).transactions())).len() == 8,
{
    let mut buf = [0u8; 8];
    let addr = 0x08 + (index as u32 * 8);
    let rr = read_sfdp(master, addr, &mut buf);
    proof {
        if rr is Err {
            let e = rr->Err_0;
            if answered(old(master).transactions(), master.transactions(), e) {
                assert(!reads_clean(old(master).transactions(), master.transactions(), master.spec_max_read_len()));
            }
        }
    }
    rr?;
    let h = ParameterHeader::parse(&buf);
    proof { lemma_24bit_pointer(buf@[4], buf@[5], buf@[6]); }
    Ok(h)
}

/// A table pointer assembled from three bytes fits 24 bits.
proof fn lemma_24bit_pointer(b0: u8, b1: u8, b2: u8)
    ensures
        le_u32(b0, b1, b2, 0) < 0x0100_0000,
{
    assert((b0 as u32) | ((b1 as u32) << 8u32) | ((b2 as u32) << 16u32) | ((0u8 as u32) << 24u32) < 0x0100_0000)
        by (bit_vector);
}

/// BFPT DWORD 1 applied to the parameters: 4 KiB erase opcode (when bits
/// [1:0] say supported, else 0xFF), write granularity, volatile status
/// register and its write enable, 1-1-2/1-2-2/1-4-4/1-1-4 fast read,
/// address bytes and DTR clocking.
pub open spec fn apply_dword1(p: BasicFlashParams, d: u32) -> BasicFlashParams {
    BasicFlashParams {
        write_granularity_64: d & (1u32 << 2u32) != 0,
        status_reg_volatile: d & (1u32 << 3u32) != 0,
        volatile_sr_write_enable: if d & (1u32 << 4u32) != 0 {
            WriteEnableForVolatileSr::Wren
        } else {
            WriteEnableForVolatileSr::Ewsr
        },
        erase_4k_opcode: if d & 0x03 == 0x01 { ((d >> 8u32) & 0xFF) as u8 } else { 0xFF },
        fast_read_112: d & (1u32 << 16u32) != 0,
        address_mode: AddressMode::spec_from_bfpt(((d >> 17u32) & 0x03) as u8),
        dtr_clocking: d & (1u32 << 19u32) != 0,
        fast_read_122: d & (1u32 << 20u32) != 0,
        fast_read_144: d & (1u32 << 21u32) != 0,
        fast_read_114: d & (1u32 << 22u32) != 0,
        ..p
    }
}

/// JESD216 address bytes, BFPT DWORD 1 bits [18:17]: `00` gives 3-byte
/// only, `01` 3- or 4-byte, `10` 4-byte only (and the reserved `11` 3-byte
/// only); 4-byte addressing is required exactly for `10`.
pub proof fn lemma_dword1_address_mode(p: BasicFlashParams, d: u32)
    ensures
        (apply_dword1(p, d).address_mode == AddressMode::ThreeByteOnly) <==> (d & (1u32 << 17u32)
            != 0) == (d & (1u32 << 18u32) != 0),
        (apply_dword1(p, d).address_mode == AddressMode::ThreeOrFourByte) <==> (d & (1u32
            << 17u32) != 0 && d & (1u32 << 18u32) == 0),
        (apply_dword1(p, d).address_mode == AddressMode::FourByteOnly) <==> (d & (1u32 << 17u32)
            == 0 && d & (1u32 << 18u32) != 0),
{
    let v: u8 = ((d >> 17u32) & 0x03) as u8;
    assert((v & 0x03 == 1 <==> (d & (1u32 << 17u32) != 0 && d & (1u32 << 18u32) == 0)) && (v
        & 0x03 == 2 <==> (d & (1u32 << 17u32) == 0 && d & (1u32 << 18u32) != 0))) by (bit_vector)
        requires
            v == ((d >> 17u32) & 0x03) as u8,
    ;
}

/// Parse Basic Flash Parameter Table DWORD 1.
pub fn parse_bfpt_dword1(dword: u32, params: &mut BasicFlashParams)
    ensures
        *final(params) == apply_dword1(*old(params), dword),
{
    let erase_4k_support = (dword & 0x03) == 0x01;
    params.write_granularity_64 = (dword & (1u32 << 2u32)) != 0;
    params.status_reg_volatile = (dword & (1u32 << 3u32)) != 0;
    params.volatile_sr_write_enable = if (dword & (1u32 << 4u32)) != 0 {
        WriteEnableForVolatileSr::Wren
    } else {
        WriteEnableForVolatileSr::Ewsr
    };
    params.erase_4k_opcode = if erase_4k_support { ((dword >> 8u32) & 0xFF) as u8 } else { 0xFF };
    params.fast_read_112 = (dword & (1u32 << 16u32)) != 0;
    params.address_mode = AddressMode::from_bfpt(((dword >> 17u32) & 0x03) as u8);
    params.dtr_clocking = (dword & (1u32 << 19u32)) != 0;
    params.fast_read_122 = (dword & (1u32 << 20u32)) != 0;
    params.fast_read_144 = (dword & (1u32 << 21u32)) != 0;
    params.fast_read_114 = (dword & (1u32 << 22u32)) != 0;
}

/// The density in DWORD 2 still fits a 64-bit byte count: in the 2^N-bits
/// format, N below 67.
pub open spec fn density_fits(d: u32) -> bool {
    d & 0x8000_0000 != 0 && d & 0x7FFF_FFFF >= 3 ==> d & 0x7FFF_FFFF < 67
}

/// BFPT DWORD 2 applied: with bit 31 clear, bits [30:0] are the density in
/// bits minus one; with bit 31 set, they are N with a density of 2^N bits
/// (N below 3 leaves the density unchanged).
pub open spec fn apply_dword2(p: BasicFlashParams, d: u32) -> BasicFlashParams {
    if d & 0x8000_0000 == 0 {
        BasicFlashParams { density_bytes: (((d & 0x7FFF_FFFF) as u64) + 1) as u64 / 8, ..p }
    } else if d & 0x7FFF_FFFF >= 3 {
        BasicFlashParams { density_bytes: (1u64 << ((d & 0x7FFF_FFFF) - 3) as u64) as u64, ..p }
    } else {
        p
    }
}

/// Parse Basic Flash Parameter Table DWORD 2 (flash density).
pub fn parse_bfpt_dword2(dword: u32, params: &mut BasicFlashParams)
    requires
        density_fits(dword),
    ensures
        *final(params) == apply_dword2(*old(params), dword),
{
    if (dword & 0x8000_0000) == 0 {
        let bits = dword & 0x7FFF_FFFF;
        params.density_bytes = ((bits as u64) + 1) / 8;
    } else {
        let n = dword & 0x7FFF_FFFF;
        if n >= 3 {
            params.density_bytes = 1u64 << ((n - 3) as u64);
        }
    }
}

/// BFPT DWORD 3 applied: 1-1-4 fast read in the high half, 1-4-4 in the low.
pub open spec fn apply_dword3(p: BasicFlashParams, d: u32) -> BasicFlashParams {
    BasicFlashParams {
        fast_read_114_params: FastReadParams::spec_from_high_half(d),
        fast_read_144_params: FastReadParams::spec_from_low_half(d),
        ..p
    }
}

/// Parse Basic Flash Parameter Table DWORD 3 (1-1-4 and 1-4-4 fast read).
pub fn parse_bfpt_dword3(dword: u32, params: &mut BasicFlashParams)
    ensures
        *final(params) == apply_dword3(*old(params), dword),
{
    params.fast_read_114_params = FastReadParams::from_high_half(dword);
    params.fast_read_144_params = FastReadParams::from_low_half(dword);
}

/// BFPT DWORD 4 applied: 1-2-2 fast read in the high half, 1-1-2 in the low.
pub open spec fn apply_dword4(p: BasicFlashParams, d: u32) -> BasicFlashParams {
    BasicFlashParams {
        fast_read_122_params: FastReadParams::spec_from_high_half(d),
        fast_read_112_params: FastReadParams::spec_from_low_half(d),
        ..p
    }
}

/// Parse Basic Flash Parameter Table DWORD 4 (1-2-2 and 1-1-2 fast read).
pub fn parse_bfpt_dword4(dword: u32, params: &mut BasicFlashParams)
    ensures
        *final(params) == apply_dword4(*old(params), dword),
{
    params.fast_read_122_params = FastReadParams::from_high_half(dword);
    params.fast_read_112_params = FastReadParams::from_low_half(dword);
}

/// BFPT DWORD 5 applied: 2-2-2 (bit 0) and 4-4-4 (bit 4) fast read.
pub open spec fn apply_dword5(p: BasicFlashParams, d: u32) -> BasicFlashParams {
    BasicFlashParams { fast_read_222: d & 1 != 0, fast_read_444: d & (1u32 << 4u32) != 0, ..p }
}

/// Parse Basic Flash Parameter Table DWORD 5 (2-2-2 and 4-4-4 support).
pub fn parse_bfpt_dword5(dword: u32, params: &mut BasicFlashParams)
    ensures
        *final(params) == apply_dword5(*old(params), dword),
{
    params.fast_read_222 = (dword & 1) != 0;
    params.fast_read_444 = (dword & (1u32 << 4u32)) != 0;
}

/// Parse Basic Flash Parameter Table DWORD 6 (2-2-2 fast read, high half).
pub fn parse_bfpt_dword6(dword: u32, params: &mut BasicFlashParams)
    ensures
        *final(params) == (BasicFlashParams {
            fast_read_222_params: FastReadParams::spec_from_high_half(dword),
            ..*old(params)
        }),
{
    params.fast_read_222_params = FastReadParams::from_high_half(dword);
}

/// Parse Basic Flash Parameter Table DWORD 7 (4-4-4 fast read, high half).
pub fn parse_bfpt_dword7(dword: u32, params: &mut BasicFlashParams)
    ensures
        *final(params) == (BasicFlashParams {
            fast_read_444_params: FastReadParams::spec_from_high_half(dword),
            ..*old(params)
        }),
{
    params.fast_read_444_params = FastReadParams::from_high_half(dword);
}

/// An erase type's size exponent fits the 32-bit size when the type is present.
pub open spec fn erase_exp_fits(size_exp: u8, opcode: u8) -> bool {
    size_exp == 0 || opcode == 0xFF || size_exp < 32
}

/// The erase types of DWORDs 8 and 9: each byte pair is (size exponent,
/// opcode), type 1 lowest.
pub open spec fn spec_erase_types(dword8: u32, dword9: u32) -> Seq<SfdpEraseType> {
    seq![
        spec_erase_type((dword8 & 0xFF) as u8, ((dword8 >> 8u32) & 0xFF) as u8),
        spec_erase_type(((dword8 >> 16u32) & 0xFF) as u8, ((dword8 >> 24u32) & 0xFF) as u8),
        spec_erase_type((dword9 & 0xFF) as u8, ((dword9 >> 8u32) & 0xFF) as u8),
        spec_erase_type(((dword9 >> 16u32) & 0xFF) as u8, ((dword9 >> 24u32) & 0xFF) as u8),
    ]
}

/// The erase types of DWORDs 8 and 9 all fit.
pub open spec fn erase_types_fit(dword8: u32, dword9: u32) -> bool {
    &&& erase_exp_fits((dword8 & 0xFF) as u8, ((dword8 >> 8u32) & 0xFF) as u8)
    &&& erase_exp_fits(((dword8 >> 16u32) & 0xFF) as u8, ((dword8 >> 24u32) & 0xFF) as u8)
    &&& erase_exp_fits((dword9 & 0xFF) as u8, ((dword9 >> 8u32) & 0xFF) as u8)
    &&& erase_exp_fits(((dword9 >> 16u32) & 0xFF) as u8, ((dword9 >> 24u32) & 0xFF) as u8)
}

/// Parse Basic Flash Parameter Table DWORDs 8-9 (erase types).
pub fn parse_bfpt_erase_types(dword8: u32, dword9: u32, params: &mut BasicFlashParams)
    requires
        erase_types_fit(dword8, dword9),
    ensures
        final(params).erase_types@ == spec_erase_types(dword8, dword9),
        *final(params) == (BasicFlashParams { erase_types: final(params).erase_types, ..*old(params) }),
{
    let e1 = SfdpEraseType::from_raw((dword8 & 0xFF) as u8, ((dword8 >> 8u32) & 0xFF) as u8);
    let e2 = SfdpEraseType::from_raw(((dword8 >> 16u32) & 0xFF) as u8, ((dword8 >> 24u32) & 0xFF) as u8);
    let e3 = SfdpEraseType::from_raw((dword9 & 0xFF) as u8, ((dword9 >> 8u32) & 0xFF) as u8);
    let e4 = SfdpEraseType::from_raw(((dword9 >> 16u32) & 0xFF) as u8, ((dword9 >> 24u32) & 0xFF) as u8);
    params.erase_types = [e1, e2, e3, e4];
    assert(params.erase_types@ =~= spec_erase_types(dword8, dword9));
}

/// The page size of DWORD 11 bits [7:4] (2^N bytes, 256 when N is 0).
pub open spec fn spec_page_size(d: u32) -> u32 {
    let e = ((d >> 4u32) & 0x0F) as u8;
    if e > 0 { (1u32 << e) as u32 } else { 256 }
}

/// Parse Basic Flash Parameter Table DWORD 11 (page size).
pub fn parse_bfpt_dword11(dword: u32, params: &mut BasicFlashParams)
    ensures
        *final(params) == (BasicFlashParams { page_size: spec_page_size(dword), ..*old(params) }),
        spec_page_size(dword) > 0,
{
    let page_size_exp = ((dword >> 4u32) & 0x0F) as u8;
    assert(page_size_exp < 16) by (bit_vector)
        requires page_size_exp == ((dword >> 4u32) & 0x0F) as u8;
    assert(page_size_exp < 16 ==> (1u32 << page_size_exp) > 0) by (bit_vector);
    if page_size_exp > 0 {
        params.page_size = 1u32 << page_size_exp;
    } else {
        params.page_size = 256;
    }
}

/// Parse Basic Flash Parameter Table DWORD 15 (quad enable requirements, bits [22:20]).
pub fn parse_bfpt_dword15(dword: u32, params: &mut BasicFlashParams)
    ensures
        *final(params) == (BasicFlashParams {
            quad_enable: QuadEnableRequirement::spec_from_bfpt(((dword >> 20u32) & 0x07) as u8),
            ..*old(params)
        }),
{
    let qer = ((dword >> 20u32) & 0x07) as u8;
    params.quad_enable = QuadEnableRequirement::from_bfpt(qer);
}

/// Parse Basic Flash Parameter Table DWORD 16 (soft reset, bits [13:8];
/// 4-byte address entry methods, bits [31:24]).
pub fn parse_bfpt_dword16(dword: u32, params: &mut BasicFlashParams)
    ensures
        *final(params) == (BasicFlashParams {
            soft_reset: SoftResetSupport { methods: (((dword >> 8u32) & 0x3F) as u8) & 0x3F },
            four_byte_entry: FourByteEntryMethods { methods: ((dword >> 24u32) & 0xFF) as u8 },
            ..*old(params)
        }),
{
    let soft_reset_bits = ((dword >> 8u32) & 0x3F) as u8;
    params.soft_reset = SoftResetSupport::from_bfpt(soft_reset_bits);
    let entry_bits = ((dword >> 24u32) & 0xFF) as u8;
    params.four_byte_entry = FourByteEntryMethods::from_bfpt(entry_bits);
}

/// DWORD at byte `off` of a parameter table, 0 beyond its end.
pub open spec fn table_dword(data: Seq<u8>, off: int) -> u32 {
    if off + 4 <= data.len() {
        le_u32(data[off], data[off + 1], data[off + 2], data[off + 3])
    } else {
        0
    }
}

fn get_dword(data: &[u8], off: usize) -> (r: u32)
    requires
        off <= 92,
    ensures
        r == table_dword(data@, off as int),
{
    if off + 4 <= data.len() {
        u32_from_le(data[off], data[off + 1], data[off + 2], data[off + 3])
    } else {
        0
    }
}

/// Parameters before any DWORD is applied: the table revision and all
/// other fields zero, false or their first variant.
fn new_params(revision: SfdpRevision) -> (p: BasicFlashParams)
    ensures
        p.revision == revision,
        p.density_bytes == 0,
        p.page_size == 0,
        p.quad_enable == QuadEnableRequirement::NoQeBit,
        p.four_byte_entry.methods == 0,
        p.soft_reset.methods == 0,
{
    let zero_read = FastReadParams { opcode: 0, mode_clocks: 0, dummy_clocks: 0 };
    let no_erase = SfdpEraseType { opcode: 0, size: 0 };
    BasicFlashParams {
        revision,
        density_bytes: 0,
        page_size: 0,
        address_mode: AddressMode::ThreeByteOnly,
        erase_types: [no_erase, no_erase, no_erase, no_erase],
        volatile_sr_write_enable: WriteEnableForVolatileSr::Wren,
        status_reg_volatile: false,
        write_granularity_64: false,
        fast_read_112: false,
        fast_read_122: false,
        fast_read_114: false,
        fast_read_144: false,
        fast_read_222: false,
        fast_read_444: false,
        dtr_clocking: false,
        quad_enable: QuadEnableRequirement::NoQeBit,
        four_byte_entry: FourByteEntryMethods { methods: 0 },
        soft_reset: SoftResetSupport { methods: 0 },
        erase_4k_opcode: 0,
        fast_read_114_params: zero_read,
        fast_read_144_params: zero_read,
        fast_read_122_params: zero_read,
        fast_read_112_params: zero_read,
        fast_read_222_params: zero_read,
        fast_read_444_params: zero_read,
    }
}

/// The density in bytes that DWORD 2 gives a blank table (0 for an
/// exponent below 3).
pub open spec fn spec_density(d: u32) -> u64 {
    apply_dword2(BasicFlashParams { density_bytes: 0, ..arbitrary() }, d).density_bytes
}

/// The fields of a Basic Flash Parameter Table parsed from `data` (the
/// bytes read of a table of `len` bytes, at most 92) with revision `rev`.
pub open spec fn bfpt_fields(data: Seq<u8>, rev: SfdpRevision, len: int, p: BasicFlashParams) -> bool {
    let d1 = table_dword(data, 0);
    let d3 = table_dword(data, 8);
    let d4 = table_dword(data, 12);
    let d5 = table_dword(data, 16);
    let d6 = table_dword(data, 20);
    let d7 = table_dword(data, 24);
    let d11 = table_dword(data, 40);
    let d15 = table_dword(data, 56);
    let d16 = table_dword(data, 60);
    &&& p.revision == rev
    &&& p.density_bytes == spec_density(table_dword(data, 4))
    &&& p.page_size == (if len >= 44 { spec_page_size(d11) } else { 256 })
    &&& p.write_granularity_64 == apply_dword1(p, d1).write_granularity_64
    &&& p == apply_dword1(p, d1)
    &&& p == apply_dword3(p, d3)
    &&& p == apply_dword4(p, d4)
    &&& p == apply_dword5(p, d5)
    &&& p.fast_read_222_params == FastReadParams::spec_from_high_half(d6)
    &&& p.fast_read_444_params == FastReadParams::spec_from_high_half(d7)
    &&& p.erase_types@ == spec_erase_types(table_dword(data, 28), table_dword(data, 32))
    &&& p.quad_enable == (if len >= 64 {
        QuadEnableRequirement::spec_from_bfpt(((d15 >> 20u32) & 0x07) as u8)
    } else {
        QuadEnableRequirement::NoQeBit
    })
    &&& p.soft_reset.methods == (if len >= 64 { (((d16 >> 8u32) & 0x3F) as u8) & 0x3F } else { 0 })
    &&& p.four_byte_entry.methods == (if len >= 64 { ((d16 >> 24u32) & 0xFF) as u8 } else { 0 })
}

/// A table of `len` bytes read into `data` can be parsed: at least 9
/// DWORDs, the density and erase sizes fit, and the density is not 0.
pub open spec fn bfpt_parses(data: Seq<u8>, len: int) -> bool {
    &&& len >= 36
    &&& density_fits(table_dword(data, 4))
    &&& erase_types_fit(table_dword(data, 28), table_dword(data, 32))
    &&& spec_density(table_dword(data, 4)) != 0
}

/// Parse a Basic Flash Parameter Table from its bytes. `data` holds the
/// first `min(header.length_bytes(), 92)` bytes of the table (up to 23
/// DWORDs); DWORDs beyond it read as 0. Fails with `ChipNotSupported` for
/// a table shorter than 9 DWORDs, a density or erase size that does not
/// fit its integer, or a density of 0.
#[verifier::rlimit(50)]
pub fn parse_bfpt_table(data: &[u8], header: &ParameterHeader) -> (r: Result<BasicFlashParams, Error>)
    requires
        data@.len() == (if header.length_dwords * 4 < 92 { header.length_dwords * 4 } else { 92 }),
    ensures
        r is Ok <==> bfpt_parses(data@, header.length_dwords * 4),
        r matches Ok(p) ==> bfpt_fields(data@, header.revision, header.length_dwords * 4, p),
        r is Err ==> r == Err::<BasicFlashParams, Error>(Error::ChipNotSupported),
{
    let len = header.length_bytes();
    if len < 36 {
        return Err(Error::ChipNotSupported);
    }
    let d2 = get_dword(data, 4);
    let d8 = get_dword(data, 28);
    let d9 = get_dword(data, 32);
    if (d2 & 0x8000_0000) != 0 && (d2 & 0x7FFF_FFFF) >= 3 && (d2 & 0x7FFF_FFFF) >= 67 {
        return Err(Error::ChipNotSupported);
    }
    if !erase_fits_exec(d8, d9) {
        return Err(Error::ChipNotSupported);
    }
    let mut params = new_params(header.revision);
    parse_bfpt_dword1(get_dword(data, 0), &mut params);
    parse_bfpt_dword2(d2, &mut params);
    parse_bfpt_dword3(get_dword(data, 8), &mut params);
    parse_bfpt_dword4(get_dword(data, 12), &mut params);
    parse_bfpt_dword5(get_dword(data, 16), &mut params);
    parse_bfpt_dword6(get_dword(data, 20), &mut params);
    parse_bfpt_dword7(get_dword(data, 24), &mut params);
    parse_bfpt_erase_types(d8, d9, &mut params);
    if len >= 44 {
        parse_bfpt_dword11(get_dword(data, 40), &mut params);
    }
    if len >= 64 {
        parse_bfpt_dword15(get_dword(data, 56), &mut params);
        parse_bfpt_dword16(get_dword(data, 60), &mut params);
    }
    if params.density_bytes == 0 {
        return Err(Error::ChipNotSupported);
    }
    if params.page_size == 0 {
        params.page_size = 256;
    }
    Ok(params)
}

fn erase_fits_exec(d8: u32, d9: u32) -> (r: bool)
    ensures
        r == erase_types_fit(d8, d9),
{
    let ok1 = (d8 & 0xFF) == 0 || ((d8 >> 8u32) & 0xFF) == 0xFF || (d8 & 0xFF) < 32;
    let ok2 = ((d8 >> 16u32) & 0xFF) == 0 || ((d8 >> 24u32) & 0xFF) == 0xFF || ((d8 >> 16u32) & 0xFF) < 32;
    let ok3 = (d9 & 0xFF) == 0 || ((d9 >> 8u32) & 0xFF) == 0xFF || (d9 & 0xFF) < 32;
    let ok4 = ((d9 >> 16u32) & 0xFF) == 0 || ((d9 >> 24u32) & 0xFF) == 0xFF || ((d9 >> 16u32) & 0xFF) < 32;
    proof {
        assert((d8 & 0xFF) as u8 as u32 == d8 & 0xFF) by (bit_vector);
        assert(((d8 >> 8u32) & 0xFF) as u8 as u32 == (d8 >> 8u32) & 0xFF) by (bit_vector);
        assert(((d8 >> 16u32) & 0xFF) as u8 as u32 == (d8 >> 16u32) & 0xFF) by (bit_vector);
        assert(((d8 >> 24u32) & 0xFF) as u8 as u32 == (d8 >> 24u32) & 0xFF) by (bit_vector);
        assert((d9 & 0xFF) as u8 as u32 == d9 & 0xFF) by (bit_vector);
        assert(((d9 >> 8u32) & 0xFF) as u8 as u32 == (d9 >> 8u32) & 0xFF) by (bit_vector);
        assert(((d9 >> 16u32) & 0xFF) as u8 as u32 == (d9 >> 16u32) & 0xFF) by (bit_vector);
        assert(((d9 >> 24u32) & 0xFF) as u8 as u32 == (d9 >> 24u32) & 0xFF) by (bit_vector);
    }
    ok1 && ok2 && ok3 && ok4
}

/// Parse a 4-Byte Address Instruction Table from its bytes (`data` holds
/// the first `min(header.length_bytes(), 8)` bytes): DWORD 1 gives the
/// supported instructions, DWORD 2 the erase opcodes. Fails with
/// `ChipNotSupported` for a table shorter than 2 DWORDs.
pub fn parse_4byte_addr_table_bytes(data: &[u8], header: &ParameterHeader) -> (r: Result<FourByteAddrTable, Error>)
    requires
        data@.len() == (if header.length_dwords * 4 < 8 { header.length_dwords * 4 } else { 8 }),
    ensures
        r == (if header.length_dwords * 4 < 8 {
            Err::<FourByteAddrTable, Error>(Error::ChipNotSupported)
        } else {
            Ok(FourByteAddrTable {
                revision: header.revision,
                instructions: FourByteAddrInstructions { flags: table_dword(data@, 0) },
                erase_opcodes: FourByteAddrEraseOpcodes::spec_from_dword2(table_dword(data@, 4)),
            })
        }),
{
    let len = header.length_bytes();
    if len < 8 {
        return Err(Error::ChipNotSupported);
    }
    Ok(FourByteAddrTable {
        revision: header.revision,
        instructions: FourByteAddrInstructions::from_dword1(get_dword(data, 0)),
        erase_opcodes: FourByteAddrEraseOpcodes::from_dword2(get_dword(data, 4)),
    })
}

/// A zeroed buffer of `n` bytes.
fn zero_bytes(n: usize) -> (v: Vec<u8>)
    ensures
        v@.len() == n,
{
    let mut v: Vec<u8> = Vec::new();
    let mut i: usize = 0;
    while i < n
        invariant
            i <= n,
            v@.len() == i,
        decreases n - i,
    {
        v.push(0);
        i = i + 1;
    }
    v
}

/// The bytes of a Basic Flash Parameter Table that are read: the table,
/// at most 23 DWORDs of it.
pub open spec fn bfpt_read_len(h: ParameterHeader) -> int {
    if h.length_dwords * 4 < 92 { h.length_dwords * 4 } else { 92 }
}

/// Read and parse the Basic Flash Parameter Table (up to 23 DWORDs).
fn parse_bfpt<M: SpiMaster + ?Sized>(master: &mut M, header: &ParameterHeader) -> (r: Result<BasicFlashParams, Error>)
    requires
        header.table_pointer < 0x0100_0000,
    ensures
        r matches Ok(p) ==> p.density_bytes != 0,
        header.length_dwords * 4 < 36 ==> r == Err::<BasicFlashParams, Error>(Error::ChipNotSupported)
            && final(master).transactions() == old(master).transactions(),
        extends(old(master).transactions(), final(master).transactions()),
        chunked_read(new_transactions(old(master).transactions(), final(master).transactions()), opcodes::RDSFDP,
            header.table_pointer, CommandAddressing::ThreeByte, IoMode::Single, 8),
        r matches Ok(p) ==> bfpt_parses(replies(new_transactions(old(master).transactions(), final(master).transactions())), header.length_dwords * 4)
            && bfpt_fields(replies(new_transactions(old(master).transactions(), final(master).transactions())), header.revision, header.length_dwords * 4, p),
        r is Ok ==> replies(new_transactions(old(master).transactions(), final(master).transactions())).len() == bfpt_read_len(*header),
        final(master).spec_max_read_len() == old(master).spec_max_read_len(),
        r matches Err(e) ==> answered(old(master).transactions(), final(master).transactions(), e) || e == Error::ChipNotSupported,
        reads_clean(old(master).transactions(), final(master).transactions(), final(master).spec_max_read_len())
            && header.length_dwords * 4 >= 36
            ==> replies(new_transactions(old(master).transactions(), final(master).transactions())).len() == bfpt_read_len(*header)
            && (r is Ok <==> bfpt_parses(replies(new_transactions(old(master).transactions(), final(master).transactions())),
                header.length_dwords * 4)),
{
    let len = header.length_bytes();
    if len < 36 {
        return Err(Error::ChipNotSupported);
    }
    let read_len = if len < 92 { len } else { 92 };
    let mut buf = zero_bytes(read_len);
    let rr = read_sfdp(master, header.table_pointer, buf.as_mut_slice());
    proof {
        if rr is Err {
            let e = rr->Err_0;
            if answered(old(master).transactions(), master.transactions(), e) {
                assert(!reads_clean(old(master).transactions(), master.transactions(), master.spec_max_read_len()));
            }
        }
    }
    rr?;
    parse_bfpt_table(buf.as_slice(), header)
}

/// Read and parse the 4-Byte Address Instruction Table (2 DWORDs).
fn parse_4byte_addr_table<M: SpiMaster + ?Sized>(master: &mut M, header: &ParameterHeader) -> (r: Result<FourByteAddrTable, Error>)
    requires
        header.table_pointer < 0x0100_0000,
    ensures
        header.length_dwords * 4 < 8 ==> r == Err::<FourByteAddrTable, Error>(Error::ChipNotSupported)
            && final(master).transactions() == old(master).transactions(),
        extends(old(master).transactions(), final(master).transactions()),
        chunked_read(new_transactions(old(master).transactions(), final(master).transactions()), opcodes::RDSFDP,
            header.table_pointer, CommandAddressing::ThreeByte, IoMode::Single, 8),
        r matches Ok(t) ==> t == (FourByteAddrTable {
            revision: header.revision,
            instructions: FourByteAddrInstructions { flags: table_dword(replies(new_transactions(old(master).transactions(), final(master).transactions())), 0) },
            erase_opcodes: FourByteAddrEraseOpcodes::spec_from_dword2(table_dword(replies(new_transactions(old(master).transactions(), final(master).transactions())), 4)),
        }),
        r is Ok ==> replies(new_transactions(old(master).transactions(), final(master).transactions())).len() == 8,
        final(master).spec_max_read_len() == old(master).spec_max_read_len(),
        reads_clean(old(master).transactions(), final(master).transactions(), final(master).spec_max_read_len())
            && header.length_dwords * 4 >= 8 ==> r is Ok,
{
    let len = header.length_bytes();
    if len < 8 {
        return Err(Error::ChipNotSupported);
    }
    let mut buf = zero_bytes(8);
    let rr = read_sfdp(master, header.table_pointer, buf.as_mut_slice());
    proof {
        if rr is Err {
            let e = rr->Err_0;
            if answered(old(master).transactions(), master.transactions(), e) {
                assert(!reads_clean(old(master).transactions(), master.transactions(), master.spec_max_read_len()));
            }
        }
    }
    rr?;
    parse_4byte_addr_table_bytes(buf.as_slice(), header)
}

/// Where the probe stands after some parameter headers: the bytes read
/// so far, the last Basic Flash Parameter Table and 4-Byte Address table
/// accepted (where their bytes start, with their headers), and whether a
/// Basic Flash Parameter Table was refused.
pub ghost struct SfdpWalk {
    pub pos: int,
    pub bfpt: Option<(int, ParameterHeader)>,
    pub four: Option<(int, ParameterHeader)>,
    pub refused: bool,
}

/// One parameter header more, read from `d` at `w.pos`, with its table
/// after it: a Basic Flash Parameter Table is read (at most 23 DWORDs) and
/// must parse, a 4-Byte Address table of at least 2 DWORDs is read, any
/// other table is skipped.
pub open spec fn sfdp_step(d: Seq<u8>, w: SfdpWalk) -> SfdpWalk {
    if w.refused {
        w
    } else {
        let h = ParameterHeader::spec_parse(d.subrange(w.pos, w.pos + 8));
        let at = w.pos + 8;
        if h.id == PARAM_ID_BASIC {
            if h.length_dwords * 4 < 36 {
                SfdpWalk { pos: at, bfpt: w.bfpt, four: w.four, refused: true }
            } else if !bfpt_parses(d.subrange(at, at + bfpt_read_len(h)), h.length_dwords * 4) {
                SfdpWalk { pos: at + bfpt_read_len(h), bfpt: w.bfpt, four: w.four, refused: true }
            } else {
                SfdpWalk { pos: at + bfpt_read_len(h), bfpt: Some((at, h)), four: w.four, refused: false }
            }
        } else if h.id == PARAM_ID_4BYTE_ADDR && h.length_dwords * 4 >= 8 {
            SfdpWalk { pos: at + 8, bfpt: w.bfpt, four: Some((at, h)), refused: false }
        } else {
            SfdpWalk { pos: at, bfpt: w.bfpt, four: w.four, refused: false }
        }
    }
}

/// The probe after the first `i` parameter headers of the SFDP bytes `d`
/// (the 8 header bytes first).
pub open spec fn sfdp_walk(d: Seq<u8>, i: nat) -> SfdpWalk
    decreases i,
{
    if i == 0 {
        SfdpWalk { pos: 8, bfpt: None, four: None, refused: false }
    } else {
        sfdp_step(d, sfdp_walk(d, (i - 1) as nat))
    }
}

/// The 4-Byte Address table whose 8 bytes start at `loc` in `d`.
pub open spec fn four_table_of(d: Seq<u8>, loc: Option<(int, ParameterHeader)>) -> Option<FourByteAddrTable> {
    match loc {
        None => None,
        Some((s, h)) => Some(FourByteAddrTable {
            revision: h.revision,
            instructions: FourByteAddrInstructions { flags: table_dword(d.subrange(s, s + 8), 0) },
            erase_opcodes: FourByteAddrEraseOpcodes::spec_from_dword2(table_dword(d.subrange(s, s + 8), 4)),
        }),
    }
}

/// The number of parameter headers the probe reads.
pub open spec fn probed_headers(h: SfdpHeader) -> nat {
    if h.nph + 1 < MAX_PARAMETER_HEADERS { (h.nph + 1) as nat } else { MAX_PARAMETER_HEADERS as nat }
}

/// The walk never reads past its position, and the position grows.
proof fn lemma_walk_pos(d: Seq<u8>, i: nat)
    ensures
        sfdp_walk(d, i).pos >= 8,
    decreases i,
{
    if i > 0 {
        lemma_walk_pos(d, (i - 1) as nat);
    }
}

/// The walk over the first `i` headers only reads the bytes before its
/// position: more bytes after them change nothing.
proof fn lemma_walk_stable(d1: Seq<u8>, d2: Seq<u8>, i: nat)
    requires
        d1.len() <= d2.len(),
        d2.subrange(0, d1.len() as int) == d1,
        sfdp_walk(d1, i).pos <= d1.len(),
    ensures
        sfdp_walk(d2, i) == sfdp_walk(d1, i),
    decreases i,
{
    if i > 0 {
        let w1 = sfdp_walk(d1, (i - 1) as nat);
        lemma_walk_pos(d1, (i - 1) as nat);
        assert(sfdp_walk(d1, i) == sfdp_step(d1, w1));
        if !w1.refused {
            assert(w1.pos + 8 <= sfdp_step(d1, w1).pos);
        }
        assert(w1.pos <= sfdp_walk(d1, i).pos);
        lemma_walk_stable(d1, d2, (i - 1) as nat);
        if !w1.refused {
            let at = w1.pos + 8;
            assert(d2.subrange(w1.pos, w1.pos + 8) =~= d1.subrange(w1.pos, w1.pos + 8));
            let h = ParameterHeader::spec_parse(d1.subrange(w1.pos, w1.pos + 8));
            if h.id == PARAM_ID_BASIC && h.length_dwords * 4 >= 36 {
                assert(d2.subrange(at, at + bfpt_read_len(h)) =~= d1.subrange(at, at + bfpt_read_len(h)));
            }
        }
    }
}

/// A refused walk stays refused.
proof fn lemma_walk_refused(d: Seq<u8>, i: nat, n: nat)
    requires
        i <= n,
        sfdp_walk(d, i).refused,
    ensures
        sfdp_walk(d, n).refused,
    decreases n - i,
{
    if i < n {
        lemma_walk_refused(d, i, (n - 1) as nat);
    }
}

/// The probe's state after `i` parameter headers, over the bytes `d` read.
pub open spec fn probe_state(
    d: Seq<u8>,
    hbytes: Seq<u8>,
    i: nat,
    w: SfdpWalk,
    found: bool,
    bp: BasicFlashParams,
    four: Option<FourByteAddrTable>,
) -> bool {
    &&& d.len() >= 8
    &&& hbytes.len() == 8
    &&& d.subrange(0, 8) == hbytes
    &&& w == sfdp_walk(d, i)
    &&& d.len() == w.pos
    &&& !w.refused
    &&& (found <==> w.bfpt is Some)
    &&& (w.bfpt matches Some((st, h)) ==> 8 <= st && st + bfpt_read_len(h) <= d.len()
        && bfpt_fields(d.subrange(st, st + bfpt_read_len(h)), h.revision, h.length_dwords * 4, bp))
    &&& (w.four matches Some((st, h)) ==> 8 <= st && st + 8 <= d.len())
    &&& four == four_table_of(d, w.four)
}

/// More bytes after the state's: the walk so far, its tables and the
/// header bytes are as they were, and the next step reads the new bytes.
proof fn lemma_state_extend(
    da: Seq<u8>,
    dc: Seq<u8>,
    hbytes: Seq<u8>,
    i: nat,
    w: SfdpWalk,
    found: bool,
    bp: BasicFlashParams,
    four: Option<FourByteAddrTable>,
)
    requires
        probe_state(da, hbytes, i, w, found, bp, four),
        da.len() <= dc.len(),
        dc.subrange(0, da.len() as int) == da,
    ensures
        sfdp_walk(dc, i) == w,
        sfdp_walk(dc, i + 1) == sfdp_step(dc, w),
        dc.subrange(0, 8) == hbytes,
        w.bfpt matches Some((st, h)) ==> dc.subrange(st, st + bfpt_read_len(h)) == da.subrange(st, st + bfpt_read_len(h)),
        four_table_of(dc, w.four) == four,
{
    lemma_walk_stable(da, dc, i);
    assert(dc.subrange(0, 8) =~= da.subrange(0, 8));
    if w.bfpt is Some {
        let (st, h) = w.bfpt->0;
        assert(dc.subrange(st, st + bfpt_read_len(h)) =~= da.subrange(st, st + bfpt_read_len(h)));
    }
    if w.four is Some {
        let (st, h) = w.four->0;
        assert(dc.subrange(st, st + 8) =~= da.subrange(st, st + 8));
    }
}

/// A step past a header that is neither an accepted Basic Flash Parameter
/// Table nor a 4-Byte Address table read.
proof fn lemma_state_skip(
    da: Seq<u8>,
    dc: Seq<u8>,
    hbytes: Seq<u8>,
    i: nat,
    w: SfdpWalk,
    found: bool,
    bp: BasicFlashParams,
    four: Option<FourByteAddrTable>,
)
    requires
        probe_state(da, hbytes, i, w, found, bp, four),
        dc.len() == da.len() + 8,
        dc.subrange(0, da.len() as int) == da,
        ParameterHeader::spec_parse(dc.subrange(w.pos, w.pos + 8)).id != PARAM_ID_BASIC,
        !(ParameterHeader::spec_parse(dc.subrange(w.pos, w.pos + 8)).id == PARAM_ID_4BYTE_ADDR
            && ParameterHeader::spec_parse(dc.subrange(w.pos, w.pos + 8)).length_dwords * 4 >= 8),
    ensures
        probe_state(dc, hbytes, i + 1, sfdp_step(dc, w), found, bp, four),
{
    lemma_state_extend(da, dc, hbytes, i, w, found, bp, four);
}

/// A step past an accepted Basic Flash Parameter Table with parameters `p`.
proof fn lemma_state_bfpt(
    da: Seq<u8>,
    dc: Seq<u8>,
    hbytes: Seq<u8>,
    i: nat,
    w: SfdpWalk,
    found: bool,
    bp: BasicFlashParams,
    four: Option<FourByteAddrTable>,
    p: BasicFlashParams,
)
    requires
        probe_state(da, hbytes, i, w, found, bp, four),
        dc.subrange(0, da.len() as int) == da,
        ParameterHeader::spec_parse(dc.subrange(w.pos, w.pos + 8)).id == PARAM_ID_BASIC,
        ParameterHeader::spec_parse(dc.subrange(w.pos, w.pos + 8)).length_dwords * 4 >= 36,
        dc.len() == da.len() + 8 + bfpt_read_len(ParameterHeader::spec_parse(dc.subrange(w.pos, w.pos + 8))),
        bfpt_parses(dc.subrange(w.pos + 8, dc.len() as int), ParameterHeader::spec_parse(dc.subrange(w.pos, w.pos + 8)).length_dwords * 4),
        bfpt_fields(dc.subrange(w.pos + 8, dc.len() as int), ParameterHeader::spec_parse(dc.subrange(w.pos, w.pos + 8)).revision,
            ParameterHeader::spec_parse(dc.subrange(w.pos, w.pos + 8)).length_dwords * 4, p),
    ensures
        probe_state(dc, hbytes, i + 1, sfdp_step(dc, w), true, p, four),
{
    lemma_state_extend(da, dc, hbytes, i, w, found, bp, four);
}

/// A step past a Basic Flash Parameter Table that is refused.
proof fn lemma_state_refused(
    da: Seq<u8>,
    dc: Seq<u8>,
    hbytes: Seq<u8>,
    i: nat,
    n: nat,
    w: SfdpWalk,
    found: bool,
    bp: BasicFlashParams,
    four: Option<FourByteAddrTable>,
)
    requires
        probe_state(da, hbytes, i, w, found, bp, four),
        i < n,
        da.len() + 8 <= dc.len(),
        dc.subrange(0, da.len() as int) == da,
        ParameterHeader::spec_parse(dc.subrange(w.pos, w.pos + 8)).id == PARAM_ID_BASIC,
        ParameterHeader::spec_parse(dc.subrange(w.pos, w.pos + 8)).length_dwords * 4 < 36
            || (dc.len() == da.len() + 8 + bfpt_read_len(ParameterHeader::spec_parse(dc.subrange(w.pos, w.pos + 8)))
            && !bfpt_parses(dc.subrange(w.pos + 8, dc.len() as int), ParameterHeader::spec_parse(dc.subrange(w.pos, w.pos + 8)).length_dwords * 4)),
    ensures
        sfdp_walk(dc, n).refused,
{
    lemma_state_extend(da, dc, hbytes, i, w, found, bp, four);
    lemma_walk_refused(dc, i + 1, n);
}

/// A step past a 4-Byte Address table read as `t`.
proof fn lemma_state_four(
    da: Seq<u8>,
    dc: Seq<u8>,
    hbytes: Seq<u8>,
    i: nat,
    w: SfdpWalk,
    found: bool,
    bp: BasicFlashParams,
    four: Option<FourByteAddrTable>,
    t: FourByteAddrTable,
)
    requires
        probe_state(da, hbytes, i, w, found, bp, four),
        dc.subrange(0, da.len() as int) == da,
        dc.len() == da.len() + 16,
        ParameterHeader::spec_parse(dc.subrange(w.pos, w.pos + 8)).id == PARAM_ID_4BYTE_ADDR,
        ParameterHeader::spec_parse(dc.subrange(w.pos, w.pos + 8)).length_dwords * 4 >= 8,
        t == (FourByteAddrTable {
            revision: ParameterHeader::spec_parse(dc.subrange(w.pos, w.pos + 8)).revision,
            instructions: FourByteAddrInstructions { flags: table_dword(dc.subrange(w.pos + 8, w.pos + 16), 0) },
            erase_opcodes: FourByteAddrEraseOpcodes::spec_from_dword2(table_dword(dc.subrange(w.pos + 8, w.pos + 16), 4)),
        }),
    ensures
        probe_state(dc, hbytes, i + 1, sfdp_step(dc, w), found, bp, Some(t)),
{
    lemma_state_extend(da, dc, hbytes, i, w, found, bp, four);
}

/// What the probe returns for the SFDP bytes `d` it read, every read
/// having succeeded: `Ok` exactly when the header is valid SFDP 1.x and a
/// Basic Flash Parameter Table was accepted and none refused among the
/// parameter headers read; its parameters are those of the last one
/// accepted, and the 4-Byte Address table is the last one read.
pub open spec fn probe_outcome(d: Seq<u8>, r: Result<SfdpInfo, Error>) -> bool {
    let hd = SfdpHeader::spec_parse(d.take(8));
    let w = sfdp_walk(d, probed_headers(hd));
    &&& (r is Ok <==> (d.len() >= 8 && spec_check_header(hd) is Ok && !w.refused && w.bfpt is Some))
    &&& (r matches Ok(info) ==> (w.bfpt matches Some((st, h))
        && bfpt_fields(d.subrange(st, st + bfpt_read_len(h)), h.revision, h.length_dwords * 4, info.basic_params)
        && info.four_byte_addr_table == four_table_of(d, w.four)))
}

/// Probe for SFDP support and parse parameters.
///
/// Reads the SFDP header (signature "SFDP", major revision 1), then up to
/// 16 parameter headers, parsing the Basic Flash Parameter Table and the
/// 4-Byte Address Instruction Table when present. Fails with
/// `ChipNotSupported` when the header is not valid SFDP 1.x, or no Basic
/// Flash Parameter Table with a non-zero density is found.
pub fn probe<M: SpiMaster + ?Sized>(master: &mut M) -> (r: Result<SfdpInfo, Error>)
    ensures
        r matches Ok(info) ==> {
            &&& info.header.signature == SFDP_SIGNATURE
            &&& info.header.revision.major == 1
            &&& info.num_param_headers == info.header.nph + 1
            &&& info.basic_params.density_bytes != 0
        },
        extends(old(master).transactions(), final(master).transactions()),
        r matches Ok(info) ==> info.header == SfdpHeader::spec_parse(replies(new_transactions(
            old(master).transactions(), final(master).transactions())).take(8)),
        final(master).spec_max_read_len() == old(master).spec_max_read_len(),
        r matches Err(e) ==> answered(old(master).transactions(), final(master).transactions(), e) || e == Error::ChipNotSupported,
        reads_clean(old(master).transactions(), final(master).transactions(), final(master).spec_max_read_len())
            ==> probe_outcome(replies(new_transactions(old(master).transactions(), final(master).transactions())), r),
{
    let ghost t0 = master.transactions();
    let hr = parse_header(master);
    let ghost t1 = master.transactions();
    let ghost hbytes = replies(new_transactions(t0, t1));
    proof {
        assert(hbytes.take(8) =~= hbytes.subrange(0, 8));
        if hr is Ok || reads_clean(t0, t1, master.spec_max_read_len()) {
            assert(hbytes.take(8) =~= hbytes);
        }
    }
    let header = hr?;
    let num_headers = header.num_param_headers();
    let mut basic_params = new_params(SfdpRevision { major: 0, minor: 0 });
    let mut four_byte_addr_table: Option<FourByteAddrTable> = None;
    let mut found_bfpt = false;
    let mut i: usize = 0;
    let ghost mut w = sfdp_walk(hbytes, 0);
    assert(t1.subrange(0, t1.len() as int) =~= t1);
    proof {
        assert(new_transactions(t1, t1) =~= Seq::<Transaction>::empty());
        lemma_new_chain(t0, t1, t1);
        assert(replies(new_transactions(t1, t1)) =~= Seq::<u8>::empty());
        lemma_replies_concat(new_transactions(t0, t1), new_transactions(t1, t1));
        assert(hbytes + Seq::<u8>::empty() =~= hbytes);
        if reads_clean(t0, t1, master.spec_max_read_len()) {
            assert(hbytes.subrange(0, 8) =~= hbytes);
            assert(probe_state(hbytes, hbytes, 0, w, found_bfpt, basic_params, four_byte_addr_table));
        }
    }
    while i < num_headers && i < MAX_PARAMETER_HEADERS
        invariant
            found_bfpt ==> basic_params.density_bytes != 0,
            extends(t0, t1),
            extends(t1, master.transactions()),
            t0 == old(master).transactions(),
            master.spec_max_read_len() == old(master).spec_max_read_len(),
            num_headers == header.nph + 1,
            i <= probed_headers(header),
            hbytes == replies(new_transactions(t0, t1)),
            header == SfdpHeader::spec_parse(hbytes),
            spec_check_header(header) is Ok,
            reads_clean(t0, master.transactions(), master.spec_max_read_len()) ==> probe_state(
                replies(new_transactions(t0, master.transactions())), hbytes, i as nat, w, found_bfpt, basic_params,
                four_byte_addr_table),
        decreases MAX_PARAMETER_HEADERS - i,
    {
        let ghost ta = master.transactions();
        let ghost da = replies(new_transactions(t0, ta));
        let ghost wa = w;
        let ghost fa = found_bfpt;
        let ghost ba = basic_params;
        let ghost qa = four_byte_addr_table;
        let ph = read_param_header(master, i);
        let ghost tp = master.transactions();
        proof {
            lemma_new_chain(t1, ta, tp);
            lemma_new_chain(t0, ta, tp);
            lemma_replies_concat(new_transactions(t0, ta), new_transactions(ta, tp));
            if ph is Err {
                let e = ph->Err_0;
                if answered(ta, tp, e) {
                    lemma_answered(t0, ta, tp, e);
                }
                if reads_clean(t0, tp, master.spec_max_read_len()) {
                    lemma_clean_earlier(t0, ta, tp, master.spec_max_read_len());
                }
            }
        }
        let param_header = ph?;
        let ghost dp = replies(new_transactions(t0, tp));
        proof {
            if reads_clean(t0, tp, master.spec_max_read_len()) {
                lemma_clean_earlier(t0, ta, tp, master.spec_max_read_len());
                assert(dp.subrange(wa.pos, wa.pos + 8) =~= replies(new_transactions(ta, tp)));
            }
        }
        if param_header.id == PARAM_ID_BASIC {
            let ghost tb = master.transactions();
            let bp = parse_bfpt(master, &param_header);
            let ghost tc = master.transactions();
            proof {
                lemma_new_chain(t1, tb, tc);
                lemma_new_chain(t0, tb, tc);
                lemma_replies_concat(new_transactions(t0, tb), new_transactions(tb, tc));
                let dc = replies(new_transactions(t0, tc));
                if bp is Err {
                    let e = bp->Err_0;
                    if answered(tb, tc, e) {
                        lemma_answered(t0, tb, tc, e);
                    }
                }
                if reads_clean(t0, tc, master.spec_max_read_len()) {
                    lemma_clean_earlier(t0, tb, tc, master.spec_max_read_len());
                    lemma_clean_earlier(t0, ta, tb, master.spec_max_read_len());
                    assert(dc.subrange(0, da.len() as int) =~= da);
                    assert(dc.subrange(wa.pos, wa.pos + 8) =~= dp.subrange(wa.pos, wa.pos + 8));
                    if param_header.length_dwords * 4 >= 36 {
                        assert(dc.subrange(wa.pos + 8, dc.len() as int) =~= replies(new_transactions(tb, tc)));
                    }
                    if bp is Err {
                        lemma_state_refused(da, dc, hbytes, i as nat, probed_headers(header), wa, fa, ba, qa);
                    } else {
                        lemma_state_bfpt(da, dc, hbytes, i as nat, wa, fa, ba, qa, bp->Ok_0);
                    }
                }
            }
            basic_params = bp?;
            found_bfpt = true;
            proof {
                w = sfdp_step(replies(new_transactions(t0, master.transactions())), wa);
            }
        } else if param_header.id == PARAM_ID_4BYTE_ADDR {
            let ghost tb = master.transactions();
            match parse_4byte_addr_table(master, &param_header) {
                Ok(table) => {
                    four_byte_addr_table = Some(table);
                },
                Err(_) => {},
            }
            let ghost tc = master.transactions();
            proof {
                lemma_new_chain(t1, tb, tc);
                lemma_new_chain(t0, tb, tc);
                lemma_replies_concat(new_transactions(t0, tb), new_transactions(tb, tc));
                let dc = replies(new_transactions(t0, tc));
                if reads_clean(t0, tc, master.spec_max_read_len()) {
                    lemma_clean_earlier(t0, tb, tc, master.spec_max_read_len());
                    lemma_clean_earlier(t0, ta, tb, master.spec_max_read_len());
                    assert(dc.subrange(0, da.len() as int) =~= da);
                    assert(dc.subrange(wa.pos, wa.pos + 8) =~= dp.subrange(wa.pos, wa.pos + 8));
                    if param_header.length_dwords * 4 >= 8 {
                        assert(dc.subrange(wa.pos + 8, wa.pos + 16) =~= replies(new_transactions(tb, tc)));
                        lemma_state_four(da, dc, hbytes, i as nat, wa, fa, ba, qa, four_byte_addr_table->0);
                    } else {
                        assert(tc == tb);
                        lemma_state_skip(da, dc, hbytes, i as nat, wa, fa, ba, qa);
                    }
                }
                w = sfdp_step(dc, wa);
            }
        } else {
            proof {
                if reads_clean(t0, tp, master.spec_max_read_len()) {
                    assert(dp.subrange(0, da.len() as int) =~= da);
                    lemma_state_skip(da, dp, hbytes, i as nat, wa, fa, ba, qa);
                }
                w = sfdp_step(dp, wa);
            }
        }
        i = i + 1;
    }
    proof {
        lemma_new_chain(t0, t1, master.transactions());
        lemma_replies_concat(new_transactions(t0, t1), new_transactions(t1, master.transactions()));
        assert(replies(new_transactions(t0, master.transactions())).take(8) =~= replies(new_transactions(t0, t1)));
    }
    if !found_bfpt || basic_params.density_bytes == 0 {
        return Err(Error::ChipNotSupported);
    }
    Ok(SfdpInfo { header, basic_params, num_param_headers: num_headers, four_byte_addr_table })
}

/// Check if SFDP is supported without fully parsing: the first four SFDP
/// bytes read as the signature; `false` when the read fails.
pub fn is_supported<M: SpiMaster + ?Sized>(master: &mut M) -> (r: bool)
    ensures
        extends(old(master).transactions(), final(master).transactions()),
        chunked_read(new_transactions(old(master).transactions(), final(master).transactions()), opcodes::RDSFDP,
            0, CommandAddressing::ThreeByte, IoMode::Single, 8),
        r ==> replies(new_transactions(old(master).transactions(), final(master).transactions())).len() == 4 && le_u32(replies(new_transactions(old(master).transactions(), final(master).transactions()))[0], replies(new_transactions(old(master).transactions(), final(master).transactions()))[1], replies(new_transactions(old(master).transactions(), final(master).transactions()))[2], replies(new_transactions(old(master).transactions(), final(master).transactions()))[3]) == SFDP_SIGNATURE,
{
    let mut buf = [0u8; 4];
    match read_sfdp(master, 0x00, &mut buf) {
        Ok(()) => u32_from_le(buf[0], buf[1], buf[2], buf[3]) == SFDP_SIGNATURE,
        Err(_) => false,
    }
}

/// Some valid erase type has exactly `size` bytes.
pub open spec fn has_valid_erase_size(ets: Seq<SfdpEraseType>, size: u32) -> bool {
    exists|i: int| 0 <= i < ets.len() && #[trigger] ets[i].spec_is_valid() && ets[i].size == size
}

/// The feature flags of a chip described by SFDP: SFDP itself, dual I/O
/// (1-1-2 or 1-2-2 reads), quad I/O (1-1-4, 1-4-4 or 4-4-4 reads), 4-byte
/// addressing, entering 4-byte mode with B7h, the status register write
/// enable (WREN or EWSR), QE in SR2 when a quad enable is needed, and the
/// 4, 32 and 64 KiB erases present.
pub open spec fn spec_sfdp_features(p: BasicFlashParams) -> u64 {
    let ets = p.erase_types@;
    Features::SFDP
        | (if p.fast_read_112 || p.fast_read_122 { Features::DUAL_IO } else { 0 })
        | (if p.fast_read_114 || p.fast_read_144 || p.fast_read_444 { Features::QUAD_IO } else { 0 })
        | (if p.address_mode != AddressMode::ThreeByteOnly { Features::FOUR_BYTE_ADDR } else { 0 })
        | (if p.four_byte_entry.methods & FourByteEntryMethods::INSTR_B7_E9 != 0
            || p.four_byte_entry.methods & FourByteEntryMethods::WREN_INSTR_B7_E9 != 0 {
            Features::FOUR_BYTE_ENTER
        } else {
            0
        })
        | (if p.volatile_sr_write_enable == WriteEnableForVolatileSr::Wren { Features::WRSR_WREN } else { Features::WRSR_EWSR })
        | (if p.quad_enable != QuadEnableRequirement::NoQeBit { Features::QE_SR2 } else { 0 })
        | (if has_valid_erase_size(ets, 4096) { Features::ERASE_4K } else { 0 })
        | (if has_valid_erase_size(ets, 32768) { Features::ERASE_32K } else { 0 })
        | (if has_valid_erase_size(ets, 65536) { Features::ERASE_64K } else { 0 })
}

/// The quad-enable method of an SFDP quad enable requirement.
pub open spec fn spec_qe_method(q: QuadEnableRequirement) -> QeMethod {
    match q {
        QuadEnableRequirement::NoQeBit => QeMethod::NoQeBit,
        QuadEnableRequirement::Sr2Bit1_WriteCmd01 => QeMethod::Sr2Bit1WriteSr,
        QuadEnableRequirement::Sr1Bit6_WriteCmd01 => QeMethod::Sr1Bit6,
        QuadEnableRequirement::Sr2Bit7_WriteCmdSpecial => QeMethod::Sr2Bit7,
        QuadEnableRequirement::Sr2Bit1_WriteCmd31 => QeMethod::Sr2Bit1WriteSr2,
        QuadEnableRequirement::Sr2Bit1_WriteCmd01_StatusSplit => QeMethod::Sr2Bit1WriteSr,
    }
}

fn qe_method_of(q: QuadEnableRequirement) -> (r: QeMethod)
    ensures
        r == spec_qe_method(q),
{
    match q {
        QuadEnableRequirement::NoQeBit => QeMethod::NoQeBit,
        QuadEnableRequirement::Sr2Bit1_WriteCmd01 => QeMethod::Sr2Bit1WriteSr,
        QuadEnableRequirement::Sr1Bit6_WriteCmd01 => QeMethod::Sr1Bit6,
        QuadEnableRequirement::Sr2Bit7_WriteCmdSpecial => QeMethod::Sr2Bit7,
        QuadEnableRequirement::Sr2Bit1_WriteCmd31 => QeMethod::Sr2Bit1WriteSr2,
        QuadEnableRequirement::Sr2Bit1_WriteCmd01_StatusSplit => QeMethod::Sr2Bit1WriteSr,
    }
}

fn has_erase_size(p: &BasicFlashParams, size: u32) -> (r: bool)
    ensures
        r == has_valid_erase_size(p.erase_types@, size),
{
    let mut i: usize = 0;
    while i < 4
        invariant
            i <= 4,
            p.erase_types@.len() == 4,
            forall|j: int| 0 <= j < i ==> !(#[trigger] p.erase_types@[j].spec_is_valid() && p.erase_types@[j].size == size),
        decreases 4 - i,
    {
        if p.erase_types[i].is_valid() && p.erase_types[i].size == size {
            assert(p.erase_types@[i as int].spec_is_valid());
            return true;
        }
        i = i + 1;
    }
    false
}

/// Convert SFDP info to a chip description. SFDP does not identify the
/// chip: the vendor is "SFDP", the name "Unknown", the JEDEC ID the one
/// given. The erase blocks are the valid erase types sorted by size (each
/// an `EraseBlock::new` of its opcode and size); sizes are truncated to the
/// field widths; the voltage range is 2.7-3.6 V; all tests are untested.
pub fn to_flash_chip(info: &SfdpInfo, jedec_manufacturer: u8, jedec_device: u16) -> (chip: FlashChip)
    ensures
        chip.vendor@ == "SFDP"@,
        chip.name@ == "Unknown"@,
        chip.jedec_manufacturer == jedec_manufacturer,
        chip.jedec_device == jedec_device,
        chip.total_size == info.basic_params.density_bytes as u32,
        chip.page_size == info.basic_params.page_size as u16,
        chip.features.bits == spec_sfdp_features(info.basic_params),
        chip.voltage_min_mv == 2700,
        chip.voltage_max_mv == 3600,
        chip.write_granularity == (if info.basic_params.write_granularity_64 {
            WriteGranularity::Page
        } else {
            WriteGranularity::Byte
        }),
        chip.erase_blocks@.len() == sorted_valid_erase_types(info.basic_params.erase_types@).len(),
        forall|i: int| 0 <= i < chip.erase_blocks@.len() ==> {
            let e = sorted_valid_erase_types(info.basic_params.erase_types@)[i];
            &&& (#[trigger] chip.erase_blocks@[i]).opcode == e.opcode
            &&& chip.erase_blocks@[i].opcode_4b is None
            &&& chip.erase_blocks@[i].regions@ == seq![EraseRegion { size: e.size, count: 1 }]
        },
        chip.tested == (ChipTestStatus {
            probe: TestStatus::Untested,
            read: TestStatus::Untested,
            erase: TestStatus::Untested,
            write: TestStatus::Untested,
            wp: TestStatus::Untested,
        }),
        chip.qe_method == spec_qe_method(info.basic_params.quad_enable),
{
    let params = &info.basic_params;
    let mut bits: u64 = Features::SFDP;
    bits = bits | (if params.fast_read_112 || params.fast_read_122 { Features::DUAL_IO } else { 0 });
    bits = bits | (if params.fast_read_114 || params.fast_read_144 || params.fast_read_444 { Features::QUAD_IO } else { 0 });
    bits = bits | (if params.address_mode.supports_4byte() { Features::FOUR_BYTE_ADDR } else { 0 });
    bits = bits | (if params.four_byte_entry.supports(FourByteEntryMethods::INSTR_B7_E9)
        || params.four_byte_entry.supports(FourByteEntryMethods::WREN_INSTR_B7_E9) {
        Features::FOUR_BYTE_ENTER
    } else {
        0
    });
    bits = bits | (match params.volatile_sr_write_enable {
        WriteEnableForVolatileSr::Wren => Features::WRSR_WREN,
        WriteEnableForVolatileSr::Ewsr => Features::WRSR_EWSR,
    });
    bits = bits | (if params.quad_enable.is_needed() { Features::QE_SR2 } else { 0 });
    bits = bits | (if has_erase_size(params, 4096) { Features::ERASE_4K } else { 0 });
    bits = bits | (if has_erase_size(params, 32768) { Features::ERASE_32K } else { 0 });
    bits = bits | (if has_erase_size(params, 65536) { Features::ERASE_64K } else { 0 });
    let sorted = params.sorted_erase_types();
    let mut erase_blocks: Vec<EraseBlock> = Vec::new();
    let mut i: usize = 0;
    while i < sorted.len()
        invariant
            i <= sorted@.len(),
            erase_blocks@.len() == i,
            forall|k: int| 0 <= k < i ==> {
                &&& (#[trigger] erase_blocks@[k]).opcode == sorted@[k].opcode
                &&& erase_blocks@[k].opcode_4b is None
                &&& erase_blocks@[k].regions@ == seq![EraseRegion { size: sorted@[k].size, count: 1 }]
            },
        decreases sorted@.len() - i,
    {
        erase_blocks.push(EraseBlock::new(sorted[i].opcode, sorted[i].size));
        i = i + 1;
    }
    let write_granularity = if params.write_granularity_64 { WriteGranularity::Page } else { WriteGranularity::Byte };
    FlashChip {
        vendor: String::from_str("SFDP"),
        name: String::from_str("Unknown"),
        jedec_manufacturer,
        jedec_device,
        total_size: params.density_bytes as u32,
        page_size: params.page_size as u16,
        features: Features { bits },
        voltage_min_mv: 2700,
        voltage_max_mv: 3600,
        write_granularity,
        erase_blocks,
        tested: ChipTestStatus {
            probe: TestStatus::Untested,
            read: TestStatus::Untested,
            erase: TestStatus::Untested,
            write: TestStatus::Untested,
            wp: TestStatus::Untested,
        },
        qe_method: qe_method_of(params.quad_enable),
    }
}

/// Mismatch found between SFDP and database entry
#[derive(Debug, Clone, Copy, PartialEq, Eq, Structural)]
pub enum SfdpMismatch {
    /// Total size differs
    TotalSize {
        /// Size reported by SFDP
        sfdp: u64,
        /// Size in database
        database: u32,
    },
    /// Page size differs
    PageSize {
        /// Page size reported by SFDP
        sfdp: u32,
        /// Page size in database
        database: u16,
    },
    /// Erase block not found in database
    MissingEraseBlock {
        /// Erase block size
        size: u32,
        /// Erase opcode
        opcode: u8,
    },
    /// Database has erase block not in SFDP
    ExtraEraseBlock {
        /// Erase block size
        size: u32,
        /// Erase opcode
        opcode: u8,
    },
    /// Erase block opcode differs
    EraseBlockOpcode {
        /// Erase block size
        size: u32,
        /// Opcode reported by SFDP
        sfdp_opcode: u8,
        /// Opcode in database
        db_opcode: u8,
    },
    /// Address mode differs
    AddressMode {
        /// Whether SFDP says 4-byte addressing is required
        sfdp_requires_4byte: bool,
        /// Whether database says 4-byte addressing is required
        db_requires_4byte: bool,
    },
}

impl SfdpMismatch {
    /// A size or page size mismatch.
    pub open spec fn spec_is_critical(self) -> bool {
        self is TotalSize || self is PageSize
    }

    /// Whether this is a size or page size mismatch.
    pub fn is_critical(&self) -> (r: bool)
        ensures
            r == self.spec_is_critical(),
    {
        match self {
            SfdpMismatch::TotalSize { .. } | SfdpMismatch::PageSize { .. } => true,
            _ => false,
        }
    }
}

/// Some mismatch is critical.
pub open spec fn any_critical(ms: Seq<SfdpMismatch>) -> bool {
    exists|i: int| 0 <= i < ms.len() && #[trigger] ms[i].spec_is_critical()
}

/// Whether a list of mismatches holds a size or page size mismatch.
pub fn has_critical(ms: &Vec<SfdpMismatch>) -> (r: bool)
    ensures
        r == any_critical(ms@),
{
    let mut i: usize = 0;
    while i < ms.len()
        invariant
            i <= ms@.len(),
            forall|j: int| 0 <= j < i ==> !(#[trigger] ms@[j].spec_is_critical()),
        decreases ms@.len() - i,
    {
        if ms[i].is_critical() {
            return true;
        }
        i = i + 1;
    }
    false
}

/// The first uniform database erase block with blocks of `size` bytes.
pub open spec fn first_uniform_with_size(db: Seq<EraseBlock>, size: u32) -> Option<EraseBlock>
    decreases db.len(),
{
    if db.len() == 0 {
        None
    } else if db[0].spec_is_uniform() && db[0].regions@[0].size == size {
        Some(db[0])
    } else {
        first_uniform_with_size(db.drop_first(), size)
    }
}

/// The mismatch of one SFDP erase type against the database erase blocks:
/// none for an invalid type; a differing opcode when a uniform block of
/// its size exists; else a missing block.
pub open spec fn erase_type_mismatch(e: SfdpEraseType, db: Seq<EraseBlock>) -> Seq<SfdpMismatch> {
    if !e.spec_is_valid() {
        Seq::empty()
    } else {
        match first_uniform_with_size(db, e.size) {
            Some(b) => if b.opcode != e.opcode {
                seq![SfdpMismatch::EraseBlockOpcode { size: e.size, sfdp_opcode: e.opcode, db_opcode: b.opcode }]
            } else {
                Seq::empty()
            },
            None => seq![SfdpMismatch::MissingEraseBlock { size: e.size, opcode: e.opcode }],
        }
    }
}

/// The erase type mismatches, in SFDP order.
pub open spec fn erase_type_mismatches(ets: Seq<SfdpEraseType>, db: Seq<EraseBlock>) -> Seq<SfdpMismatch>
    decreases ets.len(),
{
    if ets.len() == 0 {
        Seq::empty()
    } else {
        erase_type_mismatches(ets.drop_last(), db) + erase_type_mismatch(ets.last(), db)
    }
}

/// The uniform database erase blocks whose size no valid SFDP erase type
/// has, in database order.
pub open spec fn extra_erase_blocks(db: Seq<EraseBlock>, ets: Seq<SfdpEraseType>) -> Seq<SfdpMismatch>
    decreases db.len(),
{
    if db.len() == 0 {
        Seq::empty()
    } else {
        let b = db.last();
        extra_erase_blocks(db.drop_last(), ets) + if b.spec_is_uniform() && !has_valid_erase_size(ets, b.regions@[0].size) {
            seq![SfdpMismatch::ExtraEraseBlock { size: b.regions@[0].size, opcode: b.opcode }]
        } else {
            Seq::<SfdpMismatch>::empty()
        }
    }
}

/// All mismatches between SFDP data and a chip, in order: total size, page
/// size, each SFDP erase type, each extra uniform database erase block,
/// and the addressing mode.
pub open spec fn spec_compare(p: BasicFlashParams, chip: FlashChip) -> Seq<SfdpMismatch> {
    let db_4byte = chip.total_size > 16 * 1024 * 1024;
    (if p.density_bytes != chip.total_size as u64 {
        seq![SfdpMismatch::TotalSize { sfdp: p.density_bytes, database: chip.total_size }]
    } else {
        Seq::empty()
    }) + (if p.page_size != chip.page_size as u32 {
        seq![SfdpMismatch::PageSize { sfdp: p.page_size, database: chip.page_size }]
    } else {
        Seq::empty()
    }) + erase_type_mismatches(p.erase_types@, chip.erase_blocks@)
        + extra_erase_blocks(chip.erase_blocks@, p.erase_types@)
        + (if p.spec_requires_4byte_addr() != db_4byte {
        seq![SfdpMismatch::AddressMode { sfdp_requires_4byte: p.spec_requires_4byte_addr(), db_requires_4byte: db_4byte }]
    } else {
        Seq::empty()
    })
}

fn find_uniform_with_size(db: &[EraseBlock], size: u32) -> (r: Option<u8>)
    ensures
        r == (match first_uniform_with_size(db@, size) {
            Some(b) => Some(b.opcode),
            None => None::<u8>,
        }),
{
    let mut i: usize = 0;
    assert(db@.skip(0) =~= db@);
    while i < db.len()
        invariant
            i <= db@.len(),
            first_uniform_with_size(db@, size) == first_uniform_with_size(db@.skip(i as int), size),
        decreases db@.len() - i,
    {
        assert(db@.skip(i as int).drop_first() =~= db@.skip(i + 1));
        assert(db@.skip(i as int)[0] == db@[i as int]);
        if db[i].is_uniform() && db[i].regions[0].size == size {
            return Some(db[i].opcode);
        }
        i = i + 1;
    }
    None
}

/// Compare SFDP data against a database chip entry. An empty list means
/// SFDP matches the database entry.
pub fn compare_with_chip(info: &SfdpInfo, chip: &FlashChip) -> (r: Vec<SfdpMismatch>)
    ensures
        r@ == spec_compare(info.basic_params, *chip),
{
    let params = &info.basic_params;
    let mut out: Vec<SfdpMismatch> = Vec::new();
    if params.density_bytes != chip.total_size as u64 {
        out.push(SfdpMismatch::TotalSize { sfdp: params.density_bytes, database: chip.total_size });
    }
    if params.page_size != chip.page_size as u32 {
        out.push(SfdpMismatch::PageSize { sfdp: params.page_size, database: chip.page_size });
    }
    let ghost head = out@;
    let blocks = chip.erase_blocks();
    let mut i: usize = 0;
    while i < 4
        invariant
            i <= 4,
            params.erase_types@.len() == 4,
            blocks@ == chip.erase_blocks@,
            out@ == head + erase_type_mismatches(params.erase_types@.take(i as int), chip.erase_blocks@),
        decreases 4 - i,
    {
        assert(params.erase_types@.take(i + 1).drop_last() =~= params.erase_types@.take(i as int));
        let e = params.erase_types[i];
        if e.is_valid() {
            match find_uniform_with_size(blocks, e.size) {
                Some(db_opcode) => {
                    if db_opcode != e.opcode {
                        out.push(SfdpMismatch::EraseBlockOpcode { size: e.size, sfdp_opcode: e.opcode, db_opcode });
                    }
                },
                None => {
                    out.push(SfdpMismatch::MissingEraseBlock { size: e.size, opcode: e.opcode });
                },
            }
        }
        assert(out@ =~= head + erase_type_mismatches(params.erase_types@.take(i + 1), chip.erase_blocks@));
        i = i + 1;
    }
    assert(params.erase_types@.take(4) =~= params.erase_types@);
    let ghost mid = out@;
    let mut j: usize = 0;
    while j < blocks.len()
        invariant
            j <= blocks@.len(),
            blocks@ == chip.erase_blocks@,
            out@ == mid + extra_erase_blocks(blocks@.take(j as int), params.erase_types@),
        decreases blocks@.len() - j,
    {
        assert(blocks@.take(j + 1).drop_last() =~= blocks@.take(j as int));
        let b = &blocks[j];
        if b.is_uniform() {
            let size = b.regions[0].size;
            if !has_erase_size(params, size) {
                out.push(SfdpMismatch::ExtraEraseBlock { size, opcode: b.opcode });
            }
        }
        assert(out@ =~= mid + extra_erase_blocks(blocks@.take(j + 1), params.erase_types@));
        j = j + 1;
    }
    assert(blocks@.take(j as int) =~= blocks@);
    let sfdp_requires_4byte = params.requires_4byte_addr();
    let db_requires_4byte = chip.requires_4byte_addr();
    if sfdp_requires_4byte != db_requires_4byte {
        out.push(SfdpMismatch::AddressMode { sfdp_requires_4byte, db_requires_4byte });
    }
    assert(out@ =~= spec_compare(info.basic_params, *chip));
    out
}

/// Result of probing SFDP and optionally matching with database
#[derive(Debug)]
pub struct SfdpProbeResult {
    /// The SFDP information read from the chip
    pub sfdp: SfdpInfo,
    /// JEDEC manufacturer ID
    pub jedec_manufacturer: u8,
    /// JEDEC device ID
    pub jedec_device: u16,
    /// Matching chip from database (if found)
    pub database_chip: Option<FlashChip>,
    /// Mismatches between SFDP and database (if database chip found)
    pub mismatches: Vec<SfdpMismatch>,
}

impl SfdpProbeResult {
    /// The chip to use for operations: the database chip when there is one
    /// (even with mismatches; the caller should warn), else the chip built
    /// from SFDP data.
    pub fn to_flash_chip(&self) -> (r: FlashChip)
        ensures
            match self.database_chip {
                Some(db) => same_chip(r, db),
                None => same_chip(r, r) && r.vendor@ == "SFDP"@
                    && r.jedec_manufacturer == self.jedec_manufacturer && r.jedec_device == self.jedec_device
                    && r.total_size == self.sfdp.basic_params.density_bytes as u32
                    && r.features.bits == spec_sfdp_features(self.sfdp.basic_params),
            },
    {
        match &self.database_chip {
            Some(db_chip) => db_chip.duplicate(),
            None => to_flash_chip(&self.sfdp, self.jedec_manufacturer, self.jedec_device),
        }
    }

    /// Check if there are any concerning (size or page size) mismatches
    pub fn has_critical_mismatches(&self) -> (r: bool)
        ensures
            r == any_critical(self.mismatches@),
    {
        has_critical(&self.mismatches)
    }
}

/// Probe SFDP and match with database: read the JEDEC ID, probe SFDP,
/// look the chip up by JEDEC ID and compare when found.
pub fn probe_with_database<M: SpiMaster + ?Sized>(master: &mut M, db: &ChipDatabase) -> (r: Result<SfdpProbeResult, Error>)
    ensures
        r matches Ok(res) ==> {
            &&& res.sfdp.header.signature == SFDP_SIGNATURE
            &&& res.sfdp.basic_params.density_bytes != 0
            &&& (res.database_chip is None <==> forall|i: int| 0 <= i < db.spec_chips().len()
                ==> !(#[trigger] db.spec_chips()[i].jedec_manufacturer == res.jedec_manufacturer
                    && db.spec_chips()[i].jedec_device == res.jedec_device))
            &&& match res.database_chip {
                Some(c) => c.jedec_manufacturer == res.jedec_manufacturer && c.jedec_device == res.jedec_device
                    && res.mismatches@ == spec_compare(res.sfdp.basic_params, c),
                None => res.mismatches@.len() == 0,
            }
        },
        extends(old(master).transactions(), final(master).transactions()),
        new_transactions(old(master).transactions(), final(master).transactions()).len() >= 1,
        spi25::is_plain_request(new_transactions(old(master).transactions(), final(master).transactions())[0].command,
            opcodes::RDID, None, crate::spi::address::AddressWidth::NoAddress, seq![], 3),
        new_transactions(old(master).transactions(), final(master).transactions())[0].reply.len() == 3,
        r matches Ok(res) ==> (res.jedec_manufacturer, res.jedec_device) == spi25::spec_jedec_id_from_bytes(
            new_transactions(old(master).transactions(), final(master).transactions())[0].reply[0], new_transactions(old(master).transactions(), final(master).transactions())[0].reply[1], new_transactions(old(master).transactions(), final(master).transactions())[0].reply[2]),
        r matches Err(e) ==> answered(old(master).transactions(), final(master).transactions(), e) || e == Error::ChipNotSupported,
        reads_clean(old(master).transactions(), final(master).transactions(), final(master).spec_max_read_len())
            ==> probe_outcome(replies(new_transactions(old(master).transactions(), final(master).transactions())).skip(3),
            match r {
                Ok(res) => Ok(res.sfdp),
                Err(e) => Err(e),
            }),
{
    let ghost t0 = master.transactions();
    let rid = spi25::read_jedec_id(master);
    proof {
        if rid is Err {
            assert(reads_clean(t0, master.transactions(), master.spec_max_read_len()) ==> false);
        }
    }
    let (jedec_manufacturer, jedec_device) = rid?;
    let ghost t1 = master.transactions();
    let pr = probe(master);
    proof {
        lemma_new_chain(t0, t1, master.transactions());
        assert(new_transactions(t0, master.transactions())[0] == t1.last());
        lemma_replies_concat(new_transactions(t0, t1), new_transactions(t1, master.transactions()));
        assert(new_transactions(t0, t1) =~= seq![t1.last()]);
        assert(seq![t1.last()].drop_last() =~= Seq::<Transaction>::empty());
        assert(replies(Seq::<Transaction>::empty()) =~= Seq::<u8>::empty());
        assert(replies(new_transactions(t0, t1)).len() == 3);
        assert(replies(new_transactions(t0, master.transactions())).skip(3) =~= replies(new_transactions(t1, master.transactions())));
        if pr is Err {
            let e = pr->Err_0;
            if answered(t1, master.transactions(), e) {
                lemma_answered(t0, t1, master.transactions(), e);
            }
        }
        if reads_clean(t0, master.transactions(), master.spec_max_read_len()) {
            lemma_clean_earlier(t0, t1, master.transactions(), master.spec_max_read_len());
        }
    }
    let sfdp = pr?;
    let database_chip = match db.find_by_jedec_id(jedec_manufacturer, jedec_device) {
        Some(c) => Some(c.duplicate()),
        None => None,
    };
    let mismatches = match &database_chip {
        Some(chip) => compare_with_chip(&sfdp, chip),
        None => Vec::new(),
    };
    Ok(SfdpProbeResult { sfdp, jedec_manufacturer, jedec_device, database_chip, mismatches })
}

} // verus!
