//! Reading a layout directly from a flash chip: the Intel Flash Descriptor
//! at its start, or an FMAP found by a binary search of aligned offsets
//! and, failing that, a linear search of the whole chip.
use vstd::prelude::*;
use crate::flash::context::FlashContext;
use crate::flash::operations::read;
use crate::programmer::traits::{SpiMaster, Transaction};
use crate::protocol::spi25::{answered, extends, lemma_answered, lemma_new_chain, lemma_replies_concat, new_transactions, replies};
use crate::error::Error;
use super::fmap::{areas_fit, first_fmap, no_fmap, fmap_parses_to, is_valid_fmap_header, parse_fmap, parse_fmap_at, FMAP_AREA_SIZE, FMAP_HEADER_SIZE};
use super::ifd::{has_ifd, ifd_layout, ifd_parses, parse_ifd};
use super::types::{Layout, LayoutError};

verus! {

/// Size of the Intel Flash Descriptor region
pub const IFD_SIZE: usize = 0x1000;

/// The eight bytes hold the FMAP signature `__FMAP__`.
fn is_fmap_signature(b: &[u8]) -> (r: bool)
    requires
        b@.len() == 8,
    ensures
        r == (b@ == seq![0x5Fu8, 0x5F, 0x46, 0x4D, 0x41, 0x50, 0x5F, 0x5F]),
{
    let r = b[0] == 0x5F && b[1] == 0x5F && b[2] == 0x46 && b[3] == 0x4D && b[4] == 0x41 && b[5] == 0x50
        && b[6] == 0x5F && b[7] == 0x5F;
    if r {
        assert(b@ =~= seq![0x5Fu8, 0x5F, 0x46, 0x4D, 0x41, 0x50, 0x5F, 0x5F]);
    }
    r
}

/// The bytes read back from the chip hold an FMAP that parses to `l`.
pub open spec fn fmap_read(bytes: Seq<u8>, l: Layout) -> bool {
    exists|o: int, e: int| 0 <= o <= e <= bytes.len() && #[trigger] fmap_parses_to(bytes.subrange(o, e), l)
}

/// A read failed: a transaction answered an error, or the programmer
/// reads nothing per command.
pub open spec fn read_failed(before: Seq<Transaction>, after: Seq<Transaction>, max_read_len: usize) -> bool {
    (exists|e: Error| #[trigger] answered(before, after, e)) || max_read_len == 0
}

/// `parse_fmap` refuses `d`: no FMAP in it, or the first one's areas do
/// not fit.
pub open spec fn fmap_parse_fails(d: Seq<u8>) -> bool {
    no_fmap(d) || exists|o: int| #[trigger] first_fmap(d, o) && !areas_fit(d.subrange(o, d.len() as int))
}

/// The last `size` bytes read hold the whole chip and `parse_fmap`
/// refuses them.
pub open spec fn whole_chip_unparsed(bytes: Seq<u8>, size: u32) -> bool {
    bytes.len() >= size && fmap_parse_fails(bytes.subrange(bytes.len() - size, bytes.len() as int))
}

/// A failure read later is a failure of all the reads.
proof fn lemma_read_failed_later(t0: Seq<Transaction>, t1: Seq<Transaction>, t2: Seq<Transaction>, m: usize)
    requires
        extends(t0, t1),
        extends(t1, t2),
        read_failed(t1, t2, m),
    ensures
        read_failed(t0, t2, m),
{
    if exists|e: Error| #[trigger] answered(t1, t2, e) {
        let e = choose|e: Error| #[trigger] answered(t1, t2, e);
        lemma_answered(t0, t1, t2, e);
    }
}

/// Bytes read by later transactions lie within the bytes read by all.
proof fn lemma_later_bytes(t0: Seq<Transaction>, t1: Seq<Transaction>, t2: Seq<Transaction>, l: Layout)
    requires
        extends(t0, t1),
        extends(t1, t2),
        fmap_read(replies(new_transactions(t1, t2)), l),
    ensures
        extends(t0, t2),
        fmap_read(replies(new_transactions(t0, t2)), l),
{
    lemma_new_chain(t0, t1, t2);
    lemma_replies_concat(new_transactions(t0, t1), new_transactions(t1, t2));
    let a = replies(new_transactions(t0, t1));
    let b = replies(new_transactions(t1, t2));
    let (o, e) = choose|o: int, e: int| 0 <= o <= e <= b.len() && #[trigger] fmap_parses_to(b.subrange(o, e), l);
    assert((a + b).subrange(a.len() + o, a.len() + e) =~= b.subrange(o, e));
    assert(fmap_parses_to((a + b).subrange(a.len() + o, a.len() + e), l));
}

/// Read IFD layout from flash
///
/// Reads the first 4 KiB of the chip and parses the descriptor in it.
pub fn read_ifd_from_flash<M: SpiMaster + ?Sized>(master: &mut M, ctx: &FlashContext) -> (r: Result<Layout, LayoutError>)
    ensures
        final(master).spec_max_read_len() == old(master).spec_max_read_len(),
        ctx.chip.total_size < IFD_SIZE ==> r == Err::<Layout, LayoutError>(LayoutError::IoError),
        r matches Ok(l) ==> exists|d: Seq<u8>| d.len() == IFD_SIZE && ifd_parses(d) && #[trigger] ifd_layout(l, d),
        extends(old(master).transactions(), final(master).transactions()),
        r matches Ok(l) ==> replies(new_transactions(old(master).transactions(), final(master).transactions())).len() == IFD_SIZE && ifd_parses(replies(new_transactions(old(master).transactions(), final(master).transactions())))
            && ifd_layout(l, replies(new_transactions(old(master).transactions(), final(master).transactions()))),
        r matches Err(e) ==> (e == LayoutError::IoError && (ctx.chip.total_size < IFD_SIZE
            || read_failed(old(master).transactions(), final(master).transactions(), final(master).spec_max_read_len())))
            || (e == LayoutError::InvalidIfdSignature
                && replies(new_transactions(old(master).transactions(), final(master).transactions())).len() == IFD_SIZE
                && !ifd_parses(replies(new_transactions(old(master).transactions(), final(master).transactions())))),
{
    let mut buf: Vec<u8> = vec![0u8; IFD_SIZE];
    let rr = read(master, ctx, 0, buf.as_mut_slice());
    if rr.is_err() {
        proof {
            let e = rr->Err_0;
            if answered(old(master).transactions(), master.transactions(), e) {
                assert(read_failed(old(master).transactions(), master.transactions(), master.spec_max_read_len()));
            }
        }
        return Err(LayoutError::IoError);
    }
    if !has_ifd(buf.as_slice()) {
        return Err(LayoutError::InvalidIfdSignature);
    }
    parse_ifd(buf.as_slice())
}

/// Read an FMAP layout from flash
///
/// Binary search at aligned offsets first, then a linear search of the
/// whole chip.
pub fn read_fmap_from_flash<M: SpiMaster + ?Sized>(master: &mut M, ctx: &FlashContext) -> (r: Result<Layout, LayoutError>)
    ensures
        final(master).spec_max_read_len() == old(master).spec_max_read_len(),
        r matches Ok(l) ==> exists|d: Seq<u8>| #[trigger] fmap_parses_to(d, l),
        extends(old(master).transactions(), final(master).transactions()),
        r matches Ok(l) ==> fmap_read(replies(new_transactions(old(master).transactions(), final(master).transactions())), l),
        r matches Err(e) ==> (e == LayoutError::IoError && (ctx.chip.total_size == 0
            || read_failed(old(master).transactions(), final(master).transactions(), final(master).spec_max_read_len())))
            || (e == LayoutError::InvalidFmapSignature && whole_chip_unparsed(
                replies(new_transactions(old(master).transactions(), final(master).transactions())), ctx.chip.total_size)),
{
    let ghost t0 = master.transactions();
    let chip_size = ctx.chip.total_size;
    if let Some(layout) = fmap_bsearch_rom(master, ctx, 0, chip_size, 256)? {
        return Ok(layout);
    }
    let ghost t1 = master.transactions();
    let r = fmap_lsearch_rom(master, ctx, 0, chip_size);
    proof {
        lemma_new_chain(t0, t1, master.transactions());
        if r is Ok {
            lemma_later_bytes(t0, t1, master.transactions(), r->Ok_0);
        } else if r->Err_0 == LayoutError::IoError && ctx.chip.total_size > 0 {
            lemma_read_failed_later(t0, t1, master.transactions(), master.spec_max_read_len());
        } else if r->Err_0 == LayoutError::InvalidFmapSignature {
            let a = replies(new_transactions(t0, t1));
            let b = replies(new_transactions(t1, master.transactions()));
            lemma_replies_concat(new_transactions(t0, t1), new_transactions(t1, master.transactions()));
            assert((a + b).subrange((a + b).len() - chip_size, (a + b).len() as int) =~= b);
        }
    }
    r
}

/// Binary search for an FMAP on the chip
///
/// Strides run from half the chip size down by halves while at least
/// `min_stride`; strides larger than the searched length are skipped.
/// Each stride checks the offsets of `rom_offset..rom_offset + len` that no
/// larger stride checked (offset 0 once). A failed read skips the offset;
/// an FMAP whose full read or parse fails is passed over.
pub fn fmap_bsearch_rom<M: SpiMaster + ?Sized>(
    master: &mut M,
    ctx: &FlashContext,
    rom_offset: u32,
    len: u32,
    min_stride: u32,
) -> (r: Result<Option<Layout>, LayoutError>)
    requires
        min_stride > 0,
    ensures
        final(master).spec_max_read_len() == old(master).spec_max_read_len(),
        rom_offset + len > ctx.chip.total_size ==> r == Err::<Option<Layout>, LayoutError>(LayoutError::IoError),
        rom_offset + len <= ctx.chip.total_size ==> r is Ok,
        r matches Ok(Some(l)) ==> exists|d: Seq<u8>| #[trigger] fmap_parses_to(d, l),
        extends(old(master).transactions(), final(master).transactions()),
        r matches Ok(Some(l)) ==> fmap_read(replies(new_transactions(old(master).transactions(), final(master).transactions())), l),
{
    let ghost t0 = master.transactions();
    proof {
        assert(t0.subrange(0, t0.len() as int) =~= t0);
    }
    let chip_size = ctx.chip.total_size;
    if rom_offset as u64 + len as u64 > chip_size as u64 {
        return Err(LayoutError::IoError);
    }
    if (len as usize) < FMAP_HEADER_SIZE {
        return Ok(None);
    }
    let last = rom_offset + len - FMAP_HEADER_SIZE as u32;
    let mut sig_buf: Vec<u8> = vec![0u8; 8];
    let mut stride = chip_size / 2;
    let mut check_offset_0 = true;
    while stride >= min_stride
        invariant
            min_stride > 0,
            chip_size == ctx.chip.total_size,
            sig_buf@.len() == 8,
            last == rom_offset + len - FMAP_HEADER_SIZE,
            rom_offset + len <= chip_size,
            len >= FMAP_HEADER_SIZE,
            t0 == old(master).transactions(),
            extends(t0, master.transactions()),
            master.spec_max_read_len() == old(master).spec_max_read_len(),
        decreases stride,
    {
        if stride <= len {
            let mut offset = rom_offset;
            let mut scanning = true;
            while scanning && offset <= last
                invariant
                    stride >= min_stride,
                    min_stride > 0,
                    chip_size == ctx.chip.total_size,
                    rom_offset + len <= chip_size,
                    sig_buf@.len() == 8,
                    last == rom_offset + len - FMAP_HEADER_SIZE,
                    t0 == old(master).transactions(),
                    extends(t0, master.transactions()),
                    master.spec_max_read_len() == old(master).spec_max_read_len(),
                decreases (if scanning && offset <= last { last - offset + 1 } else { 0 }),
            {
                let skip = (offset as u64 % (stride as u64 * 2) == 0 && offset != 0) || (offset == 0 && !check_offset_0);
                if !skip {
                    if offset == 0 {
                        check_offset_0 = false;
                    }
                    let ghost ta = master.transactions();
                    let sig_read = read(master, ctx, offset, sig_buf.as_mut_slice()).is_ok();
                    proof {
                        lemma_new_chain(t0, ta, master.transactions());
                    }
                    if sig_read && is_fmap_signature(sig_buf.as_slice()) {
                        let mut header_buf: Vec<u8> = vec![0u8; FMAP_HEADER_SIZE];
                        let ghost tb = master.transactions();
                        let header_read = read(master, ctx, offset, header_buf.as_mut_slice()).is_ok();
                        proof {
                            lemma_new_chain(t0, tb, master.transactions());
                        }
                        if header_read && is_valid_fmap_header(header_buf.as_slice()) {
                            let ghost tc = master.transactions();
                            let found = read_fmap_at_offset(master, ctx, offset);
                            proof {
                                lemma_new_chain(t0, tc, master.transactions());
                                if found is Ok {
                                    lemma_later_bytes(t0, tc, master.transactions(), found->Ok_0);
                                }
                            }
                            if let Ok(layout) = found {
                                return Ok(Some(layout));
                            }
                        }
                    }
                }
                match offset.checked_add(stride) {
                    Some(next) => {
                        offset = next;
                    },
                    None => {
                        scanning = false;
                    },
                }
            }
        }
        stride = stride / 2;
    }
    Ok(None)
}

/// Linear search: read `len` bytes at `rom_offset` and parse the first
/// FMAP in them.
fn fmap_lsearch_rom<M: SpiMaster + ?Sized>(master: &mut M, ctx: &FlashContext, rom_offset: u32, len: u32) -> (r: Result<
    Layout,
    LayoutError,
>)
    ensures
        final(master).spec_max_read_len() == old(master).spec_max_read_len(),
        r matches Ok(l) ==> exists|d: Seq<u8>| #[trigger] fmap_parses_to(d, l),
        extends(old(master).transactions(), final(master).transactions()),
        r matches Ok(l) ==> fmap_read(replies(new_transactions(old(master).transactions(), final(master).transactions())), l),
        r matches Err(e) ==> (e == LayoutError::IoError && (!(rom_offset < ctx.chip.total_size
            && rom_offset + len <= ctx.chip.total_size) || read_failed(old(master).transactions(), final(master).transactions(), final(master).spec_max_read_len())))
            || (e == LayoutError::InvalidFmapSignature
                && replies(new_transactions(old(master).transactions(), final(master).transactions())).len() == len
                && fmap_parse_fails(replies(new_transactions(old(master).transactions(), final(master).transactions())))),
{
    let mut buf: Vec<u8> = vec![0u8; len as usize];
    let rr = read(master, ctx, rom_offset, buf.as_mut_slice());
    if rr.is_err() {
        proof {
            let e = rr->Err_0;
            if answered(old(master).transactions(), master.transactions(), e) {
                assert(read_failed(old(master).transactions(), master.transactions(), master.spec_max_read_len()));
            }
        }
        return Err(LayoutError::IoError);
    }
    let r = parse_fmap(buf.as_slice());
    proof {
        if r is Ok {
            let o = choose|o: int| #[trigger] super::fmap::first_fmap(buf@, o)
                && super::fmap::fmap_layout(r->Ok_0, buf@.subrange(o, buf@.len() as int))
                && super::fmap::areas_fit(buf@.subrange(o, buf@.len() as int));
            assert(fmap_parses_to(buf@.subrange(o, buf@.len() as int), r->Ok_0));
            assert(fmap_read(buf@, r->Ok_0));
        }
    }
    r
}

/// Read the FMAP at `offset`: its header, then header and areas together.
fn read_fmap_at_offset<M: SpiMaster + ?Sized>(master: &mut M, ctx: &FlashContext, offset: u32) -> (r: Result<
    Layout,
    LayoutError,
>)
    ensures
        final(master).spec_max_read_len() == old(master).spec_max_read_len(),
        r matches Ok(l) ==> exists|d: Seq<u8>| #[trigger] fmap_parses_to(d, l),
        extends(old(master).transactions(), final(master).transactions()),
        r matches Ok(l) ==> fmap_read(replies(new_transactions(old(master).transactions(), final(master).transactions())), l),
{
    let ghost t0 = master.transactions();
    let mut header: Vec<u8> = vec![0u8; FMAP_HEADER_SIZE];
    if read(master, ctx, offset, header.as_mut_slice()).is_err() {
        return Err(LayoutError::IoError);
    }
    let ghost t1 = master.transactions();
    if !is_valid_fmap_header(header.as_slice()) {
        return Err(LayoutError::InvalidFmapSignature);
    }
    let nareas = header[54] as usize + header[55] as usize * 256;
    let total_size = FMAP_HEADER_SIZE + nareas * FMAP_AREA_SIZE;
    let mut fmap_data: Vec<u8> = vec![0u8; total_size];
    if read(master, ctx, offset, fmap_data.as_mut_slice()).is_err() {
        return Err(LayoutError::IoError);
    }
    let r = parse_fmap_at(fmap_data.as_slice(), 0);
    proof {
        if r is Ok {
            assert(fmap_data@.subrange(0, fmap_data@.len() as int) =~= fmap_data@);
            assert(fmap_parses_to(fmap_data@, r->Ok_0));
            assert(fmap_read(fmap_data@, r->Ok_0));
            lemma_later_bytes(t0, t1, master.transactions(), r->Ok_0);
        }
    }
    r
}

/// Read layout from flash, trying IFD first and then FMAP
pub fn read_layout_from_flash<M: SpiMaster + ?Sized>(master: &mut M, ctx: &FlashContext) -> (r: Result<Layout, LayoutError>)
    ensures
        final(master).spec_max_read_len() == old(master).spec_max_read_len(),
        r matches Ok(l) ==> (exists|d: Seq<u8>| d.len() == IFD_SIZE && ifd_parses(d) && #[trigger] ifd_layout(l, d))
            || (exists|d: Seq<u8>| #[trigger] fmap_parses_to(d, l)),
        extends(old(master).transactions(), final(master).transactions()),
        r matches Ok(l) ==> (replies(new_transactions(old(master).transactions(), final(master).transactions())).len() == IFD_SIZE
            && ifd_parses(replies(new_transactions(old(master).transactions(), final(master).transactions()))) && ifd_layout(l, replies(new_transactions(old(master).transactions(), final(master).transactions()))))
            || fmap_read(replies(new_transactions(old(master).transactions(), final(master).transactions())), l),
        r matches Err(e) ==> (e == LayoutError::IoError && (ctx.chip.total_size == 0
            || read_failed(old(master).transactions(), final(master).transactions(), final(master).spec_max_read_len())))
            || (e == LayoutError::InvalidFmapSignature && whole_chip_unparsed(
                replies(new_transactions(old(master).transactions(), final(master).transactions())), ctx.chip.total_size)),
        ctx.chip.total_size >= IFD_SIZE
            && !read_failed(old(master).transactions(), final(master).transactions(), final(master).spec_max_read_len())
            && replies(new_transactions(old(master).transactions(), final(master).transactions())).len() >= IFD_SIZE
            && ifd_parses(replies(new_transactions(old(master).transactions(), final(master).transactions())).subrange(0, IFD_SIZE as int))
            ==> (r matches Ok(l) && ifd_layout(l, replies(new_transactions(old(master).transactions(), final(master).transactions())).subrange(0, IFD_SIZE as int))),
{
    let ghost t0 = master.transactions();
    let ri = read_ifd_from_flash(master, ctx);
    let ghost t1 = master.transactions();
    if let Ok(layout) = ri {
        proof {
            let d = replies(new_transactions(t0, t1));
            assert(d.subrange(0, IFD_SIZE as int) =~= d);
        }
        return Ok(layout);
    }
    let r = read_fmap_from_flash(master, ctx);
    proof {
        lemma_new_chain(t0, t1, master.transactions());
        lemma_replies_concat(new_transactions(t0, t1), new_transactions(t1, master.transactions()));
        let a = replies(new_transactions(t0, t1));
        let b = replies(new_transactions(t1, master.transactions()));
        if r is Ok {
            lemma_later_bytes(t0, t1, master.transactions(), r->Ok_0);
        } else if r->Err_0 == LayoutError::IoError && ctx.chip.total_size > 0 {
            lemma_read_failed_later(t0, t1, master.transactions(), master.spec_max_read_len());
        } else if r->Err_0 == LayoutError::InvalidFmapSignature {
            assert((a + b).subrange((a + b).len() - ctx.chip.total_size, (a + b).len() as int)
                =~= b.subrange(b.len() - ctx.chip.total_size, b.len() as int));
        }
        if ri->Err_0 == LayoutError::IoError && ctx.chip.total_size >= IFD_SIZE {
            if exists|e: Error| #[trigger] answered(t0, t1, e) {
                let e = choose|e: Error| #[trigger] answered(t0, t1, e);
                lemma_answered(t0, t1, master.transactions(), e);
            }
        } else if ri->Err_0 == LayoutError::InvalidIfdSignature {
            assert((a + b).subrange(0, IFD_SIZE as int) =~= a);
        }
    }
    r
}

} // verus!
