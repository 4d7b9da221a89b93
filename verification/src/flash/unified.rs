//! High-level operations over any flash device: reading with progress and
//! the smart write, which erases and programs only what has to change.
use vstd::prelude::*;
use crate::chip::types::{same_block, EraseBlock, WriteGranularity};
use crate::error::Error;
use super::device::{device_answered, erased_range, programmed, DeviceCall, DeviceOp, FlashDevice};
use super::erase_plan::{
    aligned_erase_sizes, block_needs_erase, is_block_op, is_chip_op, is_level_candidate,
    ops_cover, plan_covers, plan_optimal_erase, plan_optimal_erase_region, spec_buffer_offset,
    OptimalEraseOp,
};
use crate::layout::types::{lemma_validated_layout, region_fits, Layout, LayoutError, Region};
use super::operations::{
    byte_needs_erase, diff_count, differs, get_all_write_ranges, lemma_diff_count_bounds,
    lemma_diff_count_none, lemma_ranges_len_counts_diffs, need_write, ranges_end, ranges_len,
    spec_need_erase, lemma_report_complete, lemma_report_pending, lemma_reports_pending_trans, reports_complete, reports_pending,
    ProgressEvent, WriteProgress, WriteStats, ERASED_VALUE,
};

verus! {

/// Default read chunk size
pub const READ_CHUNK_SIZE: usize = 4096;

/// The calls of `after` made after those of `before`.
pub open spec fn new_calls(before: Seq<DeviceCall>, after: Seq<DeviceCall>) -> Seq<DeviceCall> {
    after.subrange(before.len() as int, after.len() as int)
}

/// The number of erases among `calls`.
pub open spec fn erase_count(calls: Seq<DeviceCall>) -> nat
    decreases calls.len(),
{
    if calls.len() == 0 {
        0
    } else {
        erase_count(calls.drop_last()) + if calls.last().op is Erase { 1nat } else { 0nat }
    }
}

/// The bytes the erases among `calls` cover, counted once per erase.
pub open spec fn erase_bytes(calls: Seq<DeviceCall>) -> nat
    decreases calls.len(),
{
    if calls.len() == 0 {
        0
    } else {
        erase_bytes(calls.drop_last()) + match calls.last().op {
            DeviceOp::Erase { len, .. } => len as nat,
            _ => 0nat,
        }
    }
}

/// The number of writes among `calls`.
pub open spec fn write_count(calls: Seq<DeviceCall>) -> nat
    decreases calls.len(),
{
    if calls.len() == 0 {
        0
    } else {
        write_count(calls.drop_last()) + if calls.last().op is Write { 1nat } else { 0nat }
    }
}

/// The bytes the writes among `calls` carry.
pub open spec fn write_bytes(calls: Seq<DeviceCall>) -> nat
    decreases calls.len(),
{
    if calls.len() == 0 {
        0
    } else {
        write_bytes(calls.drop_last()) + match calls.last().op {
            DeviceOp::Write { data, .. } => data.len(),
            _ => 0nat,
        }
    }
}

/// The number of writes among `calls` at addresses in `lo..hi`.
pub open spec fn region_write_count(calls: Seq<DeviceCall>, lo: int, hi: int) -> nat
    decreases calls.len(),
{
    if calls.len() == 0 {
        0
    } else {
        region_write_count(calls.drop_last(), lo, hi) + match calls.last().op {
            DeviceOp::Write { addr, .. } => if lo <= addr < hi { 1nat } else { 0nat },
            _ => 0nat,
        }
    }
}

/// The bytes the writes among `calls` at addresses in `lo..hi` carry.
pub open spec fn region_write_bytes(calls: Seq<DeviceCall>, lo: int, hi: int) -> nat
    decreases calls.len(),
{
    if calls.len() == 0 {
        0
    } else {
        region_write_bytes(calls.drop_last(), lo, hi) + match calls.last().op {
            DeviceOp::Write { addr, data } => if lo <= addr < hi { data.len() } else { 0nat },
            _ => 0nat,
        }
    }
}

/// Every write among `calls` at an address of `base..base + data.len()`
/// programs the bytes of `data` there.
pub open spec fn region_writes_from(calls: Seq<DeviceCall>, data: Seq<u8>, base: int) -> bool {
    forall|j: int| 0 <= j < calls.len() ==> (#[trigger] calls[j].op matches DeviceOp::Write { addr, data: d }
        ==> (base <= addr < base + data.len() ==> addr - base + d.len() <= data.len()
        && d == data.subrange(addr - base, addr - base + d.len())))
}

/// One more call, counted by region.
proof fn lemma_region_call(s: Seq<DeviceCall>, c: DeviceCall, data: Seq<u8>, base: int)
    requires
        region_writes_from(s, data, base),
        c.op matches DeviceOp::Write { addr, data: d } ==> (base <= addr < base + data.len()
            ==> addr - base + d.len() <= data.len() && d == data.subrange(addr - base, addr - base + d.len())),
    ensures
        region_writes_from(s.push(c), data, base),
        region_write_count(s.push(c), base, base + data.len()) == region_write_count(s, base, base + data.len())
            + match c.op {
            DeviceOp::Write { addr, .. } => if base <= addr < base + data.len() { 1nat } else { 0nat },
            _ => 0nat,
        },
        region_write_bytes(s.push(c), base, base + data.len()) == region_write_bytes(s, base, base + data.len())
            + match c.op {
            DeviceOp::Write { addr, data: d } => if base <= addr < base + data.len() { d.len() } else { 0nat },
            _ => 0nat,
        },
{
    assert(s.push(c).drop_last() =~= s);
    assert forall|j: int| 0 <= j < s.push(c).len() implies (#[trigger] s.push(c)[j].op matches DeviceOp::Write { addr, data: d }
        ==> (base <= addr < base + data.len() ==> addr - base + d.len() <= data.len()
        && d == data.subrange(addr - base, addr - base + d.len()))) by {
        if j < s.len() {
            assert(s.push(c)[j] == s[j]);
        }
    }
}

/// A record without writes has none in any region, and takes no data.
proof fn lemma_no_region_writes(s: Seq<DeviceCall>, data: Seq<u8>, base: int)
    requires
        write_count(s) == 0,
    ensures
        region_write_count(s, base, base + data.len()) == 0,
        region_write_bytes(s, base, base + data.len()) == 0,
        region_writes_from(s, data, base),
    decreases s.len(),
{
    if s.len() > 0 {
        lemma_no_region_writes(s.drop_last(), data, base);
        assert forall|j: int| 0 <= j < s.len() implies !(#[trigger] s[j].op is Write) by {
            lemma_no_write_in(s, j);
        }
    }
}

/// No write among `calls` falls at an address of `lo..hi`.
pub open spec fn no_writes_in(calls: Seq<DeviceCall>, lo: int, hi: int) -> bool {
    forall|j: int| 0 <= j < calls.len() ==> (#[trigger] calls[j].op matches DeviceOp::Write { addr, .. }
        ==> !(lo <= addr < hi))
}

/// A record without writes has none in any range.
proof fn lemma_no_writes_in(s: Seq<DeviceCall>, lo: int, hi: int)
    requires
        write_count(s) == 0,
    ensures
        no_writes_in(s, lo, hi),
{
    assert forall|j: int| 0 <= j < s.len() implies (#[trigger] s[j].op matches DeviceOp::Write { addr, .. }
        ==> !(lo <= addr < hi)) by {
        lemma_no_write_in(s, j);
    }
}

/// A call that writes nowhere in `lo..hi` keeps the range free of writes.
proof fn lemma_no_writes_in_push(s: Seq<DeviceCall>, c: DeviceCall, lo: int, hi: int)
    requires
        no_writes_in(s, lo, hi),
        c.op matches DeviceOp::Write { addr, .. } ==> !(lo <= addr < hi),
    ensures
        no_writes_in(s.push(c), lo, hi),
{
    assert forall|j: int| 0 <= j < s.push(c).len() implies (#[trigger] s.push(c)[j].op matches DeviceOp::Write { addr, .. }
        ==> !(lo <= addr < hi)) by {
        if j < s.len() {
            assert(s.push(c)[j] == s[j]);
        }
    }
}

/// A record with no write in the region counts none there and takes no data.
proof fn lemma_no_writes_region(s: Seq<DeviceCall>, data: Seq<u8>, base: int)
    requires
        no_writes_in(s, base, base + data.len()),
    ensures
        region_write_count(s, base, base + data.len()) == 0,
        region_write_bytes(s, base, base + data.len()) == 0,
        region_writes_from(s, data, base),
    decreases s.len(),
{
    if s.len() > 0 {
        assert(no_writes_in(s.drop_last(), base, base + data.len())) by {
            assert forall|j: int| 0 <= j < s.drop_last().len() implies (#[trigger] s.drop_last()[j].op matches DeviceOp::Write { addr, .. }
                ==> !(base <= addr < base + data.len())) by {
                assert(s.drop_last()[j] == s[j]);
            }
        }
        lemma_no_writes_region(s.drop_last(), data, base);
        assert(s[s.len() - 1] == s.last());
    }
}

/// Region counts of two records one after the other add up.
proof fn lemma_region_concat(a: Seq<DeviceCall>, b: Seq<DeviceCall>, data: Seq<u8>, base: int)
    requires
        region_writes_from(a, data, base),
        region_writes_from(b, data, base),
    ensures
        region_write_count(a + b, base, base + data.len()) == region_write_count(a, base, base + data.len())
            + region_write_count(b, base, base + data.len()),
        region_write_bytes(a + b, base, base + data.len()) == region_write_bytes(a, base, base + data.len())
            + region_write_bytes(b, base, base + data.len()),
        region_writes_from(a + b, data, base),
    decreases b.len(),
{
    if b.len() == 0 {
        assert(a + b =~= a);
    } else {
        assert((a + b).drop_last() =~= a + b.drop_last());
        assert((a + b).last() == b.last());
        assert(region_writes_from(b.drop_last(), data, base)) by {
            assert forall|j: int| 0 <= j < b.drop_last().len() implies (#[trigger] b.drop_last()[j].op matches DeviceOp::Write { addr, data: d }
                ==> (base <= addr < base + data.len() ==> addr - base + d.len() <= data.len()
                && d == data.subrange(addr - base, addr - base + d.len()))) by {
                assert(b.drop_last()[j] == b[j]);
            }
        }
        lemma_region_concat(a, b.drop_last(), data, base);
        assert forall|j: int| 0 <= j < (a + b).len() implies (#[trigger] (a + b)[j].op matches DeviceOp::Write { addr, data: d }
            ==> (base <= addr < base + data.len() ==> addr - base + d.len() <= data.len()
            && d == data.subrange(addr - base, addr - base + d.len()))) by {
            if j < a.len() {
                assert((a + b)[j] == a[j]);
            } else {
                assert((a + b)[j] == b[j - a.len()]);
            }
        }
    }
}

/// Byte `p` lies in the range of an erase among `calls`.
pub open spec fn erased_by(calls: Seq<DeviceCall>, p: int) -> bool {
    exists|k: int| 0 <= k < calls.len() && (#[trigger] calls[k].op matches DeviceOp::Erase { addr, len }
        && addr <= p < addr + len)
}

/// Every byte that a write among `calls` programs either differs between
/// `old` and `data` or was erased by one of the calls.
pub open spec fn writes_needed(calls: Seq<DeviceCall>, old: Seq<u8>, data: Seq<u8>) -> bool {
    forall|j: int, p: int| #![trigger calls[j], data[p]] 0 <= j < calls.len() && (calls[j].op matches DeviceOp::Write { addr, data: d }
        && addr <= p < addr + d.len()) ==> old[p] != data[p] || erased_by(calls, p)
}

/// A byte erased by a call stays erased by some call as more follow.
proof fn lemma_erased_by_push(s: Seq<DeviceCall>, c: DeviceCall, p: int)
    requires
        erased_by(s, p),
    ensures
        erased_by(s.push(c), p),
{
    let k = choose|k: int| 0 <= k < s.len() && (#[trigger] s[k].op matches DeviceOp::Erase { addr, len }
        && addr <= p < addr + len);
    assert(s.push(c)[k] == s[k]);
}

/// Every call among `calls` is a read inside `lo..hi`.
pub open spec fn reads_within(calls: Seq<DeviceCall>, lo: int, hi: int) -> bool {
    forall|j: int| 0 <= j < calls.len() ==> (#[trigger] calls[j].op matches DeviceOp::Read { addr, len }
        && lo <= addr && addr + len <= hi)
}

/// Every call among `calls` is a read inside one of the included regions.
pub open spec fn reads_in_included(calls: Seq<DeviceCall>, regs: Seq<Region>) -> bool {
    forall|j: int| 0 <= j < calls.len() ==> (#[trigger] calls[j].op matches DeviceOp::Read { addr, len }
        && exists|k: int| 0 <= k < regs.len() && (#[trigger] regs[k]).included && regs[k].start <= addr
            && addr + len <= regs[k].end + 1)
}

/// A read inside `lo..hi` keeps the reads inside it.
proof fn lemma_reads_within_push(s: Seq<DeviceCall>, c: DeviceCall, lo: int, hi: int)
    requires
        reads_within(s, lo, hi),
        c.op matches DeviceOp::Read { addr, len } && lo <= addr && addr + len <= hi,
    ensures
        reads_within(s.push(c), lo, hi),
{
    assert forall|j: int| 0 <= j < s.push(c).len() implies (#[trigger] s.push(c)[j].op matches DeviceOp::Read { addr, len }
        && lo <= addr && addr + len <= hi) by {
        if j < s.len() {
            assert(s.push(c)[j] == s[j]);
        }
    }
}

/// Reads inside an included region join the reads inside included regions.
proof fn lemma_reads_in_included(a: Seq<DeviceCall>, b: Seq<DeviceCall>, regs: Seq<Region>, k: int)
    requires
        reads_in_included(a, regs),
        0 <= k < regs.len(),
        regs[k].included,
        reads_within(b, regs[k].start as int, regs[k].end + 1),
    ensures
        reads_in_included(a + b, regs),
{
    assert forall|j: int| 0 <= j < (a + b).len() implies (#[trigger] (a + b)[j].op matches DeviceOp::Read { addr, len }
        && exists|k2: int| 0 <= k2 < regs.len() && (#[trigger] regs[k2]).included && regs[k2].start <= addr
            && addr + len <= regs[k2].end + 1) by {
        if j < a.len() {
            assert((a + b)[j] == a[j]);
        } else {
            assert((a + b)[j] == b[j - a.len()]);
            assert(regs[k].included);
        }
    }
}

/// `n`, or `usize::MAX` where it does not fit.
pub open spec fn capped(n: nat) -> usize {
    if n <= usize::MAX { n as usize } else { usize::MAX }
}

/// Every write among `calls` programs the bytes of `data` at its own
/// address, less `base`.
pub open spec fn writes_from(calls: Seq<DeviceCall>, data: Seq<u8>, base: int) -> bool {
    forall|j: int| 0 <= j < calls.len() ==> (#[trigger] calls[j].op matches DeviceOp::Write { addr, data: d }
        ==> base <= addr && addr - base + d.len() <= data.len() && d == data.subrange(addr - base, addr - base + d.len()))
}

/// One more call: the record still extends `c0`, the new calls gain it, an
/// error it answered is answered, and the counts grow by it.
proof fn lemma_call(c0: Seq<DeviceCall>, c1: Seq<DeviceCall>, c: DeviceCall)
    requires
        c0.is_prefix_of(c1),
    ensures
        c0.is_prefix_of(c1.push(c)),
        new_calls(c0, c1.push(c)) == new_calls(c0, c1).push(c),
        c.result matches Err(e) ==> device_answered(c0, c1.push(c), e),
        erase_count(new_calls(c0, c1.push(c))) == erase_count(new_calls(c0, c1)) + if c.op is Erase { 1nat } else { 0nat },
        write_count(new_calls(c0, c1.push(c))) == write_count(new_calls(c0, c1)) + if c.op is Write { 1nat } else { 0nat },
        erase_bytes(new_calls(c0, c1.push(c))) == erase_bytes(new_calls(c0, c1)) + match c.op {
            DeviceOp::Erase { len, .. } => len as nat,
            _ => 0nat,
        },
        write_bytes(new_calls(c0, c1.push(c))) == write_bytes(new_calls(c0, c1)) + match c.op {
            DeviceOp::Write { data, .. } => data.len(),
            _ => 0nat,
        },
{
    assert(c1.push(c).subrange(0, c0.len() as int) =~= c1.subrange(0, c0.len() as int));
    assert(new_calls(c0, c1.push(c)) =~= new_calls(c0, c1).push(c));
    assert(new_calls(c0, c1).push(c).drop_last() =~= new_calls(c0, c1));
    if c.result is Err {
        assert(c1.push(c)[c1.len() as int] == c);
    }
}

/// A call that is no write, or writes the bytes of `data` at its own
/// address less `base`, keeps every write taken from `data`.
proof fn lemma_writes_from_push(calls: Seq<DeviceCall>, c: DeviceCall, data: Seq<u8>, base: int)
    requires
        writes_from(calls, data, base),
        c.op matches DeviceOp::Write { addr, data: d } ==> base <= addr && addr - base + d.len() <= data.len()
            && d == data.subrange(addr - base, addr - base + d.len()),
    ensures
        writes_from(calls.push(c), data, base),
{
    assert forall|j: int| 0 <= j < calls.push(c).len() implies (#[trigger] calls.push(c)[j].op matches DeviceOp::Write { addr, data: d }
        ==> base <= addr && addr - base + d.len() <= data.len() && d == data.subrange(addr - base, addr - base + d.len())) by {
        if j < calls.len() {
            assert(calls.push(c)[j] == calls[j]);
        }
    }
}

/// A record without writes holds no write call.
proof fn lemma_no_write_in(calls: Seq<DeviceCall>, j: int)
    requires
        write_count(calls) == 0,
        0 <= j < calls.len(),
    ensures
        !(calls[j].op is Write),
    decreases calls.len(),
{
    if j < calls.len() - 1 {
        assert(calls.drop_last()[j] == calls[j]);
        lemma_no_write_in(calls.drop_last(), j);
    }
}

/// The counts of two records one after the other add up.
proof fn lemma_counts_concat(a: Seq<DeviceCall>, b: Seq<DeviceCall>)
    ensures
        erase_count(a + b) == erase_count(a) + erase_count(b),
        write_count(a + b) == write_count(a) + write_count(b),
        erase_bytes(a + b) == erase_bytes(a) + erase_bytes(b),
        write_bytes(a + b) == write_bytes(a) + write_bytes(b),
    decreases b.len(),
{
    if b.len() == 0 {
        assert(a + b =~= a);
    } else {
        assert((a + b).drop_last() =~= a + b.drop_last());
        assert((a + b).last() == b.last());
        lemma_counts_concat(a, b.drop_last());
    }
}

/// Calls made in two steps: the record extends, the new calls join up and
/// an error answered in either step is answered.
proof fn lemma_calls_chain(c0: Seq<DeviceCall>, c1: Seq<DeviceCall>, c2: Seq<DeviceCall>)
    requires
        c0.is_prefix_of(c1),
        c1.is_prefix_of(c2),
    ensures
        c0.is_prefix_of(c2),
        new_calls(c0, c2) == new_calls(c0, c1) + new_calls(c1, c2),
        erase_count(new_calls(c0, c2)) == erase_count(new_calls(c0, c1)) + erase_count(new_calls(c1, c2)),
        write_count(new_calls(c0, c2)) == write_count(new_calls(c0, c1)) + write_count(new_calls(c1, c2)),
        erase_bytes(new_calls(c0, c2)) == erase_bytes(new_calls(c0, c1)) + erase_bytes(new_calls(c1, c2)),
        write_bytes(new_calls(c0, c2)) == write_bytes(new_calls(c0, c1)) + write_bytes(new_calls(c1, c2)),
        forall|e: Error| device_answered(c0, c1, e) || device_answered(c1, c2, e) ==> #[trigger] device_answered(c0, c2, e),
{
    assert(c2.subrange(0, c0.len() as int) =~= c2.subrange(0, c1.len() as int).subrange(0, c0.len() as int));
    assert(new_calls(c0, c2) =~= new_calls(c0, c1) + new_calls(c1, c2));
    lemma_counts_concat(new_calls(c0, c1), new_calls(c1, c2));
    assert forall|e: Error| device_answered(c0, c1, e) || device_answered(c1, c2, e) implies #[trigger] device_answered(c0, c2, e) by {
        super::device::lemma_device_answered(c0, c1, c2, e);
    }
}

/// No calls yet.
proof fn lemma_no_calls(c0: Seq<DeviceCall>)
    ensures
        c0.is_prefix_of(c0),
        new_calls(c0, c0) == Seq::<DeviceCall>::empty(),
        erase_count(new_calls(c0, c0)) == 0,
        write_count(new_calls(c0, c0)) == 0,
        erase_bytes(new_calls(c0, c0)) == 0,
        write_bytes(new_calls(c0, c0)) == 0,
{
    assert(c0.subrange(0, c0.len() as int) =~= c0);
    assert(new_calls(c0, c0) =~= Seq::<DeviceCall>::empty());
}

/// No reports yet.
proof fn lemma_no_reports(e0: Seq<ProgressEvent>)
    ensures
        reports_pending(e0, e0),
{
    assert(e0.subrange(0, e0.len() as int) =~= e0);
}

/// Some erase block of the device can serve as an erase unit.
pub open spec fn has_erase_unit(blocks: Seq<EraseBlock>, flash_size: u32) -> bool {
    exists|i: int| 0 <= i < blocks.len() && #[trigger] is_level_candidate(blocks[i], flash_size)
}

/// Copies of the erase blocks.
fn copy_erase_blocks(blocks: &[EraseBlock]) -> (r: Vec<EraseBlock>)
    ensures
        r@.len() == blocks@.len(),
        forall|k: int| 0 <= k < blocks@.len() ==> same_block(#[trigger] r@[k], blocks@[k]),
{
    let mut out: Vec<EraseBlock> = Vec::new();
    let mut k: usize = 0;
    while k < blocks.len()
        invariant
            k <= blocks@.len(),
            out@.len() == k,
            forall|j: int| 0 <= j < k ==> same_block(#[trigger] out@[j], blocks@[j]),
        decreases blocks@.len() - k,
    {
        out.push(blocks[k].duplicate());
        k += 1;
    }
    out
}

/// Erase blocks with the same opcodes and regions plan alike.
proof fn lemma_same_blocks_plan_alike(a: Seq<EraseBlock>, b: Seq<EraseBlock>, flash_size: u32)
    requires
        a.len() == b.len(),
        forall|k: int| 0 <= k < a.len() ==> same_block(#[trigger] a[k], b[k]),
    ensures
        forall|k: int| 0 <= k < a.len() ==> (#[trigger] is_level_candidate(a[k], flash_size)
            <==> is_level_candidate(b[k], flash_size)),
        forall|k: int| 0 <= k < a.len() ==> (#[trigger] a[k]).spec_min_block_size() == b[k].spec_min_block_size(),
        aligned_erase_sizes(a, flash_size) <==> aligned_erase_sizes(b, flash_size),
        has_erase_unit(a, flash_size) <==> has_erase_unit(b, flash_size),
{
    assert forall|k: int| 0 <= k < a.len() implies (#[trigger] a[k]).spec_min_block_size() == b[k].spec_min_block_size()
        && (is_level_candidate(a[k], flash_size) <==> is_level_candidate(b[k], flash_size)) by {
        assert(same_block(a[k], b[k]));
    }
    if aligned_erase_sizes(a, flash_size) {
        assert forall|i: int, j: int| 0 <= i < b.len() && 0 <= j < b.len()
            && #[trigger] is_level_candidate(b[i], flash_size)
            && #[trigger] is_level_candidate(b[j], flash_size)
            && b[i].spec_min_block_size() <= b[j].spec_min_block_size()
            implies b[j].spec_min_block_size() % b[i].spec_min_block_size() == 0 by {
            assert(is_level_candidate(a[i], flash_size) && is_level_candidate(a[j], flash_size));
        }
        assert forall|i: int| 0 <= i < b.len() && #[trigger] is_level_candidate(b[i], flash_size)
            implies flash_size % b[i].spec_min_block_size() == 0 by {
            assert(is_level_candidate(a[i], flash_size));
        }
    }
    if aligned_erase_sizes(b, flash_size) {
        assert forall|i: int, j: int| 0 <= i < a.len() && 0 <= j < a.len()
            && #[trigger] is_level_candidate(a[i], flash_size)
            && #[trigger] is_level_candidate(a[j], flash_size)
            && a[i].spec_min_block_size() <= a[j].spec_min_block_size()
            implies a[j].spec_min_block_size() % a[i].spec_min_block_size() == 0 by {
            assert(is_level_candidate(b[i], flash_size) && is_level_candidate(b[j], flash_size));
        }
        assert forall|i: int| 0 <= i < a.len() && #[trigger] is_level_candidate(a[i], flash_size)
            implies flash_size % a[i].spec_min_block_size() == 0 by {
            assert(is_level_candidate(b[i], flash_size));
        }
    }
    if has_erase_unit(b, flash_size) {
        let i = choose|i: int| 0 <= i < b.len() && #[trigger] is_level_candidate(b[i], flash_size);
        assert(is_level_candidate(a[i], flash_size));
    }
    if has_erase_unit(a, flash_size) {
        let i = choose|i: int| 0 <= i < a.len() && #[trigger] is_level_candidate(a[i], flash_size);
        assert(is_level_candidate(b[i], flash_size));
    }
}

/// Read `len` bytes from `addr` in chunks, reporting progress.
fn read_region<D: FlashDevice + ?Sized, P: WriteProgress + ?Sized>(
    device: &mut D,
    addr: u32,
    len: usize,
    progress: &mut P,
) -> (r: Result<Vec<u8>, Error>)
    ensures
        final(device).contents() == old(device).contents(),
        final(device).spec_erase_blocks() == old(device).spec_erase_blocks(),
        final(device).spec_write_granularity() == old(device).spec_write_granularity(),
        r matches Ok(v) ==> addr + len <= old(device).contents().len()
            && v@ == old(device).contents().subrange(addr as int, addr + len),
        old(device).calls().is_prefix_of(final(device).calls()),
        erase_count(new_calls(old(device).calls(), final(device).calls())) == 0,
        write_count(new_calls(old(device).calls(), final(device).calls())) == 0,
        erase_bytes(new_calls(old(device).calls(), final(device).calls())) == 0,
        write_bytes(new_calls(old(device).calls(), final(device).calls())) == 0,
        r matches Err(e) ==> device_answered(old(device).calls(), final(device).calls(), e)
            || (e == Error::AddressOutOfBounds && addr + len > old(device).contents().len()),
        final(progress).keeps_record() == old(progress).keeps_record(),
        old(progress).keeps_record() ==> reports_pending(old(progress).events(), final(progress).events()),
{
    let ghost c = device.contents();
    let ghost c0 = device.calls();
    proof {
        lemma_no_calls(c0);
        lemma_no_reports(progress.events());
    }
    let size = device.size();
    let mut out: Vec<u8> = Vec::new();
    let mut done: usize = 0;
    while done < len
        invariant
            done <= len,
            c == old(device).contents(),
            size == c.len(),
            device.contents() == c,
            device.spec_erase_blocks() == old(device).spec_erase_blocks(),
            device.spec_write_granularity() == old(device).spec_write_granularity(),
            out@.len() == done,
            done > 0 ==> addr + done <= c.len() && out@ == c.subrange(addr as int, addr + done),
            c0 == old(device).calls(),
            c0.is_prefix_of(device.calls()),
            erase_count(new_calls(c0, device.calls())) == 0,
            write_count(new_calls(c0, device.calls())) == 0,
            erase_bytes(new_calls(c0, device.calls())) == 0,
            write_bytes(new_calls(c0, device.calls())) == 0,
            progress.keeps_record() == old(progress).keeps_record(),
            old(progress).keeps_record() ==> reports_pending(old(progress).events(), progress.events()),
        decreases len - done,
    {
        let chunk_size = if len - done < READ_CHUNK_SIZE { len - done } else { READ_CHUNK_SIZE };
        if done > u32::MAX as usize || addr as usize > u32::MAX as usize - done {
            return Err(Error::AddressOutOfBounds);
        }
        let at = addr + done as u32;
        let mut chunk: Vec<u8> = vec![0u8; chunk_size];
        let ghost c1 = device.calls();
        let rr = device.read(at, chunk.as_mut_slice());
        proof {
            lemma_call(c0, c1, device.calls().last());
        }
        rr?;
        let ghost before = out@;
        out.append(&mut chunk);
        assert(out@ =~= c.subrange(addr as int, addr + done + chunk_size));
        done += chunk_size;
        let ghost e1 = progress.events();
        progress.read_progress(done);
        proof {
            if old(progress).keeps_record() {
                lemma_report_pending(old(progress).events(), e1, ProgressEvent::ReadStep(done));
            }
        }
    }
    if len == 0 {
        if addr > size {
            return Err(Error::AddressOutOfBounds);
        }
        assert(out@ =~= c.subrange(addr as int, addr as int));
    }
    Ok(out)
}

} // verus!

verus! {

/// An erase block of smallest size among the candidates.
proof fn lemma_min_candidate(blocks: Seq<EraseBlock>, flash_size: u32, n: int) -> (i: int)
    requires
        0 <= n <= blocks.len(),
        exists|k: int| 0 <= k < n && #[trigger] is_level_candidate(blocks[k], flash_size),
    ensures
        0 <= i < n,
        is_level_candidate(blocks[i], flash_size),
        forall|j: int| 0 <= j < n && #[trigger] is_level_candidate(blocks[j], flash_size)
            ==> blocks[i].spec_min_block_size() <= blocks[j].spec_min_block_size(),
    decreases n,
{
    if exists|k: int| 0 <= k < n - 1 && #[trigger] is_level_candidate(blocks[k], flash_size) {
        let i0 = lemma_min_candidate(blocks, flash_size, n - 1);
        if is_level_candidate(blocks[n - 1], flash_size)
            && blocks[n - 1].spec_min_block_size() < blocks[i0].spec_min_block_size() {
            n - 1
        } else {
            i0
        }
    } else {
        n - 1
    }
}

/// A byte that differs and needs no erase (or is erased) programs to the
/// wanted value.
proof fn lemma_program_byte(h: u8, w: u8, g: WriteGranularity)
    requires
        h == 0xFF || !byte_needs_erase(h, w, g),
    ensures
        (h & w) == w,
{
    assert((0xFFu8 & w) == w) by (bit_vector);
    assert((w & w) == w) by (bit_vector);
}

/// In a plan that covers the whole chip, every byte that needs an erase
/// lies in some operation.
proof fn lemma_needed_byte_erased(
    ops: Seq<OptimalEraseOp>,
    blocks: Seq<EraseBlock>,
    flash_size: u32,
    have: &[u8],
    want: &[u8],
    g: WriteGranularity,
    p: int,
)
    requires
        have@.len() == flash_size,
        want@.len() == flash_size,
        flash_size > 0,
        aligned_erase_sizes(blocks, flash_size),
        has_erase_unit(blocks, flash_size),
        plan_covers(ops, blocks, flash_size, Some(have), Some(want), 0, (flash_size - 1) as u32, g),
        0 <= p < flash_size,
        byte_needs_erase(have@[p], want@[p], g),
    ensures
        exists|j: int| 0 <= j < ops.len() && (#[trigger] ops[j]).start <= p < ops[j].start + ops[j].size,
{
    let i = lemma_min_candidate(blocks, flash_size, blocks.len() as int);
    let sz = blocks[i].spec_min_block_size() as int;
    let fs = flash_size as int;
    assert(sz > 0);
    assert(fs % sz == 0);
    let k = p / sz;
    assert(k * sz <= p < k * sz + sz) by (nonlinear_arith)
        requires
            sz > 0,
            k == p / sz,
            p >= 0,
    ;
    assert(k < fs / sz && k * sz + sz <= fs) by (nonlinear_arith)
        requires
            sz > 0,
            fs % sz == 0,
            k * sz <= p,
            p < fs,
            k >= 0,
    ;
    assert(0 <= k);
    let start = k * sz;
    let end = k * sz + sz - 1;
    assert(have@[p] != want@[p]) by {
        assert((have@[p] & have@[p]) == have@[p]) by (bit_vector);
    }
    let hs = have@.subrange(start, end + 1);
    let ws = want@.subrange(start, end + 1);
    assert(hs[p - start] == have@[p] && ws[p - start] == want@[p]);
    assert(hs != ws);
    assert(spec_need_erase(hs, ws, g)) by {
        assert(byte_needs_erase(hs[p - start], ws[p - start], g));
    }
    assert(spec_buffer_offset(Some(have), 0, (flash_size - 1) as u32) == 0);
    assert(block_needs_erase(Some(have), Some(want), 0, (flash_size - 1) as u32, g, start, end));
    assert(ops_cover(ops, k * blocks[i].spec_min_block_size(), blocks[i].spec_min_block_size() as int));
}

} // verus!

verus! {

/// Position `p` lies in one of the first `n` ranges.
pub open spec fn in_ranges(ranges: Seq<super::operations::WriteRange>, n: int, p: int) -> bool {
    exists|k: int| 0 <= k < n && ranges[k].start <= p < #[trigger] ranges[k].end()
}

/// The byte at `p` after programming `data` over `erased` in the first `n` ranges.
pub open spec fn written_byte(erased: Seq<u8>, data: Seq<u8>, ranges: Seq<super::operations::WriteRange>, n: int, p: int) -> u8 {
    if in_ranges(ranges, n, p) { erased[p] & data[p] } else { erased[p] }
}

/// Statistics of a write that did nothing.
fn empty_stats() -> (r: WriteStats)
    ensures
        r == (WriteStats {
            bytes_changed: 0,
            erases_performed: 0,
            bytes_erased: 0,
            writes_performed: 0,
            bytes_written: 0,
            flash_modified: false,
        }),
{
    WriteStats {
        bytes_changed: 0,
        erases_performed: 0,
        bytes_erased: 0,
        writes_performed: 0,
        bytes_written: 0,
        flash_modified: false,
    }
}

/// The flash holds `data` after a smart write whenever its erase blocks
/// nest (each erase size divides the larger ones and the chip size) and it
/// has an erase unit, or when nothing needs erasing.
pub open spec fn smart_write_reaches(blocks: Seq<EraseBlock>, old: Seq<u8>, data: Seq<u8>, g: WriteGranularity) -> bool {
    &&& aligned_erase_sizes(blocks, old.len() as u32)
    &&& (has_erase_unit(blocks, old.len() as u32) || !spec_need_erase(old, data, g))
}

/// The number of bytes the write ranges cover: as many as differ.
fn count_changed(changed: &[super::operations::WriteRange], have: &[u8], want: &[u8]) -> (r: usize)
    requires
        have@.len() == want@.len(),
        have@.len() <= u32::MAX,
        forall|k: int| 0 <= k < changed@.len() ==> #[trigger] changed@[k].is_maximal_run(have@, want@),
        forall|k: int, j: int| 0 <= k < j < changed@.len() ==> changed@[k].end() < changed@[j].start,
        forall|i: int| 0 <= i < have@.len() ==> (#[trigger] differs(have@, want@, i) <==>
            exists|k: int| 0 <= k < changed@.len() && changed@[k].start <= i < #[trigger] changed@[k].end()),
    ensures
        r == diff_count(have@, want@, have@.len() as int),
{
    proof {
        lemma_ranges_len_counts_diffs(have@, want@, changed@);
    }
    let mut total: usize = 0;
    let mut c: usize = 0;
    while c < changed.len()
        invariant
            c <= changed@.len(),
            have@.len() <= u32::MAX,
            total == ranges_len(changed@, c as int),
            forall|c2: int| 0 <= c2 <= changed@.len() ==> #[trigger] ranges_len(changed@, c2) == diff_count(
                have@,
                want@,
                ranges_end(changed@, c2),
            ) && 0 <= ranges_end(changed@, c2) <= have@.len(),
        decreases changed@.len() - c,
    {
        proof {
            assert(ranges_len(changed@, c + 1) == diff_count(have@, want@, ranges_end(changed@, c + 1)));
            lemma_diff_count_bounds(have@, want@, 0, ranges_end(changed@, c + 1));
        }
        total = total + changed[c].len as usize;
        c += 1;
    }
    total
}

/// Perform a smart write operation that minimizes flash operations
///
/// Reads the current contents, plans the fewest erase commands that clear
/// every byte that cannot be programmed in place (a larger block is
/// chosen when more than half of it needs erasing), erases them and
/// programs only the bytes that differ. `data` must cover the whole chip.
pub fn smart_write<D: FlashDevice + ?Sized, P: WriteProgress + ?Sized>(
    device: &mut D,
    data: &[u8],
    progress: &mut P,
) -> (r: Result<WriteStats, Error>)
    ensures
        data@.len() != old(device).contents().len() ==> r == Err::<WriteStats, Error>(Error::BufferTooSmall)
            && final(device).contents() == old(device).contents(),
        r is Ok ==> data@.len() == old(device).contents().len(),
        r matches Ok(stats) ==> (stats.flash_modified <==> old(device).contents() != data@),
        r matches Ok(stats) ==> stats.bytes_changed == diff_count(old(device).contents(), data@, data@.len() as int),
        r matches Ok(stats) ==> old(device).contents() == data@ ==> stats == (WriteStats {
            bytes_changed: 0,
            erases_performed: 0,
            bytes_erased: 0,
            writes_performed: 0,
            bytes_written: 0,
            flash_modified: false,
        }) && final(device).contents() == old(device).contents(),
        r is Ok && smart_write_reaches(
            old(device).spec_erase_blocks(),
            old(device).contents(),
            data@,
            old(device).spec_write_granularity(),
        ) ==> final(device).contents() == data@,
        final(device).contents().len() == old(device).contents().len(),
        data@.len() != old(device).contents().len() ==> final(device).calls() == old(device).calls(),
        old(device).calls().is_prefix_of(final(device).calls()),
        r matches Err(e) ==> (e == Error::BufferTooSmall && data@.len() != old(device).contents().len())
            || device_answered(old(device).calls(), final(device).calls(), e),
        r matches Ok(stats) ==> stats.erases_performed == erase_count(new_calls(old(device).calls(), final(device).calls()))
            && stats.bytes_erased == capped(erase_bytes(new_calls(old(device).calls(), final(device).calls())))
            && stats.writes_performed == write_count(new_calls(old(device).calls(), final(device).calls()))
            && stats.bytes_written == capped(write_bytes(new_calls(old(device).calls(), final(device).calls()))),
        writes_from(new_calls(old(device).calls(), final(device).calls()), data@, 0),
        writes_needed(new_calls(old(device).calls(), final(device).calls()), old(device).contents(), data@),
        final(progress).keeps_record() == old(progress).keeps_record(),
        old(progress).keeps_record() ==> (r matches Ok(stats) ==> reports_complete(old(progress).events(),
            final(progress).events(), stats)),
        old(progress).keeps_record() ==> (r is Err ==> reports_pending(old(progress).events(), final(progress).events())),
{
    let ghost old_contents = device.contents();
    let ghost c0 = device.calls();
    let ghost e0 = progress.events();
    proof {
        lemma_no_calls(c0);
        lemma_no_reports(e0);
        assert(writes_from(new_calls(c0, c0), data@, 0));
    }
    let flash_size = device.size();
    if data.len() != flash_size as usize {
        return Err(Error::BufferTooSmall);
    }
    let erase_blocks = copy_erase_blocks(device.erase_blocks());
    proof {
        lemma_same_blocks_plan_alike(erase_blocks@, device.spec_erase_blocks(), flash_size);
    }
    let granularity = device.write_granularity();
    let mut stats = empty_stats();
    progress.reading(flash_size as usize);
    proof {
        if progress.keeps_record() {
            lemma_report_pending(e0, e0, ProgressEvent::Reading(flash_size as usize));
        }
    }
    let ghost er = progress.events();
    let read = read_region(device, 0, flash_size as usize, progress);
    proof {
        if progress.keeps_record() {
            lemma_reports_pending_trans(e0, er, progress.events());
        }
        assert(writes_from(new_calls(c0, device.calls()), data@, 0)) by {
            assert forall|j: int| 0 <= j < new_calls(c0, device.calls()).len()
                implies !(#[trigger] new_calls(c0, device.calls())[j].op is Write) by {
                lemma_no_write_in(new_calls(c0, device.calls()), j);
            }
        }
    }
    proof {
        assert forall|j: int, p: int| #![trigger new_calls(c0, device.calls())[j], data@[p]] 0 <= j < new_calls(c0, device.calls()).len()
            && (new_calls(c0, device.calls())[j].op matches DeviceOp::Write { addr, data: d }
            && addr <= p < addr + d.len()) implies old_contents[p] != data@[p]
            || erased_by(new_calls(c0, device.calls()), p) by {
            lemma_no_write_in(new_calls(c0, device.calls()), j);
        }
        assert(writes_needed(new_calls(c0, device.calls()), old_contents, data@));
    }
    let mut current = read?;
    assert(current@ =~= old_contents);
    if !need_write(current.as_slice(), data) {
        proof {
            lemma_diff_count_none(current@, data@, 0, data@.len() as int);
        }
        let ghost e1 = progress.events();
        progress.complete(&stats);
        proof {
            if progress.keeps_record() {
                lemma_report_complete(e0, e1, stats);
            }
        }
        return Ok(stats);
    }
    assert(flash_size > 0) by {
        if flash_size == 0 {
            assert(current@ =~= data@);
        }
    }
    let changed = get_all_write_ranges(current.as_slice(), data);
    let bytes_changed = count_changed(changed.as_slice(), current.as_slice(), data);
    stats.bytes_changed = bytes_changed;
    let have_vec = vstd::slice::slice_to_vec(current.as_slice());
    let have_slice = have_vec.as_slice();
    let erase_ops = plan_optimal_erase(
        erase_blocks.as_slice(),
        flash_size,
        Some(have_slice),
        Some(data),
        0,
        flash_size - 1,
        granularity,
    );
    let ghost plan_have = have_slice@;
    proof {
        if smart_write_reaches(device.spec_erase_blocks(), old_contents, data@, granularity)
            && has_erase_unit(erase_blocks@, flash_size) {
            assert(plan_covers(erase_ops@, erase_blocks@, flash_size, Some(have_slice), Some(data), 0,
                (flash_size - 1) as u32, granularity));
        }
    }
    if erase_ops.len() > 0 {
        let mut bytes_to_erase: usize = 0;
        let mut e: usize = 0;
        while e < erase_ops.len()
            invariant
                e <= erase_ops@.len(),
            decreases erase_ops@.len() - e,
        {
            bytes_to_erase = bytes_to_erase.saturating_add(erase_ops[e].size as usize);
            e += 1;
        }
        let ghost e1 = progress.events();
        progress.erasing(erase_ops.len(), bytes_to_erase);
        proof {
            if progress.keeps_record() {
                lemma_report_pending(e0, e1, ProgressEvent::Erasing(erase_ops.len(), bytes_to_erase));
            }
        }
        let mut i: usize = 0;
        while i < erase_ops.len()
            invariant
                c0 == old(device).calls(),
                c0.is_prefix_of(device.calls()),
                writes_from(new_calls(c0, device.calls()), data@, 0),
                e0 == old(progress).events(),
                progress.keeps_record() == old(progress).keeps_record(),
                old(progress).keeps_record() ==> reports_pending(e0, progress.events()),
                writes_needed(new_calls(c0, device.calls()), old_contents, data@),
                forall|p: int| 0 <= p < flash_size ==> #[trigger] current@[p] == plan_have[p]
                    || erased_by(new_calls(c0, device.calls()), p),
                stats.erases_performed == i,
                erase_count(new_calls(c0, device.calls())) == i,
                stats.bytes_erased == capped(erase_bytes(new_calls(c0, device.calls()))),
                write_count(new_calls(c0, device.calls())) == 0,
                write_bytes(new_calls(c0, device.calls())) == 0,
                stats.writes_performed == 0,
                stats.bytes_written == 0,
                stats.bytes_changed == bytes_changed,
                bytes_changed == diff_count(old_contents, data@, data@.len() as int),
                i <= erase_ops@.len(),
                current@.len() == flash_size,
                plan_have.len() == flash_size,
                plan_have == old_contents,
                old_contents == old(device).contents(),
                old_contents.len() == flash_size,
                data@.len() == flash_size,
                device.spec_erase_blocks() == old(device).spec_erase_blocks(),
                stats.flash_modified == false,
                current@ == device.contents(),
                device.contents().len() == flash_size,
                device.spec_write_granularity() == granularity,
                forall|p: int| 0 <= p < flash_size ==> #[trigger] current@[p] == 0xFF || current@[p] == plan_have[p],
                forall|j: int, p: int| 0 <= j < i && (#[trigger] erase_ops@[j]).start <= p < erase_ops@[j].start
                    + erase_ops@[j].size && 0 <= p < flash_size ==> #[trigger] current@[p] == 0xFF,
            decreases erase_ops@.len() - i,
        {
            let op_start = erase_ops[i].start;
            let op_size = erase_ops[i].size;
            let ghost before = current@;
            let ghost c1 = device.calls();
            let er = device.erase(op_start, op_size);
            proof {
                lemma_call(c0, c1, device.calls().last());
                lemma_writes_from_push(new_calls(c0, c1), device.calls().last(), data@, 0);
                let nw = new_calls(c0, device.calls());
                let nb = new_calls(c0, c1);
                assert(nw == nb.push(device.calls().last()));
                assert forall|j: int, p: int| #![trigger nw[j], data@[p]] 0 <= j < nw.len()
                    && (nw[j].op matches DeviceOp::Write { addr, data: d }
                    && addr <= p < addr + d.len()) implies old_contents[p] != data@[p] || erased_by(nw, p) by {
                    assert(nw[j] == nb[j]);
                    if erased_by(nb, p) {
                        lemma_erased_by_push(nb, device.calls().last(), p);
                    }
                }
                assert(writes_needed(nw, old_contents, data@));
            }
            er?;
            let mut k: u32 = op_start;
            while k < op_start + op_size
                invariant
                    op_start <= k <= op_start + op_size,
                    op_start + op_size <= flash_size,
                    current@.len() == flash_size,
                    forall|p: int| 0 <= p < flash_size ==> #[trigger] current@[p] == (if op_start <= p < k {
                        0xFFu8
                    } else {
                        before[p]
                    }),
                decreases op_start + op_size - k,
            {
                current.set(k as usize, ERASED_VALUE);
                k += 1;
            }
            proof {
                assert(current@ =~= erased_range(before, op_start as int, op_size as int));
                let nw = new_calls(c0, device.calls());
                let nb = new_calls(c0, c1);
                assert(nw == nb.push(device.calls().last()));
                assert forall|p: int| 0 <= p < flash_size implies #[trigger] current@[p] == plan_have[p]
                    || erased_by(nw, p) by {
                    if op_start <= p < op_start + op_size {
                        assert(nw[nw.len() - 1].op == (DeviceOp::Erase { addr: op_start, len: op_size }));
                    } else if erased_by(nb, p) {
                        lemma_erased_by_push(nb, device.calls().last(), p);
                    }
                }
            }
            proof {
                assert forall|j: int, p: int| 0 <= j < i + 1 && (#[trigger] erase_ops@[j]).start <= p < erase_ops@[j].start
                    + erase_ops@[j].size && 0 <= p < flash_size implies #[trigger] current@[p] == 0xFF by {
                    if j < i {
                        assert(before[p] == 0xFF);
                    }
                }
            }
            stats.erases_performed = stats.erases_performed.saturating_add(1);
            stats.bytes_erased = stats.bytes_erased.saturating_add(op_size as usize);
            let ghost e2 = progress.events();
            progress.erase_progress(i + 1, stats.bytes_erased);
            proof {
                if progress.keeps_record() {
                    lemma_report_pending(e0, e2, ProgressEvent::EraseStep((i + 1) as usize, stats.bytes_erased));
                }
            }
            i += 1;
        }
    }
    let ghost erased = current@;
    if erase_ops.len() > 0 {
        stats.flash_modified = true;
    }
    proof {
        if smart_write_reaches(device.spec_erase_blocks(), old_contents, data@, granularity) {
            assert forall|p: int| 0 <= p < flash_size && #[trigger] erased[p] != 0xFF
                implies !byte_needs_erase(plan_have[p], data@[p], granularity) by {
                if byte_needs_erase(plan_have[p], data@[p], granularity) {
                    if has_erase_unit(erase_blocks@, flash_size) {
                        lemma_needed_byte_erased(erase_ops@, erase_blocks@, flash_size, have_slice,
                            data, granularity, p);
                    } else {
                        assert(spec_need_erase(old_contents, data@, granularity));
                    }
                }
            }
        }
    }
    let write_ranges = get_all_write_ranges(current.as_slice(), data);
    if write_ranges.len() > 0 {
        let mut bytes_to_write: usize = 0;
        let mut w: usize = 0;
        while w < write_ranges.len()
            invariant
                w <= write_ranges@.len(),
            decreases write_ranges@.len() - w,
        {
            bytes_to_write = bytes_to_write.saturating_add(write_ranges[w].len as usize);
            w += 1;
        }
        let ghost e1 = progress.events();
        progress.writing(bytes_to_write);
        proof {
            if progress.keeps_record() {
                lemma_report_pending(e0, e1, ProgressEvent::Writing(bytes_to_write));
            }
        }
        let mut bytes_written: usize = 0;
        let mut i: usize = 0;
        while i < write_ranges.len()
            invariant
                c0 == old(device).calls(),
                c0.is_prefix_of(device.calls()),
                writes_from(new_calls(c0, device.calls()), data@, 0),
                e0 == old(progress).events(),
                progress.keeps_record() == old(progress).keeps_record(),
                old(progress).keeps_record() ==> reports_pending(e0, progress.events()),
                stats.erases_performed == erase_count(new_calls(c0, device.calls())),
                stats.bytes_erased == capped(erase_bytes(new_calls(c0, device.calls()))),
                plan_have == old_contents,
                writes_needed(new_calls(c0, device.calls()), old_contents, data@),
                forall|p: int| 0 <= p < flash_size ==> #[trigger] erased[p] == plan_have[p]
                    || erased_by(new_calls(c0, device.calls()), p),
                stats.writes_performed == i,
                write_count(new_calls(c0, device.calls())) == i,
                bytes_written == capped(write_bytes(new_calls(c0, device.calls()))),
                stats.bytes_changed == bytes_changed,
                bytes_changed == diff_count(old_contents, data@, data@.len() as int),
                i <= write_ranges@.len(),
                erased.len() == flash_size,
                data@.len() == flash_size,
                old_contents == old(device).contents(),
                old_contents.len() == flash_size,
                device.spec_erase_blocks() == old(device).spec_erase_blocks(),
                device.contents().len() == flash_size,
                forall|k: int| 0 <= k < write_ranges@.len() ==> #[trigger] write_ranges@[k].is_maximal_run(erased, data@),
                forall|k: int, j: int| 0 <= k < j < write_ranges@.len() ==> write_ranges@[k].end() < write_ranges@[j].start,
                forall|p: int| 0 <= p < flash_size ==> #[trigger] device.contents()[p] == written_byte(
                    erased, data@, write_ranges@, i as int, p),
            decreases write_ranges@.len() - i,
        {
            let rs = write_ranges[i].start;
            let rl = write_ranges[i].len;
            assert(write_ranges@[i as int].is_maximal_run(erased, data@));
            let ghost before = device.contents();
            let chunk = vstd::slice::slice_subrange(data, rs as usize, (rs + rl) as usize);
            assert(chunk@ == data@.subrange(rs as int, rs + rl));
            let ghost c1 = device.calls();
            let wr = device.write(rs, chunk);
            proof {
                lemma_call(c0, c1, device.calls().last());
                lemma_writes_from_push(new_calls(c0, c1), device.calls().last(), data@, 0);
                let nw = new_calls(c0, device.calls());
                let nb = new_calls(c0, c1);
                assert(nw == nb.push(device.calls().last()));
                assert forall|p: int| 0 <= p < flash_size implies #[trigger] erased[p] == plan_have[p]
                    || erased_by(nw, p) by {
                    if erased_by(nb, p) {
                        lemma_erased_by_push(nb, device.calls().last(), p);
                    }
                }
                assert forall|j: int, p: int| #![trigger nw[j], data@[p]] 0 <= j < nw.len()
                    && (nw[j].op matches DeviceOp::Write { addr, data: d }
                    && addr <= p < addr + d.len()) implies old_contents[p] != data@[p] || erased_by(nw, p) by {
                    if j < nb.len() {
                        assert(nw[j] == nb[j]);
                    } else {
                        assert(nw[j].op == (DeviceOp::Write { addr: rs, data: chunk@ }));
                        assert(differs(erased, data@, p));
                    }
                    if erased_by(nb, p) {
                        lemma_erased_by_push(nb, device.calls().last(), p);
                    }
                }
            }
            wr?;
            proof {
                assert forall|p: int| 0 <= p < flash_size implies #[trigger] device.contents()[p] == written_byte(
                    erased, data@, write_ranges@, i + 1, p) by {
                    assert(device.contents()[p] == programmed(before, rs as int, chunk@)[p]);
                    assert(before[p] == written_byte(erased, data@, write_ranges@, i as int, p));
                    if rs <= p < rs + rl {
                        assert(chunk@[p - rs] == data@[p]);
                        assert(write_ranges@[i as int].start <= p < write_ranges@[i as int].end());
                        assert(in_ranges(write_ranges@, i + 1, p));
                        if in_ranges(write_ranges@, i as int, p) {
                            let k = choose|k: int| 0 <= k < i && write_ranges@[k].start <= p < #[trigger] write_ranges@[k].end();
                            assert(write_ranges@[k].end() < write_ranges@[i as int].start);
                        }
                        assert(before[p] == erased[p]);
                    } else {
                        if in_ranges(write_ranges@, i + 1, p) {
                            let k = choose|k: int| 0 <= k < i + 1 && write_ranges@[k].start <= p < #[trigger] write_ranges@[k].end();
                            assert(k != i);
                            assert(in_ranges(write_ranges@, i as int, p));
                        }
                        if in_ranges(write_ranges@, i as int, p) {
                            let k = choose|k: int| 0 <= k < i && write_ranges@[k].start <= p < #[trigger] write_ranges@[k].end();
                            assert(in_ranges(write_ranges@, i + 1, p));
                        }
                    }
                }
            }
            bytes_written = bytes_written.saturating_add(rl as usize);
            let ghost e2 = progress.events();
            progress.write_progress(bytes_written);
            proof {
                if progress.keeps_record() {
                    lemma_report_pending(e0, e2, ProgressEvent::WriteStep(bytes_written));
                }
            }
            stats.writes_performed = stats.writes_performed.saturating_add(1);
            i += 1;
        }
        stats.bytes_written = bytes_written;
        stats.flash_modified = true;
    } else {
        proof {
            if erase_ops.len() == 0 {
                assert(erased =~= old_contents);
                assert(exists|p: int| 0 <= p < flash_size && erased[p] != data@[p]) by {
                    if !exists|p: int| 0 <= p < flash_size && erased[p] != data@[p] {
                        assert(erased =~= data@);
                    }
                }
                let p = choose|p: int| 0 <= p < flash_size && erased[p] != data@[p];
                assert(differs(erased, data@, p));
            }
        }
    }
    proof {
        if smart_write_reaches(device.spec_erase_blocks(), old_contents, data@, granularity) {
            assert forall|p: int| 0 <= p < flash_size implies #[trigger] device.contents()[p] == data@[p] by {
                assert(device.contents()[p] == written_byte(erased, data@, write_ranges@, write_ranges@.len() as int, p));
                if differs(erased, data@, p) {
                    let k = choose|k: int| 0 <= k < write_ranges@.len() && write_ranges@[k].start <= p
                        < #[trigger] write_ranges@[k].end();
                    assert(in_ranges(write_ranges@, write_ranges@.len() as int, p));
                    lemma_program_byte(erased[p], data@[p], granularity);
                } else {
                    if in_ranges(write_ranges@, write_ranges@.len() as int, p) {
                        let k = choose|k: int| 0 <= k < write_ranges@.len() && write_ranges@[k].start <= p
                            < #[trigger] write_ranges@[k].end();
                        assert(write_ranges@[k].is_maximal_run(erased, data@));
                    }
                    assert((erased[p] & erased[p]) == erased[p]) by (bit_vector);
                }
            }
            assert(device.contents() =~= data@);
        }
    }
    let ghost e3 = progress.events();
    progress.complete(&stats);
    proof {
        if progress.keeps_record() {
            lemma_report_complete(e0, e3, stats);
        }
    }
    Ok(stats)
}

} // verus!

verus! {

/// The region write ends with the region holding `data` whenever the
/// erase blocks nest and there is an erase unit, or when nothing in the
/// region needs erasing.
pub open spec fn smart_write_region_reaches(
    blocks: Seq<EraseBlock>,
    old: Seq<u8>,
    addr: int,
    data: Seq<u8>,
    g: WriteGranularity,
) -> bool {
    &&& aligned_erase_sizes(blocks, old.len() as u32)
    &&& (has_erase_unit(blocks, old.len() as u32) || !spec_need_erase(old.subrange(addr, addr + data.len()), data, g))
}

/// In a plan for a region, every byte of the region that needs an erase
/// lies in some operation (`have` and `want` hold the region only).
proof fn lemma_needed_region_byte_erased(
    ops: Seq<OptimalEraseOp>,
    blocks: Seq<EraseBlock>,
    flash_size: u32,
    have: &[u8],
    want: &[u8],
    addr: u32,
    g: WriteGranularity,
    q: int,
)
    requires
        have@.len() == want@.len(),
        have@.len() > 0,
        addr + have@.len() <= flash_size,
        aligned_erase_sizes(blocks, flash_size),
        has_erase_unit(blocks, flash_size),
        plan_covers(ops, blocks, flash_size, Some(have), Some(want), addr, (addr + have@.len() - 1) as u32, g),
        0 <= q < have@.len(),
        byte_needs_erase(have@[q], want@[q], g),
    ensures
        exists|j: int| 0 <= j < ops.len() && (#[trigger] ops[j]).start <= addr + q < ops[j].start + ops[j].size,
{
    let re = (addr + have@.len() - 1) as u32;
    let p = addr + q;
    let i = lemma_min_candidate(blocks, flash_size, blocks.len() as int);
    let sz = blocks[i].spec_min_block_size() as int;
    let fs = flash_size as int;
    assert(sz > 0);
    assert(fs % sz == 0);
    let k = p / sz;
    assert(k * sz <= p < k * sz + sz) by (nonlinear_arith)
        requires
            sz > 0,
            k == p / sz,
            p >= 0,
    ;
    assert(k < fs / sz && k * sz + sz <= fs) by (nonlinear_arith)
        requires
            sz > 0,
            fs % sz == 0,
            k * sz <= p,
            p < fs,
            k >= 0,
    ;
    let start = k * sz;
    let end = k * sz + sz - 1;
    assert(have@[q] != want@[q]) by {
        assert((have@[q] & have@[q]) == have@[q]) by (bit_vector);
    }
    assert(spec_buffer_offset(Some(have), addr, re) == addr);
    let os = if start > addr { start } else { addr as int };
    let oe = if end < re { end } else { re as int };
    let bs = os - addr;
    let be = oe - addr + 1;
    let hs = have@.subrange(bs, be);
    let ws = want@.subrange(bs, be);
    assert(hs[q - bs] == have@[q] && ws[q - bs] == want@[q]);
    assert(hs != ws);
    assert(spec_need_erase(hs, ws, g)) by {
        assert(byte_needs_erase(hs[q - bs], ws[q - bs], g));
    }
    assert(block_needs_erase(Some(have), Some(want), addr, re, g, start, end));
    assert(ops_cover(ops, k * blocks[i].spec_min_block_size(), blocks[i].spec_min_block_size() as int));
}

/// Erased bytes programmed with their old values hold them again.
proof fn lemma_restore_bytes(x: u8)
    ensures
        (0xFFu8 & x) == x,
{
    assert((0xFFu8 & x) == x) by (bit_vector);
}

/// Erase one planned block that may reach outside the region
/// `addr..region_end`, restoring the bytes outside the region.
fn erase_preserving<D: FlashDevice + ?Sized>(
    device: &mut D,
    start: u32,
    size: u32,
    addr: u32,
    region_end: u32,
) -> (r: Result<(), Error>)
    requires
        addr < region_end,
        start < region_end,
        addr < start + size,
        region_end <= old(device).contents().len(),
        start + size <= old(device).contents().len(),
    ensures
        final(device).contents().len() == old(device).contents().len(),
        final(device).spec_erase_blocks() == old(device).spec_erase_blocks(),
        final(device).spec_write_granularity() == old(device).spec_write_granularity(),
        r is Ok ==> forall|p: int| 0 <= p < old(device).contents().len() ==> #[trigger] final(device).contents()[p]
            == if addr <= p < region_end && start <= p < start + size { 0xFFu8 } else { old(device).contents()[p] },
        old(device).calls().is_prefix_of(final(device).calls()),
        r is Ok ==> erase_count(new_calls(old(device).calls(), final(device).calls())) == 1
            && erase_bytes(new_calls(old(device).calls(), final(device).calls())) == size,
        r matches Err(e) ==> device_answered(old(device).calls(), final(device).calls(), e),
        no_writes_in(new_calls(old(device).calls(), final(device).calls()), addr as int, region_end as int),
{
    let ghost c0 = device.contents();
    let ghost k0 = device.calls();
    proof {
        lemma_no_calls(k0);
    }
    let _flash_size = device.size();
    let block_end = start + size;
    let pre = if start < addr {
        let rp = read_exact(device, start, (addr - start) as usize);
        proof {
            lemma_calls_chain(k0, k0, device.calls());
            lemma_no_writes_in(new_calls(k0, device.calls()), addr as int, region_end as int);
        }
        Some(rp?)
    } else {
        None
    };
    let ghost ka = device.calls();
    let post = if block_end > region_end {
        let rq = read_exact(device, region_end, (block_end - region_end) as usize);
        proof {
            lemma_calls_chain(k0, ka, device.calls());
            lemma_no_writes_in(new_calls(k0, device.calls()), addr as int, region_end as int);
        }
        Some(rq?)
    } else {
        None
    };
    let ghost kb = device.calls();
    let re = device.erase(start, size);
    proof {
        lemma_call(k0, kb, device.calls().last());
        lemma_no_writes_in(new_calls(k0, device.calls()), addr as int, region_end as int);
    }
    re?;
    let ghost c1 = device.contents();
    match &pre {
        Some(buf) => {
            let ghost kc = device.calls();
            let rw = device.write(start, buf.as_slice());
            proof {
                lemma_call(k0, kc, device.calls().last());
                lemma_no_writes_in_push(new_calls(k0, kc), device.calls().last(), addr as int, region_end as int);
            }
            rw?;
        },
        None => {},
    }
    let ghost c2 = device.contents();
    match &post {
        Some(buf) => {
            let ghost kd = device.calls();
            let rw = device.write(region_end, buf.as_slice());
            proof {
                lemma_call(k0, kd, device.calls().last());
                lemma_no_writes_in_push(new_calls(k0, kd), device.calls().last(), addr as int, region_end as int);
            }
            rw?;
        },
        None => {},
    }
    proof {
        assert forall|p: int| 0 <= p < c0.len() implies #[trigger] device.contents()[p]
            == if addr <= p < region_end && start <= p < start + size { 0xFFu8 } else { c0[p] } by {
            lemma_restore_bytes(c0[p]);
            if start <= p < start + size {
                assert(c1[p] == 0xFF);
                if p < addr {
                    assert(c2[p] == c0[p]);
                } else {
                    assert(c2[p] == c1[p]);
                }
            } else {
                assert(c1[p] == c0[p]);
                assert(c2[p] == c0[p]);
            }
        }
    }
    Ok(())
}

/// Read exactly `len` bytes at `addr`.
fn read_exact<D: FlashDevice + ?Sized>(device: &mut D, addr: u32, len: usize) -> (r: Result<Vec<u8>, Error>)
    ensures
        final(device).contents() == old(device).contents(),
        final(device).spec_erase_blocks() == old(device).spec_erase_blocks(),
        final(device).spec_write_granularity() == old(device).spec_write_granularity(),
        r matches Ok(v) ==> addr + len <= old(device).contents().len()
            && v@ == old(device).contents().subrange(addr as int, addr + len),
        old(device).calls().is_prefix_of(final(device).calls()),
        erase_count(new_calls(old(device).calls(), final(device).calls())) == 0,
        erase_bytes(new_calls(old(device).calls(), final(device).calls())) == 0,
        write_count(new_calls(old(device).calls(), final(device).calls())) == 0,
        reads_within(new_calls(old(device).calls(), final(device).calls()), addr as int, addr + len),
        r matches Err(e) ==> device_answered(old(device).calls(), final(device).calls(), e),
{
    let ghost c0 = device.calls();
    let mut buf: Vec<u8> = vec![0u8; len];
    let rr = device.read(addr, buf.as_mut_slice());
    proof {
        lemma_no_calls(c0);
        lemma_call(c0, c0, device.calls().last());
        assert(device.calls() == c0.push(device.calls().last()));
        lemma_reads_within_push(new_calls(c0, c0), device.calls().last(), addr as int, addr + len);
    }
    rr?;
    Ok(buf)
}

} // verus!

verus! {

/// Perform a smart write operation for a specific region
///
/// Like `smart_write`, for the bytes `addr..addr + data.len()` only. When a
/// planned erase block reaches outside the region, the bytes outside are
/// read first and programmed back after the erase.
pub fn smart_write_region<D: FlashDevice + ?Sized, P: WriteProgress + ?Sized>(
    device: &mut D,
    addr: u32,
    data: &[u8],
    progress: &mut P,
) -> (r: Result<WriteStats, Error>)
    ensures
        data@.len() == 0 ==> r == Ok::<WriteStats, Error>(WriteStats {
            bytes_changed: 0,
            erases_performed: 0,
            bytes_erased: 0,
            writes_performed: 0,
            bytes_written: 0,
            flash_modified: false,
        }) && final(device).contents() == old(device).contents(),
        data@.len() > 0 && addr + data@.len() > old(device).contents().len()
            ==> r == Err::<WriteStats, Error>(Error::AddressOutOfBounds)
            && final(device).contents() == old(device).contents(),
        r is Ok && data@.len() > 0 ==> addr + data@.len() <= old(device).contents().len(),
        final(device).contents().len() == old(device).contents().len(),
        final(device).spec_erase_blocks() == old(device).spec_erase_blocks(),
        final(device).spec_write_granularity() == old(device).spec_write_granularity(),
        r is Ok ==> forall|p: int| 0 <= p < old(device).contents().len() && !(addr <= p < addr + data@.len())
            ==> #[trigger] final(device).contents()[p] == old(device).contents()[p],
        r matches Ok(stats) ==> data@.len() > 0 ==> (stats.flash_modified <==> old(device).contents().subrange(
            addr as int,
            addr + data@.len(),
        ) != data@),
        r matches Ok(stats) && !stats.flash_modified ==> final(device).contents() == old(device).contents(),
        r matches Ok(stats) ==> (data@.len() > 0 ==> stats.bytes_changed == diff_count(
            old(device).contents().subrange(addr as int, addr + data@.len()),
            data@,
            data@.len() as int,
        )),
        r is Ok && data@.len() > 0 && smart_write_region_reaches(
            old(device).spec_erase_blocks(),
            old(device).contents(),
            addr as int,
            data@,
            old(device).spec_write_granularity(),
        ) ==> final(device).contents().subrange(addr as int, addr + data@.len()) == data@,
        data@.len() == 0 ==> final(device).calls() == old(device).calls() && (old(progress).keeps_record()
            ==> final(progress).events() == old(progress).events().push(ProgressEvent::Complete(WriteStats {
            bytes_changed: 0,
            erases_performed: 0,
            bytes_erased: 0,
            writes_performed: 0,
            bytes_written: 0,
            flash_modified: false,
        }))),
        data@.len() > 0 && addr + data@.len() > old(device).contents().len()
            ==> final(device).calls() == old(device).calls(),
        old(device).calls().is_prefix_of(final(device).calls()),
        r matches Err(e) ==> (e == Error::AddressOutOfBounds && data@.len() > 0 && addr + data@.len()
            > old(device).contents().len()) || device_answered(old(device).calls(), final(device).calls(), e),
        r matches Ok(stats) ==> stats.erases_performed == erase_count(new_calls(old(device).calls(), final(device).calls()))
            && stats.bytes_erased == capped(erase_bytes(new_calls(old(device).calls(), final(device).calls())))
            && stats.writes_performed == region_write_count(new_calls(old(device).calls(), final(device).calls()),
                addr as int, addr + data@.len())
            && stats.bytes_written == capped(region_write_bytes(new_calls(old(device).calls(), final(device).calls()),
                addr as int, addr + data@.len())),
        region_writes_from(new_calls(old(device).calls(), final(device).calls()), data@, addr as int),
        final(progress).keeps_record() == old(progress).keeps_record(),
        old(progress).keeps_record() ==> (r matches Ok(stats) ==> reports_complete(old(progress).events(),
            final(progress).events(), stats)),
        old(progress).keeps_record() ==> (r is Err ==> reports_pending(old(progress).events(), final(progress).events())),
{
    let ghost old_contents = device.contents();
    let ghost c0 = device.calls();
    let ghost e0 = progress.events();
    proof {
        lemma_no_calls(c0);
        lemma_no_reports(e0);
        lemma_no_region_writes(new_calls(c0, c0), data@, addr as int);
    }
    if data.len() == 0 {
        let stats = empty_stats();
        progress.complete(&stats);
        proof {
            if progress.keeps_record() {
                lemma_report_complete(e0, e0, stats);
            }
        }
        return Ok(stats);
    }
    if !device.is_valid_range(addr, data.len()) {
        return Err(Error::AddressOutOfBounds);
    }
    let flash_size = device.size();
    let len = data.len();
    let erase_blocks = copy_erase_blocks(device.erase_blocks());
    proof {
        lemma_same_blocks_plan_alike(erase_blocks@, device.spec_erase_blocks(), flash_size);
    }
    let granularity = device.write_granularity();
    let region_end = addr + (len as u32 - 1);
    let region_end_addr = addr + len as u32;
    let mut stats = empty_stats();
    progress.reading(len);
    proof {
        if progress.keeps_record() {
            lemma_report_pending(e0, e0, ProgressEvent::Reading(len));
        }
    }
    let ghost er = progress.events();
    let read = read_region(device, addr, len, progress);
    proof {
        if progress.keeps_record() {
            lemma_reports_pending_trans(e0, er, progress.events());
        }
    }
    proof {
        lemma_no_region_writes(new_calls(c0, device.calls()), data@, addr as int);
    }
    let mut current = read?;
    let ghost old_region = old_contents.subrange(addr as int, addr + len);
    assert(current@ =~= old_region);
    if !need_write(current.as_slice(), data) {
        proof {
            lemma_diff_count_none(current@, data@, 0, data@.len() as int);
        }
        let ghost e1 = progress.events();
        progress.complete(&stats);
        proof {
            if progress.keeps_record() {
                lemma_report_complete(e0, e1, stats);
            }
        }
        return Ok(stats);
    }
    let changed = get_all_write_ranges(current.as_slice(), data);
    let bytes_changed = count_changed(changed.as_slice(), current.as_slice(), data);
    stats.bytes_changed = bytes_changed;
    let have_vec = vstd::slice::slice_to_vec(current.as_slice());
    let have_slice = have_vec.as_slice();
    let erase_ops = plan_optimal_erase(
        erase_blocks.as_slice(),
        flash_size,
        Some(have_slice),
        Some(data),
        addr,
        region_end,
        granularity,
    );
    let ghost plan_have = have_slice@;
    proof {
        if smart_write_region_reaches(device.spec_erase_blocks(), old_contents, addr as int, data@, granularity)
            && has_erase_unit(erase_blocks@, flash_size) {
            assert(plan_covers(erase_ops@, erase_blocks@, flash_size, Some(have_slice), Some(data), addr,
                region_end, granularity));
        }
    }
    if erase_ops.len() > 0 {
        let mut bytes_to_erase: usize = 0;
        let mut e: usize = 0;
        while e < erase_ops.len()
            invariant
                e <= erase_ops@.len(),
            decreases erase_ops@.len() - e,
        {
            bytes_to_erase = bytes_to_erase.saturating_add(erase_ops[e].size as usize);
            e += 1;
        }
        let ghost e1 = progress.events();
        progress.erasing(erase_ops.len(), bytes_to_erase);
        proof {
            if progress.keeps_record() {
                lemma_report_pending(e0, e1, ProgressEvent::Erasing(erase_ops.len(), bytes_to_erase));
            }
        }
        let mut i: usize = 0;
        while i < erase_ops.len()
            invariant
                c0 == old(device).calls(),
                c0.is_prefix_of(device.calls()),
                e0 == old(progress).events(),
                progress.keeps_record() == old(progress).keeps_record(),
                old(progress).keeps_record() ==> reports_pending(e0, progress.events()),
                stats.erases_performed == i,
                erase_count(new_calls(c0, device.calls())) == i,
                stats.bytes_erased == capped(erase_bytes(new_calls(c0, device.calls()))),
                stats.writes_performed == 0,
                stats.bytes_written == 0,
                region_write_count(new_calls(c0, device.calls()), addr as int, addr + data@.len()) == 0,
                region_write_bytes(new_calls(c0, device.calls()), addr as int, addr + data@.len()) == 0,
                region_writes_from(new_calls(c0, device.calls()), data@, addr as int),
                stats.bytes_changed == bytes_changed,
                bytes_changed == diff_count(old_region, data@, data@.len() as int),
                i <= erase_ops@.len(),
                len == data@.len(),
                len > 0,
                region_end + 1 == region_end_addr,
                region_end_addr == addr + len,
                region_end_addr <= flash_size,
                current@.len() == len,
                plan_have == old_region,
                old_region == old_contents.subrange(addr as int, addr + len),
                old_contents == old(device).contents(),
                old_contents.len() == flash_size,
                device.contents().len() == flash_size,
                device.spec_erase_blocks() == old(device).spec_erase_blocks(),
                device.spec_write_granularity() == granularity,
                granularity == old(device).spec_write_granularity(),
                stats.flash_modified == false,
                forall|q: int| 0 <= q < len ==> #[trigger] current@[q] == device.contents()[addr + q],
                forall|p: int| 0 <= p < flash_size && !(addr <= p < region_end_addr)
                    ==> #[trigger] device.contents()[p] == old_contents[p],
                forall|q: int| 0 <= q < len ==> #[trigger] current@[q] == 0xFF || current@[q] == plan_have[q],
                forall|j: int, q: int| 0 <= j < i && 0 <= q < len && (#[trigger] erase_ops@[j]).start <= addr + q
                    < erase_ops@[j].start + erase_ops@[j].size ==> #[trigger] current@[q] == 0xFF,
                forall|j: int| 0 <= j < erase_ops@.len() ==> {
                    ||| is_block_op(#[trigger] erase_ops@[j], erase_blocks@, flash_size, addr, region_end)
                    ||| is_chip_op(erase_ops@[j], erase_blocks@, flash_size)
                },
            decreases erase_ops@.len() - i,
        {
            let op_start = erase_ops[i].start;
            let op_size = erase_ops[i].size;
            let ghost before = current@;
            let ghost dev_before = device.contents();
            assert(is_block_op(erase_ops@[i as int], erase_blocks@, flash_size, addr, region_end)
                || is_chip_op(erase_ops@[i as int], erase_blocks@, flash_size));
            assert(op_start < region_end_addr && addr < op_start + op_size);
            let ghost c1 = device.calls();
            let ep = erase_preserving(device, op_start, op_size, addr, region_end_addr);
            proof {
                lemma_calls_chain(c0, c1, device.calls());
                lemma_no_writes_region(new_calls(c1, device.calls()), data@, addr as int);
                lemma_region_concat(new_calls(c0, c1), new_calls(c1, device.calls()), data@, addr as int);
            }
            ep?;
            let rel_start: u32 = if op_start > addr { op_start - addr } else { 0 };
            let rel_end_abs: u32 = if op_start + op_size < region_end_addr { op_start + op_size } else { region_end_addr };
            let rel_end: u32 = rel_end_abs - addr;
            let mut k: u32 = rel_start;
            while k < rel_end
                invariant
                    rel_start <= k <= rel_end,
                    rel_end <= len,
                    current@.len() == len,
                    forall|q: int| 0 <= q < len ==> #[trigger] current@[q] == (if rel_start <= q < k {
                        0xFFu8
                    } else {
                        before[q]
                    }),
                decreases rel_end - k,
            {
                current.set(k as usize, ERASED_VALUE);
                k += 1;
            }
            proof {
                assert forall|j: int, q: int| 0 <= j < i + 1 && 0 <= q < len && (#[trigger] erase_ops@[j]).start
                    <= addr + q < erase_ops@[j].start + erase_ops@[j].size implies #[trigger] current@[q] == 0xFF by {
                    if j < i {
                        assert(before[q] == 0xFF);
                    }
                }
                assert forall|q: int| 0 <= q < len implies #[trigger] current@[q] == device.contents()[addr + q] by {
                    assert(dev_before[addr + q] == before[q]);
                }
            }
            stats.erases_performed = stats.erases_performed.saturating_add(1);
            stats.bytes_erased = stats.bytes_erased.saturating_add(op_size as usize);
            let ghost e2 = progress.events();
            progress.erase_progress(i + 1, stats.bytes_erased);
            proof {
                if progress.keeps_record() {
                    lemma_report_pending(e0, e2, ProgressEvent::EraseStep((i + 1) as usize, stats.bytes_erased));
                }
            }
            i += 1;
        }
    }
    let ghost erased = current@;
    if erase_ops.len() > 0 {
        stats.flash_modified = true;
    }
    proof {
        if smart_write_region_reaches(device.spec_erase_blocks(), old_contents, addr as int, data@, granularity) {
            assert forall|q: int| 0 <= q < len && #[trigger] erased[q] != 0xFF
                implies !byte_needs_erase(plan_have[q], data@[q], granularity) by {
                if byte_needs_erase(plan_have[q], data@[q], granularity) {
                    if has_erase_unit(erase_blocks@, flash_size) {
                        lemma_needed_region_byte_erased(erase_ops@, erase_blocks@, flash_size, have_slice,
                            data, addr, granularity, q);
                    } else {
                        assert(old_region =~= old_contents.subrange(addr as int, addr + data@.len()));
                        assert(spec_need_erase(old_region, data@, granularity));
                    }
                }
            }
        }
    }
    let write_ranges = get_all_write_ranges(current.as_slice(), data);
    if write_ranges.len() > 0 {
        let mut bytes_to_write: usize = 0;
        let mut w: usize = 0;
        while w < write_ranges.len()
            invariant
                w <= write_ranges@.len(),
            decreases write_ranges@.len() - w,
        {
            bytes_to_write = bytes_to_write.saturating_add(write_ranges[w].len as usize);
            w += 1;
        }
        let ghost e1 = progress.events();
        progress.writing(bytes_to_write);
        proof {
            if progress.keeps_record() {
                lemma_report_pending(e0, e1, ProgressEvent::Writing(bytes_to_write));
            }
        }
        let mut bytes_written: usize = 0;
        let mut i: usize = 0;
        while i < write_ranges.len()
            invariant
                c0 == old(device).calls(),
                c0.is_prefix_of(device.calls()),
                e0 == old(progress).events(),
                progress.keeps_record() == old(progress).keeps_record(),
                old(progress).keeps_record() ==> reports_pending(e0, progress.events()),
                stats.erases_performed == erase_count(new_calls(c0, device.calls())),
                stats.bytes_erased == capped(erase_bytes(new_calls(c0, device.calls()))),
                stats.writes_performed == i,
                region_write_count(new_calls(c0, device.calls()), addr as int, addr + data@.len()) == i,
                bytes_written == capped(region_write_bytes(new_calls(c0, device.calls()), addr as int, addr + data@.len())),
                region_writes_from(new_calls(c0, device.calls()), data@, addr as int),
                stats.bytes_changed == bytes_changed,
                bytes_changed == diff_count(old_region, data@, data@.len() as int),
                i <= write_ranges@.len(),
                len == data@.len(),
                erased.len() == len,
                region_end_addr == addr + len,
                region_end_addr <= flash_size,
                old_contents == old(device).contents(),
                old_contents.len() == flash_size,
                device.spec_erase_blocks() == old(device).spec_erase_blocks(),
                device.spec_write_granularity() == old(device).spec_write_granularity(),
                device.contents().len() == flash_size,
                forall|k: int| 0 <= k < write_ranges@.len() ==> #[trigger] write_ranges@[k].is_maximal_run(erased, data@),
                forall|k: int, j: int| 0 <= k < j < write_ranges@.len() ==> write_ranges@[k].end() < write_ranges@[j].start,
                forall|p: int| 0 <= p < flash_size && !(addr <= p < region_end_addr)
                    ==> #[trigger] device.contents()[p] == old_contents[p],
                forall|q: int| 0 <= q < len ==> #[trigger] device.contents()[addr + q] == written_byte(
                    erased, data@, write_ranges@, i as int, q),
            decreases write_ranges@.len() - i,
        {
            let rs = write_ranges[i].start;
            let rl = write_ranges[i].len;
            assert(write_ranges@[i as int].is_maximal_run(erased, data@));
            let ghost before = device.contents();
            let chunk = vstd::slice::slice_subrange(data, rs as usize, (rs + rl) as usize);
            assert(chunk@ == data@.subrange(rs as int, rs + rl));
            let ghost c1 = device.calls();
            let wr = device.write(addr + rs, chunk);
            proof {
                lemma_call(c0, c1, device.calls().last());
                lemma_region_call(new_calls(c0, c1), device.calls().last(), data@, addr as int);
            }
            wr?;
            proof {
                assert(chunk@ == data@.subrange(rs as int, rs + rl));
                assert forall|q: int| 0 <= q < len implies #[trigger] device.contents()[addr + q] == written_byte(
                    erased, data@, write_ranges@, i + 1, q) by {
                    assert(device.contents()[addr + q] == programmed(before, addr + rs, chunk@)[addr + q]);
                    assert(before[addr + q] == written_byte(erased, data@, write_ranges@, i as int, q));
                    if rs <= q < rs + rl {
                        assert(chunk@[q - rs] == data@[q]);
                        assert(write_ranges@[i as int].start <= q < write_ranges@[i as int].end());
                        assert(in_ranges(write_ranges@, i + 1, q));
                        if in_ranges(write_ranges@, i as int, q) {
                            let k = choose|k: int| 0 <= k < i && write_ranges@[k].start <= q < #[trigger] write_ranges@[k].end();
                            assert(write_ranges@[k].end() < write_ranges@[i as int].start);
                        }
                    } else {
                        if in_ranges(write_ranges@, i + 1, q) {
                            let k = choose|k: int| 0 <= k < i + 1 && write_ranges@[k].start <= q < #[trigger] write_ranges@[k].end();
                            assert(k != i);
                            assert(in_ranges(write_ranges@, i as int, q));
                        }
                        if in_ranges(write_ranges@, i as int, q) {
                            let k = choose|k: int| 0 <= k < i && write_ranges@[k].start <= q < #[trigger] write_ranges@[k].end();
                            assert(in_ranges(write_ranges@, i + 1, q));
                        }
                    }
                }
                assert forall|p: int| 0 <= p < flash_size && !(addr <= p < region_end_addr)
                    implies #[trigger] device.contents()[p] == old_contents[p] by {
                    assert(device.contents()[p] == programmed(before, addr + rs, chunk@)[p]);
                }
            }
            bytes_written = bytes_written.saturating_add(rl as usize);
            let ghost e2 = progress.events();
            progress.write_progress(bytes_written);
            proof {
                if progress.keeps_record() {
                    lemma_report_pending(e0, e2, ProgressEvent::WriteStep(bytes_written));
                }
            }
            stats.writes_performed = stats.writes_performed.saturating_add(1);
            i += 1;
        }
        stats.bytes_written = bytes_written;
        stats.flash_modified = true;
    } else {
        proof {
            if erase_ops.len() == 0 {
                assert(erased =~= old_region);
                assert(exists|q: int| 0 <= q < len && erased[q] != data@[q]) by {
                    if !exists|q: int| 0 <= q < len && erased[q] != data@[q] {
                        assert(erased =~= data@);
                    }
                }
                let q = choose|q: int| 0 <= q < len && erased[q] != data@[q];
                assert(differs(erased, data@, q));
            }
        }
    }
    proof {
        assert(old_region =~= old_contents.subrange(addr as int, addr + data@.len()));
        if smart_write_region_reaches(device.spec_erase_blocks(), old_contents, addr as int, data@, granularity) {
            assert forall|q: int| 0 <= q < len implies #[trigger] device.contents().subrange(addr as int, addr + len)[q]
                == data@[q] by {
                assert(device.contents()[addr + q] == written_byte(erased, data@, write_ranges@, write_ranges@.len() as int, q));
                if differs(erased, data@, q) {
                    let k = choose|k: int| 0 <= k < write_ranges@.len() && write_ranges@[k].start <= q
                        < #[trigger] write_ranges@[k].end();
                    assert(in_ranges(write_ranges@, write_ranges@.len() as int, q));
                    lemma_program_byte(erased[q], data@[q], granularity);
                } else {
                    if in_ranges(write_ranges@, write_ranges@.len() as int, q) {
                        let k = choose|k: int| 0 <= k < write_ranges@.len() && write_ranges@[k].start <= q
                            < #[trigger] write_ranges@[k].end();
                        assert(write_ranges@[k].is_maximal_run(erased, data@));
                    }
                    assert((erased[q] & erased[q]) == erased[q]) by (bit_vector);
                }
            }
            assert(device.contents().subrange(addr as int, addr + len) =~= data@);
        }
    }
    let ghost e3 = progress.events();
    progress.complete(&stats);
    proof {
        if progress.keeps_record() {
            lemma_report_complete(e0, e3, stats);
        }
    }
    Ok(stats)
}

} // verus!

verus! {

/// Read flash contents into a buffer, reporting progress
pub fn read_with_progress<D: FlashDevice + ?Sized, P: WriteProgress + ?Sized>(
    device: &mut D,
    buf: &mut Vec<u8>,
    progress: &mut P,
) -> (r: Result<(), Error>)
    ensures
        final(device).contents() == old(device).contents(),
        r is Ok ==> old(buf)@.len() <= old(device).contents().len()
            && final(buf)@ == old(device).contents().subrange(0, old(buf)@.len() as int),
{
    let total = buf.len();
    progress.reading(total);
    let data = read_region(device, 0, total, progress)?;
    *buf = data;
    Ok(())
}

/// Verify flash contents match the expected data
///
/// Returns `Ok(())` only when the flash at `addr` holds `expected`; a
/// mismatching chunk gives a verify error, and a failed read its error.
pub fn verify<D: FlashDevice + ?Sized>(device: &mut D, expected: &[u8], addr: u32) -> (r: Result<(), Error>)
    ensures
        final(device).contents() == old(device).contents(),
        addr + expected@.len() > old(device).contents().len() ==> r == Err::<(), Error>(Error::AddressOutOfBounds),
        r is Ok ==> addr + expected@.len() <= old(device).contents().len()
            && old(device).contents().subrange(addr as int, addr + expected@.len()) == expected@,
        old(device).calls().is_prefix_of(final(device).calls()),
        erase_count(new_calls(old(device).calls(), final(device).calls())) == 0,
        write_count(new_calls(old(device).calls(), final(device).calls())) == 0,
        reads_within(new_calls(old(device).calls(), final(device).calls()), addr as int, addr + expected@.len()),
        addr + expected@.len() > old(device).contents().len() ==> final(device).calls() == old(device).calls(),
        r matches Err(e) ==> (e == Error::AddressOutOfBounds && addr + expected@.len() > old(device).contents().len())
            || device_answered(old(device).calls(), final(device).calls(), e)
            || (e == Error::VerifyError && addr + expected@.len() <= old(device).contents().len()
                && old(device).contents().subrange(addr as int, addr + expected@.len()) != expected@),
{
    let ghost c = device.contents();
    let ghost c0 = device.calls();
    proof {
        lemma_no_calls(c0);
    }
    if !device.is_valid_range(addr, expected.len()) {
        return Err(Error::AddressOutOfBounds);
    }
    let _size = device.size();
    let n = expected.len();
    let mut offset: usize = 0;
    while offset < n
        invariant
            n == expected@.len(),
            addr + n <= c.len(),
            c.len() <= u32::MAX,
            offset <= n,
            c == old(device).contents(),
            device.contents() == c,
            c.subrange(addr as int, addr + offset) == expected@.subrange(0, offset as int),
            c0 == old(device).calls(),
            c0.is_prefix_of(device.calls()),
            erase_count(new_calls(c0, device.calls())) == 0,
            write_count(new_calls(c0, device.calls())) == 0,
            reads_within(new_calls(c0, device.calls()), addr as int, addr + n),
        decreases n - offset,
    {
        let chunk_size = if n - offset < READ_CHUNK_SIZE { n - offset } else { READ_CHUNK_SIZE };
        let mut buf: Vec<u8> = vec![0u8; chunk_size];
        let at: u32 = addr + offset as u32;
        let ghost c1 = device.calls();
        let rr = device.read(at, buf.as_mut_slice());
        proof {
            lemma_call(c0, c1, device.calls().last());
            lemma_reads_within_push(new_calls(c0, c1), device.calls().last(), addr as int, addr + n);
        }
        rr?;
        assert(buf@ == c.subrange(addr + offset, addr + offset + chunk_size));
        let mut k: usize = 0;
        while k < chunk_size
            invariant
                k <= chunk_size,
                buf@.len() == chunk_size,
                offset + chunk_size <= n,
                n == expected@.len(),
                addr + n <= c.len(),
                c == old(device).contents(),
                device.contents() == c,
                buf@ == c.subrange(addr + offset, addr + offset + chunk_size),
                forall|j: int| 0 <= j < k ==> buf@[j] == expected@[offset + j],
                c0 == old(device).calls(),
                c0.is_prefix_of(device.calls()),
                erase_count(new_calls(c0, device.calls())) == 0,
                write_count(new_calls(c0, device.calls())) == 0,
                reads_within(new_calls(c0, device.calls()), addr as int, addr + n),
            decreases chunk_size - k,
        {
            if buf[k] != expected[offset + k] {
                assert(c.subrange(addr as int, addr + n)[offset + k] != expected@[offset + k]);
                return Err(Error::VerifyError);
            }
            k += 1;
        }
        proof {
            assert(c.subrange(addr as int, addr + offset + chunk_size) =~= expected@.subrange(0, offset + chunk_size)) by {
                assert forall|j: int| 0 <= j < offset + chunk_size implies #[trigger] c.subrange(addr as int, addr + offset + chunk_size)[j]
                    == expected@.subrange(0, offset + chunk_size)[j] by {
                    if j < offset {
                        assert(c.subrange(addr as int, addr + offset)[j] == expected@.subrange(0, offset as int)[j]);
                    } else {
                        assert(buf@[j - offset] == expected@[j]);
                    }
                }
            }
        }
        offset += chunk_size;
    }
    assert(expected@.subrange(0, n as int) =~= expected@);
    Ok(())
}

/// The erase of a region ends with the region erased whenever the erase
/// blocks nest and there is an erase unit.
pub open spec fn erase_region_reaches(blocks: Seq<EraseBlock>, flash_size: u32) -> bool {
    aligned_erase_sizes(blocks, flash_size) && has_erase_unit(blocks, flash_size)
}

/// Erase a single region
///
/// Uses the optimal erase plan for the region; where a planned block
/// reaches outside the region, the bytes outside are read first and
/// programmed back after the erase.
pub fn erase_region<D: FlashDevice + ?Sized>(device: &mut D, region: &Region) -> (r: Result<(), Error>)
    requires
        region.start <= region.end,
        region.spec_size() <= u32::MAX,
    ensures
        region.end >= old(device).contents().len() ==> r == Err::<(), Error>(Error::AddressOutOfBounds)
            && final(device).contents() == old(device).contents(),
        final(device).contents().len() == old(device).contents().len(),
        r is Ok ==> region.end < old(device).contents().len(),
        final(device).spec_erase_blocks() == old(device).spec_erase_blocks(),
        final(device).spec_write_granularity() == old(device).spec_write_granularity(),
        r is Ok ==> forall|p: int| 0 <= p < old(device).contents().len() && !(region.start <= p <= region.end)
            ==> #[trigger] final(device).contents()[p] == old(device).contents()[p],
        r is Ok && erase_region_reaches(old(device).spec_erase_blocks(), old(device).contents().len() as u32)
            ==> forall|p: int| region.start <= p <= region.end ==> #[trigger] final(device).contents()[p] == 0xFF,
{
    let ghost c0 = device.contents();
    if !device.is_valid_range(region.start, region.size() as usize) {
        return Err(Error::AddressOutOfBounds);
    }
    let flash_size = device.size();
    let erase_blocks = copy_erase_blocks(device.erase_blocks());
    proof {
        lemma_same_blocks_plan_alike(erase_blocks@, device.spec_erase_blocks(), flash_size);
    }
    let erase_ops = plan_optimal_erase_region(erase_blocks.as_slice(), flash_size, region.start, region.end);
    let region_end_addr = region.end + 1;
    let mut i: usize = 0;
    while i < erase_ops.len()
        invariant
            i <= erase_ops@.len(),
            region.start <= region.end,
            region_end_addr == region.end + 1,
            region_end_addr <= flash_size,
            c0 == old(device).contents(),
            c0.len() == flash_size,
            device.contents().len() == flash_size,
            device.spec_erase_blocks() == old(device).spec_erase_blocks(),
            device.spec_write_granularity() == old(device).spec_write_granularity(),
            forall|p: int| 0 <= p < flash_size && !(region.start <= p < region_end_addr)
                ==> #[trigger] device.contents()[p] == c0[p],
            forall|j: int, p: int| 0 <= j < i && region.start <= p < region_end_addr && (#[trigger] erase_ops@[j]).start
                <= p < erase_ops@[j].start + erase_ops@[j].size ==> #[trigger] device.contents()[p] == 0xFF,
            forall|j: int| 0 <= j < erase_ops@.len() ==> {
                ||| is_block_op(#[trigger] erase_ops@[j], erase_blocks@, flash_size, region.start, region.end)
                ||| is_chip_op(erase_ops@[j], erase_blocks@, flash_size)
            },
        decreases erase_ops@.len() - i,
    {
        let op_start = erase_ops[i].start;
        let op_size = erase_ops[i].size;
        let ghost before = device.contents();
        assert(is_block_op(erase_ops@[i as int], erase_blocks@, flash_size, region.start, region.end)
            || is_chip_op(erase_ops@[i as int], erase_blocks@, flash_size));
        if op_start >= region_end_addr || op_start + op_size <= region.start {
            return Err(Error::ProgrammerError);
        }
        erase_preserving(device, op_start, op_size, region.start, region_end_addr)?;
        proof {
            assert forall|j: int, p: int| 0 <= j < i + 1 && region.start <= p < region_end_addr && (#[trigger] erase_ops@[j]).start
                <= p < erase_ops@[j].start + erase_ops@[j].size implies #[trigger] device.contents()[p] == 0xFF by {
                if j < i {
                    assert(before[p] == 0xFF);
                }
            }
        }
        i += 1;
    }
    proof {
        if erase_region_reaches(device.spec_erase_blocks(), flash_size) {
            assert forall|p: int| region.start <= p <= region.end implies #[trigger] device.contents()[p] == 0xFF by {
                lemma_region_byte_planned(erase_ops@, erase_blocks@, flash_size, region.start, region.end, p);
            }
        }
    }
    Ok(())
}

/// In an erase plan without contents, every byte of the region lies in
/// some operation.
proof fn lemma_region_byte_planned(
    ops: Seq<OptimalEraseOp>,
    blocks: Seq<EraseBlock>,
    flash_size: u32,
    region_start: u32,
    region_end: u32,
    p: int,
)
    requires
        region_start <= p <= region_end,
        region_end < flash_size,
        aligned_erase_sizes(blocks, flash_size),
        has_erase_unit(blocks, flash_size),
        plan_covers(ops, blocks, flash_size, None, None, region_start, region_end, WriteGranularity::Byte),
    ensures
        exists|j: int| 0 <= j < ops.len() && (#[trigger] ops[j]).start <= p < ops[j].start + ops[j].size,
{
    let i = lemma_min_candidate(blocks, flash_size, blocks.len() as int);
    let sz = blocks[i].spec_min_block_size() as int;
    let fs = flash_size as int;
    let k = p / sz;
    assert(k * sz <= p < k * sz + sz) by (nonlinear_arith)
        requires
            sz > 0,
            k == p / sz,
            p >= 0,
    ;
    assert(k < fs / sz && k * sz + sz <= fs) by (nonlinear_arith)
        requires
            sz > 0,
            fs % sz == 0,
            k * sz <= p,
            p < fs,
            k >= 0,
    ;
    assert(block_needs_erase(None, None, region_start, region_end, WriteGranularity::Byte, k * sz, k * sz + sz - 1));
    assert(ops_cover(ops, k * blocks[i].spec_min_block_size(), blocks[i].spec_min_block_size() as int));
}

} // verus!

verus! {

/// What a layout validation error becomes at the flash level: a region
/// beyond the chip or a chip size mismatch is an out-of-bounds address,
/// anything else a layout error.
pub open spec fn spec_layout_error(e: LayoutError) -> Error {
    match e {
        LayoutError::RegionOutOfBounds => Error::AddressOutOfBounds,
        LayoutError::ChipSizeMismatch { .. } => Error::AddressOutOfBounds,
        _ => Error::LayoutError,
    }
}

fn layout_error(e: LayoutError) -> (r: Error)
    ensures
        r == spec_layout_error(e),
{
    match e {
        LayoutError::RegionOutOfBounds => Error::AddressOutOfBounds,
        LayoutError::ChipSizeMismatch { .. } => Error::AddressOutOfBounds,
        _ => Error::LayoutError,
    }
}

/// Region `k` of `regions` is included and holds the address `p`.
pub open spec fn in_included_region(regions: Seq<Region>, k: int, p: int) -> bool {
    &&& 0 <= k < regions.len()
    &&& regions[k].included
    &&& regions[k].start <= p <= regions[k].end
}

/// The address `p` lies in an included region among the first `n`.
pub open spec fn covered(regions: Seq<Region>, n: int, p: int) -> bool {
    exists|k: int| 0 <= k < n && #[trigger] in_included_region(regions, k, p)
}

proof fn lemma_covered_step(regions: Seq<Region>, i: int, p: int)
    requires
        0 <= i < regions.len(),
    ensures
        covered(regions, i + 1, p) <==> (covered(regions, i, p) || in_included_region(regions, i, p)),
{
    if covered(regions, i + 1, p) {
        let k = choose|k: int| 0 <= k < i + 1 && #[trigger] in_included_region(regions, k, p);
        if k < i {
            assert(covered(regions, i, p));
        }
    }
    if covered(regions, i, p) {
        let k = choose|k: int| 0 <= k < i && #[trigger] in_included_region(regions, k, p);
        assert(0 <= k < i + 1 && in_included_region(regions, k, p));
    }
    if in_included_region(regions, i, p) {
        assert(0 <= i < i + 1 && in_included_region(regions, i, p));
    }
}

/// Copy `data` into `buffer` at `at`.
fn copy_into(buffer: &mut [u8], at: usize, data: &[u8])
    requires
        at + data@.len() <= old(buffer)@.len(),
    ensures
        final(buffer)@.len() == old(buffer)@.len(),
        forall|p: int| 0 <= p < old(buffer)@.len() ==> #[trigger] final(buffer)@[p]
            == if at <= p < at + data@.len() { data@[p - at] } else { old(buffer)@[p] },
{
    let n = data.len();
    let _total = buffer.len();
    let mut j: usize = 0;
    while j < n
        invariant
            n == data@.len(),
            old(buffer)@.len() <= usize::MAX,
            at + n <= old(buffer)@.len(),
            buffer@.len() == old(buffer)@.len(),
            j <= n,
            forall|p: int| 0 <= p < old(buffer)@.len() ==> #[trigger] buffer@[p]
                == if at <= p < at + j { data@[p - at] } else { old(buffer)@[p] },
        decreases n - j,
    {
        buffer[at + j] = data[j];
        j += 1;
    }
}

/// Read all included regions from flash into a buffer
///
/// Regions that are not included will be left unchanged in the buffer.
pub fn read_by_layout<D: FlashDevice + ?Sized>(device: &mut D, layout: &Layout, buffer: &mut [u8]) -> (r: Result<(), Error>)
    ensures
        final(device).contents() == old(device).contents(),
        final(buffer)@.len() == old(buffer)@.len(),
        layout.spec_validate(old(device).contents().len() as u32) matches Err(e)
            ==> r == Err::<(), Error>(spec_layout_error(e)) && final(buffer)@ == old(buffer)@,
        layout.spec_validate(old(device).contents().len() as u32) is Ok && old(buffer)@.len() < old(device).contents().len()
            ==> r == Err::<(), Error>(Error::BufferTooSmall) && final(buffer)@ == old(buffer)@,
        r is Ok ==> layout.spec_validate(old(device).contents().len() as u32) is Ok
            && old(buffer)@.len() >= old(device).contents().len(),
        r is Ok ==> forall|p: int| 0 <= p < old(buffer)@.len() ==> #[trigger] final(buffer)@[p]
            == if covered(layout.regions@, layout.regions@.len() as int, p) { old(device).contents()[p] } else { old(buffer)@[p] },
        old(device).calls().is_prefix_of(final(device).calls()),
        reads_in_included(new_calls(old(device).calls(), final(device).calls()), layout.regions@),
        r matches Err(e) ==> device_answered(old(device).calls(), final(device).calls(), e)
            || layout.spec_validate(old(device).contents().len() as u32) is Err
            || (e == Error::BufferTooSmall && old(buffer)@.len() < old(device).contents().len()),
{
    let ghost c = device.contents();
    let ghost b0 = buffer@;
    let ghost regs = layout.regions@;
    let ghost c0 = device.calls();
    proof {
        lemma_no_calls(c0);
    }
    let flash_size = device.size();
    match layout.validate(flash_size) {
        Ok(()) => {},
        Err(e) => {
            return Err(layout_error(e));
        },
    }
    if buffer.len() < flash_size as usize {
        return Err(Error::BufferTooSmall);
    }
    proof {
        lemma_validated_layout(*layout, flash_size);
    }
    let n = layout.regions.len();
    let mut i: usize = 0;
    while i < n
        invariant
            n == regs.len(),
            regs == layout.regions@,
            i <= n,
            c == old(device).contents(),
            device.contents() == c,
            c.len() == flash_size,
            c.len() as u32 == flash_size,
            layout.spec_validate(flash_size) is Ok,
            buffer@.len() == b0.len(),
            b0 == old(buffer)@,
            b0.len() >= flash_size,
            forall|k: int| 0 <= k < n ==> #[trigger] region_fits(regs[k], flash_size),
            c0 == old(device).calls(),
            c0.is_prefix_of(device.calls()),
            reads_in_included(new_calls(c0, device.calls()), regs),
            forall|p: int| 0 <= p < b0.len() ==> #[trigger] buffer@[p]
                == if covered(regs, i as int, p) { c[p] } else { b0[p] },
        decreases n - i,
    {
        let region = &layout.regions[i];
        let ghost before = buffer@;
        assert(region_fits(regs[i as int], flash_size));
        if region.included {
            let len = region.size() as usize;
            let ghost c1 = device.calls();
            let rd = read_exact(device, region.start, len);
            proof {
                lemma_calls_chain(c0, c1, device.calls());
                lemma_reads_in_included(new_calls(c0, c1), new_calls(c1, device.calls()), regs, i as int);
            }
            let data = rd?;
            copy_into(buffer, region.start as usize, data.as_slice());
        }
        proof {
            assert forall|p: int| 0 <= p < b0.len() implies #[trigger] buffer@[p]
                == if covered(regs, i + 1, p) { c[p] } else { b0[p] } by {
                lemma_covered_step(regs, i as int, p);
                assert(before[p] == if covered(regs, i as int, p) { c[p] } else { b0[p] });
            }
        }
        i += 1;
    }
    Ok(())
}

/// Verify all included regions match expected data
pub fn verify_by_layout<D: FlashDevice + ?Sized>(device: &mut D, layout: &Layout, expected: &[u8]) -> (r: Result<(), Error>)
    ensures
        final(device).contents() == old(device).contents(),
        layout.spec_validate(old(device).contents().len() as u32) matches Err(e)
            ==> r == Err::<(), Error>(spec_layout_error(e)),
        layout.spec_validate(old(device).contents().len() as u32) is Ok && expected@.len() < old(device).contents().len()
            ==> r == Err::<(), Error>(Error::BufferTooSmall),
        r is Ok ==> layout.spec_validate(old(device).contents().len() as u32) is Ok
            && expected@.len() >= old(device).contents().len(),
        r is Ok ==> forall|p: int| covered(layout.regions@, layout.regions@.len() as int, p)
            ==> #[trigger] old(device).contents()[p] == expected@[p],
        old(device).calls().is_prefix_of(final(device).calls()),
        reads_in_included(new_calls(old(device).calls(), final(device).calls()), layout.regions@),
        r matches Err(e) ==> device_answered(old(device).calls(), final(device).calls(), e)
            || layout.spec_validate(old(device).contents().len() as u32) is Err
            || (e == Error::BufferTooSmall && expected@.len() < old(device).contents().len())
            || (e == Error::VerifyError && exists|p: int| covered(layout.regions@, layout.regions@.len() as int, p)
                && #[trigger] old(device).contents()[p] != expected@[p]),
{
    let ghost c = device.contents();
    let ghost regs = layout.regions@;
    let ghost c0 = device.calls();
    proof {
        lemma_no_calls(c0);
    }
    let flash_size = device.size();
    match layout.validate(flash_size) {
        Ok(()) => {},
        Err(e) => {
            return Err(layout_error(e));
        },
    }
    if expected.len() < flash_size as usize {
        return Err(Error::BufferTooSmall);
    }
    proof {
        lemma_validated_layout(*layout, flash_size);
    }
    let n = layout.regions.len();
    let mut i: usize = 0;
    while i < n
        invariant
            n == regs.len(),
            regs == layout.regions@,
            i <= n,
            c == old(device).contents(),
            device.contents() == c,
            c.len() == flash_size,
            c.len() as u32 == flash_size,
            layout.spec_validate(flash_size) is Ok,
            expected@.len() >= flash_size,
            forall|k: int| 0 <= k < n ==> #[trigger] region_fits(regs[k], flash_size),
            c0 == old(device).calls(),
            c0.is_prefix_of(device.calls()),
            reads_in_included(new_calls(c0, device.calls()), regs),
            forall|p: int| covered(regs, i as int, p) ==> #[trigger] c[p] == expected@[p],
        decreases n - i,
    {
        let region = &layout.regions[i];
        assert(region_fits(regs[i as int], flash_size));
        if region.included {
            let end = region.end as usize + 1;
            let expected_region = vstd::slice::slice_subrange(expected, region.start as usize, end);
            let ghost c1 = device.calls();
            let rv = verify(device, expected_region, region.start);
            proof {
                lemma_calls_chain(c0, c1, device.calls());
                lemma_reads_in_included(new_calls(c0, c1), new_calls(c1, device.calls()), regs, i as int);
                if rv == Err::<(), Error>(Error::VerifyError) {
                    if !device_answered(c1, device.calls(), Error::VerifyError) {
                        let sub = c.subrange(region.start as int, region.start + expected_region@.len());
                        assert(exists|q: int| 0 <= q < sub.len() && sub[q] != expected_region@[q]) by {
                            if !exists|q: int| 0 <= q < sub.len() && sub[q] != expected_region@[q] {
                                assert(sub =~= expected_region@);
                            }
                        }
                        let q = choose|q: int| 0 <= q < sub.len() && sub[q] != expected_region@[q];
                        let p = region.start + q;
                        assert(in_included_region(regs, i as int, p));
                        assert(covered(regs, n as int, p));
                        assert(c[p] != expected@[p]);
                    }
                }
            }
            rv?;
            proof {
                assert forall|p: int| region.start <= p <= region.end implies #[trigger] c[p] == expected@[p] by {
                    assert(c.subrange(region.start as int, region.start + expected_region@.len())[p - region.start]
                        == expected_region@[p - region.start]);
                }
            }
        }
        proof {
            assert forall|p: int| covered(regs, i + 1, p) implies #[trigger] c[p] == expected@[p] by {
                lemma_covered_step(regs, i as int, p);
            }
        }
        i += 1;
    }
    Ok(())
}

/// Erase all included regions in a layout
pub fn erase_by_layout<D: FlashDevice + ?Sized>(device: &mut D, layout: &Layout) -> (r: Result<(), Error>)
    ensures
        final(device).contents().len() == old(device).contents().len(),
        final(device).spec_erase_blocks() == old(device).spec_erase_blocks(),
        final(device).spec_write_granularity() == old(device).spec_write_granularity(),
        layout.spec_validate(old(device).contents().len() as u32) matches Err(e)
            ==> r == Err::<(), Error>(spec_layout_error(e)) && final(device).contents() == old(device).contents(),
        r is Ok ==> layout.spec_validate(old(device).contents().len() as u32) is Ok,
        r is Ok ==> forall|p: int| 0 <= p < old(device).contents().len()
            && !covered(layout.regions@, layout.regions@.len() as int, p)
            ==> #[trigger] final(device).contents()[p] == old(device).contents()[p],
        r is Ok && erase_region_reaches(old(device).spec_erase_blocks(), old(device).contents().len() as u32)
            ==> forall|p: int| covered(layout.regions@, layout.regions@.len() as int, p)
            ==> #[trigger] final(device).contents()[p] == 0xFF,
{
    let ghost c0 = device.contents();
    let ghost regs = layout.regions@;
    let flash_size = device.size();
    match layout.validate(flash_size) {
        Ok(()) => {},
        Err(e) => {
            return Err(layout_error(e));
        },
    }
    proof {
        lemma_validated_layout(*layout, flash_size);
    }
    let ghost reaches = erase_region_reaches(device.spec_erase_blocks(), flash_size);
    let n = layout.regions.len();
    let mut i: usize = 0;
    while i < n
        invariant
            n == regs.len(),
            regs == layout.regions@,
            i <= n,
            c0 == old(device).contents(),
            c0.len() == flash_size,
            c0.len() as u32 == flash_size,
            device.contents().len() == flash_size,
            device.spec_erase_blocks() == old(device).spec_erase_blocks(),
            device.spec_write_granularity() == old(device).spec_write_granularity(),
            reaches == erase_region_reaches(old(device).spec_erase_blocks(), flash_size),
            layout.spec_validate(flash_size) is Ok,
            forall|k: int| 0 <= k < n ==> #[trigger] region_fits(regs[k], flash_size),
            forall|p: int| 0 <= p < flash_size && !covered(regs, i as int, p) ==> #[trigger] device.contents()[p] == c0[p],
            reaches ==> forall|p: int| covered(regs, i as int, p) ==> #[trigger] device.contents()[p] == 0xFF,
        decreases n - i,
    {
        let region = &layout.regions[i];
        let ghost before = device.contents();
        assert(region_fits(regs[i as int], flash_size));
        if region.included {
            erase_region(device, region)?;
        }
        proof {
            assert forall|p: int| 0 <= p < flash_size && !covered(regs, i + 1, p) implies #[trigger] device.contents()[p] == c0[p] by {
                lemma_covered_step(regs, i as int, p);
                assert(before[p] == c0[p]);
            }
            if reaches {
                assert forall|p: int| covered(regs, i + 1, p) implies #[trigger] device.contents()[p] == 0xFF by {
                    lemma_covered_step(regs, i as int, p);
                    if !in_included_region(regs, i as int, p) {
                        let k = choose|k: int| 0 <= k < i && #[trigger] in_included_region(regs, k, p);
                        assert(region_fits(regs[k], flash_size));
                        assert(before[p] == 0xFF);
                    }
                }
            }
        }
        i += 1;
    }
    Ok(())
}

/// Progress reporter for one region of a layout write: read progress is
/// offset by the bytes of the regions already handled, and the start and
/// end of the whole write stay with the caller's reporter.
struct OffsetProgress<'a, P: WriteProgress + ?Sized> {
    inner: &'a mut P,
    read_offset: usize,
}

impl<'a, P: WriteProgress + ?Sized> WriteProgress for OffsetProgress<'a, P> {
    fn reading(&mut self, _total_bytes: usize) {
    }

    fn read_progress(&mut self, bytes_read: usize) {
        let at = self.read_offset.saturating_add(bytes_read);
        self.inner.read_progress(at);
    }

    fn erasing(&mut self, blocks_to_erase: usize, bytes_to_erase: usize) {
        self.inner.erasing(blocks_to_erase, bytes_to_erase);
    }

    fn erase_progress(&mut self, blocks_erased: usize, bytes_erased: usize) {
        self.inner.erase_progress(blocks_erased, bytes_erased);
    }

    fn writing(&mut self, bytes_to_write: usize) {
        self.inner.writing(bytes_to_write);
    }

    fn write_progress(&mut self, bytes_written: usize) {
        self.inner.write_progress(bytes_written);
    }

    fn complete(&mut self, _stats: &WriteStats) {
    }
}

/// Add the statistics of one region to the running totals.
fn add_stats(total: &mut WriteStats, stats: &WriteStats)
    ensures
        final(total).flash_modified == (old(total).flash_modified || stats.flash_modified),
{
    total.bytes_changed = total.bytes_changed.saturating_add(stats.bytes_changed);
    total.erases_performed = total.erases_performed.saturating_add(stats.erases_performed);
    total.bytes_erased = total.bytes_erased.saturating_add(stats.bytes_erased);
    total.writes_performed = total.writes_performed.saturating_add(stats.writes_performed);
    total.bytes_written = total.bytes_written.saturating_add(stats.bytes_written);
    total.flash_modified = total.flash_modified || stats.flash_modified;
}

/// Smart write using a layout - only writes included regions
///
/// `image` is a full flash image; each included region is written from the
/// bytes of the image at the region's addresses, and everything outside the
/// included regions is left as it was.
pub fn smart_write_by_layout<D: FlashDevice + ?Sized, P: WriteProgress + ?Sized>(
    device: &mut D,
    layout: &Layout,
    image: &[u8],
    progress: &mut P,
) -> (r: Result<WriteStats, Error>)
    ensures
        final(device).contents().len() == old(device).contents().len(),
        final(device).spec_erase_blocks() == old(device).spec_erase_blocks(),
        final(device).spec_write_granularity() == old(device).spec_write_granularity(),
        layout.spec_validate(old(device).contents().len() as u32) matches Err(e)
            ==> r == Err::<WriteStats, Error>(spec_layout_error(e)) && final(device).contents() == old(device).contents(),
        layout.spec_validate(old(device).contents().len() as u32) is Ok && image@.len() < old(device).contents().len()
            ==> r == Err::<WriteStats, Error>(Error::BufferTooSmall) && final(device).contents() == old(device).contents(),
        layout.spec_validate(old(device).contents().len() as u32) is Ok && image@.len() >= old(device).contents().len()
            && (forall|k: int| 0 <= k < layout.regions@.len() ==> !(#[trigger] layout.regions@[k]).included)
            ==> r == Ok::<WriteStats, Error>(WriteStats {
            bytes_changed: 0,
            erases_performed: 0,
            bytes_erased: 0,
            writes_performed: 0,
            bytes_written: 0,
            flash_modified: false,
        }) && final(device).contents() == old(device).contents(),
        r is Ok ==> layout.spec_validate(old(device).contents().len() as u32) is Ok
            && image@.len() >= old(device).contents().len(),
        r is Ok ==> forall|p: int| 0 <= p < old(device).contents().len()
            && !covered(layout.regions@, layout.regions@.len() as int, p)
            ==> #[trigger] final(device).contents()[p] == old(device).contents()[p],
        r is Ok && erase_region_reaches(old(device).spec_erase_blocks(), old(device).contents().len() as u32)
            ==> forall|p: int| covered(layout.regions@, layout.regions@.len() as int, p)
            ==> #[trigger] final(device).contents()[p] == image@[p],
        r matches Ok(stats) && !stats.flash_modified ==> final(device).contents() == old(device).contents(),
{
    let ghost c0 = device.contents();
    let ghost regs = layout.regions@;
    let flash_size = device.size();
    match layout.validate(flash_size) {
        Ok(()) => {},
        Err(e) => {
            return Err(layout_error(e));
        },
    }
    if image.len() < flash_size as usize {
        return Err(Error::BufferTooSmall);
    }
    proof {
        lemma_validated_layout(*layout, flash_size);
    }
    if !layout.has_included_regions() {
        let stats = empty_stats();
        progress.complete(&stats);
        return Ok(stats);
    }
    let n = layout.regions.len();
    let mut total_bytes: usize = 0;
    let mut t: usize = 0;
    while t < n
        invariant
            n == layout.regions@.len(),
            t <= n,
            forall|k: int| 0 <= k < n ==> #[trigger] region_fits(layout.regions@[k], flash_size),
        decreases n - t,
    {
        assert(region_fits(layout.regions@[t as int], flash_size));
        if layout.regions[t].included {
            total_bytes = total_bytes.saturating_add(layout.regions[t].size() as usize);
        }
        t += 1;
    }
    let mut combined_stats = empty_stats();
    let mut overall_bytes_read: usize = 0;
    progress.reading(total_bytes);
    let ghost reaches = erase_region_reaches(device.spec_erase_blocks(), flash_size);
    let mut i: usize = 0;
    while i < n
        invariant
            n == regs.len(),
            regs == layout.regions@,
            i <= n,
            c0 == old(device).contents(),
            c0.len() == flash_size,
            c0.len() as u32 == flash_size,
            image@.len() >= flash_size,
            device.contents().len() == flash_size,
            device.spec_erase_blocks() == old(device).spec_erase_blocks(),
            device.spec_write_granularity() == old(device).spec_write_granularity(),
            reaches == erase_region_reaches(old(device).spec_erase_blocks(), flash_size),
            layout.spec_validate(flash_size) is Ok,
            forall|k: int| 0 <= k < n ==> #[trigger] region_fits(regs[k], flash_size),
            forall|p: int| 0 <= p < flash_size && !covered(regs, i as int, p) ==> #[trigger] device.contents()[p] == c0[p],
            reaches ==> forall|p: int| covered(regs, i as int, p) ==> #[trigger] device.contents()[p] == image@[p],
            !combined_stats.flash_modified ==> device.contents() == c0,
        decreases n - i,
    {
        let region = &layout.regions[i];
        let ghost before = device.contents();
        assert(region_fits(regs[i as int], flash_size));
        if region.included {
            let end = region.end as usize + 1;
            let region_data = vstd::slice::slice_subrange(image, region.start as usize, end);
            let mut offset_progress = OffsetProgress { inner: &mut *progress, read_offset: overall_bytes_read };
            let stats = smart_write_region(device, region.start, region_data, &mut offset_progress)?;
            add_stats(&mut combined_stats, &stats);
            overall_bytes_read = overall_bytes_read.saturating_add(region.size() as usize);
            proof {
                if reaches {
                    assert(smart_write_region_reaches(
                        old(device).spec_erase_blocks(),
                        before,
                        region.start as int,
                        region_data@,
                        old(device).spec_write_granularity(),
                    ));
                    assert forall|p: int| region.start <= p <= region.end implies #[trigger] device.contents()[p] == image@[p] by {
                        assert(device.contents().subrange(region.start as int, region.start + region_data@.len())[p - region.start]
                            == region_data@[p - region.start]);
                    }
                }
            }
        }
        proof {
            assert forall|p: int| 0 <= p < flash_size && !covered(regs, i + 1, p) implies #[trigger] device.contents()[p] == c0[p] by {
                lemma_covered_step(regs, i as int, p);
                assert(before[p] == c0[p]);
            }
            if reaches {
                assert forall|p: int| covered(regs, i + 1, p) implies #[trigger] device.contents()[p] == image@[p] by {
                    lemma_covered_step(regs, i as int, p);
                    if !in_included_region(regs, i as int, p) {
                        let k = choose|k: int| 0 <= k < i && #[trigger] in_included_region(regs, k, p);
                        assert(region_fits(regs[k], flash_size));
                        assert(before[p] == image@[p]);
                    }
                }
            }
        }
        i += 1;
    }
    progress.complete(&combined_stats);
    Ok(combined_stats)
}

} // verus!
