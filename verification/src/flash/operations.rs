//! Content comparison for smart writes, erase block selection and the
//! progress reporting interface.
use vstd::prelude::*;
use crate::chip::types::{EraseBlock, WriteGranularity};
use crate::error::Error;
use crate::programmer::traits::SpiMaster;
use crate::protocol::read_mode::{read_mode_candidates, read_mode_selected, select_read_mode};
use crate::programmer::features::SpiFeatures;
use crate::protocol::spi25::{
    extends, lemma_new_chain, lemma_replies_concat, new_transactions, replies, addressed_data, chunked_program,
    lemma_op_addressed, lemma_page_bounded_append, lemma_program_none, lemma_program_step, lemma_program_unaddressed,
    page_bounded, page_program_polls, CommandAddressing, chunked_read, is_simple, answered, lemma_answered,
    enter_4byte_mode, exit_4byte_mode, program_page_3b, program_page_4b, read_3b, read_4b,
    read_dual_io_3b, read_dual_io_4b, read_dual_out_3b, read_dual_out_4b, read_quad_io_3b,
    read_quad_io_4b, read_quad_out_3b, read_quad_out_4b,
};
use crate::spi::io_mode::IoMode;
use crate::spi::opcodes;
use super::context::{AddressMode, FlashContext};

verus! {

/// The erased value for flash memory (all bits set)
pub const ERASED_VALUE: u8 = 0xFF;

/// Whether changing one byte from `h` to `w` needs an erase first.
///
/// Bit granularity can only clear bits; byte and page granularity can only
/// program a byte that is still erased.
pub open spec fn byte_needs_erase(h: u8, w: u8, granularity: WriteGranularity) -> bool {
    match granularity {
        WriteGranularity::Bit => (h & w) != w,
        _ => h != w && h != ERASED_VALUE,
    }
}

/// Some byte of the two equally long sequences needs an erase.
pub open spec fn spec_need_erase(have: Seq<u8>, want: Seq<u8>, granularity: WriteGranularity) -> bool {
    exists|i: int| 0 <= i < have.len() && #[trigger] byte_needs_erase(have[i], want[i], granularity)
}

/// Byte `i` differs between the two sequences.
pub open spec fn differs(have: Seq<u8>, want: Seq<u8>, i: int) -> bool {
    have[i] != want[i]
}

/// Determine if an erase is required to transition from `have` to `want`.
///
/// Flash memory can only change bits from 1 to 0 during writes; turning a
/// 0 into a 1 needs an erase, which sets all bits to 1.
pub fn need_erase(have: &[u8], want: &[u8], granularity: WriteGranularity) -> (r: bool)
    requires
        have@.len() == want@.len(),
    ensures
        r == spec_need_erase(have@, want@, granularity),
{
    let n = have.len();
    let mut i: usize = 0;
    while i < n
        invariant
            n == have@.len(),
            n == want@.len(),
            i <= n,
            forall|k: int| 0 <= k < i ==> !#[trigger] byte_needs_erase(have@[k], want@[k], granularity),
        decreases n - i,
    {
        let h = have[i];
        let w = want[i];
        let needs = match granularity {
            WriteGranularity::Bit => (h & w) != w,
            WriteGranularity::Byte => h != w && h != ERASED_VALUE,
            WriteGranularity::Page => h != w && h != ERASED_VALUE,
        };
        if needs {
            assert(byte_needs_erase(have@[i as int], want@[i as int], granularity));
            return true;
        }
        i = i + 1;
    }
    false
}

/// Check if a range of data needs to be written: `true` if the two
/// buffers differ.
pub fn need_write(have: &[u8], want: &[u8]) -> (r: bool)
    ensures
        r == (have@ != want@),
{
    if have.len() != want.len() {
        return true;
    }
    let n = have.len();
    let mut i: usize = 0;
    while i < n
        invariant
            n == have@.len(),
            n == want@.len(),
            i <= n,
            forall|k: int| 0 <= k < i ==> have@[k] == want@[k],
        decreases n - i,
    {
        if have[i] != want[i] {
            return true;
        }
        i = i + 1;
    }
    assert(have@ =~= want@);
    false
}

/// A contiguous range of bytes that needs to be written
#[derive(Debug, Clone, Copy, PartialEq, Eq, Structural)]
pub struct WriteRange {
    /// Start offset within the compared buffers
    pub start: u32,
    /// Length in bytes
    pub len: u32,
}

impl WriteRange {
    /// One past the last offset of the range.
    pub open spec fn end(self) -> int {
        self.start + self.len
    }

    /// The range is a maximal run of differing bytes: every byte in it
    /// differs, and the bytes just before and just after it (if any) match.
    pub open spec fn is_maximal_run(self, have: Seq<u8>, want: Seq<u8>) -> bool {
        &&& self.len >= 1
        &&& self.end() <= have.len()
        &&& forall|i: int| self.start <= i < self.end() ==> #[trigger] differs(have, want, i)
        &&& (self.start == 0 || !differs(have, want, self.start - 1))
        &&& (self.end() == have.len() || !differs(have, want, self.end()))
    }
}

/// Find the next contiguous range of changed bytes.
///
/// Starting from `offset`, finds the first byte where `have != want`, then
/// continues until a byte where they match again (or the end of the data).
/// Returns `None` when nothing differs from `offset` on.
pub fn get_next_write_range(have: &[u8], want: &[u8], offset: u32) -> (r: Option<WriteRange>)
    requires
        have@.len() == want@.len(),
        have@.len() <= u32::MAX,
    ensures
        r is None <==> forall|i: int| offset <= i < have@.len() ==> !#[trigger] differs(have@, want@, i),
        r matches Some(range) ==> {
            &&& range.start >= offset
            &&& range.len >= 1
            &&& range.end() <= have@.len()
            &&& forall|i: int| offset <= i < range.start ==> !#[trigger] differs(have@, want@, i)
            &&& forall|i: int| range.start <= i < range.end() ==> #[trigger] differs(have@, want@, i)
            &&& (range.end() == have@.len() || !differs(have@, want@, range.end()))
        },
{
    let n = have.len();
    let start_offset = offset as usize;
    if start_offset >= n {
        return None;
    }
    let mut s: usize = start_offset;
    while s < n && have[s] == want[s]
        invariant
            n == have@.len(),
            n == want@.len(),
            start_offset <= s <= n,
            start_offset == offset,
            forall|i: int| offset <= i < s ==> !#[trigger] differs(have@, want@, i),
        decreases n - s,
    {
        s = s + 1;
    }
    if s >= n {
        return None;
    }
    let mut e: usize = s + 1;
    while e < n && have[e] != want[e]
        invariant
            n == have@.len(),
            n == want@.len(),
            s < e <= n,
            differs(have@, want@, s as int),
            forall|i: int| s <= i < e ==> #[trigger] differs(have@, want@, i),
        decreases n - e,
    {
        e = e + 1;
    }
    Some(WriteRange { start: s as u32, len: (e - s) as u32 })
}

/// Get all write ranges: the maximal runs of changed bytes, in order.
pub fn get_all_write_ranges(have: &[u8], want: &[u8]) -> (ranges: Vec<WriteRange>)
    requires
        have@.len() == want@.len(),
        have@.len() <= u32::MAX,
    ensures
        forall|k: int| 0 <= k < ranges@.len() ==> #[trigger] ranges@[k].is_maximal_run(have@, want@),
        forall|k: int, j: int| 0 <= k < j < ranges@.len() ==> ranges@[k].end() < ranges@[j].start,
        forall|i: int| 0 <= i < have@.len() ==> (#[trigger] differs(have@, want@, i) <==>
            exists|k: int| 0 <= k < ranges@.len() && ranges@[k].start <= i < #[trigger] ranges@[k].end()),
{
    let mut ranges: Vec<WriteRange> = Vec::new();
    let mut offset: u32 = 0;
    let ghost n = have@.len();
    loop
        invariant
            n == have@.len(),
            n == want@.len(),
            n <= u32::MAX,
            offset <= n,
            ranges@.len() == 0 ==> offset == 0,
            ranges@.len() > 0 ==> offset == ranges@.last().end()
                && (offset == n || !differs(have@, want@, offset as int)),
            forall|k: int| 0 <= k < ranges@.len() ==> #[trigger] ranges@[k].is_maximal_run(have@, want@),
            forall|k: int| 0 <= k < ranges@.len() ==> #[trigger] ranges@[k].end() <= offset,
            forall|k: int, j: int| 0 <= k < j < ranges@.len() ==> ranges@[k].end() < ranges@[j].start,
            forall|i: int| 0 <= i < offset ==> (#[trigger] differs(have@, want@, i) <==>
                exists|k: int| 0 <= k < ranges@.len() && ranges@[k].start <= i < #[trigger] ranges@[k].end()),
        decreases n - offset,
    {
        match get_next_write_range(have, want, offset) {
            None => {
                assert forall|i: int| 0 <= i < have@.len() implies (#[trigger] differs(have@, want@, i) <==>
                    exists|k: int| 0 <= k < ranges@.len() && ranges@[k].start <= i < #[trigger] ranges@[k].end()) by {
                    if i >= offset {
                        assert(!differs(have@, want@, i));
                        if exists|k: int| 0 <= k < ranges@.len() && ranges@[k].start <= i < #[trigger] ranges@[k].end() {
                            let k = choose|k: int| 0 <= k < ranges@.len() && ranges@[k].start <= i < #[trigger] ranges@[k].end();
                            assert(ranges@[k].end() <= offset);
                        }
                    }
                }
                return ranges;
            },
            Some(range) => {
                let ghost old_ranges = ranges@;
                proof {
                    if range.start > 0 && old_ranges.len() > 0 && range.start == offset {
                        assert(!differs(have@, want@, offset as int));
                    }
                    if range.start > 0 && range.start > offset {
                        assert(!differs(have@, want@, range.start - 1));
                    }
                    if old_ranges.len() > 0 {
                        assert(range.start != offset);
                    }
                }
                ranges.push(range);
                offset = range.start + range.len;
                assert forall|i: int| 0 <= i < offset implies (#[trigger] differs(have@, want@, i) <==>
                    exists|k: int| 0 <= k < ranges@.len() && ranges@[k].start <= i < #[trigger] ranges@[k].end()) by {
                    if range.start <= i {
                        let k = ranges@.len() - 1;
                        assert(ranges@[k] == range);
                        assert(ranges@[k].start <= i < ranges@[k].end());
                    } else if exists|k: int| 0 <= k < old_ranges.len() && old_ranges[k].start <= i < #[trigger] old_ranges[k].end() {
                        let k = choose|k: int| 0 <= k < old_ranges.len() && old_ranges[k].start <= i < #[trigger] old_ranges[k].end();
                        assert(ranges@[k] == old_ranges[k]);
                    }
                    if exists|k: int| 0 <= k < ranges@.len() && ranges@[k].start <= i < #[trigger] ranges@[k].end() {
                        let k = choose|k: int| 0 <= k < ranges@.len() && ranges@[k].start <= i < #[trigger] ranges@[k].end();
                        if k < old_ranges.len() {
                            assert(ranges@[k] == old_ranges[k]);
                        }
                    }
                }
            },
        }
    }
}

/// Select the best erase block size for the given operation.
///
/// Finds the erase block with the largest block size that is not a chip
/// erase, whose smallest block is no longer than `len`, and of whose
/// smallest block size both `addr` and `len` are multiples. Among equally
/// large ones the last is taken.
pub fn select_erase_block(erase_blocks: &[EraseBlock], addr: u32, len: u32) -> (r: Option<EraseBlock>)
    ensures
        r is None <==> forall|i: int| 0 <= i < erase_blocks@.len()
            ==> !#[trigger] erase_block_fits(erase_blocks@[i], addr, len),
        r matches Some(eb) ==> exists|i: int| 0 <= i < erase_blocks@.len() && {
            &&& #[trigger] erase_block_fits(erase_blocks@[i], addr, len)
            &&& same_erase_block(eb, erase_blocks@[i])
            &&& forall|j: int| 0 <= j < erase_blocks@.len() && #[trigger] erase_block_fits(erase_blocks@[j], addr, len)
                ==> erase_blocks@[j].spec_max_block_size() <= erase_blocks@[i].spec_max_block_size()
            &&& forall|j: int| i < j < erase_blocks@.len() && #[trigger] erase_block_fits(erase_blocks@[j], addr, len)
                ==> erase_blocks@[j].spec_max_block_size() < erase_blocks@[i].spec_max_block_size()
        },
{
    let mut best: Option<usize> = None;
    let mut i: usize = 0;
    while i < erase_blocks.len()
        invariant
            i <= erase_blocks@.len(),
            best is None <==> forall|k: int| 0 <= k < i ==> !#[trigger] erase_block_fits(erase_blocks@[k], addr, len),
            best matches Some(b) ==> {
                &&& b < i
                &&& erase_block_fits(erase_blocks@[b as int], addr, len)
                &&& forall|j: int| 0 <= j < i && #[trigger] erase_block_fits(erase_blocks@[j], addr, len)
                    ==> erase_blocks@[j].spec_max_block_size() <= erase_blocks@[b as int].spec_max_block_size()
                &&& forall|j: int| b < j < i && #[trigger] erase_block_fits(erase_blocks@[j], addr, len)
                    ==> erase_blocks@[j].spec_max_block_size() < erase_blocks@[b as int].spec_max_block_size()
            },
        decreases erase_blocks@.len() - i,
    {
        let eb = &erase_blocks[i];
        let min_size = eb.min_block_size();
        let fits = !eb.is_chip_erase() && min_size <= len && is_multiple_of(addr, min_size)
            && is_multiple_of(len, min_size);
        if fits {
            assert(erase_block_fits(erase_blocks@[i as int], addr, len));
            match best {
                None => { best = Some(i); },
                Some(b) => {
                    if eb.max_block_size() >= erase_blocks[b].max_block_size() {
                        best = Some(i);
                    }
                },
            }
        } else {
            assert(!erase_block_fits(erase_blocks@[i as int], addr, len));
        }
        i = i + 1;
    }
    match best {
        None => None,
        Some(b) => Some(erase_blocks[b].duplicate()),
    }
}

/// The erase block can erase `len` bytes at `addr`: it is not a chip erase,
/// its smallest block is no longer than `len`, and both `addr` and `len`
/// are multiples of that block size.
pub open spec fn erase_block_fits(eb: EraseBlock, addr: u32, len: u32) -> bool {
    let m = eb.spec_min_block_size();
    &&& !eb.spec_is_chip_erase()
    &&& m <= len
    &&& spec_is_multiple_of(addr, m)
    &&& spec_is_multiple_of(len, m)
}

/// `a` is a multiple of `m`; only 0 is a multiple of 0.
pub open spec fn spec_is_multiple_of(a: u32, m: u32) -> bool {
    if m == 0 { a == 0 } else { a % m == 0 }
}

fn is_multiple_of(a: u32, m: u32) -> (r: bool)
    ensures
        r == spec_is_multiple_of(a, m),
{
    if m == 0 { a == 0 } else { a % m == 0 }
}

/// Two erase blocks describe the same operation.
pub open spec fn same_erase_block(a: EraseBlock, b: EraseBlock) -> bool {
    a.opcode == b.opcode && a.opcode_4b == b.opcode_4b && a.regions@ == b.regions@
}

/// The 4-byte-address variant of a 3-byte erase opcode.
pub open spec fn spec_map_to_4byte_erase_opcode(opcode: u8) -> u8 {
    if opcode == opcodes::SE_20 {
        opcodes::SE_21
    } else if opcode == opcodes::BE_52 {
        opcodes::BE_5C
    } else if opcode == opcodes::BE_D8 {
        opcodes::BE_DC
    } else {
        opcode
    }
}

/// Map a 3-byte erase opcode to its 4-byte equivalent: 0x20 to 0x21, 0x52
/// to 0x5C, 0xD8 to 0xDC; other opcodes (such as chip erase) are returned
/// unchanged.
pub fn map_to_4byte_erase_opcode(opcode: u8) -> (r: u8)
    ensures
        r == spec_map_to_4byte_erase_opcode(opcode),
{
    if opcode == opcodes::SE_20 {
        opcodes::SE_21
    } else if opcode == opcodes::BE_52 {
        opcodes::BE_5C
    } else if opcode == opcodes::BE_D8 {
        opcodes::BE_DC
    } else {
        opcode
    }
}

/// Statistics from a smart write operation
#[derive(Debug, Clone, Copy, Default, PartialEq, Eq)]
pub struct WriteStats {
    /// Number of bytes that were different
    pub bytes_changed: usize,
    /// Number of erase operations performed
    pub erases_performed: usize,
    /// Total bytes erased
    pub bytes_erased: usize,
    /// Number of write operations performed
    pub writes_performed: usize,
    /// Total bytes written
    pub bytes_written: usize,
    /// Whether any flash operations were performed
    pub flash_modified: bool,
}

/// One report made to a progress reporter.
pub ghost enum ProgressEvent {
    /// Reading starts, for this many bytes.
    Reading(usize),
    /// This many bytes are read.
    ReadStep(usize),
    /// Erasing starts: this many blocks, this many bytes.
    Erasing(usize, usize),
    /// This many blocks and bytes are erased.
    EraseStep(usize, usize),
    /// Writing starts, for this many bytes.
    Writing(usize),
    /// This many bytes are written.
    WriteStep(usize),
    /// The operation is complete, with these statistics.
    Complete(WriteStats),
}

/// The reports after `before` in `after` hold no completion.
pub open spec fn reports_pending(before: Seq<ProgressEvent>, after: Seq<ProgressEvent>) -> bool {
    &&& before.is_prefix_of(after)
    &&& forall|j: int| before.len() <= j < after.len() ==> !(#[trigger] after[j] is Complete)
}

/// The reports after `before` in `after` end with one completion, with
/// `stats`, and hold no other.
pub open spec fn reports_complete(before: Seq<ProgressEvent>, after: Seq<ProgressEvent>, stats: WriteStats) -> bool {
    &&& after.len() > before.len()
    &&& reports_pending(before, after.drop_last())
    &&& after.last() == ProgressEvent::Complete(stats)
}

/// A report other than a completion keeps the reports pending.
pub proof fn lemma_report_pending(a: Seq<ProgressEvent>, b: Seq<ProgressEvent>, e: ProgressEvent)
    requires
        reports_pending(a, b),
        !(e is Complete),
    ensures
        reports_pending(a, b.push(e)),
{
    assert(b.push(e).subrange(0, a.len() as int) =~= b.subrange(0, a.len() as int));
    assert forall|j: int| a.len() <= j < b.push(e).len() implies !(#[trigger] b.push(e)[j] is Complete) by {
        if j < b.len() {
            assert(b.push(e)[j] == b[j]);
        }
    }
}

/// Pending reports followed by pending reports are pending.
pub proof fn lemma_reports_pending_trans(a: Seq<ProgressEvent>, b: Seq<ProgressEvent>, c: Seq<ProgressEvent>)
    requires
        reports_pending(a, b),
        reports_pending(b, c),
    ensures
        reports_pending(a, c),
{
    assert(c.subrange(0, a.len() as int) =~= c.subrange(0, b.len() as int).subrange(0, a.len() as int));
    assert forall|j: int| a.len() <= j < c.len() implies !(#[trigger] c[j] is Complete) by {
        if j < b.len() {
            assert(c.subrange(0, b.len() as int)[j] == c[j]);
            assert(b[j] == c[j]);
        }
    }
}

/// A completion after pending reports completes them.
pub proof fn lemma_report_complete(a: Seq<ProgressEvent>, b: Seq<ProgressEvent>, stats: WriteStats)
    requires
        reports_pending(a, b),
    ensures
        reports_complete(a, b.push(ProgressEvent::Complete(stats)), stats),
{
    assert(b.push(ProgressEvent::Complete(stats)).drop_last() =~= b);
}

/// Callback for progress reporting during smart write operations
///
/// A reporter that keeps a record of its reports (`keeps_record()`) adds
/// one event to `events()` per call. The defaults (no record) let
/// reporters that keep none, and those written outside Verus, compile;
/// nothing is then stated about what they were told.
pub trait WriteProgress {
    /// Whether the reporter keeps a record of its reports.
    open spec fn keeps_record(&self) -> bool {
        false
    }

    /// The reports given so far, oldest first, where a record is kept.
    open spec fn events(&self) -> Seq<ProgressEvent> {
        Seq::empty()
    }

    /// Called when starting to read current flash contents
    fn reading(&mut self, total_bytes: usize)
        ensures
            final(self).keeps_record() == old(self).keeps_record(),
            old(self).keeps_record() ==> final(self).events() == old(self).events().push(ProgressEvent::Reading(total_bytes)),
    ;

    /// Called to update read progress
    fn read_progress(&mut self, bytes_read: usize)
        ensures
            final(self).keeps_record() == old(self).keeps_record(),
            old(self).keeps_record() ==> final(self).events() == old(self).events().push(ProgressEvent::ReadStep(bytes_read)),
    ;

    /// Called when starting erase operations
    fn erasing(&mut self, blocks_to_erase: usize, bytes_to_erase: usize)
        ensures
            final(self).keeps_record() == old(self).keeps_record(),
            old(self).keeps_record() ==> final(self).events() == old(self).events().push(ProgressEvent::Erasing(blocks_to_erase, bytes_to_erase)),
    ;

    /// Called after each block is erased
    fn erase_progress(&mut self, blocks_erased: usize, bytes_erased: usize)
        ensures
            final(self).keeps_record() == old(self).keeps_record(),
            old(self).keeps_record() ==> final(self).events() == old(self).events().push(ProgressEvent::EraseStep(blocks_erased, bytes_erased)),
    ;

    /// Called when starting write operations
    fn writing(&mut self, bytes_to_write: usize)
        ensures
            final(self).keeps_record() == old(self).keeps_record(),
            old(self).keeps_record() ==> final(self).events() == old(self).events().push(ProgressEvent::Writing(bytes_to_write)),
    ;

    /// Called to update write progress
    fn write_progress(&mut self, bytes_written: usize)
        ensures
            final(self).keeps_record() == old(self).keeps_record(),
            old(self).keeps_record() ==> final(self).events() == old(self).events().push(ProgressEvent::WriteStep(bytes_written)),
    ;

    /// Called when the operation is complete
    fn complete(&mut self, stats: &WriteStats)
        ensures
            final(self).keeps_record() == old(self).keeps_record(),
            old(self).keeps_record() ==> final(self).events() == old(self).events().push(ProgressEvent::Complete(*stats)),
    ;
}

/// A no-op progress reporter
pub struct NoProgress;

impl WriteProgress for NoProgress {
    fn reading(&mut self, _total_bytes: usize) {
    }

    fn read_progress(&mut self, _bytes_read: usize) {
    }

    fn erasing(&mut self, _blocks_to_erase: usize, _bytes_to_erase: usize) {
    }

    fn erase_progress(&mut self, _blocks_erased: usize, _bytes_erased: usize) {
    }

    fn writing(&mut self, _bytes_to_write: usize) {
    }

    fn write_progress(&mut self, _bytes_written: usize) {
    }

    fn complete(&mut self, _stats: &WriteStats) {
    }
}

} // verus!

verus! {

/// Read flash contents
///
/// Selects the fastest read mode that both the programmer and the chip
/// support (quad, then dual, then single I/O), with native four-byte
/// commands when the chip is in 4-byte mode and has them; otherwise the
/// chip is switched into 4-byte mode around the read.
pub fn read<M: SpiMaster + ?Sized>(master: &mut M, ctx: &FlashContext, addr: u32, buf: &mut [u8]) -> (r: Result<(), Error>)
    ensures
        final(buf)@.len() == old(buf)@.len(),
        !(addr < ctx.chip.total_size && addr + old(buf)@.len() <= ctx.chip.total_size)
            ==> r == Err::<(), Error>(Error::AddressOutOfBounds),
        extends(old(master).transactions(), final(master).transactions()),
        r is Ok ==> final(buf)@ == replies(new_transactions(old(master).transactions(), final(master).transactions())),
        r is Ok ==> reads_sent(new_transactions(old(master).transactions(), final(master).transactions()), ctx, addr,
            selected_read_mode(old(master).spec_features(), ctx)),
        reads_tried(new_transactions(old(master).transactions(), final(master).transactions()), ctx, addr,
            selected_read_mode(old(master).spec_features(), ctx)),
        r matches Err(e) ==> answered(old(master).transactions(), final(master).transactions(), e)
            || (e == Error::ChipNotSupported && old(buf)@.len() > 0 && final(master).spec_max_read_len() == 0)
            || (e == Error::AddressOutOfBounds && !(addr < ctx.chip.total_size && addr + old(buf)@.len() <= ctx.chip.total_size)),
        final(master).spec_max_read_len() == old(master).spec_max_read_len(),
{
    let ghost t0 = master.transactions();
    proof {
        assert(t0.subrange(0, t0.len() as int) =~= t0);
        assert(new_transactions(t0, t0) =~= Seq::<crate::programmer::traits::Transaction>::empty());
    }
    if !ctx.is_valid_range(addr, buf.len()) {
        return Err(Error::AddressOutOfBounds);
    }
    let use_4byte = ctx.address_mode == AddressMode::FourByte && ctx.use_native_4byte;
    let master_features = master.features();
    let accept = |_op: u8| -> (b: bool)
        ensures
            b,
    { true };
    let (io_mode, _opcode, _native) = select_read_mode(master_features, ctx.chip.features, use_4byte, &accept);
    proof {
        lemma_first_usable(read_mode_candidates(master_features, ctx.chip.features, use_4byte), &accept, io_mode,
            _opcode, _native);
        assert(io_mode == selected_read_mode(old(master).spec_features(), ctx));
    }
    let enter_exit_4byte = ctx.address_mode == AddressMode::FourByte && !ctx.use_native_4byte;
    if enter_exit_4byte {
        enter_4byte_mode(master)?;
    }
    let ghost t1 = master.transactions();
    proof {
        if t1 != t0 {
            assert(new_transactions(t0, t1)[0].reply.len() == 0);
            assert(new_transactions(t0, t1).drop_last() =~= Seq::<crate::programmer::traits::Transaction>::empty());
            assert(replies(Seq::<crate::programmer::traits::Transaction>::empty()) == Seq::<u8>::empty());
            assert(new_transactions(t0, t1).last().reply =~= Seq::<u8>::empty());
            assert(replies(new_transactions(t0, t1)) =~= Seq::<u8>::empty());
        } else {
            assert(new_transactions(t0, t1) =~= Seq::<crate::programmer::traits::Transaction>::empty());
            assert(replies(new_transactions(t0, t1)) =~= Seq::<u8>::empty());
        }
    }
    let result = match io_mode {
        IoMode::DualOut => {
            if use_4byte {
                read_dual_out_4b(master, addr, buf)
            } else {
                read_dual_out_3b(master, addr, buf)
            }
        },
        IoMode::DualIo => {
            if use_4byte {
                read_dual_io_4b(master, addr, buf)
            } else {
                read_dual_io_3b(master, addr, buf)
            }
        },
        IoMode::QuadOut => {
            if use_4byte {
                read_quad_out_4b(master, addr, buf)
            } else {
                read_quad_out_3b(master, addr, buf)
            }
        },
        IoMode::QuadIo => {
            if use_4byte {
                read_quad_io_4b(master, addr, buf)
            } else {
                read_quad_io_3b(master, addr, buf)
            }
        },
        _ => {
            if use_4byte {
                read_4b(master, addr, buf)
            } else {
                read_3b(master, addr, buf)
            }
        },
    };
    let ghost t2 = master.transactions();
    if enter_exit_4byte {
        let _ = exit_4byte_mode(master);
    }
    proof {
        let t3 = master.transactions();
        let four = ctx.address_mode == AddressMode::FourByte && ctx.use_native_4byte;
        if result is Ok {
            assert(chunked_read(new_transactions(t1, t2), read_request(io_mode, four).0, addr,
                if four { CommandAddressing::FourByte } else { CommandAddressing::ThreeByte },
                read_mode_used(io_mode), read_request(io_mode, four).1));
        }
        if t3 != t2 {
            assert(new_transactions(t2, t3)[0].reply.len() == 0);
            assert(new_transactions(t2, t3).drop_last() =~= Seq::<crate::programmer::traits::Transaction>::empty());
            assert(replies(Seq::<crate::programmer::traits::Transaction>::empty()) == Seq::<u8>::empty());
            assert(new_transactions(t2, t3).last().reply =~= Seq::<u8>::empty());
            assert(replies(new_transactions(t2, t3)) =~= Seq::<u8>::empty());
        } else {
            assert(t2.subrange(0, t2.len() as int) =~= t2);
            assert(new_transactions(t2, t3) =~= Seq::<crate::programmer::traits::Transaction>::empty());
            assert(replies(new_transactions(t2, t3)) =~= Seq::<u8>::empty());
        }
        lemma_new_chain(t0, t1, t2);
        lemma_new_chain(t0, t2, t3);
        lemma_replies_concat(new_transactions(t0, t1), new_transactions(t1, t2));
        lemma_replies_concat(new_transactions(t0, t2), new_transactions(t2, t3));
        assert(replies(new_transactions(t0, t2)) =~= replies(new_transactions(t1, t2)));
        assert(replies(new_transactions(t0, t3)) =~= replies(new_transactions(t0, t2)));
        let ts = new_transactions(t0, t3);
        let k: int = if enter_exit_4byte { 1 } else { 0 };
        assert(ts.subrange(k, ts.len() - k) =~= new_transactions(t1, t2));
        if enter_exit_4byte {
            assert(ts[0] == new_transactions(t0, t1)[0]);
            assert(ts.last() == new_transactions(t2, t3)[0]);
        }
        if result is Ok {
            assert(reads_sent(ts, ctx, addr, io_mode));
        }
    }
    result
}

/// The I/O mode of the first usable candidate from `k` on, plain single
/// I/O when there is none.
pub open spec fn first_usable_mode(c: Seq<(bool, IoMode, u8, bool)>, k: int) -> IoMode
    decreases c.len() - k,
{
    if k < 0 || k >= c.len() {
        IoMode::Single
    } else if c[k].0 {
        c[k].1
    } else {
        first_usable_mode(c, k + 1)
    }
}

/// The mode `read` selects: the first read candidate that both the chip and
/// the programmer can use.
pub open spec fn selected_read_mode(features: SpiFeatures, ctx: &FlashContext) -> IoMode {
    first_usable_mode(read_mode_candidates(features, ctx.chip.features,
        ctx.address_mode == AddressMode::FourByte && ctx.use_native_4byte), 0)
}

/// Candidates skipped before `k` lead to the first usable one.
proof fn lemma_first_usable_from(c: Seq<(bool, IoMode, u8, bool)>, i: int, k: int)
    requires
        0 <= i <= k,
        forall|j: int| i <= j < k ==> !(#[trigger] c[j]).0,
        k < c.len() ==> c[k].0,
    ensures
        first_usable_mode(c, i) == if k < c.len() { c[k].1 } else { IoMode::Single },
    decreases k - i,
{
    if i < k {
        lemma_first_usable_from(c, i + 1, k);
    }
}

/// With an opcode check that accepts every opcode, the selection is the
/// first usable candidate.
proof fn lemma_first_usable<F: Fn(u8) -> bool>(c: Seq<(bool, IoMode, u8, bool)>, f: F, mode: IoMode, op: u8, native: bool)
    requires
        read_mode_selected(c, f, (mode, op, native)),
        forall|x: u8, b: bool| #[trigger] f.ensures((x,), b) ==> b,
    ensures
        mode == first_usable_mode(c, 0),
{
    if exists|k: int| 0 <= k < c.len() && #[trigger] c[k].0 && (mode, op, native) == (c[k].1, c[k].2, c[k].3)
        && f.ensures((c[k].2,), true)
        && forall|j: int| 0 <= j < k && #[trigger] c[j].0 ==> f.ensures((c[j].2,), false) {
        let k = choose|k: int| 0 <= k < c.len() && #[trigger] c[k].0 && (mode, op, native) == (c[k].1, c[k].2, c[k].3)
            && f.ensures((c[k].2,), true)
            && forall|j: int| 0 <= j < k && #[trigger] c[j].0 ==> f.ensures((c[j].2,), false);
        assert forall|j: int| 0 <= j < k implies !(#[trigger] c[j]).0 by {
            if c[j].0 {
                assert(f.ensures((c[j].2,), false));
            }
        }
        lemma_first_usable_from(c, 0, k);
    } else {
        assert forall|j: int| 0 <= j < c.len() implies !(#[trigger] c[j]).0 by {
            if c[j].0 {
                assert(f.ensures((c[j].2,), false));
            }
        }
        lemma_first_usable_from(c, 0, c.len() as int);
    }
}

/// What a read sends, as far as it got: with the 4-byte bracket, EN4B
/// first and, once reads were sent, EX4B last; between them the chunked
/// reads of the mode.
pub open spec fn reads_tried(ts: Seq<crate::programmer::traits::Transaction>, ctx: &FlashContext, addr: u32, mode: IoMode) -> bool {
    let four = ctx.address_mode == AddressMode::FourByte && ctx.use_native_4byte;
    let bracket = ctx.address_mode == AddressMode::FourByte && !ctx.use_native_4byte;
    let w = if four { CommandAddressing::FourByte } else { CommandAddressing::ThreeByte };
    if bracket {
        ts.len() == 0 || (is_simple(ts[0].command, opcodes::EN4B) && (ts.len() == 1 || (is_simple(ts.last().command, opcodes::EX4B)
            && chunked_read(ts.subrange(1, ts.len() - 1), read_request(mode, four).0, addr, w, read_mode_used(mode),
                read_request(mode, four).1))))
    } else {
        chunked_read(ts, read_request(mode, four).0, addr, w, read_mode_used(mode), read_request(mode, four).1)
    }
}

/// The opcode and dummy cycles of a read in `mode`, native four-byte or not.
pub open spec fn read_request(mode: IoMode, four: bool) -> (u8, u8) {
    match mode {
        IoMode::DualOut => (if four { opcodes::DOR_4B } else { opcodes::DOR }, 8),
        IoMode::DualIo => (if four { opcodes::DIOR_4B } else { opcodes::DIOR }, 4),
        IoMode::QuadOut => (if four { opcodes::QOR_4B } else { opcodes::QOR }, 8),
        IoMode::QuadIo => (if four { opcodes::QIOR_4B } else { opcodes::QIOR }, 6),
        _ => (if four { opcodes::READ_4B } else { opcodes::READ }, 0),
    }
}

/// The I/O mode a read in the selected `mode` is sent in.
pub open spec fn read_mode_used(mode: IoMode) -> IoMode {
    match mode {
        IoMode::DualOut | IoMode::DualIo | IoMode::QuadOut | IoMode::QuadIo => mode,
        _ => IoMode::Single,
    }
}

/// The transactions of a read at `addr` in `mode`: chunked reads of the
/// mode's opcode at `addr`, `addr` plus the bytes read so far, and so on,
/// bracketed by EN4B and EX4B when the chip is switched into 4-byte mode
/// for the read.
pub open spec fn reads_sent(ts: Seq<crate::programmer::traits::Transaction>, ctx: &FlashContext, addr: u32, mode: IoMode) -> bool {
    let four = ctx.address_mode == AddressMode::FourByte && ctx.use_native_4byte;
    let bracket = ctx.address_mode == AddressMode::FourByte && !ctx.use_native_4byte;
    let k: int = if bracket { 1 } else { 0 };
    &&& ts.len() >= 2 * k
    &&& bracket ==> is_simple(ts[0].command, opcodes::EN4B) && is_simple(ts.last().command, opcodes::EX4B)
    &&& chunked_read(ts.subrange(k, ts.len() - k), read_request(mode, four).0, addr,
        if four { CommandAddressing::FourByte } else { CommandAddressing::ThreeByte },
        read_mode_used(mode), read_request(mode, four).1)
}

/// Bytes from `addr` to the end of its page.
pub open spec fn to_page_end(addr: u32, page_size: int) -> int {
    page_size - addr as int % page_size
}

/// Write data to flash
///
/// Splits the data at page boundaries and programs page by page; the
/// target region must be erased first. A chip in 4-byte mode without
/// native commands is switched into 4-byte mode for the write and back.
pub fn write<M: SpiMaster + ?Sized>(master: &mut M, ctx: &FlashContext, addr: u32, data: &[u8]) -> (r: Result<(), Error>)
    requires
        ctx.chip.page_size > 0,
    ensures
        !(addr < ctx.chip.total_size && addr + data@.len() <= ctx.chip.total_size)
            ==> r == Err::<(), Error>(Error::AddressOutOfBounds),
        extends(old(master).transactions(), final(master).transactions()),
        r is Ok ==> chunked_program(new_transactions(old(master).transactions(), final(master).transactions()),
            write_opcode(ctx), addr, write_addressing(ctx))
            && addressed_data(new_transactions(old(master).transactions(), final(master).transactions())) == data@
            && page_bounded(new_transactions(old(master).transactions(), final(master).transactions()),
                ctx.chip.page_size as int),
{
    let ghost t0 = master.transactions();
    proof {
        assert(t0.subrange(0, t0.len() as int) =~= t0);
    }
    if !ctx.is_valid_range(addr, data.len()) {
        return Err(Error::AddressOutOfBounds);
    }
    let page_size = ctx.page_size();
    let use_4byte = ctx.address_mode == AddressMode::FourByte;
    let use_native = ctx.use_native_4byte;
    let ghost opcode = write_opcode(ctx);
    let ghost addressing = write_addressing(ctx);
    if use_4byte && !use_native {
        enter_4byte_mode(master)?;
    }
    proof {
        let e = new_transactions(t0, master.transactions());
        assert forall|j: int| 0 <= j < e.len() implies (#[trigger] e[j]).command.address is None by {}
        lemma_program_none(opcode, addr, addressing);
        lemma_program_unaddressed(Seq::<crate::programmer::traits::Transaction>::empty(), e, opcode, addr, addressing);
        assert(Seq::<crate::programmer::traits::Transaction>::empty() + e =~= e);
        reveal(page_bounded);
        assert(addressed_data(Seq::<crate::programmer::traits::Transaction>::empty()) =~= data@.take(0));
    }
    let n = data.len();
    let mut offset: usize = 0;
    let mut current_addr = addr;
    while offset < n
        invariant
            n == data@.len(),
            offset <= n,
            current_addr == addr + offset,
            addr + n <= ctx.chip.total_size,
            page_size == ctx.chip.page_size,
            page_size > 0,
            t0 == old(master).transactions(),
            opcode == write_opcode(ctx),
            addressing == write_addressing(ctx),
            use_4byte == (ctx.address_mode == AddressMode::FourByte),
            use_native == ctx.use_native_4byte,
            extends(t0, master.transactions()),
            chunked_program(new_transactions(t0, master.transactions()), opcode, addr, addressing),
            addressed_data(new_transactions(t0, master.transactions())) == data@.take(offset as int),
            page_bounded(new_transactions(t0, master.transactions()), page_size as int),
        decreases n - offset,
    {
        let ghost ta = master.transactions();
        let page_offset = (current_addr as usize) % page_size;
        let bytes_to_page_end = page_size - page_offset;
        let remaining = n - offset;
        let chunk_size = if bytes_to_page_end < remaining { bytes_to_page_end } else { remaining };
        let chunk = vstd::slice::slice_subrange(data, offset, offset + chunk_size);
        let result = if use_4byte && use_native {
            program_page_4b(master, current_addr, chunk)
        } else {
            program_page_3b(master, current_addr, chunk)
        };
        proof {
            lemma_new_chain(t0, ta, master.transactions());
            if result is Ok {
                let c = new_transactions(ta, master.transactions());
                lemma_program_step(new_transactions(t0, ta), c, opcode, addr, addressing, current_addr, chunk@,
                    page_program_polls());
                lemma_op_addressed(c, addressing, current_addr, opcode, chunk@, page_program_polls());
                assert(current_addr as int % page_size as int == page_offset);
                lemma_page_bounded_append(new_transactions(t0, ta), c, page_size as int);
                assert(data@.take(offset as int) + chunk@ =~= data@.take(offset + chunk_size));
            }
        }
        if result.is_err() {
            if use_4byte && !use_native {
                let _ = exit_4byte_mode(master);
            }
            return result;
        }
        offset += chunk_size;
        current_addr += chunk_size as u32;
    }
    let ghost tb = master.transactions();
    if use_4byte && !use_native {
        exit_4byte_mode(master)?;
    }
    proof {
        lemma_new_chain(t0, tb, master.transactions());
        let e = new_transactions(tb, master.transactions());
        assert forall|j: int| 0 <= j < e.len() implies (#[trigger] e[j]).command.address is None by {}
        lemma_program_unaddressed(new_transactions(t0, tb), e, opcode, addr, addressing);
        assert forall|j: int| #![trigger e[j]] 0 <= j < e.len() && e[j].command.address is Some implies
            e[j].command.address->0 as int % page_size as int + e[j].command.write_data@.len() <= page_size by {}
        lemma_page_bounded_append(new_transactions(t0, tb), e, page_size as int);
        assert(data@.take(n as int) =~= data@);
    }
    Ok(())
}

/// The page-program opcode `write` uses: the native four-byte one when
/// the chip is addressed natively with four bytes, else PP.
pub open spec fn write_opcode(ctx: &FlashContext) -> u8 {
    if ctx.address_mode == AddressMode::FourByte && ctx.use_native_4byte { opcodes::PP_4B } else { opcodes::PP }
}

/// The addressing of `write`'s page programs.
pub open spec fn write_addressing(ctx: &FlashContext) -> CommandAddressing {
    if ctx.address_mode == AddressMode::FourByte && ctx.use_native_4byte {
        CommandAddressing::FourByte
    } else {
        CommandAddressing::ThreeByte
    }
}

} // verus!

verus! {

/// Number of offsets below `n` at which the two sequences differ.
pub open spec fn diff_count(have: Seq<u8>, want: Seq<u8>, n: int) -> int
    decreases n,
{
    if n <= 0 {
        0
    } else {
        diff_count(have, want, n - 1) + if differs(have, want, n - 1) { 1int } else { 0int }
    }
}

/// Total length of the first `c` ranges.
pub open spec fn ranges_len(ranges: Seq<WriteRange>, c: int) -> int
    decreases c,
{
    if c <= 0 {
        0
    } else {
        ranges_len(ranges, c - 1) + ranges[c - 1].len
    }
}

/// Where the first `c` ranges end (0 for none).
pub open spec fn ranges_end(ranges: Seq<WriteRange>, c: int) -> int {
    if c <= 0 { 0 } else { ranges[c - 1].end() }
}

pub(crate) proof fn lemma_diff_count_bounds(have: Seq<u8>, want: Seq<u8>, a: int, b: int)
    requires
        0 <= a <= b,
    ensures
        0 <= diff_count(have, want, a) <= diff_count(have, want, b) <= diff_count(have, want, a) + (b - a),
    decreases b - a,
{
    if a < b {
        lemma_diff_count_bounds(have, want, a, b - 1);
    } else {
        lemma_diff_count_nonneg(have, want, a);
    }
}

proof fn lemma_diff_count_nonneg(have: Seq<u8>, want: Seq<u8>, n: int)
    ensures
        diff_count(have, want, n) >= 0,
    decreases n,
{
    if n > 0 {
        lemma_diff_count_nonneg(have, want, n - 1);
    }
}

pub(crate) proof fn lemma_diff_count_none(have: Seq<u8>, want: Seq<u8>, a: int, b: int)
    requires
        0 <= a <= b,
        forall|i: int| a <= i < b ==> !#[trigger] differs(have, want, i),
    ensures
        diff_count(have, want, b) == diff_count(have, want, a),
    decreases b - a,
{
    if a < b {
        lemma_diff_count_none(have, want, a, b - 1);
    }
}

proof fn lemma_diff_count_all(have: Seq<u8>, want: Seq<u8>, a: int, b: int)
    requires
        0 <= a <= b,
        forall|i: int| a <= i < b ==> #[trigger] differs(have, want, i),
    ensures
        diff_count(have, want, b) == diff_count(have, want, a) + (b - a),
    decreases b - a,
{
    if a < b {
        lemma_diff_count_all(have, want, a, b - 1);
    }
}

/// The ranges of `get_all_write_ranges` are as long, together, as the
/// number of bytes that differ.
pub proof fn lemma_ranges_len_counts_diffs(have: Seq<u8>, want: Seq<u8>, ranges: Seq<WriteRange>)
    requires
        have.len() == want.len(),
        forall|k: int| 0 <= k < ranges.len() ==> #[trigger] ranges[k].is_maximal_run(have, want),
        forall|k: int, j: int| 0 <= k < j < ranges.len() ==> ranges[k].end() < ranges[j].start,
        forall|i: int| 0 <= i < have.len() ==> (#[trigger] differs(have, want, i) <==>
            exists|k: int| 0 <= k < ranges.len() && ranges[k].start <= i < #[trigger] ranges[k].end()),
    ensures
        ranges_len(ranges, ranges.len() as int) == diff_count(have, want, have.len() as int),
        forall|c: int| 0 <= c <= ranges.len() ==> #[trigger] ranges_len(ranges, c) == diff_count(have, want, ranges_end(ranges, c))
            && 0 <= ranges_end(ranges, c) <= have.len(),
{
    assert forall|c: int| 0 <= c <= ranges.len() implies #[trigger] ranges_len(ranges, c) == diff_count(have, want, ranges_end(ranges, c))
        && 0 <= ranges_end(ranges, c) <= have.len() by {
        lemma_prefix_counts(have, want, ranges, c);
    }
    let n = ranges.len() as int;
    let e = ranges_end(ranges, n);
    assert forall|i: int| e <= i < have.len() implies !#[trigger] differs(have, want, i) by {
        if differs(have, want, i) {
            let k = choose|k: int| 0 <= k < ranges.len() && ranges[k].start <= i < #[trigger] ranges[k].end();
            if k < n - 1 {
                assert(ranges[k].end() < ranges[n - 1].start);
            }
        }
    }
    lemma_prefix_counts(have, want, ranges, n);
    lemma_diff_count_none(have, want, e, have.len() as int);
}

proof fn lemma_prefix_counts(have: Seq<u8>, want: Seq<u8>, ranges: Seq<WriteRange>, c: int)
    requires
        have.len() == want.len(),
        0 <= c <= ranges.len(),
        forall|k: int| 0 <= k < ranges.len() ==> #[trigger] ranges[k].is_maximal_run(have, want),
        forall|k: int, j: int| 0 <= k < j < ranges.len() ==> ranges[k].end() < ranges[j].start,
        forall|i: int| 0 <= i < have.len() ==> (#[trigger] differs(have, want, i) <==>
            exists|k: int| 0 <= k < ranges.len() && ranges[k].start <= i < #[trigger] ranges[k].end()),
    ensures
        ranges_len(ranges, c) == diff_count(have, want, ranges_end(ranges, c)),
        0 <= ranges_end(ranges, c) <= have.len(),
    decreases c,
{
    if c > 0 {
        lemma_prefix_counts(have, want, ranges, c - 1);
        let prev = ranges_end(ranges, c - 1);
        let r = ranges[c - 1];
        assert(r.is_maximal_run(have, want));
        if c > 1 {
            assert(ranges[c - 2].end() < r.start);
        }
        assert forall|i: int| prev <= i < r.start implies !#[trigger] differs(have, want, i) by {
            if differs(have, want, i) {
                let k = choose|k: int| 0 <= k < ranges.len() && ranges[k].start <= i < #[trigger] ranges[k].end();
                if k < c - 1 {
                    if k < c - 2 {
                        assert(ranges[k].end() < ranges[c - 2].start);
                    }
                } else if k > c - 1 {
                    assert(ranges[c - 1].end() < ranges[k].start);
                }
            }
        }
        lemma_diff_count_none(have, want, prev, r.start as int);
        lemma_diff_count_all(have, want, r.start as int, r.end());
    }
}

} // verus!
