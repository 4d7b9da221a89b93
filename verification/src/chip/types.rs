//! Flash chip type definitions.
use vstd::prelude::*;
use super::features::{Features, QeMethod};

verus! {

/// Maximum number of erase regions per erase block on targets without a heap.
pub const MAX_ERASE_REGIONS: usize = 8;

/// Region definition: a run of equally sized erase blocks.
#[derive(Debug, Clone, Copy, PartialEq, Eq, Structural)]
pub struct EraseRegion {
    /// Size of each block in this region, in bytes
    pub size: u32,
    /// Number of blocks in this region
    pub count: u32,
}

impl EraseRegion {
    /// Bytes covered by the region.
    pub open spec fn spec_total_size(self) -> int {
        self.size as int * self.count as int
    }

    /// Create a new erase region
    pub fn new(size: u32, count: u32) -> (r: EraseRegion)
        ensures
            r.size == size,
            r.count == count,
    {
        EraseRegion { size, count }
    }

    /// Get the total size of this region in bytes
    pub fn total_size(&self) -> (r: u32)
        requires
            self.spec_total_size() <= u32::MAX,
        ensures
            r == self.spec_total_size(),
    {
        self.size * self.count
    }
}

/// Bytes covered by a sequence of regions laid end to end.
pub open spec fn regions_total(rs: Seq<EraseRegion>) -> int
    decreases rs.len(),
{
    if rs.len() == 0 {
        0
    } else {
        rs[0].spec_total_size() + regions_total(rs.drop_first())
    }
}

/// Smallest block size among the regions (0 for no regions).
pub open spec fn min_size_of(rs: Seq<EraseRegion>) -> u32
    decreases rs.len(),
{
    if rs.len() == 0 {
        0
    } else if rs.len() == 1 {
        rs[0].size
    } else {
        let m = min_size_of(rs.drop_last());
        if rs.last().size < m {
            rs.last().size
        } else {
            m
        }
    }
}

/// Largest block size among the regions (0 for no regions).
pub open spec fn max_size_of(rs: Seq<EraseRegion>) -> u32
    decreases rs.len(),
{
    if rs.len() == 0 {
        0
    } else {
        let m = max_size_of(rs.drop_last());
        if rs.last().size > m {
            rs.last().size
        } else {
            m
        }
    }
}

/// The block size of the region that covers byte `offset` when the regions
/// are laid end to end from 0.
pub open spec fn size_at_offset(rs: Seq<EraseRegion>, offset: int) -> Option<u32>
    decreases rs.len(),
{
    if rs.len() == 0 {
        None
    } else if offset < rs[0].spec_total_size() {
        Some(rs[0].size)
    } else {
        size_at_offset(rs.drop_first(), offset - rs[0].spec_total_size())
    }
}

/// `min_size_of` is the size of some region (returned as its index) and no
/// region is smaller.
pub proof fn lemma_min_size_of(rs: Seq<EraseRegion>) -> (k: int)
    ensures
        rs.len() > 0 ==> 0 <= k < rs.len() && rs[k].size == min_size_of(rs),
        forall|i: int| 0 <= i < rs.len() ==> min_size_of(rs) <= #[trigger] rs[i].size,
    decreases rs.len(),
{
    if rs.len() > 1 {
        let j = lemma_min_size_of(rs.drop_last());
        assert(rs.drop_last()[j] == rs[j]);
        assert forall|i: int| 0 <= i < rs.len() implies min_size_of(rs) <= #[trigger] rs[i].size by {
            if i < rs.len() - 1 {
                assert(rs.drop_last()[i] == rs[i]);
            }
        }
        if rs.last().size < min_size_of(rs.drop_last()) { rs.len() - 1 } else { j }
    } else {
        0
    }
}

/// `max_size_of` is the size of some region (returned as its index) and no
/// region is larger.
pub proof fn lemma_max_size_of(rs: Seq<EraseRegion>) -> (k: int)
    ensures
        rs.len() > 0 ==> 0 <= k < rs.len() && rs[k].size == max_size_of(rs),
        forall|i: int| 0 <= i < rs.len() ==> #[trigger] rs[i].size <= max_size_of(rs),
    decreases rs.len(),
{
    if rs.len() > 0 {
        let j = lemma_max_size_of(rs.drop_last());
        assert forall|i: int| 0 <= i < rs.len() implies #[trigger] rs[i].size <= max_size_of(rs) by {
            if i < rs.len() - 1 {
                assert(rs.drop_last()[i] == rs[i]);
            }
        }
        if rs.len() == 1 || rs.last().size > max_size_of(rs.drop_last()) {
            rs.len() - 1
        } else {
            assert(rs.drop_last()[j] == rs[j]);
            j
        }
    } else {
        0
    }
}

proof fn lemma_regions_total_nonneg(rs: Seq<EraseRegion>)
    ensures
        regions_total(rs) >= 0,
    decreases rs.len(),
{
    if rs.len() > 0 {
        lemma_regions_total_nonneg(rs.drop_first());
        assert(rs[0].spec_total_size() >= 0) by (nonlinear_arith)
            requires rs[0].size >= 0, rs[0].count >= 0;
    }
}

/// Erase block definition: one erase opcode and the layout of the blocks it
/// erases. Uniform chips have one region; boot-sector chips have several.
#[derive(Debug, Clone, PartialEq, Eq)]
pub struct EraseBlock {
    /// SPI opcode for this erase operation
    pub opcode: u8,
    /// Native 4-byte-address opcode for this erase operation, if any
    pub opcode_4b: Option<u8>,
    /// Regions for this erase operation
    pub regions: Vec<EraseRegion>,
}

impl EraseBlock {
    /// The regions, laid end to end, fit the 32-bit address space.
    pub open spec fn wf(self) -> bool {
        regions_total(self.regions@) <= u32::MAX
    }

    /// Bytes covered by the erase operation.
    pub open spec fn spec_total_size(self) -> int {
        regions_total(self.regions@)
    }

    /// One region.
    pub open spec fn spec_is_uniform(self) -> bool {
        self.regions@.len() == 1
    }

    /// One region holding one block: an erase of the whole chip.
    pub open spec fn spec_is_chip_erase(self) -> bool {
        self.regions@.len() == 1 && self.regions@[0].count == 1
    }

    /// Smallest block size.
    pub open spec fn spec_min_block_size(self) -> u32 {
        min_size_of(self.regions@)
    }

    /// Largest block size.
    pub open spec fn spec_max_block_size(self) -> u32 {
        max_size_of(self.regions@)
    }

    /// Block size of a uniform erase.
    pub open spec fn spec_uniform_size(self) -> Option<u32> {
        if self.spec_is_uniform() {
            Some(self.regions@[0].size)
        } else {
            None
        }
    }

    /// Create a new erase block with a single region of one block (a chip erase).
    pub fn new(opcode: u8, size: u32) -> (r: EraseBlock)
        ensures
            r.opcode == opcode,
            r.opcode_4b is None,
            r.regions@ == seq![EraseRegion { size, count: 1 }],
    {
        EraseBlock::with_count(opcode, size, 1)
    }

    /// Create a new erase block with a single uniform region of `count` blocks.
    pub fn with_count(opcode: u8, size: u32, count: u32) -> (r: EraseBlock)
        ensures
            r.opcode == opcode,
            r.opcode_4b is None,
            r.regions@ == seq![EraseRegion { size, count }],
    {
        let mut regions: Vec<EraseRegion> = Vec::new();
        regions.push(EraseRegion::new(size, count));
        EraseBlock { opcode, opcode_4b: None, regions }
    }

    /// Create an erase block from multiple regions
    pub fn with_regions(opcode: u8, regions: &[EraseRegion]) -> (r: EraseBlock)
        ensures
            r.opcode == opcode,
            r.opcode_4b is None,
            r.regions@ == regions@,
    {
        EraseBlock { opcode, opcode_4b: None, regions: vstd::slice::slice_to_vec(regions) }
    }

    /// Create an erase block from multiple regions with an optional native
    /// 4-byte-address opcode.
    pub fn with_regions_and_4b(opcode: u8, opcode_4b: Option<u8>, regions: &[EraseRegion]) -> (r:
        EraseBlock)
        ensures
            r.opcode == opcode,
            r.opcode_4b == opcode_4b,
            r.regions@ == regions@,
    {
        EraseBlock { opcode, opcode_4b, regions: vstd::slice::slice_to_vec(regions) }
    }

    /// The opcode to send: the native 4-byte opcode when four-byte
    /// addressing is used and the block has one, the ordinary one otherwise.
    pub fn opcode_for_address_width(&self, four_byte: bool) -> (r: u8)
        ensures
            r == (if four_byte && self.opcode_4b is Some {
                self.opcode_4b->0
            } else {
                self.opcode
            }),
    {
        if four_byte {
            match self.opcode_4b {
                Some(o) => o,
                None => self.opcode,
            }
        } else {
            self.opcode
        }
    }

    /// A copy of this erase block with the same opcodes and regions.
    pub fn duplicate(&self) -> (r: EraseBlock)
        ensures
            r.opcode == self.opcode,
            r.opcode_4b == self.opcode_4b,
            r.regions@ == self.regions@,
    {
        EraseBlock {
            opcode: self.opcode,
            opcode_4b: self.opcode_4b,
            regions: vstd::slice::slice_to_vec(self.regions.as_slice()),
        }
    }

    /// Get the active regions for this erase block
    pub fn regions(&self) -> (r: &[EraseRegion])
        ensures
            r@ == self.regions@,
    {
        self.regions.as_slice()
    }

    /// Get the total size covered by this erase operation
    pub fn total_size(&self) -> (r: u32)
        requires
            self.wf(),
        ensures
            r == self.spec_total_size(),
    {
        let mut total: u32 = 0;
        let mut i: usize = 0;
        let ghost rs = self.regions@;
        proof {
            lemma_regions_total_nonneg(rs);
            assert(rs.skip(0) =~= rs);
        }
        while i < self.regions.len()
            invariant
                i <= rs.len(),
                rs == self.regions@,
                regions_total(rs) <= u32::MAX,
                total + regions_total(rs.skip(i as int)) == regions_total(rs),
            decreases rs.len() - i,
        {
            proof {
                assert(rs.skip(i as int).drop_first() =~= rs.skip(i + 1));
                lemma_regions_total_nonneg(rs.skip(i + 1));
            }
            let r = self.regions[i];
            total = total + r.total_size();
            i = i + 1;
        }
        proof { assert(rs.skip(i as int) =~= Seq::<EraseRegion>::empty()); }
        total
    }

    /// Check if this is a uniform erase (single region)
    pub fn is_uniform(&self) -> (r: bool)
        ensures
            r == self.spec_is_uniform(),
    {
        self.regions.len() == 1
    }

    /// Get the uniform block size (only valid if is_uniform() is true)
    pub fn uniform_size(&self) -> (r: Option<u32>)
        ensures
            r == self.spec_uniform_size(),
    {
        if self.is_uniform() {
            Some(self.regions[0].size)
        } else {
            None
        }
    }

    /// Get the minimum block size across all regions
    pub fn min_block_size(&self) -> (r: u32)
        ensures
            r == self.spec_min_block_size(),
    {
        let n = self.regions.len();
        if n == 0 {
            return 0;
        }
        let ghost rs = self.regions@;
        let mut m = self.regions[0].size;
        let mut i: usize = 1;
        assert(rs.take(1).drop_last() =~= Seq::<EraseRegion>::empty());
        while i < n
            invariant
                1 <= i <= n,
                n == rs.len(),
                rs == self.regions@,
                m == min_size_of(rs.take(i as int)),
            decreases n - i,
        {
            assert(rs.take(i + 1).drop_last() =~= rs.take(i as int));
            let s = self.regions[i].size;
            if s < m {
                m = s;
            }
            i = i + 1;
        }
        assert(rs.take(n as int) =~= rs);
        m
    }

    /// Get the maximum block size across all regions
    pub fn max_block_size(&self) -> (r: u32)
        ensures
            r == self.spec_max_block_size(),
    {
        let n = self.regions.len();
        let ghost rs = self.regions@;
        let mut m: u32 = 0;
        let mut i: usize = 0;
        assert(rs.take(0) =~= Seq::<EraseRegion>::empty());
        while i < n
            invariant
                i <= n,
                n == rs.len(),
                rs == self.regions@,
                m == max_size_of(rs.take(i as int)),
            decreases n - i,
        {
            assert(rs.take(i + 1).drop_last() =~= rs.take(i as int));
            let s = self.regions[i].size;
            if s > m {
                m = s;
            }
            i = i + 1;
        }
        assert(rs.take(n as int) =~= rs);
        m
    }

    /// Check if this is a chip erase block: a single region with count 1.
    pub fn is_chip_erase(&self) -> (r: bool)
        ensures
            r == self.spec_is_chip_erase(),
    {
        self.regions.len() == 1 && self.regions[0].count == 1
    }

    /// Get the block size at a given offset within this erase operation's coverage.
    pub fn block_size_at_offset(&self, offset: u32) -> (r: Option<u32>)
        requires
            self.wf(),
        ensures
            r == size_at_offset(self.regions@, offset as int),
    {
        let ghost rs = self.regions@;
        let mut current: u32 = 0;
        let mut i: usize = 0;
        proof {
            lemma_regions_total_nonneg(rs);
            assert(rs.skip(0) =~= rs);
        }
        while i < self.regions.len()
            invariant
                i <= rs.len(),
                rs == self.regions@,
                regions_total(rs) <= u32::MAX,
                current + regions_total(rs.skip(i as int)) == regions_total(rs),
                current <= offset,
                size_at_offset(rs, offset as int) == size_at_offset(rs.skip(i as int), offset - current),
            decreases rs.len() - i,
        {
            proof {
                assert(rs.skip(i as int).drop_first() =~= rs.skip(i + 1));
                lemma_regions_total_nonneg(rs.skip(i + 1));
            }
            let region = self.regions[i];
            let region_end = current + region.total_size();
            if offset < region_end {
                return Some(region.size);
            }
            current = region_end;
            i = i + 1;
        }
        proof { assert(rs.skip(i as int) =~= Seq::<EraseRegion>::empty()); }
        None
    }
}

/// Write granularity
#[derive(Debug, Clone, Copy, PartialEq, Eq, Default, Structural)]
pub enum WriteGranularity {
    /// Can write individual bits (1->0 only)
    Bit,
    /// Can write individual bytes
    Byte,
    /// Must write full pages
    #[default]
    Page,
}

/// Test status for a chip operation
#[derive(Debug, Clone, Copy, PartialEq, Eq, Default, Structural)]
pub enum TestStatus {
    /// Not tested
    #[default]
    Untested,
    /// Tested and working
    Works,
    /// Tested but has issues
    Bad,
    /// Not applicable for this chip
    Na,
}

/// Test results for various chip operations
#[derive(Debug, Clone, Copy, PartialEq, Eq, Default, Structural)]
pub struct ChipTestStatus {
    /// Probe/identification
    pub probe: TestStatus,
    /// Read operation
    pub read: TestStatus,
    /// Erase operation
    pub erase: TestStatus,
    /// Write/program operation
    pub write: TestStatus,
    /// Write protection
    pub wp: TestStatus,
}

/// Flash chip definition.
///
/// Everything needed to identify and drive one flash chip model.
#[derive(Debug, Clone)]
pub struct FlashChip {
    /// Vendor name (e.g., "Winbond")
    pub vendor: String,
    /// Chip model name (e.g., "W25Q128FV")
    pub name: String,
    /// JEDEC manufacturer ID (first byte of RDID response)
    pub jedec_manufacturer: u8,
    /// JEDEC device ID (second and third bytes of RDID response)
    pub jedec_device: u16,
    /// Total flash size in bytes
    pub total_size: u32,
    /// Page size in bytes (for programming)
    pub page_size: u16,
    /// Feature flags
    pub features: Features,
    /// Minimum operating voltage in millivolts
    pub voltage_min_mv: u16,
    /// Maximum operating voltage in millivolts
    pub voltage_max_mv: u16,
    /// Write granularity
    pub write_granularity: WriteGranularity,
    /// Available erase block sizes (smallest to largest)
    pub erase_blocks: Vec<EraseBlock>,
    /// Test status
    pub tested: ChipTestStatus,
    /// How the quad-enable bit is set
    pub qe_method: QeMethod,
}

/// Smallest non-zero minimum block size over a list of erase blocks, or 0
/// when every block reports 0.
pub open spec fn min_positive_block(blocks: Seq<EraseBlock>) -> u32
    decreases blocks.len(),
{
    if blocks.len() == 0 {
        0
    } else {
        let rest = min_positive_block(blocks.drop_last());
        let x = blocks.last().spec_min_block_size();
        if x > 0 && (rest == 0 || x < rest) { x } else { rest }
    }
}

/// Two erase blocks with the same opcodes and regions.
pub open spec fn same_block(a: EraseBlock, b: EraseBlock) -> bool {
    a.opcode == b.opcode && a.opcode_4b == b.opcode_4b && a.regions@ == b.regions@
}

/// Two chips with the same fields and erase blocks.
pub open spec fn same_chip(a: FlashChip, b: FlashChip) -> bool {
    &&& a.vendor@ == b.vendor@
    &&& a.name@ == b.name@
    &&& a.jedec_manufacturer == b.jedec_manufacturer
    &&& a.jedec_device == b.jedec_device
    &&& a.total_size == b.total_size
    &&& a.page_size == b.page_size
    &&& a.features == b.features
    &&& a.voltage_min_mv == b.voltage_min_mv
    &&& a.voltage_max_mv == b.voltage_max_mv
    &&& a.write_granularity == b.write_granularity
    &&& a.erase_blocks@.len() == b.erase_blocks@.len()
    &&& forall|i: int| 0 <= i < a.erase_blocks@.len() ==> same_block(#[trigger] a.erase_blocks@[i], b.erase_blocks@[i])
    &&& a.tested == b.tested
    &&& a.qe_method == b.qe_method
}

/// Whether some region of the block has exactly the given block size.
pub open spec fn block_has_size(eb: EraseBlock, size: u32) -> bool {
    exists|j: int| 0 <= j < eb.regions@.len() && #[trigger] eb.regions@[j].size == size
}

impl FlashChip {
    /// Every erase block fits the 32-bit address space.
    pub open spec fn wf(self) -> bool {
        forall|i: int| 0 <= i < self.erase_blocks@.len() ==> #[trigger] self.erase_blocks@[i].wf()
    }

    /// JEDEC ID as a 24-bit value.
    pub open spec fn spec_jedec_id(self) -> int {
        self.jedec_manufacturer * 0x10000 + self.jedec_device
    }

    /// Chips over 16 MiB need 4-byte addresses.
    pub open spec fn spec_requires_4byte_addr(self) -> bool {
        self.total_size > 16 * 1024 * 1024
    }

    /// Get the JEDEC ID as a 24-bit value (manufacturer << 16 | device)
    pub fn jedec_id(&self) -> (r: u32)
        ensures
            r == self.spec_jedec_id(),
    {
        let m = self.jedec_manufacturer as u32;
        let d = self.jedec_device as u32;
        assert((m << 16u32) | d == m * 0x10000 + d) by (bit_vector)
            requires m < 256, d < 0x10000;
        (m << 16) | d
    }

    /// Check if this chip matches the given JEDEC ID
    pub fn matches_jedec_id(&self, manufacturer: u8, device: u16) -> (r: bool)
        ensures
            r == (self.jedec_manufacturer == manufacturer && self.jedec_device == device),
    {
        self.jedec_manufacturer == manufacturer && self.jedec_device == device
    }

    /// Check if this chip requires 4-byte addressing
    pub fn requires_4byte_addr(&self) -> (r: bool)
        ensures
            r == self.spec_requires_4byte_addr(),
    {
        self.total_size > 16 * 1024 * 1024
    }

    /// Get the smallest non-zero erase block size across all erase operations
    pub fn min_erase_size(&self) -> (r: Option<u32>)
        ensures
            r == (if min_positive_block(self.erase_blocks@) == 0 { None } else {
                Some(min_positive_block(self.erase_blocks@))
            }),
    {
        let mut best: u32 = 0;
        let mut i: usize = 0;
        while i < self.erase_blocks.len()
            invariant
                i <= self.erase_blocks@.len(),
                best == min_positive_block(self.erase_blocks@.take(i as int)),
            decreases self.erase_blocks@.len() - i,
        {
            assert(self.erase_blocks@.take(i as int + 1).drop_last() =~= self.erase_blocks@.take(i as int));
            let s = self.erase_blocks[i].min_block_size();
            if s > 0 && (best == 0 || s < best) {
                best = s;
            }
            i = i + 1;
        }
        assert(self.erase_blocks@.take(i as int) =~= self.erase_blocks@);
        if best == 0 { None } else { Some(best) }
    }

    /// Get the largest block size among erase operations smaller than the chip
    pub fn max_erase_size(&self) -> (r: Option<u32>)
        requires
            self.wf(),
        ensures
            r is None <==> forall|i: int| 0 <= i < self.erase_blocks@.len()
                ==> #[trigger] self.erase_blocks@[i].spec_total_size() >= self.total_size,
            r matches Some(m) ==> {
                &&& exists|i: int| 0 <= i < self.erase_blocks@.len()
                    && #[trigger] self.erase_blocks@[i].spec_total_size() < self.total_size
                    && self.erase_blocks@[i].spec_max_block_size() == m
                &&& forall|i: int| 0 <= i < self.erase_blocks@.len()
                    && #[trigger] self.erase_blocks@[i].spec_total_size() < self.total_size
                    ==> self.erase_blocks@[i].spec_max_block_size() <= m
            },
    {
        let mut best: Option<u32> = None;
        let mut i: usize = 0;
        while i < self.erase_blocks.len()
            invariant
                self.wf(),
                i <= self.erase_blocks@.len(),
                best is None <==> forall|k: int| 0 <= k < i
                    ==> #[trigger] self.erase_blocks@[k].spec_total_size() >= self.total_size,
                best matches Some(m) ==> {
                    &&& exists|k: int| 0 <= k < i
                        && #[trigger] self.erase_blocks@[k].spec_total_size() < self.total_size
                        && self.erase_blocks@[k].spec_max_block_size() == m
                    &&& forall|k: int| 0 <= k < i
                        && #[trigger] self.erase_blocks@[k].spec_total_size() < self.total_size
                        ==> self.erase_blocks@[k].spec_max_block_size() <= m
                },
            decreases self.erase_blocks@.len() - i,
        {
            assert(self.erase_blocks@[i as int].wf());
            let eb = &self.erase_blocks[i];
            if eb.total_size() < self.total_size {
                let s = eb.max_block_size();
                match best {
                    None => { best = Some(s); },
                    Some(m) => {
                        if s > m {
                            best = Some(s);
                        }
                    },
                }
            }
            i = i + 1;
        }
        best
    }

    /// Find an erase block that has a region of the given block size
    pub fn erase_block_for_size(&self, size: u32) -> (r: Option<&EraseBlock>)
        ensures
            r is None <==> forall|i: int| 0 <= i < self.erase_blocks@.len()
                ==> !block_has_size(#[trigger] self.erase_blocks@[i], size),
            r matches Some(eb) ==> exists|i: int| 0 <= i < self.erase_blocks@.len()
                && *eb == #[trigger] self.erase_blocks@[i] && block_has_size(*eb, size)
                && forall|k: int| 0 <= k < i ==> !block_has_size(#[trigger] self.erase_blocks@[k], size),
    {
        let mut i: usize = 0;
        while i < self.erase_blocks.len()
            invariant
                i <= self.erase_blocks@.len(),
                forall|k: int| 0 <= k < i ==> !block_has_size(#[trigger] self.erase_blocks@[k], size),
            decreases self.erase_blocks@.len() - i,
        {
            let eb = &self.erase_blocks[i];
            let mut j: usize = 0;
            while j < eb.regions.len()
                invariant
                    i < self.erase_blocks@.len(),
                    *eb == self.erase_blocks@[i as int],
                    forall|k: int| 0 <= k < i ==> !block_has_size(#[trigger] self.erase_blocks@[k], size),
                    j <= eb.regions@.len(),
                    forall|k: int| 0 <= k < j ==> #[trigger] eb.regions@[k].size != size,
                decreases eb.regions@.len() - j,
            {
                if eb.regions[j].size == size {
                    assert(eb.regions@[j as int].size == size);
                    assert(*eb == self.erase_blocks@[i as int]);
                    return Some(eb);
                }
                j = j + 1;
            }
            i = i + 1;
        }
        None
    }

    /// Check if an address and length are aligned to the smallest erase block
    pub fn is_erase_aligned(&self, addr: u32, len: u32) -> (r: bool)
        ensures
            r == ({
                let m = min_positive_block(self.erase_blocks@);
                m > 0 && addr % m == 0 && len % m == 0
            }),
    {
        match self.min_erase_size() {
            Some(m) => addr % m == 0 && len % m == 0,
            None => false,
        }
    }

    /// A copy of this chip with the same fields and erase blocks.
    pub fn duplicate(&self) -> (r: FlashChip)
        ensures
            same_chip(r, *self),
    {
        let mut blocks: Vec<EraseBlock> = Vec::new();
        let mut i: usize = 0;
        while i < self.erase_blocks.len()
            invariant
                i <= self.erase_blocks@.len(),
                blocks@.len() == i,
                forall|k: int| 0 <= k < i ==> same_block(#[trigger] blocks@[k], self.erase_blocks@[k]),
            decreases self.erase_blocks@.len() - i,
        {
            blocks.push(self.erase_blocks[i].duplicate());
            i = i + 1;
        }
        FlashChip {
            vendor: self.vendor.clone(),
            name: self.name.clone(),
            jedec_manufacturer: self.jedec_manufacturer,
            jedec_device: self.jedec_device,
            total_size: self.total_size,
            page_size: self.page_size,
            features: self.features,
            voltage_min_mv: self.voltage_min_mv,
            voltage_max_mv: self.voltage_max_mv,
            write_granularity: self.write_granularity,
            erase_blocks: blocks,
            tested: self.tested,
            qe_method: self.qe_method,
        }
    }

    /// Get vendor name as a string slice
    pub fn vendor(&self) -> (r: &str)
        ensures
            r@ == self.vendor@,
    {
        self.vendor.as_str()
    }

    /// Get chip name as a string slice
    pub fn name(&self) -> (r: &str)
        ensures
            r@ == self.name@,
    {
        self.name.as_str()
    }

    /// Get erase blocks as a slice
    pub fn erase_blocks(&self) -> (r: &[EraseBlock])
        ensures
            r@ == self.erase_blocks@,
    {
        self.erase_blocks.as_slice()
    }
}

} // verus!
