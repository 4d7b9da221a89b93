//! Optimal erase planning.
//!
//! Flash chips offer several erase block sizes (say 4 KiB, 32 KiB and
//! 64 KiB). Larger blocks mean fewer commands, so the planner builds a
//! hierarchy of erase levels, from the smallest block size to the largest,
//! in which each block of a level contains a run of blocks of the level
//! below. It selects the smallest blocks that need erasing and promotes a
//! block to the next level when more than half of it would be erased
//! anyway and the whole block lies inside the region. When the region is
//! the whole chip and more than half of it needs erasing, a chip erase is
//! used instead.
use vstd::prelude::*;
use crate::chip::types::{EraseBlock, WriteGranularity};
use super::operations::{need_erase, need_write, spec_need_erase, same_erase_block};

verus! {

/// Selected erase operation in the optimal erase plan
#[derive(Debug, Clone)]
pub struct OptimalEraseOp {
    /// Start address of the erase block
    pub start: u32,
    /// Size of the erase block
    pub size: u32,
    /// The erase block definition (opcode and size)
    pub erase_block: EraseBlock,
}

/// An erase block that can serve as a level of the hierarchy: one uniform
/// region of non-empty blocks smaller than the chip.
pub open spec fn is_level_candidate(eb: EraseBlock, flash_size: u32) -> bool {
    &&& eb.spec_is_uniform()
    &&& eb.spec_min_block_size() > 0
    &&& eb.spec_min_block_size() < flash_size
}

/// The erase levels chosen from `erase_blocks`: indices of candidates with
/// strictly ascending block sizes, one per distinct size (the first
/// candidate of that size), covering every candidate size.
pub open spec fn valid_levels(erase_blocks: Seq<EraseBlock>, flash_size: u32, levels: Seq<usize>) -> bool {
    &&& forall|i: int| 0 <= i < levels.len() ==> #[trigger] levels[i] < erase_blocks.len()
        && is_level_candidate(erase_blocks[levels[i] as int], flash_size)
    &&& forall|i: int, j: int| 0 <= i < j < levels.len()
        ==> #[trigger] erase_blocks[levels[i] as int].spec_min_block_size()
            < #[trigger] erase_blocks[levels[j] as int].spec_min_block_size()
    &&& forall|i: int, k: int| 0 <= i < levels.len() && 0 <= k < levels[i]
        && #[trigger] is_level_candidate(erase_blocks[k], flash_size)
        ==> erase_blocks[k].spec_min_block_size() != #[trigger] erase_blocks[levels[i] as int].spec_min_block_size()
    &&& forall|k: int| 0 <= k < erase_blocks.len() && #[trigger] is_level_candidate(erase_blocks[k], flash_size)
        ==> exists|i: int| 0 <= i < levels.len()
            && #[trigger] erase_blocks[levels[i] as int].spec_min_block_size() == erase_blocks[k].spec_min_block_size()
}

/// Choose the erase levels: candidates sorted by block size, keeping the
/// first of each size.
fn erase_levels(erase_blocks: &[EraseBlock], flash_size: u32) -> (levels: Vec<usize>)
    ensures
        valid_levels(erase_blocks@, flash_size, levels@),
{
    let n = erase_blocks.len();
    let mut levels: Vec<usize> = Vec::new();
    let mut last: u32 = 0;
    loop
        invariant
            n == erase_blocks@.len(),
            last < flash_size || (last == 0 && flash_size == 0),
            levels@.len() == 0 ==> last == 0,
            levels@.len() > 0 ==> last == erase_blocks@[levels@.last() as int].spec_min_block_size(),
            forall|i: int| 0 <= i < levels@.len() ==> #[trigger] levels@[i] < erase_blocks@.len()
                && is_level_candidate(erase_blocks@[levels@[i] as int], flash_size),
            forall|i: int, j: int| 0 <= i < j < levels@.len()
                ==> #[trigger] erase_blocks@[levels@[i] as int].spec_min_block_size()
                    < #[trigger] erase_blocks@[levels@[j] as int].spec_min_block_size(),
            forall|i: int| 0 <= i < levels@.len()
                ==> #[trigger] erase_blocks@[levels@[i] as int].spec_min_block_size() <= last,
            forall|i: int, k: int| 0 <= i < levels@.len() && 0 <= k < levels@[i]
                && #[trigger] is_level_candidate(erase_blocks@[k], flash_size)
                ==> erase_blocks@[k].spec_min_block_size() != #[trigger] erase_blocks@[levels@[i] as int].spec_min_block_size(),
            forall|k: int| 0 <= k < n && #[trigger] is_level_candidate(erase_blocks@[k], flash_size)
                && erase_blocks@[k].spec_min_block_size() <= last
                ==> exists|i: int| 0 <= i < levels@.len()
                    && #[trigger] erase_blocks@[levels@[i] as int].spec_min_block_size() == erase_blocks@[k].spec_min_block_size(),
        decreases flash_size - last,
    {
        let mut best: Option<usize> = None;
        let mut best_size: u32 = 0;
        let mut k: usize = 0;
        while k < n
            invariant
                n == erase_blocks@.len(),
                k <= n,
                best is None <==> forall|j: int| 0 <= j < k
                    ==> !(#[trigger] is_level_candidate(erase_blocks@[j], flash_size)
                        && erase_blocks@[j].spec_min_block_size() > last),
                best matches Some(b) ==> {
                    &&& b < k
                    &&& is_level_candidate(erase_blocks@[b as int], flash_size)
                    &&& best_size == erase_blocks@[b as int].spec_min_block_size()
                    &&& best_size > last
                    &&& forall|j: int| 0 <= j < k && #[trigger] is_level_candidate(erase_blocks@[j], flash_size)
                        && erase_blocks@[j].spec_min_block_size() > last
                        ==> best_size <= erase_blocks@[j].spec_min_block_size()
                    &&& forall|j: int| 0 <= j < b && #[trigger] is_level_candidate(erase_blocks@[j], flash_size)
                        && erase_blocks@[j].spec_min_block_size() > last
                        ==> best_size < erase_blocks@[j].spec_min_block_size()
                },
            decreases n - k,
        {
            let eb = &erase_blocks[k];
            let m = eb.min_block_size();
            let cand = eb.is_uniform() && m > 0 && m < flash_size;
            if cand && m > last {
                assert(is_level_candidate(erase_blocks@[k as int], flash_size));
                match best {
                    None => {
                        best = Some(k);
                        best_size = m;
                    },
                    Some(_) => {
                        if m < best_size {
                            best = Some(k);
                            best_size = m;
                        }
                    },
                }
            } else {
                assert(!(is_level_candidate(erase_blocks@[k as int], flash_size)
                    && erase_blocks@[k as int].spec_min_block_size() > last));
            }
            k = k + 1;
        }
        match best {
            None => {
                assert forall|k: int| 0 <= k < erase_blocks@.len()
                    && #[trigger] is_level_candidate(erase_blocks@[k], flash_size)
                    implies exists|i: int| 0 <= i < levels@.len()
                        && #[trigger] erase_blocks@[levels@[i] as int].spec_min_block_size()
                            == erase_blocks@[k].spec_min_block_size() by {
                    assert(!(erase_blocks@[k].spec_min_block_size() > last));
                }
                return levels;
            },
            Some(b) => {
                let ghost old_levels = levels@;
                levels.push(b);
                proof {
                    assert(levels@[levels@.len() - 1] == b);
                    assert forall|i: int| 0 <= i < levels@.len() implies #[trigger] levels@[i] < erase_blocks@.len()
                        && is_level_candidate(erase_blocks@[levels@[i] as int], flash_size) by {
                        if i < old_levels.len() { assert(levels@[i] == old_levels[i]); }
                    }
                    assert forall|i: int, j: int| 0 <= i < j < levels@.len()
                        implies #[trigger] erase_blocks@[levels@[i] as int].spec_min_block_size()
                            < #[trigger] erase_blocks@[levels@[j] as int].spec_min_block_size() by {
                        assert(levels@[i] == old_levels[i]);
                        if j < old_levels.len() { assert(levels@[j] == old_levels[j]); }
                    }
                    assert forall|i: int, k: int| 0 <= i < levels@.len() && 0 <= k < levels@[i]
                        && #[trigger] is_level_candidate(erase_blocks@[k], flash_size)
                        implies erase_blocks@[k].spec_min_block_size() != #[trigger] erase_blocks@[levels@[i] as int].spec_min_block_size() by {
                        if i < old_levels.len() {
                            assert(levels@[i] == old_levels[i]);
                        } else {
                            if erase_blocks@[k].spec_min_block_size() == best_size {
                                assert(best_size < erase_blocks@[k].spec_min_block_size());
                            }
                        }
                    }
                    assert forall|k: int| 0 <= k < n && #[trigger] is_level_candidate(erase_blocks@[k], flash_size)
                        && erase_blocks@[k].spec_min_block_size() <= best_size
                        implies exists|i: int| 0 <= i < levels@.len()
                            && #[trigger] erase_blocks@[levels@[i] as int].spec_min_block_size() == erase_blocks@[k].spec_min_block_size() by {
                        if erase_blocks@[k].spec_min_block_size() <= last {
                            let i = choose|i: int| 0 <= i < old_levels.len()
                                && #[trigger] erase_blocks@[old_levels[i] as int].spec_min_block_size() == erase_blocks@[k].spec_min_block_size();
                            assert(levels@[i] == old_levels[i]);
                        } else {
                            assert(erase_blocks@[levels@[old_levels.len() as int] as int].spec_min_block_size() == best_size);
                        }
                    }
                }
                last = best_size;
            },
        }
    }
}


/// Where the compared buffers start in flash: at `region_start` when the
/// current contents are shorter than `region_end + 1` bytes (a buffer of
/// the region only), else at 0 (a buffer of the whole chip).
pub open spec fn spec_buffer_offset(have: Option<&[u8]>, region_start: u32, region_end: u32) -> u32 {
    match have {
        Some(h) => if h@.len() < region_end + 1 { region_start } else { 0 },
        None => 0,
    }
}

/// Whether the erase block spanning `start..=end` has to be erased: it
/// overlaps the region, and either no contents were given (an explicit
/// erase) or the part of it inside the region lies in the buffers and
/// holds a byte that differs and cannot be programmed without an erase.
pub open spec fn block_needs_erase(
    have: Option<&[u8]>,
    want: Option<&[u8]>,
    region_start: u32,
    region_end: u32,
    granularity: WriteGranularity,
    start: int,
    end: int,
) -> bool {
    &&& !(start > region_end || end < region_start)
    &&& match (have, want) {
        (Some(h), Some(w)) => {
            let off = spec_buffer_offset(have, region_start, region_end) as int;
            let os = if start > region_start { start } else { region_start as int };
            let oe = if end < region_end { end } else { region_end as int };
            let bs = os - off;
            let be = oe - off + 1;
            &&& be <= h@.len()
            &&& bs < be
            &&& h@.subrange(bs, be) != w@.subrange(bs, be)
            &&& spec_need_erase(h@.subrange(bs, be), w@.subrange(bs, be), granularity)
        },
        _ => true,
    }
}

/// The fixed inputs of one planning run and the block hierarchy: level `l`
/// has `counts[l]` blocks of `sizes[l]` bytes, and its blocks occupy the
/// selection vector from `offsets[l]` on.
struct Planner<'a> {
    sizes: Vec<u32>,
    counts: Vec<usize>,
    offsets: Vec<usize>,
    flash_size: u32,
    have: Option<&'a [u8]>,
    want: Option<&'a [u8]>,
    region_start: u32,
    region_end: u32,
    granularity: WriteGranularity,
    buffer_offset: u32,
}

impl<'a> Planner<'a> {
    spec fn levels(self) -> int {
        self.sizes@.len() as int
    }

    spec fn sz(self, l: int) -> int {
        self.sizes@[l] as int
    }

    spec fn cnt(self, l: int) -> int {
        self.counts@[l] as int
    }

    spec fn idx(self, l: int, b: int) -> int {
        self.offsets@[l] + b
    }

    spec fn total(self) -> int {
        self.offsets@[self.levels()] as int
    }

    spec fn valid(self, l: int, b: int) -> bool {
        0 <= l < self.levels() && 0 <= b < self.cnt(l)
    }

    spec fn bstart(self, l: int, b: int) -> int {
        b * self.sz(l)
    }

    spec fn bend(self, l: int, b: int) -> int {
        b * self.sz(l) + self.sz(l) - 1
    }

    /// First block of level `l - 1` inside block `b` of level `l`.
    spec fn first_sub(self, l: int, b: int) -> int {
        (b * self.sz(l)) / self.sz(l - 1)
    }

    /// Last block of level `l - 1` inside block `b` of level `l`.
    spec fn last_sub(self, l: int, b: int) -> int {
        ((b + 1) * self.sz(l)) / self.sz(l - 1) - 1
    }

    spec fn overlaps(self, l: int, b: int) -> bool {
        !(self.bstart(l, b) > self.region_end || self.bend(l, b) < self.region_start)
    }

    spec fn within(self, l: int, b: int) -> bool {
        self.bstart(l, b) >= self.region_start && self.bend(l, b) <= self.region_end
    }

    /// A selected block is acceptable: it overlaps the region, and a block
    /// above the smallest level lies inside it.
    spec fn ok(self, l: int, b: int) -> bool {
        self.overlaps(l, b) && (l > 0 ==> self.within(l, b))
    }

    spec fn inv(self, sel: Seq<bool>) -> bool {
        &&& sel.len() == self.total()
        &&& forall|l: int, b: int| self.valid(l, b) && #[trigger] sel[self.idx(l, b)] ==> self.ok(l, b)
    }

    /// Lowest block of level `m` below block `b` of level `l`.
    spec fn lo(self, l: int, b: int, m: int) -> int
        decreases l - m,
    {
        if m >= l - 1 || m < 0 {
            self.first_sub(l, b)
        } else {
            self.lo(l - 1, self.first_sub(l, b), m)
        }
    }

    /// Highest block of level `m` below block `b` of level `l`.
    spec fn hi(self, l: int, b: int, m: int) -> int
        decreases l - m,
    {
        if m >= l - 1 || m < 0 {
            self.last_sub(l, b)
        } else {
            self.hi(l - 1, self.last_sub(l, b), m)
        }
    }

    /// Block `k` of level `m` is block `b` of level `l` or lies below it.
    spec fn in_sub(self, l: int, b: int, m: int, k: int) -> bool {
        (m == l && k == b) || (0 <= m < l && self.lo(l, b, m) <= k <= self.hi(l, b, m))
    }

    /// Only blocks in the subtree of block `b` of level `l` differ.
    spec fn frame(self, s1: Seq<bool>, s2: Seq<bool>, l: int, b: int) -> bool {
        &&& s1.len() == s2.len()
        &&& forall|m: int, k: int| self.valid(m, k) && !self.in_sub(l, b, m, k)
            ==> #[trigger] s2[self.idx(m, k)] == s1[self.idx(m, k)]
    }

    spec fn wf(self) -> bool {
        &&& self.levels() >= 1
        &&& self.counts@.len() == self.levels()
        &&& self.offsets@.len() == self.levels() + 1
        &&& self.offsets@[0] == 0
        &&& forall|l: int| 0 <= l < self.levels() ==> {
            &&& 0 < #[trigger] self.sz(l) < self.flash_size
            &&& self.cnt(l) == self.flash_size as int / self.sz(l)
            &&& self.offsets@[l + 1] == self.offsets@[l] + self.cnt(l)
        }
        &&& forall|l: int, m: int| 0 <= l < m < self.levels() ==> #[trigger] self.sz(l) < #[trigger] self.sz(m)
        &&& forall|l: int, m: int| 0 <= l <= m <= self.levels()
            ==> #[trigger] self.offsets@[l] <= #[trigger] self.offsets@[m]
        &&& self.buffer_offset == spec_buffer_offset(self.have, self.region_start, self.region_end)
        &&& (self.have is Some && self.want is Some) ==> self.want->0@.len() >= self.have->0@.len()
            && self.region_start <= self.region_end
    }

    proof fn lemma_idx_injective(self, l: int, b: int, m: int, k: int)
        requires
            self.wf(),
            self.valid(l, b),
            self.valid(m, k),
            l != m || b != k,
        ensures
            self.idx(l, b) != self.idx(m, k),
    {
        assert(self.sz(l) > 0 && self.sz(m) > 0);
        if l < m {
            assert(self.offsets@[l + 1] <= self.offsets@[m]);
        } else if m < l {
            assert(self.offsets@[m + 1] <= self.offsets@[l]);
        }
    }

    proof fn lemma_sub_mono(self, l: int, x: int, y: int)
        requires
            self.wf(),
            0 < l < self.levels(),
            0 <= x <= y,
        ensures
            0 <= self.first_sub(l, x) <= self.first_sub(l, y),
            self.last_sub(l, x) <= self.last_sub(l, y),
            self.last_sub(l, x) < self.first_sub(l, x + 1),
            self.last_sub(l, x) >= 0,
            self.first_sub(l, x) <= self.last_sub(l, x),
    {
        let s = self.sz(l);
        let t = self.sz(l - 1);
        assert(0 < t < s);
        assert(x * s <= y * s) by (nonlinear_arith) requires x <= y, s > 0;
        assert((x + 1) * s <= (y + 1) * s) by (nonlinear_arith) requires x <= y, s > 0;
        assert(x * s >= 0) by (nonlinear_arith) requires x >= 0, s > 0;
        assert((x + 1) * s >= s) by (nonlinear_arith) requires x >= 0, s > 0;
        vstd::arithmetic::div_mod::lemma_div_is_ordered(x * s, y * s, t);
        vstd::arithmetic::div_mod::lemma_div_is_ordered((x + 1) * s, (y + 1) * s, t);
        vstd::arithmetic::div_mod::lemma_div_pos_is_pos(x * s, t);
        vstd::arithmetic::div_mod::lemma_div_is_ordered(t, (x + 1) * s, t);
        vstd::arithmetic::div_mod::lemma_div_basics(t);
        assert(x * s + t <= (x + 1) * s) by (nonlinear_arith) requires t < s;
        vstd::arithmetic::div_mod::lemma_div_plus_one(x * s, t);
        vstd::arithmetic::div_mod::lemma_div_is_ordered(x * s + t, (x + 1) * s, t);
    }

    proof fn lemma_lo_hi_mono(self, l: int, x: int, y: int, m: int)
        requires
            self.wf(),
            0 <= m < l < self.levels(),
            0 <= x <= y,
        ensures
            self.lo(l, x, m) <= self.lo(l, y, m),
            self.hi(l, x, m) <= self.hi(l, y, m),
        decreases l - m,
    {
        self.lemma_sub_mono(l, x, y);
        if m < l - 1 {
            self.lemma_lo_hi_mono(l - 1, self.first_sub(l, x), self.first_sub(l, y), m);
            self.lemma_lo_hi_mono(l - 1, self.last_sub(l, x), self.last_sub(l, y), m);
        }
    }

    /// The blocks below a block of level `l - 1` that lies inside block `b`
    /// of level `l` also lie below block `b`.
    proof fn lemma_child_sub(self, l: int, b: int, k: int, m: int, j: int)
        requires
            self.wf(),
            0 < l < self.levels(),
            0 <= b,
            self.first_sub(l, b) <= k <= self.last_sub(l, b),
            self.in_sub(l - 1, k, m, j),
        ensures
            self.in_sub(l, b, m, j),
    {
        self.lemma_sub_mono(l, b, b);
        if m < l - 1 {
            self.lemma_lo_hi_mono(l - 1, self.first_sub(l, b), k, m);
            self.lemma_lo_hi_mono(l - 1, k, self.last_sub(l, b), m);
        }
    }

    /// Distinct blocks of one level have disjoint subtrees.
    proof fn lemma_disjoint(self, l: int, x: int, y: int, m: int)
        requires
            self.wf(),
            0 <= m < l < self.levels(),
            0 <= x < y,
        ensures
            self.hi(l, x, m) < self.lo(l, y, m),
        decreases l - m,
    {
        self.lemma_sub_mono(l, x, y);
        self.lemma_sub_mono(l, x + 1, y);
        if m < l - 1 {
            self.lemma_disjoint(l - 1, self.last_sub(l, x), self.first_sub(l, y), m);
        }
    }

    /// Smallest block `b` has to be erased (see `block_needs_erase`).
    spec fn leaf_needs(self, b: int) -> bool {
        block_needs_erase(self.have, self.want, self.region_start, self.region_end, self.granularity,
            self.bstart(0, b), self.bend(0, b))
    }

    proof fn lemma_block_bounds(self, l: int, b: int)
        requires
            self.wf(),
            self.valid(l, b),
        ensures
            self.bstart(l, b) >= 0,
            self.bend(l, b) + 1 <= self.flash_size,
            self.idx(l, b) < self.total(),
            l > 0 ==> 0 <= self.first_sub(l, b) <= self.last_sub(l, b) < self.cnt(l - 1),
    {
        let s = self.sz(l);
        let f = self.flash_size as int;
        let c = self.cnt(l);
        assert(self.sz(l) > 0);
        assert(b + 1 <= c);
        assert((b + 1) * s <= c * s) by (nonlinear_arith)
            requires b + 1 <= c, s > 0;
        assert(c * s <= f) by {
            vstd::arithmetic::div_mod::lemma_fundamental_div_mod(f, s);
            vstd::arithmetic::div_mod::lemma_mod_pos_bound(f, s);
        }
        assert(b * s >= 0) by (nonlinear_arith)
            requires b >= 0, s > 0;
        assert((b + 1) * s == b * s + s) by (nonlinear_arith);
        assert(self.offsets@[l + 1] <= self.offsets@[self.levels()]);
        if l > 0 {
            let t = self.sz(l - 1);
            assert(0 < t < s);
            assert(b * s + t <= (b + 1) * s);
            vstd::arithmetic::div_mod::lemma_div_plus_one(b * s, t);
            vstd::arithmetic::div_mod::lemma_div_is_ordered(b * s + t, (b + 1) * s, t);
            vstd::arithmetic::div_mod::lemma_div_is_ordered((b + 1) * s, f, t);
            vstd::arithmetic::div_mod::lemma_div_pos_is_pos(b * s, t);
            assert(self.cnt(l - 1) == f / t);
        }
    }

    /// Whether smallest block `b` (spanning `start..=end`) has to be erased.
    fn leaf_needs_erase(&self, b: usize, start: u32, end: u32) -> (r: bool)
        requires
            self.wf(),
            self.valid(0, b as int),
            start == self.bstart(0, b as int),
            end == self.bend(0, b as int),
            self.overlaps(0, b as int),
        ensures
            r == self.leaf_needs(b as int),
    {
        proof { self.lemma_block_bounds(0, b as int); }
        match (self.have, self.want) {
            (Some(have), Some(want)) => {
                let os = if start > self.region_start { start } else { self.region_start };
                let oe = if end < self.region_end { end } else { self.region_end };
                let bs = (os - self.buffer_offset) as usize;
                let be = (oe - self.buffer_offset) as usize + 1;
                if be <= have.len() && bs < be {
                    let h = vstd::slice::slice_subrange(have, bs, be);
                    let w = vstd::slice::slice_subrange(want, bs, be);
                    need_write(h, w) && need_erase(h, w, self.granularity)
                } else {
                    false
                }
            },
            _ => true,
        }
    }

    /// Each block size divides the next larger one.
    spec fn divisible(self) -> bool {
        forall|l: int| 0 < l < self.levels() ==> #[trigger] self.sz(l) % self.sz(l - 1) == 0
    }

    /// First smallest block below block `b` of level `l`.
    spec fn leaf_lo(self, l: int, b: int) -> int
        decreases l,
    {
        if l <= 0 { b } else { self.leaf_lo(l - 1, self.first_sub(l, b)) }
    }

    /// Last smallest block below block `b` of level `l`.
    spec fn leaf_hi(self, l: int, b: int) -> int
        decreases l,
    {
        if l <= 0 { b } else { self.leaf_hi(l - 1, self.last_sub(l, b)) }
    }

    /// Smallest block `k` overlaps the region and has to be erased.
    spec fn needed(self, k: int) -> bool {
        self.leaf_needs(k)
    }

    /// Block `i` of level `m` is selected and smallest block `k` lies below it.
    spec fn witness(self, sel: Seq<bool>, m: int, i: int, k: int) -> bool {
        self.valid(m, i) && sel[self.idx(m, i)] && self.leaf_lo(m, i) <= k <= self.leaf_hi(m, i)
    }

    /// Block `i` of level `m` comes before the subtree of block `x` of level `l`.
    spec fn precedes(self, l: int, x: int, m: int, i: int) -> bool {
        (m == l && i < x) || (0 <= m < l && i < self.lo(l, x, m))
    }

    /// Every smallest block below block `b` of level `l` that has to be
    /// erased lies below a selected block of the subtree of `b`.
    spec fn covers(self, sel: Seq<bool>, l: int, b: int) -> bool {
        forall|k: int| self.leaf_lo(l, b) <= k <= self.leaf_hi(l, b) && #[trigger] self.needed(k)
            ==> exists|m: int, i: int| #[trigger] self.witness(sel, m, i, k) && self.in_sub(l, b, m, i)
    }

    /// How many of the smallest blocks `lo..hi` have to be erased.
    spec fn nneed(self, lo: int, hi: int) -> int {
        count_needed_blocks(self.have, self.want, self.region_start, self.region_end, self.granularity,
            self.sz(0), lo, hi)
    }

    /// Some smallest block below block `b` of level `l` has to be erased.
    spec fn has_need(self, l: int, b: int) -> bool {
        exists|k: int| self.leaf_lo(l, b) <= k <= self.leaf_hi(l, b) && #[trigger] self.leaf_needs(k)
    }

    /// Block `b` of level `l` may stand in the plan in place of smaller
    /// blocks: above the smallest level it holds a smallest block that has
    /// to be erased, and on the next level up more than half of its bytes
    /// lie in such blocks.
    spec fn justified(self, l: int, b: int) -> bool {
        l > 0 ==> self.has_need(l, b) && (l == 1 ==> 2 * self.sz(0) * self.nneed(self.first_sub(1, b),
            self.last_sub(1, b) + 1) > self.sz(1))
    }

    /// Every selected block is justified.
    spec fn prom(self, sel: Seq<bool>) -> bool {
        forall|l: int, b: int| self.valid(l, b) && #[trigger] sel[self.idx(l, b)] ==> self.justified(l, b)
    }

    /// The leaves of consecutive blocks of a level are consecutive.
    proof fn lemma_leaf_contig(self, l: int, x: int)
        requires
            self.wf(),
            0 <= l < self.levels(),
            0 <= x,
        ensures
            self.leaf_hi(l, x) + 1 == self.leaf_lo(l, x + 1),
            self.leaf_lo(l, x) <= self.leaf_hi(l, x),
        decreases l,
    {
        if l > 0 {
            self.lemma_sub_mono(l, x, x);
            self.lemma_leaf_contig(l - 1, self.last_sub(l, x));
            assert(self.first_sub(l, x + 1) == self.last_sub(l, x) + 1);
            self.lemma_leaf_mono(l - 1, self.first_sub(l, x), self.last_sub(l, x));
        }
    }

    proof fn lemma_leaf_mono(self, l: int, x: int, y: int)
        requires
            self.wf(),
            0 <= l < self.levels(),
            0 <= x <= y,
        ensures
            self.leaf_lo(l, x) <= self.leaf_lo(l, y),
            self.leaf_hi(l, x) <= self.leaf_hi(l, y),
            self.leaf_lo(l, x) <= self.leaf_hi(l, y),
        decreases l,
    {
        if l > 0 {
            self.lemma_sub_mono(l, x, y);
            self.lemma_sub_mono(l, y, y);
            self.lemma_leaf_mono(l - 1, self.first_sub(l, x), self.first_sub(l, y));
            self.lemma_leaf_mono(l - 1, self.last_sub(l, x), self.last_sub(l, y));
            self.lemma_leaf_mono(l - 1, self.first_sub(l, x), self.last_sub(l, y));
        }
    }

    /// With divisible sizes, the smallest blocks below a block tile it.
    proof fn lemma_leaf_exact(self, l: int, b: int)
        requires
            self.wf(),
            self.divisible(),
            0 <= l < self.levels(),
            0 <= b,
        ensures
            self.leaf_lo(l, b) * self.sz(0) == b * self.sz(l),
            (self.leaf_hi(l, b) + 1) * self.sz(0) == (b + 1) * self.sz(l),
        decreases l,
    {
        if l > 0 {
            let s = self.sz(l);
            let t = self.sz(l - 1);
            assert(0 < t < s);
            assert(s % t == 0);
            let q = s / t;
            vstd::arithmetic::div_mod::lemma_fundamental_div_mod(s, t);
            assert(s == t * q);
            assert(b * s == (b * q) * t) by (nonlinear_arith) requires s == t * q;
            assert((b + 1) * s == ((b + 1) * q) * t) by (nonlinear_arith) requires s == t * q;
            assert(b * q >= 0) by (nonlinear_arith) requires b >= 0, s == t * q, t > 0, s > 0;
            vstd::arithmetic::div_mod::lemma_div_by_multiple(b * q, t);
            vstd::arithmetic::div_mod::lemma_div_by_multiple((b + 1) * q, t);
            assert(self.first_sub(l, b) == b * q);
            assert(self.last_sub(l, b) + 1 == (b + 1) * q);
            assert((b + 1) * q >= 1) by (nonlinear_arith) requires b >= 0, s == t * q, t > 0, s > t;
            self.lemma_leaf_exact(l - 1, b * q);
            self.lemma_leaf_exact(l - 1, (b + 1) * q - 1);
            assert((b * q) * t == b * q * t) by (nonlinear_arith);
        }
    }

    /// With divisible sizes, the smallest blocks below a block lie inside
    /// it by address.
    proof fn lemma_leaf_in_block(self, l: int, b: int, k: int)
        requires
            self.wf(),
            self.divisible(),
            0 <= l < self.levels(),
            0 <= b,
            self.leaf_lo(l, b) <= k <= self.leaf_hi(l, b),
        ensures
            self.bstart(l, b) <= self.bstart(0, k),
            self.bend(0, k) <= self.bend(l, b),
    {
        self.lemma_leaf_exact(l, b);
        let s0 = self.sz(0);
        assert(s0 > 0);
        assert(self.leaf_lo(l, b) * s0 <= k * s0) by (nonlinear_arith)
            requires self.leaf_lo(l, b) <= k, s0 > 0;
        assert((k + 1) * s0 <= (self.leaf_hi(l, b) + 1) * s0) by (nonlinear_arith)
            requires k <= self.leaf_hi(l, b), s0 > 0;
        assert((k + 1) * s0 == k * s0 + s0) by (nonlinear_arith);
        assert((b + 1) * self.sz(l) == b * self.sz(l) + self.sz(l)) by (nonlinear_arith);
    }

    proof fn lemma_leaf_lo_zero(self, l: int)
        requires
            self.wf(),
            0 <= l < self.levels(),
        ensures
            self.leaf_lo(l, 0) == 0,
        decreases l,
    {
        if l > 0 {
            assert(0 * self.sz(l) == 0);
            vstd::arithmetic::div_mod::lemma_div_basics(self.sz(l - 1));
            self.lemma_leaf_lo_zero(l - 1);
        }
    }

    /// The level-`m` blocks below consecutive blocks of level `l` are
    /// consecutive.
    proof fn lemma_lohi_contig(self, l: int, x: int, m: int)
        requires
            self.wf(),
            0 <= m < l < self.levels(),
            0 <= x,
        ensures
            self.hi(l, x, m) + 1 == self.lo(l, x + 1, m),
            self.lo(l, x, m) <= self.hi(l, x, m),
            self.lo(l, x, m) >= 0,
        decreases l - m,
    {
        self.lemma_sub_mono(l, x, x);
        assert(self.first_sub(l, x + 1) == self.last_sub(l, x) + 1);
        if m < l - 1 {
            self.lemma_lohi_contig(l - 1, self.last_sub(l, x), m);
            self.lemma_lohi_contig(l - 1, self.first_sub(l, x), m);
            self.lemma_lo_hi_mono(l - 1, self.first_sub(l, x), self.last_sub(l, x), m);
        }
    }

    /// A child of block `b` of level `l`, from `k` on, whose subtree holds
    /// block `i` of level `m`.
    proof fn lemma_find_child_from(self, l: int, b: int, m: int, i: int, k: int) -> (c: int)
        requires
            self.wf(),
            0 < l < self.levels(),
            0 <= b,
            0 <= m < l,
            self.first_sub(l, b) <= k <= self.last_sub(l, b),
            m == l - 1 ==> k <= i <= self.last_sub(l, b),
            m < l - 1 ==> self.lo(l - 1, k, m) <= i <= self.hi(l - 1, self.last_sub(l, b), m),
        ensures
            k <= c <= self.last_sub(l, b),
            self.in_sub(l - 1, c, m, i),
        decreases self.last_sub(l, b) - k,
    {
        self.lemma_sub_mono(l, b, b);
        if m == l - 1 {
            i
        } else {
            self.lemma_lohi_contig(l - 1, k, m);
            if i <= self.hi(l - 1, k, m) {
                k
            } else {
                if k == self.last_sub(l, b) {
                    assert(false);
                }
                self.lemma_find_child_from(l, b, m, i, k + 1)
            }
        }
    }

    /// A child of block `b` of level `l` whose subtree holds block `i` of a
    /// lower level `m` below `b`.
    proof fn lemma_find_child(self, l: int, b: int, m: int, i: int) -> (c: int)
        requires
            self.wf(),
            0 < l < self.levels(),
            0 <= b,
            0 <= m < l,
            self.in_sub(l, b, m, i),
        ensures
            self.first_sub(l, b) <= c <= self.last_sub(l, b),
            self.in_sub(l - 1, c, m, i),
    {
        self.lemma_sub_mono(l, b, b);
        self.lemma_find_child_from(l, b, m, i, self.first_sub(l, b))
    }

    /// The smallest blocks below a block of a subtree lie below its root.
    proof fn lemma_sub_leaves(self, l: int, b: int, m: int, i: int)
        requires
            self.wf(),
            0 <= m <= l < self.levels(),
            0 <= b,
            self.in_sub(l, b, m, i),
        ensures
            self.leaf_lo(l, b) <= self.leaf_lo(m, i),
            self.leaf_hi(m, i) <= self.leaf_hi(l, b),
            0 <= i,
        decreases l - m,
    {
        if m < l {
            let c = self.lemma_find_child(l, b, m, i);
            self.lemma_sub_mono(l, b, b);
            self.lemma_sub_leaves(l - 1, c, m, i);
            self.lemma_leaf_mono(l - 1, self.first_sub(l, b), c);
            self.lemma_leaf_mono(l - 1, c, self.last_sub(l, b));
        }
    }

    /// After the selection below block `c` of the top level, every leaf up
    /// to the end of `c` that has to be erased has a selected block above
    /// it, before the subtree of block `c + 1`.
    proof fn lemma_after_top(self, before: Seq<bool>, after: Seq<bool>, c: int)
        requires
            self.wf(),
            self.valid(self.levels() - 1, c),
            before.len() == self.total(),
            self.frame(before, after, self.levels() - 1, c),
            self.divisible() ==> forall|k: int| 0 <= k < self.leaf_lo(self.levels() - 1, c)
                && #[trigger] self.needed(k) ==> exists|m: int, i: int| #[trigger] self.witness(before, m, i, k)
                    && self.precedes(self.levels() - 1, c, m, i)
                    && exists|cc: int| 0 <= cc < c && #[trigger] self.in_sub(self.levels() - 1, cc, m, i),
            self.divisible() ==> self.covers(after, self.levels() - 1, c),
        ensures
            self.divisible() ==> forall|k: int| 0 <= k < self.leaf_lo(self.levels() - 1, c + 1)
                && #[trigger] self.needed(k) ==> exists|m: int, i: int| #[trigger] self.witness(after, m, i, k)
                    && self.precedes(self.levels() - 1, c + 1, m, i)
                    && exists|cc: int| 0 <= cc < c + 1 && #[trigger] self.in_sub(self.levels() - 1, cc, m, i),
    {
        let t = self.levels() - 1;
        if self.divisible() {
            self.lemma_leaf_contig(t, c);
            assert forall|k: int| 0 <= k < self.leaf_lo(t, c + 1) && #[trigger] self.needed(k)
                implies exists|m: int, i: int| #[trigger] self.witness(after, m, i, k)
                    && self.precedes(t, c + 1, m, i) && exists|cc: int| 0 <= cc < c + 1 && #[trigger] self.in_sub(t, cc, m, i) by {
                if k < self.leaf_lo(t, c) {
                    let (m, i) = choose|m: int, i: int| #[trigger] self.witness(before, m, i, k)
                        && self.precedes(t, c, m, i) && exists|cc: int| 0 <= cc < c && #[trigger] self.in_sub(t, cc, m, i);
                    let cc = choose|cc: int| 0 <= cc < c && #[trigger] self.in_sub(t, cc, m, i);
                    if m < t {
                        self.lemma_lo_hi_mono(t, c, c + 1, m);
                    }
                    assert(!self.in_sub(t, c, m, i));
                    assert(after[self.idx(m, i)] == before[self.idx(m, i)]);
                    assert(self.witness(after, m, i, k));
                } else {
                    let (m, i) = choose|m: int, i: int| #[trigger] self.witness(after, m, i, k)
                        && self.in_sub(t, c, m, i);
                    if m < t {
                        self.lemma_disjoint(t, c, c + 1, m);
                    }
                    assert(self.witness(after, m, i, k));
                    assert(self.in_sub(t, c, m, i));
                }
            }
        }
    }

    /// After the selection below child `c` of block `b` of level `l`, the
    /// changes stay inside the subtree of `b`, and every leaf up to the end
    /// of child `c` that has to be erased has a selected block above it,
    /// before the subtree of child `c + 1`.
    proof fn lemma_after_child(self, old_sel: Seq<bool>, before: Seq<bool>, after: Seq<bool>, l: int, b: int, c: int)
        requires
            self.wf(),
            self.valid(l, b),
            l > 0,
            self.first_sub(l, b) <= c <= self.last_sub(l, b),
            before.len() == self.total(),
            self.frame(old_sel, before, l, b),
            self.frame(before, after, l - 1, c),
            self.divisible() ==> forall|k: int| self.leaf_lo(l, b) <= k < self.leaf_lo(l - 1, c)
                && #[trigger] self.needed(k) ==> exists|m: int, i: int| #[trigger] self.witness(before, m, i, k)
                    && self.in_sub(l, b, m, i) && self.precedes(l - 1, c, m, i),
            self.divisible() ==> self.covers(after, l - 1, c),
        ensures
            self.frame(old_sel, after, l, b),
            self.divisible() ==> forall|k: int| self.leaf_lo(l, b) <= k < self.leaf_lo(l - 1, c + 1)
                && #[trigger] self.needed(k) ==> exists|m: int, i: int| #[trigger] self.witness(after, m, i, k)
                    && self.in_sub(l, b, m, i) && self.precedes(l - 1, c + 1, m, i),
    {
        self.lemma_block_bounds(l, b);
        assert forall|m: int, j: int| self.valid(m, j) && !self.in_sub(l, b, m, j)
            implies #[trigger] after[self.idx(m, j)] == old_sel[self.idx(m, j)] by {
            if self.in_sub(l - 1, c, m, j) {
                self.lemma_child_sub(l, b, c, m, j);
            }
            assert(after[self.idx(m, j)] == before[self.idx(m, j)]);
        }
        if self.divisible() {
            self.lemma_leaf_contig(l - 1, c);
            assert forall|k: int| self.leaf_lo(l, b) <= k < self.leaf_lo(l - 1, c + 1) && #[trigger] self.needed(k)
                implies exists|m: int, i: int| #[trigger] self.witness(after, m, i, k)
                    && self.in_sub(l, b, m, i) && self.precedes(l - 1, c + 1, m, i) by {
                if k < self.leaf_lo(l - 1, c) {
                    let (m, i) = choose|m: int, i: int| #[trigger] self.witness(before, m, i, k)
                        && self.in_sub(l, b, m, i) && self.precedes(l - 1, c, m, i);
                    if m < l - 1 {
                        self.lemma_lo_hi_mono(l - 1, c, c + 1, m);
                    }
                    assert(!self.in_sub(l - 1, c, m, i));
                    assert(after[self.idx(m, i)] == before[self.idx(m, i)]);
                    assert(self.witness(after, m, i, k));
                } else {
                    let (m, i) = choose|m: int, i: int| #[trigger] self.witness(after, m, i, k)
                        && self.in_sub(l - 1, c, m, i);
                    self.lemma_child_sub(l, b, c, m, i);
                    if m < l - 1 {
                        self.lemma_disjoint(l - 1, c, c + 1, m);
                    }
                    assert(self.witness(after, m, i, k));
                }
            }
        }
    }

    /// A smallest block to erase below a child of block `b` of level `l`
    /// lies below `b`.
    proof fn lemma_child_need(self, l: int, b: int, k: int)
        requires
            self.wf(),
            0 < l < self.levels(),
            0 <= b,
            self.first_sub(l, b) <= k <= self.last_sub(l, b),
            self.has_need(l - 1, k),
        ensures
            self.has_need(l, b),
    {
        self.lemma_sub_mono(l, b, b);
        let kk = choose|kk: int| self.leaf_lo(l - 1, k) <= kk <= self.leaf_hi(l - 1, k) && #[trigger] self.leaf_needs(kk);
        self.lemma_leaf_mono(l - 1, self.first_sub(l, b), k);
        self.lemma_leaf_mono(l - 1, k, self.last_sub(l, b));
        assert(self.leaf_lo(l, b) == self.leaf_lo(l - 1, self.first_sub(l, b)));
        assert(self.leaf_hi(l, b) == self.leaf_hi(l - 1, self.last_sub(l, b)));
        assert(self.leaf_needs(kk));
    }

    /// Adding what smallest block `k` contributed keeps the bytes counted
    /// within the smallest blocks to erase from `first` through `k`.
    proof fn lemma_count_step(self, first: int, k: int, ob: int, r: int, nb: int)
        requires
            self.wf(),
            0 <= first <= k,
            ob <= self.sz(0) * self.nneed(first, k),
            r <= (if self.leaf_needs(k) { self.sz(0) } else { 0 }),
            nb <= ob + r,
        ensures
            nb <= self.sz(0) * self.nneed(first, k + 1),
    {
        let n = self.nneed(first, k);
        let s0 = self.sz(0);
        assert(self.nneed(first, k + 1) == n + if self.leaf_needs(k) { 1int } else { 0int });
        assert(s0 * (n + 1) == s0 * n + s0) by (nonlinear_arith);
    }

    /// Select the blocks of the subtree of block `b` of level `l` that have
    /// to be erased, promoting to a larger block when more than half of it
    /// would be erased and it lies inside the region. Returns the number of
    /// bytes selected.
    fn select(&self, sel: &mut Vec<bool>, l: usize, b: usize) -> (r: u64)
        requires
            self.wf(),
            self.valid(l as int, b as int),
            self.inv(old(sel)@),
            self.prom(old(sel)@),
        ensures
            self.inv(final(sel)@),
            self.prom(final(sel)@),
            r > 0 ==> self.has_need(l as int, b as int),
            l == 0 ==> r <= (if self.leaf_needs(b as int) { self.sz(0) } else { 0 }),
            self.frame(old(sel)@, final(sel)@, l as int, b as int),
            self.divisible() ==> self.covers(final(sel)@, l as int, b as int),
        decreases l,
    {
        proof { self.lemma_block_bounds(l as int, b as int); }
        let ghost old_sel = sel@;
        let size = self.sizes[l] as u64;
        let start = b as u64 * size;
        let end = start + size - 1;
        if start > self.region_end as u64 || end < self.region_start as u64 {
            proof {
                if self.divisible() {
                    assert forall|k: int| self.leaf_lo(l as int, b as int) <= k <= self.leaf_hi(l as int, b as int)
                        implies !#[trigger] self.needed(k) by {
                        self.lemma_leaf_in_block(l as int, b as int, k);
                    }
                }
            }
            return 0;
        }
        let i = self.offsets[l] + b;
        if l == 0 {
            if self.leaf_needs_erase(b, start as u32, end as u32) {
                sel.set(i, true);
                assert forall|m: int, k: int| self.valid(m, k) && !self.in_sub(l as int, b as int, m, k)
                    implies #[trigger] sel@[self.idx(m, k)] == old_sel[self.idx(m, k)] by {
                    self.lemma_idx_injective(l as int, b as int, m, k);
                    self.lemma_block_bounds(m, k);
                }
                assert forall|m: int, k: int| self.valid(m, k) && #[trigger] sel@[self.idx(m, k)]
                    implies self.ok(m, k) by {
                    if m != l || k != b {
                        self.lemma_idx_injective(l as int, b as int, m, k);
                        self.lemma_block_bounds(m, k);
                    }
                }
                assert forall|m: int, k: int| self.valid(m, k) && #[trigger] sel@[self.idx(m, k)]
                    implies self.justified(m, k) by {
                    if m != l || k != b {
                        self.lemma_idx_injective(l as int, b as int, m, k);
                        self.lemma_block_bounds(m, k);
                    }
                }
                assert(self.leaf_lo(0, b as int) == b && self.leaf_hi(0, b as int) == b);
                assert(self.leaf_needs(b as int));
                assert(self.witness(sel@, 0, b as int, b as int));
                assert(self.in_sub(0, b as int, 0, b as int));
                return size;
            }
            return 0;
        }
        let (first, last) = self.sub_range(l, b);
        let mut bytes: u64 = 0;
        let mut k = first;
        while k <= last
            invariant
                self.wf(),
                self.valid(l as int, b as int),
                l > 0,
                first == self.first_sub(l as int, b as int),
                last == self.last_sub(l as int, b as int),
                last < self.cnt(l - 1),
                first <= k <= last + 1,
                self.inv(sel@),
                self.prom(sel@),
                bytes > 0 ==> self.has_need(l as int, b as int),
                l == 1 ==> bytes <= self.sz(0) * self.nneed(first as int, k as int),
                self.frame(old_sel, sel@, l as int, b as int),
                self.divisible() ==> forall|x: int| self.leaf_lo(l as int, b as int) <= x < self.leaf_lo(l - 1, k as int)
                    && #[trigger] self.needed(x) ==> exists|m: int, i: int| #[trigger] self.witness(sel@, m, i, x)
                        && self.in_sub(l as int, b as int, m, i) && self.precedes(l - 1, k as int, m, i),
            decreases last + 1 - k,
        {
            let ghost before = sel@;
            let ghost old_bytes = bytes;
            let r = self.select(sel, l - 1, k);
            bytes = bytes.saturating_add(r);
            proof {
                self.lemma_after_child(old_sel, before, sel@, l as int, b as int, k as int);
                if r > 0 {
                    self.lemma_child_need(l as int, b as int, k as int);
                }
                if l == 1 {
                    self.lemma_count_step(first as int, k as int, old_bytes as int, r as int, bytes as int);
                }
            }
            k = k + 1;
        }
        if bytes > size / 2 && start >= self.region_start as u64 && end <= self.region_end as u64 {
            let ghost pre = sel@;
            self.deselect(sel, l, b);
            let ghost mid = sel@;
            sel.set(i, true);
            proof {
                if l == 1 {
                    let n = self.nneed(first as int, last as int + 1);
                    assert(2 * (self.sz(0) * n) > self.sz(1));
                    assert(2 * self.sz(0) * n == 2 * (self.sz(0) * n)) by (nonlinear_arith);
                }
                assert(self.justified(l as int, b as int));
            }
            assert forall|m: int, j: int| self.valid(m, j) && #[trigger] sel@[self.idx(m, j)]
                implies self.justified(m, j) by {
                if m != l || j != b {
                    self.lemma_idx_injective(l as int, b as int, m, j);
                    self.lemma_block_bounds(m, j);
                    assert(mid[self.idx(m, j)]);
                    assert(pre[self.idx(m, j)]);
                }
            }
            assert forall|m: int, j: int| self.valid(m, j) && !self.in_sub(l as int, b as int, m, j)
                implies #[trigger] sel@[self.idx(m, j)] == old_sel[self.idx(m, j)] by {
                self.lemma_idx_injective(l as int, b as int, m, j);
                self.lemma_block_bounds(m, j);
                assert(sel@[self.idx(m, j)] == mid[self.idx(m, j)]);
            }
            assert forall|m: int, j: int| self.valid(m, j) && #[trigger] sel@[self.idx(m, j)]
                implies self.ok(m, j) by {
                if m != l || j != b {
                    self.lemma_idx_injective(l as int, b as int, m, j);
                    self.lemma_block_bounds(m, j);
                    assert(mid[self.idx(m, j)]);
                }
            }
            proof {
                assert(self.in_sub(l as int, b as int, l as int, b as int));
                assert forall|x: int| self.leaf_lo(l as int, b as int) <= x <= self.leaf_hi(l as int, b as int)
                    && #[trigger] self.needed(x) implies exists|m: int, i: int| #[trigger] self.witness(sel@, m, i, x)
                        && self.in_sub(l as int, b as int, m, i) by {
                    assert(self.witness(sel@, l as int, b as int, x));
                }
            }
            return size;
        }
        proof {
            self.lemma_leaf_contig(l - 1, last as int);
        }
        bytes
    }

    /// The blocks of level `l - 1` inside block `b` of level `l`.
    fn sub_range(&self, l: usize, b: usize) -> (r: (usize, usize))
        requires
            self.wf(),
            self.valid(l as int, b as int),
            l > 0,
        ensures
            r.0 == self.first_sub(l as int, b as int),
            r.1 == self.last_sub(l as int, b as int),
            r.0 <= r.1 < self.cnt(l - 1),
    {
        proof { self.lemma_block_bounds(l as int, b as int); }
        let size = self.sizes[l] as u64;
        let sub = self.sizes[l - 1] as u64;
        assert(self.sz(l as int) > 0 && self.sz(l - 1) > 0);
        let start = b as u64 * size;
        assert((b + 1) * self.sz(l as int) == start + size) by (nonlinear_arith)
            requires start == b * size, size == self.sz(l as int);
        let first = (start / sub) as usize;
        let last = ((start + size) / sub - 1) as usize;
        (first, last)
    }

    /// Clear the selection of block `b` of level `l`, or, when it is not
    /// selected, of the blocks below it.
    fn deselect(&self, sel: &mut Vec<bool>, l: usize, b: usize)
        requires
            self.wf(),
            self.valid(l as int, b as int),
            self.inv(old(sel)@),
        ensures
            self.inv(final(sel)@),
            self.frame(old(sel)@, final(sel)@, l as int, b as int),
            !final(sel)@[self.idx(l as int, b as int)],
            old(sel)@[self.idx(l as int, b as int)] ==> final(sel)@ == old(sel)@.update(self.idx(l as int, b as int), false),
            !old(sel)@[self.idx(l as int, b as int)] && l > 0 ==> forall|k: int|
                self.first_sub(l as int, b as int) <= k <= self.last_sub(l as int, b as int)
                ==> !#[trigger] final(sel)@[self.idx(l - 1, k)],
            forall|x: int| 0 <= x < final(sel)@.len() && #[trigger] final(sel)@[x] ==> old(sel)@[x],
        decreases l,
    {
        proof { self.lemma_block_bounds(l as int, b as int); }
        let ghost old_sel = sel@;
        let i = self.offsets[l] + b;
        if sel[i] {
            sel.set(i, false);
            assert(sel@ =~= old_sel.update(self.idx(l as int, b as int), false));
            assert forall|m: int, k: int| self.valid(m, k) && !self.in_sub(l as int, b as int, m, k)
                implies #[trigger] sel@[self.idx(m, k)] == old_sel[self.idx(m, k)] by {
                self.lemma_idx_injective(l as int, b as int, m, k);
                self.lemma_block_bounds(m, k);
            }
        } else if l > 0 {
            let (first, last) = self.sub_range(l, b);
            let mut k = first;
            while k <= last
                invariant
                    self.wf(),
                    self.valid(l as int, b as int),
                    l > 0,
                    first == self.first_sub(l as int, b as int),
                    last == self.last_sub(l as int, b as int),
                    last < self.cnt(l - 1),
                    first <= k <= last + 1,
                    self.inv(sel@),
                    self.frame(old_sel, sel@, l as int, b as int),
                    sel@[self.idx(l as int, b as int)] == old_sel[self.idx(l as int, b as int)],
                    !old_sel[self.idx(l as int, b as int)],
                    forall|j: int| first <= j < k ==> !#[trigger] sel@[self.idx(l - 1, j)],
                    forall|x: int| 0 <= x < sel@.len() && #[trigger] sel@[x] ==> old_sel[x],
                decreases last + 1 - k,
            {
                let ghost before = sel@;
                self.deselect(sel, l - 1, k);
                assert(!self.in_sub(l - 1, k as int, l as int, b as int));
                assert(sel@[self.idx(l as int, b as int)] == before[self.idx(l as int, b as int)]);
                assert forall|j: int| first <= j < k + 1 implies !#[trigger] sel@[self.idx(l - 1, j)] by {
                    if j < k {
                        assert(!self.in_sub(l - 1, k as int, l - 1, j));
                        assert(sel@[self.idx(l - 1, j)] == before[self.idx(l - 1, j)]);
                    }
                }
                assert forall|m: int, j: int| self.valid(m, j) && !self.in_sub(l as int, b as int, m, j)
                    implies #[trigger] sel@[self.idx(m, j)] == old_sel[self.idx(m, j)] by {
                    self.lemma_block_bounds(m, j);
                    if self.in_sub(l - 1, k as int, m, j) {
                        self.lemma_child_sub(l as int, b as int, k as int, m, j);
                    }
                    assert(sel@[self.idx(m, j)] == before[self.idx(m, j)]);
                }
                k = k + 1;
            }
        }
    }
}


/// Some element of `s` equals `e`.
spec fn seq_has<E>(s: Seq<E>, e: E) -> bool {
    exists|p: int| 0 <= p < s.len() && s[p] == e
}

/// Entries sorted by start address.
spec fn sorted_entries(s: Seq<(u32, u32, usize, usize)>) -> bool {
    forall|i: int, j: int| 0 <= i < j < s.len() ==> s[i].0 <= s[j].0
}

/// Merge two lists of selected blocks sorted by start address, taking from
/// the first list on equal starts.
fn merge_entries(a: &Vec<(u32, u32, usize, usize)>, b: &Vec<(u32, u32, usize, usize)>) -> (r: Vec<(u32, u32, usize, usize)>)
    requires
        sorted_entries(a@),
        sorted_entries(b@),
    ensures
        sorted_entries(r@),
        forall|k: int| #![trigger a@[k]] 0 <= k < a@.len() ==> seq_has(r@, a@[k]),
        forall|k: int| #![trigger b@[k]] 0 <= k < b@.len() ==> seq_has(r@, b@[k]),
        forall|p: int| #![trigger r@[p]] 0 <= p < r@.len() ==> seq_has(a@, r@[p])
            || seq_has(b@, r@[p]),
{
    let mut r: Vec<(u32, u32, usize, usize)> = Vec::new();
    let mut i: usize = 0;
    let mut j: usize = 0;
    // Where each element of `a` and `b` went, and where each element of `r`
    // came from (true: from `a`).
    let ghost mut pos_a: Seq<int> = Seq::empty();
    let ghost mut pos_b: Seq<int> = Seq::empty();
    let ghost mut from: Seq<(bool, int)> = Seq::empty();
    while i < a.len() || j < b.len()
        invariant
            i <= a@.len(),
            j <= b@.len(),
            r@.len() == i + j,
            sorted_entries(a@),
            sorted_entries(b@),
            sorted_entries(r@),
            r@.len() > 0 && i < a@.len() ==> r@.last().0 <= a@[i as int].0,
            r@.len() > 0 && j < b@.len() ==> r@.last().0 <= b@[j as int].0,
            pos_a.len() == i,
            pos_b.len() == j,
            from.len() == r@.len(),
            forall|k: int| 0 <= k < i ==> 0 <= #[trigger] pos_a[k] < r@.len() && r@[pos_a[k]] == a@[k],
            forall|k: int| 0 <= k < j ==> 0 <= #[trigger] pos_b[k] < r@.len() && r@[pos_b[k]] == b@[k],
            forall|p: int| 0 <= p < r@.len() ==> if (#[trigger] from[p]).0 {
                0 <= from[p].1 < a@.len() && a@[from[p].1] == r@[p]
            } else {
                0 <= from[p].1 < b@.len() && b@[from[p].1] == r@[p]
            },
        decreases a@.len() + b@.len() - i - j,
    {
        let take_a = j >= b.len() || (i < a.len() && a[i].0 <= b[j].0);
        if take_a {
            r.push(a[i]);
            proof {
                pos_a = pos_a.push(r@.len() - 1);
                from = from.push((true, i as int));
            }
            i = i + 1;
        } else {
            r.push(b[j]);
            proof {
                pos_b = pos_b.push(r@.len() - 1);
                from = from.push((false, j as int));
            }
            j = j + 1;
        }
    }
    proof {
        assert forall|k: int| #![trigger a@[k]] 0 <= k < a@.len()
            implies seq_has(r@, a@[k]) by {
            assert(r@[pos_a[k]] == a@[k]);
        }
        assert forall|k: int| #![trigger b@[k]] 0 <= k < b@.len()
            implies seq_has(r@, b@[k]) by {
            assert(r@[pos_b[k]] == b@[k]);
        }
        assert forall|p: int| #![trigger r@[p]] 0 <= p < r@.len()
            implies seq_has(a@, r@[p])
                || seq_has(b@, r@[p]) by {
            let f = from[p];
            if f.0 {
                assert(a@[f.1] == r@[p]);
            } else {
                assert(b@[f.1] == r@[p]);
            }
        }
    }
    r
}

impl<'a> Planner<'a> {
    /// The selected block `b` of level `l` as a plan entry.
    spec fn entry(self, l: int, b: int) -> (u32, u32, usize, usize) {
        (self.bstart(l, b) as u32, self.sz(l) as u32, l as usize, b as usize)
    }

    /// A plan entry is a selected block's start, size, level and index.
    spec fn entry_ok(self, e: (u32, u32, usize, usize)) -> bool {
        &&& self.valid(e.2 as int, e.3 as int)
        &&& e.0 == self.bstart(e.2 as int, e.3 as int)
        &&& e.1 == self.sz(e.2 as int)
        &&& self.ok(e.2 as int, e.3 as int)
    }

    /// Whether each block size divides the next larger one.
    fn sizes_nest(&self) -> (r: bool)
        requires
            self.wf(),
        ensures
            r == self.divisible(),
    {
        let n = self.sizes.len();
        let mut l: usize = 1;
        while l < n
            invariant
                self.wf(),
                n == self.levels(),
                1 <= l <= n,
                forall|j: int| 0 < j < l ==> #[trigger] self.sz(j) % self.sz(j - 1) == 0,
            decreases n - l,
        {
            assert(self.sz(l - 1) > 0);
            if self.sizes[l] % self.sizes[l - 1] != 0 {
                assert(!(self.sz(l as int) % self.sz(l as int - 1) == 0));
                return false;
            }
            l = l + 1;
        }
        true
    }

    /// The first smallest block below entry `e`'s block.
    spec fn elo(self, e: (u32, u32, usize, usize)) -> int {
        self.leaf_lo(e.2 as int, e.3 as int)
    }

    /// The last smallest block below entry `e`'s block.
    spec fn ehi(self, e: (u32, u32, usize, usize)) -> int {
        self.leaf_hi(e.2 as int, e.3 as int)
    }

    /// The entries of `s` from `from` on are selected blocks of the subtree
    /// of block `b` of level `l`, each over smallest blocks after those of
    /// the one before.
    spec fn walked(self, sel: Seq<bool>, s: Seq<(u32, u32, usize, usize)>, from: int, l: int, b: int) -> bool {
        &&& forall|p: int| from <= p < s.len() ==> {
            &&& self.entry_ok(#[trigger] s[p])
            &&& s[p] == self.entry(s[p].2 as int, s[p].3 as int)
            &&& sel[self.idx(s[p].2 as int, s[p].3 as int)]
            &&& self.in_sub(l, b, s[p].2 as int, s[p].3 as int)
        }
        &&& forall|p: int, q: int| from <= p < q < s.len() ==> self.ehi(#[trigger] s[p]) < self.elo(#[trigger] s[q])
    }

    /// Every selected block of the subtree of block `b` of level `l` lies
    /// below the block of an entry of `s` from `from` on.
    spec fn walk_covers(self, sel: Seq<bool>, s: Seq<(u32, u32, usize, usize)>, from: int, l: int, b: int) -> bool {
        forall|m: int, i: int| self.valid(m, i) && #[trigger] sel[self.idx(m, i)] && self.in_sub(l, b, m, i)
            ==> exists|p: int| from <= p < s.len() && #[trigger] self.in_sub(s[p].2 as int, s[p].3 as int, m, i)
    }

    /// Append, in address order, the selected blocks of the subtree of
    /// block `b` of level `l` that have no selected block above them in it.
    fn walk(&self, sel: &Vec<bool>, l: usize, b: usize, out: &mut Vec<(u32, u32, usize, usize)>)
        requires
            self.wf(),
            self.inv(sel@),
            self.valid(l as int, b as int),
        ensures
            final(out)@.len() >= old(out)@.len(),
            final(out)@.subrange(0, old(out)@.len() as int) == old(out)@,
            self.walked(sel@, final(out)@, old(out)@.len() as int, l as int, b as int),
            self.walk_covers(sel@, final(out)@, old(out)@.len() as int, l as int, b as int),
        decreases l,
    {
        proof { self.lemma_block_bounds(l as int, b as int); }
        let ghost n0 = out@.len() as int;
        let ghost o0 = out@;
        let ix = self.offsets[l] + b;
        if sel[ix] {
            let size = self.sizes[l];
            let start = b as u64 * size as u64;
            out.push((start as u32, size, l, b));
            proof {
                assert(self.ok(l as int, b as int));
                assert(out@[n0] == self.entry(l as int, b as int));
                assert(out@.subrange(0, n0) =~= o0);
                assert forall|m: int, i: int| self.valid(m, i) && #[trigger] sel@[self.idx(m, i)] && self.in_sub(l as int, b as int, m, i)
                    implies exists|p: int| n0 <= p < out@.len() && #[trigger] self.in_sub(out@[p].2 as int, out@[p].3 as int, m, i) by {
                    assert(self.in_sub(out@[n0].2 as int, out@[n0].3 as int, m, i));
                }
            }
        } else if l > 0 {
            let (first, last) = self.sub_range(l, b);
            let mut k = first;
            proof {
                assert(out@.subrange(0, n0) =~= o0);
            }
            while k <= last
                invariant
                    self.wf(),
                    self.inv(sel@),
                    self.valid(l as int, b as int),
                    l > 0,
                    !sel@[self.idx(l as int, b as int)],
                    first == self.first_sub(l as int, b as int),
                    last == self.last_sub(l as int, b as int),
                    last < self.cnt(l - 1),
                    first <= k <= last + 1,
                    out@.len() >= n0,
                    o0.len() == n0,
                    out@.subrange(0, n0) == o0,
                    self.walked(sel@, out@, n0, l as int, b as int),
                    forall|p: int| n0 <= p < out@.len() ==> self.ehi(#[trigger] out@[p]) < self.leaf_lo(l - 1, k as int),
                    forall|m: int, i: int, c: int| self.valid(m, i) && #[trigger] sel@[self.idx(m, i)] && first <= c < k
                        && #[trigger] self.in_sub(l - 1, c, m, i)
                        ==> exists|p: int| n0 <= p < out@.len() && #[trigger] self.in_sub(out@[p].2 as int, out@[p].3 as int, m, i),
                decreases last + 1 - k,
            {
                let ghost before = out@;
                self.walk(sel, l - 1, k, out);
                proof {
                    let n1 = before.len() as int;
                    assert(out@.len() >= n1);
                    assert(out@.subrange(0, n1) == before);
                    assert forall|p: int| 0 <= p < n1 implies #[trigger] out@[p] == before[p] by {
                        assert(out@.subrange(0, n1)[p] == out@[p]);
                    }
                    self.lemma_leaf_contig(l - 1, k as int);
                    assert forall|j: int| 0 <= j < n0 implies #[trigger] out@.subrange(0, n0)[j] == o0[j] by {
                        assert(out@[j] == before[j]);
                        assert(before.subrange(0, n0)[j] == before[j]);
                    }
                    assert(out@.subrange(0, n0) =~= o0);
                    assert forall|p: int| n0 <= p < out@.len() implies {
                        &&& self.entry_ok(#[trigger] out@[p])
                        &&& out@[p] == self.entry(out@[p].2 as int, out@[p].3 as int)
                        &&& sel@[self.idx(out@[p].2 as int, out@[p].3 as int)]
                        &&& self.in_sub(l as int, b as int, out@[p].2 as int, out@[p].3 as int)
                    } by {
                        if p < n1 {
                            assert(out@[p] == before[p]);
                        } else {
                            self.lemma_child_sub(l as int, b as int, k as int, out@[p].2 as int, out@[p].3 as int);
                        }
                    }
                    assert forall|p: int| n0 <= p < out@.len() implies self.elo(#[trigger] out@[p]) >= self.leaf_lo(l as int, b as int)
                        && self.ehi(out@[p]) < self.leaf_lo(l - 1, k + 1) by {
                        let e = out@[p];
                        if p < n1 {
                            assert(out@[p] == before[p]);
                            self.lemma_leaf_mono(l - 1, k as int, k + 1);
                        } else {
                            self.lemma_sub_leaves(l - 1, k as int, e.2 as int, e.3 as int);
                        }
                        self.lemma_sub_leaves(l as int, b as int, e.2 as int, e.3 as int);
                    }
                    assert forall|p: int, q: int| n0 <= p < q < out@.len() implies self.ehi(#[trigger] out@[p]) < self.elo(#[trigger] out@[q]) by {
                        if q < n1 {
                            assert(out@[p] == before[p]);
                            assert(out@[q] == before[q]);
                        } else if p < n1 {
                            assert(out@[p] == before[p]);
                            self.lemma_sub_leaves(l - 1, k as int, out@[q].2 as int, out@[q].3 as int);
                        }
                    }
                    assert forall|m: int, i: int, c: int| self.valid(m, i) && #[trigger] sel@[self.idx(m, i)] && first <= c < k + 1
                        && #[trigger] self.in_sub(l - 1, c, m, i)
                        implies exists|p: int| n0 <= p < out@.len() && #[trigger] self.in_sub(out@[p].2 as int, out@[p].3 as int, m, i) by {
                        if c < k {
                            let p = choose|p: int| n0 <= p < before.len() && #[trigger] self.in_sub(before[p].2 as int, before[p].3 as int, m, i);
                            assert(out@[p] == before[p]);
                            assert(self.in_sub(out@[p].2 as int, out@[p].3 as int, m, i));
                        } else {
                            let p = choose|p: int| n1 <= p < out@.len() && #[trigger] self.in_sub(out@[p].2 as int, out@[p].3 as int, m, i);
                        }
                    }
                }
                k = k + 1;
            }
            proof {
                assert forall|m: int, i: int| self.valid(m, i) && #[trigger] sel@[self.idx(m, i)] && self.in_sub(l as int, b as int, m, i)
                    implies exists|p: int| n0 <= p < out@.len() && #[trigger] self.in_sub(out@[p].2 as int, out@[p].3 as int, m, i) by {
                    if m == l && i == b {
                    } else {
                        let c = self.lemma_find_child(l as int, b as int, m, i);
                        assert(self.in_sub(l - 1, c, m, i));
                    }
                }
            }
        } else {
            proof {
                assert(out@.subrange(0, n0) =~= o0);
            }
        }
    }

    /// The selected blocks of level `l` that overlap the region, by address.
    fn collect_level(&self, sel: &Vec<bool>, l: usize) -> (list: Vec<(u32, u32, usize, usize)>)
        requires
            self.wf(),
            0 <= l < self.levels(),
            self.inv(sel@),
        ensures
            sorted_entries(list@),
            forall|p: int| 0 <= p < list@.len() ==> self.entry_ok(#[trigger] list@[p]),
            forall|b: int| self.valid(l as int, b) && #[trigger] sel@[self.idx(l as int, b)]
                ==> seq_has(list@, self.entry(l as int, b)),
    {
        let size = self.sizes[l];
        let cnt = self.counts[l];
        let off = self.offsets[l];
        let mut list: Vec<(u32, u32, usize, usize)> = Vec::new();
        let mut b: usize = 0;
        while b < cnt
            invariant
                self.wf(),
                0 <= l < self.levels(),
                self.inv(sel@),
                size == self.sz(l as int),
                cnt == self.cnt(l as int),
                off == self.offsets@[l as int],
                b <= cnt,
                sorted_entries(list@),
                list@.len() > 0 ==> list@.last().0 < b * size,
                forall|p: int| 0 <= p < list@.len() ==> self.entry_ok(#[trigger] list@[p]),
                forall|i: int| 0 <= i < b && #[trigger] sel@[self.idx(l as int, i)]
                    ==> seq_has(list@, self.entry(l as int, i)),
            decreases cnt - b,
        {
            proof { self.lemma_block_bounds(l as int, b as int); }
            let ghost old_list = list@;
            if sel[off + b] {
                let start = b as u64 * size as u64;
                let end = start + size as u64 - 1;
                if start <= self.region_end as u64 && end >= self.region_start as u64 {
                    list.push((start as u32, size, l, b));
                    proof {
                        assert(list@[old_list.len() as int] == self.entry(l as int, b as int));
                        assert forall|p: int| 0 <= p < old_list.len() implies #[trigger] list@[p] == old_list[p] by {}
                    }
                } else {
                    assert(self.ok(l as int, b as int));
                }
            }
            proof {
                assert forall|i: int| 0 <= i < b + 1 && #[trigger] sel@[self.idx(l as int, i)]
                    implies seq_has(list@, self.entry(l as int, i)) by {
                    if i < b {
                        let p = choose|p: int| 0 <= p < old_list.len() && #[trigger] old_list[p] == self.entry(l as int, i);
                        assert(list@[p] == old_list[p]);
                    } else {
                        assert(list@[old_list.len() as int] == self.entry(l as int, i));
                    }
                }
                assert(b * size + size == (b + 1) * size) by (nonlinear_arith);
            }
            b = b + 1;
        }
        list
    }
}

/// Select, top level first, every block that has to be erased. Returns
/// the number of bytes selected (saturating).
#[verifier::spinoff_prover]
#[verifier::rlimit(40)]
fn select_all(planner: &Planner, sel: &mut Vec<bool>) -> (total: u64)
    requires
        planner.wf(),
        planner.inv(old(sel)@),
        planner.prom(old(sel)@),
    ensures
        planner.inv(final(sel)@),
        planner.prom(final(sel)@),
        planner.divisible() ==> forall|k: int| 0 <= k < planner.leaf_lo(planner.levels() - 1, planner.cnt(planner.levels() - 1))
            && #[trigger] planner.needed(k) ==> exists|m: int, i: int| #[trigger] planner.witness(final(sel)@, m, i, k)
                && exists|cc: int| 0 <= cc < planner.cnt(planner.levels() - 1)
                    && #[trigger] planner.in_sub(planner.levels() - 1, cc, m, i),
{
    let nl = planner.sizes.len();
    let top = nl - 1;
    let n_top = planner.counts[top];
    let mut total: u64 = 0;
    let mut b: usize = 0;
    proof { planner.lemma_leaf_lo_zero(top as int); }
    while b < n_top
        invariant
            planner.wf(),
            planner.inv(sel@),
            planner.prom(sel@),
            nl == planner.levels(),
            top == nl - 1,
            n_top == planner.cnt(top as int),
            b <= n_top,
            planner.divisible() ==> forall|k: int| 0 <= k < planner.leaf_lo(top as int, b as int)
                && #[trigger] planner.needed(k) ==> exists|m: int, i: int| #[trigger] planner.witness(sel@, m, i, k)
                    && planner.precedes(top as int, b as int, m, i)
                    && exists|cc: int| 0 <= cc < b && #[trigger] planner.in_sub(top as int, cc, m, i),
        decreases n_top - b,
    {
        let ghost before = sel@;
        let r = planner.select(sel, top, b);
        total = total.saturating_add(r);
        proof { planner.lemma_after_top(before, sel@, b as int); }
        b = b + 1;
    }
    total
}

/// The selected blocks with no selected block above them, in address
/// order: the blocks below the top-level blocks in turn.
fn walk_all(planner: &Planner, sel: &Vec<bool>) -> (out: Vec<(u32, u32, usize, usize)>)
    requires
        planner.wf(),
        planner.inv(sel@),
    ensures
        forall|p: int| 0 <= p < out@.len() ==> {
            &&& planner.entry_ok(#[trigger] out@[p])
            &&& out@[p] == planner.entry(out@[p].2 as int, out@[p].3 as int)
            &&& sel@[planner.idx(out@[p].2 as int, out@[p].3 as int)]
        },
        forall|p: int, q: int| 0 <= p < q < out@.len() ==> planner.ehi(#[trigger] out@[p]) < planner.elo(#[trigger] out@[q]),
        forall|m: int, i: int, cc: int| planner.valid(m, i) && #[trigger] sel@[planner.idx(m, i)]
            && 0 <= cc < planner.cnt(planner.levels() - 1) && #[trigger] planner.in_sub(planner.levels() - 1, cc, m, i)
            ==> exists|p: int| 0 <= p < out@.len() && #[trigger] planner.in_sub(out@[p].2 as int, out@[p].3 as int, m, i),
{
    let nl = planner.sizes.len();
    let top = nl - 1;
    let n_top = planner.counts[top];
    let mut out: Vec<(u32, u32, usize, usize)> = Vec::new();
    let mut b: usize = 0;
    proof { planner.lemma_leaf_lo_zero(top as int); }
    while b < n_top
        invariant
            planner.wf(),
            planner.inv(sel@),
            nl == planner.levels(),
            top == nl - 1,
            n_top == planner.cnt(top as int),
            b <= n_top,
            forall|p: int| 0 <= p < out@.len() ==> {
                &&& planner.entry_ok(#[trigger] out@[p])
                &&& out@[p] == planner.entry(out@[p].2 as int, out@[p].3 as int)
                &&& sel@[planner.idx(out@[p].2 as int, out@[p].3 as int)]
                &&& planner.ehi(out@[p]) < planner.leaf_lo(top as int, b as int)
            },
            forall|p: int, q: int| 0 <= p < q < out@.len() ==> planner.ehi(#[trigger] out@[p]) < planner.elo(#[trigger] out@[q]),
            forall|m: int, i: int, cc: int| planner.valid(m, i) && #[trigger] sel@[planner.idx(m, i)]
                && 0 <= cc < b && #[trigger] planner.in_sub(top as int, cc, m, i)
                ==> exists|p: int| 0 <= p < out@.len() && #[trigger] planner.in_sub(out@[p].2 as int, out@[p].3 as int, m, i),
        decreases n_top - b,
    {
        let ghost before = out@;
        planner.walk(sel, top, b, &mut out);
        proof {
            let n1 = before.len() as int;
            assert forall|p: int| 0 <= p < n1 implies #[trigger] out@[p] == before[p] by {
                assert(out@.subrange(0, n1)[p] == out@[p]);
            }
            planner.lemma_leaf_contig(top as int, b as int);
            assert forall|p: int| 0 <= p < out@.len() implies {
                &&& planner.entry_ok(#[trigger] out@[p])
                &&& out@[p] == planner.entry(out@[p].2 as int, out@[p].3 as int)
                &&& sel@[planner.idx(out@[p].2 as int, out@[p].3 as int)]
                &&& planner.ehi(out@[p]) < planner.leaf_lo(top as int, b + 1)
            } by {
                if p < n1 {
                    planner.lemma_leaf_mono(top as int, b as int, b + 1);
                } else {
                    planner.lemma_sub_leaves(top as int, b as int, out@[p].2 as int, out@[p].3 as int);
                }
            }
            assert forall|p: int, q: int| 0 <= p < q < out@.len() implies planner.ehi(#[trigger] out@[p]) < planner.elo(#[trigger] out@[q]) by {
                if q >= n1 && p < n1 {
                    planner.lemma_sub_leaves(top as int, b as int, out@[q].2 as int, out@[q].3 as int);
                }
            }
            assert forall|m: int, i: int, cc: int| planner.valid(m, i) && #[trigger] sel@[planner.idx(m, i)]
                && 0 <= cc < b + 1 && #[trigger] planner.in_sub(top as int, cc, m, i)
                implies exists|p: int| 0 <= p < out@.len() && #[trigger] planner.in_sub(out@[p].2 as int, out@[p].3 as int, m, i) by {
                if cc < b {
                    let p = choose|p: int| 0 <= p < before.len() && #[trigger] planner.in_sub(before[p].2 as int, before[p].3 as int, m, i);
                    assert(out@[p] == before[p]);
                    assert(planner.in_sub(out@[p].2 as int, out@[p].3 as int, m, i));
                } else {
                    let p = choose|p: int| n1 <= p < out@.len() && #[trigger] planner.in_sub(out@[p].2 as int, out@[p].3 as int, m, i);
                }
            }
        }
        b = b + 1;
    }
    out
}

/// The first erase block that erases the whole chip, as an operation.
fn chip_erase_op(erase_blocks: &[EraseBlock], flash_size: u32) -> (r: Option<OptimalEraseOp>)
    ensures
        r matches Some(op) ==> is_chip_op(op, erase_blocks@, flash_size),
        r is None ==> forall|j: int| 0 <= j < erase_blocks@.len() ==> !(#[trigger] erase_blocks@[j]).spec_is_chip_erase(),
{
    let mut c: usize = 0;
    while c < erase_blocks.len()
        invariant
            c <= erase_blocks@.len(),
            forall|j: int| 0 <= j < c ==> !(#[trigger] erase_blocks@[j]).spec_is_chip_erase(),
        decreases erase_blocks@.len() - c,
    {
        if erase_blocks[c].is_chip_erase() {
            let op = OptimalEraseOp { start: 0, size: flash_size, erase_block: erase_blocks[c].duplicate() };
            assert(erase_blocks@[c as int].spec_is_chip_erase());
            return Some(op);
        }
        c = c + 1;
    }
    None
}

/// A chip erase covers every block of the chip.
proof fn lemma_chip_op_covers(
    ops: Seq<OptimalEraseOp>,
    erase_blocks: Seq<EraseBlock>,
    flash_size: u32,
    have: Option<&[u8]>,
    want: Option<&[u8]>,
    region_start: u32,
    region_end: u32,
    granularity: WriteGranularity,
)
    requires
        ops.len() == 1,
        ops[0].start == 0,
        ops[0].size == flash_size,
    ensures
        plan_covers(ops, erase_blocks, flash_size, have, want, region_start, region_end, granularity),
{
    assert forall|i: int, k: int| 0 <= i < erase_blocks.len()
        && #[trigger] is_level_candidate(erase_blocks[i], flash_size)
        && (forall|j: int| 0 <= j < erase_blocks.len() && #[trigger] is_level_candidate(erase_blocks[j], flash_size)
            ==> erase_blocks[i].spec_min_block_size() <= erase_blocks[j].spec_min_block_size())
        && 0 <= k < flash_size / erase_blocks[i].spec_min_block_size()
        && #[trigger] block_needs_erase(have, want, region_start, region_end, granularity,
            k * erase_blocks[i].spec_min_block_size(),
            k * erase_blocks[i].spec_min_block_size() + erase_blocks[i].spec_min_block_size() - 1)
        implies ops_cover(ops, k * erase_blocks[i].spec_min_block_size(), erase_blocks[i].spec_min_block_size() as int) by {
        let s = erase_blocks[i].spec_min_block_size() as int;
        lemma_blocks_fit(k, s, flash_size as int);
        assert(k * s >= 0) by (nonlinear_arith) requires k >= 0, s > 0;
        assert(ops[0].start <= k * s && k * s + s <= ops[0].start + ops[0].size);
    }
}

/// The selected blocks of all levels that overlap the region, sorted by
/// address (smaller levels first on equal addresses).
fn collect_entries(planner: &Planner, sel: &Vec<bool>) -> (merged: Vec<(u32, u32, usize, usize)>)
    requires
        planner.wf(),
        planner.inv(sel@),
    ensures
        sorted_entries(merged@),
        forall|p: int| 0 <= p < merged@.len() ==> planner.entry_ok(#[trigger] merged@[p]),
        forall|m: int, i: int| 0 <= m < planner.levels() && planner.valid(m, i) && #[trigger] sel@[planner.idx(m, i)]
            ==> seq_has(merged@, planner.entry(m, i)),
{
    let nl = planner.sizes.len();
    let mut merged: Vec<(u32, u32, usize, usize)> = Vec::new();
    let mut l: usize = 0;
    while l < nl
        invariant
            planner.wf(),
            planner.inv(sel@),
            nl == planner.levels(),
            l <= nl,
            sorted_entries(merged@),
            forall|p: int| 0 <= p < merged@.len() ==> planner.entry_ok(#[trigger] merged@[p]),
            forall|m: int, i: int| 0 <= m < l && planner.valid(m, i) && #[trigger] sel@[planner.idx(m, i)]
                ==> seq_has(merged@, planner.entry(m, i)),
        decreases nl - l,
    {
        let list = planner.collect_level(sel, l);
        let ghost old_merged = merged@;
        merged = merge_entries(&merged, &list);
        proof {
            assert forall|p: int| 0 <= p < merged@.len() implies planner.entry_ok(#[trigger] merged@[p]) by {
                if exists|k: int| 0 <= k < old_merged.len() && #[trigger] old_merged[k] == merged@[p] {
                    let k = choose|k: int| 0 <= k < old_merged.len() && #[trigger] old_merged[k] == merged@[p];
                    assert(planner.entry_ok(old_merged[k]));
                } else {
                    let k = choose|k: int| 0 <= k < list@.len() && #[trigger] list@[k] == merged@[p];
                    assert(planner.entry_ok(list@[k]));
                }
            }
            assert forall|m: int, i: int| 0 <= m < l + 1 && planner.valid(m, i) && #[trigger] sel@[planner.idx(m, i)]
                implies seq_has(merged@, planner.entry(m, i)) by {
                if m < l {
                    let k = choose|k: int| 0 <= k < old_merged.len() && #[trigger] old_merged[k] == planner.entry(m, i);
                    assert(old_merged[k] == old_merged[k]);
                    let p = choose|p: int| 0 <= p < merged@.len() && #[trigger] merged@[p] == old_merged[k];
                } else {
                    let k = choose|k: int| 0 <= k < list@.len() && #[trigger] list@[k] == planner.entry(m, i);
                    assert(list@[k] == list@[k]);
                    let p = choose|p: int| 0 <= p < merged@.len() && #[trigger] merged@[p] == list@[k];
                }
            }
        }
        l = l + 1;
    }
    merged
}

/// The operations for the merged entries, each with its level's erase block.
fn entries_to_ops(erase_blocks: &[EraseBlock], levels: &Vec<usize>, planner: &Planner, merged: &Vec<(u32, u32, usize, usize)>) -> (ops: Vec<OptimalEraseOp>)
    requires
        planner.wf(),
        valid_levels(erase_blocks@, planner.flash_size, levels@),
        levels@.len() == planner.levels(),
        forall|q: int| 0 <= q < merged@.len() ==> planner.entry_ok(#[trigger] merged@[q]),
    ensures
        ops@.len() == merged@.len(),
        forall|q: int| 0 <= q < ops@.len() ==> {
            &&& (#[trigger] ops@[q]).start == merged@[q].0
            &&& ops@[q].size == merged@[q].1
            &&& same_erase_block(ops@[q].erase_block, erase_blocks@[levels@[merged@[q].2 as int] as int])
        },
{
    let mut ops: Vec<OptimalEraseOp> = Vec::new();
    let mut p: usize = 0;
    while p < merged.len()
        invariant
            planner.wf(),
            valid_levels(erase_blocks@, planner.flash_size, levels@),
            levels@.len() == planner.levels(),
            p <= merged@.len(),
            ops@.len() == p,
            forall|q: int| 0 <= q < merged@.len() ==> planner.entry_ok(#[trigger] merged@[q]),
            forall|q: int| 0 <= q < p ==> {
                &&& (#[trigger] ops@[q]).start == merged@[q].0
                &&& ops@[q].size == merged@[q].1
                &&& same_erase_block(ops@[q].erase_block, erase_blocks@[levels@[merged@[q].2 as int] as int])
            },
        decreases merged@.len() - p,
    {
        let e = merged[p];
        proof {
            assert(planner.entry_ok(merged@[p as int]));
            assert(levels@[e.2 as int] < erase_blocks@.len());
        }
        let eb = erase_blocks[levels[e.2]].duplicate();
        let ghost old_ops = ops@;
        ops.push(OptimalEraseOp { start: e.0, size: e.1, erase_block: eb });
        proof {
            assert forall|q: int| 0 <= q < p + 1 implies {
                &&& (#[trigger] ops@[q]).start == merged@[q].0
                &&& ops@[q].size == merged@[q].1
                &&& same_erase_block(ops@[q].erase_block, erase_blocks@[levels@[merged@[q].2 as int] as int])
            } by {
                if q < p {
                    assert(ops@[q] == old_ops[q]);
                }
            }
        }
        p = p + 1;
    }
    ops
}

/// Top-down selection, the chip-erase decision and collection of the
/// selected blocks into sorted operations.
fn plan_with(erase_blocks: &[EraseBlock], levels: &Vec<usize>, planner: &Planner, sel: Vec<bool>) -> (ops: Vec<OptimalEraseOp>)
    requires
        planner.wf(),
        planner.inv(sel@),
        planner.prom(sel@),
        valid_levels(erase_blocks@, planner.flash_size, levels@),
        levels@.len() == planner.levels(),
        forall|l: int| 0 <= l < planner.levels()
            ==> #[trigger] planner.sizes@[l] == erase_blocks@[levels@[l] as int].spec_min_block_size(),
    ensures
        forall|i: int, j: int| 0 <= i < j < ops@.len() ==> ops@[i].start <= ops@[j].start,
        planner.divisible() ==> forall|i: int, j: int| 0 <= i < j < ops@.len() ==> ops@[i].start + ops@[i].size <= ops@[j].start,
        (ops@.len() == 1 && is_chip_op(ops@[0], erase_blocks@, planner.flash_size) && planner.region_start == 0
            && planner.region_end >= planner.flash_size - 1)
        || forall|j: int| 0 <= j < ops@.len() ==> {
            &&& is_block_op(#[trigger] ops@[j], erase_blocks@, planner.flash_size, planner.region_start, planner.region_end)
            &&& (exists|i: int| 0 <= i < erase_blocks@.len() && #[trigger] is_level_candidate(erase_blocks@[i], planner.flash_size)
                && erase_blocks@[i].spec_min_block_size() < ops@[j].size)
                ==> planner.region_start <= ops@[j].start && ops@[j].start + ops@[j].size - 1 <= planner.region_end
        },
        aligned_erase_sizes(erase_blocks@, planner.flash_size)
            ==> plan_covers(ops@, erase_blocks@, planner.flash_size, planner.have, planner.want,
                planner.region_start, planner.region_end, planner.granularity),
        aligned_erase_sizes(erase_blocks@, planner.flash_size) ==> (ops@.len() == 1 && is_chip_op(ops@[0],
            erase_blocks@, planner.flash_size)) || promotions_justified(ops@, erase_blocks@, planner.flash_size,
            planner.have, planner.want, planner.region_start, planner.region_end, planner.granularity),
{
    let mut sel = sel;
    let flash_size = planner.flash_size;
    let total = select_all(planner, &mut sel);
    assert(planner.sz(0) > 0);
    let covers_full_chip = planner.region_start == 0 && planner.region_end >= flash_size - 1;
    let more_than_half = total > (flash_size / 2) as u64;
    if covers_full_chip && more_than_half {
        match chip_erase_op(erase_blocks, flash_size) {
            Some(op) => {
                let mut ops: Vec<OptimalEraseOp> = Vec::new();
                ops.push(op);
                proof {
                    assert(ops@[0] == op);
                    lemma_chip_op_covers(ops@, erase_blocks@, flash_size, planner.have, planner.want,
                        planner.region_start, planner.region_end, planner.granularity);
                }
                return ops;
            },
            None => {},
        }
    }
    if planner.sizes_nest() {
        let walked = walk_all(planner, &sel);
        let ops = entries_to_ops(erase_blocks, levels, planner, &walked);
        proof {
            lemma_walk_ops(erase_blocks@, levels@, *planner, sel@, walked@, ops@);
            lemma_walk_justified(erase_blocks@, levels@, *planner, sel@, walked@, ops@);
        }
        return ops;
    }
    let merged = collect_entries(planner, &sel);
    let ops = entries_to_ops(erase_blocks, levels, planner, &merged);
    proof {
        lemma_plan_ops(erase_blocks@, levels@, *planner, sel@, merged@, ops@);
        if aligned_erase_sizes(erase_blocks@, planner.flash_size) {
            lemma_aligned_divisible(erase_blocks@, levels@, *planner);
        }
    }
    ops
}

/// The operations built from walked selected blocks erase larger blocks
/// only where the selection justified them.
#[verifier::spinoff_prover]
#[verifier::rlimit(40)]
proof fn lemma_walk_justified(
    erase_blocks: Seq<EraseBlock>,
    levels: Seq<usize>,
    planner: Planner,
    sel: Seq<bool>,
    merged: Seq<(u32, u32, usize, usize)>,
    ops: Seq<OptimalEraseOp>,
)
    requires
        planner.wf(),
        planner.prom(sel),
        valid_levels(erase_blocks, planner.flash_size, levels),
        levels.len() == planner.levels(),
        forall|l: int| 0 <= l < planner.levels()
            ==> #[trigger] planner.sizes@[l] == erase_blocks[levels[l] as int].spec_min_block_size(),
        planner.divisible(),
        forall|p: int| 0 <= p < merged.len() ==> {
            &&& planner.entry_ok(#[trigger] merged[p])
            &&& sel[planner.idx(merged[p].2 as int, merged[p].3 as int)]
        },
        ops.len() == merged.len(),
        forall|q: int| 0 <= q < ops.len() ==> {
            &&& (#[trigger] ops[q]).start == merged[q].0
            &&& ops[q].size == merged[q].1
        },
    ensures
        promotions_justified(ops, erase_blocks, planner.flash_size, planner.have, planner.want,
            planner.region_start, planner.region_end, planner.granularity),
{
    let f = planner.flash_size;
    assert forall|i: int, j: int| 0 <= i < erase_blocks.len()
        && #[trigger] is_level_candidate(erase_blocks[i], f)
        && (forall|c: int| 0 <= c < erase_blocks.len() && #[trigger] is_level_candidate(erase_blocks[c], f)
            ==> erase_blocks[i].spec_min_block_size() <= erase_blocks[c].spec_min_block_size())
        && 0 <= j < ops.len() && erase_blocks[i].spec_min_block_size() < (#[trigger] ops[j]).size
        implies {
            let s = erase_blocks[i].spec_min_block_size() as int;
            &&& exists|k: int| ops[j].start <= k * s && k * s + s <= ops[j].start + ops[j].size
                && #[trigger] block_needs_erase(planner.have, planner.want, planner.region_start, planner.region_end,
                    planner.granularity, k * s, k * s + s - 1)
            &&& (forall|c: int| 0 <= c < erase_blocks.len() && #[trigger] is_level_candidate(erase_blocks[c], f)
                ==> !(s < erase_blocks[c].spec_min_block_size() < ops[j].size))
                ==> 2 * s * count_needed_blocks(planner.have, planner.want, planner.region_start, planner.region_end,
                    planner.granularity, s, ops[j].start as int / s, (ops[j].start + ops[j].size) / s) > ops[j].size
        } by {
        let s = erase_blocks[i].spec_min_block_size() as int;
        let e = merged[j];
        assert(planner.entry_ok(e));
        let l = e.2 as int;
        let b = e.3 as int;
        planner.lemma_block_bounds(l, b);
        let x = choose|x: int| 0 <= x < levels.len()
            && #[trigger] erase_blocks[levels[x] as int].spec_min_block_size() == erase_blocks[i].spec_min_block_size();
        assert(planner.sizes@[x] == erase_blocks[levels[x] as int].spec_min_block_size());
        assert(planner.sizes@[0] == erase_blocks[levels[0] as int].spec_min_block_size());
        assert(is_level_candidate(erase_blocks[levels[0] as int], f));
        if x > 0 {
            assert(planner.sz(0) < planner.sz(x));
        }
        assert(s == planner.sz(0));
        assert(ops[j].size == planner.sz(l));
        assert(ops[j].start == planner.bstart(l, b));
        if l == 0 {
            assert(false);
        }
        assert(sel[planner.idx(l, b)]);
        assert(planner.justified(l, b));
        let k = choose|k: int| planner.leaf_lo(l, b) <= k <= planner.leaf_hi(l, b) && #[trigger] planner.leaf_needs(k);
        planner.lemma_leaf_in_block(l, b, k);
        assert((b + 1) * planner.sz(l) == b * planner.sz(l) + planner.sz(l)) by (nonlinear_arith);
        assert(ops[j].start <= k * s && k * s + s <= ops[j].start + ops[j].size);
        assert(block_needs_erase(planner.have, planner.want, planner.region_start, planner.region_end,
            planner.granularity, k * s, k * s + s - 1));
        if forall|c: int| 0 <= c < erase_blocks.len() && #[trigger] is_level_candidate(erase_blocks[c], f)
            ==> !(s < erase_blocks[c].spec_min_block_size() < ops[j].size) {
            if l >= 2 {
                assert(planner.sizes@[1] == erase_blocks[levels[1] as int].spec_min_block_size());
                assert(is_level_candidate(erase_blocks[levels[1] as int], f));
                assert(planner.sz(0) < planner.sz(1) && planner.sz(1) < planner.sz(l));
                assert(false);
            }
            assert(l == 1);
            assert(planner.first_sub(1, b) == ops[j].start as int / s);
            assert(planner.last_sub(1, b) + 1 == (ops[j].start + ops[j].size) / s);
        }
    }
}

/// `k` whole blocks of `s` bytes below `k < f / s` end inside `f`.
proof fn lemma_blocks_fit(k: int, s: int, f: int)
    requires
        0 <= k < f / s,
        s > 0,
        f >= 0,
    ensures
        k * s + s <= f,
{
    vstd::arithmetic::div_mod::lemma_fundamental_div_mod(f, s);
    vstd::arithmetic::div_mod::lemma_mod_pos_bound(f, s);
    assert(k * s + s <= (f / s) * s) by (nonlinear_arith) requires k + 1 <= f / s, s > 0;
}

/// With aligned erase sizes the hierarchy is divisible and the largest
/// block size divides the chip.
proof fn lemma_aligned_divisible(erase_blocks: Seq<EraseBlock>, levels: Seq<usize>, planner: Planner)
    requires
        planner.wf(),
        valid_levels(erase_blocks, planner.flash_size, levels),
        levels.len() == planner.levels(),
        forall|l: int| 0 <= l < planner.levels()
            ==> #[trigger] planner.sizes@[l] == erase_blocks[levels[l] as int].spec_min_block_size(),
        aligned_erase_sizes(erase_blocks, planner.flash_size),
    ensures
        planner.divisible(),
        planner.flash_size as int % planner.sz(planner.levels() - 1) == 0,
{
    let f = planner.flash_size;
    assert forall|l: int| 0 < l < planner.levels() implies #[trigger] planner.sz(l) % planner.sz(l - 1) == 0 by {
        let i = levels[l - 1] as int;
        let j = levels[l] as int;
        assert(planner.sizes@[l - 1] == erase_blocks[i].spec_min_block_size());
        assert(planner.sizes@[l] == erase_blocks[j].spec_min_block_size());
        assert(is_level_candidate(erase_blocks[i], f) && is_level_candidate(erase_blocks[j], f));
        assert(planner.sz(l - 1) < planner.sz(l));
    }
    let t = planner.levels() - 1;
    assert(planner.sizes@[t] == erase_blocks[levels[t] as int].spec_min_block_size());
    assert(is_level_candidate(erase_blocks[levels[t] as int], f));
}

/// The operations built from the merged entries meet the plan's contract.
proof fn lemma_plan_ops(
    erase_blocks: Seq<EraseBlock>,
    levels: Seq<usize>,
    planner: Planner,
    sel: Seq<bool>,
    merged: Seq<(u32, u32, usize, usize)>,
    ops: Seq<OptimalEraseOp>,
)
    requires
        planner.wf(),
        planner.inv(sel),
        valid_levels(erase_blocks, planner.flash_size, levels),
        levels.len() == planner.levels(),
        forall|l: int| 0 <= l < planner.levels()
            ==> #[trigger] planner.sizes@[l] == erase_blocks[levels[l] as int].spec_min_block_size(),
        sorted_entries(merged),
        forall|p: int| 0 <= p < merged.len() ==> planner.entry_ok(#[trigger] merged[p]),
        forall|m: int, i: int| 0 <= m < planner.levels() && planner.valid(m, i) && #[trigger] sel[planner.idx(m, i)]
            ==> seq_has(merged, planner.entry(m, i)),
        ops.len() == merged.len(),
        forall|q: int| 0 <= q < ops.len() ==> {
            &&& (#[trigger] ops[q]).start == merged[q].0
            &&& ops[q].size == merged[q].1
            &&& same_erase_block(ops[q].erase_block, erase_blocks[levels[merged[q].2 as int] as int])
        },
        planner.divisible() ==> forall|k: int| 0 <= k < planner.leaf_lo(planner.levels() - 1, planner.cnt(planner.levels() - 1))
            && #[trigger] planner.needed(k) ==> exists|m: int, i: int| #[trigger] planner.witness(sel, m, i, k),
    ensures
        forall|i: int, j: int| 0 <= i < j < ops.len() ==> ops[i].start <= ops[j].start,
        forall|j: int| 0 <= j < ops.len() ==> {
            &&& is_block_op(#[trigger] ops[j], erase_blocks, planner.flash_size, planner.region_start, planner.region_end)
            &&& (exists|i: int| 0 <= i < erase_blocks.len() && #[trigger] is_level_candidate(erase_blocks[i], planner.flash_size)
                && erase_blocks[i].spec_min_block_size() < ops[j].size)
                ==> planner.region_start <= ops[j].start && ops[j].start + ops[j].size - 1 <= planner.region_end
        },
        aligned_erase_sizes(erase_blocks, planner.flash_size)
            ==> plan_covers(ops, erase_blocks, planner.flash_size, planner.have, planner.want,
                planner.region_start, planner.region_end, planner.granularity),
{
    let f = planner.flash_size;
    assert forall|i: int, j: int| 0 <= i < j < ops.len() implies ops[i].start <= ops[j].start by {
        assert(ops[i].start == merged[i].0 && ops[j].start == merged[j].0);
    }
    assert forall|j: int| 0 <= j < ops.len() implies {
        &&& is_block_op(#[trigger] ops[j], erase_blocks, f, planner.region_start, planner.region_end)
        &&& (exists|i: int| 0 <= i < erase_blocks.len() && #[trigger] is_level_candidate(erase_blocks[i], f)
            && erase_blocks[i].spec_min_block_size() < ops[j].size)
            ==> planner.region_start <= ops[j].start && ops[j].start + ops[j].size - 1 <= planner.region_end
    } by {
        let e = merged[j];
        assert(planner.entry_ok(e));
        let l = e.2 as int;
        let b = e.3 as int;
        planner.lemma_block_bounds(l, b);
        let ei = levels[l] as int;
        assert(planner.sizes@[l] == erase_blocks[ei].spec_min_block_size());
        assert(is_level_candidate(erase_blocks[ei], f));
        assert(planner.sz(l) > 0);
        vstd::arithmetic::div_mod::lemma_mod_multiples_basic(b, planner.sz(l));
        assert(ops[j].start % ops[j].size == 0);
        if exists|i: int| 0 <= i < erase_blocks.len() && #[trigger] is_level_candidate(erase_blocks[i], f)
            && erase_blocks[i].spec_min_block_size() < ops[j].size {
            let i = choose|i: int| 0 <= i < erase_blocks.len() && #[trigger] is_level_candidate(erase_blocks[i], f)
                && erase_blocks[i].spec_min_block_size() < ops[j].size;
            let x = choose|x: int| 0 <= x < levels.len()
                && #[trigger] erase_blocks[levels[x] as int].spec_min_block_size() == erase_blocks[i].spec_min_block_size();
            assert(planner.sizes@[x] == erase_blocks[levels[x] as int].spec_min_block_size());
            if l == 0 {
                assert(planner.sz(0) <= planner.sz(x));
            }
            assert(l > 0);
        }
        assert(is_block_op(ops[j], erase_blocks, f, planner.region_start, planner.region_end));
    }
    if aligned_erase_sizes(erase_blocks, f) {
        lemma_aligned_divisible(erase_blocks, levels, planner);
        let t = planner.levels() - 1;
        let s0 = planner.sz(0);
        let st = planner.sz(t);
        planner.lemma_leaf_exact(t, planner.cnt(t));
        vstd::arithmetic::div_mod::lemma_fundamental_div_mod(f as int, st);
        assert(planner.cnt(t) * st == f);
        let ll = planner.leaf_lo(t, planner.cnt(t));
        assert(ll * s0 == f);
        assert(s0 > 0);
        assert(ll >= 0) by (nonlinear_arith) requires ll * s0 == f, s0 > 0, f >= 0;
        vstd::arithmetic::div_mod::lemma_div_by_multiple(ll, s0);
        assert(ll == planner.cnt(0));
        assert forall|i: int, k: int| 0 <= i < erase_blocks.len()
            && #[trigger] is_level_candidate(erase_blocks[i], f)
            && (forall|j: int| 0 <= j < erase_blocks.len() && #[trigger] is_level_candidate(erase_blocks[j], f)
                ==> erase_blocks[i].spec_min_block_size() <= erase_blocks[j].spec_min_block_size())
            && 0 <= k < f / erase_blocks[i].spec_min_block_size()
            && #[trigger] block_needs_erase(planner.have, planner.want, planner.region_start, planner.region_end, planner.granularity,
                k * erase_blocks[i].spec_min_block_size(),
                k * erase_blocks[i].spec_min_block_size() + erase_blocks[i].spec_min_block_size() - 1)
            implies ops_cover(ops, k * erase_blocks[i].spec_min_block_size(), erase_blocks[i].spec_min_block_size() as int) by {
            let x = choose|x: int| 0 <= x < levels.len()
                && #[trigger] erase_blocks[levels[x] as int].spec_min_block_size() == erase_blocks[i].spec_min_block_size();
            assert(planner.sizes@[x] == erase_blocks[levels[x] as int].spec_min_block_size());
            assert(planner.sizes@[0] == erase_blocks[levels[0] as int].spec_min_block_size());
            assert(is_level_candidate(erase_blocks[levels[0] as int], f));
            if x > 0 {
                assert(planner.sz(0) < planner.sz(x));
            }
            assert(erase_blocks[i].spec_min_block_size() == s0);
            assert(planner.needed(k));
            let (m, bi) = choose|m: int, bi: int| #[trigger] planner.witness(sel, m, bi, k);
            let p = choose|p: int| 0 <= p < merged.len() && #[trigger] merged[p] == planner.entry(m, bi);
            planner.lemma_block_bounds(m, bi);
            planner.lemma_leaf_in_block(m, bi, k);
            assert(ops[p].start == merged[p].0);
            assert(ops[p].start <= k * s0 && k * s0 + s0 <= ops[p].start + ops[p].size);
        }
    }
}

#[verifier::spinoff_prover]
#[verifier::rlimit(40)]
proof fn lemma_walk_ops(
    erase_blocks: Seq<EraseBlock>,
    levels: Seq<usize>,
    planner: Planner,
    sel: Seq<bool>,
    merged: Seq<(u32, u32, usize, usize)>,
    ops: Seq<OptimalEraseOp>,
)
    requires
        planner.wf(),
        planner.inv(sel),
        valid_levels(erase_blocks, planner.flash_size, levels),
        levels.len() == planner.levels(),
        forall|l: int| 0 <= l < planner.levels()
            ==> #[trigger] planner.sizes@[l] == erase_blocks[levels[l] as int].spec_min_block_size(),
        planner.divisible(),
        forall|p: int| 0 <= p < merged.len() ==> {
            &&& planner.entry_ok(#[trigger] merged[p])
            &&& merged[p] == planner.entry(merged[p].2 as int, merged[p].3 as int)
        },
        forall|p: int, q: int| 0 <= p < q < merged.len() ==> planner.ehi(#[trigger] merged[p]) < planner.elo(#[trigger] merged[q]),
        forall|m: int, i: int, cc: int| planner.valid(m, i) && #[trigger] sel[planner.idx(m, i)]
            && 0 <= cc < planner.cnt(planner.levels() - 1) && #[trigger] planner.in_sub(planner.levels() - 1, cc, m, i)
            ==> exists|p: int| 0 <= p < merged.len() && #[trigger] planner.in_sub(merged[p].2 as int, merged[p].3 as int, m, i),
        ops.len() == merged.len(),
        forall|q: int| 0 <= q < ops.len() ==> {
            &&& (#[trigger] ops[q]).start == merged[q].0
            &&& ops[q].size == merged[q].1
            &&& same_erase_block(ops[q].erase_block, erase_blocks[levels[merged[q].2 as int] as int])
        },
        planner.divisible() ==> forall|k: int| 0 <= k < planner.leaf_lo(planner.levels() - 1, planner.cnt(planner.levels() - 1))
            && #[trigger] planner.needed(k) ==> exists|m: int, i: int| #[trigger] planner.witness(sel, m, i, k)
                && exists|cc: int| 0 <= cc < planner.cnt(planner.levels() - 1)
                    && #[trigger] planner.in_sub(planner.levels() - 1, cc, m, i),
    ensures
        forall|i: int, j: int| 0 <= i < j < ops.len() ==> ops[i].start + ops[i].size <= ops[j].start,
        forall|i: int, j: int| 0 <= i < j < ops.len() ==> ops[i].start <= ops[j].start,
        forall|j: int| 0 <= j < ops.len() ==> {
            &&& is_block_op(#[trigger] ops[j], erase_blocks, planner.flash_size, planner.region_start, planner.region_end)
            &&& (exists|i: int| 0 <= i < erase_blocks.len() && #[trigger] is_level_candidate(erase_blocks[i], planner.flash_size)
                && erase_blocks[i].spec_min_block_size() < ops[j].size)
                ==> planner.region_start <= ops[j].start && ops[j].start + ops[j].size - 1 <= planner.region_end
        },
        aligned_erase_sizes(erase_blocks, planner.flash_size)
            ==> plan_covers(ops, erase_blocks, planner.flash_size, planner.have, planner.want,
                planner.region_start, planner.region_end, planner.granularity),
{
    let f = planner.flash_size;
    assert forall|i: int, j: int| 0 <= i < j < ops.len() implies ops[i].start + ops[i].size <= ops[j].start by {
        let ei = merged[i];
        let ej = merged[j];
        assert(planner.entry_ok(ei) && planner.entry_ok(ej));
        planner.lemma_block_bounds(ei.2 as int, ei.3 as int);
        planner.lemma_block_bounds(ej.2 as int, ej.3 as int);
        planner.lemma_leaf_exact(ei.2 as int, ei.3 as int);
        planner.lemma_leaf_exact(ej.2 as int, ej.3 as int);
        let s0 = planner.sz(0);
        assert(s0 > 0);
        assert(planner.ehi(ei) + 1 <= planner.elo(ej));
        assert((planner.ehi(ei) + 1) * s0 <= planner.elo(ej) * s0) by (nonlinear_arith)
            requires planner.ehi(ei) + 1 <= planner.elo(ej), s0 > 0;
        assert((ei.3 as int + 1) * planner.sz(ei.2 as int) == ei.3 as int * planner.sz(ei.2 as int) + planner.sz(ei.2 as int))
            by (nonlinear_arith);
        assert(ops[i].start == merged[i].0 && ops[j].start == merged[j].0 && ops[i].size == merged[i].1);
    }
    assert forall|i: int, j: int| 0 <= i < j < ops.len() implies ops[i].start <= ops[j].start by {
        assert(ops[i].start + ops[i].size <= ops[j].start);
    }
    assert forall|j: int| 0 <= j < ops.len() implies {
        &&& is_block_op(#[trigger] ops[j], erase_blocks, f, planner.region_start, planner.region_end)
        &&& (exists|i: int| 0 <= i < erase_blocks.len() && #[trigger] is_level_candidate(erase_blocks[i], f)
            && erase_blocks[i].spec_min_block_size() < ops[j].size)
            ==> planner.region_start <= ops[j].start && ops[j].start + ops[j].size - 1 <= planner.region_end
    } by {
        let e = merged[j];
        assert(planner.entry_ok(e));
        let l = e.2 as int;
        let b = e.3 as int;
        planner.lemma_block_bounds(l, b);
        let ei = levels[l] as int;
        assert(planner.sizes@[l] == erase_blocks[ei].spec_min_block_size());
        assert(is_level_candidate(erase_blocks[ei], f));
        assert(planner.sz(l) > 0);
        vstd::arithmetic::div_mod::lemma_mod_multiples_basic(b, planner.sz(l));
        assert(ops[j].start % ops[j].size == 0);
        if exists|i: int| 0 <= i < erase_blocks.len() && #[trigger] is_level_candidate(erase_blocks[i], f)
            && erase_blocks[i].spec_min_block_size() < ops[j].size {
            let i = choose|i: int| 0 <= i < erase_blocks.len() && #[trigger] is_level_candidate(erase_blocks[i], f)
                && erase_blocks[i].spec_min_block_size() < ops[j].size;
            let x = choose|x: int| 0 <= x < levels.len()
                && #[trigger] erase_blocks[levels[x] as int].spec_min_block_size() == erase_blocks[i].spec_min_block_size();
            assert(planner.sizes@[x] == erase_blocks[levels[x] as int].spec_min_block_size());
            if l == 0 {
                assert(planner.sz(0) <= planner.sz(x));
            }
            assert(l > 0);
        }
        assert(is_block_op(ops[j], erase_blocks, f, planner.region_start, planner.region_end));
    }
    if aligned_erase_sizes(erase_blocks, f) {
        lemma_aligned_divisible(erase_blocks, levels, planner);
        let t = planner.levels() - 1;
        let s0 = planner.sz(0);
        let st = planner.sz(t);
        planner.lemma_leaf_exact(t, planner.cnt(t));
        vstd::arithmetic::div_mod::lemma_fundamental_div_mod(f as int, st);
        assert(planner.cnt(t) * st == f);
        let ll = planner.leaf_lo(t, planner.cnt(t));
        assert(ll * s0 == f);
        assert(s0 > 0);
        assert(ll >= 0) by (nonlinear_arith) requires ll * s0 == f, s0 > 0, f >= 0;
        vstd::arithmetic::div_mod::lemma_div_by_multiple(ll, s0);
        assert(ll == planner.cnt(0));
        assert forall|i: int, k: int| 0 <= i < erase_blocks.len()
            && #[trigger] is_level_candidate(erase_blocks[i], f)
            && (forall|j: int| 0 <= j < erase_blocks.len() && #[trigger] is_level_candidate(erase_blocks[j], f)
                ==> erase_blocks[i].spec_min_block_size() <= erase_blocks[j].spec_min_block_size())
            && 0 <= k < f / erase_blocks[i].spec_min_block_size()
            && #[trigger] block_needs_erase(planner.have, planner.want, planner.region_start, planner.region_end, planner.granularity,
                k * erase_blocks[i].spec_min_block_size(),
                k * erase_blocks[i].spec_min_block_size() + erase_blocks[i].spec_min_block_size() - 1)
            implies ops_cover(ops, k * erase_blocks[i].spec_min_block_size(), erase_blocks[i].spec_min_block_size() as int) by {
            let x = choose|x: int| 0 <= x < levels.len()
                && #[trigger] erase_blocks[levels[x] as int].spec_min_block_size() == erase_blocks[i].spec_min_block_size();
            assert(planner.sizes@[x] == erase_blocks[levels[x] as int].spec_min_block_size());
            assert(planner.sizes@[0] == erase_blocks[levels[0] as int].spec_min_block_size());
            assert(is_level_candidate(erase_blocks[levels[0] as int], f));
            if x > 0 {
                assert(planner.sz(0) < planner.sz(x));
            }
            assert(erase_blocks[i].spec_min_block_size() == s0);
            assert(planner.needed(k));
            let (m, bi) = choose|m: int, bi: int| #[trigger] planner.witness(sel, m, bi, k)
                && exists|cc: int| 0 <= cc < planner.cnt(planner.levels() - 1)
                    && #[trigger] planner.in_sub(planner.levels() - 1, cc, m, bi);
            let cc = choose|cc: int| 0 <= cc < planner.cnt(planner.levels() - 1)
                && #[trigger] planner.in_sub(planner.levels() - 1, cc, m, bi);
            let p = choose|p: int| 0 <= p < merged.len() && #[trigger] planner.in_sub(merged[p].2 as int, merged[p].3 as int, m, bi);
            let e = merged[p];
            assert(planner.entry_ok(e));
            planner.lemma_sub_leaves(e.2 as int, e.3 as int, m, bi);
            planner.lemma_block_bounds(e.2 as int, e.3 as int);
            planner.lemma_leaf_in_block(e.2 as int, e.3 as int, k);
            assert(ops[p].start == merged[p].0);
            assert(ops[p].start <= k * s0 && k * s0 + s0 <= ops[p].start + ops[p].size);
        }
    }
}

/// A block operation of the plan: a block of a candidate erase size,
/// aligned to its size, inside the chip and overlapping the region, with
/// the erase block definition of that size.
pub open spec fn is_block_op(
    op: OptimalEraseOp,
    erase_blocks: Seq<EraseBlock>,
    flash_size: u32,
    region_start: u32,
    region_end: u32,
) -> bool {
    &&& exists|i: int| #![trigger erase_blocks[i]] 0 <= i < erase_blocks.len()
        && is_level_candidate(erase_blocks[i], flash_size)
        && op.size == erase_blocks[i].spec_min_block_size()
        && same_erase_block(op.erase_block, erase_blocks[i])
    &&& op.size > 0
    &&& op.start % op.size == 0
    &&& op.start + op.size <= flash_size
    &&& op.start <= region_end
    &&& op.start + op.size - 1 >= region_start
}

/// A chip erase of the plan: the whole chip with the first erase block
/// that erases the chip.
pub open spec fn is_chip_op(op: OptimalEraseOp, erase_blocks: Seq<EraseBlock>, flash_size: u32) -> bool {
    &&& op.start == 0
    &&& op.size == flash_size
    &&& exists|i: int| #![trigger erase_blocks[i]] 0 <= i < erase_blocks.len()
        && erase_blocks[i].spec_is_chip_erase()
        && same_erase_block(op.erase_block, erase_blocks[i])
        && forall|j: int| 0 <= j < i ==> !(#[trigger] erase_blocks[j]).spec_is_chip_erase()
}

/// Every candidate erase size divides every larger one and the chip size.
pub open spec fn aligned_erase_sizes(erase_blocks: Seq<EraseBlock>, flash_size: u32) -> bool {
    &&& forall|i: int, j: int| 0 <= i < erase_blocks.len() && 0 <= j < erase_blocks.len()
        && #[trigger] is_level_candidate(erase_blocks[i], flash_size)
        && #[trigger] is_level_candidate(erase_blocks[j], flash_size)
        && erase_blocks[i].spec_min_block_size() <= erase_blocks[j].spec_min_block_size()
        ==> erase_blocks[j].spec_min_block_size() % erase_blocks[i].spec_min_block_size() == 0
    &&& forall|i: int| 0 <= i < erase_blocks.len() && #[trigger] is_level_candidate(erase_blocks[i], flash_size)
        ==> flash_size % erase_blocks[i].spec_min_block_size() == 0
}

/// How many of the blocks `lo..hi` of `s` bytes (block `k` spanning
/// `k * s ..= k * s + s - 1`) have to be erased (see `block_needs_erase`).
pub open spec fn count_needed_blocks(
    have: Option<&[u8]>,
    want: Option<&[u8]>,
    region_start: u32,
    region_end: u32,
    granularity: WriteGranularity,
    s: int,
    lo: int,
    hi: int,
) -> int
    decreases hi - lo,
{
    if hi <= lo {
        0
    } else {
        count_needed_blocks(have, want, region_start, region_end, granularity, s, lo, hi - 1)
            + if block_needs_erase(have, want, region_start, region_end, granularity, (hi - 1) * s,
            (hi - 1) * s + s - 1) {
            1int
        } else {
            0int
        }
    }
}

/// Some operation erases all of `start..start + len`.
pub open spec fn ops_cover(ops: Seq<OptimalEraseOp>, start: int, len: int) -> bool {
    exists|j: int| 0 <= j < ops.len() && (#[trigger] ops[j]).start <= start
        && start + len <= ops[j].start + ops[j].size
}

/// The plan erases every smallest-size block that has to be erased: for
/// the smallest candidate erase size `s`, each block `k * s ..= k * s + s - 1`
/// of the chip for which `block_needs_erase` holds lies inside some
/// operation.
pub open spec fn plan_covers(
    ops: Seq<OptimalEraseOp>,
    erase_blocks: Seq<EraseBlock>,
    flash_size: u32,
    have: Option<&[u8]>,
    want: Option<&[u8]>,
    region_start: u32,
    region_end: u32,
    granularity: WriteGranularity,
) -> bool {
    forall|i: int, k: int| 0 <= i < erase_blocks.len()
        && #[trigger] is_level_candidate(erase_blocks[i], flash_size)
        && (forall|j: int| 0 <= j < erase_blocks.len() && #[trigger] is_level_candidate(erase_blocks[j], flash_size)
            ==> erase_blocks[i].spec_min_block_size() <= erase_blocks[j].spec_min_block_size())
        && 0 <= k < flash_size / erase_blocks[i].spec_min_block_size()
        && #[trigger] block_needs_erase(have, want, region_start, region_end, granularity,
            k * erase_blocks[i].spec_min_block_size(),
            k * erase_blocks[i].spec_min_block_size() + erase_blocks[i].spec_min_block_size() - 1)
        ==> ops_cover(ops, k * erase_blocks[i].spec_min_block_size(), erase_blocks[i].spec_min_block_size() as int)
}

/// The plan erases a larger block only where enough of it has to be
/// erased: for the smallest candidate erase size `s`, every operation
/// larger than `s` holds a block of `s` bytes that has to be erased, and
/// one of the next candidate size above `s` has more than half of its
/// bytes in such blocks (otherwise the plan erases those blocks alone).
pub open spec fn promotions_justified(
    ops: Seq<OptimalEraseOp>,
    erase_blocks: Seq<EraseBlock>,
    flash_size: u32,
    have: Option<&[u8]>,
    want: Option<&[u8]>,
    region_start: u32,
    region_end: u32,
    granularity: WriteGranularity,
) -> bool {
    forall|i: int, j: int| 0 <= i < erase_blocks.len()
        && #[trigger] is_level_candidate(erase_blocks[i], flash_size)
        && (forall|c: int| 0 <= c < erase_blocks.len() && #[trigger] is_level_candidate(erase_blocks[c], flash_size)
            ==> erase_blocks[i].spec_min_block_size() <= erase_blocks[c].spec_min_block_size())
        && 0 <= j < ops.len() && erase_blocks[i].spec_min_block_size() < (#[trigger] ops[j]).size
        ==> {
            let s = erase_blocks[i].spec_min_block_size() as int;
            &&& exists|k: int| ops[j].start <= k * s && k * s + s <= ops[j].start + ops[j].size
                && #[trigger] block_needs_erase(have, want, region_start, region_end, granularity, k * s, k * s + s - 1)
            &&& (forall|c: int| 0 <= c < erase_blocks.len() && #[trigger] is_level_candidate(erase_blocks[c], flash_size)
                ==> !(s < erase_blocks[c].spec_min_block_size() < ops[j].size))
                ==> 2 * s * count_needed_blocks(have, want, region_start, region_end, granularity, s,
                    ops[j].start as int / s, (ops[j].start + ops[j].size) / s) > ops[j].size
        }
}

/// Plan optimal erase operations for a region.
///
/// Returns the erase operations, sorted by address, that erase what has to
/// be erased in `region_start..=region_end` with few commands. With
/// `have` and `want` given (the current and the desired contents, either
/// of the whole chip or of the region alone), only blocks whose contents
/// cannot be programmed without an erase are erased; otherwise the whole
/// region is. When the region is the whole chip and more than half of it
/// would be erased, a single chip erase is used if the chip has one.
pub fn plan_optimal_erase(
    erase_blocks: &[EraseBlock],
    flash_size: u32,
    have: Option<&[u8]>,
    want: Option<&[u8]>,
    region_start: u32,
    region_end: u32,
    granularity: WriteGranularity,
) -> (ops: Vec<OptimalEraseOp>)
    requires
        (have is Some && want is Some) ==> want->0@.len() >= have->0@.len() && region_start <= region_end,
    ensures
        aligned_erase_sizes(erase_blocks@, flash_size) ==> forall|i: int, j: int| 0 <= i < j < ops@.len()
            ==> ops@[i].start + ops@[i].size <= ops@[j].start,
        forall|i: int, j: int| 0 <= i < j < ops@.len() ==> ops@[i].start <= ops@[j].start,
        (forall|i: int| 0 <= i < erase_blocks@.len() ==> !#[trigger] is_level_candidate(erase_blocks@[i], flash_size))
            ==> ops@.len() == 0,
        (ops@.len() == 1 && is_chip_op(ops@[0], erase_blocks@, flash_size) && region_start == 0
            && region_end >= flash_size - 1)
        || forall|j: int| 0 <= j < ops@.len() ==> {
            &&& is_block_op(#[trigger] ops@[j], erase_blocks@, flash_size, region_start, region_end)
            &&& (exists|i: int| 0 <= i < erase_blocks@.len() && #[trigger] is_level_candidate(erase_blocks@[i], flash_size)
                && erase_blocks@[i].spec_min_block_size() < ops@[j].size)
                ==> region_start <= ops@[j].start && ops@[j].start + ops@[j].size - 1 <= region_end
        },
        aligned_erase_sizes(erase_blocks@, flash_size)
            ==> plan_covers(ops@, erase_blocks@, flash_size, have, want, region_start, region_end, granularity),
        aligned_erase_sizes(erase_blocks@, flash_size) ==> (ops@.len() == 1 && is_chip_op(ops@[0], erase_blocks@,
            flash_size) && region_start == 0 && region_end >= flash_size - 1) || promotions_justified(ops@,
            erase_blocks@, flash_size, have, want, region_start, region_end, granularity),
{
    let levels = erase_levels(erase_blocks, flash_size);
    let nl = levels.len();
    if nl == 0 {
        proof {
            assert forall|i: int| 0 <= i < erase_blocks@.len()
                implies !#[trigger] is_level_candidate(erase_blocks@[i], flash_size) by {
                if is_level_candidate(erase_blocks@[i], flash_size) {
                    let j = choose|j: int| 0 <= j < levels@.len()
                        && #[trigger] erase_blocks@[levels@[j] as int].spec_min_block_size() == erase_blocks@[i].spec_min_block_size();
                }
            }
        }
        return Vec::new();
    }
    // Build the hierarchy: sizes, block counts and selection offsets.
    let mut sizes: Vec<u32> = Vec::new();
    let mut counts: Vec<usize> = Vec::new();
    let mut offsets: Vec<usize> = Vec::new();
    let mut sel: Vec<bool> = Vec::new();
    offsets.push(0);
    let mut li: usize = 0;
    while li < nl
        invariant
            nl == levels@.len(),
            valid_levels(erase_blocks@, flash_size, levels@),
            li <= nl,
            sizes@.len() == li,
            counts@.len() == li,
            offsets@.len() == li + 1,
            offsets@[0] == 0,
            offsets@[li as int] == sel@.len(),
            forall|l: int| 0 <= l < li ==> {
                &&& #[trigger] sizes@[l] == erase_blocks@[levels@[l] as int].spec_min_block_size()
                &&& counts@[l] == flash_size / sizes@[l]
                &&& offsets@[l + 1] == offsets@[l] + counts@[l]
            },
            forall|l: int, m: int| 0 <= l <= m <= li ==> #[trigger] offsets@[l] <= #[trigger] offsets@[m],
            forall|x: int| 0 <= x < sel@.len() ==> !#[trigger] sel@[x],
        decreases nl - li,
    {
        let size = erase_blocks[levels[li]].min_block_size();
        proof {
            assert(levels@[li as int] < erase_blocks@.len());
            assert(is_level_candidate(erase_blocks@[levels@[li as int] as int], flash_size));
        }
        let count = (flash_size / size) as usize;
        let ghost start_len = sel@.len();
        let mut c: usize = 0;
        while c < count
            invariant
                c <= count,
                sel@.len() == start_len + c,
                forall|x: int| 0 <= x < sel@.len() ==> !#[trigger] sel@[x],
            decreases count - c,
        {
            sel.push(false);
            c = c + 1;
        }
        let ghost old_sizes = sizes@;
        let ghost old_counts = counts@;
        let ghost old_offsets = offsets@;
        sizes.push(size);
        counts.push(count);
        offsets.push(sel.len());
        proof {
            assert forall|l: int, m: int| 0 <= l <= m <= li + 1 implies #[trigger] offsets@[l] <= #[trigger] offsets@[m] by {
                if m <= li {
                    assert(offsets@[l] == old_offsets[l] && offsets@[m] == old_offsets[m]);
                } else if l <= li {
                    assert(offsets@[l] == old_offsets[l]);
                    assert(old_offsets[l] <= old_offsets[li as int]);
                }
            }
            assert forall|l: int| 0 <= l < li + 1 implies {
                &&& #[trigger] sizes@[l] == erase_blocks@[levels@[l] as int].spec_min_block_size()
                &&& counts@[l] == flash_size / sizes@[l]
                &&& offsets@[l + 1] == offsets@[l] + counts@[l]
            } by {
                if l < li {
                    assert(sizes@[l] == old_sizes[l]);
                    assert(counts@[l] == old_counts[l]);
                    assert(offsets@[l] == old_offsets[l]);
                    assert(offsets@[l + 1] == old_offsets[l + 1]);
                    assert(old_sizes[l] == erase_blocks@[levels@[l] as int].spec_min_block_size());
                }
            }
        }
        li = li + 1;
    }
    let buffer_offset: u32 = match have {
        Some(h) => if (h.len() as u64) < (region_end as u64 + 1) { region_start } else { 0 },
        None => 0,
    };
    let planner = Planner {
        sizes,
        counts,
        offsets,
        flash_size,
        have,
        want,
        region_start,
        region_end,
        granularity,
        buffer_offset,
    };
    proof {
        assert forall|l: int| 0 <= l < planner.levels() implies {
            &&& 0 < #[trigger] planner.sz(l) < planner.flash_size
            &&& planner.cnt(l) == planner.flash_size as int / planner.sz(l)
            &&& planner.offsets@[l + 1] == planner.offsets@[l] + planner.cnt(l)
        } by {
            assert(planner.sizes@[l] == erase_blocks@[levels@[l] as int].spec_min_block_size());
            assert(is_level_candidate(erase_blocks@[levels@[l] as int], flash_size));
        }
        assert forall|l: int, m: int| 0 <= l < m < planner.levels() implies #[trigger] planner.sz(l) < #[trigger] planner.sz(m) by {
            assert(planner.sizes@[l] == erase_blocks@[levels@[l] as int].spec_min_block_size());
            assert(planner.sizes@[m] == erase_blocks@[levels@[m] as int].spec_min_block_size());
        }
        assert(planner.wf());
    }
    proof {
        assert(is_level_candidate(erase_blocks@[levels@[0] as int], flash_size));
        assert forall|l: int, b: int| planner.valid(l, b) && #[trigger] sel@[planner.idx(l, b)]
            implies planner.justified(l, b) by {
            planner.lemma_block_bounds(l, b);
        }
    }
    let ops = plan_with(erase_blocks, &levels, &planner, sel);
    proof {
        if aligned_erase_sizes(erase_blocks@, flash_size) {
            lemma_aligned_divisible(erase_blocks@, levels@, planner);
        }
    }
    ops
}

/// Plan optimal erase operations for a region with explicit erase (no
/// content comparison): every block overlapping the region is erased.
pub fn plan_optimal_erase_region(
    erase_blocks: &[EraseBlock],
    flash_size: u32,
    region_start: u32,
    region_end: u32,
) -> (ops: Vec<OptimalEraseOp>)
    ensures
        aligned_erase_sizes(erase_blocks@, flash_size) ==> forall|i: int, j: int| 0 <= i < j < ops@.len()
            ==> ops@[i].start + ops@[i].size <= ops@[j].start,
        forall|i: int, j: int| 0 <= i < j < ops@.len() ==> ops@[i].start <= ops@[j].start,
        (forall|i: int| 0 <= i < erase_blocks@.len() ==> !#[trigger] is_level_candidate(erase_blocks@[i], flash_size))
            ==> ops@.len() == 0,
        (ops@.len() == 1 && is_chip_op(ops@[0], erase_blocks@, flash_size) && region_start == 0
            && region_end >= flash_size - 1)
        || forall|j: int| 0 <= j < ops@.len() ==> {
            &&& is_block_op(#[trigger] ops@[j], erase_blocks@, flash_size, region_start, region_end)
            &&& (exists|i: int| 0 <= i < erase_blocks@.len() && #[trigger] is_level_candidate(erase_blocks@[i], flash_size)
                && erase_blocks@[i].spec_min_block_size() < ops@[j].size)
                ==> region_start <= ops@[j].start && ops@[j].start + ops@[j].size - 1 <= region_end
        },
        aligned_erase_sizes(erase_blocks@, flash_size)
            ==> plan_covers(ops@, erase_blocks@, flash_size, None, None, region_start, region_end, WriteGranularity::Byte),
        aligned_erase_sizes(erase_blocks@, flash_size) ==> (ops@.len() == 1 && is_chip_op(ops@[0], erase_blocks@,
            flash_size) && region_start == 0 && region_end >= flash_size - 1) || promotions_justified(ops@,
            erase_blocks@, flash_size, None, None, region_start, region_end, WriteGranularity::Byte),
{
    plan_optimal_erase(erase_blocks, flash_size, None, None, region_start, region_end, WriteGranularity::Byte)
}

} // verus!
