//! The chip database as the code generator sees it: every vendor's
//! definitions, checked before code is generated from them.
use vstd::prelude::*;
use crate::chip_defs::{chip_error, first_chip_error, EraseBlockDef, VendorDef};

verus! {

/// Error type for code generation
#[derive(Debug, Clone, PartialEq, Eq)]
pub enum CodegenError {
    /// A vendor definition breaks a rule of the chip database
    Validation(String),
}

/// Complete chip database
#[derive(Debug, Clone)]
pub struct ChipDatabase {
    /// The vendors, each with its chips
    pub vendors: Vec<VendorDef>,
}

/// The vendor has no chip that breaks a rule.
pub open spec fn vendor_valid(v: VendorDef) -> bool {
    forall|i: int| 0 <= i < v.chips@.len() ==> #[trigger] chip_error(v.vendor@, v.chips@, i) is None
}

/// Chips over the first `n` vendors.
pub open spec fn chips_in(vendors: Seq<VendorDef>, n: int) -> int
    decreases n,
{
    if n <= 0 {
        0
    } else {
        chips_in(vendors, n - 1) + vendors[n - 1].chips@.len()
    }
}

proof fn lemma_chips_in_monotonic(vendors: Seq<VendorDef>, i: int, j: int)
    requires
        0 <= i <= j <= vendors.len(),
    ensures
        chips_in(vendors, i) <= chips_in(vendors, j),
    decreases j - i,
{
    if i < j {
        lemma_chips_in_monotonic(vendors, i, j - 1);
    }
}

impl ChipDatabase {
    /// Validate the chip database using the shared RON rules: the first
    /// vendor that breaks a rule fails it, with that vendor's message.
    pub fn validate(&self) -> (r: Result<(), CodegenError>)
        ensures
            match r {
                Ok(()) => forall|k: int| 0 <= k < self.vendors@.len() ==> #[trigger] vendor_valid(self.vendors@[k]),
                Err(CodegenError::Validation(m)) => exists|k: int| 0 <= k < self.vendors@.len()
                    && first_chip_error(self.vendors@[k].vendor@, self.vendors@[k].chips@, m@)
                    && forall|j: int| 0 <= j < k ==> #[trigger] vendor_valid(self.vendors@[j]),
            },
    {
        let n = self.vendors.len();
        let mut k: usize = 0;
        while k < n
            invariant
                n == self.vendors@.len(),
                k <= n,
                forall|j: int| 0 <= j < k ==> #[trigger] vendor_valid(self.vendors@[j]),
            decreases n - k,
        {
            match self.vendors[k].validate() {
                Ok(()) => {},
                Err(m) => {
                    return Err(CodegenError::Validation(m));
                },
            }
            k += 1;
        }
        Ok(())
    }

    /// Get total chip count
    pub fn chip_count(&self) -> (r: usize)
        requires
            chips_in(self.vendors@, self.vendors@.len() as int) <= usize::MAX,
        ensures
            r == chips_in(self.vendors@, self.vendors@.len() as int),
    {
        let n = self.vendors.len();
        let mut total: usize = 0;
        let mut k: usize = 0;
        while k < n
            invariant
                n == self.vendors@.len(),
                k <= n,
                total == chips_in(self.vendors@, k as int),
                chips_in(self.vendors@, n as int) <= usize::MAX,
            decreases n - k,
        {
            proof {
                lemma_chips_in_monotonic(self.vendors@, k + 1, n as int);
            }
            total = total + self.vendors[k].chips.len();
            k += 1;
        }
        total
    }
}

/// The constructor the generated code uses for an erase block.
#[derive(Debug, Clone, Copy, PartialEq, Eq, Structural)]
pub enum EraseBlockForm {
    /// One block covering the region: `EraseBlock::new(opcode, size)`
    Single,
    /// Uniform blocks: `EraseBlock::with_count(opcode, size, count)`
    Uniform,
    /// Anything else: `EraseBlock::with_regions_and_4b(opcode, opcode_4b, regions)`
    Regions,
}

/// The form for an erase block: one region without a 4-byte opcode is
/// written with the simple constructors, anything else with its regions.
pub open spec fn spec_erase_block_form(eb: EraseBlockDef) -> EraseBlockForm {
    if eb.regions@.len() == 1 && eb.opcode_4b is None {
        if eb.regions@[0].count == 1 { EraseBlockForm::Single } else { EraseBlockForm::Uniform }
    } else {
        EraseBlockForm::Regions
    }
}

/// Choose the constructor for an erase block.
pub fn erase_block_form(eb: &EraseBlockDef) -> (r: EraseBlockForm)
    ensures
        r == spec_erase_block_form(*eb),
{
    if eb.regions.len() == 1 && eb.opcode_4b.is_none() {
        if eb.regions[0].count == 1 {
            EraseBlockForm::Single
        } else {
            EraseBlockForm::Uniform
        }
    } else {
        EraseBlockForm::Regions
    }
}

} // verus!
