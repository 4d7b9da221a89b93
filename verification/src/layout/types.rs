//! Layout types: regions, layouts and their errors.
use vstd::prelude::*;

verus! {

/// The character code of `c` after ASCII lower-casing: `A`..=`Z` become
/// `a`..=`z`, every other character is unchanged.
pub open spec fn ascii_lower(c: char) -> int {
    if 65 <= (c as int) && (c as int) <= 90 {
        (c as int) + 32
    } else {
        c as int
    }
}

/// `a` and `b` are equal up to ASCII case.
pub open spec fn eq_ignoring_ascii_case(a: Seq<char>, b: Seq<char>) -> bool {
    &&& a.len() == b.len()
    &&& forall|i: int| 0 <= i < a.len() ==> #[trigger] ascii_lower(a[i]) == ascii_lower(b[i])
}

/// `str::eq_ignore_ascii_case`: whether the two strings are equal once
/// each ASCII letter is lower-cased (other characters compare as they are).
#[verifier::external_body]
fn str_eq_ignore_ascii_case(a: &str, b: &str) -> (r: bool)
    ensures
        r == eq_ignoring_ascii_case(a@, b@),
{
    a.eq_ignore_ascii_case(b)
}

/// A named region within a flash chip
#[derive(Debug)]
pub struct Region {
    /// Name of the region
    pub name: String,
    /// Start address (inclusive)
    pub start: u32,
    /// End address (inclusive)
    pub end: u32,
    /// Whether this region is read-only (prevents writes)
    pub readonly: bool,
    /// Whether this region is dangerous to modify (shows warning)
    pub dangerous: bool,
    /// Whether this region is included in operations
    pub included: bool,
}

impl Region {
    /// Create a new region: neither read-only, dangerous nor included.
    pub fn new(name: &str, start: u32, end: u32) -> (r: Region)
        ensures
            r.name@ == name@,
            r.start == start,
            r.end == end,
            !r.readonly,
            !r.dangerous,
            !r.included,
    {
        Region {
            name: name.to_owned(),
            start,
            end,
            readonly: false,
            dangerous: false,
            included: false,
        }
    }

    /// The size of the region in bytes.
    pub open spec fn spec_size(self) -> int {
        self.end - self.start + 1
    }

    /// Get the size of this region in bytes
    pub fn size(&self) -> (r: u32)
        requires
            self.start <= self.end,
            self.spec_size() <= u32::MAX,
        ensures
            r == self.spec_size(),
    {
        self.end - self.start + 1
    }

    /// `addr` lies within the region.
    pub open spec fn spec_contains(self, addr: u32) -> bool {
        self.start <= addr <= self.end
    }

    /// Check if an address is within this region
    pub fn contains(&self, addr: u32) -> (r: bool)
        ensures
            r == self.spec_contains(addr),
    {
        addr >= self.start && addr <= self.end
    }

    /// The two regions share at least one address.
    pub open spec fn spec_overlaps(self, other: Region) -> bool {
        self.start <= other.end && other.start <= self.end
    }

    /// Check if this region overlaps with another
    pub fn overlaps(&self, other: &Region) -> (r: bool)
        ensures
            r == self.spec_overlaps(*other),
    {
        self.start <= other.end && other.start <= self.end
    }

    /// Both the start and the address just past the end are multiples of
    /// `alignment` (a multiple of 0 being 0 alone).
    pub open spec fn spec_is_aligned(self, alignment: u32) -> bool {
        &&& is_multiple_of(self.start as int, alignment as int)
        &&& is_multiple_of(self.end + 1, alignment as int)
    }

    /// Check if this region is aligned to the given boundary
    pub fn is_aligned(&self, alignment: u32) -> (r: bool)
        requires
            self.end < u32::MAX,
        ensures
            r == self.spec_is_aligned(alignment),
    {
        let past_end = self.end + 1;
        if alignment == 0 {
            self.start == 0 && past_end == 0
        } else {
            self.start % alignment == 0 && past_end % alignment == 0
        }
    }

    /// A copy of the region.
    pub fn duplicate(&self) -> (r: Region)
        ensures
            r.name@ == self.name@,
            r.start == self.start,
            r.end == self.end,
            r.readonly == self.readonly,
            r.dangerous == self.dangerous,
            r.included == self.included,
    {
        Region {
            name: self.name.clone(),
            start: self.start,
            end: self.end,
            readonly: self.readonly,
            dangerous: self.dangerous,
            included: self.included,
        }
    }
}

/// `n` is a multiple of `m`, as `u32::is_multiple_of` has it: for `m == 0`
/// only `n == 0` is.
pub open spec fn is_multiple_of(n: int, m: int) -> bool {
    if m == 0 {
        n == 0
    } else {
        n % m == 0
    }
}

/// Source of the layout information
#[derive(Debug, Clone, Copy, PartialEq, Eq, Structural)]
pub enum LayoutSource {
    /// Layout loaded from a TOML file
    Toml,
    /// Layout parsed from Intel Flash Descriptor
    Ifd,
    /// Layout parsed from FMAP structure
    Fmap,
    /// Layout created manually
    Manual,
}

/// Errors that can occur when working with layouts
#[derive(Debug, Clone, PartialEq, Eq, Structural)]
pub enum LayoutError {
    /// Region not found by name
    RegionNotFound,
    /// Region extends beyond chip size
    RegionOutOfBounds,
    /// Region has invalid bounds (start > end)
    InvalidRegion,
    /// Two regions overlap
    OverlappingRegions,
    /// Two regions have the same name
    DuplicateRegionName,
    /// Chip size doesn't match expected
    ChipSizeMismatch {
        /// Expected chip size
        expected: u32,
        /// Actual chip size
        actual: u32,
    },
    /// Failed to parse layout file
    ParseError,
    /// Invalid IFD signature
    InvalidIfdSignature,
    /// Invalid FMAP signature
    InvalidFmapSignature,
    /// FMAP version not supported
    UnsupportedFmapVersion,
    /// I/O error
    IoError,
}

/// A flash memory layout containing named regions
#[derive(Debug)]
pub struct Layout {
    /// Optional name for this layout
    pub name: Option<String>,
    /// Expected chip size (for validation)
    pub chip_size: Option<u32>,
    /// Source of this layout
    pub source: LayoutSource,
    /// Regions in this layout
    pub regions: Vec<Region>,
}

/// The region named `name` (up to ASCII case) at index `i` is the first
/// such region of `regions`.
pub open spec fn first_named(regions: Seq<Region>, name: Seq<char>, i: int) -> bool {
    &&& 0 <= i < regions.len()
    &&& eq_ignoring_ascii_case(regions[i].name@, name)
    &&& forall|k: int| 0 <= k < i ==> !eq_ignoring_ascii_case(#[trigger] regions[k].name@, name)
}

/// No region of `regions` is named `name` (up to ASCII case).
pub open spec fn none_named(regions: Seq<Region>, name: Seq<char>) -> bool {
    forall|k: int| 0 <= k < regions.len() ==> !eq_ignoring_ascii_case(#[trigger] regions[k].name@, name)
}

/// `new` is `old` with the `included` flag of the region at `i` set to `flag`.
pub open spec fn with_included(old: Seq<Region>, new: Seq<Region>, i: int, flag: bool) -> bool {
    &&& new.len() == old.len()
    &&& new[i] == (Region { included: flag, ..old[i] })
    &&& forall|k: int| 0 <= k < old.len() && k != i ==> #[trigger] new[k] == old[k]
}

impl Layout {
    /// Create a new empty layout
    pub fn new() -> (r: Layout)
        ensures
            r.name is None,
            r.chip_size is None,
            r.source == LayoutSource::Manual,
            r.regions@.len() == 0,
    {
        Layout { name: None, chip_size: None, source: LayoutSource::Manual, regions: Vec::new() }
    }

    /// Create a layout with a specific source
    pub fn with_source(source: LayoutSource) -> (r: Layout)
        ensures
            r.name is None,
            r.chip_size is None,
            r.source == source,
            r.regions@.len() == 0,
    {
        Layout { name: None, chip_size: None, source, regions: Vec::new() }
    }

    /// Add a region to the layout
    pub fn add_region(&mut self, region: Region)
        ensures
            final(self).regions@ == old(self).regions@.push(region),
            final(self).name == old(self).name,
            final(self).chip_size == old(self).chip_size,
            final(self).source == old(self).source,
    {
        self.regions.push(region);
    }

    /// Index of the first region named `name` (case-insensitive).
    fn find_index(&self, name: &str) -> (r: Option<usize>)
        ensures
            match r {
                Some(i) => first_named(self.regions@, name@, i as int),
                None => none_named(self.regions@, name@),
            },
    {
        let mut i: usize = 0;
        while i < self.regions.len()
            invariant
                i <= self.regions@.len(),
                forall|k: int| 0 <= k < i ==> !eq_ignoring_ascii_case(#[trigger] self.regions@[k].name@, name@),
            decreases self.regions@.len() - i,
        {
            if str_eq_ignore_ascii_case(self.regions[i].name.as_str(), name) {
                return Some(i);
            }
            i += 1;
        }
        None
    }

    /// Find a region by name (case-insensitive)
    pub fn find_region(&self, name: &str) -> (r: Option<&Region>)
        ensures
            match r {
                Some(reg) => exists|i: int| first_named(self.regions@, name@, i) && *reg == self.regions@[i],
                None => none_named(self.regions@, name@),
            },
    {
        match self.find_index(name) {
            Some(i) => Some(&self.regions[i]),
            None => None,
        }
    }

    /// Set the `included` flag of the region at `i`.
    fn set_included(&mut self, i: usize, flag: bool)
        requires
            i < old(self).regions@.len(),
        ensures
            with_included(old(self).regions@, final(self).regions@, i as int, flag),
            final(self).name == old(self).name,
            final(self).chip_size == old(self).chip_size,
            final(self).source == old(self).source,
    {
        self.regions[i].included = flag;
    }

    /// Find a region by name (case-insensitive), mutable
    pub fn find_region_mut(&mut self, name: &str) -> (r: Option<&mut Region>)
        ensures
            match r {
                Some(reg) => exists|i: int| {
                    &&& first_named(old(self).regions@, name@, i)
                    &&& *reg == old(self).regions@[i]
                    &&& final(self).regions@ == old(self).regions@.update(i, *final(reg))
                },
                None => {
                    &&& none_named(old(self).regions@, name@)
                    &&& final(self).regions@ == old(self).regions@
                },
            },
            final(self).name == old(self).name,
            final(self).chip_size == old(self).chip_size,
            final(self).source == old(self).source,
    {
        match self.find_index(name) {
            Some(i) => Some(&mut self.regions[i]),
            None => None,
        }
    }

    /// Mark a region as included
    pub fn include_region(&mut self, name: &str) -> (r: Result<(), LayoutError>)
        ensures
            match r {
                Ok(()) => exists|i: int| first_named(old(self).regions@, name@, i)
                    && with_included(old(self).regions@, final(self).regions@, i, true),
                Err(e) => e == LayoutError::RegionNotFound && none_named(old(self).regions@, name@)
                    && final(self).regions@ == old(self).regions@,
            },
            final(self).name == old(self).name,
            final(self).chip_size == old(self).chip_size,
            final(self).source == old(self).source,
    {
        match self.find_index(name) {
            Some(i) => {
                self.set_included(i, true);
                Ok(())
            },
            None => Err(LayoutError::RegionNotFound),
        }
    }

    /// Mark a region as excluded
    pub fn exclude_region(&mut self, name: &str) -> (r: Result<(), LayoutError>)
        ensures
            match r {
                Ok(()) => exists|i: int| first_named(old(self).regions@, name@, i)
                    && with_included(old(self).regions@, final(self).regions@, i, false),
                Err(e) => e == LayoutError::RegionNotFound && none_named(old(self).regions@, name@)
                    && final(self).regions@ == old(self).regions@,
            },
            final(self).name == old(self).name,
            final(self).chip_size == old(self).chip_size,
            final(self).source == old(self).source,
    {
        match self.find_index(name) {
            Some(i) => {
                self.set_included(i, false);
                Ok(())
            },
            None => Err(LayoutError::RegionNotFound),
        }
    }

    /// Include all regions
    pub fn include_all(&mut self)
        ensures
            final(self).regions@.len() == old(self).regions@.len(),
            forall|k: int| 0 <= k < old(self).regions@.len() ==> #[trigger] final(self).regions@[k]
                == (Region { included: true, ..old(self).regions@[k] }),
            final(self).name == old(self).name,
            final(self).chip_size == old(self).chip_size,
            final(self).source == old(self).source,
    {
        self.set_all_included(true);
    }

    /// Exclude all regions
    pub fn exclude_all(&mut self)
        ensures
            final(self).regions@.len() == old(self).regions@.len(),
            forall|k: int| 0 <= k < old(self).regions@.len() ==> #[trigger] final(self).regions@[k]
                == (Region { included: false, ..old(self).regions@[k] }),
            final(self).name == old(self).name,
            final(self).chip_size == old(self).chip_size,
            final(self).source == old(self).source,
    {
        self.set_all_included(false);
    }

    /// Set the `included` flag of every region to `flag`.
    fn set_all_included(&mut self, flag: bool)
        ensures
            final(self).regions@.len() == old(self).regions@.len(),
            forall|k: int| 0 <= k < old(self).regions@.len() ==> #[trigger] final(self).regions@[k]
                == (Region { included: flag, ..old(self).regions@[k] }),
            final(self).name == old(self).name,
            final(self).chip_size == old(self).chip_size,
            final(self).source == old(self).source,
    {
        let ghost before = self.regions@;
        let mut i: usize = 0;
        while i < self.regions.len()
            invariant
                i <= self.regions@.len(),
                self.regions@.len() == before.len(),
                forall|k: int| 0 <= k < i ==> #[trigger] self.regions@[k]
                    == (Region { included: flag, ..before[k] }),
                forall|k: int| i <= k < before.len() ==> #[trigger] self.regions@[k] == before[k],
                self.name == old(self).name,
                self.chip_size == old(self).chip_size,
                self.source == old(self).source,
            decreases self.regions@.len() - i,
        {
            self.set_included(i, flag);
            i += 1;
        }
    }

    /// Get all included regions
    pub fn included_regions(&self) -> (r: Vec<&Region>)
        ensures
            deref_all(r@) == self.regions@.filter(|x: Region| x.included),
    {
        let r = self.collect(Selection::Included);
        assert((|x: Region| selected(Selection::Included, x)) =~= (|x: Region| x.included));
        r
    }

    /// Get dangerous regions that are included
    pub fn dangerous_included(&self) -> (r: Vec<&Region>)
        ensures
            deref_all(r@) == self.regions@.filter(|x: Region| x.included && x.dangerous),
    {
        let r = self.collect(Selection::Dangerous);
        assert((|x: Region| selected(Selection::Dangerous, x)) =~= (|x: Region| x.included && x.dangerous));
        r
    }

    /// Get readonly regions that are included
    pub fn readonly_included(&self) -> (r: Vec<&Region>)
        ensures
            deref_all(r@) == self.regions@.filter(|x: Region| x.included && x.readonly),
    {
        let r = self.collect(Selection::Readonly);
        assert((|x: Region| selected(Selection::Readonly, x)) =~= (|x: Region| x.included && x.readonly));
        r
    }

    /// The regions that `sel` selects, in layout order.
    fn collect(&self, sel: Selection) -> (r: Vec<&Region>)
        ensures
            deref_all(r@) == self.regions@.filter(|x: Region| selected(sel, x)),
    {
        let ghost pred = |x: Region| selected(sel, x);
        let mut out: Vec<&Region> = Vec::new();
        proof {
            reveal(Seq::filter);
            assert(self.regions@.take(0).filter(pred) =~= Seq::<Region>::empty());
            assert(deref_all(out@) =~= Seq::<Region>::empty());
        }
        let mut i: usize = 0;
        while i < self.regions.len()
            invariant
                i <= self.regions@.len(),
                pred == (|x: Region| selected(sel, x)),
                deref_all(out@) == self.regions@.take(i as int).filter(pred),
            decreases self.regions@.len() - i,
        {
            let reg = &self.regions[i];
            proof {
                assert(self.regions@.take(i + 1).drop_last() =~= self.regions@.take(i as int));
            }
            let take = match sel {
                Selection::Included => reg.included,
                Selection::Dangerous => reg.included && reg.dangerous,
                Selection::Readonly => reg.included && reg.readonly,
            };
            proof {
                let s1 = self.regions@.take(i + 1);
                assert(s1.last() == self.regions@[i as int]);
                assert(pred(self.regions@[i as int]) == take);
                reveal(Seq::filter);
                assert(s1.filter(pred) == if take {
                    s1.drop_last().filter(pred).push(s1.last())
                } else {
                    s1.drop_last().filter(pred)
                });
            }
            if take {
                out.push(reg);
                assert(deref_all(out@) =~= deref_all(out@.drop_last()).push(*reg));
            }
            i += 1;
        }
        assert(self.regions@.take(i as int) =~= self.regions@);
        out
    }

    /// Check if any regions are included
    pub fn has_included_regions(&self) -> (r: bool)
        ensures
            r == exists|k: int| 0 <= k < self.regions@.len() && (#[trigger] self.regions@[k]).included,
    {
        let mut i: usize = 0;
        while i < self.regions.len()
            invariant
                i <= self.regions@.len(),
                forall|k: int| 0 <= k < i ==> !(#[trigger] self.regions@[k]).included,
            decreases self.regions@.len() - i,
        {
            if self.regions[i].included {
                return true;
            }
            i += 1;
        }
        false
    }

    /// Get the number of regions
    pub fn len(&self) -> (r: usize)
        ensures
            r == self.regions@.len(),
    {
        self.regions.len()
    }

    /// Check if the layout is empty
    pub fn is_empty(&self) -> (r: bool)
        ensures
            r == (self.regions@.len() == 0),
    {
        self.regions.len() == 0
    }

    /// Update a region's end address
    pub fn update_region_end(&mut self, name: &str, new_end: u32) -> (r: Result<(), LayoutError>)
        ensures
            match r {
                Ok(()) => exists|i: int| {
                    &&& first_named(old(self).regions@, name@, i)
                    &&& old(self).regions@[i].start <= new_end
                    &&& final(self).regions@ == old(self).regions@.update(
                        i,
                        Region { end: new_end, ..old(self).regions@[i] },
                    )
                },
                Err(e) => final(self).regions@ == old(self).regions@ && (
                    (e == LayoutError::RegionNotFound && none_named(old(self).regions@, name@))
                    || (e == LayoutError::InvalidRegion && exists|i: int| first_named(old(self).regions@, name@, i)
                        && new_end < old(self).regions@[i].start)),
            },
            final(self).name == old(self).name,
            final(self).chip_size == old(self).chip_size,
            final(self).source == old(self).source,
    {
        match self.find_index(name) {
            Some(i) => {
                if new_end < self.regions[i].start {
                    return Err(LayoutError::InvalidRegion);
                }
                self.regions[i].end = new_end;
                Ok(())
            },
            None => Err(LayoutError::RegionNotFound),
        }
    }
}

impl Layout {
    /// What `validate` returns for a chip of `chip_size` bytes: a chip size
    /// mismatch first; then the first region, in order, that ends beyond the
    /// chip or starts after its end; then the first pair of regions, in
    /// order, that overlap or share a name (up to ASCII case).
    pub open spec fn spec_validate(self, chip_size: u32) -> Result<(), LayoutError> {
        let s = self.regions@;
        if self.chip_size is Some && self.chip_size->0 != chip_size {
            Err(LayoutError::ChipSizeMismatch { expected: self.chip_size->0, actual: chip_size })
        } else if exists|i: int| #[trigger] first_misfit(s, chip_size, i) && s[i].end >= chip_size {
            Err(LayoutError::RegionOutOfBounds)
        } else if exists|i: int| #[trigger] first_misfit(s, chip_size, i) {
            Err(LayoutError::InvalidRegion)
        } else if exists|i: int, j: int| #[trigger] first_clash(s, i, j) && s[i].spec_overlaps(s[j]) {
            Err(LayoutError::OverlappingRegions)
        } else if exists|i: int, j: int| #[trigger] first_clash(s, i, j) {
            Err(LayoutError::DuplicateRegionName)
        } else {
            Ok(())
        }
    }

    /// Validate the layout against a chip size
    pub fn validate(&self, chip_size: u32) -> (r: Result<(), LayoutError>)
        ensures
            r == self.spec_validate(chip_size),
    {
        let ghost s = self.regions@;
        if let Some(expected) = self.chip_size {
            if expected != chip_size {
                return Err(LayoutError::ChipSizeMismatch { expected, actual: chip_size });
            }
        }
        let n = self.regions.len();
        let mut i: usize = 0;
        while i < n
            invariant
                n == s.len(),
                s == self.regions@,
                !(self.chip_size is Some && self.chip_size->0 != chip_size),
                i <= n,
                forall|k: int| 0 <= k < i ==> #[trigger] region_fits(s[k], chip_size),
            decreases n - i,
        {
            let r = &self.regions[i];
            if r.end >= chip_size || r.start > r.end {
                proof {
                    assert(first_misfit(s, chip_size, i as int));
                    if r.end < chip_size {
                        assert forall|i2: int| #[trigger] first_misfit(s, chip_size, i2) implies i2 == i by {
                            lemma_first_misfit_unique(s, chip_size, i2, i as int);
                        }
                    }
                }
                if r.end >= chip_size {
                    return Err(LayoutError::RegionOutOfBounds);
                }
                return Err(LayoutError::InvalidRegion);
            }
            i += 1;
        }
        assert forall|i2: int| !#[trigger] first_misfit(s, chip_size, i2) by {
            if 0 <= i2 < s.len() {
                assert(region_fits(s[i2], chip_size));
            }
        }
        let mut i: usize = 0;
        while i < n
            invariant
                n == s.len(),
                s == self.regions@,
                !(self.chip_size is Some && self.chip_size->0 != chip_size),
                i <= n,
                forall|k: int| 0 <= k < n ==> #[trigger] region_fits(s[k], chip_size),
                forall|i2: int, j2: int| 0 <= i2 < j2 < n && i2 < i ==> !#[trigger] regions_clash(s[i2], s[j2]),
            decreases n - i,
        {
            let mut j: usize = i + 1;
            while j < n
                invariant
                    n == s.len(),
                    s == self.regions@,
                    !(self.chip_size is Some && self.chip_size->0 != chip_size),
                    forall|k: int| 0 <= k < n ==> #[trigger] region_fits(s[k], chip_size),
                    i < n,
                    i < j <= n,
                    forall|i2: int, j2: int| 0 <= i2 < j2 < n && pair_before(i2, j2, i as int, j as int)
                        ==> !#[trigger] regions_clash(s[i2], s[j2]),
                decreases n - j,
            {
                let a = &self.regions[i];
                let b = &self.regions[j];
                let ov = a.overlaps(b);
                if ov || str_eq_ignore_ascii_case(a.name.as_str(), b.name.as_str()) {
                    proof {
                        assert(first_clash(s, i as int, j as int));
                        if !ov {
                            assert forall|i2: int, j2: int| #[trigger] first_clash(s, i2, j2)
                                implies i2 == i && j2 == j by {
                                lemma_first_clash_unique(s, i2, j2, i as int, j as int);
                            }
                        }
                    }
                    if ov {
                        return Err(LayoutError::OverlappingRegions);
                    }
                    return Err(LayoutError::DuplicateRegionName);
                }
                j += 1;
            }
            i += 1;
        }
        assert forall|i2: int, j2: int| !#[trigger] first_clash(s, i2, j2) by {
            if 0 <= i2 < j2 < s.len() {
                assert(!regions_clash(s[i2], s[j2]));
            }
        }
        Ok(())
    }
}

/// The region lies within a chip of `chip_size` bytes and starts no later
/// than it ends.
pub open spec fn region_fits(r: Region, chip_size: u32) -> bool {
    r.end < chip_size && r.start <= r.end
}

/// Index `i` holds the first region of `s` that does not fit.
pub open spec fn first_misfit(s: Seq<Region>, chip_size: u32, i: int) -> bool {
    &&& 0 <= i < s.len()
    &&& !region_fits(s[i], chip_size)
    &&& forall|k: int| 0 <= k < i ==> #[trigger] region_fits(s[k], chip_size)
}

/// Two regions clash: they overlap or their names are equal up to ASCII case.
pub open spec fn regions_clash(a: Region, b: Region) -> bool {
    a.spec_overlaps(b) || eq_ignoring_ascii_case(a.name@, b.name@)
}

/// The pair `(i2, j2)` comes before `(i, j)` in row-by-row order.
pub open spec fn pair_before(i2: int, j2: int, i: int, j: int) -> bool {
    i2 < i || (i2 == i && j2 < j)
}

/// `(i, j)` is the first pair of regions of `s`, in row-by-row order, that clash.
pub open spec fn first_clash(s: Seq<Region>, i: int, j: int) -> bool {
    &&& 0 <= i < j < s.len()
    &&& regions_clash(s[i], s[j])
    &&& forall|i2: int, j2: int| 0 <= i2 < j2 < s.len() && pair_before(i2, j2, i, j)
        ==> !#[trigger] regions_clash(s[i2], s[j2])
}

proof fn lemma_misfit_has_first(s: Seq<Region>, chip_size: u32, k: int)
    requires
        0 <= k < s.len(),
        !region_fits(s[k], chip_size),
    ensures
        exists|i: int| #[trigger] first_misfit(s, chip_size, i),
    decreases k,
{
    if forall|j: int| 0 <= j < k ==> #[trigger] region_fits(s[j], chip_size) {
        assert(first_misfit(s, chip_size, k));
    } else {
        let j = choose|j: int| 0 <= j < k && !#[trigger] region_fits(s[j], chip_size);
        lemma_misfit_has_first(s, chip_size, j);
    }
}

proof fn lemma_clash_has_first(s: Seq<Region>, i: int, j: int)
    requires
        0 <= i < j < s.len(),
        regions_clash(s[i], s[j]),
    ensures
        exists|a: int, b: int| #[trigger] first_clash(s, a, b),
    decreases i, j,
{
    if forall|i2: int, j2: int| 0 <= i2 < j2 < s.len() && pair_before(i2, j2, i, j)
        ==> !#[trigger] regions_clash(s[i2], s[j2]) {
        assert(first_clash(s, i, j));
    } else {
        let (i2, j2) = choose|i2: int, j2: int| 0 <= i2 < j2 < s.len() && pair_before(i2, j2, i, j)
            && #[trigger] regions_clash(s[i2], s[j2]);
        lemma_clash_has_first(s, i2, j2);
    }
}

/// A layout that validates against a chip size has every region inside
/// the chip, starting no later than it ends, and no two regions that
/// overlap or share a name.
pub proof fn lemma_validated_layout(layout: Layout, chip_size: u32)
    requires
        layout.spec_validate(chip_size) is Ok,
    ensures
        forall|k: int| 0 <= k < layout.regions@.len() ==> #[trigger] region_fits(layout.regions@[k], chip_size),
        forall|i: int, j: int| 0 <= i < j < layout.regions@.len()
            ==> !#[trigger] regions_clash(layout.regions@[i], layout.regions@[j]),
{
    let s = layout.regions@;
    assert forall|k: int| 0 <= k < s.len() implies #[trigger] region_fits(s[k], chip_size) by {
        if !region_fits(s[k], chip_size) {
            lemma_misfit_has_first(s, chip_size, k);
        }
    }
    assert forall|i: int, j: int| 0 <= i < j < s.len() implies !#[trigger] regions_clash(s[i], s[j]) by {
        if regions_clash(s[i], s[j]) {
            lemma_clash_has_first(s, i, j);
        }
    }
}

proof fn lemma_first_misfit_unique(s: Seq<Region>, chip_size: u32, a: int, b: int)
    requires
        first_misfit(s, chip_size, a),
        first_misfit(s, chip_size, b),
    ensures
        a == b,
{
    if a < b {
        assert(region_fits(s[a], chip_size));
    } else if b < a {
        assert(region_fits(s[b], chip_size));
    }
}

proof fn lemma_first_clash_unique(s: Seq<Region>, i: int, j: int, i2: int, j2: int)
    requires
        first_clash(s, i, j),
        first_clash(s, i2, j2),
    ensures
        i == i2 && j == j2,
{
    if pair_before(i, j, i2, j2) {
        assert(!regions_clash(s[i], s[j]));
    } else if pair_before(i2, j2, i, j) {
        assert(!regions_clash(s[i2], s[j2]));
    }
}

impl Layout {
    /// Sort regions by start address
    pub fn sort_by_address(&mut self)
        ensures
            stably_sorted_by_start(old(self).regions@, final(self).regions@),
            final(self).name == old(self).name,
            final(self).chip_size == old(self).chip_size,
            final(self).source == old(self).source,
    {
        let mut src: Vec<Region> = Vec::new();
        std::mem::swap(&mut src, &mut self.regions);
        let ghost orig = src@;
        let ghost n = orig.len();
        let mut out: Vec<Region> = Vec::new();
        let ghost mut p: Seq<int> = Seq::empty();
        while src.len() > 0
            invariant
                orig.len() == n,
                src@ == orig.take(src@.len() as int),
                src@.len() + out@.len() == n,
                p.len() == out@.len(),
                forall|k: int| 0 <= k < p.len() ==> src@.len() <= #[trigger] p[k] < n,
                forall|k: int| 0 <= k < p.len() ==> #[trigger] out@[k] == orig[p[k]],
                forall|k: int, l: int| 0 <= k < l < p.len() ==> #[trigger] p[k] != #[trigger] p[l],
                forall|k: int, l: int| 0 <= k < l < p.len() ==> start_order(
                    #[trigger] out@[k],
                    p[k],
                    #[trigger] out@[l],
                    p[l],
                ),
                self.name == old(self).name,
                self.chip_size == old(self).chip_size,
                self.source == old(self).source,
            decreases src@.len(),
        {
            let ghost m = src@.len() - 1;
            let r = src.pop().unwrap();
            assert(r == orig[m]);
            assert(src@ =~= orig.take(m));
            let mut pos: usize = 0;
            while pos < out.len() && out[pos].start < r.start
                invariant
                    pos <= out@.len(),
                    forall|k: int| 0 <= k < pos ==> (#[trigger] out@[k]).start < r.start,
                decreases out@.len() - pos,
            {
                pos += 1;
            }
            let ghost old_out = out@;
            let ghost old_p = p;
            out.insert(pos, r);
            proof {
                p = old_p.insert(pos as int, m);
                assert forall|k: int, l: int| 0 <= k < l < p.len() implies start_order(
                    #[trigger] out@[k],
                    p[k],
                    #[trigger] out@[l],
                    p[l],
                ) by {
                    if l < pos {
                        assert(start_order(old_out[k], old_p[k], old_out[l], old_p[l]));
                    } else if l == pos {
                        assert(old_out[k].start < r.start);
                    } else if k < pos {
                        assert(start_order(old_out[k], old_p[k], old_out[l - 1], old_p[l - 1]));
                    } else if k == pos {
                        assert(!(old_out[l - 1].start < r.start) || pos >= old_out.len());
                        if pos < old_out.len() {
                            assert(old_out[pos as int].start >= r.start);
                            if (pos as int) < l - 1 {
                                assert(start_order(old_out[pos as int], old_p[pos as int], old_out[l - 1], old_p[l - 1]));
                            }
                        }
                    } else {
                        assert(start_order(old_out[k - 1], old_p[k - 1], old_out[l - 1], old_p[l - 1]));
                    }
                }
            }
        }
        assert(orig.take(0) =~= src@);
        assert(stable_permutation_by_start(orig, out@, p));
        self.regions = out;
    }
}

/// `a` (from index `ia`) comes before `b` (from index `ib`) when ordered by
/// start address, ties kept in index order.
pub open spec fn start_order(a: Region, ia: int, b: Region, ib: int) -> bool {
    a.start < b.start || (a.start == b.start && ia < ib)
}

/// `p` places the regions of `old` into `new` (`new[k] == old[p[k]]`, each
/// index once), and along `new` the start addresses increase, regions with
/// equal starts keeping their order in `old`.
pub open spec fn stable_permutation_by_start(old: Seq<Region>, new: Seq<Region>, p: Seq<int>) -> bool {
    &&& new.len() == old.len()
    &&& p.len() == old.len()
    &&& forall|k: int| 0 <= k < p.len() ==> 0 <= #[trigger] p[k] < old.len()
    &&& forall|k: int| 0 <= k < p.len() ==> #[trigger] new[k] == old[p[k]]
    &&& forall|k: int, l: int| 0 <= k < l < p.len() ==> #[trigger] p[k] != #[trigger] p[l]
    &&& forall|k: int, l: int| 0 <= k < l < p.len() ==> start_order(
        #[trigger] new[k],
        p[k],
        #[trigger] new[l],
        p[l],
    )
}

/// `new` is `old` stably sorted by start address.
pub open spec fn stably_sorted_by_start(old: Seq<Region>, new: Seq<Region>) -> bool {
    exists|p: Seq<int>| #[trigger] stable_permutation_by_start(old, new, p)
}

/// Which regions a listing selects.
#[derive(Clone, Copy)]
enum Selection {
    /// Included regions.
    Included,
    /// Included regions that are dangerous to modify.
    Dangerous,
    /// Included regions that are read-only.
    Readonly,
}

/// Whether `sel` selects the region `r`.
spec fn selected(sel: Selection, r: Region) -> bool {
    match sel {
        Selection::Included => r.included,
        Selection::Dangerous => r.included && r.dangerous,
        Selection::Readonly => r.included && r.readonly,
    }
}

/// The regions that a list of references points at.
pub open spec fn deref_all(s: Seq<&Region>) -> Seq<Region> {
    s.map_values(|x: &Region| *x)
}

} // verus!
