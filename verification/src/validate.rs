//! Sanity checks on the loader's memory map.
use vstd::prelude::*;
use crate::boot::{CoreOS_BootInfo, MemMapEntry};

verus! {

/// What is wrong with a memory map.
#[derive(Clone, Copy, PartialEq, Eq, Structural, Debug)]
pub enum MmapError {
    /// The entry count is 0 or above 256.
    InvalidCount(usize),
    /// A region starts off a 4 KiB boundary.
    Unaligned(u64),
    /// A region has no pages.
    ZeroSized(u64),
    /// Two regions `[start, end)` overlap.
    Overlap(u64, u64, u64, u64),
}

pub open spec fn region_end(e: MemMapEntry) -> int {
    e.physical_start + e.num_pages * 4096
}

pub open spec fn regions_overlap(a: MemMapEntry, b: MemMapEntry) -> bool {
    a.physical_start < region_end(b) && b.physical_start < region_end(a)
}

/// A memory map is valid when it has 1 to 256 entries, each page aligned and
/// non-empty, and no two of them overlap.
pub open spec fn valid_mmap(b: CoreOS_BootInfo) -> bool {
    &&& 0 < b.mmap_count <= 256
    &&& forall|i: int| 0 <= i < b.mmap_count ==> #[trigger] b.mmap[i].physical_start % 4096 == 0
    &&& forall|i: int| 0 <= i < b.mmap_count ==> #[trigger] b.mmap[i].num_pages != 0
    &&& forall|i: int, j: int|
        0 <= i < j < b.mmap_count ==> !regions_overlap(#[trigger] b.mmap[i], #[trigger] b.mmap[j])
}

/// The region ends of the map's entries fit in 64 bits.
pub open spec fn mmap_ends_fit(b: CoreOS_BootInfo) -> bool {
    forall|i: int| 0 <= i < b.mmap_count && i < 256 ==> #[trigger] region_end(b.mmap[i]) <= u64::MAX
}

/// The first overlap of entry `i` with an entry from `j` on, as an error.
pub open spec fn overlap_from(b: CoreOS_BootInfo, i: int, j: int) -> Option<MmapError>
    decreases b.mmap_count - j,
{
    if j >= b.mmap_count || j < 0 {
        None
    } else if regions_overlap(b.mmap[i], b.mmap[j]) {
        Some(MmapError::Overlap(b.mmap[i].physical_start, region_end(b.mmap[i]) as u64,
            b.mmap[j].physical_start, region_end(b.mmap[j]) as u64))
    } else {
        overlap_from(b, i, j + 1)
    }
}

/// The first defect met checking entries from `i` on, each in turn: its
/// alignment, its size, then its overlaps with the entries after it.
pub open spec fn mmap_error_from(b: CoreOS_BootInfo, i: int) -> Option<MmapError>
    decreases b.mmap_count - i,
{
    if i >= b.mmap_count || i < 0 {
        None
    } else if b.mmap[i].physical_start % 4096 != 0 {
        Some(MmapError::Unaligned(b.mmap[i].physical_start))
    } else if b.mmap[i].num_pages == 0 {
        Some(MmapError::ZeroSized(b.mmap[i].physical_start))
    } else {
        match overlap_from(b, i, i + 1) {
            Some(e) => Some(e),
            None => mmap_error_from(b, i + 1),
        }
    }
}

/// The defect the check reports: a bad entry count first, then the first
/// defect met going through the entries in order.
pub open spec fn mmap_error(b: CoreOS_BootInfo) -> Option<MmapError> {
    let c = b.mmap_count as usize;
    if c == 0 || c > 256 { Some(MmapError::InvalidCount(c)) } else { mmap_error_from(b, 0) }
}

/// Check the memory map; the error is the first defect met (see `mmap_error`).
pub fn validate_mmap(boot_info: &CoreOS_BootInfo) -> (r: Result<(), MmapError>)
    requires
        mmap_ends_fit(*boot_info),
    ensures
        r == (match mmap_error(*boot_info) { Some(e) => Err(e), None => Ok::<(), MmapError>(()) }),
        r is Ok <==> valid_mmap(*boot_info),
        r matches Err(MmapError::InvalidCount(c)) ==> c == boot_info.mmap_count && (c == 0 || c > 256),
        r matches Err(MmapError::Unaligned(s)) ==> exists|i: int|
            0 <= i < boot_info.mmap_count && #[trigger] boot_info.mmap[i].physical_start == s && s % 4096 != 0,
        r matches Err(MmapError::ZeroSized(s)) ==> exists|i: int|
            0 <= i < boot_info.mmap_count && #[trigger] boot_info.mmap[i].physical_start == s
                && boot_info.mmap[i].num_pages == 0,
        r matches Err(MmapError::Overlap(s, e, os, oe)) ==> exists|i: int, j: int|
            0 <= i < j < boot_info.mmap_count
                && regions_overlap(#[trigger] boot_info.mmap[i], #[trigger] boot_info.mmap[j])
                && s == boot_info.mmap[i].physical_start && e == region_end(boot_info.mmap[i])
                && os == boot_info.mmap[j].physical_start && oe == region_end(boot_info.mmap[j]),
{
    let count = boot_info.mmap_count as usize;
    if count == 0 || count > 256 {
        return Err(MmapError::InvalidCount(count));
    }
    let mut i: usize = 0;
    while i < count
        invariant
            0 < count <= 256,
            count == boot_info.mmap_count,
            i <= count,
            mmap_ends_fit(*boot_info),
            mmap_error(*boot_info) == mmap_error_from(*boot_info, i as int),
            forall|k: int| 0 <= k < i ==> #[trigger] boot_info.mmap[k].physical_start % 4096 == 0,
            forall|k: int| 0 <= k < i ==> #[trigger] boot_info.mmap[k].num_pages != 0,
            forall|k: int, j: int|
                0 <= k < i && k < j < count ==> !regions_overlap(#[trigger] boot_info.mmap[k], #[trigger] boot_info.mmap[j]),
        decreases count - i,
    {
        let entry = &boot_info.mmap[i];
        assert(region_end(boot_info.mmap[i as int]) <= u64::MAX);
        let start = entry.physical_start;
        let size = entry.num_pages * 4096;
        if start % 4096 != 0 {
            return Err(MmapError::Unaligned(start));
        }
        if entry.num_pages == 0 {
            return Err(MmapError::ZeroSized(start));
        }
        let end = start + size;
        let mut j: usize = i + 1;
        while j < count
            invariant
                0 < count <= 256,
                count == boot_info.mmap_count,
                i < j <= count,
                mmap_ends_fit(*boot_info),
                start == boot_info.mmap[i as int].physical_start,
                end == region_end(boot_info.mmap[i as int]),
                boot_info.mmap[i as int].physical_start % 4096 == 0,
                boot_info.mmap[i as int].num_pages != 0,
                mmap_error(*boot_info) == mmap_error_from(*boot_info, i as int),
                overlap_from(*boot_info, i as int, i + 1) == overlap_from(*boot_info, i as int, j as int),
                forall|k: int| i < k < j ==> !regions_overlap(boot_info.mmap[i as int], #[trigger] boot_info.mmap[k]),
            decreases count - j,
        {
            let other = &boot_info.mmap[j];
            assert(region_end(boot_info.mmap[j as int]) <= u64::MAX);
            let o_start = other.physical_start;
            let o_end = o_start + other.num_pages * 4096;
            if start < o_end && o_start < end {
                return Err(MmapError::Overlap(start, end, o_start, o_end));
            }
            j = j + 1;
        }
        i = i + 1;
    }
    Ok(())
}

} // verus!
