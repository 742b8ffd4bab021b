//! The UEFI loader's decisions: how much to allocate for a file, when to
//! retry without the extra room, whether a read completed, which memory-map
//! entries to keep, the boot page tables, and where the kernel is entered.
use vstd::prelude::*;
use crate::boot::{CoreOS_BootInfo, MemMapEntry, MAX_MMAP_ENTRIES};

verus! {

/// Highest physical address the kernel image may be placed below.
pub const KERNEL_MAX_PHYS_ADDR: u64 = 0x3FFF_F000;
/// Highest physical address other files may be placed below.
pub const ASSET_MAX_PHYS_ADDR: u64 = 0xFFFF_F000;
/// Where the kernel image is linked to run.
pub const KERNEL_VIRT_BASE: u64 = 0xFFFF_FFFF_8000_0000;
/// Extra room reserved after the kernel image.
pub const KERNEL_EXTRA_BYTES: usize = 0x800_0000;
/// Pages of the loader's boot page tables.
pub const HIGH_HALF_PT_PAGES: usize = 8;

/// How a file is to be placed: below which address, with how much room after it.
#[derive(Clone, Copy)]
pub struct LoadSpec {
    pub max_address: u64,
    pub extra_bytes: usize,
}

impl LoadSpec {
    /// The kernel image, with `extra_bytes` of room after it.
    pub fn kernel_with_extra(extra_bytes: usize) -> (s: Self)
        ensures
            s.max_address == KERNEL_MAX_PHYS_ADDR && s.extra_bytes == extra_bytes,
    {
        LoadSpec { max_address: KERNEL_MAX_PHYS_ADDR, extra_bytes }
    }

    /// Another file, with no extra room.
    pub fn asset() -> (s: Self)
        ensures
            s.max_address == ASSET_MAX_PHYS_ADDR && s.extra_bytes == 0,
    {
        LoadSpec { max_address: ASSET_MAX_PHYS_ADDR, extra_bytes: 0 }
    }
}

/// A file placed in memory.
#[derive(Clone, Copy)]
pub struct LoadedFile {
    pub addr: u64,
    pub file_size: usize,
    pub allocation_size: usize,
}

/// Pages that hold `bytes` bytes, rounded up.
pub fn pages_for(bytes: usize) -> (n: usize)
    ensures
        n == (bytes + 4095) / 4096,
{
    let q = bytes / 4096;
    if bytes % 4096 == 0 { q } else { q + 1 }
}

/// Bytes to allocate for a file of `file_size` bytes: the file and its extra
/// room; `None` when that does not fit in `usize` (a bad buffer size).
pub fn requested_size(file_size: usize, spec: &LoadSpec) -> (r: Option<usize>)
    ensures
        r == (if file_size + spec.extra_bytes <= usize::MAX { Some((file_size + spec.extra_bytes) as usize) } else { None::<usize> }),
{
    file_size.checked_add(spec.extra_bytes)
}

/// How an allocation attempt ended.
#[derive(Clone, Copy, PartialEq, Eq, Structural, Debug)]
pub enum AllocOutcome {
    /// Memory at this address.
    Granted(u64),
    /// The firmware had no room (for a range) or no such place (for a fixed address).
    NoRoom,
    /// Any other failure, to be passed on.
    Failed,
}

/// What to do after an allocation attempt.
#[derive(Clone, Copy, PartialEq, Eq, Structural, Debug)]
pub enum AllocDecision {
    /// Use the memory at `addr`, `size` bytes of it.
    Use(u64, usize),
    /// Try again for the file alone, without the extra room.
    RetryExact,
    /// Give up, passing the failure on.
    Fail,
}

/// Decide after the first allocation attempt for `requested` bytes: use it
/// when granted; retry for the file alone when there was no room and extra
/// room had been asked for; fail otherwise.
pub fn after_allocation(extra_bytes: usize, requested: usize, outcome: AllocOutcome) -> (d: AllocDecision)
    ensures
        d == (match outcome {
            AllocOutcome::Granted(a) => AllocDecision::Use(a, requested),
            AllocOutcome::NoRoom => if extra_bytes != 0 { AllocDecision::RetryExact } else { AllocDecision::Fail },
            AllocOutcome::Failed => AllocDecision::Fail,
        }),
{
    match outcome {
        AllocOutcome::Granted(a) => AllocDecision::Use(a, requested),
        AllocOutcome::NoRoom => if extra_bytes != 0 { AllocDecision::RetryExact } else { AllocDecision::Fail },
        AllocOutcome::Failed => AllocDecision::Fail,
    }
}

/// The loaded file, when the read returned the whole file; `None` is a load error.
pub fn finish_load(addr: u64, allocation_size: usize, file_size: usize, read: usize) -> (r: Option<LoadedFile>)
    ensures
        r == (if read == file_size { Some(LoadedFile { addr, file_size, allocation_size }) } else { None::<LoadedFile> }),
{
    if read != file_size {
        return None;
    }
    Some(LoadedFile { addr, file_size, allocation_size })
}

/// Copy the firmware memory map into the hand-off record: the first
/// `MAX_MMAP_ENTRIES` entries, each as (start, pages, type), and their count.
pub fn record_memory_map(boot_info: &mut CoreOS_BootInfo, descs: &[(u64, u64, u32)])
    ensures
        ({
            let n = if descs@.len() < MAX_MMAP_ENTRIES { descs@.len() as int } else { MAX_MMAP_ENTRIES as int };
            &&& final(boot_info).mmap_count == n
            &&& forall|i: int| 0 <= i < n ==> #[trigger] final(boot_info).mmap[i] == (MemMapEntry {
                physical_start: descs@[i].0, num_pages: descs@[i].1, mem_type: descs@[i].2, _pad: 0 })
            &&& forall|i: int| n <= i < MAX_MMAP_ENTRIES ==> #[trigger] final(boot_info).mmap[i] == old(boot_info).mmap[i]
            &&& final(boot_info).fb_base == old(boot_info).fb_base && final(boot_info).fb_size == old(boot_info).fb_size
            &&& final(boot_info).width == old(boot_info).width && final(boot_info).height == old(boot_info).height
            &&& final(boot_info).pitch == old(boot_info).pitch
        }),
{
    let mut stored: usize = 0;
    while stored < descs.len() && stored < MAX_MMAP_ENTRIES
        invariant
            stored <= descs@.len(),
            stored <= MAX_MMAP_ENTRIES,
            forall|i: int| 0 <= i < stored ==> #[trigger] boot_info.mmap[i] == (MemMapEntry {
                physical_start: descs@[i].0, num_pages: descs@[i].1, mem_type: descs@[i].2, _pad: 0 }),
            forall|i: int| stored <= i < MAX_MMAP_ENTRIES ==> #[trigger] boot_info.mmap[i] == old(boot_info).mmap[i],
            boot_info.fb_base == old(boot_info).fb_base && boot_info.fb_size == old(boot_info).fb_size,
            boot_info.width == old(boot_info).width && boot_info.height == old(boot_info).height,
            boot_info.pitch == old(boot_info).pitch,
        decreases descs@.len() - stored,
    {
        let (start, pages, ty) = descs[stored];
        boot_info.mmap[stored] = MemMapEntry { physical_start: start, num_pages: pages, mem_type: ty, _pad: 0 };
        stored = stored + 1;
    }
    boot_info.mmap_count = stored as u32;
}

/// Entry `index` of table `table` of the loader's boot page tables, laid out
/// as eight pages from `base`: the top-level table, the direct-map directory
/// pointer table and its four directories (the first 4 GiB in large pages),
/// and the kernel directory pointer table and directory (the first 1 GiB at
/// the kernel's link address).
pub open spec fn boot_table_entry(base: u64, table: int, index: int) -> u64 {
    if table == 0 {
        if index == 256 { (base + 0x1000) as u64 | 3 } else if index == 511 { (base + 0x6000) as u64 | 3 } else { 0 }
    } else if table == 1 {
        if 0 <= index < 4 { (base + 0x2000 + index * 0x1000) as u64 | 3 } else { 0 }
    } else if 2 <= table <= 5 {
        (((table - 2) * 512 + index) * 0x20_0000) as u64 | 0x83
    } else if table == 6 {
        if index == 510 { (base + 0x7000) as u64 | 3 } else { 0 }
    } else {
        ((index * 0x20_0000) as u64) | 0x83
    }
}

/// Entry `index` of table `table` (0 to 7) of the boot page tables at `base`.
pub fn boot_table_value(base: u64, table: usize, index: usize) -> (v: u64)
    requires
        table < HIGH_HALF_PT_PAGES,
        index < 512,
        base + 0x8000 <= u64::MAX,
    ensures
        v == boot_table_entry(base, table as int, index as int),
{
    if table == 0 {
        if index == 256 { (base + 0x1000) | 3 } else if index == 511 { (base + 0x6000) | 3 } else { 0 }
    } else if table == 1 {
        if index < 4 { (base + 0x2000 + (index as u64) * 0x1000) | 3 } else { 0 }
    } else if table <= 5 {
        let t = (table - 2) as u64;
        assert((t * 512 + index) * 0x20_0000 <= 2048 * 0x20_0000) by (nonlinear_arith)
            requires t < 4, index < 512;
        ((t * 512 + index as u64) * 0x20_0000) | 0x83
    } else if table == 6 {
        if index == 510 { (base + 0x7000) | 3 } else { 0 }
    } else {
        assert(index * 0x20_0000 <= 512 * 0x20_0000) by (nonlinear_arith) requires index < 512;
        ((index as u64) * 0x20_0000) | 0x83
    }
}

/// The boot page tables to place at `base`: the eight tables one after
/// another, word `t * 512 + e` being entry `e` of table `t`.
pub fn setup_page_tables(base: u64) -> (words: Vec<u64>)
    requires
        base + 0x8000 <= u64::MAX,
    ensures
        words@.len() == 8 * 512,
        forall|k: int| 0 <= k < 8 * 512 ==> #[trigger] words@[k] == boot_table_entry(base, k / 512, k % 512),
{
    let mut words: Vec<u64> = Vec::new();
    let mut t: usize = 0;
    while t < HIGH_HALF_PT_PAGES
        invariant
            t <= 8,
            base + 0x8000 <= u64::MAX,
            words@.len() == t * 512,
            forall|k: int| 0 <= k < t * 512 ==> #[trigger] words@[k] == boot_table_entry(base, k / 512, k % 512),
        decreases 8 - t,
    {
        let mut e: usize = 0;
        while e < 512
            invariant
                t < 8,
                e <= 512,
                base + 0x8000 <= u64::MAX,
                words@.len() == t * 512 + e,
                forall|k: int| 0 <= k < t * 512 + e ==> #[trigger] words@[k] == boot_table_entry(base, k / 512, k % 512),
            decreases 512 - e,
        {
            let v = boot_table_value(base, t, e);
            proof {
                let k = t * 512 + e;
                assert(k / 512 == t && k % 512 == e) by (nonlinear_arith) requires k == t * 512 + e, 0 <= e < 512;
            }
            words.push(v);
            e = e + 1;
        }
        t = t + 1;
    }
    words
}

/// Fill the empty entries of the new top-level table from the firmware's, so
/// that the firmware's mappings stay in place once the new tables are active.
pub fn merge_top_level(new_table: &mut [u64; 512], old_table: &[u64; 512])
    ensures
        forall|i: int| 0 <= i < 512 ==> #[trigger] final(new_table)[i] == (if old(new_table)[i] == 0 { old_table[i] } else { old(new_table)[i] }),
{
    let mut i: usize = 0;
    while i < 512
        invariant
            i <= 512,
            forall|j: int| 0 <= j < i ==> #[trigger] new_table[j] == (if old(new_table)[j] == 0 { old_table[j] } else { old(new_table)[j] }),
            forall|j: int| i <= j < 512 ==> #[trigger] new_table[j] == old(new_table)[j],
        decreases 512 - i,
    {
        if new_table[i] == 0 {
            new_table[i] = old_table[i];
        }
        i = i + 1;
    }
}

/// The kernel's entry address: its load address in the kernel's half of memory.
pub fn kernel_entry_address(kernel_addr: u64) -> (e: u64)
    ensures
        e == kernel_addr.wrapping_add(KERNEL_VIRT_BASE),
{
    kernel_addr.wrapping_add(KERNEL_VIRT_BASE)
}

} // verus!
