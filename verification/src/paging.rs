//! Address arithmetic of the four-level page tables: the direct map of
//! physical memory, table indices of a virtual address, and entry encodings.
use vstd::prelude::*;

verus! {

/// Start of the direct map of physical memory.
pub const PHYSICAL_OFFSET: u64 = 0xFFFF_8000_0000_0000;
/// Virtual address at which the kernel image is linked.
pub const KERNEL_IMAGE_BASE: u64 = 0xFFFF_FFFF_8000_0000;
pub const PTE_PRESENT: u64 = 1;
pub const PTE_WRITABLE: u64 = 2;
pub const PTE_USER: u64 = 4;
pub const PTE_HUGE: u64 = 0x80;
/// Size of a large page.
pub const TWO_MB: u64 = 0x20_0000;

/// The direct-map address of physical address `phys`.
pub fn p2v(phys: u64) -> (v: u64)
    requires
        phys <= u64::MAX - PHYSICAL_OFFSET,
    ensures
        v == phys + PHYSICAL_OFFSET,
{
    phys + PHYSICAL_OFFSET
}

/// The physical address behind `virt`: for the kernel image, linked at
/// `KERNEL_IMAGE_BASE` and loaded at physical address 0, its offset from that
/// base; in the direct map, its offset from the direct map's start. An address
/// below both has no physical address here: the subtraction of the image base
/// wraps.
pub open spec fn virt_to_phys(virt: u64) -> u64 {
    if virt >= KERNEL_IMAGE_BASE {
        (virt - KERNEL_IMAGE_BASE) as u64
    } else if virt >= PHYSICAL_OFFSET {
        (virt - PHYSICAL_OFFSET) as u64
    } else {
        virt.wrapping_sub(KERNEL_IMAGE_BASE)
    }
}

/// The physical address behind virtual address `virt` (see `virt_to_phys`).
pub fn v2p(virt: u64) -> (p: u64)
    ensures
        p == virt_to_phys(virt),
        virt >= KERNEL_IMAGE_BASE ==> p == virt - KERNEL_IMAGE_BASE,
        PHYSICAL_OFFSET <= virt < KERNEL_IMAGE_BASE ==> p == virt - PHYSICAL_OFFSET,
{
    if virt >= KERNEL_IMAGE_BASE {
        virt - KERNEL_IMAGE_BASE
    } else if virt >= PHYSICAL_OFFSET {
        virt - PHYSICAL_OFFSET
    } else {
        virt.wrapping_sub(KERNEL_IMAGE_BASE)
    }
}

/// Index into the table at `level` (3 = top level, 0 = last level) for `virt`.
pub open spec fn table_index(virt: u64, level: u64) -> u64 {
    (virt >> (12 + 9 * level)) & 0x1FF
}

/// The four table indices of a virtual address, top level first.
pub fn table_indices(virt: u64) -> (r: (usize, usize, usize, usize))
    ensures
        r.0 == table_index(virt, 3) && r.1 == table_index(virt, 2),
        r.2 == table_index(virt, 1) && r.3 == table_index(virt, 0),
        r.0 < 512 && r.1 < 512 && r.2 < 512 && r.3 < 512,
{
    let a = (virt >> 39) & 0x1FF;
    let b = (virt >> 30) & 0x1FF;
    let c = (virt >> 21) & 0x1FF;
    let d = (virt >> 12) & 0x1FF;
    proof {
        assert(a < 512 && b < 512 && c < 512 && d < 512) by (bit_vector)
            requires a == (virt >> 39) & 0x1FF, b == (virt >> 30) & 0x1FF,
                c == (virt >> 21) & 0x1FF, d == (virt >> 12) & 0x1FF;
    }
    (a as usize, b as usize, c as usize, d as usize)
}

/// The entry that points a table at the next-level table (or page) `addr`:
/// present, writable and user-accessible, and a large page when `huge`.
pub fn table_entry(addr: u64, huge: bool) -> (e: u64)
    ensures
        e == (if huge { addr | PTE_PRESENT | PTE_WRITABLE | PTE_USER | PTE_HUGE } else { addr | PTE_PRESENT | PTE_WRITABLE | PTE_USER }),
        addr % 4096 == 0 ==> e & !0xFFFu64 == addr && e & 7 == 7 && (e & 0x80 != 0) == huge,
{
    proof {
        let a = addr | 1u64 | 2u64 | 4u64;
        let b = addr | 1u64 | 2u64 | 4u64 | 0x80u64;
        if addr % 4096 == 0 {
            assert(a & !0xFFFu64 == addr && a & 7 == 7 && a & 0x80 == 0) by (bit_vector)
                requires addr % 4096 == 0, a == addr | 1u64 | 2u64 | 4u64;
            assert(b & !0xFFFu64 == addr && b & 7 == 7 && b & 0x80 != 0) by (bit_vector)
                requires addr % 4096 == 0, b == addr | 1u64 | 2u64 | 4u64 | 0x80u64;
        }
    }
    if huge {
        addr | PTE_PRESENT | PTE_WRITABLE | PTE_USER | PTE_HUGE
    } else {
        addr | PTE_PRESENT | PTE_WRITABLE | PTE_USER
    }
}

/// The physical address an entry points at.
pub fn entry_target(e: u64) -> (a: u64)
    ensures
        a == e & !0xFFFu64,
        a % 4096 == 0,
        a <= e,
{
    let a = e & !0xFFFu64;
    proof {
        assert(a % 4096 == 0 && a <= e) by (bit_vector)
            requires a == e & !0xFFFu64;
    }
    a
}

/// Whether an entry maps a large page.
pub fn is_huge(e: u64) -> (r: bool)
    ensures
        r == (e & PTE_HUGE != 0),
{
    e & PTE_HUGE != 0
}

/// Physical address of large page `j` of the `i`th gigabyte, as the boot
/// tables map the first four gigabytes.
pub fn gigabyte_page(i: u64, j: u64) -> (phys: u64)
    requires
        i < 4,
        j < 512,
    ensures
        phys == (i * 512 + j) * TWO_MB,
{
    assert((i * 512 + j) * 0x20_0000 <= 2048 * 0x20_0000) by (nonlinear_arith)
        requires i < 4, j < 512;
    (i * 512 + j) * TWO_MB
}

/// The large-page-aligned range that covers `[virt_start, virt_start + size)`,
/// with the physical start aligned down alike: `(virt, phys, virt_end)`.
pub fn large_page_range(virt_start: u64, phys_start: u64, size: u64) -> (r: (u64, u64, u64))
    requires
        virt_start + size + TWO_MB <= u64::MAX,
    ensures
        r.0 == virt_start - virt_start % TWO_MB,
        r.1 == phys_start - phys_start % TWO_MB,
        r.2 == (virt_start + size + TWO_MB - 1) - (virt_start + size + TWO_MB - 1) % (TWO_MB as int),
{
    let mask: u64 = !0x1F_FFFFu64;
    let v = virt_start & mask;
    let p = phys_start & mask;
    let top: u64 = virt_start + size + TWO_MB - 1;
    let e = top & mask;
    proof {
        assert(v == virt_start - virt_start % 0x20_0000) by (bit_vector)
            requires v == virt_start & !0x1F_FFFFu64;
        assert(p == phys_start - phys_start % 0x20_0000) by (bit_vector)
            requires p == phys_start & !0x1F_FFFFu64;
        assert(e == top - top % 0x20_0000) by (bit_vector)
            requires e == top & !0x1F_FFFFu64;
    }
    (v, p, e)
}


/// Going into the direct map and back out gives the physical address again,
/// for every physical address the direct map holds below the kernel image.
pub proof fn lemma_direct_map_round_trip(phys: u64)
    requires
        phys < KERNEL_IMAGE_BASE - PHYSICAL_OFFSET,
    ensures
        virt_to_phys((phys + PHYSICAL_OFFSET) as u64) == phys,
{
}

/// An address in the kernel image goes back to its load address.
pub proof fn lemma_kernel_image_round_trip(phys: u64)
    requires
        phys <= u64::MAX - KERNEL_IMAGE_BASE,
    ensures
        virt_to_phys((phys + KERNEL_IMAGE_BASE) as u64) == phys,
{
}


/// What a mapping walk does at the table of level `level` (3 = top) once it
/// has read the entry for the address being mapped.
#[derive(Clone, Copy, PartialEq, Eq, Structural, Debug)]
pub enum WalkStep {
    /// The entry is empty: take a frame for a new table, point entry `index`
    /// at it (see `table_entry`), and continue in it.
    NewTable { index: usize },
    /// Continue in the table at this physical address.
    Next { table: u64 },
    /// Store `value` in entry `index`; the address is mapped.
    Leaf { index: usize, value: u64 },
    /// A large page already maps the address; leave it as it is.
    Covered,
}

/// The step of a walk that maps `virt` to `phys` with its last entry at
/// `leaf_level` (0 for a 4 KiB page, 1 for a large page), at level `level`
/// where the entry read is `entry`.
pub open spec fn walk_step(virt: u64, phys: u64, level: u64, leaf_level: u64, entry: u64) -> WalkStep {
    let index = table_index(virt, level) as usize;
    if level == leaf_level {
        WalkStep::Leaf { index, value: if leaf_level == 1 {
            phys | PTE_PRESENT | PTE_WRITABLE | PTE_USER | PTE_HUGE
        } else {
            phys | PTE_PRESENT | PTE_WRITABLE | PTE_USER
        } }
    } else if entry == 0 {
        WalkStep::NewTable { index }
    } else if level == 1 && entry & PTE_HUGE != 0 {
        WalkStep::Covered
    } else {
        WalkStep::Next { table: entry & !0xFFFu64 }
    }
}

/// The last step of a mapping walk stores an entry that points at the
/// physical page itself: for a 4 KiB page, `phys` with the present, writable
/// and user bits and not the large-page bit; for a large page, `phys` with
/// those bits and the large-page bit. The entry goes at the address's index
/// for that level.
pub proof fn lemma_leaf_maps_phys(virt: u64, phys: u64, entry: u64)
    ensures
        phys % 4096 == 0 ==> (walk_step(virt, phys, 0, 0, entry) matches WalkStep::Leaf { index, value }
            && index == (virt >> 12) & 0x1FF && value & !0xFFFu64 == phys && value & 7 == 7 && value & 0x80 == 0),
        phys % 0x20_0000 == 0 ==> (walk_step(virt, phys, 1, 1, entry) matches WalkStep::Leaf { index, value }
            && index == (virt >> 21) & 0x1FF && value & !0xFFFu64 == phys && value & 0x87 == 0x87),
{
    let v0 = phys | PTE_PRESENT | PTE_WRITABLE | PTE_USER;
    let v1 = phys | PTE_PRESENT | PTE_WRITABLE | PTE_USER | PTE_HUGE;
    if phys % 4096 == 0 {
        assert(v0 & !0xFFFu64 == phys && v0 & 7 == 7 && v0 & 0x80 == 0) by (bit_vector)
            requires phys % 4096 == 0, v0 == phys | 1u64 | 2u64 | 4u64;
        assert(table_index(virt, 0) == (virt >> 12) & 0x1FF);
        assert((virt >> 12) & 0x1FF < 512) by (bit_vector);
        assert(walk_step(virt, phys, 0, 0, entry) == WalkStep::Leaf { index: table_index(virt, 0) as usize, value: v0 });
    }
    if phys % 0x20_0000 == 0 {
        assert(v1 & !0xFFFu64 == phys && v1 & 0x87 == 0x87) by (bit_vector)
            requires phys % 0x20_0000 == 0, v1 == phys | 1u64 | 2u64 | 4u64 | 0x80u64;
        assert(table_index(virt, 1) == (virt >> 21) & 0x1FF);
        assert((virt >> 21) & 0x1FF < 512) by (bit_vector);
        assert(walk_step(virt, phys, 1, 1, entry) == WalkStep::Leaf { index: table_index(virt, 1) as usize, value: v1 });
    }
}

/// Decide the step of a mapping walk (see `walk_step`).
pub fn map_step(virt: u64, phys: u64, level: u64, leaf_level: u64, entry: u64) -> (s: WalkStep)
    requires
        leaf_level <= level <= 3,
        leaf_level <= 1,
    ensures
        s == walk_step(virt, phys, level, leaf_level, entry),
        level == 0 && phys % 4096 == 0 ==> (s matches WalkStep::Leaf { index, value }
            && index == (virt >> 12) & 0x1FF && value & !0xFFFu64 == phys && value & 7 == 7 && value & 0x80 == 0),
        level == 1 && leaf_level == 1 && phys % 0x20_0000 == 0 ==> (s matches WalkStep::Leaf { index, value }
            && index == (virt >> 21) & 0x1FF && value & !0xFFFu64 == phys && value & 0x87 == 0x87),
{
    proof {
        lemma_leaf_maps_phys(virt, phys, entry);
    }
    let (i3, i2, i1, i0) = table_indices(virt);
    let index = if level == 3 { i3 } else if level == 2 { i2 } else if level == 1 { i1 } else { i0 };
    assert(index == table_index(virt, level) as usize);
    if level == leaf_level {
        let value = if leaf_level == 1 { table_entry(phys, true) } else { table_entry(phys, false) };
        WalkStep::Leaf { index, value }
    } else if entry == 0 {
        WalkStep::NewTable { index }
    } else if level == 1 && is_huge(entry) {
        WalkStep::Covered
    } else {
        WalkStep::Next { table: entry_target(entry) }
    }
}

/// The top-level table of a new address space: the kernel's entry 0 (the
/// identity map) and its upper half (entries 256 to 511); the rest empty.
pub fn kernel_space_table(kernel: &[u64; 512]) -> (t: [u64; 512])
    ensures
        forall|i: int| 0 <= i < 512 ==> #[trigger] t[i] == (if i == 0 || i >= 256 { kernel[i] } else { 0 }),
{
    let mut t = [0u64; 512];
    t[0] = kernel[0];
    let mut i: usize = 256;
    while i < 512
        invariant
            256 <= i <= 512,
            t[0] == kernel[0],
            forall|j: int| 1 <= j < 256 ==> #[trigger] t[j] == 0,
            forall|j: int| 256 <= j < i ==> #[trigger] t[j] == kernel[j],
            forall|j: int| i <= j < 512 ==> #[trigger] t[j] == 0,
        decreases 512 - i,
    {
        t[i] = kernel[i];
        i = i + 1;
    }
    t
}

} // verus!
