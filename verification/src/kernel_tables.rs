//! The kernel's own page tables: the identity map of the first 4 GiB, the same
//! gigabytes in the direct map and the first one in the kernel image's map,
//! plus a mapping for a framebuffer that lies above 4 GiB. The tables are
//! built as a list of entry writes into frames taken from the frame allocator.
use vstd::prelude::*;
use crate::paging::{
    entry_target, gigabyte_page, large_page_range, table_entry, table_index, table_indices, v2p,
    virt_to_phys, PTE_HUGE, PTE_PRESENT, PTE_USER, PTE_WRITABLE, TWO_MB,
};
use crate::pmm::{alloc_frame_step, PMMState, MAX_FRAMES, PAGE_SIZE};

verus! {

/// Tables taken so far, entry writes so far (physical address of the entry,
/// value), and the frame map.
pub type Build = (Seq<u64>, Seq<(u64, u64)>, Seq<bool>);

/// The value of an entry that points at the table at `t`.
pub open spec fn link(t: u64) -> u64 {
    t | PTE_PRESENT | PTE_WRITABLE | PTE_USER
}

/// The value of an entry that maps the large page at `p`.
pub open spec fn large_leaf(p: u64) -> u64 {
    p | PTE_PRESENT | PTE_WRITABLE | PTE_USER | PTE_HUGE
}

/// An entry linking a table points at the table, present, writable and open
/// to user mode; a large-page entry points at its page with the same bits and
/// the large-page bit.
pub proof fn lemma_entry_values(t: u64, p: u64)
    ensures
        t % 4096 == 0 ==> link(t) & !0xFFFu64 == t && link(t) & 7 == 7 && link(t) & 0x80 == 0,
        p % 0x20_0000 == 0 ==> large_leaf(p) & !0xFFFu64 == p && large_leaf(p) & 0x87 == 0x87,
{
    let a = t | 1u64 | 2u64 | 4u64;
    let b = p | 1u64 | 2u64 | 4u64 | 0x80u64;
    if t % 4096 == 0 {
        assert(a & !0xFFFu64 == t && a & 7 == 7 && a & 0x80 == 0) by (bit_vector)
            requires t % 4096 == 0, a == t | 1u64 | 2u64 | 4u64;
    }
    if p % 0x20_0000 == 0 {
        assert(b & !0xFFFu64 == p && b & 0x87 == 0x87) by (bit_vector)
            requires p % 0x20_0000 == 0, b == p | 1u64 | 2u64 | 4u64 | 0x80u64;
    }
}

/// Take a frame for a new table as `alloc_frame` does: the lowest free one
/// above frame 0, now marked in use; `None` when no frame is free.
pub open spec fn take_table(s: Build) -> Option<Build> {
    match alloc_frame_step(s.2) {
        None => None,
        Some(q) => Some((s.0.push((q.0 * 4096) as u64), s.1, q.1)),
    }
}

/// Take `n` tables one after another.
pub open spec fn take_tables(s: Build, n: nat) -> Option<Build>
    decreases n,
{
    if n == 0 {
        Some(s)
    } else {
        match take_tables(s, (n - 1) as nat) {
            None => None,
            Some(s1) => take_table(s1),
        }
    }
}

/// What the entry at `addr` holds after the writes `w` into tables that
/// started out zeroed: the last value written there, else 0.
pub open spec fn entry_in(w: Seq<(u64, u64)>, addr: u64) -> u64
    decreases w.len(),
{
    if w.len() == 0 {
        0
    } else if w.last().0 == addr {
        w.last().1
    } else {
        entry_in(w.drop_last(), addr)
    }
}

/// Make sure the entry at `addr` points at a table: leave it when it is set,
/// else take a new table and point the entry at it.
pub open spec fn ensure_table(s: Build, addr: u64) -> Option<Build> {
    if entry_in(s.1, addr) != 0 {
        Some(s)
    } else {
        match take_table(s) {
            None => None,
            Some(s1) => Some((s1.0, s1.1.push((addr, link(s1.0.last()))), s1.2)),
        }
    }
}

/// Map the large pages from `virt` up to `end` to the physical pages from
/// `phys` on, under the top-level table `pml4`, adding tables as needed.
pub open spec fn fb_walk(pml4: u64, s: Build, virt: u64, phys: u64, end: u64) -> Option<Build>
    decreases end + TWO_MB - virt,
{
    if virt >= end || virt > u64::MAX - TWO_MB {
        Some(s)
    } else {
        let a4 = (pml4 + table_index(virt, 3) * 8) as u64;
        match ensure_table(s, a4) {
            None => None,
            Some(s1) => {
                let a3 = ((entry_in(s1.1, a4) & !0xFFFu64) + table_index(virt, 2) * 8) as u64;
                match ensure_table(s1, a3) {
                    None => None,
                    Some(s2) => {
                        let a2 = ((entry_in(s2.1, a3) & !0xFFFu64) + table_index(virt, 1) * 8) as u64;
                        fb_walk(pml4, (s2.0, s2.1.push((a2, large_leaf(phys))), s2.2),
                            (virt + TWO_MB) as u64, phys.wrapping_add(TWO_MB), end)
                    }
                }
            }
        }
    }
}

/// The entries of the large-page directory at `pd` that maps gigabyte `i`.
pub open spec fn gig_dir(pd: u64, i: int) -> Seq<(u64, u64)> {
    Seq::new(512, |j: int| (((pd + j * 8) as u64), large_leaf(((i * 512 + j) * TWO_MB) as u64)))
}

/// The entries that hook directory `t[4 + i]` into the direct map (`t[2]`)
/// and the identity map (`t[3]`), and, for the first gigabyte, into entry 510
/// of the kernel image's table (`t[1]`).
pub open spec fn gig_links(t: Seq<u64>, i: int) -> Seq<(u64, u64)> {
    seq![(((t[2] + i * 8) as u64), link(t[4 + i])), (((t[3] + i * 8) as u64), link(t[4 + i]))]
        + if i == 0 { seq![(((t[1] + 510 * 8) as u64), link(t[4]))] } else { Seq::empty() }
}

/// The writes for the first `n` gigabytes.
pub open spec fn gig_writes(t: Seq<u64>, n: int) -> Seq<(u64, u64)>
    decreases n,
{
    if n <= 0 { Seq::empty() } else { gig_writes(t, n - 1) + gig_links(t, n - 1) + gig_dir(t[4 + n - 1], n - 1) }
}

/// The top-level entries: 511 for the kernel image (`t[1]`), 256 for the direct
/// map (`t[2]`), 0 for the identity map (`t[3]`).
pub open spec fn top_writes(t: Seq<u64>) -> Seq<(u64, u64)> {
    seq![(((t[0] + 511 * 8) as u64), link(t[1])), (((t[0] + 256 * 8) as u64), link(t[2])), (t[0], link(t[3]))]
}

/// The writes that map the first 4 GiB, tables `t` in the order taken.
pub open spec fn base_writes(t: Seq<u64>) -> Seq<(u64, u64)> {
    top_writes(t) + gig_writes(t, 4)
}

/// The kernel's tables for frame map `v` and a framebuffer at (direct-map)
/// address `fb_base` of `fb_size` bytes: eight tables taken one after another,
/// the first 4 GiB mapped, then, when the framebuffer lies at or above 4 GiB,
/// its large pages mapped at `fb_base`; `None` when the frames run out.
pub open spec fn kernel_tables_spec(v: Seq<bool>, fb_base: u64, fb_size: u64) -> Option<Build> {
    match take_tables((Seq::empty(), Seq::empty(), v), 8) {
        None => None,
        Some(s) => {
            let s1 = (s.0, base_writes(s.0), s.2);
            let fb_phys = virt_to_phys(fb_base);
            if fb_phys < 0x1_0000_0000 {
                Some(s1)
            } else {
                let top = fb_base + fb_size + TWO_MB - 1;
                fb_walk(s1.0[0], s1, (fb_base - fb_base % TWO_MB) as u64, (fb_phys - fb_phys % TWO_MB) as u64,
                    (top - top % (TWO_MB as int)) as u64)
            }
        }
    }
}

/// Frame map `v` is `orig` with the tables `t` taken: distinct frames above
/// frame 0 that were free in `orig` and are in use in `v`.
pub open spec fn taken_from(orig: Seq<bool>, t: Seq<u64>, v: Seq<bool>) -> bool {
    &&& orig.len() == MAX_FRAMES && v.len() == MAX_FRAMES
    &&& forall|g: int| 0 <= g < MAX_FRAMES ==> #[trigger] v[g] == (orig[g] && !t.contains((g * 4096) as u64))
    &&& forall|k: int| 0 <= k < t.len() ==> {
        &&& #[trigger] t[k] % 4096 == 0
        &&& 1 <= t[k] / 4096 < MAX_FRAMES
        &&& orig[(t[k] / 4096) as int]
    }
    &&& forall|k: int, l: int| 0 <= k < l < t.len() ==> #[trigger] t[k] != #[trigger] t[l]
}

/// The entry at `addr` after `writes` (see `entry_in`).
fn read_entry(writes: &Vec<(u64, u64)>, addr: u64) -> (v: u64)
    ensures
        v == entry_in(writes@, addr),
{
    let mut i = writes.len();
    proof {
        assert(writes@.take(i as int) =~= writes@);
    }
    while i > 0
        invariant
            i <= writes@.len(),
            entry_in(writes@, addr) == entry_in(writes@.take(i as int), addr),
        decreases i,
    {
        let (a, val) = writes[i - 1];
        proof {
            assert(writes@.take(i as int).drop_last() =~= writes@.take(i - 1));
        }
        if a == addr {
            return val;
        }
        i = i - 1;
    }
    0
}

/// Take the lowest free frame for a new table (see `take_table`).
fn take_table_frame(pmm: &mut PMMState, tables: &mut Vec<u64>, Ghost(orig): Ghost<PMMState>) -> (ok: bool)
    requires
        old(pmm).wf(),
        orig.wf(),
        taken_from(orig@, old(tables)@, old(pmm)@),
        old(pmm).free_count() + old(tables)@.len() == orig.free_count(),
    ensures
        final(pmm).wf(),
        final(pmm).total() == old(pmm).total(),
        taken_from(orig@, final(tables)@, final(pmm)@),
        final(pmm).free_count() + final(tables)@.len() == orig.free_count(),
        ({
            let s = (old(tables)@, Seq::<(u64, u64)>::empty(), old(pmm)@);
            match take_table(s) {
                None => !ok && final(tables)@ == old(tables)@ && final(pmm)@ == old(pmm)@,
                Some(s1) => ok && final(tables)@ == s1.0 && final(pmm)@ == s1.2,
            }
        }),
{
    proof {
        pmm.lemma_wf();
    }
    let addr = pmm.alloc_frame();
    if addr == 0 {
        proof {
            pmm.lemma_wf();
        }
        return false;
    }
    let ghost g = (addr / PAGE_SIZE) as int;
    proof {
        assert(addr == g * 4096);
    }
    let t = addr as u64;
    tables.push(t);
    proof {
        pmm.lemma_wf();
        let v0 = old(pmm)@;
        let t0 = old(tables)@;
        assert(!t0.contains((g * 4096) as u64)) by {
            if t0.contains((g * 4096) as u64) {
                assert(!v0[g]);
            }
        }
        assert forall|h: int| 0 <= h < MAX_FRAMES implies #[trigger] pmm@[h] == (orig@[h] && !tables@.contains((h * 4096) as u64)) by {
            if h == g {
                assert(tables@[tables@.len() - 1] == (g * 4096) as u64);
            } else {
                assert(pmm@[h] == v0[h]);
                assert(tables@.contains((h * 4096) as u64) <==> t0.contains((h * 4096) as u64)) by {
                    if tables@.contains((h * 4096) as u64) {
                        let k = choose|k: int| 0 <= k < tables@.len() && tables@[k] == (h * 4096) as u64;
                        if k < t0.len() {
                            assert(t0[k] == tables@[k]);
                        }
                    }
                    if t0.contains((h * 4096) as u64) {
                        let k = choose|k: int| 0 <= k < t0.len() && t0[k] == (h * 4096) as u64;
                        assert(tables@[k] == t0[k]);
                    }
                }
            }
        }
        assert forall|k: int, l: int| 0 <= k < l < tables@.len() implies #[trigger] tables@[k] != #[trigger] tables@[l] by {
            if l == tables@.len() - 1 {
                assert(t0[k] == tables@[k]);
                assert(t0.contains(tables@[k]));
            } else {
                assert(t0[k] == tables@[k] && t0[l] == tables@[l]);
            }
        }
        assert forall|k: int| 0 <= k < tables@.len() implies {
            &&& #[trigger] tables@[k] % 4096 == 0
            &&& 1 <= tables@[k] / 4096 < MAX_FRAMES
            &&& orig@[(tables@[k] / 4096) as int]
        } by {
            if k < t0.len() {
                assert(t0[k] == tables@[k]);
            } else {
                assert(orig@[g]);
            }
        }
    }
    true
}

/// Give every table taken back to the frame allocator, which then holds the
/// frame map it held before they were taken.
fn give_back(pmm: &mut PMMState, tables: &Vec<u64>, Ghost(orig): Ghost<PMMState>)
    requires
        old(pmm).wf(),
        orig.wf(),
        taken_from(orig@, tables@, old(pmm)@),
        old(pmm).free_count() + tables@.len() == orig.free_count(),
    ensures
        final(pmm).wf(),
        final(pmm).total() == old(pmm).total(),
        final(pmm)@ == orig@,
        final(pmm).free_count() == orig.free_count(),
{
    let n = tables.len();
    let mut k: usize = 0;
    proof {
        assert(tables@.subrange(0, n as int) =~= tables@);
    }
    while k < n
        invariant
            k <= n == tables@.len(),
            pmm.wf(),
            orig.wf(),
            pmm.total() == old(pmm).total(),
            taken_from(orig@, tables@, old(pmm)@),
            pmm.free_count() + (n - k) == orig.free_count(),
            forall|g: int| 0 <= g < MAX_FRAMES ==> #[trigger] pmm@[g] == (orig@[g] && !tables@.subrange(k as int, n as int).contains((g * 4096) as u64)),
        decreases n - k,
    {
        let t = tables[k];
        let ghost f = (t / 4096) as int;
        proof {
            pmm.lemma_wf();
            assert(t % 4096 == 0 && 1 <= f < MAX_FRAMES);
            assert((f * 4096) as u64 == t);
            assert(tables@.subrange(k as int, n as int)[0] == t);
            assert(!pmm@[f]);
        }
        pmm.free_frame(t as usize);
        proof {
            pmm.lemma_wf();
            let r0 = tables@.subrange(k as int, n as int);
            let r1 = tables@.subrange(k + 1, n as int);
            assert forall|g: int| 0 <= g < MAX_FRAMES implies #[trigger] pmm@[g] == (orig@[g] && !r1.contains((g * 4096) as u64)) by {
                if g == f {
                    assert(orig@[f]);
                    if r1.contains(t) {
                        let j = choose|j: int| 0 <= j < r1.len() && r1[j] == t;
                        assert(tables@[k + 1 + j] == t);
                        assert(tables@[k as int] == t);
                    }
                } else {
                    assert((g * 4096) as u64 != t);
                    assert(r0.contains((g * 4096) as u64) <==> r1.contains((g * 4096) as u64)) by {
                        if r0.contains((g * 4096) as u64) {
                            let j = choose|j: int| 0 <= j < r0.len() && r0[j] == (g * 4096) as u64;
                            assert(j != 0);
                            assert(r1[j - 1] == r0[j]);
                        }
                        if r1.contains((g * 4096) as u64) {
                            let j = choose|j: int| 0 <= j < r1.len() && r1[j] == (g * 4096) as u64;
                            assert(r0[j + 1] == r1[j]);
                        }
                    }
                }
            }
        }
        k = k + 1;
    }
    proof {
        pmm.lemma_wf();
        assert forall|g: int| 0 <= g < MAX_FRAMES implies pmm@[g] == orig@[g] by {
            assert(!tables@.subrange(n as int, n as int).contains((g * 4096) as u64));
        }
        assert(pmm@ =~= orig@);
    }
}


/// Once the frames have run out, taking more tables fails too.
proof fn lemma_take_none(s: Build, n: nat, m: nat)
    requires
        n <= m,
        take_tables(s, n) is None,
    ensures
        take_tables(s, m) is None,
    decreases m - n,
{
    if n < m {
        lemma_take_none(s, n, (m - 1) as nat);
    }
}

/// Make sure the entry at `addr` points at a table (see `ensure_table`).
fn ensure_table_at(
    pmm: &mut PMMState,
    tables: &mut Vec<u64>,
    writes: &mut Vec<(u64, u64)>,
    addr: u64,
    Ghost(orig): Ghost<PMMState>,
) -> (ok: bool)
    requires
        old(pmm).wf(),
        orig.wf(),
        taken_from(orig@, old(tables)@, old(pmm)@),
        old(pmm).free_count() + old(tables)@.len() == orig.free_count(),
    ensures
        final(pmm).wf(),
        final(pmm).total() == old(pmm).total(),
        taken_from(orig@, final(tables)@, final(pmm)@),
        final(pmm).free_count() + final(tables)@.len() == orig.free_count(),
        final(tables)@.len() >= old(tables)@.len(),
        forall|k: int| 0 <= k < old(tables)@.len() ==> #[trigger] final(tables)@[k] == old(tables)@[k],
        match ensure_table((old(tables)@, old(writes)@, old(pmm)@), addr) {
            None => !ok && final(tables)@ == old(tables)@ && final(pmm)@ == old(pmm)@,
            Some(s) => ok && final(tables)@ == s.0 && final(writes)@ == s.1 && final(pmm)@ == s.2,
        },
{
    let e = read_entry(writes, addr);
    if e != 0 {
        return true;
    }
    let ok = take_table_frame(pmm, tables, Ghost(orig));
    if !ok {
        return false;
    }
    let t = tables[tables.len() - 1];
    writes.push((addr, table_entry(t, false)));
    true
}

/// The writes that map the first 4 GiB (see `base_writes`), for tables `t`
/// at page-aligned addresses below 4 GiB.
fn base_table_writes(t: &Vec<u64>) -> (w: Vec<(u64, u64)>)
    requires
        t@.len() >= 8,
        forall|k: int| 0 <= k < t@.len() ==> #[trigger] t@[k] < 0x1_0000_0000,
    ensures
        w@ == base_writes(t@),
{
    let mut w: Vec<(u64, u64)> = Vec::new();
    w.push((t[0] + 511 * 8, table_entry(t[1], false)));
    w.push((t[0] + 256 * 8, table_entry(t[2], false)));
    w.push((t[0], table_entry(t[3], false)));
    assert(w@ =~= top_writes(t@) + gig_writes(t@, 0));
    let mut i: usize = 0;
    while i < 4
        invariant
            i <= 4,
            t@.len() >= 8,
            forall|k: int| 0 <= k < t@.len() ==> #[trigger] t@[k] < 0x1_0000_0000,
            w@ == top_writes(t@) + gig_writes(t@, i as int),
        decreases 4 - i,
    {
        let pd = t[4 + i];
        let ghost start = w@;
        w.push((t[2] + (i as u64) * 8, table_entry(pd, false)));
        w.push((t[3] + (i as u64) * 8, table_entry(pd, false)));
        if i == 0 {
            w.push((t[1] + 510 * 8, table_entry(pd, false)));
        }
        assert(w@ =~= start + gig_links(t@, i as int));
        let ghost mid = w@;
        let mut j: usize = 0;
        while j < 512
            invariant
                i < 4,
                j <= 512,
                pd < 0x1_0000_0000,
                w@ == mid + gig_dir(pd, i as int).take(j as int),
            decreases 512 - j,
        {
            let phys = gigabyte_page(i as u64, j as u64);
            w.push((pd + (j as u64) * 8, table_entry(phys, true)));
            assert(gig_dir(pd, i as int).take(j + 1) =~= gig_dir(pd, i as int).take(j as int).push(gig_dir(pd, i as int)[j as int]));
            j = j + 1;
        }
        assert(gig_dir(pd, i as int).take(512) =~= gig_dir(pd, i as int));
        assert(gig_writes(t@, i + 1) == gig_writes(t@, i as int) + gig_links(t@, i as int) + gig_dir(t@[4 + i], i as int));
        assert(w@ =~= top_writes(t@) + gig_writes(t@, i + 1));
        i = i + 1;
    }
    w
}

/// The kernel's own page tables, built in frames taken from the frame allocator.
pub struct KernelTables {
    /// Physical address of the top-level table.
    pub pml4: u64,
    /// Physical addresses of the tables, in the order their frames were taken.
    /// Each is to be zeroed before the writes are made.
    pub tables: Vec<u64>,
    /// The entries to write, in order: (physical address of the entry, value).
    pub writes: Vec<(u64, u64)>,
}

/// Build the kernel's page tables (see `kernel_tables_spec`): identity map at
/// top-level entry 0, direct map at 256 and kernel image map at 511, the first
/// 4 GiB in large pages through four directories shared by the first two (the
/// first directory also serving entry 510 of the kernel image's table), and
/// the framebuffer at `fb_base` mapped when it lies at or above 4 GiB. Each
/// table is the lowest free frame when it is taken. When the frames run out,
/// `None`, with every frame taken given back.
pub fn kernel_page_tables(pmm: &mut PMMState, fb_base: u64, fb_size: u64) -> (r: Option<KernelTables>)
    requires
        old(pmm).wf(),
        fb_base + fb_size + TWO_MB <= u64::MAX,
    ensures
        final(pmm).wf(),
        final(pmm).total() == old(pmm).total(),
        match kernel_tables_spec(old(pmm)@, fb_base, fb_size) {
            None => r is None && final(pmm)@ == old(pmm)@ && final(pmm).free_count() == old(pmm).free_count(),
            Some(s) => r matches Some(kt) && kt.pml4 == s.0[0] && kt.tables@ == s.0 && kt.writes@ == s.1
                && final(pmm)@ == s.2 && taken_from(old(pmm)@, s.0, s.2)
                && final(pmm).free_count() + s.0.len() == old(pmm).free_count(),
        },
{
    let ghost orig = *pmm;
    let ghost s0: Build = (Seq::empty(), Seq::empty(), orig@);
    proof {
        pmm.lemma_wf();
        assert(take_tables(s0, 0) == Some((Seq::<u64>::empty(), Seq::<(u64, u64)>::empty(), pmm@)));
    }
    let mut tables: Vec<u64> = Vec::new();
    let mut i: usize = 0;
    while i < 8
        invariant
            i <= 8,
            tables@.len() == i,
            pmm.wf(),
            orig.wf(),
            orig == *old(pmm),
            s0 == (Seq::<u64>::empty(), Seq::<(u64, u64)>::empty(), orig@),
            pmm.total() == orig.total(),
            taken_from(orig@, tables@, pmm@),
            pmm.free_count() + tables@.len() == orig.free_count(),
            take_tables(s0, i as nat) == Some((tables@, Seq::<(u64, u64)>::empty(), pmm@)),
        decreases 8 - i,
    {
        let ok = take_table_frame(pmm, &mut tables, Ghost(orig));
        if !ok {
            proof {
                assert(take_tables(s0, (i + 1) as nat) is None);
                lemma_take_none(s0, (i + 1) as nat, 8);
            }
            give_back(pmm, &tables, Ghost(orig));
            return None;
        }
        i = i + 1;
    }
    proof {
        assert forall|k: int| 0 <= k < tables@.len() implies #[trigger] tables@[k] < 0x1_0000_0000 by {
            assert(tables@[k] % 4096 == 0 && tables@[k] / 4096 < MAX_FRAMES);
        }
    }
    let mut writes = base_table_writes(&tables);
    let ghost s1: Build = (tables@, writes@, pmm@);
    let fb_phys = v2p(fb_base);
    if fb_phys >= 0x1_0000_0000 {
        let (vs, ps, ve) = large_page_range(fb_base, fb_phys, fb_size);
        let pml4 = tables[0];
        let mut virt = vs;
        let mut phys = ps;
        proof {
            assert(vs % 0x20_0000 == 0) by (nonlinear_arith)
                requires vs == fb_base - fb_base % 0x20_0000;
            let top = fb_base + fb_size + TWO_MB - 1;
            assert(ve % 0x20_0000 == 0) by (nonlinear_arith)
                requires ve == top - top % 0x20_0000, top >= 0;
            assert(take_tables(s0, 8) == Some((s1.0, Seq::<(u64, u64)>::empty(), s1.2)));
            assert(s1.1 == base_writes(s1.0));
            assert(kernel_tables_spec(orig@, fb_base, fb_size) == fb_walk(pml4, s1, vs, ps, ve));
        }
        while virt < ve
            invariant
                pmm.wf(),
                orig.wf(),
                orig == *old(pmm),
                pmm.total() == orig.total(),
                taken_from(orig@, tables@, pmm@),
                pmm.free_count() + tables@.len() == orig.free_count(),
                tables@.len() >= 8,
                pml4 == tables@[0],
                virt % 0x20_0000 == 0,
                ve % 0x20_0000 == 0,
                fb_walk(pml4, (tables@, writes@, pmm@), virt, phys, ve) == fb_walk(pml4, s1, vs, ps, ve),
                kernel_tables_spec(orig@, fb_base, fb_size) == fb_walk(pml4, s1, vs, ps, ve),
            decreases ve - virt,
        {
            proof {
                assert(virt + TWO_MB <= ve) by (nonlinear_arith)
                    requires virt % 0x20_0000 == 0, ve % 0x20_0000 == 0, virt < ve;
                assert(pml4 % 4096 == 0 && pml4 / 4096 < MAX_FRAMES);
            }
            let ghost cur: Build = (tables@, writes@, pmm@);
            let (i3, i2, i1, _i0) = table_indices(virt);
            let a4 = pml4 + (i3 as u64) * 8;
            if !ensure_table_at(pmm, &mut tables, &mut writes, a4, Ghost(orig)) {
                proof {
                    assert(ensure_table(cur, a4) is None);
                    assert(fb_walk(pml4, cur, virt, phys, ve) is None);
                }
                give_back(pmm, &tables, Ghost(orig));
                return None;
            }
            let pdpt = entry_target(read_entry(&writes, a4));
            proof {
                assert(pdpt + 4095 <= u64::MAX) by (nonlinear_arith)
                    requires pdpt % 4096 == 0, pdpt <= u64::MAX;
            }
            let a3 = pdpt + (i2 as u64) * 8;
            let ghost cur1: Build = (tables@, writes@, pmm@);
            if !ensure_table_at(pmm, &mut tables, &mut writes, a3, Ghost(orig)) {
                proof {
                    assert(ensure_table(cur, a4) == Some(cur1));
                    assert(ensure_table(cur1, a3) is None);
                    assert(fb_walk(pml4, cur, virt, phys, ve) is None);
                }
                give_back(pmm, &tables, Ghost(orig));
                return None;
            }
            let pd = entry_target(read_entry(&writes, a3));
            proof {
                assert(pd + 4095 <= u64::MAX) by (nonlinear_arith)
                    requires pd % 4096 == 0, pd <= u64::MAX;
            }
            let a2 = pd + (i1 as u64) * 8;
            writes.push((a2, table_entry(phys, true)));
            virt = virt + TWO_MB;
            phys = phys.wrapping_add(TWO_MB);
        }
    }
    Some(KernelTables { pml4: tables[0], tables, writes })
}
} // verus!
