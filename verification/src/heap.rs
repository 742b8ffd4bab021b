//! The kernel heap's slab allocator: size classes, the slab headers with
//! their intrusive free lists, and large allocations taken whole from the
//! frame allocator. The free-list links live in the free slots themselves;
//! the caller reads and writes them as the operations below direct.
use vstd::prelude::*;
use crate::paging::{p2v, v2p, virt_to_phys, PHYSICAL_OFFSET};
use crate::pmm::{run_len, PMMState, MAX_FRAMES, PAGE_SIZE};

verus! {

pub const NUM_CLASSES: usize = 8;
pub const MAX_SLABS_PER_CLASS: usize = 64;

/// Slot size of size class `i`: 16 bytes doubled `i` times.
pub open spec fn class_size(i: int) -> int {
    if i == 0 { 16 } else if i == 1 { 32 } else if i == 2 { 64 } else if i == 3 { 128 }
    else if i == 4 { 256 } else if i == 5 { 512 } else if i == 6 { 1024 } else { 2048 }
}

/// The smallest class whose slots hold `size` bytes, if any.
pub open spec fn class_of(size: int) -> Option<int> {
    if size <= 16 { Some(0) } else if size <= 32 { Some(1) } else if size <= 64 { Some(2) }
    else if size <= 128 { Some(3) } else if size <= 256 { Some(4) } else if size <= 512 { Some(5) }
    else if size <= 1024 { Some(6) } else if size <= 2048 { Some(7) } else { None }
}

/// Slot size of size class `class_idx`.
pub fn slot_size(class_idx: usize) -> (s: usize)
    requires
        class_idx < NUM_CLASSES,
    ensures
        s == class_size(class_idx as int),
{
    if class_idx == 0 { 16 } else if class_idx == 1 { 32 } else if class_idx == 2 { 64 } else if class_idx == 3 { 128 }
    else if class_idx == 4 { 256 } else if class_idx == 5 { 512 } else if class_idx == 6 { 1024 } else { 2048 }
}

/// The size class for an allocation of `size` bytes; `None` above 2048 bytes.
pub fn class_for(size: usize) -> (r: Option<usize>)
    ensures
        match r {
            Some(i) => class_of(size as int) == Some(i as int) && i < NUM_CLASSES,
            None => class_of(size as int) is None,
        },
{
    if size <= 16 { Some(0) } else if size <= 32 { Some(1) } else if size <= 64 { Some(2) }
    else if size <= 128 { Some(3) } else if size <= 256 { Some(4) } else if size <= 512 { Some(5) }
    else if size <= 1024 { Some(6) } else if size <= 2048 { Some(7) } else { None }
}

/// Bytes an allocation takes: its size, raised to its alignment and to a word.
pub fn alloc_size(size: usize, align: usize) -> (r: usize)
    ensures
        r >= size && r >= align && r >= 8,
        r == size || r == align || r == 8,
{
    let a = if size > align { size } else { align };
    if a > 8 { a } else { 8 }
}

/// Pages a large allocation of `size` bytes takes.
pub fn large_pages(size: usize) -> (n: usize)
    requires
        size + PAGE_SIZE <= usize::MAX,
    ensures
        n == (size + 4095) / 4096,
{
    (size + PAGE_SIZE - 1) / PAGE_SIZE
}

/// A slab: one page of equal slots. `page` 0 marks an unused header.
#[derive(Clone, Copy)]
pub struct SlabHeader {
    pub page: usize,
    pub free_head: u64,
    pub free_count: usize,
    pub capacity: usize,
}

impl SlabHeader {
    /// An unused header.
    pub fn empty() -> (h: Self)
        ensures
            h.page == 0 && h.free_head == 0 && h.free_count == 0 && h.capacity == 0,
    {
        SlabHeader { page: 0, free_head: 0, free_count: 0, capacity: 0 }
    }

    /// Whether the header is unused.
    pub fn is_empty_slot(&self) -> (r: bool)
        ensures
            r == (self.page == 0),
    {
        self.page == 0
    }
}

/// The slab headers: `MAX_SLABS_PER_CLASS` per size class, class by class.
pub struct SlabAllocator {
    pub slabs: [SlabHeader; 512],
}

/// Index of header `j` of class `ci`.
pub open spec fn hidx(ci: int, j: int) -> int {
    ci * 64 + j
}

/// The first header of class `ci` (as its index within the class) that
/// satisfies `f`, if any.
pub open spec fn first_header(s: Seq<SlabHeader>, ci: int, f: spec_fn(SlabHeader) -> bool) -> Option<int> {
    if exists|j: int| 0 <= j < 64 && f(#[trigger] s[hidx(ci, j)]) {
        Some(choose|j: int| 0 <= j < 64 && f(#[trigger] s[hidx(ci, j)])
            && forall|k: int| 0 <= k < j ==> !f(#[trigger] s[hidx(ci, k)]))
    } else {
        None
    }
}

proof fn lemma_first_header(s: Seq<SlabHeader>, ci: int, f: spec_fn(SlabHeader) -> bool, j: int)
    requires
        0 <= j <= 64,
        forall|k: int| 0 <= k < j ==> !f(#[trigger] s[hidx(ci, k)]),
        j < 64 ==> f(s[hidx(ci, j)]),
    ensures
        first_header(s, ci, f) == (if j < 64 { Some(j) } else { None }),
{
    if j < 64 {
        let c = choose|k: int| 0 <= k < 64 && f(#[trigger] s[hidx(ci, k)])
            && forall|m: int| 0 <= m < k ==> !f(#[trigger] s[hidx(ci, m)]);
        assert(0 <= j < 64 && f(s[hidx(ci, j)]) && forall|m: int| 0 <= m < j ==> !f(#[trigger] s[hidx(ci, m)]));
        if c < j { assert(!f(s[hidx(ci, c)])); }
        if j < c { assert(!f(s[hidx(ci, j)])); }
    }
}

/// A slab's header after its first free slot is taken; `next` is the link
/// that slot held.
pub open spec fn after_pop(h: SlabHeader, next: u64) -> SlabHeader {
    SlabHeader { free_head: next, free_count: (h.free_count - 1) as usize, ..h }
}

/// A slab's header after the slot at `addr` is given back: at the head of
/// the free list, or the header cleared when every slot is then free.
pub open spec fn after_push(h: SlabHeader, addr: u64) -> SlabHeader {
    if h.free_count + 1 == h.capacity {
        SlabHeader { page: 0, free_head: 0, free_count: 0, capacity: 0 }
    } else {
        SlabHeader { free_head: addr, free_count: (h.free_count + 1) as usize, ..h }
    }
}

/// Giving back a slot just taken, while other slots of its slab stay taken,
/// restores the slab's header; the link to store in the slot is the one it held.
pub proof fn lemma_push_undoes_pop(h: SlabHeader, next: u64)
    requires
        0 < h.free_count,
        h.free_count != h.capacity,
    ensures
        after_push(after_pop(h, next), h.free_head) == h,
        after_pop(h, next).free_head == next,
{
}

/// What a slot's release did to its slab.
pub struct SlotRelease {
    /// The free-list head to store in the released slot.
    pub link: u64,
    /// The slab's page, when the slab became wholly free and its page is to go back.
    pub freed_page: Option<usize>,
}

impl SlabAllocator {
    /// Every slab's page lies below 4 GiB.
    pub open spec fn wf(&self) -> bool {
        forall|i: int| 0 <= i < 512 ==> (#[trigger] self.slabs[i]).page < MAX_FRAMES * PAGE_SIZE
    }

    /// No slabs.
    pub fn new() -> (a: Self)
        ensures
            a.wf(),
            forall|i: int| 0 <= i < 512 ==> (#[trigger] a.slabs[i]).page == 0,
    {
        SlabAllocator { slabs: [SlabHeader::empty(); 512] }
    }

    /// The first slab of class `ci` with a free slot.
    pub fn find_free_slab(&self, ci: usize) -> (r: Option<usize>)
        requires
            ci < NUM_CLASSES,
        ensures
            match r {
                Some(j) => j < 64 && first_header(self.slabs@, ci as int, |h: SlabHeader| h.page != 0 && h.free_count > 0) == Some(j as int),
                None => first_header(self.slabs@, ci as int, |h: SlabHeader| h.page != 0 && h.free_count > 0) is None,
            },
    {
        let ghost f = |h: SlabHeader| h.page != 0 && h.free_count > 0;
        let mut j: usize = 0;
        while j < MAX_SLABS_PER_CLASS
            invariant
                j <= 64,
                ci < 8,
                f == (|h: SlabHeader| h.page != 0 && h.free_count > 0),
                forall|k: int| 0 <= k < j ==> !f(#[trigger] self.slabs@[hidx(ci as int, k)]),
            decreases 64 - j,
        {
            let h = self.slabs[ci * 64 + j];
            if !h.is_empty_slot() && h.free_count > 0 {
                proof { lemma_first_header(self.slabs@, ci as int, f, j as int); }
                return Some(j);
            }
            j = j + 1;
        }
        proof { lemma_first_header(self.slabs@, ci as int, f, 64); }
        None
    }

    /// The first unused header of class `ci`.
    pub fn find_empty_header(&self, ci: usize) -> (r: Option<usize>)
        requires
            ci < NUM_CLASSES,
        ensures
            match r {
                Some(j) => j < 64 && first_header(self.slabs@, ci as int, |h: SlabHeader| h.page == 0) == Some(j as int),
                None => first_header(self.slabs@, ci as int, |h: SlabHeader| h.page == 0) is None,
            },
    {
        let ghost f = |h: SlabHeader| h.page == 0;
        let mut j: usize = 0;
        while j < MAX_SLABS_PER_CLASS
            invariant
                j <= 64,
                ci < 8,
                f == (|h: SlabHeader| h.page == 0),
                forall|k: int| 0 <= k < j ==> !f(#[trigger] self.slabs@[hidx(ci as int, k)]),
            decreases 64 - j,
        {
            if self.slabs[ci * 64 + j].is_empty_slot() {
                proof { lemma_first_header(self.slabs@, ci as int, f, j as int); }
                return Some(j);
            }
            j = j + 1;
        }
        proof { lemma_first_header(self.slabs@, ci as int, f, 64); }
        None
    }

    /// Start a slab of class `ci` in unused header `j`: take a frame from
    /// `pmm` and make every slot free, the first slot at the head of the list.
    /// Returns the frame's physical address, 0 when no frame is free (then
    /// nothing changes). The caller links slot `i` to slot `i + 1` (see `slot_link`).
    pub fn new_slab(&mut self, pmm: &mut PMMState, ci: usize, j: usize) -> (page: usize)
        requires
            old(self).wf(),
            old(pmm).wf(),
            ci < NUM_CLASSES,
            j < MAX_SLABS_PER_CLASS,
        ensures
            final(self).wf(),
            final(pmm).wf(),
            page == 0 <==> (forall|g: int| 1 <= g < MAX_FRAMES ==> !#[trigger] old(pmm)@[g]),
            page == 0 ==> *final(self) == *old(self) && final(pmm)@ == old(pmm)@,
            page != 0 ==> {
                let cap = 4096int / class_size(ci as int);
                let f = page / PAGE_SIZE;
                &&& page % PAGE_SIZE == 0 && 1 <= f < MAX_FRAMES && old(pmm)@[f as int]
                &&& forall|g: int| 1 <= g < f ==> !#[trigger] old(pmm)@[g]
                &&& final(self).slabs[hidx(ci as int, j as int)] == (SlabHeader {
                    page, free_head: (page + PHYSICAL_OFFSET) as u64, free_count: cap as usize, capacity: cap as usize })
                &&& forall|i: int| 0 <= i < 512 && i != hidx(ci as int, j as int) ==> final(self).slabs[i] == old(self).slabs[i]
                &&& final(pmm)@ == old(pmm)@.update((page / PAGE_SIZE) as int, false)
            },
    {
        let page = pmm.alloc_frame();
        if page == 0 {
            return 0;
        }
        proof {
            let f = page / PAGE_SIZE;
            assert(page == f * 4096) by (nonlinear_arith) requires page % 4096 == 0, f == page / 4096;
        }
        let size = slot_size(ci);
        let cap = PAGE_SIZE / size;
        let head = p2v(page as u64);
        self.slabs[ci * 64 + j] = SlabHeader { page, free_head: head, free_count: cap, capacity: cap };
        page
    }

    /// Take the slot at the head of slab `j` of class `ci`'s free list; `next`
    /// is the link stored in that slot. Returns the slot's address.
    pub fn pop_slot(&mut self, ci: usize, j: usize, next: u64) -> (slot: u64)
        requires
            old(self).wf(),
            ci < NUM_CLASSES,
            j < MAX_SLABS_PER_CLASS,
            old(self).slabs[hidx(ci as int, j as int)].free_count > 0,
        ensures
            final(self).wf(),
            slot == old(self).slabs[hidx(ci as int, j as int)].free_head,
            final(self).slabs[hidx(ci as int, j as int)] == after_pop(old(self).slabs[hidx(ci as int, j as int)], next),
            forall|i: int| 0 <= i < 512 && i != hidx(ci as int, j as int) ==> final(self).slabs[i] == old(self).slabs[i],
    {
        let k = ci * 64 + j;
        let mut h = self.slabs[k];
        let slot = h.free_head;
        h.free_head = next;
        h.free_count = h.free_count - 1;
        self.slabs[k] = h;
        slot
    }

    /// The first slab of class `ci` whose page holds physical address `addr`.
    pub fn find_owner(&self, ci: usize, addr: usize) -> (r: Option<usize>)
        requires
            self.wf(),
            ci < NUM_CLASSES,
        ensures
            match r {
                Some(j) => j < 64 && first_header(self.slabs@, ci as int,
                    |h: SlabHeader| h.page != 0 && h.page <= addr < h.page + PAGE_SIZE) == Some(j as int),
                None => first_header(self.slabs@, ci as int,
                    |h: SlabHeader| h.page != 0 && h.page <= addr < h.page + PAGE_SIZE) is None,
            },
    {
        let ghost f = |h: SlabHeader| h.page != 0 && h.page <= addr < h.page + PAGE_SIZE;
        let mut j: usize = 0;
        while j < MAX_SLABS_PER_CLASS
            invariant
                j <= 64,
                ci < 8,
                self.wf(),
                f == (|h: SlabHeader| h.page != 0 && h.page <= addr < h.page + PAGE_SIZE),
                forall|k: int| 0 <= k < j ==> !f(#[trigger] self.slabs@[hidx(ci as int, k)]),
            decreases 64 - j,
        {
            let h = self.slabs[ci * 64 + j];
            if !h.is_empty_slot() && addr >= h.page && addr - h.page < PAGE_SIZE {
                proof { lemma_first_header(self.slabs@, ci as int, f, j as int); }
                return Some(j);
            }
            j = j + 1;
        }
        proof { lemma_first_header(self.slabs@, ci as int, f, 64); }
        None
    }

    /// Put the slot at `addr` back at the head of slab `j` of class `ci`'s free
    /// list. When every slot is then free the header is cleared and its page
    /// is to go back to the frame allocator.
    pub fn push_slot(&mut self, ci: usize, j: usize, addr: u64) -> (r: SlotRelease)
        requires
            old(self).wf(),
            ci < NUM_CLASSES,
            j < MAX_SLABS_PER_CLASS,
            old(self).slabs[hidx(ci as int, j as int)].free_count < usize::MAX,
        ensures
            final(self).wf(),
            r.link == old(self).slabs[hidx(ci as int, j as int)].free_head,
            ({
                let h = old(self).slabs[hidx(ci as int, j as int)];
                &&& r.freed_page == (if h.free_count + 1 == h.capacity { Some(h.page) } else { None })
                &&& final(self).slabs[hidx(ci as int, j as int)] == after_push(h, addr)
            }),
            forall|i: int| 0 <= i < 512 && i != hidx(ci as int, j as int) ==> final(self).slabs[i] == old(self).slabs[i],
    {
        let k = ci * 64 + j;
        let mut h = self.slabs[k];
        let link = h.free_head;
        h.free_head = addr;
        h.free_count = h.free_count + 1;
        if h.free_count == h.capacity {
            let page = h.page;
            self.slabs[k] = SlabHeader::empty();
            return SlotRelease { link, freed_page: Some(page) };
        }
        self.slabs[k] = h;
        SlotRelease { link, freed_page: None }
    }
}

/// Address of slot `i` of a slab whose page is direct-mapped at `page_virt`,
/// and the link it holds when the slab starts: the next slot, or 0 for the last.
pub fn slot_link(page_virt: u64, ci: usize, i: usize) -> (r: (u64, u64))
    requires
        ci < NUM_CLASSES,
        i < 4096int / class_size(ci as int),
        page_virt + 4096 <= u64::MAX,
    ensures
        r.0 == page_virt + i * class_size(ci as int),
        r.1 == (if i + 1 < 4096int / class_size(ci as int) { page_virt + (i + 1) * class_size(ci as int) } else { 0 }),
{
    let size = slot_size(ci);
    let cap = PAGE_SIZE / size;
    assert((i + 1) * size <= cap * size) by (nonlinear_arith) requires i + 1 <= cap;
    assert(cap * size <= 4096) by (nonlinear_arith) requires cap == 4096usize / size, size > 0;
    assert(i * size <= 4096) by (nonlinear_arith) requires i < cap, cap * size <= 4096, size > 0;
    let addr = page_virt + (i as u64) * (size as u64);
    let next = if i + 1 < cap { page_virt + ((i + 1) as u64) * (size as u64) } else { 0 };
    (addr, next)
}

/// Take `size` bytes as whole contiguous frames; returns the direct-mapped
/// address of the first, or 0 when the frames cannot be had.
pub fn alloc_large(pmm: &mut PMMState, size: usize) -> (addr: u64)
    requires
        old(pmm).wf(),
        size + PAGE_SIZE <= usize::MAX,
    ensures
        final(pmm).wf(),
        final(pmm).total() == old(pmm).total(),
        ({
            let n = (size + 4095) / 4096;
            &&& addr == 0 <==> (n == 0 || forall|e: int| 1 <= e < MAX_FRAMES ==> #[trigger] run_len(old(pmm)@, e) < n)
            &&& addr == 0 ==> final(pmm)@ == old(pmm)@
            &&& addr != 0 ==> {
                let s = (addr - PHYSICAL_OFFSET) / (PAGE_SIZE as int);
                &&& forall|e: int| 1 <= e < s + n - 1 ==> #[trigger] run_len(old(pmm)@, e) < n
                &&& final(pmm).free_count() + n == old(pmm).free_count()
                &&& addr >= PHYSICAL_OFFSET
                &&& (addr - PHYSICAL_OFFSET) % (PAGE_SIZE as int) == 0
                &&& 1 <= s && s + n <= MAX_FRAMES
                &&& forall|i: int| s <= i < s + n ==> #[trigger] old(pmm)@[i]
                &&& final(pmm)@ == crate::pmm::mark_used(old(pmm)@, s, n)
            }
        }),
{
    let n = large_pages(size);
    let first = pmm.alloc_frames(n);
    if first == 0 {
        return 0;
    }
    proof {
        let f = first / PAGE_SIZE;
        assert(first == f * 4096) by (nonlinear_arith) requires first % 4096 == 0, f == first / 4096;
        assert(f * 4096 <= 1048576 * 4096) by (nonlinear_arith) requires f <= 1048576;
    }
    p2v(first as u64)
}

/// The frame map `v` after freeing frames `s .. s + n` (frame 0 and frames
/// past the map are left alone).
pub open spec fn freed_range(v: Seq<bool>, s: int, n: int) -> Seq<bool> {
    Seq::new(v.len(), |g: int| if s <= g < s + n && 1 <= g { true } else { v[g] })
}

/// Give back the frames of a large allocation of `size` bytes at direct-mapped
/// address `addr`.
pub fn free_large(pmm: &mut PMMState, addr: u64, size: usize)
    requires
        old(pmm).wf(),
        size + PAGE_SIZE <= usize::MAX,
        addr >= PHYSICAL_OFFSET,
        virt_to_phys(addr) + size + PAGE_SIZE <= usize::MAX,
    ensures
        final(pmm).wf(),
        final(pmm).total() == old(pmm).total(),
        final(pmm)@ == freed_range(old(pmm)@, virt_to_phys(addr) as int / (PAGE_SIZE as int), (size + 4095) / 4096),
{
    let n = large_pages(size);
    let phys = crate::paging::v2p(addr) as usize;
    let ghost s = phys / PAGE_SIZE;
    let mut i: usize = 0;
    proof {
        old(pmm).lemma_wf();
        assert(n * 4096 <= size + 4095) by (nonlinear_arith) requires n == (size + 4095) / 4096;
        assert(freed_range(old(pmm)@, s as int, 0) =~= old(pmm)@);
    }
    while i < n
        invariant
            i <= n,
            n == (size + 4095) / 4096,
            n * 4096 <= size + 4095,
            phys + size + PAGE_SIZE <= usize::MAX,
            s == phys / PAGE_SIZE,
            pmm.wf(),
            pmm.total() == old(pmm).total(),
            pmm@ == freed_range(old(pmm)@, s as int, i as int),
            old(pmm)@.len() == MAX_FRAMES,
        decreases n - i,
    {
        assert(i * 4096 < n * 4096) by (nonlinear_arith) requires i < n;
        let a = phys + i * PAGE_SIZE;
        assert(a / 4096 == s + i) by (nonlinear_arith) requires a == phys + i * 4096, s == phys / 4096;
        pmm.free_frame(a);
        proof {
            pmm.lemma_wf();
            assert(pmm@ =~= freed_range(old(pmm)@, s as int, i + 1));
        }
        i = i + 1;
    }
}


/// Which slab an allocation of a size class pops its slot from.
pub enum SlabPick {
    /// Slab `j` of the class already has a free slot.
    Ready(usize),
    /// Slab `j` was started on a fresh frame; its slots still need their links.
    Fresh(usize),
    /// No slab has a free slot and none can be started.
    Exhausted,
}

impl SlabAllocator {
    /// Pick the slab an allocation of class `ci` takes its slot from: the
    /// first with a free slot, else a new slab in the first unused header on a
    /// frame from `pmm`. Nothing changes unless a slab is started.
    pub fn take_slab(&mut self, pmm: &mut PMMState, ci: usize) -> (r: SlabPick)
        requires
            old(self).wf(),
            old(pmm).wf(),
            ci < NUM_CLASSES,
        ensures
            final(self).wf(),
            final(pmm).wf(),
            ({
                let ready = first_header(old(self).slabs@, ci as int, |h: SlabHeader| h.page != 0 && h.free_count > 0);
                let unused = first_header(old(self).slabs@, ci as int, |h: SlabHeader| h.page == 0);
                match r {
                    SlabPick::Ready(j) => ready == Some(j as int) && *final(self) == *old(self) && *final(pmm) == *old(pmm),
                    SlabPick::Fresh(j) => {
                        &&& ready is None && unused == Some(j as int)
                        &&& j < MAX_SLABS_PER_CLASS
                        &&& exists|f: int| 1 <= f < MAX_FRAMES && old(pmm)@[f]
                            && (forall|g: int| 1 <= g < f ==> !#[trigger] old(pmm)@[g])
                            && final(pmm)@ == old(pmm)@.update(f, false)
                            && final(self).slabs[hidx(ci as int, j as int)] == (SlabHeader {
                                page: (f * PAGE_SIZE) as usize,
                                free_head: (f * PAGE_SIZE + PHYSICAL_OFFSET) as u64,
                                free_count: (4096int / class_size(ci as int)) as usize,
                                capacity: (4096int / class_size(ci as int)) as usize })
                        &&& forall|i: int| 0 <= i < 512 && i != hidx(ci as int, j as int) ==> final(self).slabs[i] == old(self).slabs[i]
                    },
                    SlabPick::Exhausted => {
                        &&& ready is None
                        &&& (unused is None || forall|g: int| 1 <= g < MAX_FRAMES ==> !#[trigger] old(pmm)@[g])
                        &&& *final(self) == *old(self) && final(pmm)@ == old(pmm)@
                    },
                }
            }),
    {
        if let Some(j) = self.find_free_slab(ci) {
            return SlabPick::Ready(j);
        }
        let j = match self.find_empty_header(ci) {
            Some(j) => j,
            None => return SlabPick::Exhausted,
        };
        let page = self.new_slab(pmm, ci, j);
        if page == 0 {
            return SlabPick::Exhausted;
        }
        proof {
            let f = (page / PAGE_SIZE) as int;
            assert(page == f * 4096) by (nonlinear_arith) requires page % 4096 == 0, f == page / 4096;
        }
        SlabPick::Fresh(j)
    }

    /// Give back the slot at direct-mapped address `addr` of size class `ci`:
    /// find the slab whose page holds it and push the slot on its free list,
    /// returning the frame of a slab that became wholly free to `pmm`. Returns
    /// the link to store in the slot, or `None`, with nothing changed, when no
    /// slab of the class holds the address.
    pub fn release_slot(&mut self, pmm: &mut PMMState, ci: usize, addr: u64) -> (r: Option<u64>)
        requires
            old(self).wf(),
            old(pmm).wf(),
            ci < NUM_CLASSES,
            forall|j: int| 0 <= j < 64 ==> (#[trigger] old(self).slabs[hidx(ci as int, j)]).free_count < usize::MAX,
        ensures
            final(self).wf(),
            final(pmm).wf(),
            final(pmm).total() == old(pmm).total(),
            ({
                let phys = virt_to_phys(addr) as usize;
                let owner = first_header(old(self).slabs@, ci as int,
                    |h: SlabHeader| h.page != 0 && h.page <= phys < h.page + PAGE_SIZE);
                match owner {
                    None => r is None && *final(self) == *old(self) && final(pmm)@ == old(pmm)@,
                    Some(j) => {
                        let h = old(self).slabs[hidx(ci as int, j)];
                        &&& r == Some(h.free_head)
                        &&& forall|i: int| 0 <= i < 512 && i != hidx(ci as int, j) ==> final(self).slabs[i] == old(self).slabs[i]
                        &&& final(self).slabs[hidx(ci as int, j)] == after_push(h, addr)
                        &&& final(pmm)@ == (if h.free_count + 1 == h.capacity && 1 <= h.page / PAGE_SIZE < MAX_FRAMES {
                                old(pmm)@.update((h.page / PAGE_SIZE) as int, true) } else { old(pmm)@ })
                    },
                }
            }),
    {
        let phys = v2p(addr) as usize;
        let j = match self.find_owner(ci, phys) {
            Some(j) => j,
            None => return None,
        };
        let rel = self.push_slot(ci, j, addr);
        match rel.freed_page {
            Some(page) => pmm.free_frame(page),
            None => {},
        }
        Some(rel.link)
    }
}


/// Freeing the frames of a large allocation gives the frame map back as it
/// was before the allocation took them.
pub proof fn lemma_free_large_undoes_alloc(v: Seq<bool>, s: int, n: int)
    requires
        1 <= s,
        forall|i: int| s <= i < s + n && i < v.len() ==> #[trigger] v[i],
    ensures
        freed_range(crate::pmm::mark_used(v, s, n), s, n) == v,
{
    assert(freed_range(crate::pmm::mark_used(v, s, n), s, n) =~= v);
}


/// The size class chosen for an allocation is the smallest whose slots hold it.
pub proof fn lemma_class_fits(size: int)
    requires
        0 <= size,
    ensures
        class_of(size) matches Some(i) ==> 0 <= i < NUM_CLASSES && size <= class_size(i)
            && (i == 0 || class_size(i - 1) < size),
        class_of(size) is None ==> size > class_size(NUM_CLASSES - 1),
{
}

} // verus!
