//! Virtual-memory regions of the current process and the bump pointer that
//! hands out addresses for anonymous mappings.
use vstd::prelude::*;
use super::state::{Process, VmRegion, MAX_PROCS, MAX_VMAS};
use super::table::{lemma_wf_same_fds, ProcTable};

verus! {

/// End of a region, held to the range of `usize`.
pub open spec fn region_end(start: usize, len: usize) -> int {
    if start + len > usize::MAX { usize::MAX as int } else { start + len }
}

/// Whether two regions share an address (ends saturate at the top of memory).
pub open spec fn overlaps_spec(a_start: usize, a_len: usize, b_start: usize, b_len: usize) -> bool {
    a_start < region_end(b_start, b_len) && b_start < region_end(a_start, a_len)
}

/// The group slot of the process that task slot `cur` belongs to, if it has one.
pub open spec fn current_group_of(t: ProcTable, cur: int) -> Option<int> {
    if t.threads[cur] is Some && t.threads[cur]->0.group_slot < MAX_PROCS
        && t.processes[t.threads[cur]->0.group_slot as int] is Some {
        Some(t.threads[cur]->0.group_slot as int)
    } else {
        None
    }
}

/// The first unused region slot of `vmas`, if any.
pub open spec fn first_free_vma(vmas: Seq<VmRegion>) -> Option<int> {
    if exists|i: int| 0 <= i < vmas.len() && !vmas[i].in_use {
        Some(choose|i: int| 0 <= i < vmas.len() && !vmas[i].in_use
            && forall|j: int| 0 <= j < i ==> vmas[j].in_use)
    } else {
        None
    }
}

/// The first region of `vmas` in use with exactly this start and length, if any.
pub open spec fn exact_vma(vmas: Seq<VmRegion>, start: usize, len: usize) -> Option<int> {
    if exists|i: int| 0 <= i < vmas.len() && vmas[i].in_use && vmas[i].start == start && vmas[i].len == len {
        Some(choose|i: int| 0 <= i < vmas.len() && vmas[i].in_use && vmas[i].start == start && vmas[i].len == len
            && forall|j: int| 0 <= j < i ==> !(vmas[j].in_use && vmas[j].start == start && vmas[j].len == len))
    } else {
        None
    }
}

/// `b` is `a` with the process in group slot `g` replaced by `q`, whose
/// descriptors are those it had.
pub open spec fn process_replaced(a: ProcTable, b: ProcTable, g: int, q: Process) -> bool {
    &&& b.processes[g] == Some(q)
    &&& q.fds == a.processes[g]->0.fds
    &&& forall|j: int| 0 <= j < MAX_PROCS && j != g ==> b.processes[j] == a.processes[j]
    &&& b.threads == a.threads && b.open_files == a.open_files && b.pipes == a.pipes && b.next_pid == a.next_pid
}

/// `x` rounded up to a multiple of the page size.
pub open spec fn page_align_up(x: int) -> int {
    ((x + 4095) / 4096) * 4096
}

proof fn lemma_align_mask(x: u64)
    requires
        x <= u64::MAX - 0xFFF,
    ensures
        ((x + 0xFFF) as u64 & !0xFFFu64) == page_align_up(x as int),
{
    let y: u64 = (x + 0xFFF) as u64;
    assert(y & !0xFFFu64 == y - y % 4096) by (bit_vector);
    assert((y - y % 4096) == (y / 4096) * 4096) by (nonlinear_arith);
}

proof fn lemma_first_free(vmas: Seq<VmRegion>, i: int)
    requires
        0 <= i <= vmas.len(),
        forall|j: int| 0 <= j < i ==> vmas[j].in_use,
        i < vmas.len() ==> !vmas[i].in_use,
    ensures
        first_free_vma(vmas) == (if i < vmas.len() { Some(i) } else { None }),
{
    if i < vmas.len() {
        let c = choose|k: int| 0 <= k < vmas.len() && !vmas[k].in_use && forall|j: int| 0 <= j < k ==> vmas[j].in_use;
        assert(0 <= i < vmas.len() && !vmas[i].in_use && forall|j: int| 0 <= j < i ==> vmas[j].in_use);
        if c < i { assert(vmas[c].in_use); }
        if i < c { assert(vmas[i].in_use); }
    }
}

proof fn lemma_exact(vmas: Seq<VmRegion>, start: usize, len: usize, i: int)
    requires
        0 <= i <= vmas.len(),
        forall|j: int| 0 <= j < i ==> !(vmas[j].in_use && vmas[j].start == start && vmas[j].len == len),
        i < vmas.len() ==> vmas[i].in_use && vmas[i].start == start && vmas[i].len == len,
    ensures
        exact_vma(vmas, start, len) == (if i < vmas.len() { Some(i) } else { None }),
{
    if i < vmas.len() {
        let c = choose|k: int| 0 <= k < vmas.len() && vmas[k].in_use && vmas[k].start == start && vmas[k].len == len
            && forall|j: int| 0 <= j < k ==> !(vmas[j].in_use && vmas[j].start == start && vmas[j].len == len);
        assert(0 <= i < vmas.len() && vmas[i].in_use && vmas[i].start == start && vmas[i].len == len
            && forall|j: int| 0 <= j < i ==> !(vmas[j].in_use && vmas[j].start == start && vmas[j].len == len));
        if c < i { assert(!(vmas[c].in_use && vmas[c].start == start && vmas[c].len == len)); }
        if i < c { assert(!(vmas[i].in_use && vmas[i].start == start && vmas[i].len == len)); }
    }
}

/// Whether two regions share an address; region ends saturate at the top of memory.
pub fn overlaps(a_start: usize, a_len: usize, b_start: usize, b_len: usize) -> (r: bool)
    ensures
        r == overlaps_spec(a_start, a_len, b_start, b_len),
{
    let a_end = a_start.saturating_add(a_len);
    let b_end = b_start.saturating_add(b_len);
    a_start < b_end && b_start < a_end
}

impl ProcTable {
    /// The group slot of the current thread's process.
    pub fn current_group(&self, cur: usize) -> (r: Option<usize>)
        requires
            cur < MAX_PROCS,
        ensures
            match r {
                Some(g) => current_group_of(*self, cur as int) == Some(g as int),
                None => current_group_of(*self, cur as int) is None,
            },
    {
        match &self.threads[cur] {
            Some(t) => {
                let g = t.group_slot;
                if g < MAX_PROCS && self.processes[g].is_some() { Some(g) } else { None }
            },
            None => None,
        }
    }

    /// Whether `[start, start + len)` overlaps a region of the current process.
    /// Without a current process every range counts as taken.
    pub fn region_conflicts(&self, cur: usize, start: usize, len: usize) -> (r: bool)
        requires
            cur < MAX_PROCS,
        ensures
            r == match current_group_of(*self, cur as int) {
                None => true,
                Some(g) => exists|i: int| 0 <= i < MAX_VMAS && (#[trigger] self.processes[g]->0.vmas[i]).in_use
                    && overlaps_spec(start, len, self.processes[g]->0.vmas[i].start, self.processes[g]->0.vmas[i].len),
            },
    {
        let g = match self.current_group(cur) {
            Some(g) => g,
            None => return true,
        };
        let p = match &self.processes[g] {
            Some(p) => p,
            None => return true,
        };
        let mut i: usize = 0;
        while i < MAX_VMAS
            invariant
                i <= MAX_VMAS,
                g < MAX_PROCS,
                current_group_of(*self, cur as int) == Some(g as int),
                self.processes[g as int] == Some(*p),
                forall|j: int| 0 <= j < i ==> !((#[trigger] p.vmas[j]).in_use
                    && overlaps_spec(start, len, p.vmas[j].start, p.vmas[j].len)),
            decreases MAX_VMAS - i,
        {
            let v = p.vmas[i];
            if v.in_use && overlaps(start, len, v.start, v.len) {
                assert(self.processes[g as int]->0.vmas[i as int] == v);
                return true;
            }
            i = i + 1;
        }
        false
    }

    /// Record the region `[start, start + len)` in the first free region slot of
    /// the current process. `false` when there is no process or no free slot.
    pub fn alloc_vma(&mut self, cur: usize, start: usize, len: usize, prot: u32, flags: u32) -> (r: bool)
        requires
            old(self).wf(),
            cur < MAX_PROCS,
        ensures
            final(self).wf(),
            match current_group_of(*old(self), cur as int) {
                Some(g) => match first_free_vma(old(self).processes[g]->0.vmas@) {
                    Some(i) => {
                        let q = final(self).processes[g]->0;
                        &&& r
                        &&& process_replaced(*old(self), *final(self), g, q)
                        &&& q.vmas@ == old(self).processes[g]->0.vmas@.update(i, VmRegion { start, len, prot, flags, in_use: true })
                        &&& q == (Process { vmas: q.vmas, ..old(self).processes[g]->0 })
                    },
                    None => !r && *final(self) == *old(self),
                },
                None => !r && *final(self) == *old(self),
            },
    {
        let g = match self.current_group(cur) {
            Some(g) => g,
            None => return false,
        };
        let mut p = match self.processes[g] {
            Some(p) => p,
            None => return false,
        };
        let mut i: usize = 0;
        while i < MAX_VMAS
            invariant
                i <= MAX_VMAS,
                g < MAX_PROCS,
                self.wf(),
                *self == *old(self),
                current_group_of(*self, cur as int) == Some(g as int),
                self.processes[g as int] == Some(p),
                forall|j: int| 0 <= j < i ==> (#[trigger] p.vmas[j]).in_use,
            decreases MAX_VMAS - i,
        {
            if !p.vmas[i].in_use {
                proof { lemma_first_free(p.vmas@, i as int); }
                let ghost before = *self;
                let ghost op = p;
                p.vmas[i] = VmRegion::new(start, len, prot, flags);
                self.processes[g] = Some(p);
                proof {
                    assert(p.vmas@ =~= op.vmas@.update(i as int, VmRegion { start, len, prot, flags, in_use: true }));
                    lemma_wf_same_fds(before, *self);
                }
                return true;
            }
            i = i + 1;
        }
        proof { lemma_first_free(p.vmas@, MAX_VMAS as int); }
        false
    }

    /// Index of the first region of the current process in use with exactly
    /// this start and length.
    pub fn find_vma_exact_mut(&self, cur: usize, start: usize, len: usize) -> (r: Option<usize>)
        requires
            cur < MAX_PROCS,
        ensures
            match current_group_of(*self, cur as int) {
                Some(g) => match r {
                    Some(i) => exact_vma(self.processes[g]->0.vmas@, start, len) == Some(i as int),
                    None => exact_vma(self.processes[g]->0.vmas@, start, len) is None,
                },
                None => r is None,
            },
    {
        let g = match self.current_group(cur) {
            Some(g) => g,
            None => return None,
        };
        let p = match &self.processes[g] {
            Some(p) => p,
            None => return None,
        };
        let mut i: usize = 0;
        while i < MAX_VMAS
            invariant
                i <= MAX_VMAS,
                g < MAX_PROCS,
                current_group_of(*self, cur as int) == Some(g as int),
                self.processes[g as int] == Some(*p),
                forall|j: int| 0 <= j < i ==> !((#[trigger] p.vmas[j]).in_use && p.vmas[j].start == start && p.vmas[j].len == len),
            decreases MAX_VMAS - i,
        {
            let v = p.vmas[i];
            if v.in_use && v.start == start && v.len == len {
                proof { lemma_exact(p.vmas@, start, len, i as int); }
                return Some(i);
            }
            i = i + 1;
        }
        proof { lemma_exact(p.vmas@, start, len, MAX_VMAS as int); }
        None
    }

    /// Hand out `len` bytes of address space for an anonymous mapping: the
    /// current process's bump pointer, rounded up to a page, becomes the start,
    /// and the pointer moves past the range. `None` without a process or when
    /// the range would pass the top of the address space.
    pub fn reserve_mmap_base(&mut self, cur: usize, len: usize) -> (r: Option<u64>)
        requires
            old(self).wf(),
            cur < MAX_PROCS,
            current_group_of(*old(self), cur as int) matches Some(g)
                ==> old(self).processes[g]->0.next_mmap_base <= u64::MAX - 0xFFF,
        ensures
            final(self).wf(),
            match current_group_of(*old(self), cur as int) {
                Some(g) => {
                    let start = page_align_up(old(self).processes[g]->0.next_mmap_base as int);
                    if start + len > u64::MAX {
                        r is None && *final(self) == *old(self)
                    } else {
                        let q = final(self).processes[g]->0;
                        &&& r == Some(start as u64)
                        &&& process_replaced(*old(self), *final(self), g, q)
                        &&& q == (Process { next_mmap_base: (start + len) as u64, ..old(self).processes[g]->0 })
                    }
                },
                None => r is None && *final(self) == *old(self),
            },
    {
        let g = match self.current_group(cur) {
            Some(g) => g,
            None => return None,
        };
        let mut p = match self.processes[g] {
            Some(p) => p,
            None => return None,
        };
        let base = p.next_mmap_base;
        let start = (base + 0xFFF) & !0xFFFu64;
        proof { lemma_align_mask(base); }
        let end = match start.checked_add(len as u64) {
            Some(e) => e,
            None => return None,
        };
        let ghost before = *self;
        p.next_mmap_base = end;
        self.processes[g] = Some(p);
        proof { lemma_wf_same_fds(before, *self); }
        Some(start)
    }
}

} // verus!
