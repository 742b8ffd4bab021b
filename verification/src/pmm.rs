//! Physical memory manager: a bitmap of 4 KiB frames, one bit per frame,
//! set when the frame is in use.
use vstd::prelude::*;
use crate::boot::{CoreOS_BootInfo, MemMapEntry, EFI_CONVENTIONAL_MEMORY};

verus! {

pub const PAGE_SIZE: usize = 4096;

/// Frames tracked by the bitmap (4 GiB of physical memory).
pub const MAX_FRAMES: usize = 1048576;

pub const BITMAP_BYTES: usize = 131072;

/// Whether frame `f` is free in a bitmap.
pub open spec fn bit_free(bitmap: Seq<u8>, f: int) -> bool {
    bitmap[f / 8] & (1u8 << ((f % 8) as u8)) == 0
}

/// Number of `true` entries of a sequence.
pub open spec fn count_true(s: Seq<bool>) -> nat
    decreases s.len(),
{
    if s.len() == 0 {
        0
    } else {
        count_true(s.drop_last()) + if s.last() { 1nat } else { 0nat }
    }
}

pub proof fn lemma_count_update(s: Seq<bool>, i: int, v: bool)
    requires
        0 <= i < s.len(),
    ensures
        count_true(s.update(i, v)) + (if s[i] { 1int } else { 0int })
            == count_true(s) + (if v { 1int } else { 0int }),
    decreases s.len(),
{
    if i == s.len() - 1 {
        assert(s.update(i, v).drop_last() =~= s.drop_last());
    } else {
        lemma_count_update(s.drop_last(), i, v);
        assert(s.update(i, v).drop_last() =~= s.drop_last().update(i, v));
    }
}

pub proof fn lemma_count_le_len(s: Seq<bool>)
    ensures
        count_true(s) <= s.len(),
    decreases s.len(),
{
    if s.len() > 0 {
        lemma_count_le_len(s.drop_last());
    }
}

pub proof fn lemma_count_none(s: Seq<bool>)
    requires
        forall|i: int| 0 <= i < s.len() ==> !s[i],
    ensures
        count_true(s) == 0,
    decreases s.len(),
{
    if s.len() > 0 {
        lemma_count_none(s.drop_last());
    }
}

proof fn lemma_bits(b: u8, k: u8, j: u8)
    by (bit_vector)
    requires
        k < 8,
        j < 8,
    ensures
        ((b | (1u8 << k)) & (1u8 << j) == 0) == (j != k && b & (1u8 << j) == 0),
        ((b & !(1u8 << k)) & (1u8 << j) == 0) == (j == k || b & (1u8 << j) == 0),
        (0xFFu8 & (1u8 << j)) != 0,
{
}

/// Length of the run of free frames that ends at frame `e` (frame 0 never counts).
pub open spec fn run_len(v: Seq<bool>, e: int) -> nat
    decreases e,
{
    if e < 1 || e >= v.len() || !v[e] {
        0
    } else {
        1 + run_len(v, e - 1)
    }
}

pub proof fn lemma_run_len(v: Seq<bool>, e: int, k: int)
    requires
        0 <= k <= run_len(v, e),
    ensures
        k > 0 ==> 1 <= e - k + 1 && e < v.len(),
        forall|i: int| e - k < i <= e ==> #[trigger] v[i],
    decreases k,
{
    if k > 0 {
        assert(!(e < 1 || e >= v.len() || !v[e]));
        assert(run_len(v, e) == 1 + run_len(v, e - 1));
        lemma_run_len(v, e - 1, k - 1);
        assert forall|i: int| e - k < i <= e implies #[trigger] v[i] by {
            if i < e {
                assert(e - 1 - (k - 1) < i <= e - 1);
            }
        }
    }
}

/// `g` is the lowest free frame above frame 0 in `v`.
pub open spec fn is_lowest_free(v: Seq<bool>, g: int) -> bool {
    &&& 1 <= g < MAX_FRAMES
    &&& v[g]
    &&& forall|h: int| 1 <= h < g ==> !#[trigger] v[h]
}

/// No frame above frame 0 is free in `v`.
pub open spec fn no_free_frame(v: Seq<bool>) -> bool {
    forall|g: int| 1 <= g < MAX_FRAMES ==> !#[trigger] v[g]
}

/// The lowest free frame above frame 0 in `v`.
pub open spec fn lowest_free(v: Seq<bool>) -> int {
    choose|g: int| is_lowest_free(v, g)
}

/// What `alloc_frame` does to frame map `v`: the frame it hands out and the
/// map after; `None` when no frame above frame 0 is free.
pub open spec fn alloc_frame_step(v: Seq<bool>) -> Option<(int, Seq<bool>)> {
    if no_free_frame(v) { None } else { Some((lowest_free(v), v.update(lowest_free(v), false))) }
}

/// `n` successive `alloc_frame` calls on frame map `v` with nothing freed in
/// between: the frames handed out, in order, and the map after; `None` when
/// one of them finds no free frame.
pub open spec fn successive_allocs(v: Seq<bool>, n: nat) -> Option<(Seq<int>, Seq<bool>)>
    decreases n,
{
    if n == 0 {
        Some((Seq::empty(), v))
    } else {
        match successive_allocs(v, (n - 1) as nat) {
            None => None,
            Some(p) => match alloc_frame_step(p.1) {
                None => None,
                Some(q) => Some((p.0.push(q.0), q.1)),
            },
        }
    }
}

/// Free frames above frame 0 in `v`.
pub open spec fn usable_frames(v: Seq<bool>) -> int {
    count_true(v) - (if v[0] { 1int } else { 0int })
}

/// A free frame above frame 0 gives a lowest one.
pub proof fn lemma_lowest_free_exists(v: Seq<bool>, g: int)
    requires
        1 <= g < MAX_FRAMES,
        v[g],
    ensures
        is_lowest_free(v, lowest_free(v)),
    decreases g,
{
    if forall|h: int| 1 <= h < g ==> !#[trigger] v[h] {
        assert(is_lowest_free(v, g));
    } else {
        let h = choose|h: int| 1 <= h < g && v[h];
        lemma_lowest_free_exists(v, h);
    }
}

/// The lowest free frame is unique: any frame with that property is it.
pub proof fn lemma_lowest_free_unique(v: Seq<bool>, g: int)
    requires
        is_lowest_free(v, g),
    ensures
        lowest_free(v) == g,
{
    let c = lowest_free(v);
    assert(is_lowest_free(v, c));
    if c < g {
        assert(!v[c]);
    }
    if g < c {
        assert(!v[g]);
    }
}

/// A frame map of the full size with a free frame counted above frame 0 has
/// a free frame above frame 0.
proof fn lemma_usable_has_free(v: Seq<bool>)
    requires
        v.len() == MAX_FRAMES,
        usable_frames(v) > 0,
    ensures
        !no_free_frame(v),
{
    if no_free_frame(v) {
        let w = v.update(0, false);
        assert forall|i: int| 0 <= i < w.len() implies !w[i] by {
            if i >= 1 {
                assert(!v[i]);
            }
        }
        lemma_count_none(w);
        lemma_count_update(v, 0, false);
    }
}

/// With at least `n` free frames above frame 0, `n` successive `alloc_frame`
/// calls with nothing freed in between all succeed, and hand out `n` distinct
/// frames above frame 0 that were free, which are then in use.
pub proof fn lemma_successive_allocs(v: Seq<bool>, n: nat)
    requires
        v.len() == MAX_FRAMES,
        usable_frames(v) >= n,
    ensures
        successive_allocs(v, n) matches Some(p) && {
            &&& p.0.len() == n
            &&& forall|k: int| 0 <= k < n ==> 1 <= #[trigger] p.0[k] < MAX_FRAMES && v[p.0[k]]
            &&& forall|k: int, l: int| 0 <= k < l < n ==> #[trigger] p.0[k] != #[trigger] p.0[l]
            &&& p.1.len() == MAX_FRAMES
            &&& forall|g: int| 0 <= g < MAX_FRAMES ==> #[trigger] p.1[g] == (v[g] && !p.0.contains(g))
            &&& count_true(p.1) + n == count_true(v)
        },
    decreases n,
{
    if n > 0 {
        lemma_successive_allocs(v, (n - 1) as nat);
        let p = successive_allocs(v, (n - 1) as nat)->0;
        let v1 = p.1;
        assert(v1[0] == v[0]) by {
            assert(!p.0.contains(0)) by {
                if p.0.contains(0) {
                    let k = choose|k: int| 0 <= k < p.0.len() && p.0[k] == 0;
                    assert(1 <= p.0[k]);
                }
            }
        }
        lemma_usable_has_free(v1);
        let g0 = choose|g: int| 1 <= g < MAX_FRAMES && v1[g];
        lemma_lowest_free_exists(v1, g0);
        let g = lowest_free(v1);
        lemma_count_update(v1, g, false);
        let fs = p.0.push(g);
        let v2 = v1.update(g, false);
        assert(!p.0.contains(g));
        assert forall|k: int, l: int| 0 <= k < l < n implies #[trigger] fs[k] != #[trigger] fs[l] by {
            if l == n - 1 {
                assert(p.0.contains(fs[k]));
            }
        }
        assert forall|k: int| 0 <= k < n implies 1 <= #[trigger] fs[k] < MAX_FRAMES && v[fs[k]] by {
            if k < n - 1 {
                assert(fs[k] == p.0[k]);
            }
        }
        assert forall|h: int| 0 <= h < MAX_FRAMES implies #[trigger] v2[h] == (v[h] && !fs.contains(h)) by {
            if h != g {
                assert(fs.contains(h) <==> p.0.contains(h)) by {
                    if fs.contains(h) {
                        let k = choose|k: int| 0 <= k < fs.len() && fs[k] == h;
                        assert(k < p.0.len());
                        assert(p.0[k] == h);
                    }
                    if p.0.contains(h) {
                        let k = choose|k: int| 0 <= k < p.0.len() && p.0[k] == h;
                        assert(fs[k] == h);
                    }
                }
            } else {
                assert(fs[n - 1] == g);
            }
        }
    }
}

/// The frame map after marking frames `start .. start + n` in use.
pub open spec fn mark_used(v: Seq<bool>, start: int, n: int) -> Seq<bool> {
    Seq::new(v.len(), |g: int| if start <= g < start + n { false } else { v[g] })
}

/// Whether memory-map entry `e` is conventional RAM that contains frame `f`.
pub open spec fn entry_covers(e: MemMapEntry, f: int) -> bool {
    &&& e.mem_type == EFI_CONVENTIONAL_MEMORY
    &&& (e.physical_start as usize) / PAGE_SIZE <= f
    &&& f < (e.physical_start as usize) / PAGE_SIZE + (e.num_pages as usize)
}

/// Whether one of the first `n` memory-map entries is conventional RAM containing frame `f`.
pub open spec fn covered(b: CoreOS_BootInfo, n: int, f: int) -> bool {
    exists|i: int| 0 <= i < n && #[trigger] entry_covers(b.mmap[i], f)
}

/// The frame map after freeing the conventional RAM of the first `n` entries.
pub open spec fn after_mmap(v: Seq<bool>, b: CoreOS_BootInfo, n: int) -> Seq<bool> {
    Seq::new(v.len(), |f: int| v[f] || covered(b, n, f))
}

/// First frame of the loaded kernel image.
pub open spec fn kernel_first_frame(b: CoreOS_BootInfo) -> int {
    ((b.kernel_phys_base as usize) / PAGE_SIZE) as int
}

/// One past the last frame of the loaded kernel image.
pub open spec fn kernel_end_frame(b: CoreOS_BootInfo) -> int {
    ((b.kernel_phys_base as usize) + (b.kernel_alloc_size as usize) + PAGE_SIZE - 1) as int / PAGE_SIZE as int
}

/// The frame map that `init` leaves: free RAM from the map, less the kernel image and frame 0.
pub open spec fn after_init(v: Seq<bool>, b: CoreOS_BootInfo) -> Seq<bool> {
    Seq::new(
        v.len(),
        |f: int|
            f != 0 && !(kernel_first_frame(b) <= f < kernel_end_frame(b)) && (v[f] || covered(
                b,
                b.mmap_count as int,
                f,
            )),
    )
}

/// Inputs on which `init` stays within machine arithmetic.
pub open spec fn init_arith_ok(b: CoreOS_BootInfo) -> bool {
    &&& b.mmap_count <= 256
    &&& forall|i: int|
        0 <= i < b.mmap_count ==> #[trigger] b.mmap[i].mem_type == EFI_CONVENTIONAL_MEMORY
            ==> (b.mmap[i].physical_start as usize) / PAGE_SIZE + (b.mmap[i].num_pages as usize)
            <= usize::MAX
    &&& (b.kernel_phys_base as usize) + (b.kernel_alloc_size as usize) + PAGE_SIZE <= usize::MAX
}

proof fn lemma_covered_step(b: CoreOS_BootInfo, i: int, f: int)
    requires
        0 <= i < 256,
    ensures
        covered(b, i + 1, f) == (covered(b, i, f) || entry_covers(b.mmap[i], f)),
{
    if covered(b, i + 1, f) {
        let j = choose|j: int| 0 <= j < i + 1 && #[trigger] entry_covers(b.mmap[j], f);
        if j < i {
            assert(covered(b, i, f));
        }
    }
    if covered(b, i, f) {
        let j = choose|j: int| 0 <= j < i && #[trigger] entry_covers(b.mmap[j], f);
        assert(0 <= j < i + 1 && entry_covers(b.mmap[j], f));
    }
    if entry_covers(b.mmap[i], f) {
        assert(0 <= i < i + 1 && entry_covers(b.mmap[i], f));
    }
}

/// The frame allocator: one bit per frame, 1 meaning in use.
pub struct PMMState {
    bitmap: Vec<u8>,
    total_frames: usize,
    free_frames: usize,
}

impl View for PMMState {
    /// Frame `f` is free iff `self@[f]`.
    type V = Seq<bool>;

    closed spec fn view(&self) -> Seq<bool> {
        Seq::new(MAX_FRAMES as nat, |f: int| bit_free(self.bitmap@, f))
    }
}

impl PMMState {
    /// The bitmap has its full size and the free counter equals the number of free frames.
    pub closed spec fn wf(&self) -> bool {
        &&& self.bitmap.len() == BITMAP_BYTES
        &&& self.free_frames == count_true(self@)
    }

    /// Frames counted as usable RAM by `init`.
    pub closed spec fn total(&self) -> nat {
        self.total_frames as nat
    }

    /// Number of free frames.
    pub closed spec fn free_count(&self) -> nat {
        self.free_frames as nat
    }

    pub proof fn lemma_wf(&self)
        requires
            self.wf(),
        ensures
            self@.len() == MAX_FRAMES,
            self.free_count() == count_true(self@),
            self.free_count() <= MAX_FRAMES,
    {
        lemma_count_le_len(self@);
    }

    /// An allocator in which every frame is in use.
    pub fn new() -> (s: Self)
        ensures
            s.wf(),
            forall|f: int| 0 <= f < MAX_FRAMES ==> !#[trigger] s@[f],
            s.total() == 0,
            s.free_count() == 0,
    {
        let s = PMMState { bitmap: vec![0xFFu8; BITMAP_BYTES], total_frames: 0, free_frames: 0 };
        proof {
            assert forall|f: int| 0 <= f < MAX_FRAMES implies !#[trigger] s@[f] by {
                lemma_bits(0xFFu8, 0, (f % 8) as u8);
            }
            lemma_count_none(s@);
        }
        s
    }

    /// Build the frame map from the loader's memory map: free every frame of
    /// conventional RAM below 4 GiB (counting it as usable RAM), then mark the
    /// kernel image and frame 0 in use.
    pub fn init(&mut self, boot_info: &CoreOS_BootInfo)
        requires
            old(self).wf(),
            init_arith_ok(*boot_info),
            old(self).total() + MAX_FRAMES <= usize::MAX,
        ensures
            final(self).wf(),
            final(self)@ == after_init(old(self)@, *boot_info),
            final(self).total() + count_true(old(self)@)
                == old(self).total() + count_true(after_mmap(old(self)@, *boot_info, boot_info.mmap_count as int)),
    {
        let ghost v0 = self@;
        let count = boot_info.mmap_count as usize;
        let mut i: usize = 0;
        proof {
            assert(after_mmap(v0, *boot_info, 0) =~= v0);
        }
        while i < count
            invariant
                i <= count,
                count == boot_info.mmap_count,
                init_arith_ok(*boot_info),
                v0 == old(self)@,
                old(self).wf(),
                old(self).total() + MAX_FRAMES <= usize::MAX,
                self.wf(),
                self@ == after_mmap(v0, *boot_info, i as int),
                self.total_frames + old(self).free_frames == old(self).total_frames + self.free_frames,
            decreases count - i,
        {
            let entry = boot_info.mmap[i];
            if entry.mem_type != EFI_CONVENTIONAL_MEMORY {
                proof {
                    assert forall|g: int| 0 <= g < MAX_FRAMES implies #[trigger] after_mmap(v0, *boot_info, (i + 1) as int)[g]
                        == after_mmap(v0, *boot_info, i as int)[g] by {
                        lemma_covered_step(*boot_info, i as int, g);
                    }
                    assert(after_mmap(v0, *boot_info, (i + 1) as int) =~= after_mmap(v0, *boot_info, i as int));
                }
            } else {
                let start_frame = (entry.physical_start as usize) / PAGE_SIZE;
                let frame_count = entry.num_pages as usize;
                assert(start_frame + frame_count <= usize::MAX);
                let mut f = start_frame;
                while f < start_frame + frame_count
                    invariant
                        start_frame <= f <= start_frame + frame_count,
                        start_frame + frame_count <= usize::MAX,
                        start_frame == (entry.physical_start as usize) / PAGE_SIZE,
                        frame_count == entry.num_pages as usize,
                        entry == boot_info.mmap[i as int],
                        entry.mem_type == EFI_CONVENTIONAL_MEMORY,
                        i < count,
                        count == boot_info.mmap_count,
                        v0 == old(self)@,
                        old(self).wf(),
                        old(self).total() + MAX_FRAMES <= usize::MAX,
                        self.wf(),
                        self@ == Seq::new(MAX_FRAMES as nat, |g: int| after_mmap(v0, *boot_info, i as int)[g] || (start_frame <= g < f)),
                        self.total_frames + old(self).free_frames == old(self).total_frames + self.free_frames,
                    decreases start_frame + frame_count - f,
                {
                    if f < MAX_FRAMES && !self.is_free(f) {
                        proof {
                            lemma_count_update(self@, f as int, true);
                            lemma_count_le_len(self@.update(f as int, true));
                            lemma_count_le_len(old(self)@);
                        }
                        self.set_free(f);
                        self.free_frames = self.free_frames + 1;
                        self.total_frames = self.total_frames + 1;
                    }
                    proof {
                        assert(self@ =~= Seq::new(MAX_FRAMES as nat, |g: int| after_mmap(v0, *boot_info, i as int)[g] || (start_frame <= g < f + 1)));
                    }
                    f = f + 1;
                }
                proof {
                    assert forall|g: int| 0 <= g < MAX_FRAMES implies #[trigger] after_mmap(v0, *boot_info, (i + 1) as int)[g]
                        == self@[g] by {
                        lemma_covered_step(*boot_info, i as int, g);
                    }
                    assert(after_mmap(v0, *boot_info, (i + 1) as int) =~= self@);
                }
            }
            i = i + 1;
        }
        let ghost v1 = self@;
        let ghost t1 = self.total_frames;
        let start = (boot_info.kernel_phys_base as usize) / PAGE_SIZE;
        let end = ((boot_info.kernel_phys_base as usize) + (boot_info.kernel_alloc_size as usize) + PAGE_SIZE - 1) / PAGE_SIZE;
        let mut f = start;
        proof {
            assert(v1 =~= Seq::new(MAX_FRAMES as nat, |g: int| v1[g] && !(start <= g < f)));
        }
        while f < end
            invariant
                start <= f,
                start < end ==> f <= end,
                start >= end ==> f == start,
                self.wf(),
                self.total_frames == t1,
                self@ == Seq::new(MAX_FRAMES as nat, |g: int| v1[g] && !(start <= g < f)),
            decreases end - f,
        {
            if f < MAX_FRAMES && self.is_free(f) {
                proof {
                    lemma_count_update(self@, f as int, false);
                }
                self.set_used(f);
                self.free_frames = self.free_frames - 1;
            }
            proof {
                assert(self@ =~= Seq::new(MAX_FRAMES as nat, |g: int| v1[g] && !(start <= g < f + 1)));
            }
            f = f + 1;
        }
        let ghost v2 = self@;
        if self.is_free(0) {
            proof {
                lemma_count_update(self@, 0, false);
            }
            self.set_used(0);
            self.free_frames = self.free_frames.saturating_sub(1);
        } else {
            assert(self@ =~= self@.update(0, false));
        }
        proof {
            assert(self@ =~= v2.update(0, false));
            assert(start == kernel_first_frame(*boot_info));
            assert(end == kernel_end_frame(*boot_info));
            assert(v1 == after_mmap(v0, *boot_info, boot_info.mmap_count as int));
            assert forall|g: int| 0 <= g < MAX_FRAMES implies #[trigger] self@[g] == after_init(v0, *boot_info)[g] by {
                if start < end {
                    assert(f == end);
                }
            }
            assert(self@ =~= after_init(v0, *boot_info));
        }
    }

    /// Whether frame `f` is free.
    pub fn is_free(&self, f: usize) -> (r: bool)
        requires
            self.wf(),
            f < MAX_FRAMES,
        ensures
            r == self@[f as int],
    {
        (self.bitmap[f / 8] & (1u8 << ((f % 8) as u8))) == 0
    }

    proof fn lemma_byte_update(old_map: Seq<u8>, new_map: Seq<u8>, f: int, v: bool)
        requires
            old_map.len() == BITMAP_BYTES,
            0 <= f < MAX_FRAMES,
            new_map == old_map.update(f / 8, if v { old_map[f / 8] & !(1u8 << ((f % 8) as u8)) } else { old_map[f / 8] | (1u8 << ((f % 8) as u8)) }),
        ensures
            Seq::new(MAX_FRAMES as nat, |g: int| bit_free(new_map, g))
                =~= Seq::new(MAX_FRAMES as nat, |g: int| bit_free(old_map, g)).update(f, v),
    {
        assert forall|g: int| 0 <= g < MAX_FRAMES implies #[trigger] bit_free(new_map, g)
            == Seq::new(MAX_FRAMES as nat, |g: int| bit_free(old_map, g)).update(f, v)[g] by {
            if g / 8 == f / 8 {
                lemma_bits(old_map[f / 8], (f % 8) as u8, (g % 8) as u8);
            }
        }
    }

    /// Mark frame `f` in use (the free counter is left to the caller).
    fn set_used(&mut self, f: usize)
        requires
            old(self).bitmap.len() == BITMAP_BYTES,
            f < MAX_FRAMES,
        ensures
            final(self).bitmap.len() == BITMAP_BYTES,
            final(self)@ == old(self)@.update(f as int, false),
            final(self).free_frames == old(self).free_frames,
            final(self).total_frames == old(self).total_frames,
    {
        let idx = f / 8;
        let b = self.bitmap[idx];
        self.bitmap.set(idx, b | (1u8 << ((f % 8) as u8)));
        proof {
            Self::lemma_byte_update(old(self).bitmap@, self.bitmap@, f as int, false);
        }
    }

    /// Mark frame `f` free (the free counter is left to the caller).
    fn set_free(&mut self, f: usize)
        requires
            old(self).bitmap.len() == BITMAP_BYTES,
            f < MAX_FRAMES,
        ensures
            final(self).bitmap.len() == BITMAP_BYTES,
            final(self)@ == old(self)@.update(f as int, true),
            final(self).free_frames == old(self).free_frames,
            final(self).total_frames == old(self).total_frames,
    {
        let idx = f / 8;
        let b = self.bitmap[idx];
        self.bitmap.set(idx, b & !(1u8 << ((f % 8) as u8)));
        proof {
            Self::lemma_byte_update(old(self).bitmap@, self.bitmap@, f as int, true);
        }
    }

    /// Take the lowest free frame above frame 0; returns its physical address, or 0
    /// when no frame is free. Zeroing the frame's memory is the caller's part.
    pub fn alloc_frame(&mut self) -> (addr: usize)
        requires
            old(self).wf(),
        ensures
            final(self).wf(),
            final(self).total() == old(self).total(),
            addr % PAGE_SIZE == 0,
            addr == 0 <==> (forall|g: int| 1 <= g < MAX_FRAMES ==> !#[trigger] old(self)@[g]),
            addr == 0 ==> final(self)@ == old(self)@,
            alloc_frame_step(old(self)@) == (if addr == 0 { None } else { Some(((addr / PAGE_SIZE) as int, final(self)@)) }),
            addr != 0 ==> ({
                let f = addr / PAGE_SIZE;
                &&& 1 <= f < MAX_FRAMES
                &&& old(self)@[f as int]
                &&& forall|g: int| 1 <= g < f ==> !#[trigger] old(self)@[g]
                &&& final(self)@ == old(self)@.update(f as int, false)
                &&& final(self).free_count() + 1 == old(self).free_count()
            }),
    {
        let mut f: usize = 1;
        while f < MAX_FRAMES
            invariant
                1 <= f <= MAX_FRAMES,
                *self == *old(self),
                self.wf(),
                forall|g: int| 1 <= g < f ==> !#[trigger] self@[g],
            decreases MAX_FRAMES - f,
        {
            if self.is_free(f) {
                proof {
                    lemma_count_update(self@, f as int, false);
                }
                self.set_used(f);
                self.free_frames = self.free_frames.saturating_sub(1);
                proof {
                    lemma_lowest_free_unique(old(self)@, f as int);
                }
                return f * PAGE_SIZE;
            }
            f = f + 1;
        }
        0
    }

    /// Take the lowest run of `count` contiguous free frames above frame 0; returns
    /// the physical address of its first frame, or 0 when `count` is 0 or no such
    /// run exists. Zeroing the memory is the caller's part.
    pub fn alloc_frames(&mut self, count: usize) -> (addr: usize)
        requires
            old(self).wf(),
        ensures
            final(self).wf(),
            final(self).total() == old(self).total(),
            addr % PAGE_SIZE == 0,
            count == 0 ==> addr == 0,
            count > 0 ==> (addr == 0 <==> (forall|e: int| 1 <= e < MAX_FRAMES ==> #[trigger] run_len(old(self)@, e) < count)),
            addr == 0 ==> final(self)@ == old(self)@,
            addr != 0 ==> ({
                let s = addr / PAGE_SIZE;
                &&& 1 <= s && s + count <= MAX_FRAMES
                &&& forall|i: int| s <= i < s + count ==> #[trigger] old(self)@[i]
                &&& forall|e: int| 1 <= e < s + count - 1 ==> #[trigger] run_len(old(self)@, e) < count
                &&& final(self)@ == mark_used(old(self)@, s as int, count as int)
                &&& final(self).free_count() + count == old(self).free_count()
            }),
    {
        if count == 0 {
            return 0;
        }
        if count == 1 {
            proof {
                assert forall|e: int| 1 <= e < MAX_FRAMES implies (#[trigger] run_len(old(self)@, e) < 1) == !old(self)@[e] by {
                    reveal_with_fuel(run_len, 2);
                }
            }
            let a = self.alloc_frame();
            proof {
                if a == 0 {
                    assert forall|e: int| 1 <= e < MAX_FRAMES implies #[trigger] run_len(old(self)@, e) < 1 by {
                        assert(!old(self)@[e]);
                    }
                } else {
                    let f = a / PAGE_SIZE;
                    assert(run_len(old(self)@, f as int) >= 1);
                }
                if a != 0 {
                    let s = a / PAGE_SIZE;
                    assert(final(self)@ =~= mark_used(old(self)@, s as int, 1));
                }
            }
            return a;
        }
        let mut consecutive: usize = 0;
        let mut start_frame: usize = 0;
        let mut f: usize = 1;
        while f < MAX_FRAMES
            invariant
                1 <= f <= MAX_FRAMES,
                2 <= count,
                *self == *old(self),
                self.wf(),
                consecutive == run_len(self@, f - 1),
                consecutive < count,
                consecutive > 0 ==> start_frame == f - consecutive,
                forall|e: int| 1 <= e < f ==> #[trigger] run_len(self@, e) < count,
            decreases MAX_FRAMES - f,
        {
            if self.is_free(f) {
                if consecutive == 0 {
                    start_frame = f;
                }
                consecutive = consecutive + 1;
                assert(run_len(self@, f as int) == consecutive);
                if consecutive == count {
                    proof {
                        lemma_run_len(self@, f as int, count as int);
                        assert(self@[start_frame as int]);
                    }
                    let ghost v0 = self@;
                    let mut i: usize = 0;
                    while i < count
                        invariant
                            i <= count,
                            start_frame + count == f + 1,
                            f < MAX_FRAMES,
                            1 <= start_frame,
                            self.bitmap.len() == BITMAP_BYTES,
                            self.total_frames == old(self).total_frames,
                            self.free_frames == old(self).free_frames,
                            v0 == old(self)@,
                            old(self).wf(),
                            forall|j: int| start_frame <= j < start_frame + count ==> #[trigger] v0[j],
                            self@ == mark_used(v0, start_frame as int, i as int),
                            count_true(self@) + i == count_true(v0),
                        decreases count - i,
                    {
                        proof {
                            lemma_count_update(self@, (start_frame + i) as int, false);
                        }
                        self.set_used(start_frame + i);
                        proof {
                            assert(self@ =~= mark_used(v0, start_frame as int, (i + 1) as int));
                        }
                        i = i + 1;
                    }
                    self.free_frames = self.free_frames.saturating_sub(count);
                    return start_frame * PAGE_SIZE;
                }
            } else {
                consecutive = 0;
            }
            f = f + 1;
        }
        0
    }

    /// Give frame `phys_addr / PAGE_SIZE` back. Frame 0 and addresses beyond the
    /// bitmap are ignored, as is a frame that is already free.
    pub fn free_frame(&mut self, phys_addr: usize)
        requires
            old(self).wf(),
        ensures
            final(self).wf(),
            final(self).total() == old(self).total(),
            ({
                let f = phys_addr / PAGE_SIZE;
                if f == 0 || f >= MAX_FRAMES {
                    final(self)@ == old(self)@ && final(self).free_count() == old(self).free_count()
                } else {
                    &&& final(self)@ == old(self)@.update(f as int, true)
                    &&& final(self).free_count() == old(self).free_count()
                        + (if old(self)@[f as int] { 0nat } else { 1nat })
                }
            }),
    {
        let f = phys_addr / PAGE_SIZE;
        if f == 0 || f >= MAX_FRAMES {
            return;
        }
        if !self.is_free(f) {
            proof {
                lemma_count_update(self@, f as int, true);
                lemma_count_le_len(self@.update(f as int, true));
            }
            self.set_free(f);
            self.free_frames = self.free_frames + 1;
        } else {
            proof {
                assert(self@.update(f as int, true) =~= self@);
            }
        }
    }

    /// Mark the frame that holds physical address `phys_addr` in use, as the
    /// loader does for memory it places a program in. Addresses beyond the
    /// bitmap are ignored, as is a frame already in use.
    pub fn mark_frame_used(&mut self, phys_addr: usize)
        requires
            old(self).wf(),
        ensures
            final(self).wf(),
            final(self).total() == old(self).total(),
            ({
                let f = phys_addr / PAGE_SIZE;
                if f >= MAX_FRAMES {
                    final(self)@ == old(self)@ && final(self).free_count() == old(self).free_count()
                } else {
                    &&& final(self)@ == old(self)@.update(f as int, false)
                    &&& final(self).free_count() + (if old(self)@[f as int] { 1nat } else { 0nat }) == old(self).free_count()
                }
            }),
    {
        let f = phys_addr / PAGE_SIZE;
        if f >= MAX_FRAMES {
            return;
        }
        if self.is_free(f) {
            proof {
                lemma_count_update(self@, f as int, false);
            }
            self.set_used(f);
            self.free_frames = self.free_frames - 1;
        } else {
            proof {
                assert(self@.update(f as int, false) =~= self@);
            }
        }
    }

    /// Free memory in bytes.
    pub fn free_bytes(&self) -> (r: usize)
        requires
            self.wf(),
            self.free_count() * PAGE_SIZE <= usize::MAX,
        ensures
            r == self.free_count() * PAGE_SIZE,
    {
        proof {
            self.lemma_wf();
        }
        self.free_frames * PAGE_SIZE
    }

    /// Usable RAM counted at `init`, in bytes.
    pub fn total_bytes(&self) -> (r: usize)
        requires
            self.total() * PAGE_SIZE <= usize::MAX,
        ensures
            r == self.total() * PAGE_SIZE,
    {
        self.total_frames * PAGE_SIZE
    }
}


/// Freeing the frame that an allocation just took gives the frame map back
/// as it was.
pub proof fn lemma_free_undoes_alloc(v: Seq<bool>, f: int)
    requires
        0 <= f < v.len(),
        v[f],
    ensures
        v.update(f, false).update(f, true) == v,
{
    assert(v.update(f, false).update(f, true) =~= v);
}


/// Taking a frame with `alloc_frame` (`a` to `b`) and giving it back with
/// `free_frame` (`b` to `c`) leaves the frame map, the free count and so the
/// free memory as they were; in between, free memory is one page less.
pub proof fn lemma_alloc_free_round_trip(a: PMMState, b: PMMState, c: PMMState, f: int)
    requires
        a.wf(),
        b.wf(),
        c.wf(),
        alloc_frame_step(a@) == Some((f, b@)),
        c@ == b@.update(f, true),
        c.free_count() == b.free_count() + (if b@[f] { 0nat } else { 1nat }),
    ensures
        c@ == a@,
        c.free_count() == a.free_count(),
        b.free_count() * PAGE_SIZE + PAGE_SIZE == a.free_count() * PAGE_SIZE,
        c.free_count() * PAGE_SIZE == a.free_count() * PAGE_SIZE,
{
    a.lemma_wf();
    b.lemma_wf();
    c.lemma_wf();
    let g0 = choose|g: int| 1 <= g < MAX_FRAMES && a@[g];
    lemma_lowest_free_exists(a@, g0);
    lemma_count_update(a@, f, false);
    lemma_free_undoes_alloc(a@, f);
}

/// Only `init` changes the usable total: across any run of the other frame
/// allocator operations, each keeping `total()`, the total memory stays what
/// it was at the start.
pub proof fn lemma_total_kept(states: Seq<PMMState>)
    requires
        forall|i: int| 1 <= i < states.len() ==> #[trigger] states[i].total() == states[i - 1].total(),
    ensures
        forall|i: int| 0 <= i < states.len() ==> #[trigger] states[i].total() == states[0].total(),
    decreases states.len(),
{
    if states.len() > 1 {
        let front = states.drop_last();
        assert forall|i: int| 1 <= i < front.len() implies #[trigger] front[i].total() == front[i - 1].total() by {
            assert(front[i] == states[i] && front[i - 1] == states[i - 1]);
        }
        lemma_total_kept(front);
        assert forall|i: int| 0 <= i < states.len() implies #[trigger] states[i].total() == states[0].total() by {
            if i < states.len() - 1 {
                assert(front[i] == states[i]);
            } else {
                assert(front[i - 1] == states[i - 1]);
                assert(states[i].total() == states[i - 1].total());
            }
        }
    }
}
} // verus!
