//! ELF64 executables: the header checks that decide whether a file can be
//! loaded, and the program headers that say where its segments go.
use vstd::prelude::*;
use crate::pmm::{PMMState, MAX_FRAMES, PAGE_SIZE};

verus! {

#[derive(Clone, Copy, PartialEq, Eq, Structural, Debug)]
pub enum ElfError {
    TooSmall,
    BadMagic,
    Not64Bit,
    NotLittleEndian,
    NotExecutable,
    NotX86_64,
    NoProgramHeaders,
    OomLoadingSegment,
}

pub const ELFCLASS64: u8 = 2;
pub const ELFDATA2LSB: u8 = 1;
pub const ET_EXEC: u16 = 2;
pub const EM_X86_64: u16 = 62;
pub const PT_LOAD: u32 = 1;
pub const OFF_CLASS: usize = 4;
pub const OFF_DATA: usize = 5;
pub const OFF_TYPE: usize = 16;
pub const OFF_MACHINE: usize = 18;
pub const OFF_ENTRY: usize = 24;
pub const OFF_PHOFF: usize = 32;
pub const OFF_PHENTSIZE: usize = 54;
pub const OFF_PHNUM: usize = 56;
pub const PH_TYPE: usize = 0;
pub const PH_OFFSET: usize = 8;
pub const PH_VADDR: usize = 16;
pub const PH_FILESZ: usize = 32;
pub const PH_MEMSZ: usize = 40;
/// Bytes of a program header that the loader reads.
pub const PH_MIN_SIZE: usize = 48;

/// The little-endian 16-bit value at `off`.
pub open spec fn le16(s: Seq<u8>, off: int) -> int {
    s[off] + 256 * s[off + 1]
}

/// The little-endian 32-bit value at `off`.
pub open spec fn le32(s: Seq<u8>, off: int) -> int {
    le16(s, off) + 65536 * le16(s, off + 2)
}

/// The little-endian 64-bit value at `off`.
pub open spec fn le64(s: Seq<u8>, off: int) -> int {
    le32(s, off) + 4294967296 * le32(s, off + 4)
}

/// The fields of a valid header that loading uses.
#[derive(Clone, Copy)]
pub struct ElfHeader {
    pub entry: u64,
    pub phoff: usize,
    pub phentsize: usize,
    pub phnum: usize,
}

/// A program header, as the loader reads it.
#[derive(Clone, Copy)]
pub struct Segment {
    pub p_type: u32,
    pub offset: usize,
    pub vaddr: usize,
    pub filesz: usize,
    pub memsz: usize,
}

/// Why a file of bytes `s` is refused, in the order the checks run; `None` when accepted.
pub open spec fn header_error(s: Seq<u8>) -> Option<ElfError> {
    if s.len() < 64 {
        Some(ElfError::TooSmall)
    } else if !(s[0] == 0x7F && s[1] == 0x45 && s[2] == 0x4C && s[3] == 0x46) {
        Some(ElfError::BadMagic)
    } else if s[4] != ELFCLASS64 {
        Some(ElfError::Not64Bit)
    } else if s[5] != ELFDATA2LSB {
        Some(ElfError::NotLittleEndian)
    } else if le16(s, 16) != ET_EXEC {
        Some(ElfError::NotExecutable)
    } else if le16(s, 18) != EM_X86_64 {
        Some(ElfError::NotX86_64)
    } else if le16(s, 56) == 0 {
        Some(ElfError::NoProgramHeaders)
    } else {
        None
    }
}

/// Read the little-endian 16-bit value at `offset`.
pub fn read_u16(data: &[u8], offset: usize) -> (r: u16)
    requires
        offset + 2 <= data.len(),
    ensures
        r == le16(data@, offset as int),
{
    let a = data[offset];
    let b = data[offset + 1];
    let r = (a as u16) | ((b as u16) << 8u16);
    assert(r == a + 256 * b) by (bit_vector)
        requires r == (a as u16) | ((b as u16) << 8u16);
    r
}

/// Read the little-endian 32-bit value at `offset`.
pub fn read_u32(data: &[u8], offset: usize) -> (r: u32)
    requires
        offset + 4 <= data.len(),
    ensures
        r == le32(data@, offset as int),
{
    let lo = read_u16(data, offset);
    let hi = read_u16(data, offset + 2);
    let r = (lo as u32) | ((hi as u32) << 16u32);
    assert(r == lo + 65536 * hi) by (bit_vector)
        requires r == (lo as u32) | ((hi as u32) << 16u32);
    r
}

/// Read the little-endian 64-bit value at `offset`.
pub fn read_u64(data: &[u8], offset: usize) -> (r: u64)
    requires
        offset + 8 <= data.len(),
    ensures
        r == le64(data@, offset as int),
{
    let lo = read_u32(data, offset);
    let hi = read_u32(data, offset + 4);
    let r = (lo as u64) | ((hi as u64) << 32u64);
    assert(r == lo + 4294967296 * hi) by (bit_vector)
        requires r == (lo as u64) | ((hi as u64) << 32u64);
    r
}

/// Check that `data` is a little-endian x86-64 ELF64 executable with program
/// headers, and read where they are and where execution starts.
pub fn check_header(data: &[u8]) -> (r: Result<ElfHeader, ElfError>)
    ensures
        match header_error(data@) {
            Some(e) => r == Err::<ElfHeader, ElfError>(e),
            None => r matches Ok(h) && h.entry == le64(data@, 24)
                && h.phoff == (le64(data@, 32) as u64) as usize
                && h.phentsize == le16(data@, 54) && h.phnum == le16(data@, 56),
        },
{
    if data.len() < 64 {
        return Err(ElfError::TooSmall);
    }
    if !(data[0] == 0x7F && data[1] == 0x45 && data[2] == 0x4C && data[3] == 0x46) {
        return Err(ElfError::BadMagic);
    }
    if data[OFF_CLASS] != ELFCLASS64 {
        return Err(ElfError::Not64Bit);
    }
    if data[OFF_DATA] != ELFDATA2LSB {
        return Err(ElfError::NotLittleEndian);
    }
    if read_u16(data, OFF_TYPE) != ET_EXEC {
        return Err(ElfError::NotExecutable);
    }
    if read_u16(data, OFF_MACHINE) != EM_X86_64 {
        return Err(ElfError::NotX86_64);
    }
    let entry = read_u64(data, OFF_ENTRY);
    let phoff = read_u64(data, OFF_PHOFF) as usize;
    let phentsize = read_u16(data, OFF_PHENTSIZE) as usize;
    let phnum = read_u16(data, OFF_PHNUM) as usize;
    if phnum == 0 {
        return Err(ElfError::NoProgramHeaders);
    }
    Ok(ElfHeader { entry, phoff, phentsize, phnum })
}

/// Start of program header `i` in the file.
pub open spec fn ph_start(h: ElfHeader, i: int) -> int {
    h.phoff + i * h.phentsize
}

/// Read program header `i`; `None` when it does not lie wholly inside the
/// file, which ends the walk over the headers.
pub fn program_header(data: &[u8], h: &ElfHeader, i: usize) -> (r: Option<Segment>)
    requires
        ph_start(*h, i as int) + h.phentsize <= usize::MAX,
        ph_start(*h, i as int) + h.phentsize <= data@.len() ==> h.phentsize >= PH_MIN_SIZE,
    ensures
        ph_start(*h, i as int) + h.phentsize > data@.len() ==> r is None,
        ph_start(*h, i as int) + h.phentsize <= data@.len() ==> ({
            let s = ph_start(*h, i as int);
            &&& r matches Some(seg)
            &&& seg.p_type == le32(data@, s)
            &&& seg.offset == (le64(data@, s + 8) as u64) as usize
            &&& seg.vaddr == (le64(data@, s + 16) as u64) as usize
            &&& seg.filesz == (le64(data@, s + 32) as u64) as usize
            &&& seg.memsz == (le64(data@, s + 40) as u64) as usize
        }),
{
    let start = h.phoff + i * h.phentsize;
    if start + h.phentsize > data.len() {
        return None;
    }
    Some(Segment {
        p_type: read_u32(data, start + PH_TYPE),
        offset: read_u64(data, start + PH_OFFSET) as usize,
        vaddr: read_u64(data, start + PH_VADDR) as usize,
        filesz: read_u64(data, start + PH_FILESZ) as usize,
        memsz: read_u64(data, start + PH_MEMSZ) as usize,
    })
}

/// Whether a segment is loaded: a loadable segment that takes memory.
pub fn is_loaded(seg: &Segment) -> (r: bool)
    ensures
        r == (seg.p_type == PT_LOAD && seg.memsz != 0),
{
    seg.p_type == PT_LOAD && seg.memsz != 0
}

/// The pages a segment covers: from its start rounded down to its end rounded up.
pub fn segment_pages(seg: &Segment) -> (r: (usize, usize))
    requires
        seg.vaddr + seg.memsz + 4095 <= usize::MAX,
    ensures
        r.0 == seg.vaddr - seg.vaddr % 4096,
        r.1 == (seg.vaddr + seg.memsz + 4095) - (seg.vaddr + seg.memsz + 4095) % 4096,
{
    let v = seg.vaddr;
    let top: usize = seg.vaddr + seg.memsz + 4095;
    let a = v & !4095usize;
    let b = top & !4095usize;
    assert(a == v - v % 4096) by (bit_vector) requires a == v & !4095usize;
    assert(b == top - top % 4096) by (bit_vector) requires b == top & !4095usize;
    (a, b)
}

/// Whether program header `i` lies wholly inside a file of `len` bytes.
pub open spec fn ph_in_file(h: ElfHeader, i: int, len: int) -> bool {
    ph_start(h, i) + h.phentsize <= len
}

/// The first program header from `i` on that does not lie inside the file
/// (where the walk stops), or the number of headers when all do.
pub open spec fn walk_end_from(h: ElfHeader, len: int, i: int) -> int
    decreases h.phnum - i,
{
    if i < 0 || i >= h.phnum {
        h.phnum as int
    } else if !ph_in_file(h, i, len) {
        i
    } else {
        walk_end_from(h, len, i + 1)
    }
}

/// Where the walk over the program headers stops.
pub open spec fn walk_end(h: ElfHeader, len: int) -> int {
    walk_end_from(h, len, 0)
}

/// Program header `i` as the loader reads it.
pub open spec fn segment_spec(s: Seq<u8>, h: ElfHeader, i: int) -> Segment {
    let st = ph_start(h, i);
    Segment {
        p_type: le32(s, st) as u32,
        offset: (le64(s, st + 8) as u64) as usize,
        vaddr: (le64(s, st + 16) as u64) as usize,
        filesz: (le64(s, st + 32) as u64) as usize,
        memsz: (le64(s, st + 40) as u64) as usize,
    }
}

/// The loaded segments among the first `n` program headers, in order.
pub open spec fn loaded_upto(s: Seq<u8>, h: ElfHeader, n: int) -> Seq<Segment>
    decreases n,
{
    if n <= 0 {
        Seq::empty()
    } else {
        let seg = segment_spec(s, h, n - 1);
        loaded_upto(s, h, n - 1) + if seg.p_type == PT_LOAD && seg.memsz != 0 { seq![seg] } else { Seq::empty() }
    }
}

proof fn lemma_walk_skip(h: ElfHeader, len: int, i: int)
    requires
        0 <= i <= h.phnum,
        forall|j: int| 0 <= j < i ==> #[trigger] ph_in_file(h, j, len),
    ensures
        walk_end(h, len) == walk_end_from(h, len, i),
    decreases i,
{
    if i > 0 {
        lemma_walk_skip(h, len, i - 1);
        assert(ph_in_file(h, i - 1, len));
    }
}

proof fn lemma_walk_end(h: ElfHeader, len: int, i: int)
    requires
        0 <= i <= h.phnum,
        forall|j: int| 0 <= j < i ==> #[trigger] ph_in_file(h, j, len),
        i < h.phnum ==> !ph_in_file(h, i, len),
    ensures
        walk_end(h, len) == i,
{
    lemma_walk_skip(h, len, i);
}

proof fn lemma_walk_end_from_ge(h: ElfHeader, len: int, i: int)
    requires
        0 <= i,
    ensures
        walk_end_from(h, len, i) >= i || walk_end_from(h, len, i) == h.phnum,
        i <= h.phnum ==> walk_end_from(h, len, i) >= i,
    decreases h.phnum - i,
{
    if 0 <= i < h.phnum && ph_in_file(h, i, len) {
        lemma_walk_end_from_ge(h, len, i + 1);
    }
}

proof fn lemma_walk_end_past(h: ElfHeader, len: int, i: int)
    requires
        0 <= i < h.phnum,
        forall|j: int| 0 <= j <= i ==> #[trigger] ph_in_file(h, j, len),
    ensures
        walk_end(h, len) > i,
{
    lemma_walk_skip(h, len, i + 1);
    lemma_walk_end_from_ge(h, len, i + 1);
}

/// Program header `i` of file `s`, read straight from its bytes, is a
/// loadable segment (type 1) that takes memory.
pub open spec fn header_loads(s: Seq<u8>, h: ElfHeader, i: int) -> bool {
    let st = ph_start(h, i);
    &&& le32(s, st) == 1
    &&& (le64(s, st + 40) as u64) as usize != 0
}

/// Segment record `seg` holds the fields of program header `i` of `s`.
pub open spec fn seg_from_bytes(seg: Segment, s: Seq<u8>, h: ElfHeader, i: int) -> bool {
    let st = ph_start(h, i);
    &&& seg.p_type == le32(s, st)
    &&& seg.offset == (le64(s, st + 8) as u64) as usize
    &&& seg.vaddr == (le64(s, st + 16) as u64) as usize
    &&& seg.filesz == (le64(s, st + 32) as u64) as usize
    &&& seg.memsz == (le64(s, st + 40) as u64) as usize
}

/// `segs` lists the loadable program headers among the first `n` in the
/// order that `idx` gives their indices: each once, in file order.
pub open spec fn lists_loadable_by(segs: Seq<Segment>, s: Seq<u8>, h: ElfHeader, n: int, idx: Seq<int>) -> bool {
    &&& idx.len() == segs.len()
    &&& forall|k: int| 0 <= k < idx.len() ==> 0 <= #[trigger] idx[k] < n && header_loads(s, h, idx[k])
        && seg_from_bytes(segs[k], s, h, idx[k])
    &&& forall|k: int, l: int| 0 <= k < l < idx.len() ==> #[trigger] idx[k] < #[trigger] idx[l]
    &&& forall|i: int| 0 <= i < n && #[trigger] header_loads(s, h, i) ==> idx.contains(i)
}

/// `segs` lists exactly the loadable program headers among the first `n`,
/// each once, in file order.
pub open spec fn lists_loadable(segs: Seq<Segment>, s: Seq<u8>, h: ElfHeader, n: int) -> bool {
    exists|idx: Seq<int>| #[trigger] lists_loadable_by(segs, s, h, n, idx)
}

/// The segments kept from the first `n` program headers are every loadable
/// one among them, in file order, each with the fields its header's bytes give.
pub proof fn lemma_loaded_upto_lists(s: Seq<u8>, h: ElfHeader, n: int)
    requires
        0 <= n,
    ensures
        lists_loadable(loaded_upto(s, h, n), s, h, n),
    decreases n,
{
    if n == 0 {
        let idx: Seq<int> = Seq::empty();
        assert(loaded_upto(s, h, 0) =~= Seq::<Segment>::empty());
        assert(lists_loadable_by(loaded_upto(s, h, 0), s, h, 0, idx));
    } else {
        lemma_loaded_upto_lists(s, h, n - 1);
        let prev = loaded_upto(s, h, n - 1);
        let idx0 = choose|idx: Seq<int>| #[trigger] lists_loadable_by(prev, s, h, n - 1, idx);
        let seg = segment_spec(s, h, n - 1);
        let st = ph_start(h, n - 1);
        assert(0 <= le32(s, st) <= 0xFFFF_FFFF) by {
            assert(0 <= s[st] <= 255 && 0 <= s[st + 1] <= 255 && 0 <= s[st + 2] <= 255 && 0 <= s[st + 3] <= 255);
        }
        let cur = loaded_upto(s, h, n);
        if seg.p_type == PT_LOAD && seg.memsz != 0 {
            assert(header_loads(s, h, n - 1));
            let idx = idx0.push(n - 1);
            assert(cur =~= prev.push(seg));
            assert forall|k: int| 0 <= k < idx.len() implies 0 <= #[trigger] idx[k] < n && header_loads(s, h, idx[k])
                && seg_from_bytes(cur[k], s, h, idx[k]) by {
                if k < idx0.len() {
                    assert(idx[k] == idx0[k] && cur[k] == prev[k]);
                }
            }
            assert forall|k: int, l: int| 0 <= k < l < idx.len() implies #[trigger] idx[k] < #[trigger] idx[l] by {
                assert(idx[k] == idx0[k]);
                if l < idx0.len() {
                    assert(idx[l] == idx0[l]);
                }
            }
            assert forall|i: int| 0 <= i < n && #[trigger] header_loads(s, h, i) implies idx.contains(i) by {
                if i < n - 1 {
                    let k = choose|k: int| 0 <= k < idx0.len() && idx0[k] == i;
                    assert(idx[k] == i);
                } else {
                    assert(idx[idx.len() - 1] == i);
                }
            }
            assert(lists_loadable_by(cur, s, h, n, idx));
        } else {
            assert(!header_loads(s, h, n - 1));
            assert(cur =~= prev);
            assert forall|k: int| 0 <= k < idx0.len() implies 0 <= #[trigger] idx0[k] < n && header_loads(s, h, idx0[k])
                && seg_from_bytes(cur[k], s, h, idx0[k]) by {}
            assert forall|i: int| 0 <= i < n && #[trigger] header_loads(s, h, i) implies idx0.contains(i) by {
                if i == n - 1 {
                    assert(!header_loads(s, h, i));
                }
            }
            assert(lists_loadable_by(cur, s, h, n, idx0));
        }
    }
}

/// Walk the program headers, stopping at the first that does not lie inside
/// the file, and keep the loaded segments in order.
pub fn loaded_segments(data: &[u8], h: &ElfHeader) -> (segs: Vec<Segment>)
    requires
        walk_end(*h, data@.len() as int) < h.phnum ==> ph_start(*h, walk_end(*h, data@.len() as int)) + h.phentsize <= usize::MAX,
        walk_end(*h, data@.len() as int) > 0 ==> h.phentsize >= PH_MIN_SIZE,
    ensures
        segs@ == loaded_upto(data@, *h, walk_end(*h, data@.len() as int)),
        lists_loadable(segs@, data@, *h, walk_end(*h, data@.len() as int)),
{
    proof {
        lemma_walk_end_from_ge(*h, data@.len() as int, 0);
        lemma_loaded_upto_lists(data@, *h, walk_end(*h, data@.len() as int));
    }
    let mut segs: Vec<Segment> = Vec::new();
    let mut i: usize = 0;
    let ghost len = data@.len() as int;
    assert(len <= usize::MAX) by { assert(data@.len() == data.len()); }
    while i < h.phnum
        invariant
            i <= h.phnum,
            len == data@.len(),
            len <= usize::MAX,
            forall|j: int| 0 <= j < i ==> #[trigger] ph_in_file(*h, j, len),
            segs@ == loaded_upto(data@, *h, i as int),
            walk_end(*h, len) < h.phnum ==> ph_start(*h, walk_end(*h, len)) + h.phentsize <= usize::MAX,
            walk_end(*h, len) > 0 ==> h.phentsize >= PH_MIN_SIZE,
        decreases h.phnum - i,
    {
        proof {
            if i > 0 {
                assert(ph_in_file(*h, i - 1, len));
                assert(ph_start(*h, i as int) == ph_start(*h, i - 1) + h.phentsize) by (nonlinear_arith)
                    requires ph_start(*h, i as int) == h.phoff + i * h.phentsize,
                        ph_start(*h, i - 1) == h.phoff + (i - 1) * h.phentsize;
            }
            if !ph_in_file(*h, i as int, len) {
                lemma_walk_end(*h, len, i as int);
            } else {
                lemma_walk_end_past(*h, len, i as int);
            }
        }
        let seg = match program_header(data, h, i) {
            Some(seg) => seg,
            None => {
                proof {
                    lemma_walk_end(*h, len, i as int);
                    lemma_loaded_upto_lists(data@, *h, i as int);
                }
                return segs;
            },
        };
        proof {
            assert(seg == segment_spec(data@, *h, i as int));
        }
        if is_loaded(&seg) {
            segs.push(seg);
        }
        proof {
            assert(segs@ =~= loaded_upto(data@, *h, i + 1));
        }
        i = i + 1;
    }
    proof { lemma_walk_end(*h, len, h.phnum as int); }
    segs
}


/// The header fields of a file that passes the header checks.
pub open spec fn header_of(s: Seq<u8>) -> ElfHeader {
    ElfHeader {
        entry: le64(s, 24) as u64,
        phoff: (le64(s, 32) as u64) as usize,
        phentsize: le16(s, 54) as usize,
        phnum: le16(s, 56) as usize,
    }
}

/// The program headers of `s` can be walked without the offset arithmetic
/// overflowing, and every header inside the file is long enough to read.
pub open spec fn walk_fits(s: Seq<u8>) -> bool {
    let h = header_of(s);
    let n = walk_end(h, s.len() as int);
    &&& n < h.phnum ==> ph_start(h, n) + h.phentsize <= usize::MAX
    &&& n > 0 ==> h.phentsize >= PH_MIN_SIZE
}

/// Everything loading an executable decides before it touches memory: the
/// header checks, in order, and on success the entry point and the segments
/// to place, in file order.
pub fn load(data: &[u8]) -> (r: Result<(u64, Vec<Segment>), ElfError>)
    requires
        header_error(data@) is None ==> walk_fits(data@),
    ensures
        match header_error(data@) {
            Some(e) => r is Err && r->Err_0 == e,
            None => r is Ok && r->Ok_0.0 == header_of(data@).entry
                && r->Ok_0.1@ == loaded_upto(data@, header_of(data@), walk_end(header_of(data@), data@.len() as int))
                && lists_loadable(r->Ok_0.1@, data@, header_of(data@), walk_end(header_of(data@), data@.len() as int)),
        },
{
    let h = match check_header(data) {
        Ok(h) => h,
        Err(e) => return Err(e),
    };
    assert(h == header_of(data@));
    let segs = loaded_segments(data, &h);
    Ok((h.entry, segs))
}


/// First address of the pages `seg` covers.
pub open spec fn seg_page_start(seg: Segment) -> int {
    seg.vaddr - seg.vaddr % 4096
}

/// End of the pages `seg` covers.
pub open spec fn seg_page_end(seg: Segment) -> int {
    let top = seg.vaddr + seg.memsz + 4095;
    top - top % 4096
}

/// Frame `g` lies under one of the first `k` segments' pages (the program's
/// memory is identity mapped: a page's address is its frame's).
pub open spec fn segs_cover(segs: Seq<Segment>, k: int, g: int) -> bool {
    exists|j: int| 0 <= j < k && seg_page_start(#[trigger] segs[j]) <= g * 4096 < seg_page_end(segs[j])
}

/// Mark in use every frame under the pages of the segments to be placed, so
/// that no later allocation hands them out. Zeroing those pages and copying
/// the file bytes in are memory writes, left to the caller.
pub fn claim_segment_frames(pmm: &mut PMMState, segs: &Vec<Segment>)
    requires
        old(pmm).wf(),
        forall|k: int| 0 <= k < segs@.len() ==> #[trigger] segs@[k].vaddr + segs@[k].memsz + 4095 <= usize::MAX,
    ensures
        final(pmm).wf(),
        final(pmm).total() == old(pmm).total(),
        forall|g: int| 0 <= g < MAX_FRAMES ==>
            #[trigger] final(pmm)@[g] == (old(pmm)@[g] && !segs_cover(segs@, segs@.len() as int, g)),
{
    proof {
        pmm.lemma_wf();
    }
    let mut k: usize = 0;
    while k < segs.len()
        invariant
            k <= segs@.len(),
            pmm.wf(),
            pmm.total() == old(pmm).total(),
            forall|j: int| 0 <= j < segs@.len() ==> #[trigger] segs@[j].vaddr + segs@[j].memsz + 4095 <= usize::MAX,
            forall|g: int| 0 <= g < MAX_FRAMES ==>
                #[trigger] pmm@[g] == (old(pmm)@[g] && !segs_cover(segs@, k as int, g)),
        decreases segs@.len() - k,
    {
        let seg = segs[k];
        let (start, end) = segment_pages(&seg);
        let mut page = start;
        proof {
            assert(start % 4096 == 0) by (nonlinear_arith)
                requires start == seg.vaddr - seg.vaddr % 4096;
            assert(end % 4096 == 0 && start <= end) by (nonlinear_arith)
                requires end == (seg.vaddr + seg.memsz + 4095) - (seg.vaddr + seg.memsz + 4095) % 4096,
                    start == seg.vaddr - seg.vaddr % 4096;
        }
        while page < end
            invariant
                k < segs@.len(),
                seg == segs@[k as int],
                start == seg_page_start(seg),
                end == seg_page_end(seg),
                start <= page <= end,
                page % 4096 == 0,
                end % 4096 == 0,
                pmm.wf(),
                pmm.total() == old(pmm).total(),
                forall|g: int| 0 <= g < MAX_FRAMES ==>
                    #[trigger] pmm@[g] == (old(pmm)@[g] && !segs_cover(segs@, k as int, g)
                        && !(start <= g * 4096 < page)),
            decreases end - page,
        {
            proof {
                assert(page + 4096 <= end) by (nonlinear_arith)
                    requires page % 4096 == 0, end % 4096 == 0, page < end;
            }
            let ghost before = *pmm;
            pmm.mark_frame_used(page);
            proof {
                pmm.lemma_wf();
                before.lemma_wf();
                let f = (page / PAGE_SIZE) as int;
                assert(page == f * 4096);
                assert forall|g: int| 0 <= g < MAX_FRAMES implies
                    #[trigger] pmm@[g] == (old(pmm)@[g] && !segs_cover(segs@, k as int, g)
                        && !(start <= g * 4096 < page + 4096)) by {
                    assert(before@[g] == (old(pmm)@[g] && !segs_cover(segs@, k as int, g) && !(start <= g * 4096 < page)));
                    if g == f {
                        assert(pmm@[g] == false);
                    } else {
                        assert(pmm@[g] == before@[g]);
                        assert((page <= g * 4096 < page + 4096) == false) by (nonlinear_arith)
                            requires page == f * 4096, g != f;
                    }
                }
            }
            page = page + 4096;
        }
        proof {
            assert forall|g: int| 0 <= g < MAX_FRAMES implies
                #[trigger] pmm@[g] == (old(pmm)@[g] && !segs_cover(segs@, k + 1, g)) by {
                if segs_cover(segs@, k + 1, g) && !segs_cover(segs@, k as int, g) {
                    let j = choose|j: int| 0 <= j < k + 1 && seg_page_start(#[trigger] segs@[j]) <= g * 4096 < seg_page_end(segs@[j]);
                    assert(j == k);
                }
                if segs_cover(segs@, k as int, g) {
                    let j = choose|j: int| 0 <= j < k && seg_page_start(#[trigger] segs@[j]) <= g * 4096 < seg_page_end(segs@[j]);
                    assert(segs_cover(segs@, k + 1, g));
                }
                if start <= g * 4096 < end {
                    assert(seg_page_start(segs@[k as int]) <= g * 4096 < seg_page_end(segs@[k as int]));
                    assert(segs_cover(segs@, k + 1, g));
                }
            }
        }
        k = k + 1;
    }
}
} // verus!
