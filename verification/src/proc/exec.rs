//! The initial user stack of a new program: its executable name, sixteen
//! bytes for `AT_RANDOM`, the auxiliary vector, the empty environment, and
//! `argv` with the name as its one argument.
use vstd::prelude::*;
use super::state::{exe_path_of, EXE_PATH_MAX};

verus! {

pub const USER_STACK_PAGES: usize = 16;
/// Top of the user stack of a program started by `exec`.
pub const USER_STACK_TOP: usize = 0x8000_0000;
pub const AT_NULL: u64 = 0;
pub const AT_PHDR: u64 = 3;
pub const AT_PHENT: u64 = 4;
pub const AT_PHNUM: u64 = 5;
pub const AT_PAGESZ: u64 = 6;
pub const AT_ENTRY: u64 = 9;
pub const AT_UID: u64 = 11;
pub const AT_EUID: u64 = 12;
pub const AT_GID: u64 = 13;
pub const AT_EGID: u64 = 14;
pub const AT_SECURE: u64 = 23;
pub const AT_RANDOM: u64 = 25;
pub const AT_EXECFN: u64 = 31;

/// What the loaded program tells its start-up code.
#[derive(Clone, Copy)]
pub struct ImageInfo {
    pub entry: u64,
    pub phdr: u64,
    pub phent: u64,
    pub phnum: u64,
}

/// The user, effective user, group and effective group of the process.
#[derive(Clone, Copy)]
pub struct Credentials {
    pub uid: u64,
    pub euid: u64,
    pub gid: u64,
    pub egid: u64,
}

/// The bytes to store on the new stack, each at its address, and the stack
/// pointer the program starts with.
pub struct InitialStack {
    pub writes: Vec<(usize, Vec<u8>)>,
    pub sp: u64,
}

/// The fixed bytes handed over for `AT_RANDOM`.
pub open spec fn random_bytes() -> Seq<u8> {
    seq![0x13u8, 0x37u8, 0xcau8, 0xfeu8, 0xbau8, 0xbeu8, 0xdeu8, 0xadu8,
        0xfau8, 0xceu8, 0x12u8, 0x34u8, 0x56u8, 0x78u8, 0xabu8, 0xcdu8]
}

/// The executable name as stored for `AT_EXECFN`: a slash, the name's low
/// bytes (at most `EXE_PATH_MAX`), and a terminating zero.
pub open spec fn execfn_of(name: Seq<char>) -> Seq<u8> {
    seq![47u8] + exe_path_of(name) + seq![0u8]
}

/// The stack pointer after pushing `len` bytes at `sp` aligned down to
/// `align`; `None` when the stack would run below address 0.
pub open spec fn push_at(sp: usize, len: usize, align: usize) -> Option<usize> {
    if sp < len {
        None
    } else {
        Some(((sp - len) as usize) & !((if align == 0 { 0usize } else { (align - 1) as usize })))
    }
}

/// The words pushed after the name and random bytes, in push order: the
/// auxiliary vector from its end (each entry's value, then its key), the
/// environment and argument terminators, the name's address, and the
/// argument count 1.
pub open spec fn stack_words(img: ImageInfo, ids: Credentials, random_ptr: u64, execfn_ptr: u64) -> Seq<u64> {
    seq![0u64, AT_NULL, execfn_ptr, AT_EXECFN, random_ptr, AT_RANDOM, 0u64, AT_SECURE,
        ids.egid, AT_EGID, ids.gid, AT_GID, ids.euid, AT_EUID, ids.uid, AT_UID,
        img.entry, AT_ENTRY, 4096u64, AT_PAGESZ, img.phnum, AT_PHNUM, img.phent, AT_PHENT,
        img.phdr, AT_PHDR, 0u64, 0u64, execfn_ptr, 1u64]
}

/// In words pushed in order `ws`, the auxiliary vector's thirteen entries come
/// first, each as its value then its key (so the key lies just below its
/// value); `key` is among them with value `value`.
pub open spec fn aux_pair(ws: Seq<u64>, key: u64, value: u64) -> bool {
    exists|k: int| 0 <= k < 13 && #[trigger] ws[2 * k + 1] == key && ws[2 * k] == value
}

/// The same for the word writes of an initial stack, whose first two writes
/// are the name and the random bytes: the key's bytes are written at a write
/// whose previous write holds the value's bytes.
pub open spec fn aux_written(writes: Seq<(usize, Vec<u8>)>, key: u64, value: u64) -> bool {
    exists|k: int| 0 <= k < 13 && (#[trigger] writes[2 * k + 3]).1@ == word_bytes(key)
        && writes[2 * k + 2].1@ == word_bytes(value)
}

/// The auxiliary vector tells the program what the image and credentials
/// say: the program headers' address, entry size and count, the entry point,
/// the page size, the four identities, the random bytes and the name.
pub proof fn lemma_aux_vector(img: ImageInfo, ids: Credentials, random_ptr: u64, execfn_ptr: u64)
    ensures
        ({
            let ws = stack_words(img, ids, random_ptr, execfn_ptr);
            &&& aux_pair(ws, AT_PHDR, img.phdr)
            &&& aux_pair(ws, AT_PHENT, img.phent)
            &&& aux_pair(ws, AT_PHNUM, img.phnum)
            &&& aux_pair(ws, AT_ENTRY, img.entry)
            &&& aux_pair(ws, AT_PAGESZ, 4096)
            &&& aux_pair(ws, AT_UID, ids.uid)
            &&& aux_pair(ws, AT_EUID, ids.euid)
            &&& aux_pair(ws, AT_GID, ids.gid)
            &&& aux_pair(ws, AT_EGID, ids.egid)
            &&& aux_pair(ws, AT_RANDOM, random_ptr)
            &&& aux_pair(ws, AT_EXECFN, execfn_ptr)
            &&& aux_pair(ws, AT_NULL, 0)
        }),
{
    let ws = stack_words(img, ids, random_ptr, execfn_ptr);
    assert(ws[25] == AT_PHDR && ws[24] == img.phdr && ws[23] == AT_PHENT && ws[22] == img.phent);
    assert(ws[21] == AT_PHNUM && ws[20] == img.phnum && ws[17] == AT_ENTRY && ws[16] == img.entry);
    assert(ws[19] == AT_PAGESZ && ws[18] == 4096 && ws[15] == AT_UID && ws[14] == ids.uid);
    assert(ws[13] == AT_EUID && ws[12] == ids.euid && ws[11] == AT_GID && ws[10] == ids.gid);
    assert(ws[9] == AT_EGID && ws[8] == ids.egid && ws[5] == AT_RANDOM && ws[4] == random_ptr);
    assert(ws[3] == AT_EXECFN && ws[2] == execfn_ptr && ws[1] == AT_NULL && ws[0] == 0);
    assert(ws[2 * 12int + 1] == AT_PHDR && ws[2 * 12int] == ws[24]);
    assert(ws[2 * 11int + 1] == AT_PHENT && ws[2 * 11int] == ws[22]);
    assert(ws[2 * 10int + 1] == AT_PHNUM && ws[2 * 10int] == ws[20]);
    assert(ws[2 * 8int + 1] == AT_ENTRY && ws[2 * 8int] == ws[16]);
    assert(ws[2 * 9int + 1] == AT_PAGESZ && ws[2 * 9int] == ws[18]);
    assert(ws[2 * 7int + 1] == AT_UID && ws[2 * 7int] == ws[14]);
    assert(ws[2 * 6int + 1] == AT_EUID && ws[2 * 6int] == ws[12]);
    assert(ws[2 * 5int + 1] == AT_GID && ws[2 * 5int] == ws[10]);
    assert(ws[2 * 4int + 1] == AT_EGID && ws[2 * 4int] == ws[8]);
    assert(ws[2 * 2int + 1] == AT_RANDOM && ws[2 * 2int] == ws[4]);
    assert(ws[2 * 1int + 1] == AT_EXECFN && ws[2 * 1int] == ws[2]);
    assert(ws[2 * 0int + 1] == AT_NULL && ws[2 * 0int] == ws[0]);
}

proof fn lemma_written_from_pair(writes: Seq<(usize, Vec<u8>)>, ws: Seq<u64>, key: u64, value: u64)
    requires
        ws.len() == 30,
        writes.len() == 32,
        forall|k: int| 0 <= k < 30 ==> (#[trigger] writes[k + 2]).1@ == word_bytes(ws[k]),
        aux_pair(ws, key, value),
    ensures
        aux_written(writes, key, value),
{
    let k = choose|k: int| 0 <= k < 13 && #[trigger] ws[2 * k + 1] == key && ws[2 * k] == value;
    assert(writes[(2 * k + 1) + 2].1@ == word_bytes(ws[2 * k + 1]));
    assert(writes[(2 * k) + 2].1@ == word_bytes(ws[2 * k]));
    assert(writes[2 * k + 3] == writes[(2 * k + 1) + 2]);
}

/// The stack pointer after pushing the first `k` words of `ws` from `sp`.
pub open spec fn after_words(sp: usize, ws: Seq<u64>, k: int) -> Option<usize>
    decreases k,
{
    if k <= 0 {
        Some(sp)
    } else {
        match after_words(sp, ws, k - 1) {
            Some(s) => push_at(s, 8, 8),
            None => None,
        }
    }
}

/// The eight bytes of `w`, least significant first.
pub open spec fn word_bytes(w: u64) -> Seq<u8> {
    Seq::new(8, |i: int| ((w >> (8 * i) as u64) & 0xFF) as u8)
}

fn push_sp(sp: usize, len: usize, align: usize) -> (r: Option<usize>)
    ensures
        r == push_at(sp, len, align),
{
    let mask = !(align.saturating_sub(1));
    match sp.checked_sub(len) {
        Some(s) => Some(s & mask),
        None => None,
    }
}

fn le_bytes(w: u64) -> (v: Vec<u8>)
    ensures
        v@ == word_bytes(w),
{
    let mut v: Vec<u8> = Vec::new();
    let mut i: u64 = 0;
    while i < 8
        invariant
            i <= 8,
            v@.len() == i,
            forall|k: int| 0 <= k < i ==> #[trigger] v@[k] == ((w >> (8 * k) as u64) & 0xFF) as u8,
        decreases 8 - i,
    {
        v.push(((w >> (8 * i)) & 0xFF) as u8);
        i = i + 1;
    }
    assert(v@ =~= word_bytes(w));
    v
}

fn execfn_from_name(name: &[char]) -> (v: Vec<u8>)
    ensures
        v@ == execfn_of(name@),
{
    let mut v: Vec<u8> = Vec::new();
    v.push(47);
    let n = if name.len() < EXE_PATH_MAX { name.len() } else { EXE_PATH_MAX };
    let mut i: usize = 0;
    while i < n
        invariant
            i <= n,
            n == exe_path_of(name@).len(),
            n <= name@.len(),
            v@ == seq![47u8] + exe_path_of(name@).subrange(0, i as int),
        decreases n - i,
    {
        v.push((name[i] as u32) as u8);
        i = i + 1;
        assert(v@ =~= seq![47u8] + exe_path_of(name@).subrange(0, i as int));
    }
    v.push(0);
    assert(exe_path_of(name@).subrange(0, n as int) =~= exe_path_of(name@));
    assert(v@ =~= execfn_of(name@));
    v
}

/// Lay out the initial stack below `stack_top` for a program called `name`
/// with image facts `img` and credentials `ids`: the name (byte-aligned), the
/// random bytes (16-aligned), then each word of `stack_words` (8-aligned);
/// the program starts with the last stack pointer aligned down to 16 bytes.
/// `None` when the layout would run below address 0.
pub fn build_initial_stack(stack_top: usize, name: &[char], img: ImageInfo, ids: Credentials) -> (r: Option<InitialStack>)
    ensures
        ({
            let ef = execfn_of(name@);
            match push_at(stack_top, ef.len() as usize, 1) {
                None => r is None,
                Some(s1) => match push_at(s1, 16, 16) {
                    None => r is None,
                    Some(s2) => {
                        let ws = stack_words(img, ids, s2 as u64, s1 as u64);
                        match after_words(s2, ws, 30) {
                            None => r is None,
                            Some(s3) => {
                                &&& r matches Some(st)
                                &&& st.sp == (s3 & !0xFusize) as u64
                                &&& st.writes@.len() == 32
                                &&& st.writes@[0].0 == s1 && st.writes@[0].1@ == ef
                                &&& st.writes@[1].0 == s2 && st.writes@[1].1@ == random_bytes()
                                &&& forall|k: int| 0 <= k < 30 ==> (#[trigger] st.writes@[k + 2]).0 == after_words(s2, ws, k + 1)->0
                                    && st.writes@[k + 2].1@ == word_bytes(ws[k])
                                &&& forall|k: int| 0 <= k < 30 ==> (#[trigger] st.writes@[k + 2]).0 == s2 - 8 * (k + 1)
                            },
                        }
                    },
                },
            }
        }),
        r matches Some(st) ==> {
            &&& aux_written(st.writes@, AT_PHDR, img.phdr)
            &&& aux_written(st.writes@, AT_PHENT, img.phent)
            &&& aux_written(st.writes@, AT_PHNUM, img.phnum)
            &&& aux_written(st.writes@, AT_ENTRY, img.entry)
            &&& aux_written(st.writes@, AT_PAGESZ, 4096)
            &&& aux_written(st.writes@, AT_UID, ids.uid)
            &&& aux_written(st.writes@, AT_EUID, ids.euid)
            &&& aux_written(st.writes@, AT_GID, ids.gid)
            &&& aux_written(st.writes@, AT_EGID, ids.egid)
            &&& forall|k: int| 0 <= k < 30 ==> (#[trigger] st.writes@[k + 2]).0 == st.writes@[1].0 - 8 * (k + 1)
        },
{
    let ef = execfn_from_name(name);
    let s1 = match push_sp(stack_top, ef.len(), 1) {
        Some(s) => s,
        None => return None,
    };
    let s2 = match push_sp(s1, 16, 16) {
        Some(s) => s,
        None => return None,
    };
    proof {
        assert(s2 % 16 == 0) by (bit_vector)
            requires s2 == (s1 - 16) as usize & !15usize;
    }
    let random: Vec<u8> = vec![0x13, 0x37, 0xca, 0xfe, 0xba, 0xbe, 0xde, 0xad,
        0xfa, 0xce, 0x12, 0x34, 0x56, 0x78, 0xab, 0xcd];
    assert(random@ =~= random_bytes());
    let execfn_ptr = s1 as u64;
    let random_ptr = s2 as u64;
    let words: Vec<u64> = vec![0, AT_NULL, execfn_ptr, AT_EXECFN, random_ptr, AT_RANDOM, 0, AT_SECURE,
        ids.egid, AT_EGID, ids.gid, AT_GID, ids.euid, AT_EUID, ids.uid, AT_UID,
        img.entry, AT_ENTRY, 4096, AT_PAGESZ, img.phnum, AT_PHNUM, img.phent, AT_PHENT,
        img.phdr, AT_PHDR, 0, 0, execfn_ptr, 1];
    let ghost ws = stack_words(img, ids, random_ptr, execfn_ptr);
    assert(words@ =~= ws);
    let mut writes: Vec<(usize, Vec<u8>)> = Vec::new();
    writes.push((s1, ef));
    writes.push((s2, random));
    let mut sp = s2;
    let mut k: usize = 0;
    while k < 30
        invariant
            k <= 30,
            words@ == ws,
            ws.len() == 30,
            ws == stack_words(img, ids, s2 as u64, s1 as u64),
            push_at(stack_top, execfn_of(name@).len() as usize, 1) == Some(s1),
            push_at(s1, 16, 16) == Some(s2),
            after_words(s2, ws, k as int) == Some(sp),
            writes@.len() == k + 2,
            writes@[0].0 == s1 && writes@[0].1@ == execfn_of(name@),
            writes@[1].0 == s2 && writes@[1].1@ == random_bytes(),
            forall|j: int| 0 <= j < k ==> (#[trigger] writes@[j + 2]).0 == after_words(s2, ws, j + 1)->0
                && writes@[j + 2].1@ == word_bytes(ws[j]),
            forall|j: int| 0 <= j < k ==> (#[trigger] writes@[j + 2]).0 == s2 - 8 * (j + 1),
            s2 % 16 == 0,
            sp == s2 - 8 * k,
        decreases 30 - k,
    {
        let next = match push_sp(sp, 8, 8) {
            Some(s) => s,
            None => {
                proof {
                    assert(after_words(s2, ws, k + 1) is None);
                    lemma_after_words_none(s2, ws, k + 1, 30);
                }
                return None;
            },
        };
        proof {
            assert(next == sp - 8) by (bit_vector)
                requires next == (sp - 8) as usize & !7usize, sp >= 8, sp % 8 == 0;
        }
        let bytes = le_bytes(words[k]);
        let ghost before = writes@;
        writes.push((next, bytes));
        proof {
            assert forall|j: int| 0 <= j < k + 1 implies (#[trigger] writes@[j + 2]).0 == after_words(s2, ws, j + 1)->0
                && writes@[j + 2].1@ == word_bytes(ws[j]) && writes@[j + 2].0 == s2 - 8 * (j + 1) by {
                if j < k {
                    assert(writes@[j + 2] == before[j + 2]);
                }
            }
        }
        sp = next;
        k = k + 1;
    }
    proof {
        lemma_aux_vector(img, ids, s2 as u64, s1 as u64);
        lemma_written_from_pair(writes@, ws, AT_PHDR, img.phdr);
        lemma_written_from_pair(writes@, ws, AT_PHENT, img.phent);
        lemma_written_from_pair(writes@, ws, AT_PHNUM, img.phnum);
        lemma_written_from_pair(writes@, ws, AT_ENTRY, img.entry);
        lemma_written_from_pair(writes@, ws, AT_PAGESZ, 4096);
        lemma_written_from_pair(writes@, ws, AT_UID, ids.uid);
        lemma_written_from_pair(writes@, ws, AT_EUID, ids.euid);
        lemma_written_from_pair(writes@, ws, AT_GID, ids.gid);
        lemma_written_from_pair(writes@, ws, AT_EGID, ids.egid);
    }
    Some(InitialStack { writes, sp: (sp & !0xFusize) as u64 })
}

proof fn lemma_after_words_none(sp: usize, ws: Seq<u64>, k: int, n: int)
    requires
        0 <= k <= n,
        after_words(sp, ws, k) is None,
    ensures
        after_words(sp, ws, n) is None,
    decreases n - k,
{
    if k < n {
        assert(after_words(sp, ws, k + 1) is None);
        lemma_after_words_none(sp, ws, k + 1, n);
    }
}


/// The pieces a copy of `len` bytes to `addr` is made in, one per page it
/// touches: each piece's address and length, in order.
pub open spec fn chunks_spec(addr: int, len: int) -> Seq<(usize, usize)>
    decreases len,
{
    if len <= 0 {
        Seq::empty()
    } else {
        let c = if 4096 - addr % 4096 < len { 4096 - addr % 4096 } else { len };
        seq![(addr as usize, c as usize)] + chunks_spec(addr + c, len - c)
    }
}

/// Split a copy of `len` bytes to `addr` at page boundaries (see `chunks_spec`).
pub fn page_chunks(addr: usize, len: usize) -> (pieces: Vec<(usize, usize)>)
    requires
        addr + len <= usize::MAX,
    ensures
        pieces@ == chunks_spec(addr as int, len as int),
{
    let mut pieces: Vec<(usize, usize)> = Vec::new();
    let mut at: usize = addr;
    let mut written: usize = 0;
    while written < len
        invariant
            written <= len,
            at == addr + written,
            addr + len <= usize::MAX,
            pieces@ + chunks_spec(at as int, (len - written) as int) == chunks_spec(addr as int, len as int),
        decreases len - written,
    {
        let page_off = at & 4095;
        assert(page_off == at % 4096) by (bit_vector) requires page_off == at & 4095;
        let room = 4096 - page_off;
        let chunk = if room < len - written { room } else { len - written };
        let ghost rest = chunks_spec((at + chunk) as int, (len - written - chunk) as int);
        assert(chunks_spec(at as int, (len - written) as int) == seq![(at, chunk)] + rest);
        pieces.push((at, chunk));
        assert(pieces@ + rest =~= chunks_spec(addr as int, len as int));
        at = at + chunk;
        written = written + chunk;
    }
    assert(pieces@ + chunks_spec(at as int, 0) =~= pieces@);
    pieces
}

} // verus!
