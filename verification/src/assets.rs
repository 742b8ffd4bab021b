//! Boot assets: which loader-provided files the kernel keeps, the move of
//! the hand-off record's addresses into the direct map, and the programs
//! placed in the file system at boot.
use vstd::prelude::*;
use crate::boot::CoreOS_BootInfo;
use crate::fs::{file_index, File, RamFS};
use crate::paging::PHYSICAL_OFFSET;

verus! {

/// Bytes kept for the user program handed over by the loader.
pub const ELF_BUF_SIZE: usize = 65536;
/// Bytes kept for the console font.
pub const FONT_BUF_SIZE: usize = 16384;

/// How many bytes of each loader-provided file the kernel kept (0: none).
#[derive(Clone, Copy)]
pub struct BootAssets {
    pub elf_len: usize,
    pub font_len: usize,
}

/// Which files to keep: each that the loader provided and that fits its buffer.
pub fn cache_boot_assets(bi: &CoreOS_BootInfo) -> (a: BootAssets)
    ensures
        a.font_len == (if bi.font_base != 0 && bi.font_size > 0 && bi.font_size as usize <= FONT_BUF_SIZE { bi.font_size as usize } else { 0 }),
        a.elf_len == (if bi.user_elf_base != 0 && bi.user_elf_size > 0 && bi.user_elf_size as usize <= ELF_BUF_SIZE { bi.user_elf_size as usize } else { 0 }),
{
    let font_size = bi.font_size as usize;
    let font_len = if bi.font_base != 0 && font_size > 0 && font_size <= FONT_BUF_SIZE { font_size } else { 0 };
    let elf_size = bi.user_elf_size as usize;
    let elf_len = if bi.user_elf_base != 0 && elf_size > 0 && elf_size <= ELF_BUF_SIZE { elf_size } else { 0 };
    BootAssets { elf_len, font_len }
}

/// Once the font is kept, point the hand-off record at the kernel's copy.
pub fn adopt_font_copy(bi: &mut CoreOS_BootInfo, assets: &BootAssets, copy_addr: u64)
    ensures
        assets.font_len > 0 ==> final(bi).font_base == copy_addr && final(bi).font_size == assets.font_len as u64,
        assets.font_len == 0 ==> final(bi).font_base == old(bi).font_base && final(bi).font_size == old(bi).font_size,
        final(bi).fb_base == old(bi).fb_base && final(bi).user_elf_base == old(bi).user_elf_base,
        final(bi).user_elf_size == old(bi).user_elf_size && final(bi).mmap == old(bi).mmap,
        final(bi).mmap_count == old(bi).mmap_count,
{
    if assets.font_len > 0 {
        bi.font_base = copy_addr;
        bi.font_size = assets.font_len as u64;
    }
}

/// Move the hand-off record's addresses into the direct map: the
/// framebuffer always, the font and the user program when present.
pub fn boot_info_high_half(bi: &mut CoreOS_BootInfo)
    requires
        old(bi).fb_base as usize as int + PHYSICAL_OFFSET <= u64::MAX,
        old(bi).font_base != 0 ==> old(bi).font_base as usize as int + PHYSICAL_OFFSET <= u64::MAX,
        old(bi).user_elf_base != 0 ==> old(bi).user_elf_base as usize as int + PHYSICAL_OFFSET <= u64::MAX,
    ensures
        final(bi).fb_base == old(bi).fb_base as usize as int + PHYSICAL_OFFSET,
        final(bi).font_base == (if old(bi).font_base != 0 { (old(bi).font_base as usize as int + PHYSICAL_OFFSET) as u64 } else { 0 }),
        final(bi).user_elf_base == (if old(bi).user_elf_base != 0 { (old(bi).user_elf_base as usize as int + PHYSICAL_OFFSET) as u64 } else { 0 }),
        final(bi).fb_size == old(bi).fb_size && final(bi).font_size == old(bi).font_size,
        final(bi).user_elf_size == old(bi).user_elf_size && final(bi).mmap == old(bi).mmap,
        final(bi).mmap_count == old(bi).mmap_count && final(bi).width == old(bi).width,
        final(bi).height == old(bi).height && final(bi).pitch == old(bi).pitch,
        final(bi).kernel_phys_base == old(bi).kernel_phys_base && final(bi).kernel_alloc_size == old(bi).kernel_alloc_size,
        final(bi).tsc_bootloader_start == old(bi).tsc_bootloader_start,
{
    bi.fb_base = crate::paging::p2v(bi.fb_base as usize as u64);
    if bi.font_base != 0 {
        bi.font_base = crate::paging::p2v(bi.font_base as usize as u64);
    }
    if bi.user_elf_base != 0 {
        bi.user_elf_base = crate::paging::p2v(bi.user_elf_base as usize as u64);
    }
}

/// Place `bytes` in the file system as `name`, unless there are none or a
/// file of that name exists.
pub fn preload_ramfs_file(fs: &mut RamFS, name: &[char], bytes: &[u8])
    ensures
        (bytes@.len() == 0 || name@.len() == 0 || file_index(old(fs).files@, name@) is Some) ==> final(fs).files@ == old(fs).files@,
        (bytes@.len() > 0 && name@.len() > 0 && file_index(old(fs).files@, name@) is None) ==> {
            &&& final(fs).files@.len() == old(fs).files@.len() + 1
            &&& final(fs).files@.subrange(0, old(fs).files@.len() as int) == old(fs).files@
            &&& final(fs).files@.last().name@ == name@
            &&& final(fs).files@.last().data@ == bytes@
        },
{
    if bytes.len() == 0 {
        return;
    }
    if fs.find(name).is_none() && fs.create(name) {
        proof {
            let n = old(fs).files@.len() as int;
            assert forall|j: int| 0 <= j < n implies fs.files@[j].name@ != name@ by {
                assert(fs.files@.subrange(0, n)[j] == old(fs).files@[j]);
                if old(fs).files@[j].name@ == name@ {
                    assert(exists|k: int| 0 <= k < old(fs).files@.len() && old(fs).files@[k].name@ == name@);
                }
            }
            crate::fs::lemma_file_index(fs.files@, name@, n);
        }
        let _ = fs.append_all(name, bytes);
        proof {
            assert(final(fs).files@.subrange(0, old(fs).files@.len() as int) =~= old(fs).files@);
        }
    }
}

/// A file system's files as (name, contents) pairs, in order.
pub open spec fn file_pairs(files: Seq<File>) -> Seq<(Seq<char>, Seq<u8>)> {
    files.map_values(|f: File| (f.name@, f.data@))
}

/// The first `n` of the (name, contents) pairs `ps` whose contents are not empty.
pub open spec fn nonempty_payloads(ps: Seq<(Seq<char>, Seq<u8>)>, n: int) -> Seq<(Seq<char>, Seq<u8>)>
    decreases n,
{
    if n <= 0 || n > ps.len() {
        Seq::empty()
    } else {
        nonempty_payloads(ps, n - 1) + if ps[n - 1].1.len() > 0 { seq![ps[n - 1]] } else { Seq::empty() }
    }
}

/// The programs placed in the file system at boot, under their names.
pub open spec fn boot_payloads(shell: Seq<u8>, syscall_test: Seq<u8>, syscall_child: Seq<u8>,
    posix_test: Seq<u8>, boot_elf: Seq<u8>) -> Seq<(Seq<char>, Seq<u8>)> {
    seq![
        (seq!['t', 'e', 's', 't'], shell),
        (seq!['s', 'y', 's', 'c', 'a', 'l', 'l', '_', 't', 'e', 's', 't'], syscall_test),
        (seq!['s', 'y', 's', 'c', 'a', 'l', 'l', '_', 'c', 'h', 'i', 'l', 'd'], syscall_child),
        (seq!['p', 'o', 's', 'i', 'x', '_', 'n', 'e', 'w', 's', 'y', 's', '_', 't', 'e', 's', 't'], posix_test),
        (seq!['b', 'o', 'o', 't', '_', 't', 'e', 's', 't'], boot_elf),
    ]
}

/// Add `bytes` as `name` to a file system where no file has a name of that length.
fn install_one(fs: &mut RamFS, name: &[char], bytes: &[u8])
    requires
        name@.len() > 0,
        forall|j: int| 0 <= j < old(fs).files@.len() ==> (#[trigger] old(fs).files@[j]).name@.len() != name@.len(),
    ensures
        file_pairs(final(fs).files@) == file_pairs(old(fs).files@) + if bytes@.len() > 0 { seq![(name@, bytes@)] } else { Seq::empty() },
        forall|j: int| 0 <= j < final(fs).files@.len() ==> (#[trigger] final(fs).files@[j]).name@.len() == name@.len()
            || (j < old(fs).files@.len() && final(fs).files@[j] == old(fs).files@[j]),
{
    proof {
        assert forall|j: int| 0 <= j < fs.files@.len() implies fs.files@[j].name@ != name@ by {
            assert(fs.files@[j].name@.len() != name@.len());
        }
        crate::fs::lemma_file_index(fs.files@, name@, fs.files@.len() as int);
    }
    preload_ramfs_file(fs, name, bytes);
    proof {
        if bytes@.len() > 0 {
            assert(final(fs).files@ =~= old(fs).files@.push(final(fs).files@.last()));
        }
        assert(file_pairs(final(fs).files@) =~= file_pairs(old(fs).files@) + if bytes@.len() > 0 { seq![(name@, bytes@)] } else { Seq::empty() });
        assert forall|j: int| 0 <= j < final(fs).files@.len() implies (#[trigger] final(fs).files@[j]).name@.len() == name@.len()
            || (j < old(fs).files@.len() && final(fs).files@[j] == old(fs).files@[j]) by {
            if j < old(fs).files@.len() {
                assert(final(fs).files@.subrange(0, old(fs).files@.len() as int)[j] == final(fs).files@[j]);
            }
        }
    }
}

/// Start the file system with the programs built into the kernel, under
/// their names (`test`, `syscall_test`, `syscall_child`, `posix_newsys_test`),
/// and the program the loader handed over, when one was kept, as `boot_test`.
/// A program with no bytes is left out.
pub fn install_ramfs_payloads(shell: &[u8], syscall_test: &[u8], syscall_child: &[u8],
    posix_test: &[u8], boot_elf: &[u8]) -> (fs: RamFS)
    ensures
        file_pairs(fs.files@) == nonempty_payloads(boot_payloads(shell@, syscall_test@, syscall_child@, posix_test@, boot_elf@), 5),
{
    let ghost ps = boot_payloads(shell@, syscall_test@, syscall_child@, posix_test@, boot_elf@);
    let mut fs = RamFS::new();
    let n_test: [char; 4] = ['t', 'e', 's', 't'];
    let n_sys: [char; 12] = ['s', 'y', 's', 'c', 'a', 'l', 'l', '_', 't', 'e', 's', 't'];
    let n_child: [char; 13] = ['s', 'y', 's', 'c', 'a', 'l', 'l', '_', 'c', 'h', 'i', 'l', 'd'];
    let n_posix: [char; 17] = ['p', 'o', 's', 'i', 'x', '_', 'n', 'e', 'w', 's', 'y', 's', '_', 't', 'e', 's', 't'];
    let n_boot: [char; 9] = ['b', 'o', 'o', 't', '_', 't', 'e', 's', 't'];
    assert(n_test@ =~= ps[0].0);
    assert(n_sys@ =~= ps[1].0);
    assert(n_child@ =~= ps[2].0);
    assert(n_posix@ =~= ps[3].0);
    assert(n_boot@ =~= ps[4].0);
    assert(file_pairs(fs.files@) =~= nonempty_payloads(ps, 0));
    install_one(&mut fs, n_test.as_slice(), shell);
    assert(file_pairs(fs.files@) =~= nonempty_payloads(ps, 1));
    install_one(&mut fs, n_sys.as_slice(), syscall_test);
    assert(file_pairs(fs.files@) =~= nonempty_payloads(ps, 2));
    install_one(&mut fs, n_child.as_slice(), syscall_child);
    assert(file_pairs(fs.files@) =~= nonempty_payloads(ps, 3));
    install_one(&mut fs, n_posix.as_slice(), posix_test);
    assert(file_pairs(fs.files@) =~= nonempty_payloads(ps, 4));
    install_one(&mut fs, n_boot.as_slice(), boot_elf);
    assert(file_pairs(fs.files@) =~= nonempty_payloads(ps, 5));
    fs
}

} // verus!
