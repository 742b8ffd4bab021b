use coreos::boot::{CoreOS_BootInfo, MemMapEntry};
use coreos::descriptors::{
    exception_exit_code, exception_report, exec_stack_top, gdt_table, user_entry_frame, GdtEntry, IdtEntry, InterruptFrame,
    INTERRUPT_GATE, SEG_KCODE,
};
use coreos::elf::{check_header, load, ElfError};
use coreos::proc::exec::{build_initial_stack, page_chunks, Credentials, ImageInfo};
use coreos::selftest::{run_boot_sanity_suite, validate_syscall_frame_layout};
use coreos::validate::{validate_mmap, MmapError};

fn put16(v: &mut [u8], off: usize, x: u16) {
    v[off..off + 2].copy_from_slice(&x.to_le_bytes());
}
fn put32(v: &mut [u8], off: usize, x: u32) {
    v[off..off + 4].copy_from_slice(&x.to_le_bytes());
}
fn put64(v: &mut [u8], off: usize, x: u64) {
    v[off..off + 8].copy_from_slice(&x.to_le_bytes());
}

/// A little executable: one loadable segment and one note segment.
fn sample_elf() -> Vec<u8> {
    let mut v = vec![0u8; 64 + 2 * 56];
    v[0..4].copy_from_slice(&[0x7F, b'E', b'L', b'F']);
    v[4] = 2;
    v[5] = 1;
    put16(&mut v, 16, 2);
    put16(&mut v, 18, 62);
    put64(&mut v, 24, 0x40_1000);
    put64(&mut v, 32, 64);
    put16(&mut v, 54, 56);
    put16(&mut v, 56, 2);
    put32(&mut v, 64, 1);
    put64(&mut v, 64 + 8, 0);
    put64(&mut v, 64 + 16, 0x40_0000);
    put64(&mut v, 64 + 32, 0x10);
    put64(&mut v, 64 + 40, 0x20);
    put32(&mut v, 120, 4);
    put64(&mut v, 120 + 40, 8);
    v
}

#[test]
fn elf_load_lists_loadable_segments() {
    let data = sample_elf();
    let (entry, segs) = load(&data).unwrap();
    assert_eq!(entry, 0x40_1000);
    assert_eq!(segs.len(), 1);
    assert_eq!((segs[0].vaddr, segs[0].filesz, segs[0].memsz, segs[0].offset), (0x40_0000, 0x10, 0x20, 0));
    // a header table running past the file ends the walk
    let mut short = data.clone();
    put16(&mut short, 56, 3);
    let (_, segs) = load(&short).unwrap();
    assert_eq!(segs.len(), 1);
}

#[test]
fn elf_header_errors_in_order() {
    let good = sample_elf();
    assert!(matches!(load(&good[..63]), Err(ElfError::TooSmall)));
    let mut v = good.clone();
    v[1] = b'X';
    assert!(matches!(check_header(&v), Err(ElfError::BadMagic)));
    let mut v = good.clone();
    v[4] = 1;
    assert!(matches!(check_header(&v), Err(ElfError::Not64Bit)));
    let mut v = good.clone();
    v[5] = 2;
    assert!(matches!(check_header(&v), Err(ElfError::NotLittleEndian)));
    let mut v = good.clone();
    put16(&mut v, 16, 3);
    assert!(matches!(check_header(&v), Err(ElfError::NotExecutable)));
    let mut v = good.clone();
    put16(&mut v, 18, 3);
    assert!(matches!(check_header(&v), Err(ElfError::NotX86_64)));
    let mut v = good.clone();
    put16(&mut v, 56, 0);
    assert!(matches!(load(&v), Err(ElfError::NoProgramHeaders)));
    // the first failing check is the one reported
    let mut v = good.clone();
    v[4] = 1;
    v[5] = 2;
    assert!(matches!(check_header(&v), Err(ElfError::Not64Bit)));
}

fn entry(start: u64, pages: u64) -> MemMapEntry {
    MemMapEntry { physical_start: start, num_pages: pages, mem_type: 7, _pad: 0 }
}

#[test]
fn memory_map_checks() {
    let mut bi = CoreOS_BootInfo::zeroed();
    assert_eq!(validate_mmap(&bi), Err(MmapError::InvalidCount(0)));
    bi.mmap_count = 257;
    assert_eq!(validate_mmap(&bi), Err(MmapError::InvalidCount(257)));
    bi.mmap_count = 2;
    bi.mmap[0] = entry(0x1000, 4);
    bi.mmap[1] = entry(0x10_0000, 16);
    assert_eq!(validate_mmap(&bi), Ok(()));
    bi.mmap[1] = entry(0x10_0010, 16);
    assert_eq!(validate_mmap(&bi), Err(MmapError::Unaligned(0x10_0010)));
    bi.mmap[1] = entry(0x10_0000, 0);
    assert_eq!(validate_mmap(&bi), Err(MmapError::ZeroSized(0x10_0000)));
    bi.mmap[1] = entry(0x3000, 4);
    assert_eq!(validate_mmap(&bi), Err(MmapError::Overlap(0x1000, 0x5000, 0x3000, 0x7000)));
}

#[test]
fn descriptor_encodings() {
    let t = gdt_table(0x1234_5678);
    assert_eq!(t[0], 0);
    assert_eq!(t[1], 0x00AF_9A00_0000_FFFF);
    assert_eq!(t[2], 0x00CF_9200_0000_FFFF);
    assert_eq!(t[3], 0x00CF_F200_0000_FFFF);
    assert_eq!(t[4], 0x00AF_FA00_0000_FFFF);
    assert_eq!(GdtEntry::null().encode(), 0);
    let mut g = IdtEntry::missing();
    assert_eq!(g.options, 0);
    g.set_handler(0xFFFF_8000_1234_5678);
    assert_eq!((g.offset_low, g.offset_mid, g.offset_high), (0x5678, 0x1234, 0xFFFF_8000));
    assert_eq!((g.selector, g.options, g.zero), (SEG_KCODE, INTERRUPT_GATE, 0));
    assert_eq!(user_entry_frame(0x40_1000, 0x7FFF_FFF0), (0x40_1000, 0x7FFF_FFF0, 0x23, 0x1B, 0x202));
    assert_eq!(exec_stack_top(&[0x30_0000, 0x50_0000, 0x40_0000]), 0x50_1000 - 8);
}

#[test]
fn exception_code_is_the_vector() {
    let f = InterruptFrame {
        r15: 0, r14: 0, r13: 0, r12: 0, r11: 0, r10: 0, r9: 0, r8: 0, rbp: 0, rdi: 0, rsi: 0, rdx: 0,
        rcx: 0, rbx: 0, rax: 0, padding: 0, vector: 14, error_code: 2, rip: 0, cs: 0x23, rflags: 0,
        rsp: 0, ss: 0x1B,
    };
    assert_eq!(exception_exit_code(&f), 14);
    let text = String::from_utf8(exception_report(&f)).unwrap();
    let zero = "0x0000000000000000";
    let expected = format!(
        "\n[EXCEPTION] fault #14 in task (RIP=0x0, ERR=0x2)\n\
RAX={z} RBX={z} RCX={z} RDX={z}\n\
RSI={z} RDI={z} RBP={z} RSP={z}\n\
R8 ={z} R9 ={z} R10={z} R11={z}\n\
R12={z} R13={z} R14={z} R15={z}\n\
CS =0x23 SS =0x1b RFLAGS=0x0\n",
        z = zero
    );
    assert_eq!(text, expected);
    let g = InterruptFrame { rip: 0xFFFF_8000_0010_2A3F, rax: 0xdead_beef, ..f };
    let text = String::from_utf8(exception_report(&g)).unwrap();
    assert!(text.contains("(RIP=0xffff800000102a3f, ERR=0x2)"));
    assert!(text.contains("RAX=0x00000000deadbeef RBX="));
}

#[test]
fn syscall_frame_layout_checks() {
    assert!(validate_syscall_frame_layout(120, 88, 112));
    assert!(!validate_syscall_frame_layout(112, 88, 112));
    assert!(run_boot_sanity_suite(120, 88, 112));
    assert!(!run_boot_sanity_suite(120, 80, 112));
}

#[test]
fn user_copies_split_at_page_boundaries() {
    assert_eq!(page_chunks(0x1ff0, 0x30), vec![(0x1ff0, 0x10), (0x2000, 0x20)]);
    assert_eq!(page_chunks(0x1000, 0x2000), vec![(0x1000, 0x1000), (0x2000, 0x1000)]);
    assert_eq!(page_chunks(0x1234, 0), Vec::<(usize, usize)>::new());
    assert_eq!(page_chunks(0x1fff, 1), vec![(0x1fff, 1)]);
}

#[test]
fn initial_user_stack_layout() {
    let img = ImageInfo { entry: 0x40_1000, phdr: 0x40_0040, phent: 56, phnum: 2 };
    let ids = Credentials { uid: 1, euid: 2, gid: 3, egid: 4 };
    let st = build_initial_stack(0x8000_0000, &['s', 'h'], img, ids).unwrap();
    assert_eq!(st.writes.len(), 32);
    assert_eq!(st.writes[0], (0x7FFF_FFFC, b"/sh\0".to_vec()));
    assert_eq!(st.writes[1].0, 0x7FFF_FFE0);
    assert_eq!(
        st.writes[1].1,
        vec![0x13, 0x37, 0xca, 0xfe, 0xba, 0xbe, 0xde, 0xad, 0xfa, 0xce, 0x12, 0x34, 0x56, 0x78, 0xab, 0xcd]
    );
    // the auxiliary vector ends with AT_NULL, pushed first
    assert_eq!(st.writes[2], (0x7FFF_FFD8, 0u64.to_le_bytes().to_vec()));
    assert_eq!(st.writes[3], (0x7FFF_FFD0, 0u64.to_le_bytes().to_vec()));
    // then the name's address under AT_EXECFN
    assert_eq!(st.writes[4], (0x7FFF_FFC8, 0x7FFF_FFFCu64.to_le_bytes().to_vec()));
    assert_eq!(st.writes[5], (0x7FFF_FFC0, 31u64.to_le_bytes().to_vec()));
    // argc last, at the lowest address
    assert_eq!(st.writes[31], (0x7FFF_FEF0, 1u64.to_le_bytes().to_vec()));
    assert_eq!(st.writes[30], (0x7FFF_FEF8, 0x7FFF_FFFCu64.to_le_bytes().to_vec()));
    assert_eq!(st.sp, 0x7FFF_FEF0);
    assert!(build_initial_stack(10, &['s', 'h'], img, ids).is_none());
}
