use coreos::boot::{CoreOS_BootInfo, MemMapEntry};
use coreos::elf::{claim_segment_frames, Segment};
use coreos::kernel_tables::kernel_page_tables;
use coreos::paging::PHYSICAL_OFFSET;
use coreos::pmm::PMMState;
use coreos::proc::state::Process;
use coreos::validate::{validate_mmap, MmapError};

const LINK: u64 = 7;
const LEAF: u64 = 0x87;

fn pmm_with_free(frames: std::ops::Range<usize>) -> PMMState {
    let mut pmm = PMMState::new();
    for f in frames {
        pmm.free_frame(f * 4096);
    }
    pmm
}

#[test]
fn kernel_tables_below_four_gib() {
    let mut pmm = pmm_with_free(1..21);
    let kt = kernel_page_tables(&mut pmm, PHYSICAL_OFFSET + 0x8000_0000, 0x30_0000).unwrap();
    assert_eq!(kt.pml4, 0x1000);
    assert_eq!(kt.tables, vec![0x1000, 0x2000, 0x3000, 0x4000, 0x5000, 0x6000, 0x7000, 0x8000]);
    assert_eq!(kt.writes.len(), 3 + 4 * (2 + 512) + 1);
    assert_eq!(kt.writes[0], (0x1000 + 511 * 8, 0x2000 | LINK));
    assert_eq!(kt.writes[1], (0x1000 + 256 * 8, 0x3000 | LINK));
    assert_eq!(kt.writes[2], (0x1000, 0x4000 | LINK));
    assert_eq!(kt.writes[3], (0x3000, 0x5000 | LINK));
    assert_eq!(kt.writes[4], (0x4000, 0x5000 | LINK));
    assert_eq!(kt.writes[5], (0x2000 + 510 * 8, 0x5000 | LINK));
    assert_eq!(kt.writes[6], (0x5000, LEAF));
    assert_eq!(kt.writes[7], (0x5008, 0x20_0000 | LEAF));
    // the last directory maps the fourth gigabyte
    assert_eq!(kt.writes[kt.writes.len() - 1], (0x8000 + 511 * 8, (2047u64 * 0x20_0000) | LEAF));
    assert!(!pmm.is_free(1) && !pmm.is_free(8) && pmm.is_free(9));
    assert_eq!(pmm.free_bytes(), 12 * 4096);
}

#[test]
fn kernel_tables_map_a_high_framebuffer() {
    let mut pmm = pmm_with_free(1..21);
    let kt = kernel_page_tables(&mut pmm, PHYSICAL_OFFSET + 0x1_0000_0000, 0x30_0000).unwrap();
    assert_eq!(kt.tables.len(), 9);
    assert_eq!(kt.tables[8], 0x9000);
    let n = kt.writes.len();
    assert_eq!(n, 2060 + 3);
    // direct-map entry 4 gets a new directory, which maps the two large pages
    assert_eq!(kt.writes[n - 3], (0x3000 + 4 * 8, 0x9000 | LINK));
    assert_eq!(kt.writes[n - 2], (0x9000, 0x1_0000_0000 | LEAF));
    assert_eq!(kt.writes[n - 1], (0x9008, 0x1_0020_0000 | LEAF));
    assert_eq!(pmm.free_bytes(), 11 * 4096);
}

#[test]
fn kernel_tables_out_of_frames_give_everything_back() {
    let mut pmm = pmm_with_free(1..6);
    let before = pmm.free_bytes();
    assert!(kernel_page_tables(&mut pmm, PHYSICAL_OFFSET, 0).is_none());
    assert_eq!(pmm.free_bytes(), before);
    assert!((1..6).all(|f| pmm.is_free(f)));
    let mut pmm = pmm_with_free(1..9);
    assert!(kernel_page_tables(&mut pmm, PHYSICAL_OFFSET + 0x1_0000_0000, 0x1000).is_none());
    assert_eq!(pmm.free_bytes(), 8 * 4096);
    assert!((1..9).all(|f| pmm.is_free(f)));
}

#[test]
fn memory_map_reports_the_first_defect() {
    let mut bi = CoreOS_BootInfo::zeroed();
    bi.mmap_count = 3;
    bi.mmap[0] = MemMapEntry { physical_start: 0x1000, num_pages: 4, mem_type: 7, _pad: 0 };
    bi.mmap[1] = MemMapEntry { physical_start: 0x10_0010, num_pages: 1, mem_type: 7, _pad: 0 };
    bi.mmap[2] = MemMapEntry { physical_start: 0x2000, num_pages: 1, mem_type: 7, _pad: 0 };
    assert_eq!(validate_mmap(&bi), Err(MmapError::Overlap(0x1000, 0x5000, 0x2000, 0x3000)));
    bi.mmap[2] = MemMapEntry { physical_start: 0x8000, num_pages: 0, mem_type: 7, _pad: 0 };
    assert_eq!(validate_mmap(&bi), Err(MmapError::Unaligned(0x10_0010)));
}

#[test]
fn leader_path_is_zero_after_the_name() {
    let p = Process::new_leader(5, 1, &['s', 'h']);
    assert_eq!(p.exe_path_len, 2);
    assert_eq!(&p.exe_path[..2], b"sh");
    assert!(p.exe_path[2..].iter().all(|&b| b == 0));
}

#[test]
fn segment_frames_are_claimed() {
    let mut pmm = pmm_with_free(1..0x500);
    let segs = vec![
        Segment { p_type: 1, offset: 0, vaddr: 0x40_0123, filesz: 0x10, memsz: 0x1000 },
        Segment { p_type: 1, offset: 0, vaddr: 0x48_0000, filesz: 0, memsz: 0x800 },
    ];
    let before = pmm.free_bytes();
    claim_segment_frames(&mut pmm, &segs);
    assert!(!pmm.is_free(0x400) && !pmm.is_free(0x401) && pmm.is_free(0x402));
    assert!(!pmm.is_free(0x480) && pmm.is_free(0x481) && pmm.is_free(0x3FF));
    assert_eq!(pmm.free_bytes(), before - 3 * 4096);
}

#[test]
fn frames_marked_used_leave_the_free_count() {
    let mut pmm = pmm_with_free(1..10);
    pmm.mark_frame_used(3 * 4096 + 5);
    assert!(!pmm.is_free(3));
    assert_eq!(pmm.free_bytes(), 8 * 4096);
    pmm.mark_frame_used(3 * 4096);
    assert_eq!(pmm.free_bytes(), 8 * 4096);
    pmm.mark_frame_used(usize::MAX);
    assert_eq!(pmm.free_bytes(), 8 * 4096);
}

#[test]
fn successive_allocations_are_distinct() {
    let mut pmm = pmm_with_free(1..200);
    let mut got = Vec::new();
    for _ in 0..128 {
        let a = pmm.alloc_frame();
        assert_ne!(a, 0);
        got.push(a);
    }
    let mut sorted = got.clone();
    sorted.dedup();
    assert_eq!(sorted.len(), 128);
    assert_eq!(got[0], 0x1000);
    assert_eq!(got[127], 128 * 0x1000);
    let total = pmm.total_bytes();
    let fb = pmm.free_bytes();
    let a = pmm.alloc_frame();
    assert_eq!(pmm.free_bytes(), fb - 4096);
    pmm.free_frame(a);
    assert_eq!(pmm.free_bytes(), fb);
    assert_eq!(pmm.total_bytes(), total);
}
