use coreos::boot::{CoreOS_BootInfo, MemMapEntry, EFI_CONVENTIONAL_MEMORY};
use coreos::editor::Editor;
use coreos::fs::RamFS;
use coreos::heap::{SlabAllocator, SlabPick, alloc_large, free_large};
use coreos::hw::kbd_buffer::KeyBuffer;
use coreos::hw::tty::{Echo, Tty};
use coreos::paging::{p2v, v2p, PHYSICAL_OFFSET};
use coreos::pmm::PMMState;
use coreos::pmm_test::test_pmm_basic;
use coreos::proc::state::ProcessState;
use coreos::proc::table::ProcTable;
use coreos::proc::task::TaskTable;

fn boot_info_with_ram(start: u64, pages: u64) -> CoreOS_BootInfo {
    let mut bi = CoreOS_BootInfo::zeroed();
    bi.mmap[0] = MemMapEntry { physical_start: start, num_pages: pages, mem_type: EFI_CONVENTIONAL_MEMORY, _pad: 0 };
    bi.mmap_count = 1;
    bi.kernel_phys_base = 0x10_0000;
    bi.kernel_alloc_size = 0x1000;
    bi
}

fn pmm_with_ram() -> PMMState {
    let mut pmm = PMMState::new();
    pmm.init(&boot_info_with_ram(0x20_0000, 512));
    pmm
}

fn frame_map(pmm: &PMMState, upto: usize) -> Vec<bool> {
    (0..upto).map(|f| pmm.is_free(f)).collect()
}

#[test]
fn key_buffer_gives_keys_back_in_order() {
    let mut b = KeyBuffer::new();
    b.push('a');
    b.push('b');
    b.push('c');
    assert_eq!(b.pop(), Some('a'));
    assert_eq!(b.pop(), Some('b'));
    b.push('d');
    assert_eq!(b.pop(), Some('c'));
    assert_eq!(b.pop(), Some('d'));
    assert_eq!(b.pop(), None);
    assert!(b.is_empty());
}

#[test]
fn editor_delete_undoes_insert() {
    let mut e = Editor::new();
    e.insert_char('h');
    e.insert_char('i');
    e.move_cursor_left();
    let before_len = e.length;
    let before = e.buffer[..e.length].to_vec();
    let cursor = e.cursor;
    e.insert_char('x');
    assert_eq!(&e.buffer[..e.length], b"hxi");
    e.delete_char();
    assert_eq!(e.length, before_len);
    assert_eq!(e.buffer[..e.length].to_vec(), before);
    assert_eq!(e.cursor, cursor);
    assert!(e.is_dirty);
}

#[test]
fn pmm_self_test_leaves_the_map_as_it_was() {
    let mut pmm = pmm_with_ram();
    let before = frame_map(&pmm, 1024);
    let free_before = pmm.free_bytes();
    assert!(test_pmm_basic(&mut pmm));
    assert_eq!(frame_map(&pmm, 1024), before);
    assert_eq!(pmm.free_bytes(), free_before);
}

#[test]
fn freeing_a_frame_undoes_its_allocation() {
    let mut pmm = pmm_with_ram();
    let before = frame_map(&pmm, 1024);
    let a = pmm.alloc_frame();
    assert_eq!(a, 0x20_0000);
    assert!(!pmm.is_free(a / 4096));
    pmm.free_frame(a);
    assert_eq!(frame_map(&pmm, 1024), before);
}

#[test]
fn freeing_a_large_allocation_undoes_it() {
    let mut pmm = pmm_with_ram();
    let before = frame_map(&pmm, 1024);
    let addr = alloc_large(&mut pmm, 3 * 4096 + 1);
    assert_eq!(addr, PHYSICAL_OFFSET + 0x20_0000);
    for f in 0x200..0x204 {
        assert!(!pmm.is_free(f));
    }
    assert!(pmm.is_free(0x204));
    free_large(&mut pmm, addr, 3 * 4096 + 1);
    assert_eq!(frame_map(&pmm, 1024), before);
}

#[test]
fn slot_given_back_restores_its_slab() {
    let mut pmm = pmm_with_ram();
    let mut slabs = SlabAllocator::new();
    let j = match slabs.take_slab(&mut pmm, 0) {
        SlabPick::Fresh(j) => j,
        _ => panic!("expected a fresh slab"),
    };
    assert_eq!(j, 0);
    let h = slabs.slabs[0];
    assert_eq!(h.page, 0x20_0000);
    assert_eq!(h.capacity, 256);
    assert_eq!(h.free_count, 256);
    // take the first slot; its link is the second slot
    let second = h.free_head + 16;
    let slot = slabs.pop_slot(0, 0, second);
    assert_eq!(slot, PHYSICAL_OFFSET + 0x20_0000);
    assert!(matches!(slabs.take_slab(&mut pmm, 0), SlabPick::Ready(0)));
    // take a second one so the slab is not wholly free afterwards
    let third = second + 16;
    assert_eq!(slabs.pop_slot(0, 0, third), second);
    let after_two = slabs.slabs[0];
    assert_eq!(slabs.release_slot(&mut pmm, 0, second), Some(third));
    let after_release = slabs.slabs[0];
    assert_eq!(after_release.free_head, second);
    assert_eq!(after_release.free_count, after_two.free_count + 1);
    // giving back the last taken slot empties the slab and frees its frame
    assert_eq!(slabs.release_slot(&mut pmm, 0, slot), Some(second));
    assert_eq!(slabs.slabs[0].page, 0);
    assert!(pmm.is_free(0x200));
}

#[test]
fn read_after_append_gives_the_bytes_back() {
    let mut fs = RamFS::new();
    let name = ['n', 'o', 't', 'e', 's'];
    assert!(fs.create(&name));
    assert!(fs.append_all(&name, b"abc"));
    let start = fs.file_size(0);
    assert!(fs.append_all(&name, b"defg"));
    assert_eq!(fs.read_at(0, start, 4), b"defg".to_vec());
    assert_eq!(fs.read_at(0, 0, 100), b"abcdefg".to_vec());
    assert_eq!(fs.read_at(0, 7, 1), Vec::<u8>::new());
}

#[test]
fn committed_line_is_read_back_whole() {
    let mut t = Tty::new();
    for b in b"ls -l" {
        assert_eq!(t.input_char(*b), Echo::Byte(*b));
    }
    assert_eq!(t.read(16), None);
    assert_eq!(t.input_char(13), Echo::Newline);
    assert_eq!(t.read(16), Some(b"ls -l\n".to_vec()));
    assert_eq!(t.read(16), None);
}

#[test]
fn direct_map_round_trip() {
    for phys in [0u64, 0x1000, 0x20_0000, 0xFFFF_F000] {
        assert_eq!(v2p(p2v(phys)), phys);
    }
}

#[test]
fn kernel_image_addresses_map_to_their_load_address() {
    assert_eq!(v2p(0xFFFF_FFFF_8010_0000), 0x10_0000);
    assert_eq!(v2p(0xFFFF_FFFF_8000_0000), 0);
    assert_eq!(v2p(0xFFFF_8000_0010_0000), 0x10_0000);
}

#[test]
fn last_thread_exit_is_reaped_with_its_code() {
    let mut t = ProcTable::new();
    let mut tasks = TaskTable::new();
    assert_eq!(t.spawn_named(0, 0, 0x1000, &['i', 'n', 'i', 't']), 1);
    t.exit(0, &mut tasks, 42);
    let p = t.processes[0].unwrap();
    assert_eq!(p.state, ProcessState::Zombie);
    assert_eq!(t.reap_slot(0), Some(42));
    assert_eq!(t.reap_slot(0), None);
}

#[test]
fn backspace_undoes_typing() {
    let mut t = Tty::new();
    assert_eq!(t.input_char(b'o'), Echo::Byte(b'o'));
    assert_eq!(t.input_char(b'k'), Echo::Byte(b'k'));
    assert_eq!(t.input_char(127), Echo::Backspace);
    assert_eq!(t.input_char(8), Echo::Backspace);
    assert_eq!(t.input_char(8), Echo::Quiet);
    assert_eq!(t.input_char(b'\n'), Echo::Newline);
    assert_eq!(t.read(8), Some(b"\n".to_vec()));
}
