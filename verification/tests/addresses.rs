use coreos::editor::Editor;
use coreos::elf::{segment_pages, Segment};
use coreos::hw::pci::{pci_self_test, PciDeviceInfo};
use coreos::paging::{
    entry_target, gigabyte_page, is_huge, kernel_space_table, large_page_range, map_step, table_entry, table_indices,
    WalkStep,
};

#[test]
fn page_table_arithmetic() {
    assert_eq!(table_indices(0xFFFF_8000_0020_1000), (256, 0, 1, 1));
    assert_eq!(table_indices(0xFFFF_FFFF_8010_0000), (511, 510, 0, 256));
    assert_eq!(table_entry(0x2000, false), 0x2007);
    assert_eq!(table_entry(0x20_0000, true), 0x20_0087);
    assert_eq!(entry_target(0x2087), 0x2000);
    assert!(is_huge(0x83));
    assert!(!is_huge(0x3));
    assert_eq!(gigabyte_page(1, 2), 514 * 0x20_0000);
    assert_eq!(large_page_range(0x20_1000, 0x40_1000, 0x1000), (0x20_0000, 0x40_0000, 0x40_0000));
    assert_eq!(large_page_range(0x20_0000, 0x40_0000, 0x20_0001), (0x20_0000, 0x40_0000, 0x60_0000));
}

#[test]
fn segment_page_span() {
    let seg = Segment { p_type: 1, offset: 0, vaddr: 0x40_0123, filesz: 0x10, memsz: 0x1000 };
    assert_eq!(segment_pages(&seg), (0x40_0000, 0x40_2000));
    let exact = Segment { vaddr: 0x40_0000, memsz: 0x1000, ..seg };
    assert_eq!(segment_pages(&exact), (0x40_0000, 0x40_1000));
}

fn device(class: u8, header: u8) -> PciDeviceInfo {
    PciDeviceInfo::from_config(0, 1, 0, 0x8086, 0x1237, class, 0, 0, 2, header).unwrap()
}

#[test]
fn pci_self_test_counts_failures() {
    let bridge = device(0x06, 0);
    let nic = device(0x02, 0);
    assert_eq!(pci_self_test(&vec![], &vec![], (0, 0, 0), 0), 1);
    assert_eq!(pci_self_test(&vec![bridge], &vec![0], (0x8086, 0x1237, 0x06), 0), 0);
    // a header type that reads back differently
    assert_eq!(pci_self_test(&vec![bridge], &vec![1], (0x8086, 0x1237, 0x06), 0), 1);
    // registers of the first device that read back differently
    assert_eq!(pci_self_test(&vec![bridge], &vec![0], (0x8086, 0x1238, 0x06), 0), 1);
    // a device whose BAR does not size
    assert_eq!(pci_self_test(&vec![nic], &vec![0x80], (0x8086, 0x1237, 0x02), 0xFFFF_FFFF), 1);
    assert_eq!(pci_self_test(&vec![nic], &vec![0], (0x8086, 0x1237, 0x02), 0xFFFE_0000), 0);
}

#[test]
fn cursor_moves_within_the_text() {
    let mut e = Editor::new();
    e.move_cursor_right();
    assert_eq!(e.cursor, 0);
    e.insert_char('a');
    e.insert_char('b');
    e.move_cursor_left();
    e.move_cursor_left();
    e.move_cursor_left();
    assert_eq!(e.cursor, 0);
    e.move_cursor_right();
    assert_eq!(e.cursor, 1);
    e.move_cursor_right();
    e.move_cursor_right();
    assert_eq!(e.cursor, 2);
}

#[test]
fn mapping_walk_steps() {
    let virt = 0x40_1000u64;
    assert_eq!(map_step(virt, 0x20_0000, 3, 0, 0), WalkStep::NewTable { index: 0 });
    assert_eq!(map_step(virt, 0x20_0000, 3, 0, 0x5007), WalkStep::Next { table: 0x5000 });
    assert_eq!(map_step(virt, 0x20_0000, 2, 0, 0x6003), WalkStep::Next { table: 0x6000 });
    assert_eq!(map_step(virt, 0x20_0000, 1, 0, 0x83), WalkStep::Covered);
    assert_eq!(map_step(virt, 0x20_0000, 1, 0, 0x7003), WalkStep::Next { table: 0x7000 });
    assert_eq!(map_step(virt, 0x20_0000, 0, 0, 0), WalkStep::Leaf { index: 1, value: 0x20_0007 });
    assert_eq!(map_step(virt, 0x20_0000, 1, 1, 0x83), WalkStep::Leaf { index: 2, value: 0x20_0087 });
    assert_eq!(map_step(0xFFFF_8000_0000_0000, 0, 3, 1, 0), WalkStep::NewTable { index: 256 });
}

#[test]
fn new_address_space_shares_the_kernel_half() {
    let mut kernel = [0u64; 512];
    for (i, e) in kernel.iter_mut().enumerate() {
        *e = 0x1000 * i as u64 + 3;
    }
    let t = kernel_space_table(&kernel);
    assert_eq!(t[0], 3);
    assert_eq!(t[1], 0);
    assert_eq!(t[255], 0);
    assert_eq!(t[256], kernel[256]);
    assert_eq!(t[511], kernel[511]);
}
