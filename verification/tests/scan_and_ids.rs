use coreos::boot::{CoreOS_BootInfo, MemMapEntry, EFI_CONVENTIONAL_MEMORY};
use coreos::hw::pci::{after_header, scan_start, PciDevices, ScanStep};
use coreos::pmm::PMMState;
use coreos::proc::table::ProcTable;
use coreos::proc::task::TaskTable;

/// A configuration space with a multi-function device at 0:3 (functions 0
/// and 2 present) and a single-function device at 1:0.
fn config(bus: u8, device: u8, func: u8, offset: u8) -> u32 {
    let present = matches!((bus, device, func), (0, 3, 0) | (0, 3, 2) | (1, 0, 0));
    if !present {
        return 0xFFFF_FFFF;
    }
    match offset {
        0x00 => 0x1234_8086 + func as u32,
        0x08 => 0x0C03_0001,
        0x0C => if (bus, device) == (0, 3) { 0x0080_0000 } else { 0 },
        _ => 0,
    }
}

#[test]
fn bus_scan_records_present_functions_in_order() {
    let mut pci = PciDevices::new();
    assert!(pci.begin_scan());
    let mut step = scan_start();
    let mut reads = 0usize;
    loop {
        match step {
            ScanStep::Header { bus, device } => step = after_header(bus, device, config(bus, device, 0, 0x0C)),
            ScanStep::Function { bus, device, func, last } => {
                reads += 1;
                step = pci.after_function(bus, device, func, last, config(bus, device, func, 0),
                    config(bus, device, func, 8), config(bus, device, func, 0x0C));
            }
            ScanStep::Done => break,
        }
    }
    // an absent device reads all ones, which looks multi-function: eight
    // functions probed for it and for 0:3, two for the single-function 1:0
    assert_eq!(reads, (256 * 32 - 1) * 8 + 2);
    let list = pci.device_list();
    let slots: Vec<(u8, u8, u8)> = list.iter().map(|d| (d.bus, d.device, d.function)).collect();
    assert_eq!(slots, vec![(0, 3, 0), (0, 3, 2), (1, 0, 0)]);
    assert_eq!(list[1].vendor_id, 0x8088);
    assert_eq!(list[0].device_id, 0x1234);
    assert_eq!(list[0].class_code, 0x0C);
    assert_eq!(list[0].header_type, 0);
    assert!(!pci.begin_scan());
    assert_eq!(pci.device_list().len(), 3);
}

#[test]
fn new_task_ids_are_unused() {
    let mut bi = CoreOS_BootInfo::zeroed();
    bi.mmap[0] = MemMapEntry { physical_start: 0x20_0000, num_pages: 512, mem_type: EFI_CONVENTIONAL_MEMORY, _pad: 0 };
    bi.mmap_count = 1;
    let mut pmm = PMMState::new();
    pmm.init(&bi);
    let mut tasks = TaskTable::new();
    tasks.init_main_task(0x1000, 0x5000);
    let a = tasks.add_task(&mut pmm, 0x1000, 0x5000).unwrap().slot;
    let b = tasks.add_task(&mut pmm, 0x2000, 0x5000).unwrap().slot;
    let ids: Vec<usize> = tasks.tasks.iter().flatten().map(|t| t.id).collect();
    assert_eq!(ids, vec![0, 1, 2]);
    assert_eq!(tasks.tasks[a].unwrap().id, 1);
    assert_eq!(tasks.tasks[b].unwrap().id, 2);
    assert_eq!(tasks.next_id, 3);
}

#[test]
fn spawned_process_has_default_signal_actions() {
    let mut t = ProcTable::new();
    t.spawn_named(0, 2, 0x1000, &['s', 'h']);
    let p = t.processes[2].unwrap();
    for a in p.sig_handlers.iter() {
        assert_eq!((a.handler, a.flags, a.restorer), (0, 0, 0));
        assert!(a.mask.bits.iter().all(|&w| w == 0));
    }
    assert!(p.exe_path[2..].iter().all(|&b| b == 0));
}
