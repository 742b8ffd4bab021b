use coreos::boot::{CoreOS_BootInfo, MemMapEntry, EFI_CONVENTIONAL_MEMORY};
use coreos::hw::kbd_buffer::KeyBuffer;
use coreos::paging::PHYSICAL_OFFSET;
use coreos::pmm::PMMState;
use coreos::proc::fd_io::{read_keys, tick_switches, try_switch, WriteRoute};
use coreos::proc::table::ProcTable;
use coreos::proc::task::{TaskState, TaskTable, STACK_BYTES};

fn pmm_with_ram() -> PMMState {
    let mut bi = CoreOS_BootInfo::zeroed();
    bi.mmap[0] = MemMapEntry { physical_start: 0x20_0000, num_pages: 512, mem_type: EFI_CONVENTIONAL_MEMORY, _pad: 0 };
    bi.mmap_count = 1;
    let mut pmm = PMMState::new();
    pmm.init(&bi);
    pmm
}

#[test]
fn tasks_run_round_robin() {
    let mut pmm = pmm_with_ram();
    let mut procs = ProcTable::new();
    let mut tasks = TaskTable::new();
    tasks.init_main_task(0x1000, 0x5000);
    assert_eq!(tasks.current_idx(), 0);
    assert_eq!(tasks.current_task_slot(), Some(0));
    assert_eq!(tasks.current_pml4(0x9000), 0x5000);

    let st = tasks.add_task(&mut pmm, 0xdead_0000, 0x5000).unwrap();
    assert_eq!(st.slot, 1);
    assert_eq!(st.stack_phys, 0x20_0000);
    for f in 0x200..0x204 {
        assert!(!pmm.is_free(f));
    }
    let top = 0x20_0000 + PHYSICAL_OFFSET + STACK_BYTES;
    assert_eq!(st.writes[0], (top - 8, 0xdead_0000));
    assert_eq!(tasks.task_frame_addr(1), Some(top));
    assert_eq!(tasks.task_frame_addr(5), None);

    let sw = tasks.next_task_switch(&mut procs).unwrap();
    assert_eq!(sw.next_slot, 1);
    assert_eq!(sw.save_slot, Some(0));
    assert_eq!(sw.next_rsp, top - 56);
    assert_eq!(sw.next_pml4, 0x5000);
    assert_eq!(sw.next_stack_top, top);
    assert_eq!(sw.fs_base, 0);
    assert_eq!(tasks.current_idx(), 1);
    assert_eq!(tasks.tasks[0].unwrap().state, TaskState::Ready);
    assert_eq!(tasks.tasks[1].unwrap().state, TaskState::Running);

    let back = tasks.next_task_switch(&mut procs).unwrap();
    assert_eq!(back.next_slot, 0);
    assert_eq!(back.save_slot, Some(1));

    // a killed task is dropped when it is switched away from
    let again = tasks.next_task_switch(&mut procs).unwrap();
    assert_eq!(again.next_slot, 1);
    tasks.kill_task(1);
    assert_eq!(tasks.tasks[1].unwrap().state, TaskState::Dead);
    let after = tasks.next_task_switch(&mut procs).unwrap();
    assert_eq!(after.next_slot, 0);
    assert_eq!(after.save_slot, None);
    assert!(tasks.tasks[1].is_none());
    // with no other task ready there is no switch
    assert!(tasks.next_task_switch(&mut procs).is_none());
}

#[test]
fn user_and_forked_tasks() {
    let mut pmm = pmm_with_ram();
    let mut tasks = TaskTable::new();
    tasks.init_main_task(0x1000, 0x5000);
    let st = tasks.spawn_user_task(&mut pmm, 0x40_1000, 0x7FFF_FEF0, 0x8000, 0xffff_ffff_8000_1000).unwrap();
    assert_eq!(st.slot, 1);
    let top = st.stack_phys as u64 + PHYSICAL_OFFSET + STACK_BYTES;
    assert_eq!(st.writes[0], (top - 8, 0x8000));
    assert_eq!(st.writes[1], (top - 16, 0x7FFF_FEF0));
    assert_eq!(st.writes[2], (top - 24, 0x40_1000));
    assert_eq!(st.writes[3], (top - 32, 0xffff_ffff_8000_1000));
    assert_eq!(tasks.tasks[1].unwrap().pml4, 0x8000);
    assert!(tasks.spawn_forked_task(&mut pmm, 0x8000, 0xffff_ffff_8000_2000).is_some());
    assert_eq!(tasks.tasks[2].unwrap().state, TaskState::Ready);
}

#[test]
fn preemption_rule() {
    assert!(tick_switches(10));
    assert!(tick_switches(0));
    assert!(!tick_switches(11));
    let mut procs = ProcTable::new();
    let mut tasks = TaskTable::new();
    tasks.init_main_task(0x1000, 0x5000);
    assert!(try_switch(&mut tasks, &mut procs, true).is_none());
    assert!(try_switch(&mut tasks, &mut procs, false).is_none());
}

#[test]
fn keyboard_bytes_and_write_routes() {
    let mut kbd = KeyBuffer::new();
    for c in "hey".chars() {
        kbd.push(c);
    }
    assert_eq!(read_keys(&mut kbd, 2), b"he".to_vec());
    assert_eq!(read_keys(&mut kbd, 5), b"y".to_vec());
    assert!(read_keys(&mut kbd, 5).is_empty());

    let mut t = ProcTable::new();
    assert_eq!(t.spawn_named(0, 0, 0x1000, &['s', 'h']), 1);
    assert!(matches!(t.write_route(0, 1), WriteRoute::Console));
    assert!(matches!(t.write_route(0, 2), WriteRoute::Console));
    assert!(matches!(t.write_route(0, 0), WriteRoute::Other));
    assert!(matches!(t.write_route(0, 9), WriteRoute::Other));
}
