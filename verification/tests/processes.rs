use coreos::proc::signal::{signal_frame, SignalAction};
use coreos::proc::state::{FdTarget, ProcessState, SigAction, SigSet, FD_CLOEXEC, INITIAL_BRK, MMAP_BASE};
use coreos::proc::table::ProcTable;
use coreos::proc::task::{TaskState, TaskTable};
use coreos::proc::vm::overlaps;

fn table() -> ProcTable {
    let mut t = ProcTable::new();
    assert_eq!(t.spawn_named(0, 0, 0x1000, &['s', 'h']), 1);
    t
}

#[test]
fn process_queries() {
    let mut t = table();
    assert_eq!(t.current_pid(0), 1);
    assert_eq!(t.current_tid(0), 1);
    assert_eq!(t.current_ppid(0), 0);
    assert_eq!(t.current_brk(0), INITIAL_BRK);
    t.set_brk(0, INITIAL_BRK + 0x1000);
    assert_eq!(t.current_brk(0), INITIAL_BRK + 0x1000);
    let (path, len) = t.current_exe_path(0);
    assert_eq!(&path[..len], b"sh");
    assert_eq!(t.current_fs_base(0), 0);
    assert_eq!(t.active_process_count(), 1);
    assert!(t.is_running_in_slot(0));
    assert!(!t.is_running_in_slot(1));
    assert_eq!(t.find_slot_by_pid(1), Some(0));
    assert_eq!(t.find_slot_by_pid(9), None);
    assert_eq!(t.find_thread_slot_by_tid(1), Some(0));
    assert_eq!(t.current_pid(3), 0);
    assert_eq!(t.current_process(0).unwrap().pid, 1);
    assert_eq!(t.current_thread(0).unwrap().tid, 1);
}

#[test]
fn threads_join_their_group() {
    let mut t = table();
    let mut tasks = TaskTable::new();
    let tid = t.spawn_thread_in_group(0, 1, 0x7000, 0x9000);
    assert_eq!(tid, 2);
    assert_eq!(t.processes[0].unwrap().thread_count, 2);
    assert_eq!(t.find_thread_slot_by_tid(2), Some(1));
    assert_eq!(t.current_pid(1), 1);
    assert_eq!(t.current_fs_base(1), 0x9000);
    // one of two threads exiting leaves the process running
    assert!(!t.exit_thread(1, &mut tasks, 5, false));
    assert_eq!(t.processes[0].unwrap().state, ProcessState::Running);
    assert_eq!(t.processes[0].unwrap().thread_count, 1);
    t.task_slot_reaped(1);
    assert!(t.threads[1].is_none());
}

#[test]
fn fork_shares_descriptions() {
    let mut t = table();
    let fd = t.open_file(0, 0).unwrap();
    let k = t.open_index(0, fd).unwrap();
    assert_eq!(t.open_files[k].refs, 1);
    let pid = t.fork_current(0, 2, 0x9000);
    assert_eq!(pid, 2);
    let child = t.processes[2].unwrap();
    assert_eq!(child.parent_pid, 1);
    assert_eq!(child.pml4, 0x9000);
    assert_eq!(child.fds, t.processes[0].unwrap().fds);
    assert_eq!(t.open_files[k].refs, 2);
    let pid2 = t.spawn(0, 3, 0x9000);
    assert_eq!(pid2, 3);
    assert_eq!(t.processes[3].unwrap().exe_path_len, 0);
    assert_eq!(t.active_process_count(), 3);
}

#[test]
fn descriptor_flags_and_duplicates() {
    let mut t = table();
    assert!(t.set_cloexec(0, 1, true));
    assert_eq!(t.get_fd_flags(0, 1), Some(FD_CLOEXEC));
    assert!(t.set_cloexec(0, 1, false));
    assert_eq!(t.get_fd_flags(0, 1), Some(0));
    assert!(!t.set_cloexec(0, 9, true));
    assert!(!t.fd_exists(0, 5));
    assert_eq!(t.dup_exact(0, 0, 7, true), Some(7));
    assert_eq!(t.get_fd_target(0, 7), Some(FdTarget::Stdio(0)));
    assert_eq!(t.get_fd_flags(0, 7), Some(FD_CLOEXEC));
    assert_eq!(t.dup_exact(0, 5, 8, false), None);
    assert_eq!(t.dup_exact(0, 0, 16, false), None);
    assert_eq!(t.dup_fd(0, 1, 4, None, false), 4);
    assert_eq!(t.dup_fd(0, 9, 4, None, false), -1);
    assert!(t.close_descriptor(0, 2));
    assert!(!t.fd_exists(0, 2));
    assert_eq!(t.dup_min(0, 1, 0, false), Some(2));
}

#[test]
fn address_space_regions() {
    let mut t = table();
    assert!(t.alloc_vma(0, 0x1000_0000, 0x2000, 3, 0));
    assert!(t.region_conflicts(0, 0x1000_1000, 0x10));
    assert!(!t.region_conflicts(0, 0x1000_2000, 0x10));
    assert!(t.region_conflicts(5, 0x2000_0000, 0x10));
    assert_eq!(t.find_vma_exact_mut(0, 0x1000_0000, 0x2000), Some(0));
    assert_eq!(t.find_vma_exact_mut(0, 0x1000_0000, 0x1000), None);
    assert_eq!(t.current_group(0), Some(0));
    assert_eq!(t.reserve_mmap_base(0, 0x1800), Some(MMAP_BASE));
    assert_eq!(t.reserve_mmap_base(0, 0x10), Some(MMAP_BASE + 0x2000));
    assert_eq!(t.reserve_mmap_base(4, 0x10), None);
    assert!(overlaps(0, 10, 5, 10));
    assert!(!overlaps(0, 5, 5, 5));
    assert!(overlaps(usize::MAX - 10, 10, usize::MAX - 5, 100));
    assert!(!overlaps(usize::MAX - 1, 10, usize::MAX, 1));
}

#[test]
fn signals_end_ignore_or_deliver() {
    let mut t = table();
    let mut tasks = TaskTable::new();
    tasks.init_main_task(0x1000, 0x5000);
    assert!(matches!(t.check_signals(0, &mut tasks), SignalAction::Nothing));

    // a pending SIGUSR1 with a handler is delivered
    let mut p = t.processes[0].unwrap();
    p.sig_handlers[10].handler = 0x40_2000;
    p.sig_pending.bits[0] |= 1 << 9;
    t.processes[0] = Some(p);
    match t.check_signals(0, &mut tasks) {
        SignalAction::Deliver(sig, act) => {
            assert_eq!(sig, 10);
            assert_eq!(act.handler, 0x40_2000);
        }
        _ => panic!("expected a delivery"),
    }
    assert_eq!(t.processes[0].unwrap().sig_pending.bits[0], 0);

    // an ignored one is dropped
    let mut p = t.processes[0].unwrap();
    p.sig_handlers[12].handler = 1;
    p.sig_pending.bits[0] |= 1 << 11;
    t.processes[0] = Some(p);
    assert!(matches!(t.check_signals(0, &mut tasks), SignalAction::Ignored(12)));

    // SIGTERM by default ends the process
    let mut p = t.processes[0].unwrap();
    p.sig_pending.bits[0] |= 1 << 14;
    t.processes[0] = Some(p);
    assert!(matches!(t.check_signals(0, &mut tasks), SignalAction::Terminated(15)));
    let p = t.processes[0].unwrap();
    assert_eq!(p.state, ProcessState::Zombie);
    assert_eq!(p.exit_code, (128 + 15) << 8);
    assert_eq!(tasks.tasks[0].unwrap().state, TaskState::Dead);
}

#[test]
fn handler_frame_layout() {
    let plain = SigAction { handler: 0x40_2000, flags: 0, restorer: 0, mask: SigSet::empty() };
    let f = signal_frame(0x7FFF_F000, &plain);
    assert_eq!(f.frame_at, 0x7FFF_EF08);
    assert_eq!(f.restorer_at, None);
    assert_eq!(f.new_rsp, 0x7FFF_EF08);
    let with_restorer = SigAction { restorer: 0x40_3000, ..plain };
    let f = signal_frame(0x7FFF_F00C, &with_restorer);
    assert_eq!(f.frame_at, 0x7FFF_EF08);
    assert_eq!(f.restorer_at, Some(0x7FFF_EF00));
    assert_eq!(f.new_rsp, 0x7FFF_EF00);
}
