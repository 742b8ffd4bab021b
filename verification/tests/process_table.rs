use coreos::proc::pipe::PipeReadResult;
use coreos::proc::state::{FdTarget, ProcessState};
use coreos::proc::table::ProcTable;

fn table_with_process() -> ProcTable {
    let mut t = ProcTable::new();
    let pid = t.spawn_named(0, 0, 0x1000, &['s', 'h']);
    assert_eq!(pid, 1);
    t
}

#[test]
fn spawn_sets_up_standard_streams() {
    let t = table_with_process();
    let p = t.processes[0].unwrap();
    assert_eq!(p.pid, 1);
    assert_eq!(p.pgid, 1);
    assert_eq!(p.exe_path_len, 2);
    assert_eq!(&p.exe_path[..2], b"sh");
    assert_eq!(p.fds[0], FdTarget::Stdio(0));
    assert_eq!(p.fds[1], FdTarget::Stdio(1));
    assert_eq!(p.fds[2], FdTarget::Stdio(2));
    assert_eq!(p.fds[3], FdTarget::Empty);
    assert_eq!(t.next_pid, 2);
    assert_eq!(t.current_pid(0), 1);
}

#[test]
fn pipe_round_trip_in_order() {
    let mut t = table_with_process();
    let (r, w) = t.create_pipe_pair(0).unwrap();
    assert_eq!((r, w), (3, 4));
    assert_eq!(t.write_pipe(0, w, &[1, 2, 3, 4, 5]), Some(5));
    match t.read_pipe(0, r, 3) {
        Some(PipeReadResult::Data(v)) => assert_eq!(v, vec![1, 2, 3]),
        _ => panic!("expected data"),
    }
    match t.read_pipe(0, r, 10) {
        Some(PipeReadResult::Data(v)) => assert_eq!(v, vec![4, 5]),
        _ => panic!("expected data"),
    }
    assert!(matches!(t.read_pipe(0, r, 1), Some(PipeReadResult::Wait)));
    assert!(t.close_fd(0, w));
    match t.read_pipe(0, r, 1) {
        Some(PipeReadResult::Data(v)) => assert!(v.is_empty()),
        _ => panic!("expected end of data"),
    }
}

#[test]
fn exit_marks_zombie() {
    let mut t = table_with_process();
    let mut tasks = coreos::proc::task::TaskTable::new();
    assert!(t.exit_thread(0, &mut tasks, 7, false));
    let p = t.processes[0].unwrap();
    assert_eq!(p.state, ProcessState::Zombie);
    assert_eq!(p.exit_code, 7);
    assert_eq!(t.reap_slot(0), Some(7));
    assert!(t.processes[0].is_none());
}
