use coreos::fs::RamFS;
use coreos::proc::fd_io::{ReadOutcome, WriteOutcome};
use coreos::proc::fd_file::{SEEK_CUR, SEEK_END, SEEK_SET};
use coreos::proc::state::FdTarget;
use coreos::proc::table::ProcTable;

fn fs_with_file() -> RamFS {
    let mut fs = RamFS::new();
    let name = ['d', 'a', 't', 'a'];
    assert!(fs.create(&name));
    assert!(fs.append_all(&name, b"hello world"));
    fs
}

fn table() -> ProcTable {
    let mut t = ProcTable::new();
    assert_eq!(t.spawn_named(0, 0, 0x1000, &['s', 'h']), 1);
    t
}

#[test]
fn file_reads_move_the_shared_offset() {
    let fs = fs_with_file();
    let mut t = table();
    let fd = t.open_file(0, 0).unwrap();
    assert_eq!(fd, 3);
    assert_eq!(t.file_size(0, fd, &fs), Some(11));
    match t.read_from_fd(0, fd, 5, &fs) {
        Some(ReadOutcome::Bytes(v)) => assert_eq!(v, b"hello".to_vec()),
        _ => panic!("expected bytes"),
    }
    let dup = t.dup_min(0, fd, 0, false).unwrap();
    assert_eq!(dup, 4);
    match t.read_from_fd(0, dup, 100, &fs) {
        Some(ReadOutcome::Bytes(v)) => assert_eq!(v, b" world".to_vec()),
        _ => panic!("expected bytes"),
    }
    assert_eq!(t.seek(0, fd, 0, SEEK_CUR, &fs), Some(11));
    assert_eq!(t.seek(0, fd, -5, SEEK_END, &fs), Some(6));
    assert_eq!(t.seek(0, fd, -1, SEEK_SET, &fs), None);
    assert_eq!(t.seek(0, fd, 2, 7, &fs), None);
    match t.read_from_fd(0, fd, 3, &fs) {
        Some(ReadOutcome::Bytes(v)) => assert_eq!(v, b"wor".to_vec()),
        _ => panic!("expected bytes"),
    }
    assert!(t.close_fd(0, fd));
    assert!(t.close_fd(0, dup));
    assert!(!t.close_fd(0, dup));
    assert!(t.read_from_fd(0, dup, 1, &fs).is_none());
}

#[test]
fn standard_input_and_devices() {
    let fs = RamFS::new();
    let mut t = table();
    assert!(matches!(t.read_from_fd(0, 0, 4, &fs), Some(ReadOutcome::Keyboard(4))));
    match t.read_from_fd(0, 0, 0, &fs) {
        Some(ReadOutcome::Bytes(v)) => assert!(v.is_empty()),
        _ => panic!("expected nothing read"),
    }
    assert_eq!(t.get_fd_target(0, 1), Some(FdTarget::Stdio(1)));
    assert!(t.is_stdin(0, 0));
    assert!(t.is_stdout_or_stderr(0, 2));
    assert_eq!(t.get_status_flags(0, 0), Some(0));
    assert!(t.read_from_fd(0, 9, 1, &fs).is_none());
}

#[test]
fn open_description_is_changed_through_with_mut() {
    let fs = fs_with_file();
    let mut t = table();
    let fd = t.open_file(0, 0).unwrap();
    let k = t.open_index(0, fd).unwrap();
    let got = t.with_mut(k, |of| {
        of.offset = 6;
        of.status_flags = 0x800;
        of.file_idx
    });
    assert_eq!(got, Some(0));
    assert_eq!(t.get_status_flags(0, fd), Some(0x800));
    match t.read_from_fd(0, fd, 5, &fs) {
        Some(ReadOutcome::Bytes(v)) => assert_eq!(v, b"world".to_vec()),
        _ => panic!("expected bytes"),
    }
    assert_eq!(t.with_mut(31, |of| of.offset), None);
    assert_eq!(t.with_mut(99, |of| of.offset), None);
}

#[test]
fn pipe_reads_through_descriptors() {
    let fs = RamFS::new();
    let mut t = table();
    let (r, w) = t.create_pipe_pair(0).unwrap();
    assert!(matches!(t.read_from_fd(0, r, 4, &fs), Some(ReadOutcome::Wait)));
    assert_eq!(t.write_pipe(0, w, b"abc"), Some(3));
    match t.read_from_fd(0, r, 2, &fs) {
        Some(ReadOutcome::Bytes(v)) => assert_eq!(v, b"ab".to_vec()),
        _ => panic!("expected bytes"),
    }
    assert!(t.read_from_fd(0, w, 1, &fs).is_none());
    assert_eq!(t.peer_closed(0, r), Some(false));
    assert!(t.close_fd(0, w));
    assert_eq!(t.peer_closed(0, r), Some(true));
    match t.read_from_fd(0, r, 8, &fs) {
        Some(ReadOutcome::Bytes(v)) => assert_eq!(v, b"c".to_vec()),
        _ => panic!("expected bytes"),
    }
}

#[test]
fn writes_go_where_the_descriptor_leads() {
    let fs = RamFS::new();
    let mut t = table();
    assert_eq!(t.write_to_fd(0, 1, b"hi"), Some(WriteOutcome::Console(2)));
    assert_eq!(t.write_to_fd(0, 2, b""), Some(WriteOutcome::Console(0)));
    assert_eq!(t.write_to_fd(0, 0, b"x"), None);
    assert_eq!(t.write_to_fd(0, 9, b"x"), None);
    let (r, w) = t.create_pipe_pair(0).unwrap();
    assert_eq!(t.write_to_fd(0, w, b"abc"), Some(WriteOutcome::Taken(3)));
    assert_eq!(t.write_to_fd(0, r, b"abc"), None);
    match t.read_from_fd(0, r, 8, &fs) {
        Some(ReadOutcome::Bytes(v)) => assert_eq!(v, b"abc".to_vec()),
        _ => panic!("expected bytes"),
    }
    assert!(t.close_fd(0, r));
    assert_eq!(t.write_to_fd(0, w, b"abc"), Some(WriteOutcome::Taken(0)));
}
