//! The process and thread data model.
use vstd::prelude::*;

verus! {

/// Max file descriptors per process, including stdin/stdout/stderr.
pub const MAX_FDS: usize = 16;
pub const MAX_OPEN_FILES: usize = 32;
pub const MAX_PIPES: usize = 16;
pub const MAX_VMAS: usize = 32;
pub const MAX_PROCS: usize = 8;
pub const EXE_PATH_MAX: usize = 64;
/// First address handed out for anonymous mappings (a 64-bit address, hence `u64`).
pub const MMAP_BASE: u64 = 0x0000_0001_0000_0000;
pub const INITIAL_BRK: usize = 0x4000_0000;
pub const DEFAULT_UMASK: u32 = 0o022;
pub const FD_CLOEXEC: u32 = 1;
pub const O_ACCMODE: u32 = 0o3;
pub const O_RDONLY: u32 = 0o0;
pub const O_WRONLY: u32 = 0o1;
pub const O_RDWR: u32 = 0o2;
pub const O_CREAT: u32 = 0o100;
pub const O_EXCL: u32 = 0o200;
pub const O_TRUNC: u32 = 0o1000;
pub const O_APPEND: u32 = 0o2000;
pub const O_NONBLOCK: u32 = 0o4000;
pub const PIPE_CAPACITY: usize = 1024;
pub const SIG_WORDS: usize = 16;
pub const NSIG: usize = 65;
pub const SS_DISABLE: i32 = 2;

/// A set of signals, one bit per signal number minus one.
#[derive(Clone, Copy)]
pub struct SigSet {
    pub bits: [u64; 16],
}

impl SigSet {
    /// No signals.
    pub fn empty() -> (s: Self)
        ensures
            forall|i: int| 0 <= i < 16 ==> #[trigger] s.bits[i] == 0,
    {
        SigSet { bits: [0u64; 16] }
    }
}

/// A signal disposition: handler 0 is the default action, 1 ignores the signal.
#[derive(Clone, Copy)]
pub struct SigAction {
    pub handler: u64,
    pub flags: u64,
    pub restorer: u64,
    pub mask: SigSet,
}

impl SigAction {
    /// The default disposition with no handler, flags or mask.
    pub fn empty() -> (a: Self)
        ensures
            a.handler == 0 && a.flags == 0 && a.restorer == 0,
            forall|i: int| 0 <= i < 16 ==> #[trigger] a.mask.bits[i] == 0,
    {
        SigAction { handler: 0, flags: 0, restorer: 0, mask: SigSet::empty() }
    }
}

/// An alternate signal stack description.
#[derive(Clone, Copy)]
pub struct StackT {
    pub ss_sp: u64,
    pub ss_flags: i32,
    pub ss_size: usize,
}

impl StackT {
    /// No alternate signal stack.
    pub fn disabled() -> (s: Self)
        ensures
            s.ss_sp == 0 && s.ss_flags == SS_DISABLE && s.ss_size == 0,
    {
        StackT { ss_sp: 0, ss_flags: SS_DISABLE, ss_size: 0 }
    }
}

/// A shared open file description pointing into the RAM file system.
#[derive(Clone, Copy)]
pub struct OpenFile {
    /// Index into the file system's file list.
    pub file_idx: usize,
    /// Read/write cursor in bytes.
    pub offset: usize,
    /// Open-file status flags shared by duplicated descriptors.
    pub status_flags: u32,
    /// Number of file descriptors that reference this open-file description.
    pub refs: usize,
    pub in_use: bool,
}

impl OpenFile {
    /// An unused open-file description.
    pub fn empty() -> (o: Self)
        ensures
            o.file_idx == 0 && o.offset == 0 && o.status_flags == 0 && o.refs == 0 && !o.in_use,
    {
        OpenFile { file_idx: 0, offset: 0, status_flags: 0, refs: 0, in_use: false }
    }

    /// An open-file description of file `file_idx` at offset 0, referenced once.
    pub fn new(file_idx: usize, status_flags: u32) -> (o: Self)
        ensures
            o.file_idx == file_idx && o.offset == 0 && o.status_flags == status_flags,
            o.refs == 1 && o.in_use,
    {
        OpenFile { file_idx, offset: 0, status_flags, refs: 1, in_use: true }
    }
}

/// What a file descriptor refers to.
#[derive(Clone, Copy, PartialEq, Eq, Structural, Debug)]
pub enum FdTarget {
    Empty,
    Stdio(u8),
    Tty,
    Null,
    Zero,
    Open(usize),
    PipeRead(usize),
    PipeWrite(usize),
}

/// What `fstat`-like callers learn of a descriptor.
#[derive(Clone, Copy, PartialEq, Eq, Structural, Debug)]
pub enum DescriptorInfo {
    Stdio { index: u8 },
    CharDevice,
    File { file_idx: usize, size: usize },
    Pipe,
}

/// A pipe: a ring buffer with reference counts for its two ends.
#[derive(Clone, Copy)]
pub struct Pipe {
    pub buf: [u8; 1024],
    pub read_pos: usize,
    pub write_pos: usize,
    pub len: usize,
    pub read_refs: usize,
    pub write_refs: usize,
    pub read_flags: u32,
    pub write_flags: u32,
    pub in_use: bool,
}

impl Pipe {
    /// An unused pipe.
    pub fn empty() -> (p: Self)
        ensures
            p.read_pos == 0 && p.write_pos == 0 && p.len == 0,
            p.read_refs == 0 && p.write_refs == 0,
            p.read_flags == 0 && p.write_flags == 0,
            !p.in_use,
            forall|i: int| 0 <= i < 1024 ==> #[trigger] p.buf[i] == 0,
    {
        Pipe {
            buf: [0u8; 1024],
            read_pos: 0,
            write_pos: 0,
            len: 0,
            read_refs: 0,
            write_refs: 0,
            read_flags: 0,
            write_flags: 0,
            in_use: false,
        }
    }

    /// A new pipe in use, empty, with one read end and one write end.
    pub fn new() -> (p: Self)
        ensures
            p.read_pos == 0 && p.write_pos == 0 && p.len == 0,
            p.read_refs == 1 && p.write_refs == 1,
            p.read_flags == 0 && p.write_flags == 0,
            p.in_use,
    {
        Pipe {
            buf: [0u8; 1024],
            read_pos: 0,
            write_pos: 0,
            len: 0,
            read_refs: 1,
            write_refs: 1,
            read_flags: 0,
            write_flags: 0,
            in_use: true,
        }
    }
}

/// A mapped virtual-memory region of a process.
#[derive(Clone, Copy)]
pub struct VmRegion {
    pub start: usize,
    pub len: usize,
    pub prot: u32,
    pub flags: u32,
    pub in_use: bool,
}

impl VmRegion {
    /// An unused region.
    pub fn empty() -> (v: Self)
        ensures
            v.start == 0 && v.len == 0 && v.prot == 0 && v.flags == 0 && !v.in_use,
    {
        VmRegion { start: 0, len: 0, prot: 0, flags: 0, in_use: false }
    }

    /// A region in use.
    pub fn new(start: usize, len: usize, prot: u32, flags: u32) -> (v: Self)
        ensures
            v.start == start && v.len == len && v.prot == prot && v.flags == flags && v.in_use,
    {
        VmRegion { start, len, prot, flags, in_use: true }
    }
}

#[derive(Clone, Copy, PartialEq, Eq, Structural, Debug)]
pub enum ProcessState {
    /// Alive and scheduled.
    Running,
    /// Exited and waiting to be reaped.
    Zombie,
}

#[derive(Clone, Copy, PartialEq, Eq, Structural, Debug)]
pub enum ThreadState {
    Running,
    Zombie,
}

#[derive(Clone, Copy)]
pub struct Thread {
    pub tid: usize,
    pub parent_tid: usize,
    pub group_slot: usize,
    pub task_slot: usize,
    pub state: ThreadState,
    pub clear_child_tid: u64,
    pub fs_base: u64,
    pub sig_pending: SigSet,
    pub sig_mask: SigSet,
    pub saved_sig_mask: SigSet,
    pub sig_altstack: StackT,
    pub in_signal_handler: bool,
    pub on_altstack: bool,
    pub robust_list_head: u64,
    pub robust_list_len: usize,
}

pub open spec fn sigset_empty(s: SigSet) -> bool {
    forall|i: int| 0 <= i < 16 ==> #[trigger] s.bits[i] == 0
}

/// A fresh thread record: running, no signals pending, alternate stack disabled.
pub open spec fn thread_fresh(t: Thread) -> bool {
    &&& t.state == ThreadState::Running
    &&& sigset_empty(t.sig_pending)
    &&& sigset_empty(t.saved_sig_mask)
    &&& t.sig_altstack.ss_flags == SS_DISABLE && t.sig_altstack.ss_sp == 0 && t.sig_altstack.ss_size == 0
    &&& !t.in_signal_handler && !t.on_altstack
    &&& t.robust_list_head == 0 && t.robust_list_len == 0
}

impl Thread {
    /// The first thread of a new process.
    pub fn new_leader(tid: usize, parent_tid: usize, group_slot: usize, task_slot: usize) -> (t: Self)
        ensures
            t.tid == tid && t.parent_tid == parent_tid,
            t.group_slot == group_slot && t.task_slot == task_slot,
            thread_fresh(t),
            t.clear_child_tid == 0 && t.fs_base == 0,
            sigset_empty(t.sig_mask),
    {
        Thread {
            tid,
            parent_tid,
            group_slot,
            task_slot,
            state: ThreadState::Running,
            clear_child_tid: 0,
            fs_base: 0,
            sig_pending: SigSet::empty(),
            sig_mask: SigSet::empty(),
            saved_sig_mask: SigSet::empty(),
            sig_altstack: StackT::disabled(),
            in_signal_handler: false,
            on_altstack: false,
            robust_list_head: 0,
            robust_list_len: 0,
        }
    }

    /// A thread that joins an existing thread group.
    pub fn new_group_member(
        tid: usize,
        parent_tid: usize,
        group_slot: usize,
        task_slot: usize,
        clear_child_tid: u64,
        fs_base: u64,
        sig_mask: SigSet,
    ) -> (t: Self)
        ensures
            t.tid == tid && t.parent_tid == parent_tid,
            t.group_slot == group_slot && t.task_slot == task_slot,
            thread_fresh(t),
            t.clear_child_tid == clear_child_tid && t.fs_base == fs_base,
            t.sig_mask == sig_mask,
    {
        Thread {
            tid,
            parent_tid,
            group_slot,
            task_slot,
            state: ThreadState::Running,
            clear_child_tid,
            fs_base,
            sig_pending: SigSet::empty(),
            sig_mask,
            saved_sig_mask: SigSet::empty(),
            sig_altstack: StackT::disabled(),
            in_signal_handler: false,
            on_altstack: false,
            robust_list_head: 0,
            robust_list_len: 0,
        }
    }
}

#[derive(Clone, Copy)]
pub struct Process {
    pub pid: usize,
    pub parent_pid: usize,
    pub pgid: usize,
    pub sid: usize,
    pub state: ProcessState,
    pub thread_count: usize,
    pub exit_code: i64,
    pub uid: u32,
    pub euid: u32,
    pub gid: u32,
    pub egid: u32,
    pub umask: u32,
    pub exe_path: [u8; 64],
    pub exe_path_len: usize,
    pub program_break: usize,
    pub next_mmap_base: u64,
    pub pml4: usize,
    pub sig_handlers: [SigAction; 65],
    pub sig_pending: SigSet,
    /// Per-process file descriptor table. Descriptors `0..=2` start as stdio.
    pub fds: [FdTarget; 16],
    pub fd_flags: [u32; 16],
    pub vmas: [VmRegion; 32],
}

/// The descriptor table of a new process: stdin, stdout and stderr, the rest empty.
pub open spec fn default_fds_spec() -> Seq<FdTarget> {
    Seq::new(16, |i: int| if i < 3 { FdTarget::Stdio(i as u8) } else { FdTarget::Empty })
}

/// The bytes of `name`, each character truncated to its low byte, at most `EXE_PATH_MAX` of them.
pub open spec fn exe_path_of(name: Seq<char>) -> Seq<u8> {
    Seq::new(
        if name.len() < EXE_PATH_MAX { name.len() } else { EXE_PATH_MAX as nat },
        |i: int| name[i] as u32 as u8,
    )
}

/// The descriptor table of a new process.
pub fn default_fds() -> (fds: [FdTarget; 16])
    ensures
        fds@ == default_fds_spec(),
{
    let mut fds = [FdTarget::Empty; 16];
    fds[0] = FdTarget::Stdio(0);
    fds[1] = FdTarget::Stdio(1);
    fds[2] = FdTarget::Stdio(2);
    assert(fds@ =~= default_fds_spec());
    fds
}

/// The descriptor flags of a new process: none set.
pub fn default_fd_flags() -> (flags: [u32; 16])
    ensures
        forall|i: int| 0 <= i < 16 ==> #[trigger] flags[i] == 0,
{
    [0u32; 16]
}

/// Copy a program name into a fixed path buffer, truncating to `EXE_PATH_MAX` bytes.
pub fn exe_path_from_name(name: &[char]) -> (r: ([u8; 64], usize))
    ensures
        r.1 == exe_path_of(name@).len(),
        r.0@.subrange(0, r.1 as int) == exe_path_of(name@),
        forall|i: int| r.1 <= i < 64 ==> #[trigger] r.0[i] == 0,
{
    let mut exe_path = [0u8; 64];
    let exe_path_len = if name.len() < EXE_PATH_MAX { name.len() } else { EXE_PATH_MAX };
    let mut idx: usize = 0;
    while idx < exe_path_len
        invariant
            idx <= exe_path_len <= 64,
            exe_path_len <= name@.len(),
            exe_path_len == exe_path_of(name@).len(),
            forall|i: int| 0 <= i < idx ==> #[trigger] exe_path[i] == name@[i] as u32 as u8,
            forall|i: int| idx <= i < 64 ==> #[trigger] exe_path[i] == 0,
        decreases exe_path_len - idx,
    {
        let ch = name[idx];
        exe_path[idx] = (ch as u32) as u8;
        idx = idx + 1;
    }
    assert(exe_path@.subrange(0, exe_path_len as int) =~= exe_path_of(name@));
    (exe_path, exe_path_len)
}

/// A signal disposition with no handler, flags, restorer or mask.
pub open spec fn sigaction_empty(a: SigAction) -> bool {
    a.handler == 0 && a.flags == 0 && a.restorer == 0 && sigset_empty(a.mask)
}

/// A process record just created as the leader of a new thread group.
pub open spec fn fresh_leader(p: Process, pid: usize, parent_pid: usize, name: Seq<char>) -> bool {
    &&& p.pid == pid && p.parent_pid == parent_pid && p.pgid == pid && p.sid == pid
    &&& p.state == ProcessState::Running && p.thread_count == 1 && p.exit_code == 0
    &&& p.uid == 0 && p.euid == 0 && p.gid == 0 && p.egid == 0 && p.umask == DEFAULT_UMASK
    &&& p.exe_path_len == exe_path_of(name).len()
    &&& p.exe_path@.subrange(0, p.exe_path_len as int) == exe_path_of(name)
    &&& forall|i: int| p.exe_path_len <= i < 64 ==> #[trigger] p.exe_path[i] == 0
    &&& p.program_break == INITIAL_BRK && p.next_mmap_base == MMAP_BASE
    &&& forall|i: int| 0 <= i < 65 ==> sigaction_empty(#[trigger] p.sig_handlers[i])
    &&& sigset_empty(p.sig_pending)
    &&& p.fds@ == default_fds_spec()
    &&& forall|i: int| 0 <= i < 16 ==> #[trigger] p.fd_flags[i] == 0
    &&& forall|i: int| 0 <= i < 32 ==> !(#[trigger] p.vmas[i]).in_use
}

impl Process {
    /// The first process record of a newly spawned thread group.
    pub fn new_leader(pid: usize, parent_pid: usize, name: &[char]) -> (p: Self)
        ensures
            fresh_leader(p, pid, parent_pid, name@),
            p.pml4 == 0,
    {
        let (exe_path, exe_path_len) = exe_path_from_name(name);
        Process {
            pid,
            parent_pid,
            pgid: pid,
            sid: pid,
            state: ProcessState::Running,
            thread_count: 1,
            exit_code: 0,
            uid: 0,
            euid: 0,
            gid: 0,
            egid: 0,
            umask: DEFAULT_UMASK,
            exe_path,
            exe_path_len,
            program_break: INITIAL_BRK,
            next_mmap_base: MMAP_BASE,
            pml4: 0,
            sig_handlers: [SigAction::empty(); 65],
            sig_pending: SigSet::empty(),
            fds: default_fds(),
            fd_flags: default_fd_flags(),
            vmas: [VmRegion::empty(); 32],
        }
    }

    /// The child's copy of the process-visible state at `fork`.
    pub fn fork_from(parent: &Self, pid: usize) -> (p: Self)
        ensures
            p.pid == pid && p.parent_pid == parent.pid,
            p.pgid == parent.pgid && p.sid == parent.sid,
            p.state == ProcessState::Running && p.thread_count == 1 && p.exit_code == 0,
            p.uid == parent.uid && p.euid == parent.euid && p.gid == parent.gid && p.egid == parent.egid,
            p.umask == parent.umask,
            p.exe_path == parent.exe_path && p.exe_path_len == parent.exe_path_len,
            p.program_break == parent.program_break && p.next_mmap_base == parent.next_mmap_base,
            p.pml4 == parent.pml4,
            p.sig_handlers == parent.sig_handlers,
            sigset_empty(p.sig_pending),
            p.fds == parent.fds && p.fd_flags == parent.fd_flags && p.vmas == parent.vmas,
    {
        Process {
            pid,
            parent_pid: parent.pid,
            pgid: parent.pgid,
            sid: parent.sid,
            state: ProcessState::Running,
            thread_count: 1,
            exit_code: 0,
            uid: parent.uid,
            euid: parent.euid,
            gid: parent.gid,
            egid: parent.egid,
            umask: parent.umask,
            exe_path: parent.exe_path,
            exe_path_len: parent.exe_path_len,
            program_break: parent.program_break,
            next_mmap_base: parent.next_mmap_base,
            pml4: parent.pml4,
            sig_handlers: parent.sig_handlers,
            sig_pending: SigSet::empty(),
            fds: parent.fds,
            fd_flags: parent.fd_flags,
            vmas: parent.vmas,
        }
    }
}

} // verus!
