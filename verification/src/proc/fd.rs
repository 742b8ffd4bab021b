//! Per-process file descriptors over the shared open-file and pipe tables.
use vstd::prelude::*;
use super::state::{FD_CLOEXEC, ProcessState, sigset_empty, FdTarget, OpenFile, Pipe, Process, Thread, MAX_FDS, MAX_OPEN_FILES, MAX_PIPES, MAX_PROCS, PIPE_CAPACITY};
use super::table::{ProcTable, table_count, fd_count, lemma_fd_count_first, target_in_range, pipe_wf, lemma_fd_count_update, lemma_table_count_update, lemma_table_count_pos, lemma_table_count_le, lemma_fd_count_le};

verus! {

/// An open-file description after one reference to it is dropped.
pub open spec fn released_open(o: OpenFile) -> OpenFile {
    if o.refs > 1 {
        OpenFile { refs: (o.refs - 1) as usize, ..o }
    } else {
        OpenFile { file_idx: 0, offset: 0, status_flags: 0, refs: 0, in_use: false }
    }
}

/// The empty pipe slot.
pub open spec fn empty_pipe(p: Pipe) -> bool {
    &&& p.read_pos == 0 && p.write_pos == 0 && p.len == 0
    &&& p.read_refs == 0 && p.write_refs == 0 && p.read_flags == 0 && p.write_flags == 0
    &&& !p.in_use
}

/// A pipe after one reference to its read end (`read`) or write end is dropped.
pub open spec fn released_pipe(old_p: Pipe, new_p: Pipe, read: bool) -> bool {
    let r = if read && old_p.read_refs > 0 { old_p.read_refs - 1 } else { old_p.read_refs as int };
    let w = if !read && old_p.write_refs > 0 { old_p.write_refs - 1 } else { old_p.write_refs as int };
    if r == 0 && w == 0 {
        empty_pipe(new_p)
    } else {
        new_p == Pipe { read_refs: r as usize, write_refs: w as usize, ..old_p }
    }
}

/// The open-file and pipe tables after dropping one reference to `t`; the thread
/// table and the identifier counter are unchanged.
pub open spec fn released(old_t: ProcTable, new_t: ProcTable, t: FdTarget) -> bool {
    &&& new_t.threads == old_t.threads
    &&& new_t.next_pid == old_t.next_pid
    &&& match t {
        FdTarget::Open(k) => {
            &&& new_t.pipes == old_t.pipes
            &&& if k < MAX_OPEN_FILES && old_t.open_files[k as int].in_use {
                new_t.open_files@ == old_t.open_files@.update(k as int, released_open(old_t.open_files[k as int]))
            } else {
                new_t.open_files == old_t.open_files
            }
        },
        FdTarget::PipeRead(k) | FdTarget::PipeWrite(k) => {
            &&& new_t.open_files == old_t.open_files
            &&& if k < MAX_PIPES && old_t.pipes[k as int].in_use {
                &&& released_pipe(old_t.pipes[k as int], new_t.pipes[k as int], t is PipeRead)
                &&& forall|j: int| 0 <= j < MAX_PIPES && j != k ==> new_t.pipes[j] == old_t.pipes[j]
            } else {
                new_t.pipes == old_t.pipes
            }
        },
        _ => new_t.open_files == old_t.open_files && new_t.pipes == old_t.pipes,
    }
}

/// `q` is `p` with nothing changed but its descriptor table and descriptor flags.
pub open spec fn same_but_fds(p: Process, q: Process) -> bool {
    &&& q.pid == p.pid && q.parent_pid == p.parent_pid && q.pgid == p.pgid && q.sid == p.sid
    &&& q.state == p.state && q.thread_count == p.thread_count && q.exit_code == p.exit_code
    &&& q.uid == p.uid && q.euid == p.euid && q.gid == p.gid && q.egid == p.egid && q.umask == p.umask
    &&& q.exe_path == p.exe_path && q.exe_path_len == p.exe_path_len
    &&& q.program_break == p.program_break && q.next_mmap_base == p.next_mmap_base && q.pml4 == p.pml4
    &&& q.sig_handlers == p.sig_handlers && q.sig_pending == p.sig_pending
    &&& q.vmas == p.vmas
}

/// `q` is `p` with descriptor `i` set to `t` and its flags to `flags`.
pub open spec fn with_fd(p: Process, q: Process, i: int, t: FdTarget, flags: u32) -> bool {
    &&& same_but_fds(p, q)
    &&& q.fds@ == p.fds@.update(i, t)
    &&& q.fd_flags@ == p.fd_flags@.update(i, flags)
}

/// Only reference counts (and the release of unreferenced slots) changed between
/// two open-file and pipe tables; the thread table and identifier counter are unchanged.
pub open spec fn refs_only(old_t: ProcTable, new_t: ProcTable) -> bool {
    &&& new_t.threads == old_t.threads
    &&& new_t.next_pid == old_t.next_pid
    &&& forall|k: int| 0 <= k < MAX_OPEN_FILES && (#[trigger] new_t.open_files[k]).in_use ==> {
        &&& old_t.open_files[k].in_use
        &&& new_t.open_files[k].file_idx == old_t.open_files[k].file_idx
        &&& new_t.open_files[k].offset == old_t.open_files[k].offset
        &&& new_t.open_files[k].status_flags == old_t.open_files[k].status_flags
    }
    &&& forall|k: int| 0 <= k < MAX_PIPES && (#[trigger] new_t.pipes[k]).in_use ==> {
        &&& old_t.pipes[k].in_use
        &&& new_t.pipes[k].buf == old_t.pipes[k].buf
        &&& new_t.pipes[k].read_pos == old_t.pipes[k].read_pos
        &&& new_t.pipes[k].write_pos == old_t.pipes[k].write_pos
        &&& new_t.pipes[k].len == old_t.pipes[k].len
        &&& new_t.pipes[k].read_flags == old_t.pipes[k].read_flags
        &&& new_t.pipes[k].write_flags == old_t.pipes[k].write_flags
    }
}

/// Process slot `s` of `new_t` is that of `old_t` with descriptor `i` set to `t`
/// (flags `flags`); other slots are unchanged.
pub open spec fn fd_set_in(old_t: ProcTable, new_t: ProcTable, s: int, i: int, t: FdTarget, flags: u32) -> bool {
    &&& old_t.processes[s] is Some
    &&& new_t.processes[s] is Some
    &&& with_fd(old_t.processes[s]->0, new_t.processes[s]->0, i, t, flags)
    &&& forall|j: int| 0 <= j < MAX_PROCS && j != s ==> new_t.processes[j] == old_t.processes[j]
}

/// The descriptor of the current process (task slot `cur`), if any.
pub open spec fn fd_target_of(t: ProcTable, cur: int, fd: int) -> Option<FdTarget> {
    if t.processes[cur] is Some && 0 <= fd < MAX_FDS && t.processes[cur]->0.fds[fd] != FdTarget::Empty {
        Some(t.processes[cur]->0.fds[fd])
    } else {
        None
    }
}

/// The lowest empty descriptor at or above `min` in `fds`, if any.
pub open spec fn first_empty_from(fds: Seq<FdTarget>, min: int) -> Option<int> {
    if exists|i: int| min <= i < fds.len() && fds[i] == FdTarget::Empty {
        Some(choose|i: int| min <= i < fds.len() && fds[i] == FdTarget::Empty
            && forall|j: int| min <= j < i ==> fds[j] != FdTarget::Empty)
    } else {
        None
    }
}

proof fn lemma_set_fd_count(procs: Seq<Option<Process>>, s: int, i: int, v: FdTarget, np: Process, t: FdTarget)
    requires
        0 <= s < procs.len(),
        procs[s] is Some,
        0 <= i < 16,
        np.fds@ == procs[s]->0.fds@.update(i, v),
    ensures
        table_count(procs.update(s, Some(np)), t)
            + (if procs[s]->0.fds[i] == t { 1int } else { 0int })
            == table_count(procs, t) + (if v == t { 1int } else { 0int }),
{
    let p = procs[s]->0;
    lemma_fd_count_update(p.fds@, i, v, t);
    lemma_table_count_update(procs, s, Some(np), t);
}

impl ProcTable {
    /// Drop one reference to `target`: an open-file description loses a reference
    /// and is freed with its last one; a pipe end likewise, and the pipe is freed
    /// when neither end is referenced.
    fn release_fd_target(&mut self, target: FdTarget, Ghost(extra): Ghost<Seq<FdTarget>>)
        requires
            old(self).extra_ok(extra),
            extra.len() >= 1,
            extra[0] == target,
        ensures
            final(self).extra_ok(extra.drop_first()),
            final(self).processes == old(self).processes,
            released(*old(self), *final(self), target),
    {
        let ghost rest = extra.drop_first();
        proof {
            assert forall|t: FdTarget| #[trigger] fd_count(extra, t) == fd_count(rest, t) + if target == t { 1nat } else { 0nat } by {
                lemma_fd_count_first(extra, t);
            }
            assert(target_in_range(extra[0]));
            assert forall|i: int| 0 <= i < rest.len() implies target_in_range(#[trigger] rest[i]) by {
                assert(target_in_range(extra[i + 1]));
            }
        }
        match target {
            FdTarget::Open(k) => {
                assert(old(self).open_ok_with(k as int, extra));
                if k < MAX_OPEN_FILES && self.open_files[k].in_use {
                    let of = self.open_files[k];
                    if of.refs > 1 {
                        self.open_files[k] = OpenFile { refs: of.refs - 1, ..of };
                    } else {
                        self.open_files[k] = OpenFile::empty();
                    }
                }
                proof {
                    assert forall|j: int| 0 <= j < MAX_OPEN_FILES implies #[trigger] self.open_ok_with(j, rest) by {
                        assert(old(self).open_ok_with(j, extra));
                    }
                    assert forall|j: int| 0 <= j < MAX_PIPES implies #[trigger] self.pipe_ok_with(j, rest) by {
                        assert(old(self).pipe_ok_with(j, extra));
                    }
                }
            },
            FdTarget::PipeRead(k) | FdTarget::PipeWrite(k) => {
                assert(old(self).pipe_ok_with(k as int, extra));
                let is_read = match target { FdTarget::PipeRead(_) => true, _ => false };
                if k < MAX_PIPES && self.pipes[k].in_use {
                    let mut pipe = self.pipes[k];
                    if is_read {
                        if pipe.read_refs > 0 {
                            pipe.read_refs = pipe.read_refs - 1;
                        }
                    } else {
                        if pipe.write_refs > 0 {
                            pipe.write_refs = pipe.write_refs - 1;
                        }
                    }
                    if pipe.read_refs == 0 && pipe.write_refs == 0 {
                        pipe = Pipe::empty();
                    }
                    self.pipes[k] = pipe;
                }
                proof {
                    assert forall|j: int| 0 <= j < MAX_OPEN_FILES implies #[trigger] self.open_ok_with(j, rest) by {
                        assert(old(self).open_ok_with(j, extra));
                    }
                    assert forall|j: int| 0 <= j < MAX_PIPES implies #[trigger] self.pipe_ok_with(j, rest) by {
                        assert(old(self).pipe_ok_with(j, extra));
                    }
                }
            },
            _ => {
                proof {
                    assert forall|j: int| 0 <= j < MAX_OPEN_FILES implies #[trigger] self.open_ok_with(j, rest) by {
                        assert(old(self).open_ok_with(j, extra));
                    }
                    assert forall|j: int| 0 <= j < MAX_PIPES implies #[trigger] self.pipe_ok_with(j, rest) by {
                        assert(old(self).pipe_ok_with(j, extra));
                    }
                }
            },
        }
    }

    /// Set descriptor `i` of process slot `s` to `t` with flags `flags`, without
    /// touching reference counts: the descriptor's old target joins `extra` and
    /// `t` leaves it.
    proof fn lemma_swap_fd(old_t: ProcTable, new_t: ProcTable, s: int, i: int, t: FdTarget, flags: u32,
        extra: Seq<FdTarget>, new_extra: Seq<FdTarget>)
        requires
            old_t.extra_ok(extra),
            0 <= s < MAX_PROCS,
            0 <= i < MAX_FDS,
            fd_set_in(old_t, new_t, s, i, t, flags),
            new_t.open_files == old_t.open_files,
            new_t.pipes == old_t.pipes,
            new_t.threads == old_t.threads,
            target_in_range(t),
            forall|x: FdTarget| (x is Open || x is PipeRead || x is PipeWrite) ==> #[trigger] fd_count(new_extra, x) + (if t == x { 1int } else { 0int })
                == fd_count(extra, x) + (if old_t.processes[s]->0.fds[i] == x { 1int } else { 0int }),
            forall|j: int| 0 <= j < new_extra.len() ==> target_in_range(#[trigger] new_extra[j]),
        ensures
            new_t.extra_ok(new_extra),
    {
        let op = old_t.processes[s]->0;
        let np = new_t.processes[s]->0;
        assert(new_t.processes@ =~= old_t.processes@.update(s, Some(np)));
        assert forall|x: FdTarget| #[trigger] table_count(new_t.processes@, x) + (if op.fds[i] == x { 1int } else { 0int })
            == table_count(old_t.processes@, x) + (if t == x { 1int } else { 0int }) by {
            lemma_set_fd_count(old_t.processes@, s, i, t, np, x);
        }
        assert forall|k: int| 0 <= k < MAX_OPEN_FILES implies #[trigger] new_t.open_ok_with(k, new_extra) by {
            let x = FdTarget::Open(k as usize);
            assert(table_count(new_t.processes@, x) + (if op.fds[i] == x { 1int } else { 0int })
                == table_count(old_t.processes@, x) + (if t == x { 1int } else { 0int }));
            assert(fd_count(new_extra, x) + (if t == x { 1int } else { 0int })
                == fd_count(extra, x) + (if op.fds[i] == x { 1int } else { 0int }));
            assert(old_t.open_ok_with(k, extra));
        }
        assert forall|k: int| 0 <= k < MAX_PIPES implies #[trigger] new_t.pipe_ok_with(k, new_extra) by {
            let xr = FdTarget::PipeRead(k as usize);
            let xw = FdTarget::PipeWrite(k as usize);
            assert(table_count(new_t.processes@, xr) + (if op.fds[i] == xr { 1int } else { 0int })
                == table_count(old_t.processes@, xr) + (if t == xr { 1int } else { 0int }));
            assert(fd_count(new_extra, xr) + (if t == xr { 1int } else { 0int })
                == fd_count(extra, xr) + (if op.fds[i] == xr { 1int } else { 0int }));
            assert(table_count(new_t.processes@, xw) + (if op.fds[i] == xw { 1int } else { 0int })
                == table_count(old_t.processes@, xw) + (if t == xw { 1int } else { 0int }));
            assert(fd_count(new_extra, xw) + (if t == xw { 1int } else { 0int })
                == fd_count(extra, xw) + (if op.fds[i] == xw { 1int } else { 0int }));
            assert(old_t.pipe_ok_with(k, extra));
        }
        assert forall|ss: int, ii: int|
            0 <= ss < MAX_PROCS && 0 <= ii < MAX_FDS && (#[trigger] new_t.processes[ss]) is Some
                implies target_in_range(#[trigger] new_t.processes[ss]->0.fds[ii]) by {
            assert(old_t.processes[ss] is Some);
            if ss != s || ii != i {
                assert(target_in_range(old_t.processes[ss]->0.fds[ii]));
            }
        }
        assert forall|ss: int| 0 <= ss < MAX_PROCS && (#[trigger] new_t.threads[ss]) is Some
            implies new_t.threads[ss]->0.group_slot < MAX_PROCS by {
            assert(old_t.threads[ss] is Some);
        }
    }

    /// Set descriptor `i` of process slot `s` to `t` with flags `flags`, leaving the counts alone.
    fn put_fd(&mut self, s: usize, i: usize, t: FdTarget, flags: u32)
        requires
            s < MAX_PROCS,
            i < MAX_FDS,
            old(self).processes[s as int] is Some,
        ensures
            fd_set_in(*old(self), *final(self), s as int, i as int, t, flags),
            final(self).open_files == old(self).open_files,
            final(self).pipes == old(self).pipes,
            final(self).threads == old(self).threads,
            final(self).next_pid == old(self).next_pid,
    {
        let mut p = self.processes[s].unwrap();
        let ghost op = p;
        p.fds[i] = t;
        p.fd_flags[i] = flags;
        self.processes[s] = Some(p);
        proof {
            assert(p.fds@ =~= op.fds@.update(i as int, t));
            assert(p.fd_flags@ =~= op.fd_flags@.update(i as int, flags));
        }
    }

    /// Empty descriptor `i` of process slot `s` and drop its reference.
    fn clear_fd(&mut self, s: usize, i: usize)
        requires
            old(self).wf(),
            s < MAX_PROCS,
            i < MAX_FDS,
            old(self).processes[s as int] is Some,
        ensures
            final(self).wf(),
            fd_set_in(*old(self), *final(self), s as int, i as int, FdTarget::Empty, 0),
            released(*old(self), *final(self), old(self).processes[s as int]->0.fds[i as int]),
    {
        let target = self.processes[s].unwrap().fds[i];
        let ghost t0 = *self;
        self.put_fd(s, i, FdTarget::Empty, 0);
        proof {
            t0.lemma_wf_extra();
            assert(target_in_range(target)) by {
                assert(t0.processes[s as int] is Some);
            }
            let e1 = seq![target];
            assert(e1[0] == target);
            assert forall|x: FdTarget| (x is Open || x is PipeRead || x is PipeWrite) implies #[trigger] fd_count(e1, x) + (if FdTarget::Empty == x { 1int } else { 0int })
                == fd_count(Seq::<FdTarget>::empty(), x) + (if target == x { 1int } else { 0int }) by {
                lemma_fd_count_first(e1, x);
                assert(e1.drop_first() =~= Seq::<FdTarget>::empty());
                lemma_fd_count_first(e1, FdTarget::Empty);
            }
            Self::lemma_swap_fd(t0, *self, s as int, i as int, FdTarget::Empty, 0, Seq::<FdTarget>::empty(), e1);
        }
        let ghost t1 = *self;
        self.release_fd_target(target, Ghost(Seq::<FdTarget>::empty().push(target)));
        proof {
            assert(seq![target].drop_first() =~= Seq::<FdTarget>::empty());
            self.lemma_wf_extra();
        }
    }

    proof fn lemma_released_refs_only(old_t: ProcTable, new_t: ProcTable, t: FdTarget)
        requires
            released(old_t, new_t, t),
        ensures
            refs_only(old_t, new_t),
    {
    }

    /// Close descriptor `fd` of the process in task slot `cur`; false when it is not open.
    pub fn close_fd(&mut self, cur: usize, fd: usize) -> (r: bool)
        requires
            old(self).wf(),
            cur < MAX_PROCS,
        ensures
            final(self).wf(),
            r == fd_target_of(*old(self), cur as int, fd as int) is Some,
            !r ==> *final(self) == *old(self),
            r ==> fd_set_in(*old(self), *final(self), cur as int, fd as int, FdTarget::Empty, 0),
            r ==> refs_only(*old(self), *final(self)),
    {
        let p = match self.processes[cur] {
            Some(p) => p,
            None => return false,
        };
        if fd >= MAX_FDS {
            return false;
        }
        let target = p.fds[fd];
        if target == FdTarget::Empty {
            return false;
        }
        self.clear_fd(cur, fd);
        true
    }

    /// Close descriptor `fd` of the process in task slot `cur` (see `close_fd`).
    pub fn close_descriptor(&mut self, cur: usize, fd: usize) -> (r: bool)
        requires
            old(self).wf(),
            cur < MAX_PROCS,
        ensures
            final(self).wf(),
            r == fd_target_of(*old(self), cur as int, fd as int) is Some,
            !r ==> *final(self) == *old(self),
            r ==> fd_set_in(*old(self), *final(self), cur as int, fd as int, FdTarget::Empty, 0),
            r ==> refs_only(*old(self), *final(self)),
    {
        self.close_fd(cur, fd)
    }

    /// What descriptor `fd` of the current process refers to, if it is open.
    pub fn get_fd_target(&self, cur: usize, fd: usize) -> (r: Option<FdTarget>)
        requires
            cur < MAX_PROCS,
        ensures
            r == fd_target_of(*self, cur as int, fd as int),
    {
        let p = match &self.processes[cur] {
            Some(p) => p,
            None => return None,
        };
        if fd >= MAX_FDS {
            return None;
        }
        match p.fds[fd] {
            FdTarget::Empty => None,
            target => Some(target),
        }
    }

    /// Whether descriptor `fd` of the current process is open.
    pub fn fd_exists(&self, cur: usize, fd: usize) -> (r: bool)
        requires
            cur < MAX_PROCS,
        ensures
            r == fd_target_of(*self, cur as int, fd as int) is Some,
    {
        self.get_fd_target(cur, fd).is_some()
    }

    /// The descriptor flags of an open descriptor.
    pub fn get_fd_flags(&self, cur: usize, fd: usize) -> (r: Option<u32>)
        requires
            cur < MAX_PROCS,
        ensures
            r == (if fd_target_of(*self, cur as int, fd as int) is Some {
                Some(self.processes[cur as int]->0.fd_flags[fd as int])
            } else {
                None
            }),
    {
        let p = match &self.processes[cur] {
            Some(p) => p,
            None => return None,
        };
        if fd >= MAX_FDS || p.fds[fd] == FdTarget::Empty {
            return None;
        }
        Some(p.fd_flags[fd])
    }

    /// Set the descriptor flags of an open descriptor; false when it is not open.
    pub fn set_fd_flags(&mut self, cur: usize, fd: usize, flags: u32) -> (r: bool)
        requires
            old(self).wf(),
            cur < MAX_PROCS,
        ensures
            final(self).wf(),
            r == fd_target_of(*old(self), cur as int, fd as int) is Some,
            !r ==> *final(self) == *old(self),
            r ==> fd_set_in(*old(self), *final(self), cur as int, fd as int,
                old(self).processes[cur as int]->0.fds[fd as int], flags),
            r ==> final(self).open_files == old(self).open_files && final(self).pipes == old(self).pipes,
            r ==> final(self).threads == old(self).threads && final(self).next_pid == old(self).next_pid,
    {
        let mut p = match self.processes[cur] {
            Some(p) => p,
            None => return false,
        };
        if fd >= MAX_FDS || p.fds[fd] == FdTarget::Empty {
            return false;
        }
        let ghost old_procs = self.processes@;
        let ghost op = p;
        p.fd_flags[fd] = flags;
        self.processes[cur] = Some(p);
        proof {
            assert(p.fds@ =~= op.fds@.update(fd as int, op.fds[fd as int]));
            assert(p.fd_flags@ =~= op.fd_flags@.update(fd as int, flags));
            assert(self.processes@ =~= old_procs.update(cur as int, Some(p)));
            assert forall|t: FdTarget| #[trigger] table_count(self.processes@, t) == table_count(old_procs, t) by {
                lemma_set_fd_count(old_procs, cur as int, fd as int, op.fds[fd as int], p, t);
            }
            assert forall|k: int| 0 <= k < MAX_OPEN_FILES implies #[trigger] self.open_ok(k) by {
                assert(old(self).open_ok(k));
            }
            assert forall|k: int| 0 <= k < MAX_PIPES implies #[trigger] self.pipe_ok(k) by {
                assert(old(self).pipe_ok(k));
            }
            assert forall|ss: int, ii: int|
                0 <= ss < MAX_PROCS && 0 <= ii < MAX_FDS && (#[trigger] self.processes[ss]) is Some
                    implies target_in_range(#[trigger] self.processes[ss]->0.fds[ii]) by {
                assert(old(self).processes[ss] is Some);
                assert(target_in_range(old(self).processes[ss]->0.fds[ii]));
            }
        }
        true
    }

    /// Set or clear close-on-exec on an open descriptor; false when it is not open.
    pub fn set_cloexec(&mut self, cur: usize, fd: usize, cloexec: bool) -> (r: bool)
        requires
            old(self).wf(),
            cur < MAX_PROCS,
        ensures
            final(self).wf(),
            r == fd_target_of(*old(self), cur as int, fd as int) is Some,
            !r ==> *final(self) == *old(self),
            r ==> fd_set_in(*old(self), *final(self), cur as int, fd as int,
                old(self).processes[cur as int]->0.fds[fd as int], if cloexec { FD_CLOEXEC } else { 0 }),
            r ==> final(self).open_files == old(self).open_files && final(self).pipes == old(self).pipes,
    {
        let flags = if cloexec { FD_CLOEXEC } else { 0 };
        self.set_fd_flags(cur, fd, flags)
    }

    proof fn lemma_refs_only_trans(a: ProcTable, b: ProcTable, c: ProcTable)
        requires
            refs_only(a, b),
            refs_only(b, c),
        ensures
            refs_only(a, c),
    {
        assert forall|k: int| 0 <= k < MAX_OPEN_FILES && (#[trigger] c.open_files[k]).in_use implies {
            &&& a.open_files[k].in_use
            &&& c.open_files[k].file_idx == a.open_files[k].file_idx
            &&& c.open_files[k].offset == a.open_files[k].offset
            &&& c.open_files[k].status_flags == a.open_files[k].status_flags
        } by {
            assert(b.open_files[k].in_use);
        }
        assert forall|k: int| 0 <= k < MAX_PIPES && (#[trigger] c.pipes[k]).in_use implies {
            &&& a.pipes[k].in_use
            &&& c.pipes[k].buf == a.pipes[k].buf
            &&& c.pipes[k].read_pos == a.pipes[k].read_pos
            &&& c.pipes[k].write_pos == a.pipes[k].write_pos
            &&& c.pipes[k].len == a.pipes[k].len
            &&& c.pipes[k].read_flags == a.pipes[k].read_flags
            &&& c.pipes[k].write_flags == a.pipes[k].write_flags
        } by {
            assert(b.pipes[k].in_use);
        }
    }

    /// Take one more reference to `target` (false when it names no live slot).
    fn retain_fd_target(&mut self, target: FdTarget, Ghost(extra): Ghost<Seq<FdTarget>>) -> (ok: bool)
        requires
            old(self).extra_ok(extra),
            extra.len() <= MAX_FDS,
            target != FdTarget::Empty,
            target_in_range(target),
            table_count(old(self).processes@, target) >= 1,
        ensures
            ok,
            final(self).extra_ok(extra.push(target)),
            final(self).processes == old(self).processes,
            refs_only(*old(self), *final(self)),
    {
        let ghost e2 = extra.push(target);
        proof {
            lemma_table_count_le(self.processes@, target);
            lemma_fd_count_le(extra, target);
            assert forall|t: FdTarget| #[trigger] fd_count(e2, t) == fd_count(extra, t) + if target == t { 1nat } else { 0nat } by {
                assert(e2.drop_last() =~= extra);
            }
            assert forall|i: int| 0 <= i < e2.len() implies target_in_range(#[trigger] e2[i]) by {
                if i < extra.len() {
                    assert(e2[i] == extra[i]);
                }
            }
        }
        match target {
            FdTarget::Empty => false,
            FdTarget::Open(k) => {
                assert(old(self).open_ok_with(k as int, extra));
                if k >= MAX_OPEN_FILES || !self.open_files[k].in_use {
                    return false;
                }
                let of = self.open_files[k];
                self.open_files[k] = OpenFile { refs: of.refs + 1, ..of };
                proof {
                    assert forall|j: int| 0 <= j < MAX_OPEN_FILES implies #[trigger] self.open_ok_with(j, e2) by {
                        assert(old(self).open_ok_with(j, extra));
                    }
                    assert forall|j: int| 0 <= j < MAX_PIPES implies #[trigger] self.pipe_ok_with(j, e2) by {
                        assert(old(self).pipe_ok_with(j, extra));
                    }
                }
                true
            },
            FdTarget::PipeRead(k) => {
                assert(old(self).pipe_ok_with(k as int, extra));
                if k >= MAX_PIPES || !self.pipes[k].in_use {
                    return false;
                }
                let pipe = self.pipes[k];
                self.pipes[k] = Pipe { read_refs: pipe.read_refs + 1, ..pipe };
                proof {
                    assert forall|j: int| 0 <= j < MAX_OPEN_FILES implies #[trigger] self.open_ok_with(j, e2) by {
                        assert(old(self).open_ok_with(j, extra));
                    }
                    assert forall|j: int| 0 <= j < MAX_PIPES implies #[trigger] self.pipe_ok_with(j, e2) by {
                        assert(old(self).pipe_ok_with(j, extra));
                    }
                }
                true
            },
            FdTarget::PipeWrite(k) => {
                assert(old(self).pipe_ok_with(k as int, extra));
                if k >= MAX_PIPES || !self.pipes[k].in_use {
                    return false;
                }
                let pipe = self.pipes[k];
                self.pipes[k] = Pipe { write_refs: pipe.write_refs + 1, ..pipe };
                proof {
                    assert forall|j: int| 0 <= j < MAX_OPEN_FILES implies #[trigger] self.open_ok_with(j, e2) by {
                        assert(old(self).open_ok_with(j, extra));
                    }
                    assert forall|j: int| 0 <= j < MAX_PIPES implies #[trigger] self.pipe_ok_with(j, e2) by {
                        assert(old(self).pipe_ok_with(j, extra));
                    }
                }
                true
            },
            _ => {
                proof {
                    assert forall|j: int| 0 <= j < MAX_OPEN_FILES implies #[trigger] self.open_ok_with(j, e2) by {
                        assert(old(self).open_ok_with(j, extra));
                    }
                    assert forall|j: int| 0 <= j < MAX_PIPES implies #[trigger] self.pipe_ok_with(j, e2) by {
                        assert(old(self).pipe_ok_with(j, extra));
                    }
                }
                true
            },
        }
    }

    /// Put `target`, whose reference is held in `extra[0]`, into the empty
    /// descriptor `i` of process slot `s`.
    fn install_fd(&mut self, s: usize, i: usize, target: FdTarget, flags: u32, Ghost(extra): Ghost<Seq<FdTarget>>)
        requires
            old(self).extra_ok(extra),
            extra.len() >= 1,
            extra[0] == target,
            s < MAX_PROCS,
            i < MAX_FDS,
            old(self).processes[s as int] is Some,
            old(self).processes[s as int]->0.fds[i as int] == FdTarget::Empty,
        ensures
            final(self).extra_ok(extra.drop_first()),
            fd_set_in(*old(self), *final(self), s as int, i as int, target, flags),
            final(self).open_files == old(self).open_files,
            final(self).pipes == old(self).pipes,
            final(self).threads == old(self).threads,
            final(self).next_pid == old(self).next_pid,
    {
        let ghost t0 = *self;
        self.put_fd(s, i, target, flags);
        proof {
            let rest = extra.drop_first();
            assert(target_in_range(extra[0]));
            assert forall|x: FdTarget| (x is Open || x is PipeRead || x is PipeWrite) implies #[trigger] fd_count(rest, x) + (if target == x { 1int } else { 0int })
                == fd_count(extra, x) + (if FdTarget::Empty == x { 1int } else { 0int }) by {
                lemma_fd_count_first(extra, x);
            }
            assert forall|j: int| 0 <= j < rest.len() implies target_in_range(#[trigger] rest[j]) by {
                assert(target_in_range(extra[j + 1]));
            }
            Self::lemma_swap_fd(t0, *self, s as int, i as int, target, flags, extra, rest);
        }
    }

    /// Duplicate descriptor `old_fd` of the current process into `new_fd`, or, when
    /// `new_fd` is `None`, into the lowest empty descriptor at or above `min_fd`.
    /// A descriptor already open at the destination is closed first. Returns the
    /// new descriptor, or -1.
    pub fn dup_fd(&mut self, cur: usize, old_fd: usize, min_fd: usize, new_fd: Option<usize>, cloexec: bool) -> (r: i64)
        requires
            old(self).wf(),
            cur < MAX_PROCS,
        ensures
            final(self).wf(),
            ({
                let tgt = fd_target_of(*old(self), cur as int, old_fd as int);
                let dest = dup_dest(*old(self), cur as int, min_fd as int, new_fd);
                if tgt is None || dest is None {
                    r == -1 && *final(self) == *old(self)
                } else if dest->0 == old_fd {
                    r == old_fd && *final(self) == *old(self)
                } else {
                    &&& r == dest->0
                    &&& fd_set_in(*old(self), *final(self), cur as int, dest->0, tgt->0,
                        if cloexec { FD_CLOEXEC } else { 0 })
                    &&& refs_only(*old(self), *final(self))
                }
            }),
    {
        let p = match self.processes[cur] {
            Some(p) => p,
            None => return -1,
        };
        if old_fd >= MAX_FDS {
            return -1;
        }
        let target = p.fds[old_fd];
        if target == FdTarget::Empty {
            return -1;
        }
        let dest_fd = match new_fd {
            Some(fd) => {
                if fd >= MAX_FDS {
                    return -1;
                }
                if fd == old_fd {
                    return fd as i64;
                }
                fd
            },
            None => {
                let mut i = min_fd;
                while i < MAX_FDS && p.fds[i] != FdTarget::Empty
                    invariant
                        min_fd <= i,
                        forall|j: int| min_fd <= j < i && j < MAX_FDS ==> p.fds[j] != FdTarget::Empty,
                    decreases MAX_FDS - i,
                {
                    i = i + 1;
                }
                let found: Option<usize> = if i < MAX_FDS { Some(i) } else { None };
                proof {
                    if found is None {
                        assert(!exists|j: int| min_fd <= j < p.fds@.len() && p.fds@[j] == FdTarget::Empty) by {
                            assert forall|j: int| min_fd <= j < p.fds@.len() implies p.fds@[j] != FdTarget::Empty by {
                                assert(p.fds[j] != FdTarget::Empty);
                            }
                        }
                    } else {
                        let d = found->0;
                        assert(p.fds@[d as int] == FdTarget::Empty);
                        let c = choose|j: int| min_fd <= j < p.fds@.len() && p.fds@[j] == FdTarget::Empty
                            && forall|jj: int| min_fd <= jj < j ==> p.fds@[jj] != FdTarget::Empty;
                        assert(min_fd <= d < p.fds@.len() && p.fds@[d as int] == FdTarget::Empty
                            && forall|jj: int| min_fd <= jj < d ==> p.fds@[jj] != FdTarget::Empty);
                        if c < d {
                            assert(p.fds@[c] != FdTarget::Empty);
                        }
                        if d < c {
                            assert(p.fds@[d as int] != FdTarget::Empty);
                        }
                        assert(c == d);
                    }
                }
                match found {
                    Some(d) => d,
                    None => return -1,
                }
            },
        };
        let ghost t0 = *self;
        if p.fds[dest_fd] != FdTarget::Empty {
            self.clear_fd(cur, dest_fd);
        }
        let ghost t1 = *self;
        proof {
            assert(self.processes[cur as int] is Some);
            assert(self.processes[cur as int]->0.fds[old_fd as int] == target);
            assert(target_in_range(target));
            lemma_table_count_pos(self.processes@, cur as int, old_fd as int, target);
            self.lemma_wf_extra();
        }
        if !self.retain_fd_target(target, Ghost(Seq::<FdTarget>::empty())) {
            return -1;
        }
        let flags = if cloexec { FD_CLOEXEC } else { 0 };
        let ghost t2 = *self;
        proof {
            assert(Seq::<FdTarget>::empty().push(target) =~= seq![target]);
        }
        self.install_fd(cur, dest_fd, target, flags, Ghost(Seq::<FdTarget>::empty().push(target)));
        proof {
            assert(seq![target].drop_first() =~= Seq::<FdTarget>::empty());
            self.lemma_wf_extra();
            if p.fds[dest_fd as int] != FdTarget::Empty {
                Self::lemma_released_refs_only(t0, t1, p.fds[dest_fd as int]);
            }
            Self::lemma_refs_only_trans(t0, t1, t2);
            assert(refs_only(t2, *self));
            Self::lemma_refs_only_trans(t0, t2, *self);
            let q = self.processes[cur as int]->0;
            assert(q.fds@ =~= p.fds@.update(dest_fd as int, target));
            assert(q.fd_flags@ =~= p.fd_flags@.update(dest_fd as int, flags));
        }
        dest_fd as i64
    }

    /// Duplicate `old_fd` into the lowest empty descriptor at or above `min_fd`.
    pub fn dup_min(&mut self, cur: usize, old_fd: usize, min_fd: usize, cloexec: bool) -> (r: Option<usize>)
        requires
            old(self).wf(),
            cur < MAX_PROCS,
        ensures
            final(self).wf(),
            ({
                let tgt = fd_target_of(*old(self), cur as int, old_fd as int);
                let dest = dup_dest(*old(self), cur as int, min_fd as int, None);
                if tgt is None || dest is None {
                    r is None && *final(self) == *old(self)
                } else {
                    &&& r == Some(dest->0 as usize)
                    &&& dest->0 == old_fd ==> *final(self) == *old(self)
                    &&& dest->0 != old_fd ==> fd_set_in(*old(self), *final(self), cur as int, dest->0, tgt->0,
                        if cloexec { FD_CLOEXEC } else { 0 })
                    &&& dest->0 != old_fd ==> refs_only(*old(self), *final(self))
                }
            }),
    {
        let fd = self.dup_fd(cur, old_fd, min_fd, None, cloexec);
        if fd < 0 { None } else { Some(fd as usize) }
    }

    /// Duplicate `old_fd` into `new_fd`, closing what was open there first.
    pub fn dup_exact(&mut self, cur: usize, old_fd: usize, new_fd: usize, cloexec: bool) -> (r: Option<usize>)
        requires
            old(self).wf(),
            cur < MAX_PROCS,
        ensures
            final(self).wf(),
            ({
                let tgt = fd_target_of(*old(self), cur as int, old_fd as int);
                if tgt is None || new_fd >= MAX_FDS {
                    r is None && *final(self) == *old(self)
                } else if new_fd == old_fd {
                    r == Some(new_fd) && *final(self) == *old(self)
                } else {
                    &&& r == Some(new_fd)
                    &&& fd_set_in(*old(self), *final(self), cur as int, new_fd as int, tgt->0,
                        if cloexec { FD_CLOEXEC } else { 0 })
                    &&& refs_only(*old(self), *final(self))
                }
            }),
    {
        let fd = self.dup_fd(cur, old_fd, 0, Some(new_fd), cloexec);
        if fd < 0 { None } else { Some(fd as usize) }
    }
}

/// Where `dup_fd` puts its copy: `new_fd` when it is a valid descriptor, else the
/// lowest empty descriptor at or above `min_fd`.
pub open spec fn dup_dest(t: ProcTable, cur: int, min_fd: int, new_fd: Option<usize>) -> Option<int> {
    match new_fd {
        Some(fd) => if fd < MAX_FDS { Some(fd as int) } else { None },
        None => first_empty_from(t.processes[cur]->0.fds@, min_fd),
    }
}

/// The lowest open-file slot not in use, if any.
pub open spec fn first_free_open(t: ProcTable) -> Option<int> {
    if exists|k: int| 0 <= k < MAX_OPEN_FILES && !t.open_files[k].in_use {
        Some(choose|k: int| 0 <= k < MAX_OPEN_FILES && !t.open_files[k].in_use
            && forall|j: int| 0 <= j < k ==> t.open_files[j].in_use)
    } else {
        None
    }
}

/// The lowest pipe slot not in use, if any.
pub open spec fn first_free_pipe(t: ProcTable) -> Option<int> {
    if exists|k: int| 0 <= k < MAX_PIPES && !t.pipes[k].in_use {
        Some(choose|k: int| 0 <= k < MAX_PIPES && !t.pipes[k].in_use
            && forall|j: int| 0 <= j < k ==> t.pipes[j].in_use)
    } else {
        None
    }
}

/// The descriptors held by a process slot (none for an empty slot).
pub open spec fn slot_fds(p: Option<Process>) -> Seq<FdTarget> {
    match p {
        Some(q) => q.fds@,
        None => Seq::empty(),
    }
}

/// The empty open-file description.
pub open spec fn empty_open() -> OpenFile {
    OpenFile { file_idx: 0, offset: 0, status_flags: 0, refs: 0, in_use: false }
}

impl ProcTable {
    /// Claim the lowest free open-file description for `file_idx`, with one reference.
    fn alloc_open_file(&mut self, file_idx: usize, status_flags: u32) -> (r: Option<usize>)
        requires
            old(self).wf(),
        ensures
            r == (match first_free_open(*old(self)) { Some(k) => Some(k as usize), None => None }),
            r is None ==> *final(self) == *old(self),
            r matches Some(k) ==> ({
                &&& final(self).extra_ok(Seq::<FdTarget>::empty().push(FdTarget::Open(k)))
                &&& final(self).open_files@ == old(self).open_files@.update(k as int, OpenFile {
                    file_idx, offset: 0, status_flags, refs: 1, in_use: true })
                &&& final(self).processes == old(self).processes
                &&& final(self).pipes == old(self).pipes
                &&& final(self).threads == old(self).threads
                &&& final(self).next_pid == old(self).next_pid
            }),
    {
        let mut k: usize = 0;
        while k < MAX_OPEN_FILES && self.open_files[k].in_use
            invariant
                k <= MAX_OPEN_FILES,
                *self == *old(self),
                forall|j: int| 0 <= j < k ==> self.open_files[j].in_use,
            decreases MAX_OPEN_FILES - k,
        {
            k = k + 1;
        }
        if k == MAX_OPEN_FILES {
            proof {
                assert(!exists|j: int| 0 <= j < MAX_OPEN_FILES && !self.open_files[j].in_use);
            }
            return None;
        }
        proof {
            let c = choose|j: int| 0 <= j < MAX_OPEN_FILES && !self.open_files[j].in_use
                && forall|jj: int| 0 <= jj < j ==> self.open_files[jj].in_use;
            assert(0 <= k < MAX_OPEN_FILES && !self.open_files[k as int].in_use
                && forall|jj: int| 0 <= jj < k ==> self.open_files[jj].in_use);
            if c < k { assert(self.open_files[c].in_use); }
            if k < c { assert(self.open_files[k as int].in_use); }
            self.lemma_wf_extra();
            assert(self.open_ok_with(k as int, Seq::<FdTarget>::empty()));
        }
        self.open_files[k] = OpenFile::new(file_idx, status_flags);
        proof {
            let e = Seq::<FdTarget>::empty();
            let e1 = e.push(FdTarget::Open(k));
            assert forall|t: FdTarget| #[trigger] fd_count(e1, t) == if t == FdTarget::Open(k) { 1nat } else { 0nat } by {
                assert(e1.drop_last() =~= e);
                assert(fd_count(e, t) == 0);
            }
            assert forall|j: int| 0 <= j < MAX_OPEN_FILES implies #[trigger] self.open_ok_with(j, e1) by {
                assert(old(self).open_ok_with(j, e));
            }
            assert forall|j: int| 0 <= j < MAX_PIPES implies #[trigger] self.pipe_ok_with(j, e1) by {
                assert(old(self).pipe_ok_with(j, e));
            }
            assert forall|i: int| 0 <= i < e1.len() implies target_in_range(#[trigger] e1[i]) by {}
        }
        Some(k)
    }

    /// Put `target`, whose reference is held in `extra[0]`, into the lowest empty
    /// descriptor at or above 3 of the current process; -1 when there is none.
    fn alloc_specific_fd(&mut self, cur: usize, target: FdTarget, fd_flags: u32, Ghost(extra): Ghost<Seq<FdTarget>>) -> (r: i64)
        requires
            old(self).extra_ok(extra),
            extra.len() >= 1,
            extra[0] == target,
            cur < MAX_PROCS,
        ensures
            ({
                let slot = old(self).processes[cur as int];
                let dest = if slot is Some { first_empty_from(slot->0.fds@, 3) } else { None };
                if dest is None {
                    r == -1 && *final(self) == *old(self)
                } else {
                    &&& r == dest->0
                    &&& final(self).extra_ok(extra.drop_first())
                    &&& fd_set_in(*old(self), *final(self), cur as int, dest->0, target, fd_flags)
                    &&& final(self).open_files == old(self).open_files
                    &&& final(self).pipes == old(self).pipes
                    &&& final(self).threads == old(self).threads
                    &&& final(self).next_pid == old(self).next_pid
                }
            }),
    {
        let p = match self.processes[cur] {
            Some(p) => p,
            None => return -1,
        };
        let mut fd: usize = 3;
        while fd < MAX_FDS && p.fds[fd] != FdTarget::Empty
            invariant
                3 <= fd <= MAX_FDS,
                forall|j: int| 3 <= j < fd ==> p.fds[j] != FdTarget::Empty,
            decreases MAX_FDS - fd,
        {
            fd = fd + 1;
        }
        proof {
            lemma_first_empty(p.fds@, 3, fd as int);
        }
        if fd == MAX_FDS {
            return -1;
        }
        self.install_fd(cur, fd, target, fd_flags, Ghost(extra));
        fd as i64
    }

    /// Open `file_idx` in the current process: a new open-file description (status
    /// flags 0) in the lowest empty descriptor at or above 3. Returns the descriptor
    /// or -1. When the current slot holds no process, the description claimed
    /// stays in use with one reference and no descriptor.
    pub fn alloc_fd(&mut self, cur: usize, file_idx: usize) -> (r: i64)
        requires
            old(self).wf(),
            cur < MAX_PROCS,
        ensures
            ({
                let k = first_free_open(*old(self));
                let slot = old(self).processes[cur as int];
                let dest = if slot is Some { first_empty_from(slot->0.fds@, 3) } else { None };
                let fresh = OpenFile { file_idx, offset: 0, status_flags: 0, refs: 1, in_use: true };
                if k is None {
                    r == -1 && *final(self) == *old(self)
                } else if slot is None {
                    &&& r == -1
                    &&& final(self).open_files@ == old(self).open_files@.update(k->0, fresh)
                    &&& final(self).processes == old(self).processes && final(self).pipes == old(self).pipes
                    &&& final(self).extra_ok(Seq::<FdTarget>::empty().push(FdTarget::Open(k->0 as usize)))
                } else if dest is None {
                    &&& r == -1
                    &&& final(self).wf()
                    &&& final(self).open_files@ == old(self).open_files@.update(k->0, empty_open())
                    &&& final(self).processes == old(self).processes && final(self).pipes == old(self).pipes
                } else {
                    &&& r == dest->0
                    &&& final(self).wf()
                    &&& fd_set_in(*old(self), *final(self), cur as int, dest->0, FdTarget::Open(k->0 as usize), 0)
                    &&& final(self).open_files@ == old(self).open_files@.update(k->0, fresh)
                    &&& final(self).pipes == old(self).pipes
                }
            }),
            final(self).threads == old(self).threads,
            final(self).next_pid == old(self).next_pid,
    {
        let open_idx = match self.alloc_open_file(file_idx, 0) {
            Some(i) => i,
            None => return -1,
        };
        let ghost e1 = Seq::<FdTarget>::empty().push(FdTarget::Open(open_idx));
        if self.processes[cur].is_none() {
            return -1;
        }
        let fd = self.alloc_specific_fd(cur, FdTarget::Open(open_idx), 0, Ghost(e1));
        if fd >= 0 {
            proof {
                assert(e1.drop_first() =~= Seq::<FdTarget>::empty());
                self.lemma_wf_extra();
            }
            return fd;
        }
        self.release_fd_target(FdTarget::Open(open_idx), Ghost(e1));
        proof {
            assert(e1.drop_first() =~= Seq::<FdTarget>::empty());
            self.lemma_wf_extra();
            assert(self.open_files@ =~= old(self).open_files@.update(open_idx as int, empty_open()));
        }
        -1
    }

    /// `alloc_fd` as an `Option`.
    pub fn open_file(&mut self, cur: usize, file_idx: usize) -> (r: Option<usize>)
        requires
            old(self).wf(),
            cur < MAX_PROCS,
        ensures
            ({
                let k = first_free_open(*old(self));
                let slot = old(self).processes[cur as int];
                let dest = if slot is Some { first_empty_from(slot->0.fds@, 3) } else { None };
                if k is Some && slot is Some && dest is Some {
                    &&& r == Some(dest->0 as usize)
                    &&& final(self).wf()
                    &&& fd_set_in(*old(self), *final(self), cur as int, dest->0, FdTarget::Open(k->0 as usize), 0)
                    &&& final(self).open_files@ == old(self).open_files@.update(k->0,
                        OpenFile { file_idx, offset: 0, status_flags: 0, refs: 1, in_use: true })
                } else {
                    r is None
                }
            }),
    {
        let fd = self.alloc_fd(cur, file_idx);
        if fd < 0 { None } else { Some(fd as usize) }
    }

    /// Drop the reference held by each of `fds`, in order.
    pub fn release_fds(&mut self, fds: &[FdTarget; 16])
        requires
            old(self).extra_ok(fds@),
        ensures
            final(self).wf(),
            final(self).processes == old(self).processes,
            refs_only(*old(self), *final(self)),
    {
        let mut i: usize = 0;
        assert(fds@.skip(0) =~= fds@);
        while i < MAX_FDS
            invariant
                i <= MAX_FDS,
                self.extra_ok(fds@.skip(i as int)),
                self.processes == old(self).processes,
                refs_only(*old(self), *self),
            decreases MAX_FDS - i,
        {
            let ghost t0 = *self;
            proof {
                assert(fds@.skip(i as int)[0] == fds[i as int]);
            }
            self.release_fd_target(fds[i], Ghost(fds@.skip(i as int)));
            proof {
                assert(fds@.skip(i as int).drop_first() =~= fds@.skip(i + 1));
                Self::lemma_released_refs_only(t0, *self, fds[i as int]);
                Self::lemma_refs_only_trans(*old(self), t0, *self);
            }
            i = i + 1;
        }
        proof {
            assert(fds@.skip(16) =~= Seq::<FdTarget>::empty());
            self.lemma_wf_extra();
        }
    }

    /// Reap the process in `slot` if it is a zombie: drop its descriptors' references,
    /// empty the slot, and return its exit code.
    pub fn reap_slot(&mut self, slot: usize) -> (r: Option<i64>)
        requires
            old(self).wf(),
            slot < MAX_PROCS,
        ensures
            final(self).wf(),
            ({
                let p = old(self).processes[slot as int];
                if p is Some && p->0.state == ProcessState::Zombie {
                    &&& r == Some(p->0.exit_code)
                    &&& final(self).processes@ == old(self).processes@.update(slot as int, None)
                    &&& refs_only(*old(self), *final(self))
                } else {
                    r is None && *final(self) == *old(self)
                }
            }),
    {
        let p = match self.processes[slot] {
            Some(p) => p,
            None => return None,
        };
        if p.state != ProcessState::Zombie {
            return None;
        }
        let code = p.exit_code;
        let ghost t0 = *self;
        self.processes[slot] = None;
        proof {
            assert forall|x: FdTarget| #[trigger] table_count(self.processes@, x) + fd_count(p.fds@, x)
                == table_count(t0.processes@, x) by {
                lemma_table_count_update(t0.processes@, slot as int, None, x);
                assert(self.processes@ =~= t0.processes@.update(slot as int, None));
            }
            t0.lemma_wf_extra();
            assert forall|k: int| 0 <= k < MAX_OPEN_FILES implies #[trigger] self.open_ok_with(k, p.fds@) by {
                assert(t0.open_ok(k));
            }
            assert forall|k: int| 0 <= k < MAX_PIPES implies #[trigger] self.pipe_ok_with(k, p.fds@) by {
                assert(t0.pipe_ok(k));
            }
            assert forall|ss: int, ii: int|
                0 <= ss < MAX_PROCS && 0 <= ii < MAX_FDS && (#[trigger] self.processes[ss]) is Some
                    implies target_in_range(#[trigger] self.processes[ss]->0.fds[ii]) by {
                assert(t0.processes[ss] is Some);
            }
            assert forall|i: int| 0 <= i < p.fds@.len() implies target_in_range(#[trigger] p.fds@[i]) by {
                assert(t0.processes[slot as int] is Some);
                assert(target_in_range(t0.processes[slot as int]->0.fds[i]));
            }
        }
        let ghost t1 = *self;
        self.release_fds(&p.fds);
        proof {
            assert(self.processes@ =~= old(self).processes@.update(slot as int, None));
            Self::lemma_refs_only_trans(*old(self), t1, *self);
        }
        Some(code)
    }
}

/// Invariants that depend on the tables only carry over between tables that agree on them.
pub proof fn lemma_extra_ok_same_tables(a: ProcTable, b: ProcTable, extra: Seq<FdTarget>)
    requires
        a.extra_ok(extra),
        b.processes == a.processes,
        b.open_files == a.open_files,
        b.pipes == a.pipes,
        b.threads == a.threads,
    ensures
        b.extra_ok(extra),
{
    assert forall|k: int| 0 <= k < MAX_OPEN_FILES implies #[trigger] b.open_ok_with(k, extra) by {
        assert(a.open_ok_with(k, extra));
    }
    assert forall|k: int| 0 <= k < MAX_PIPES implies #[trigger] b.pipe_ok_with(k, extra) by {
        assert(a.pipe_ok_with(k, extra));
    }
}

proof fn lemma_first_empty_props(fds: Seq<FdTarget>, min: int)
    ensures
        first_empty_from(fds, min) matches Some(i) ==> min <= i < fds.len() && fds[i] == FdTarget::Empty
            && forall|j: int| min <= j < i ==> fds[j] != FdTarget::Empty,
        first_empty_from(fds, min) is None ==> forall|j: int| min <= j < fds.len() ==> fds[j] != FdTarget::Empty,
{
    if exists|i: int| min <= i < fds.len() && fds[i] == FdTarget::Empty {
        let w = choose|i: int| min <= i < fds.len() && fds[i] == FdTarget::Empty;
        lemma_min_empty(fds, min, w);
    }
}

proof fn lemma_min_empty(fds: Seq<FdTarget>, min: int, w: int)
    requires
        min <= w < fds.len(),
        fds[w] == FdTarget::Empty,
    ensures
        exists|i: int| min <= i < fds.len() && fds[i] == FdTarget::Empty
            && forall|j: int| min <= j < i ==> fds[j] != FdTarget::Empty,
    decreases w - min,
{
    if exists|j: int| min <= j < w && fds[j] == FdTarget::Empty {
        let j = choose|j: int| min <= j < w && fds[j] == FdTarget::Empty;
        lemma_min_empty(fds, min, j);
    } else {
        assert(min <= w < fds.len() && fds[w] == FdTarget::Empty
            && forall|j: int| min <= j < w ==> fds[j] != FdTarget::Empty);
    }
}

proof fn lemma_first_empty(fds: Seq<FdTarget>, min: int, i: int)
    requires
        min <= i <= fds.len(),
        forall|j: int| min <= j < i ==> fds[j] != FdTarget::Empty,
        i < fds.len() ==> fds[i] == FdTarget::Empty,
    ensures
        first_empty_from(fds, min) == (if i < fds.len() { Some(i) } else { None }),
{
    if i < fds.len() {
        let c = choose|j: int| min <= j < fds.len() && fds[j] == FdTarget::Empty
            && forall|jj: int| min <= jj < j ==> fds[jj] != FdTarget::Empty;
        assert(min <= i < fds.len() && fds[i] == FdTarget::Empty
            && forall|jj: int| min <= jj < i ==> fds[jj] != FdTarget::Empty);
        if c < i { assert(fds[c] != FdTarget::Empty); }
        if i < c { assert(fds[i] != FdTarget::Empty); }
    } else {
        assert(!exists|j: int| min <= j < fds.len() && fds[j] == FdTarget::Empty);
    }
}

/// `c` is the child that `fork` makes of `p`, with identifier `pid` and page table `pml4`.
pub open spec fn forked(p: Process, c: Process, pid: usize, pml4: usize) -> bool {
    &&& c.pid == pid && c.parent_pid == p.pid && c.pgid == p.pgid && c.sid == p.sid
    &&& c.state == ProcessState::Running && c.thread_count == 1 && c.exit_code == 0
    &&& c.uid == p.uid && c.euid == p.euid && c.gid == p.gid && c.egid == p.egid && c.umask == p.umask
    &&& c.exe_path == p.exe_path && c.exe_path_len == p.exe_path_len
    &&& c.program_break == p.program_break && c.next_mmap_base == p.next_mmap_base
    &&& c.pml4 == pml4
    &&& c.sig_handlers == p.sig_handlers && sigset_empty(c.sig_pending)
    &&& c.fds == p.fds && c.fd_flags == p.fd_flags && c.vmas == p.vmas
}

/// The process of the thread group that task slot `cur` belongs to, if any.
pub open spec fn current_process_of(t: ProcTable, cur: int) -> Option<Process> {
    if t.threads[cur] is Some && t.threads[cur]->0.group_slot < MAX_PROCS {
        t.processes[t.threads[cur]->0.group_slot as int]
    } else {
        None
    }
}

impl ProcTable {
    /// Record a forked copy of the current process in `task_slot`: a fresh
    /// identifier, the parent's descriptors (each taking one more reference),
    /// and the page table `pml4`. Returns the new identifier.
    ///
    /// A process record already in `task_slot` is overwritten; the references its
    /// descriptors held then stay counted with no descriptor holding them.
    pub fn fork_current(&mut self, cur: usize, task_slot: usize, pml4: usize) -> (pid: usize)
        requires
            old(self).wf(),
            cur < MAX_PROCS,
            task_slot < MAX_PROCS,
            current_process_of(*old(self), cur as int) is Some,
        ensures
            pid == old(self).next_pid,
            final(self).next_pid == old(self).next_pid.wrapping_add(1),
            final(self).processes[task_slot as int] is Some,
            forked(current_process_of(*old(self), cur as int)->0, final(self).processes[task_slot as int]->0, pid, pml4),
            forall|j: int| 0 <= j < MAX_PROCS && j != task_slot ==> final(self).processes[j] == old(self).processes[j],
            final(self).threads == old(self).threads,
            final(self).extra_ok(slot_fds(old(self).processes[task_slot as int])),
            old(self).processes[task_slot as int] is None ==> final(self).wf(),
    {
        let pid = self.next_pid;
        let group = match self.threads[cur] {
            Some(t) => t.group_slot,
            None => 0,
        };
        let parent = match self.processes[group] {
            Some(p) => p,
            None => Process::new_leader(0, 0, &[]),
        };
        proof {
            self.lemma_wf_extra();
            assert(Seq::<FdTarget>::empty() =~= parent.fds@.take(0));
        }
        let fds = parent.fds;
        let mut i: usize = 0;
        proof {
            assert(fds@.take(0) =~= Seq::<FdTarget>::empty());
        }
        while i < MAX_FDS
            invariant
                i <= MAX_FDS,
                fds == parent.fds,
                self.processes == old(self).processes,
                self.threads == old(self).threads,
                self.next_pid == old(self).next_pid,
                self.processes[group as int] == Some(parent),
                group < MAX_PROCS,
                self.extra_ok(fds@.take(i as int)),
            decreases MAX_FDS - i,
        {
            let target = fds[i];
            let ghost e = fds@.take(i as int);
            proof {
                assert(fds@.take(i + 1) =~= e.push(target));
                assert(target_in_range(target)) by {
                    assert(self.processes[group as int] is Some);
                    assert(self.processes[group as int]->0.fds[i as int] == target);
                    assert(self.targets_ok());
                }
            }
            match target {
                FdTarget::Open(_) | FdTarget::PipeRead(_) | FdTarget::PipeWrite(_) => {
                    proof {
                        lemma_table_count_pos(self.processes@, group as int, i as int, target);
                    }
                    self.retain_fd_target(target, Ghost(e));
                },
                _ => {
                    proof {
                        let e2 = e.push(target);
                        assert forall|x: FdTarget| (x is Open || x is PipeRead || x is PipeWrite) implies #[trigger] fd_count(e2, x) == fd_count(e, x) by {
                            assert(e2.drop_last() =~= e);
                        }
                        assert forall|k: int| 0 <= k < MAX_OPEN_FILES implies #[trigger] self.open_ok_with(k, e2) by {
                            assert(self.open_ok_with(k, e));
                            assert(fd_count(e2, FdTarget::Open(k as usize)) == fd_count(e, FdTarget::Open(k as usize)));
                        }
                        assert forall|k: int| 0 <= k < MAX_PIPES implies #[trigger] self.pipe_ok_with(k, e2) by {
                            assert(self.pipe_ok_with(k, e));
                            assert(fd_count(e2, FdTarget::PipeRead(k as usize)) == fd_count(e, FdTarget::PipeRead(k as usize)));
                            assert(fd_count(e2, FdTarget::PipeWrite(k as usize)) == fd_count(e, FdTarget::PipeWrite(k as usize)));
                        }
                        assert forall|j: int| 0 <= j < e2.len() implies target_in_range(#[trigger] e2[j]) by {
                            if j < e.len() { assert(e2[j] == e[j]); }
                        }
                    }
                },
            }
            i = i + 1;
        }
        let mut child = Process::fork_from(&parent, pid);
        child.pml4 = pml4;
        let ghost t0 = *self;
        let ghost old_slot = self.processes[task_slot as int];
        self.processes[task_slot] = Some(child);
        proof {
            assert(fds@.take(16) =~= fds@);
            let rest = slot_fds(old_slot);
            assert(self.processes@ =~= t0.processes@.update(task_slot as int, Some(child)));
            assert forall|x: FdTarget| #[trigger] table_count(self.processes@, x) + fd_count(rest, x)
                == table_count(t0.processes@, x) + fd_count(fds@, x) by {
                lemma_table_count_update(t0.processes@, task_slot as int, Some(child), x);
                if old_slot is None {
                    assert(fd_count(rest, x) == 0);
                }
            }
            assert forall|k: int| 0 <= k < MAX_OPEN_FILES implies #[trigger] self.open_ok_with(k, rest) by {
                assert(t0.open_ok_with(k, fds@));
            }
            assert forall|k: int| 0 <= k < MAX_PIPES implies #[trigger] self.pipe_ok_with(k, rest) by {
                assert(t0.pipe_ok_with(k, fds@));
            }
            assert forall|ss: int, ii: int|
                0 <= ss < MAX_PROCS && 0 <= ii < MAX_FDS && (#[trigger] self.processes[ss]) is Some
                    implies target_in_range(#[trigger] self.processes[ss]->0.fds[ii]) by {
                if ss != task_slot {
                    assert(t0.processes[ss] is Some);
                } else {
                    assert(target_in_range(fds@[ii]));
                }
            }
            assert forall|j: int| 0 <= j < rest.len() implies target_in_range(#[trigger] rest[j]) by {
                assert(old(self).processes[task_slot as int] is Some);
                assert(target_in_range(old(self).processes[task_slot as int]->0.fds[j]));
            }
        }
        let ghost t3 = *self;
        self.next_pid = self.next_pid.wrapping_add(1);
        proof {
            let rest = slot_fds(old_slot);
            lemma_extra_ok_same_tables(t3, *self, rest);
            if old_slot is None {
                assert(rest =~= Seq::<FdTarget>::empty());
                self.lemma_wf_extra();
            }
        }
        pid
    }

    /// Free pipe slot `pipe_idx`.
    fn clear_pipe(&mut self, pipe_idx: usize)
        requires
            pipe_idx < MAX_PIPES,
        ensures
            final(self).pipes@ == old(self).pipes@.update(pipe_idx as int, final(self).pipes[pipe_idx as int]),
            empty_pipe(final(self).pipes[pipe_idx as int]),
            final(self).processes == old(self).processes,
            final(self).open_files == old(self).open_files,
            final(self).threads == old(self).threads,
            final(self).next_pid == old(self).next_pid,
    {
        self.pipes[pipe_idx] = Pipe::empty();
    }

    /// Create a pipe for the current process: its read end in the lowest empty
    /// descriptor at or above 3 and its write end in the next one. Returns the
    /// two descriptors, or `None` (with nothing changed but the chosen pipe slot,
    /// left free) when no pipe slot or not two descriptors are free.
    pub fn alloc_pipe(&mut self, cur: usize) -> (r: Option<(usize, usize)>)
        requires
            old(self).wf(),
            cur < MAX_PROCS,
        ensures
            final(self).wf(),
            final(self).open_files == old(self).open_files,
            final(self).threads == old(self).threads,
            final(self).next_pid == old(self).next_pid,
            ({
                let k = first_free_pipe(*old(self));
                let slot = old(self).processes[cur as int];
                let rd = if slot is Some { first_empty_from(slot->0.fds@, 3) } else { None };
                let wr = if rd is Some { first_empty_from(slot->0.fds@, rd->0 + 1) } else { None };
                if k is None {
                    r is None && *final(self) == *old(self)
                } else if wr is None {
                    &&& r is None
                    &&& rd is None ==> final(self).processes == old(self).processes
                    &&& rd is Some ==> {
                        &&& final(self).processes[cur as int] is Some
                        &&& same_but_fds(slot->0, final(self).processes[cur as int]->0)
                        &&& final(self).processes[cur as int]->0.fds == slot->0.fds
                        &&& final(self).processes[cur as int]->0.fd_flags@ == slot->0.fd_flags@.update(rd->0, 0)
                        &&& forall|j: int| 0 <= j < MAX_PROCS && j != cur ==> final(self).processes[j] == old(self).processes[j]
                    }
                    &&& final(self).pipes@ == old(self).pipes@.update(k->0, final(self).pipes[k->0])
                    &&& empty_pipe(final(self).pipes[k->0])
                } else {
                    &&& r == Some((rd->0 as usize, wr->0 as usize))
                    &&& final(self).processes[cur as int] is Some
                    &&& same_but_fds(slot->0, final(self).processes[cur as int]->0)
                    &&& final(self).processes[cur as int]->0.fds@
                        == slot->0.fds@.update(rd->0, FdTarget::PipeRead(k->0 as usize)).update(wr->0, FdTarget::PipeWrite(k->0 as usize))
                    &&& final(self).processes[cur as int]->0.fd_flags@
                        == slot->0.fd_flags@.update(rd->0, 0).update(wr->0, 0)
                    &&& forall|j: int| 0 <= j < MAX_PROCS && j != cur ==> final(self).processes[j] == old(self).processes[j]
                    &&& final(self).pipes@ == old(self).pipes@.update(k->0, final(self).pipes[k->0])
                    &&& final(self).pipes[k->0].in_use && final(self).pipes[k->0].len == 0
                    &&& final(self).pipes[k->0].read_refs == 1 && final(self).pipes[k->0].write_refs == 1
                    &&& final(self).pipes[k->0].read_flags == 0 && final(self).pipes[k->0].write_flags == 0
                }
            }),
    {
        let mut k: usize = 0;
        while k < MAX_PIPES && self.pipes[k].in_use
            invariant
                k <= MAX_PIPES,
                *self == *old(self),
                forall|j: int| 0 <= j < k ==> self.pipes[j].in_use,
            decreases MAX_PIPES - k,
        {
            k = k + 1;
        }
        if k == MAX_PIPES {
            proof {
                assert(!exists|j: int| 0 <= j < MAX_PIPES && !self.pipes[j].in_use);
            }
            return None;
        }
        proof {
            let c = choose|j: int| 0 <= j < MAX_PIPES && !self.pipes[j].in_use
                && forall|jj: int| 0 <= jj < j ==> self.pipes[jj].in_use;
            assert(0 <= k < MAX_PIPES && !self.pipes[k as int].in_use
                && forall|jj: int| 0 <= jj < k ==> self.pipes[jj].in_use);
            if c < k { assert(self.pipes[c].in_use); }
            if k < c { assert(self.pipes[k as int].in_use); }
            self.lemma_wf_extra();
            assert(self.pipe_ok_with(k as int, Seq::<FdTarget>::empty()));
        }
        self.pipes[k] = Pipe::new();
        let ghost e = Seq::<FdTarget>::empty();
        let ghost e2 = e.push(FdTarget::PipeRead(k)).push(FdTarget::PipeWrite(k));
        proof {
            assert forall|t: FdTarget| #[trigger] fd_count(e2, t) ==
                (if t == FdTarget::PipeRead(k) { 1nat } else { 0nat }) + (if t == FdTarget::PipeWrite(k) { 1nat } else { 0nat }) by {
                let e1 = e.push(FdTarget::PipeRead(k));
                assert(e2.drop_last() =~= e1);
                assert(e1.drop_last() =~= e);
                assert(fd_count(e, t) == 0);
                assert(fd_count(e1, t) == fd_count(e, t) + if e1.last() == t { 1nat } else { 0nat });
                assert(fd_count(e2, t) == fd_count(e1, t) + if e2.last() == t { 1nat } else { 0nat });
            }
            assert forall|j: int| 0 <= j < MAX_OPEN_FILES implies #[trigger] self.open_ok_with(j, e2) by {
                assert(old(self).open_ok_with(j, e));
            }
            assert forall|j: int| 0 <= j < MAX_PIPES implies #[trigger] self.pipe_ok_with(j, e2) by {
                assert(old(self).pipe_ok_with(j, e));
            }
            assert forall|i: int| 0 <= i < e2.len() implies target_in_range(#[trigger] e2[i]) by {}
            assert(e2[0] == FdTarget::PipeRead(k));
        }
        let ghost t1 = *self;
        let read_fd = self.alloc_specific_fd(cur, FdTarget::PipeRead(k), 0, Ghost(e2));
        if read_fd < 0 {
            self.clear_pipe(k);
            proof {
                assert forall|j: int| 0 <= j < MAX_OPEN_FILES implies #[trigger] self.open_ok_with(j, e) by {
                    assert(old(self).open_ok_with(j, e));
                }
                assert forall|j: int| 0 <= j < MAX_PIPES implies #[trigger] self.pipe_ok_with(j, e) by {
                    assert(old(self).pipe_ok_with(j, e));
                }
                self.lemma_wf_extra();
            }
            return None;
        }
        let ghost e1 = e2.drop_first();
        let ghost t2 = *self;
        proof {
            assert(e1 =~= e.push(FdTarget::PipeWrite(k)));
            assert(e1[0] == FdTarget::PipeWrite(k));
        }
        let write_fd = self.alloc_specific_fd(cur, FdTarget::PipeWrite(k), 0, Ghost(e1));
        if write_fd < 0 {
            let rfd = read_fd as usize;
            self.put_fd(cur, rfd, FdTarget::Empty, 0);
            proof {
                assert forall|x: FdTarget| (x is Open || x is PipeRead || x is PipeWrite) implies #[trigger] fd_count(e2, x) + (if FdTarget::Empty == x { 1int } else { 0int })
                    == fd_count(e1, x) + (if t2.processes[cur as int]->0.fds[rfd as int] == x { 1int } else { 0int }) by {
                    lemma_fd_count_first(e2, x);
                }
                assert forall|j: int| 0 <= j < e2.len() implies target_in_range(#[trigger] e2[j]) by {}
                Self::lemma_swap_fd(t2, *self, cur as int, rfd as int, FdTarget::Empty, 0, e1, e2);
            }
            self.release_fd_target(FdTarget::PipeRead(k), Ghost(e2));
            self.clear_pipe(k);
            proof {
                let q = self.processes[cur as int]->0;
                let p0 = old(self).processes[cur as int]->0;
                assert(q.fds@ =~= p0.fds@);
                assert(q.fds == p0.fds);
                assert(q.fd_flags@ =~= p0.fd_flags@.update(rfd as int, 0));
                lemma_first_empty_props(p0.fds@, 3);
                assert(self.processes@ =~= old(self).processes@.update(cur as int, Some(q)));
                assert forall|x: FdTarget| #[trigger] table_count(self.processes@, x) == table_count(old(self).processes@, x) by {
                    lemma_table_count_update(old(self).processes@, cur as int, Some(q), x);
                }
                assert forall|j: int| 0 <= j < MAX_OPEN_FILES implies #[trigger] self.open_ok_with(j, e) by {
                    assert(old(self).open_ok_with(j, e));
                }
                assert forall|j: int| 0 <= j < MAX_PIPES implies #[trigger] self.pipe_ok_with(j, e) by {
                    assert(old(self).pipe_ok_with(j, e));
                }
                assert forall|ss: int, ii: int|
                    0 <= ss < MAX_PROCS && 0 <= ii < MAX_FDS && (#[trigger] self.processes[ss]) is Some
                        implies target_in_range(#[trigger] self.processes[ss]->0.fds[ii]) by {
                    assert(old(self).processes[ss] is Some);
                }
                self.lemma_wf_extra();
            }
            return None;
        }
        proof {
            assert(e1.drop_first() =~= e);
            self.lemma_wf_extra();
            let p0 = old(self).processes[cur as int]->0;
            let p1 = t2.processes[cur as int]->0;
            assert(p1.fds@[write_fd as int] == FdTarget::Empty);
            assert(first_empty_from(p0.fds@, read_fd + 1) == first_empty_from(p1.fds@, 3)) by {
                lemma_first_empty_props(p1.fds@, 3);
                lemma_first_empty_props(p0.fds@, 3);
                assert forall|j: int| read_fd + 1 <= j < write_fd implies p0.fds@[j] != FdTarget::Empty by {
                    assert(p1.fds@[j] == p0.fds@[j]);
                }
                lemma_first_empty(p1.fds@, 3, write_fd as int);
                lemma_first_empty(p0.fds@, read_fd + 1, write_fd as int);
            }
        }
        Some((read_fd as usize, write_fd as usize))
    }

    /// `alloc_pipe`.
    pub fn create_pipe_pair(&mut self, cur: usize) -> (r: Option<(usize, usize)>)
        requires
            old(self).wf(),
            cur < MAX_PROCS,
        ensures
            final(self).wf(),
            ({
                let k = first_free_pipe(*old(self));
                let slot = old(self).processes[cur as int];
                let rd = if slot is Some { first_empty_from(slot->0.fds@, 3) } else { None };
                let wr = if rd is Some { first_empty_from(slot->0.fds@, rd->0 + 1) } else { None };
                if k is None || wr is None {
                    r is None
                } else {
                    &&& r == Some((rd->0 as usize, wr->0 as usize))
                    &&& final(self).processes[cur as int]->0.fds[rd->0] == FdTarget::PipeRead(k->0 as usize)
                    &&& final(self).processes[cur as int]->0.fds[wr->0] == FdTarget::PipeWrite(k->0 as usize)
                }
            }),
    {
        self.alloc_pipe(cur)
    }
}


/// A duplicate refers to what the copied descriptor refers to, and the
/// copied one keeps referring to it, so both share one open-file description
/// (and its offset) or one pipe end.
pub proof fn lemma_dup_shares_target(old_t: ProcTable, new_t: ProcTable, cur: int, old_fd: int, dest: int, flags: u32)
    requires
        0 <= cur < MAX_PROCS,
        0 <= dest < MAX_FDS,
        dest != old_fd,
        fd_target_of(old_t, cur, old_fd) is Some,
        fd_set_in(old_t, new_t, cur, dest, fd_target_of(old_t, cur, old_fd)->0, flags),
    ensures
        fd_target_of(new_t, cur, dest) == fd_target_of(old_t, cur, old_fd),
        fd_target_of(new_t, cur, old_fd) == fd_target_of(old_t, cur, old_fd),
{
    let p = old_t.processes[cur]->0;
    let q = new_t.processes[cur]->0;
    assert(q.fds@[dest] == p.fds@[old_fd]);
    assert(q.fds@[old_fd] == p.fds@[old_fd]);
}

} // verus!
