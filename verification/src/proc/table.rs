//! The kernel's process-wide tables and the invariant that ties reference
//! counts to the descriptors that hold them.
use vstd::prelude::*;
use super::state::{FdTarget, OpenFile, Pipe, Process, Thread, MAX_FDS, MAX_OPEN_FILES, MAX_PIPES, MAX_PROCS, PIPE_CAPACITY};

verus! {

/// Number of descriptors in `fds` that refer to `t`.
pub open spec fn fd_count(fds: Seq<FdTarget>, t: FdTarget) -> nat
    decreases fds.len(),
{
    if fds.len() == 0 {
        0
    } else {
        fd_count(fds.drop_last(), t) + if fds.last() == t { 1nat } else { 0nat }
    }
}

/// Number of descriptors of a process slot that refer to `t`.
pub open spec fn proc_count(p: Option<Process>, t: FdTarget) -> nat {
    match p {
        Some(p) => fd_count(p.fds@, t),
        None => 0,
    }
}

/// Number of descriptors, over all process slots, that refer to `t`.
pub open spec fn table_count(procs: Seq<Option<Process>>, t: FdTarget) -> nat
    decreases procs.len(),
{
    if procs.len() == 0 {
        0
    } else {
        table_count(procs.drop_last(), t) + proc_count(procs.last(), t)
    }
}

pub proof fn lemma_fd_count_update(fds: Seq<FdTarget>, i: int, v: FdTarget, t: FdTarget)
    requires
        0 <= i < fds.len(),
    ensures
        fd_count(fds.update(i, v), t) + (if fds[i] == t { 1int } else { 0int })
            == fd_count(fds, t) + (if v == t { 1int } else { 0int }),
    decreases fds.len(),
{
    if i == fds.len() - 1 {
        assert(fds.update(i, v).drop_last() =~= fds.drop_last());
    } else {
        lemma_fd_count_update(fds.drop_last(), i, v, t);
        assert(fds.update(i, v).drop_last() =~= fds.drop_last().update(i, v));
    }
}

pub proof fn lemma_fd_count_le(fds: Seq<FdTarget>, t: FdTarget)
    ensures
        fd_count(fds, t) <= fds.len(),
    decreases fds.len(),
{
    if fds.len() > 0 {
        lemma_fd_count_le(fds.drop_last(), t);
    }
}

pub proof fn lemma_fd_count_zero(fds: Seq<FdTarget>, t: FdTarget)
    requires
        forall|i: int| 0 <= i < fds.len() ==> fds[i] != t,
    ensures
        fd_count(fds, t) == 0,
    decreases fds.len(),
{
    if fds.len() > 0 {
        lemma_fd_count_zero(fds.drop_last(), t);
    }
}

pub proof fn lemma_fd_count_pos(fds: Seq<FdTarget>, i: int, t: FdTarget)
    requires
        0 <= i < fds.len(),
        fds[i] == t,
    ensures
        fd_count(fds, t) >= 1,
{
    let other = if t == FdTarget::Empty { FdTarget::Tty } else { FdTarget::Empty };
    lemma_fd_count_update(fds, i, other, t);
}

pub proof fn lemma_table_count_update(procs: Seq<Option<Process>>, s: int, v: Option<Process>, t: FdTarget)
    requires
        0 <= s < procs.len(),
    ensures
        table_count(procs.update(s, v), t) + proc_count(procs[s], t)
            == table_count(procs, t) + proc_count(v, t),
    decreases procs.len(),
{
    if s == procs.len() - 1 {
        assert(procs.update(s, v).drop_last() =~= procs.drop_last());
    } else {
        lemma_table_count_update(procs.drop_last(), s, v, t);
        assert(procs.update(s, v).drop_last() =~= procs.drop_last().update(s, v));
    }
}

pub proof fn lemma_table_count_le(procs: Seq<Option<Process>>, t: FdTarget)
    ensures
        table_count(procs, t) <= 16 * procs.len(),
    decreases procs.len(),
{
    if procs.len() > 0 {
        lemma_table_count_le(procs.drop_last(), t);
        match procs.last() {
            Some(p) => lemma_fd_count_le(p.fds@, t),
            None => {},
        }
    }
}

pub proof fn lemma_table_count_pos(procs: Seq<Option<Process>>, s: int, i: int, t: FdTarget)
    requires
        0 <= s < procs.len(),
        procs[s] is Some,
        0 <= i < 16,
        procs[s]->0.fds[i] == t,
    ensures
        table_count(procs, t) >= 1,
{
    lemma_fd_count_pos(procs[s]->0.fds@, i, t);
    lemma_table_count_update(procs, s, None, t);
}

pub proof fn lemma_fd_count_first(fds: Seq<FdTarget>, t: FdTarget)
    requires
        fds.len() >= 1,
    ensures
        fd_count(fds, t) == fd_count(fds.drop_first(), t) + if fds[0] == t { 1nat } else { 0nat },
    decreases fds.len(),
{
    if fds.len() == 1 {
        assert(fds.drop_first() =~= Seq::<FdTarget>::empty());
        assert(fds.drop_last() =~= Seq::<FdTarget>::empty());
    } else {
        lemma_fd_count_first(fds.drop_last(), t);
        assert(fds.drop_last().drop_first() =~= fds.drop_first().drop_last());
        assert(fds.drop_first().last() == fds.last());
    }
}

/// Whether a descriptor target names a table slot that exists.
pub open spec fn target_in_range(t: FdTarget) -> bool {
    match t {
        FdTarget::Open(k) => k < MAX_OPEN_FILES,
        FdTarget::PipeRead(k) => k < MAX_PIPES,
        FdTarget::PipeWrite(k) => k < MAX_PIPES,
        _ => true,
    }
}

/// The process, thread, open-file and pipe tables of the kernel.
pub struct ProcTable {
    /// Process records, indexed by the task slot of the group leader.
    pub processes: [Option<Process>; 8],
    /// Thread records, indexed by task slot.
    pub threads: [Option<Thread>; 8],
    /// Shared open-file descriptions.
    pub open_files: [OpenFile; 32],
    /// Pipe ring buffers.
    pub pipes: [Pipe; 16],
    /// Next process or thread identifier.
    pub next_pid: usize,
}

impl ProcTable {
    /// Open-file description `k` is counted right: in use exactly when some
    /// descriptor refers to it, and its reference count is their number.
    pub open spec fn open_ok(&self, k: int) -> bool {
        let c = table_count(self.processes@, FdTarget::Open(k as usize));
        if self.open_files[k].in_use {
            self.open_files[k].refs == c && c >= 1
        } else {
            c == 0
        }
    }

    /// Pipe `k` is counted right: each end's reference count is the number of
    /// descriptors for it, and a pipe nobody refers to is not in use.
    pub open spec fn pipe_ok(&self, k: int) -> bool {
        let r = table_count(self.processes@, FdTarget::PipeRead(k as usize));
        let w = table_count(self.processes@, FdTarget::PipeWrite(k as usize));
        if self.pipes[k].in_use {
            self.pipes[k].read_refs == r && self.pipes[k].write_refs == w && r + w >= 1
                && pipe_wf(self.pipes[k])
        } else {
            r == 0 && w == 0
        }
    }

    /// Every descriptor of every process names an existing table slot.
    pub open spec fn targets_ok(&self) -> bool {
        forall|s: int, i: int|
            0 <= s < MAX_PROCS && 0 <= i < MAX_FDS && (#[trigger] self.processes[s]) is Some
                ==> target_in_range(#[trigger] self.processes[s]->0.fds[i])
    }

    /// Every thread belongs to a group slot of the table.
    pub open spec fn threads_ok(&self) -> bool {
        forall|s: int| 0 <= s < MAX_PROCS && (#[trigger] self.threads[s]) is Some
            ==> self.threads[s]->0.group_slot < MAX_PROCS
    }

    /// Open-file description `k` is counted right once the descriptors in
    /// `extra`, which hold references but sit in no process, are counted too.
    pub open spec fn open_ok_with(&self, k: int, extra: Seq<FdTarget>) -> bool {
        let c = table_count(self.processes@, FdTarget::Open(k as usize)) + fd_count(extra, FdTarget::Open(k as usize));
        if self.open_files[k].in_use {
            self.open_files[k].refs == c && c >= 1
        } else {
            c == 0
        }
    }

    /// Pipe `k` is counted right once the descriptors in `extra` are counted too.
    pub open spec fn pipe_ok_with(&self, k: int, extra: Seq<FdTarget>) -> bool {
        let r = table_count(self.processes@, FdTarget::PipeRead(k as usize)) + fd_count(extra, FdTarget::PipeRead(k as usize));
        let w = table_count(self.processes@, FdTarget::PipeWrite(k as usize)) + fd_count(extra, FdTarget::PipeWrite(k as usize));
        if self.pipes[k].in_use {
            self.pipes[k].read_refs == r && self.pipes[k].write_refs == w && r + w >= 1
                && pipe_wf(self.pipes[k])
        } else {
            r == 0 && w == 0
        }
    }

    /// The table invariant, with the references held by the descriptors in `extra`.
    pub open spec fn extra_ok(&self, extra: Seq<FdTarget>) -> bool {
        &&& forall|k: int| 0 <= k < MAX_OPEN_FILES ==> #[trigger] self.open_ok_with(k, extra)
        &&& forall|k: int| 0 <= k < MAX_PIPES ==> #[trigger] self.pipe_ok_with(k, extra)
        &&& self.targets_ok()
        &&& self.threads_ok()
        &&& forall|i: int| 0 <= i < extra.len() ==> target_in_range(#[trigger] extra[i])
    }

    pub proof fn lemma_wf_extra(&self)
        ensures
            self.wf() <==> self.extra_ok(Seq::<FdTarget>::empty()),
    {
        let e = Seq::<FdTarget>::empty();
        assert forall|t: FdTarget| #[trigger] fd_count(e, t) == 0 by {}
        if self.wf() {
            assert forall|k: int| 0 <= k < MAX_OPEN_FILES implies #[trigger] self.open_ok_with(k, e) by {
                assert(self.open_ok(k));
            }
            assert forall|k: int| 0 <= k < MAX_PIPES implies #[trigger] self.pipe_ok_with(k, e) by {
                assert(self.pipe_ok(k));
            }
        }
        if self.extra_ok(e) {
            assert forall|k: int| 0 <= k < MAX_OPEN_FILES implies #[trigger] self.open_ok(k) by {
                assert(self.open_ok_with(k, e));
            }
            assert forall|k: int| 0 <= k < MAX_PIPES implies #[trigger] self.pipe_ok(k) by {
                assert(self.pipe_ok_with(k, e));
            }
        }
    }

    /// The table invariant.
    pub open spec fn wf(&self) -> bool {
        &&& forall|k: int| 0 <= k < MAX_OPEN_FILES ==> #[trigger] self.open_ok(k)
        &&& forall|k: int| 0 <= k < MAX_PIPES ==> #[trigger] self.pipe_ok(k)
        &&& self.targets_ok()
        &&& self.threads_ok()
    }

    /// Empty tables.
    pub fn new() -> (t: Self)
        ensures
            t.wf(),
            t.next_pid == 1,
            forall|s: int| 0 <= s < MAX_PROCS ==> #[trigger] t.processes[s] is None,
            forall|s: int| 0 <= s < MAX_PROCS ==> #[trigger] t.threads[s] is None,
            forall|k: int| 0 <= k < MAX_OPEN_FILES ==> !(#[trigger] t.open_files[k]).in_use,
            forall|k: int| 0 <= k < MAX_PIPES ==> !(#[trigger] t.pipes[k]).in_use,
    {
        let t = ProcTable {
            processes: [None, None, None, None, None, None, None, None],
            threads: [None, None, None, None, None, None, None, None],
            open_files: [OpenFile::empty(); 32],
            pipes: [Pipe::empty(); 16],
            next_pid: 1,
        };
        proof {
            assert forall|tg: FdTarget| table_count(t.processes@, tg) == 0 by {
                lemma_table_count_none(t.processes@, tg);
            }
        }
        t
    }
}

pub proof fn lemma_table_count_none(procs: Seq<Option<Process>>, t: FdTarget)
    requires
        forall|s: int| 0 <= s < procs.len() ==> procs[s] is None,
    ensures
        table_count(procs, t) == 0,
    decreases procs.len(),
{
    if procs.len() > 0 {
        lemma_table_count_none(procs.drop_last(), t);
    }
}

proof fn lemma_table_count_pointwise(a: Seq<Option<Process>>, b: Seq<Option<Process>>, t: FdTarget)
    requires
        a.len() == b.len(),
        forall|s: int| 0 <= s < a.len() ==> proc_count(#[trigger] a[s], t) == proc_count(b[s], t),
    ensures
        table_count(a, t) == table_count(b, t),
    decreases a.len(),
{
    if a.len() > 0 {
        assert(proc_count(a[a.len() - 1], t) == proc_count(b[b.len() - 1], t));
        lemma_table_count_pointwise(a.drop_last(), b.drop_last(), t);
    }
}

/// Changing process and thread records without touching which slots hold a
/// process or what their descriptors are keeps the table invariant, as long as
/// every thread still names a group slot of the table.
pub proof fn lemma_wf_same_fds(a: ProcTable, b: ProcTable)
    requires
        a.wf(),
        b.open_files == a.open_files,
        b.pipes == a.pipes,
        b.threads_ok(),
        forall|s: int| 0 <= s < MAX_PROCS ==> (#[trigger] b.processes[s] is Some) == (a.processes[s] is Some),
        forall|s: int| 0 <= s < MAX_PROCS && (#[trigger] b.processes[s]) is Some ==> b.processes[s]->0.fds == a.processes[s]->0.fds,
    ensures
        b.wf(),
{
    assert forall|t: FdTarget| #[trigger] table_count(b.processes@, t) == table_count(a.processes@, t) by {
        assert forall|s: int| 0 <= s < b.processes@.len() implies proc_count(#[trigger] b.processes@[s], t) == proc_count(a.processes@[s], t) by {
            assert(b.processes[s] is Some == (a.processes[s] is Some));
        }
        lemma_table_count_pointwise(b.processes@, a.processes@, t);
    }
    assert forall|k: int| 0 <= k < MAX_OPEN_FILES implies #[trigger] b.open_ok(k) by {
        assert(a.open_ok(k));
    }
    assert forall|k: int| 0 <= k < MAX_PIPES implies #[trigger] b.pipe_ok(k) by {
        assert(a.pipe_ok(k));
    }
    assert forall|s: int, i: int|
        0 <= s < MAX_PROCS && 0 <= i < MAX_FDS && (#[trigger] b.processes[s]) is Some
            implies target_in_range(#[trigger] b.processes[s]->0.fds[i]) by {
        assert(a.processes[s] is Some);
        assert(target_in_range(a.processes[s]->0.fds[i]));
    }
}

/// A pipe's ring-buffer fields are in range.
pub open spec fn pipe_wf(p: Pipe) -> bool {
    &&& p.read_pos < PIPE_CAPACITY
    &&& p.write_pos < PIPE_CAPACITY
    &&& p.len <= PIPE_CAPACITY
    &&& p.write_pos == (p.read_pos + p.len) % (PIPE_CAPACITY as int)
}

/// The bytes held by a pipe, oldest first.
pub open spec fn pipe_contents(p: Pipe) -> Seq<u8> {
    Seq::new(p.len as nat, |i: int| p.buf[(p.read_pos + i) % (PIPE_CAPACITY as int)])
}

} // verus!
