//! Process and thread lifecycle: spawning, lookups of the current process,
//! exits, and reaping of thread records.
use vstd::prelude::*;
use super::state::{
    default_fds_spec, fresh_leader, thread_fresh, sigset_empty, FdTarget, Process, ProcessState,
    Thread, ThreadState, EXE_PATH_MAX, MAX_PROCS,
};
use super::table::{
    fd_count, lemma_fd_count_zero, lemma_table_count_update, lemma_wf_same_fds, table_count, ProcTable,
};
use super::fd::{current_process_of, lemma_extra_ok_same_tables, slot_fds};
use super::task::{TaskState, TaskTable, MAX_TASKS};

verus! {

/// Number of occupied slots in `s`.
pub open spec fn count_some<T>(s: Seq<Option<T>>) -> nat
    decreases s.len(),
{
    if s.len() == 0 {
        0
    } else {
        count_some(s.drop_last()) + if s.last() is Some { 1nat } else { 0nat }
    }
}

/// The first slot whose record satisfies `f`, if any.
pub open spec fn first_slot<T>(s: Seq<Option<T>>, f: spec_fn(T) -> bool) -> Option<int> {
    if exists|i: int| 0 <= i < s.len() && s[i] is Some && f(s[i]->0) {
        Some(choose|i: int| 0 <= i < s.len() && s[i] is Some && f(s[i]->0)
            && forall|j: int| 0 <= j < i ==> !(s[j] is Some && f(s[j]->0)))
    } else {
        None
    }
}

proof fn lemma_first_slot<T>(s: Seq<Option<T>>, f: spec_fn(T) -> bool, i: int)
    requires
        0 <= i <= s.len(),
        forall|j: int| 0 <= j < i ==> !(s[j] is Some && f(s[j]->0)),
        i < s.len() ==> s[i] is Some && f(s[i]->0),
    ensures
        first_slot(s, f) == (if i < s.len() { Some(i) } else { None }),
{
    if i < s.len() {
        let c = choose|k: int| 0 <= k < s.len() && s[k] is Some && f(s[k]->0)
            && forall|j: int| 0 <= j < k ==> !(s[j] is Some && f(s[j]->0));
        assert(0 <= i < s.len() && s[i] is Some && f(s[i]->0)
            && forall|j: int| 0 <= j < i ==> !(s[j] is Some && f(s[j]->0)));
        if c < i { assert(!(s[c] is Some && f(s[c]->0))); }
        if i < c { assert(!(s[i] is Some && f(s[i]->0))); }
    }
}

/// `new` is `old` with the thread record of `slot` dropped when that thread
/// is not the leader of its group; unchanged otherwise.
pub open spec fn reaped_thread(old: ProcTable, new: ProcTable, slot: int) -> bool {
    &&& new.processes == old.processes && new.open_files == old.open_files
    &&& new.pipes == old.pipes && new.next_pid == old.next_pid
    &&& forall|j: int| 0 <= j < MAX_PROCS && j != slot ==> new.threads[j] == old.threads[j]
    &&& new.threads[slot] == (match old.threads[slot] {
        Some(t) => if t.group_slot != slot { None } else { Some(t) },
        None => None,
    })
}

impl ProcTable {
    /// `self` is `old` after reaping the thread record of task slot `slot`.
    pub open spec fn task_reaped_from(&self, old: ProcTable, slot: int) -> bool {
        reaped_thread(old, *self, slot)
    }

    /// Drop the thread record of task slot `slot` unless it leads its group:
    /// a leader's record stays until its process is reaped.
    pub fn task_slot_reaped(&mut self, slot: usize)
        requires
            old(self).wf(),
            slot < MAX_PROCS,
        ensures
            final(self).wf(),
            reaped_thread(*old(self), *final(self), slot as int),
    {
        let t = match self.threads[slot] {
            Some(t) => t,
            None => return,
        };
        if t.group_slot != slot {
            let ghost before = *self;
            self.threads[slot] = None;
            proof { lemma_wf_same_fds(before, *self); }
        }
    }

    /// Process identifier of the current process, 0 without one.
    pub fn current_pid(&self, cur: usize) -> (r: usize)
        requires
            cur < MAX_PROCS,
        ensures
            r == (match current_process_of(*self, cur as int) { Some(p) => p.pid, None => 0 }),
    {
        match self.current_process(cur) {
            Some(p) => p.pid,
            None => 0,
        }
    }

    /// Program break of the current process, 0 without one.
    pub fn current_brk(&self, cur: usize) -> (r: usize)
        requires
            cur < MAX_PROCS,
        ensures
            r == (match current_process_of(*self, cur as int) { Some(p) => p.program_break, None => 0 }),
    {
        match self.current_process(cur) {
            Some(p) => p.program_break,
            None => 0,
        }
    }

    /// Parent's identifier of the current process, 0 without one.
    pub fn current_ppid(&self, cur: usize) -> (r: usize)
        requires
            cur < MAX_PROCS,
        ensures
            r == (match current_process_of(*self, cur as int) { Some(p) => p.parent_pid, None => 0 }),
    {
        match self.current_process(cur) {
            Some(p) => p.parent_pid,
            None => 0,
        }
    }

    /// Thread identifier of the current thread, 0 without one.
    pub fn current_tid(&self, cur: usize) -> (r: usize)
        requires
            cur < MAX_PROCS,
        ensures
            r == (match self.threads[cur as int] { Some(t) => t.tid, None => 0 }),
    {
        match self.current_thread(cur) {
            Some(t) => t.tid,
            None => 0,
        }
    }

    /// Thread-local base of the current thread, 0 without one.
    pub fn current_fs_base(&self, cur: usize) -> (r: u64)
        requires
            cur < MAX_PROCS,
        ensures
            r == (match self.threads[cur as int] { Some(t) => t.fs_base, None => 0 }),
    {
        match self.current_thread(cur) {
            Some(t) => t.fs_base,
            None => 0,
        }
    }

    /// Executable path of the current process, empty without one.
    pub fn current_exe_path(&self, cur: usize) -> (r: ([u8; 64], usize))
        requires
            cur < MAX_PROCS,
        ensures
            match current_process_of(*self, cur as int) {
                Some(p) => r.0 == p.exe_path && r.1 == p.exe_path_len,
                None => r.1 == 0 && forall|i: int| 0 <= i < EXE_PATH_MAX ==> #[trigger] r.0[i] == 0,
            },
    {
        match self.current_process(cur) {
            Some(p) => (p.exe_path, p.exe_path_len),
            None => ([0u8; 64], 0),
        }
    }

    /// The thread record of task slot `cur`.
    pub fn current_thread(&self, cur: usize) -> (r: Option<Thread>)
        requires
            cur < MAX_PROCS,
        ensures
            r == self.threads[cur as int],
    {
        self.threads[cur]
    }

    /// The process record of the current thread's group.
    pub fn current_process(&self, cur: usize) -> (r: Option<Process>)
        requires
            cur < MAX_PROCS,
        ensures
            r == current_process_of(*self, cur as int),
    {
        match self.threads[cur] {
            Some(t) => if t.group_slot < MAX_PROCS { self.processes[t.group_slot] } else { None },
            None => None,
        }
    }

    /// Number of occupied process slots.
    pub fn active_process_count(&self) -> (r: usize)
        ensures
            r == count_some(self.processes@),
    {
        let mut n: usize = 0;
        let mut i: usize = 0;
        while i < MAX_PROCS
            invariant
                i <= MAX_PROCS,
                n == count_some(self.processes@.take(i as int)),
                n <= i,
            decreases MAX_PROCS - i,
        {
            proof {
                assert(self.processes@.take(i + 1).drop_last() =~= self.processes@.take(i as int));
            }
            if self.processes[i].is_some() {
                n = n + 1;
            }
            i = i + 1;
        }
        assert(self.processes@.take(8) =~= self.processes@);
        n
    }

    /// Set the program break of the current process; nothing happens without one.
    pub fn set_brk(&mut self, cur: usize, new_brk: usize)
        requires
            old(self).wf(),
            cur < MAX_PROCS,
        ensures
            final(self).wf(),
            match super::vm::current_group_of(*old(self), cur as int) {
                Some(g) => super::vm::process_replaced(*old(self), *final(self), g,
                    Process { program_break: new_brk, ..old(self).processes[g]->0 }),
                None => *final(self) == *old(self),
            },
    {
        let g = match self.current_group(cur) {
            Some(g) => g,
            None => return,
        };
        let mut p = match self.processes[g] {
            Some(p) => p,
            None => return,
        };
        let ghost before = *self;
        p.program_break = new_brk;
        self.processes[g] = Some(p);
        proof { lemma_wf_same_fds(before, *self); }
    }

    /// Whether the process in `slot` is running.
    pub fn is_running_in_slot(&self, slot: usize) -> (r: bool)
        requires
            slot < MAX_PROCS,
        ensures
            r == (self.processes[slot as int] matches Some(p) && p.state == ProcessState::Running),
    {
        match &self.processes[slot] {
            Some(p) => p.state == ProcessState::Running,
            None => false,
        }
    }

    /// The first slot holding the process with identifier `pid`.
    pub fn find_slot_by_pid(&self, pid: usize) -> (r: Option<usize>)
        ensures
            match r {
                Some(s) => first_slot(self.processes@, |p: Process| p.pid == pid) == Some(s as int),
                None => first_slot(self.processes@, |p: Process| p.pid == pid) is None,
            },
    {
        let ghost f = |p: Process| p.pid == pid;
        let mut i: usize = 0;
        while i < MAX_PROCS
            invariant
                i <= MAX_PROCS,
                f == (|p: Process| p.pid == pid),
                forall|j: int| 0 <= j < i ==> !((#[trigger] self.processes@[j]) is Some && f(self.processes@[j]->0)),
            decreases MAX_PROCS - i,
        {
            if let Some(p) = &self.processes[i] {
                if p.pid == pid {
                    proof { lemma_first_slot(self.processes@, f, i as int); }
                    return Some(i);
                }
            }
            i = i + 1;
        }
        proof { lemma_first_slot(self.processes@, f, 8); }
        None
    }

    /// The first slot holding the thread with identifier `tid`.
    pub fn find_thread_slot_by_tid(&self, tid: usize) -> (r: Option<usize>)
        ensures
            match r {
                Some(s) => first_slot(self.threads@, |t: Thread| t.tid == tid) == Some(s as int),
                None => first_slot(self.threads@, |t: Thread| t.tid == tid) is None,
            },
    {
        let ghost f = |t: Thread| t.tid == tid;
        let mut i: usize = 0;
        while i < MAX_PROCS
            invariant
                i <= MAX_PROCS,
                f == (|t: Thread| t.tid == tid),
                forall|j: int| 0 <= j < i ==> !((#[trigger] self.threads@[j]) is Some && f(self.threads@[j]->0)),
            decreases MAX_PROCS - i,
        {
            if let Some(t) = &self.threads[i] {
                if t.tid == tid {
                    proof { lemma_first_slot(self.threads@, f, i as int); }
                    return Some(i);
                }
            }
            i = i + 1;
        }
        proof { lemma_first_slot(self.threads@, f, 8); }
        None
    }
}

/// Whether a thread slot holds a thread of group slot `g`.
pub open spec fn in_group(t: Option<Thread>, g: int) -> bool {
    t matches Some(x) && x.group_slot == g
}

/// A thread record after its thread exits.
pub open spec fn zombie(t: Thread) -> Thread {
    Thread { state: ThreadState::Zombie, ..t }
}

/// A task slot after the task in it is killed.
pub open spec fn killed(t: Option<super::task::Task>) -> Option<super::task::Task> {
    match t {
        Some(task) => Some(super::task::Task { state: TaskState::Dead, ..task }),
        None => None,
    }
}

/// The records of a new thread group led by a thread in `slot`: process `p`
/// and thread `t`, with identifier `pid`, parent `parent`, name `name` and page table `pml4`.
pub open spec fn spawned(p: Process, t: Thread, slot: int, pid: usize, parent: usize, name: Seq<char>, pml4: usize) -> bool {
    &&& fresh_leader(p, pid, parent, name) && p.pml4 == pml4
    &&& t.tid == pid && t.parent_tid == parent
    &&& t.group_slot == slot && t.task_slot == slot
    &&& thread_fresh(t) && t.clear_child_tid == 0 && t.fs_base == 0 && sigset_empty(t.sig_mask)
}

impl ProcTable {
    /// Start a thread group in `task_slot`: a fresh identifier, the current
    /// process as parent, the executable name `name` and page table `pml4`;
    /// its leader thread goes in the same slot. Returns the identifier.
    ///
    /// A process record already in `task_slot` is overwritten; the references its
    /// descriptors held then stay counted with no descriptor holding them.
    pub fn spawn_named(&mut self, cur: usize, task_slot: usize, pml4: usize, name: &[char]) -> (pid: usize)
        requires
            old(self).wf(),
            cur < MAX_PROCS,
            task_slot < MAX_PROCS,
        ensures
            pid == old(self).next_pid,
            final(self).next_pid == old(self).next_pid.wrapping_add(1),
            final(self).processes[task_slot as int] is Some && final(self).threads[task_slot as int] is Some,
            spawned(final(self).processes[task_slot as int]->0, final(self).threads[task_slot as int]->0,
                task_slot as int, pid, old(self).current_pid_spec(cur as int), name@, pml4),
            forall|j: int| 0 <= j < MAX_PROCS && j != task_slot ==> final(self).processes[j] == old(self).processes[j],
            forall|j: int| 0 <= j < MAX_PROCS && j != task_slot ==> final(self).threads[j] == old(self).threads[j],
            final(self).open_files == old(self).open_files && final(self).pipes == old(self).pipes,
            final(self).extra_ok(slot_fds(old(self).processes[task_slot as int])),
            old(self).processes[task_slot as int] is None ==> final(self).wf(),
    {
        let pid = self.next_pid;
        let parent_pid = self.current_pid(cur);
        let mut p = Process::new_leader(pid, parent_pid, name);
        p.pml4 = pml4;
        let t = Thread::new_leader(pid, parent_pid, task_slot, task_slot);
        let ghost t0 = *self;
        let ghost old_slot = self.processes[task_slot as int];
        self.processes[task_slot] = Some(p);
        self.threads[task_slot] = Some(t);
        self.next_pid = self.next_pid.wrapping_add(1);
        proof {
            let rest = slot_fds(old_slot);
            assert(self.processes@ =~= t0.processes@.update(task_slot as int, Some(p)));
            assert forall|x: FdTarget| (x is Open || x is PipeRead || x is PipeWrite) implies
                #[trigger] table_count(self.processes@, x) + fd_count(rest, x) == table_count(t0.processes@, x) by {
                lemma_table_count_update(t0.processes@, task_slot as int, Some(p), x);
                assert forall|i: int| 0 <= i < p.fds@.len() implies p.fds@[i] != x by {
                    assert(p.fds@[i] == default_fds_spec()[i]);
                }
                lemma_fd_count_zero(p.fds@, x);
                if old_slot is None {
                    assert(fd_count(rest, x) == 0);
                }
            }
            assert forall|k: int| 0 <= k < 32 implies #[trigger] self.open_ok_with(k, rest) by {
                assert(t0.open_ok(k));
                assert(table_count(self.processes@, FdTarget::Open(k as usize)) + fd_count(rest, FdTarget::Open(k as usize))
                    == table_count(t0.processes@, FdTarget::Open(k as usize)));
            }
            assert forall|k: int| 0 <= k < 16 implies #[trigger] self.pipe_ok_with(k, rest) by {
                assert(t0.pipe_ok(k));
                assert(table_count(self.processes@, FdTarget::PipeRead(k as usize)) + fd_count(rest, FdTarget::PipeRead(k as usize))
                    == table_count(t0.processes@, FdTarget::PipeRead(k as usize)));
                assert(table_count(self.processes@, FdTarget::PipeWrite(k as usize)) + fd_count(rest, FdTarget::PipeWrite(k as usize))
                    == table_count(t0.processes@, FdTarget::PipeWrite(k as usize)));
            }
            assert forall|ss: int, ii: int|
                0 <= ss < MAX_PROCS && 0 <= ii < 16 && (#[trigger] self.processes[ss]) is Some
                    implies super::table::target_in_range(#[trigger] self.processes[ss]->0.fds[ii]) by {
                if ss != task_slot {
                    assert(t0.processes[ss] is Some);
                } else {
                    assert(p.fds@[ii] == default_fds_spec()[ii]);
                }
            }
            assert forall|s: int| 0 <= s < MAX_PROCS && (#[trigger] self.threads[s]) is Some
                implies self.threads[s]->0.group_slot < MAX_PROCS by {
                if s != task_slot {
                    assert(t0.threads[s] is Some);
                }
            }
            assert forall|j: int| 0 <= j < rest.len() implies super::table::target_in_range(#[trigger] rest[j]) by {
                assert(t0.processes[task_slot as int] is Some);
                assert(super::table::target_in_range(t0.processes[task_slot as int]->0.fds[j]));
            }
            if old_slot is None {
                assert(rest =~= Seq::<FdTarget>::empty());
                self.lemma_wf_extra();
            }
        }
        pid
    }

    /// `spawn_named` with an empty name.
    pub fn spawn(&mut self, cur: usize, task_slot: usize, pml4: usize) -> (pid: usize)
        requires
            old(self).wf(),
            cur < MAX_PROCS,
            task_slot < MAX_PROCS,
        ensures
            pid == old(self).next_pid,
            final(self).next_pid == old(self).next_pid.wrapping_add(1),
            final(self).processes[task_slot as int] is Some && final(self).threads[task_slot as int] is Some,
            spawned(final(self).processes[task_slot as int]->0, final(self).threads[task_slot as int]->0,
                task_slot as int, pid, old(self).current_pid_spec(cur as int), Seq::<char>::empty(), pml4),
            forall|j: int| 0 <= j < MAX_PROCS && j != task_slot ==> final(self).processes[j] == old(self).processes[j],
            forall|j: int| 0 <= j < MAX_PROCS && j != task_slot ==> final(self).threads[j] == old(self).threads[j],
            final(self).open_files == old(self).open_files && final(self).pipes == old(self).pipes,
            final(self).extra_ok(slot_fds(old(self).processes[task_slot as int])),
            old(self).processes[task_slot as int] is None ==> final(self).wf(),
    {
        let empty: [char; 0] = [];
        let pid = self.spawn_named(cur, task_slot, pml4, &empty);
        assert(empty@ =~= Seq::<char>::empty());
        pid
    }

    /// Identifier of the current process, 0 without one.
    pub open spec fn current_pid_spec(&self, cur: int) -> usize {
        match current_process_of(*self, cur) { Some(p) => p.pid, None => 0 }
    }

    /// End the current thread with `code`; see `exit_thread`.
    pub fn exit(&mut self, cur: usize, tasks: &mut TaskTable, code: i64)
        requires
            old(self).wf(),
            old(tasks).wf(),
            cur < MAX_PROCS,
        ensures
            final(self).wf(),
            final(tasks).wf(),
            exit_outcome(*old(self), *final(self), *old(tasks), *final(tasks), cur as int, code, false, final(self).exit_result(*old(self), cur as int, false)),
    {
        let _ = self.exit_thread(cur, tasks, code, false);
    }

    /// Whether `exit_thread` ended the whole process, as its result reports it.
    pub open spec fn exit_result(&self, old: ProcTable, cur: int, whole_group: bool) -> bool {
        match old.threads[cur] {
            None => false,
            Some(th) => match old.processes[th.group_slot as int] {
                None => false,
                Some(p) => whole_group || p.thread_count <= 1,
            },
        }
    }

    /// End the current thread with exit code `code`. The thread becomes a
    /// zombie. With `whole_group`, every thread of its group does too, their
    /// tasks other than this thread's are killed, and the process becomes a
    /// zombie with `code`; otherwise the process's thread count drops by one
    /// and the process becomes a zombie with `code` when none is left. Returns
    /// whether the process ended.
    pub fn exit_thread(&mut self, cur: usize, tasks: &mut TaskTable, code: i64, whole_group: bool) -> (r: bool)
        requires
            old(self).wf(),
            old(tasks).wf(),
            cur < MAX_PROCS,
        ensures
            final(self).wf(),
            final(tasks).wf(),
            r == final(self).exit_result(*old(self), cur as int, whole_group),
            exit_outcome(*old(self), *final(self), *old(tasks), *final(tasks), cur as int, code, whole_group, r),
    {
        let th = match self.threads[cur] {
            Some(t) => t,
            None => return false,
        };
        let g = th.group_slot;
        let ts = th.task_slot;
        let ghost t0 = *self;
        self.threads[cur] = Some(Thread { state: ThreadState::Zombie, ..th });
        proof { lemma_wf_same_fds(t0, *self); }
        let mut p = match self.processes[g] {
            Some(p) => p,
            None => return false,
        };
        if whole_group {
            let ghost t1 = *self;
            p.state = ProcessState::Zombie;
            p.exit_code = code;
            p.thread_count = 0;
            self.processes[g] = Some(p);
            proof { lemma_wf_same_fds(t1, *self); }
            let ghost t2 = *self;
            let mut slot: usize = 0;
            while slot < MAX_PROCS
                invariant
                    slot <= MAX_PROCS,
                    g < MAX_PROCS,
                    self.wf(),
                    tasks.wf(),
                    self.processes == t2.processes && self.open_files == t2.open_files,
                    self.pipes == t2.pipes && self.next_pid == t2.next_pid,
                    forall|j: int| 0 <= j < slot ==> #[trigger] self.threads[j] == (match t2.threads[j] {
                        Some(t) => if t.group_slot == g { Some(zombie(t)) } else { Some(t) },
                        None => None,
                    }),
                    forall|j: int| slot <= j < MAX_PROCS ==> #[trigger] self.threads[j] == t2.threads[j],
                    forall|j: int| 0 <= j < slot ==> #[trigger] tasks.tasks[j] == (if j != ts && in_group(t2.threads[j], g as int) {
                        killed(old(tasks).tasks[j])
                    } else {
                        old(tasks).tasks[j]
                    }),
                    forall|j: int| slot <= j < MAX_TASKS ==> #[trigger] tasks.tasks[j] == old(tasks).tasks[j],
                    tasks.current == old(tasks).current && tasks.next_id == old(tasks).next_id,
                decreases MAX_PROCS - slot,
            {
                if let Some(t) = self.threads[slot] {
                    if t.group_slot == g {
                        let ghost t3 = *self;
                        self.threads[slot] = Some(Thread { state: ThreadState::Zombie, ..t });
                        proof { lemma_wf_same_fds(t3, *self); }
                        if slot != ts {
                            tasks.kill_task(slot);
                        }
                    }
                }
                slot = slot + 1;
            }
            return true;
        }
        let ghost t1 = *self;
        if p.thread_count > 0 {
            p.thread_count = p.thread_count - 1;
        }
        let ended = p.thread_count == 0;
        if ended {
            p.state = ProcessState::Zombie;
            p.exit_code = code;
        }
        self.processes[g] = Some(p);
        proof { lemma_wf_same_fds(t1, *self); }
        ended
    }

    /// Start a thread in the current thread's group, in task slot `task_slot`:
    /// a fresh identifier, the current thread as parent and its signal mask,
    /// and the given child-tid address and thread-local base. The process
    /// counts one more thread. Returns the identifier.
    pub fn spawn_thread_in_group(&mut self, cur: usize, task_slot: usize, clear_child_tid: u64, fs_base: u64) -> (tid: usize)
        requires
            old(self).wf(),
            cur < MAX_PROCS,
            task_slot < MAX_PROCS,
            old(self).threads[cur as int] is Some,
            current_process_of(*old(self), cur as int) matches Some(p) && p.thread_count < usize::MAX,
        ensures
            final(self).wf(),
            tid == old(self).next_pid,
            final(self).next_pid == old(self).next_pid.wrapping_add(1),
            ({
                let cth = old(self).threads[cur as int]->0;
                let g = cth.group_slot as int;
                let p = old(self).processes[g]->0;
                &&& final(self).processes[g] == Some(Process { thread_count: (p.thread_count + 1) as usize, ..p })
                &&& forall|j: int| 0 <= j < MAX_PROCS && j != g ==> final(self).processes[j] == old(self).processes[j]
                &&& final(self).threads[task_slot as int] matches Some(t)
                &&& final(self).threads[task_slot as int]->0.tid == tid
                &&& final(self).threads[task_slot as int]->0.parent_tid == cth.tid
                &&& final(self).threads[task_slot as int]->0.group_slot == cth.group_slot
                &&& final(self).threads[task_slot as int]->0.task_slot == task_slot
                &&& final(self).threads[task_slot as int]->0.clear_child_tid == clear_child_tid
                &&& final(self).threads[task_slot as int]->0.fs_base == fs_base
                &&& final(self).threads[task_slot as int]->0.sig_mask == cth.sig_mask
                &&& thread_fresh(final(self).threads[task_slot as int]->0)
                &&& forall|j: int| 0 <= j < MAX_PROCS && j != task_slot ==> final(self).threads[j] == old(self).threads[j]
            }),
            final(self).open_files == old(self).open_files && final(self).pipes == old(self).pipes,
    {
        let tid = self.next_pid;
        let current = self.threads[cur].unwrap();
        let g = current.group_slot;
        let mut p = self.processes[g].unwrap();
        let ghost t0 = *self;
        p.thread_count = p.thread_count + 1;
        self.processes[g] = Some(p);
        self.threads[task_slot] = Some(Thread::new_group_member(
            tid, current.tid, g, task_slot, clear_child_tid, fs_base, current.sig_mask));
        self.next_pid = self.next_pid.wrapping_add(1);
        proof { lemma_wf_same_fds(t0, *self); }
        tid
    }
}

/// What `exit_thread` did, given whether it reports the process ended.
pub open spec fn exit_outcome(old: ProcTable, new: ProcTable, old_tasks: TaskTable, new_tasks: TaskTable,
    cur: int, code: i64, whole_group: bool, ended: bool) -> bool {
    &&& new.open_files == old.open_files && new.pipes == old.pipes && new.next_pid == old.next_pid
    &&& match old.threads[cur] {
        None => new == old && new_tasks == old_tasks,
        Some(th) => {
            let g = th.group_slot as int;
            match old.processes[g] {
                None => {
                    &&& new.processes == old.processes && new_tasks == old_tasks
                    &&& new.threads[cur] == Some(zombie(th))
                    &&& forall|j: int| 0 <= j < MAX_PROCS && j != cur ==> new.threads[j] == old.threads[j]
                },
                Some(p) => if whole_group {
                    &&& new.processes[g] == Some(Process { state: ProcessState::Zombie, exit_code: code, thread_count: 0, ..p })
                    &&& forall|j: int| 0 <= j < MAX_PROCS && j != g ==> new.processes[j] == old.processes[j]
                    &&& forall|j: int| 0 <= j < MAX_PROCS ==> #[trigger] new.threads[j] == (match old.threads[j] {
                        Some(t) => if t.group_slot == g { Some(zombie(t)) } else { Some(t) },
                        None => None,
                    })
                    &&& forall|j: int| 0 <= j < MAX_TASKS ==> #[trigger] new_tasks.tasks[j] == (if j != th.task_slot && in_group(old.threads[j], g) {
                        killed(old_tasks.tasks[j])
                    } else {
                        old_tasks.tasks[j]
                    })
                    &&& new_tasks.current == old_tasks.current && new_tasks.next_id == old_tasks.next_id
                } else {
                    let n = if p.thread_count > 0 { (p.thread_count - 1) as usize } else { 0usize };
                    &&& new_tasks == old_tasks
                    &&& new.threads[cur] == Some(zombie(th))
                    &&& forall|j: int| 0 <= j < MAX_PROCS && j != cur ==> new.threads[j] == old.threads[j]
                    &&& forall|j: int| 0 <= j < MAX_PROCS && j != g ==> new.processes[j] == old.processes[j]
                    &&& new.processes[g] == (if n == 0 {
                        Some(Process { state: ProcessState::Zombie, exit_code: code, thread_count: 0, ..p })
                    } else {
                        Some(Process { thread_count: n, ..p })
                    })
                },
            }
        },
    }
}

/// After an exception in a task: end its thread with the vector number as
/// exit code (see `ProcTable::exit`) and kill the task in the current slot.
pub fn handle_exception(procs: &mut ProcTable, tasks: &mut TaskTable, cur: usize, vector: u64)
    requires
        old(procs).wf(),
        old(tasks).wf(),
        cur < MAX_PROCS,
    ensures
        final(procs).wf(),
        final(tasks).wf(),
        exit_outcome(*old(procs), *final(procs), *old(tasks), *old(tasks), cur as int, vector as i64, false,
            final(procs).exit_result(*old(procs), cur as int, false)),
        final(tasks).tasks[cur as int] == killed(old(tasks).tasks[cur as int]),
        forall|i: int| 0 <= i < MAX_TASKS && i != cur ==> final(tasks).tasks[i] == old(tasks).tasks[i],
        final(tasks).current == old(tasks).current && final(tasks).next_id == old(tasks).next_id,
{
    procs.exit(cur, tasks, vector as i64);
    tasks.kill_task(cur);
}


/// When the last thread of a process exits with `code` (or the whole group
/// does), the process is left a zombie carrying `code`, which is what
/// reaping its slot gives back.
pub proof fn lemma_exit_then_reap(t0: ProcTable, t1: ProcTable, tasks0: TaskTable, tasks1: TaskTable,
    cur: int, code: i64, whole_group: bool, ended: bool)
    requires
        exit_outcome(t0, t1, tasks0, tasks1, cur, code, whole_group, ended),
        t0.threads[cur] is Some,
        t0.processes[t0.threads[cur]->0.group_slot as int] is Some,
        whole_group || t0.processes[t0.threads[cur]->0.group_slot as int]->0.thread_count <= 1,
    ensures
        ({
            let g = t0.threads[cur]->0.group_slot as int;
            &&& t1.processes[g] is Some
            &&& t1.processes[g]->0.state == ProcessState::Zombie
            &&& t1.processes[g]->0.exit_code == code
        }),
{
}

} // verus!
