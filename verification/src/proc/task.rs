//! The task table: kernel stacks, round-robin choice of the next task, and
//! the stack images new tasks start from.
use vstd::prelude::*;
use crate::paging::{p2v, PHYSICAL_OFFSET};
use crate::pmm::{mark_used, run_len, PMMState, MAX_FRAMES, PAGE_SIZE};
use super::table::ProcTable;

verus! {

pub const MAX_TASKS: usize = 8;
/// Pages in each kernel stack.
pub const STACK_PAGES: usize = 4;
/// Bytes in each kernel stack.
pub const STACK_BYTES: u64 = 16384;
/// Bytes of the callee-saved register block that a switch pops.
pub const CONTEXT_SIZE: u64 = 48;
/// Bytes of the register frame saved on system-call entry, as a forked task copies it.
pub const FORK_FRAME_SIZE: u64 = 128;
/// Byte offset of the saved `rax` in that frame: a forked child returns 0 there.
pub const FORK_FRAME_RAX: u64 = 88;

/// Callee-saved registers, in the order a task switch pops them.
#[derive(Clone, Copy)]
pub struct Context {
    pub r15: u64,
    pub r14: u64,
    pub r13: u64,
    pub r12: u64,
    pub rbx: u64,
    pub rbp: u64,
}

#[derive(Clone, Copy, PartialEq, Eq, Structural, Debug)]
pub enum TaskState {
    Ready,
    Running,
    Dead,
}

#[derive(Clone, Copy)]
pub struct Task {
    pub rsp: u64,
    pub stack_base: u64,
    pub state: TaskState,
    pub id: usize,
    pub rsp_valid: bool,
    pub pml4: usize,
}

/// The task slots, the slot running now, and the next task identifier.
pub struct TaskTable {
    pub tasks: [Option<Task>; 8],
    pub current: usize,
    pub next_id: usize,
}

/// What the switch code needs to move from the current task to the next.
pub struct TaskSwitch {
    /// Slot whose saved stack pointer receives the current one; `None` when the
    /// current task is gone and its stack pointer is discarded.
    pub save_slot: Option<usize>,
    pub next_slot: usize,
    pub next_rsp: u64,
    pub next_pml4: usize,
    /// Top of the next task's kernel stack, for the interrupt stack pointer.
    pub next_stack_top: u64,
    /// Thread-local base of the next task's thread, 0 when it has no thread.
    pub fs_base: u64,
}

/// A new task's kernel stack: the slot it took, the physical frames behind
/// the stack, and the 64-bit words to store before the task first runs.
pub struct StackSetup {
    pub slot: usize,
    pub stack_phys: usize,
    pub writes: Vec<(u64, u64)>,
}

/// Whether a task slot holds a task that may be switched to.
pub open spec fn runnable(t: Option<Task>) -> bool {
    t matches Some(task) && task.state == TaskState::Ready && task.rsp_valid
}

/// The first runnable slot after `cur` in round-robin order (`cur` itself last).
pub open spec fn next_ready(tasks: Seq<Option<Task>>, cur: int) -> Option<int> {
    if exists|i: int| 1 <= i <= 8 && runnable(#[trigger] tasks[(cur + i) % 8]) {
        let i = choose|i: int| 1 <= i <= 8 && runnable(#[trigger] tasks[(cur + i) % 8])
            && forall|j: int| 1 <= j < i ==> !runnable(#[trigger] tasks[(cur + j) % 8]);
        Some((cur + i) % 8)
    } else {
        None
    }
}

/// The first empty task slot, if any.
pub open spec fn first_free_task(tasks: Seq<Option<Task>>) -> Option<int> {
    if exists|i: int| 0 <= i < tasks.len() && tasks[i] is None {
        Some(choose|i: int| 0 <= i < tasks.len() && tasks[i] is None && forall|j: int| 0 <= j < i ==> tasks[j] is Some)
    } else {
        None
    }
}

/// What becomes of the task that is switched away from.
pub open spec fn switched_out(t: Option<Task>) -> Option<Task> {
    match t {
        Some(task) => if task.state == TaskState::Dead {
            None
        } else {
            Some(Task {
                state: if task.state == TaskState::Running { TaskState::Ready } else { task.state },
                rsp_valid: true,
                ..task
            })
        },
        None => None,
    }
}

/// Six zero words: the callee-saved registers a new task starts with, at `sp`.
pub open spec fn context_words(sp: u64) -> Seq<(u64, u64)> {
    seq![(sp, 0u64), ((sp + 8) as u64, 0u64), ((sp + 16) as u64, 0u64), ((sp + 24) as u64, 0u64),
        ((sp + 32) as u64, 0u64), ((sp + 40) as u64, 0u64)]
}

proof fn lemma_first_free_task(tasks: Seq<Option<Task>>, i: int)
    requires
        0 <= i <= tasks.len(),
        forall|j: int| 0 <= j < i ==> tasks[j] is Some,
        i < tasks.len() ==> tasks[i] is None,
    ensures
        first_free_task(tasks) == (if i < tasks.len() { Some(i) } else { None }),
{
    if i < tasks.len() {
        let c = choose|k: int| 0 <= k < tasks.len() && tasks[k] is None && forall|j: int| 0 <= j < k ==> tasks[j] is Some;
        assert(0 <= i < tasks.len() && tasks[i] is None && forall|j: int| 0 <= j < i ==> tasks[j] is Some);
        if c < i { assert(tasks[c] is Some); }
        if i < c { assert(tasks[i] is Some); }
    }
}

proof fn lemma_next_ready(tasks: Seq<Option<Task>>, cur: int, i: int)
    requires
        tasks.len() == 8,
        0 <= cur < 8,
        1 <= i <= 9,
        forall|j: int| 1 <= j < i ==> !runnable(#[trigger] tasks[(cur + j) % 8]),
        i <= 8 ==> runnable(tasks[(cur + i) % 8]),
    ensures
        next_ready(tasks, cur) == (if i <= 8 { Some((cur + i) % 8) } else { None }),
{
    if i <= 8 {
        let c = choose|k: int| 1 <= k <= 8 && runnable(#[trigger] tasks[(cur + k) % 8])
            && forall|j: int| 1 <= j < k ==> !runnable(#[trigger] tasks[(cur + j) % 8]);
        assert(1 <= i <= 8 && runnable(tasks[(cur + i) % 8])
            && forall|j: int| 1 <= j < i ==> !runnable(#[trigger] tasks[(cur + j) % 8]));
        if c < i { assert(!runnable(tasks[(cur + c) % 8])); }
        if i < c { assert(!runnable(tasks[(cur + i) % 8])); }
    } else {
        assert forall|k: int| 1 <= k <= 8 implies !runnable(#[trigger] tasks[(cur + k) % 8]) by {
            assert(1 <= k < i);
        }
    }
}

fn push_context(writes: &mut Vec<(u64, u64)>, sp: u64)
    requires
        sp + 40 <= u64::MAX,
    ensures
        final(writes)@ == old(writes)@ + context_words(sp),
{
    writes.push((sp, 0));
    writes.push((sp + 8, 0));
    writes.push((sp + 16, 0));
    writes.push((sp + 24, 0));
    writes.push((sp + 32, 0));
    writes.push((sp + 40, 0));
    assert(final(writes)@ =~= old(writes)@ + context_words(sp));
}

impl TaskTable {
    /// Every task's kernel stack ends inside the address space, and the
    /// current slot is a slot.
    pub open spec fn wf(&self) -> bool {
        &&& self.current < MAX_TASKS
        &&& forall|i: int| 0 <= i < MAX_TASKS && (#[trigger] self.tasks[i]) is Some
            ==> self.tasks[i]->0.stack_base + STACK_BYTES <= u64::MAX
    }

    /// Every task's identifier is below the next one to be handed out (and that
    /// one is not 0), so a task added next gets an identifier no task has.
    /// It holds from `new` on until the identifier counter wraps around.
    pub open spec fn ids_fresh(&self) -> bool {
        &&& self.next_id >= 1
        &&& forall|i: int| 0 <= i < MAX_TASKS && (#[trigger] self.tasks[i]) is Some ==> self.tasks[i]->0.id < self.next_id
    }

    /// No tasks; slot 0 is current.
    pub fn new() -> (t: Self)
        ensures
            t.wf(),
            t.ids_fresh(),
            t.current == 0 && t.next_id == 1,
            forall|i: int| 0 <= i < MAX_TASKS ==> #[trigger] t.tasks[i] is None,
    {
        TaskTable { tasks: [None, None, None, None, None, None, None, None], current: 0, next_id: 1 }
    }

    /// The slot running now.
    pub fn current_idx(&self) -> (r: usize)
        ensures
            r == self.current,
    {
        self.current
    }

    /// The slot running now; there always is one.
    pub fn current_task_slot(&self) -> (r: Option<usize>)
        ensures
            r == Some(self.current),
    {
        Some(self.current)
    }

    /// The page table of the running task, or the kernel's when its slot is empty.
    pub fn current_pml4(&self, kernel_pml4: usize) -> (r: usize)
        requires
            self.wf(),
        ensures
            r == (match self.tasks[self.current as int] {
                Some(t) => t.pml4,
                None => kernel_pml4,
            }),
    {
        match &self.tasks[self.current] {
            Some(t) => t.pml4,
            None => kernel_pml4,
        }
    }

    /// Record the boot thread as task 0, running on the stack at `stack_base`.
    pub fn init_main_task(&mut self, stack_base: u64, kernel_pml4: usize)
        requires
            old(self).wf(),
            stack_base + STACK_BYTES <= u64::MAX,
        ensures
            final(self).wf(),
            old(self).ids_fresh() ==> final(self).ids_fresh(),
            final(self).current == 0,
            final(self).next_id == old(self).next_id,
            final(self).tasks[0] == Some(Task { rsp: 0, stack_base, state: TaskState::Running, id: 0, rsp_valid: true, pml4: kernel_pml4 }),
            forall|i: int| 1 <= i < MAX_TASKS ==> final(self).tasks[i] == old(self).tasks[i],
    {
        self.tasks[0] = Some(Task { rsp: 0, stack_base, state: TaskState::Running, id: 0, rsp_valid: true, pml4: kernel_pml4 });
        self.current = 0;
    }

    /// Mark the task in `slot` dead; it is dropped the next time it is switched away from.
    pub fn kill_task(&mut self, slot: usize)
        requires
            old(self).wf(),
            slot < MAX_TASKS,
        ensures
            final(self).wf(),
            old(self).ids_fresh() ==> final(self).ids_fresh(),
            final(self).current == old(self).current && final(self).next_id == old(self).next_id,
            final(self).tasks[slot as int] == (match old(self).tasks[slot as int] {
                Some(t) => Some(Task { state: TaskState::Dead, ..t }),
                None => None,
            }),
            forall|i: int| 0 <= i < MAX_TASKS && i != slot ==> final(self).tasks[i] == old(self).tasks[i],
    {
        if let Some(t) = self.tasks[slot] {
            self.tasks[slot] = Some(Task { state: TaskState::Dead, ..t });
        }
    }

    fn free_slot(&self) -> (r: Option<usize>)
        ensures
            match r {
                Some(s) => first_free_task(self.tasks@) == Some(s as int) && s < MAX_TASKS,
                None => first_free_task(self.tasks@) is None,
            },
    {
        let mut i: usize = 0;
        while i < MAX_TASKS
            invariant
                i <= MAX_TASKS,
                forall|j: int| 0 <= j < i ==> (#[trigger] self.tasks@[j]) is Some,
            decreases MAX_TASKS - i,
        {
            if self.tasks[i].is_none() {
                proof { lemma_first_free_task(self.tasks@, i as int); }
                return Some(i);
            }
            i = i + 1;
        }
        proof { lemma_first_free_task(self.tasks@, 8); }
        None
    }

    /// The first runnable slot after the current one, round-robin.
    fn find_next(&self) -> (r: Option<usize>)
        requires
            self.wf(),
        ensures
            match r {
                Some(n) => next_ready(self.tasks@, self.current as int) == Some(n as int) && n < MAX_TASKS,
                None => next_ready(self.tasks@, self.current as int) is None,
            },
    {
        let cur = self.current;
        let mut i: usize = 1;
        while i <= MAX_TASKS
            invariant
                1 <= i <= 9,
                cur == self.current,
                cur < 8,
                self.tasks@.len() == 8,
                forall|j: int| 1 <= j < i ==> !runnable(#[trigger] self.tasks@[(cur + j) % 8]),
            decreases 9 - i,
        {
            let idx = (cur + i) % MAX_TASKS;
            let ok = match &self.tasks[idx] {
                Some(t) => t.state == TaskState::Ready && t.rsp_valid,
                None => false,
            };
            if ok {
                proof { lemma_next_ready(self.tasks@, cur as int, i as int); }
                return Some(idx);
            }
            i = i + 1;
        }
        proof { lemma_next_ready(self.tasks@, cur as int, 9); }
        None
    }

    /// Choose the next task round-robin: the first ready task after the current
    /// slot. The current task goes back to ready, or is dropped (and its
    /// thread record reaped) when it is dead; the chosen task becomes current
    /// and running. `None`, with nothing changed, when no task is ready.
    pub fn next_task_switch(&mut self, procs: &mut ProcTable) -> (r: Option<TaskSwitch>)
        requires
            old(self).wf(),
            old(procs).wf(),
        ensures
            final(self).wf(),
            final(procs).wf(),
            match next_ready(old(self).tasks@, old(self).current as int) {
                None => r is None && *final(self) == *old(self) && *final(procs) == *old(procs),
                Some(n) => {
                    let c = old(self).current as int;
                    let nt = old(self).tasks[n]->0;
                    &&& r matches Some(sw)
                    &&& sw.next_slot == n && final(self).current == n
                    &&& final(self).next_id == old(self).next_id
                    &&& final(self).tasks[n] == Some(Task { state: TaskState::Running, ..nt })
                    &&& c != n ==> final(self).tasks[c] == switched_out(old(self).tasks[c])
                    &&& forall|i: int| 0 <= i < MAX_TASKS && i != c && i != n ==> final(self).tasks[i] == old(self).tasks[i]
                    &&& sw.save_slot == (if switched_out(old(self).tasks[c]) is Some { Some(c as usize) } else { None::<usize> })
                    &&& sw.next_rsp == nt.rsp && sw.next_pml4 == nt.pml4
                    &&& sw.next_stack_top == nt.stack_base + STACK_BYTES
                    &&& sw.fs_base == (match final(procs).threads[n] { Some(t) => t.fs_base, None => 0 })
                    &&& (old(self).tasks[c] matches Some(t) && t.state == TaskState::Dead)
                        ==> final(procs).task_reaped_from(*old(procs), c)
                    &&& !(old(self).tasks[c] matches Some(t) && t.state == TaskState::Dead)
                        ==> *final(procs) == *old(procs)
                },
            },
    {
        let cur = self.current;
        let next = match self.find_next() {
            Some(n) => n,
            None => return None,
        };
        let ghost n = next as int;
        assert(next_ready(old(self).tasks@, cur as int) == Some(n));
        let nt = self.tasks[next].unwrap();
        let save_slot: Option<usize> = match self.tasks[cur] {
            Some(t) => {
                if t.state == TaskState::Dead {
                    procs.task_slot_reaped(cur);
                    self.tasks[cur] = None;
                    None
                } else {
                    let st = if t.state == TaskState::Running { TaskState::Ready } else { t.state };
                    self.tasks[cur] = Some(Task { state: st, rsp_valid: true, ..t });
                    Some(cur)
                }
            },
            None => None,
        };
        let t2 = self.tasks[next].unwrap();
        self.tasks[next] = Some(Task { state: TaskState::Running, ..t2 });
        self.current = next;
        let fs_base = match &procs.threads[next] {
            Some(th) => th.fs_base,
            None => 0,
        };
        Some(TaskSwitch {
            save_slot,
            next_slot: next,
            next_rsp: nt.rsp,
            next_pml4: nt.pml4,
            next_stack_top: nt.stack_base + STACK_BYTES,
            fs_base,
        })
    }

    /// Address of the system-call frame above the saved context on the stack of
    /// the task in `slot`.
    pub fn task_frame_addr(&self, slot: usize) -> (r: Option<u64>)
        ensures
            r == (if slot < MAX_TASKS && self.tasks[slot as int] is Some && self.tasks[slot as int]->0.rsp + CONTEXT_SIZE + 8 <= u64::MAX {
                Some((self.tasks[slot as int]->0.rsp + CONTEXT_SIZE + 8) as u64)
            } else {
                None
            }),
    {
        if slot >= MAX_TASKS {
            return None;
        }
        match &self.tasks[slot] {
            Some(t) => if t.rsp <= u64::MAX - (CONTEXT_SIZE + 8) { Some(t.rsp + CONTEXT_SIZE + 8) } else { None },
            None => None,
        }
    }
}

/// `new` is the frame map `old` after a kernel stack was taken at physical
/// address `phys`: the lowest run of free frames long enough, now in use.
pub open spec fn stack_taken(old: PMMState, new: PMMState, phys: usize) -> bool {
    let f = (phys / PAGE_SIZE) as int;
    &&& new.wf()
    &&& phys != 0 && phys % PAGE_SIZE == 0
    &&& 1 <= f && f + STACK_PAGES <= MAX_FRAMES
    &&& forall|i: int| f <= i < f + STACK_PAGES ==> #[trigger] old@[i]
    &&& forall|e: int| 1 <= e < f + STACK_PAGES - 1 ==> #[trigger] run_len(old@, e) < STACK_PAGES
    &&& new@ == mark_used(old@, f, STACK_PAGES as int)
    &&& new.total() == old.total()
}

/// `new` is the frame map `old`, untouched.
pub open spec fn pmm_same(old: PMMState, new: PMMState) -> bool {
    new.wf() && new@ == old@ && new.total() == old.total() && new.free_count() == old.free_count()
}

/// No run of free frames is long enough for a kernel stack.
pub open spec fn no_stack_room(m: PMMState) -> bool {
    forall|e: int| 1 <= e < MAX_FRAMES ==> #[trigger] run_len(m@, e) < STACK_PAGES
}

/// Stack image of a kernel task: its entry point as the return address, then
/// the saved registers.
pub open spec fn kernel_task_words(top: u64, entry: u64) -> Seq<(u64, u64)> {
    seq![((top - 8) as u64, entry)] + context_words((top - 56) as u64)
}

/// Stack image of a user task: page table, user stack and entry for the
/// trampoline, the trampoline as the return address, then the saved registers.
pub open spec fn user_task_words(top: u64, entry: u64, user_stack: u64, pml4: usize, trampoline: u64) -> Seq<(u64, u64)> {
    seq![((top - 8) as u64, pml4 as u64), ((top - 16) as u64, user_stack), ((top - 24) as u64, entry),
        ((top - 32) as u64, trampoline)] + context_words((top - 80) as u64)
}

/// Stack image of a forked task below the copied system-call frame at
/// `frame`: the child's return value 0, the return trampoline, then the saved registers.
pub open spec fn forked_task_words(frame: u64, trampoline: u64) -> Seq<(u64, u64)> {
    seq![((frame + FORK_FRAME_RAX) as u64, 0u64), ((frame - 8) as u64, trampoline)] + context_words((frame - 56) as u64)
}

/// `new` is `old` with a ready task recorded in slot `slot`: the next
/// identifier, the stack at `base`, saved stack pointer `rsp`, page table `pml4`.
pub open spec fn task_added(old: TaskTable, new: TaskTable, slot: int, base: u64, rsp: u64, pml4: usize) -> bool {
    &&& new.wf()
    &&& new.tasks[slot] == Some(Task { rsp, stack_base: base, state: TaskState::Ready, id: old.next_id, rsp_valid: true, pml4 })
    &&& forall|i: int| 0 <= i < MAX_TASKS && i != slot ==> new.tasks[i] == old.tasks[i]
    &&& new.current == old.current
    &&& new.next_id == old.next_id.wrapping_add(1)
    &&& old.ids_fresh() && old.next_id < usize::MAX ==> new.ids_fresh()
}

/// A task added to a table whose identifiers are fresh gets an identifier
/// that no other task in the table has.
pub proof fn lemma_new_task_id_unused(old: TaskTable, new: TaskTable, slot: int, base: u64, rsp: u64, pml4: usize)
    requires
        0 <= slot < MAX_TASKS,
        task_added(old, new, slot, base, rsp, pml4),
        old.ids_fresh(),
    ensures
        forall|i: int| 0 <= i < MAX_TASKS && i != slot && (#[trigger] new.tasks[i]) is Some
            ==> new.tasks[i]->0.id != new.tasks[slot]->0.id,
{
    assert forall|i: int| 0 <= i < MAX_TASKS && i != slot && (#[trigger] new.tasks[i]) is Some
        implies new.tasks[i]->0.id != new.tasks[slot]->0.id by {
        assert(new.tasks[i] == old.tasks[i]);
    }
}

/// Operations that keep the identifier counter and only change or remove
/// tasks, each left with its identifier, keep the identifiers fresh.
pub proof fn lemma_ids_fresh_kept(a: TaskTable, b: TaskTable)
    requires
        a.ids_fresh(),
        b.next_id == a.next_id,
        forall|i: int| 0 <= i < MAX_TASKS && (#[trigger] b.tasks[i]) is Some
            ==> a.tasks[i] is Some && b.tasks[i]->0.id == a.tasks[i]->0.id,
    ensures
        b.ids_fresh(),
{
    assert forall|i: int| 0 <= i < MAX_TASKS && (#[trigger] b.tasks[i]) is Some implies b.tasks[i]->0.id < b.next_id by {
        assert(a.tasks[i] is Some);
    }
}

/// Take a kernel stack from `pmm`: its physical address and the top of its
/// direct-mapped range.
fn new_kernel_stack(pmm: &mut PMMState) -> (r: Option<(usize, u64)>)
    requires
        old(pmm).wf(),
    ensures
        match r {
            Some((phys, top)) => stack_taken(*old(pmm), *final(pmm), phys)
                && top == phys + PHYSICAL_OFFSET + STACK_BYTES && !no_stack_room(*old(pmm)),
            None => no_stack_room(*old(pmm)) && pmm_same(*old(pmm), *final(pmm)),
        },
{
    let ghost m0 = *pmm;
    let phys = pmm.alloc_frames(STACK_PAGES);
    if phys == 0 {
        proof {
            m0.lemma_wf();
            pmm.lemma_wf();
            assert(no_stack_room(m0));
        }
        return None;
    }
    proof {
        let f = (phys / PAGE_SIZE) as int;
        assert(phys == f * 4096) by (nonlinear_arith) requires phys % 4096 == 0, f == phys / 4096;
        assert(f * 4096 <= 1048576 * 4096) by (nonlinear_arith) requires f <= 1048576;
        assert(run_len(m0@, f + 3) >= 4) by {
            reveal_with_fuel(run_len, 5);
            assert(m0@[f] && m0@[f + 1] && m0@[f + 2] && m0@[f + 3]);
        }
    }
    let base = p2v(phys as u64);
    Some((phys, base + STACK_BYTES))
}

impl TaskTable {
    fn install(&mut self, slot: usize, base: u64, rsp: u64, pml4: usize)
        requires
            old(self).wf(),
            slot < MAX_TASKS,
            base + STACK_BYTES <= u64::MAX,
        ensures
            task_added(*old(self), *final(self), slot as int, base, rsp, pml4),
    {
        let id = self.next_id;
        self.next_id = self.next_id.wrapping_add(1);
        self.tasks[slot] = Some(Task { rsp, stack_base: base, state: TaskState::Ready, id, rsp_valid: true, pml4 });
    }

    /// Create a kernel task that starts at `entry` on a new four-page kernel
    /// stack with the kernel's page table. Returns the slot, the stack's frames
    /// and the words to store on the stack; `None`, with nothing changed, when
    /// no slot is free or no stack can be had.
    pub fn add_task(&mut self, pmm: &mut PMMState, entry: u64, kernel_pml4: usize) -> (r: Option<StackSetup>)
        requires
            old(self).wf(),
            old(pmm).wf(),
        ensures
            match first_free_task(old(self).tasks@) {
                None => r is None && *final(self) == *old(self) && pmm_same(*old(pmm), *final(pmm)),
                Some(s) => if no_stack_room(*old(pmm)) {
                    r is None && *final(self) == *old(self) && pmm_same(*old(pmm), *final(pmm))
                } else {
                    &&& r matches Some(st)
                    &&& st.slot == s
                    &&& stack_taken(*old(pmm), *final(pmm), st.stack_phys)
                    &&& {
                        let top = (st.stack_phys + PHYSICAL_OFFSET + STACK_BYTES) as u64;
                        &&& task_added(*old(self), *final(self), s, (st.stack_phys + PHYSICAL_OFFSET) as u64, (top - 56) as u64, kernel_pml4)
                        &&& st.writes@ == kernel_task_words(top, entry)
                    }
                },
            },
    {
        let slot = match self.free_slot() {
            Some(s) => s,
            None => return None,
        };
        let (phys, top) = match new_kernel_stack(pmm) {
            Some(x) => x,
            None => return None,
        };
        let mut writes: Vec<(u64, u64)> = Vec::new();
        writes.push((top - 8, entry));
        push_context(&mut writes, top - 56);
        self.install(slot, top - STACK_BYTES, top - 56, kernel_pml4);
        proof {
            assert(writes@ =~= kernel_task_words(top, entry));
        }
        Some(StackSetup { slot, stack_phys: phys, writes })
    }

    /// Create a task that enters user mode at `entry` with user stack
    /// `user_stack` and page table `pml4`, through the trampoline at address
    /// `trampoline`. Returns as `add_task` does.
    pub fn spawn_user_task(&mut self, pmm: &mut PMMState, entry: u64, user_stack: u64, pml4: usize, trampoline: u64)
        -> (r: Option<StackSetup>)
        requires
            old(self).wf(),
            old(pmm).wf(),
        ensures
            match first_free_task(old(self).tasks@) {
                None => r is None && *final(self) == *old(self) && pmm_same(*old(pmm), *final(pmm)),
                Some(s) => if no_stack_room(*old(pmm)) {
                    r is None && *final(self) == *old(self) && pmm_same(*old(pmm), *final(pmm))
                } else {
                    &&& r matches Some(st)
                    &&& st.slot == s
                    &&& stack_taken(*old(pmm), *final(pmm), st.stack_phys)
                    &&& {
                        let top = (st.stack_phys + PHYSICAL_OFFSET + STACK_BYTES) as u64;
                        &&& task_added(*old(self), *final(self), s, (st.stack_phys + PHYSICAL_OFFSET) as u64, (top - 80) as u64, pml4)
                        &&& st.writes@ == user_task_words(top, entry, user_stack, pml4, trampoline)
                    }
                },
            },
    {
        let slot = match self.free_slot() {
            Some(s) => s,
            None => return None,
        };
        let (phys, top) = match new_kernel_stack(pmm) {
            Some(x) => x,
            None => return None,
        };
        let mut writes: Vec<(u64, u64)> = Vec::new();
        writes.push((top - 8, pml4 as u64));
        writes.push((top - 16, user_stack));
        writes.push((top - 24, entry));
        writes.push((top - 32, trampoline));
        push_context(&mut writes, top - 80);
        self.install(slot, top - STACK_BYTES, top - 80, pml4);
        proof {
            assert(writes@ =~= user_task_words(top, entry, user_stack, pml4, trampoline));
        }
        Some(StackSetup { slot, stack_phys: phys, writes })
    }

    /// Create the task of a forked child with page table `pml4`. The parent's
    /// system-call frame is to be copied to the returned frame address first;
    /// then the words are stored, so that the child returns 0 through the
    /// trampoline at `trampoline`. Returns as `add_task` does, with the frame address.
    pub fn spawn_forked_task(&mut self, pmm: &mut PMMState, pml4: usize, trampoline: u64)
        -> (r: Option<(StackSetup, u64)>)
        requires
            old(self).wf(),
            old(pmm).wf(),
        ensures
            match first_free_task(old(self).tasks@) {
                None => r is None && *final(self) == *old(self) && pmm_same(*old(pmm), *final(pmm)),
                Some(s) => if no_stack_room(*old(pmm)) {
                    r is None && *final(self) == *old(self) && pmm_same(*old(pmm), *final(pmm))
                } else {
                    &&& r matches Some((st, frame))
                    &&& st.slot == s
                    &&& stack_taken(*old(pmm), *final(pmm), st.stack_phys)
                    &&& frame == st.stack_phys + PHYSICAL_OFFSET + STACK_BYTES - FORK_FRAME_SIZE
                    &&& task_added(*old(self), *final(self), s, (st.stack_phys + PHYSICAL_OFFSET) as u64, (frame - 56) as u64, pml4)
                    &&& st.writes@ == forked_task_words(frame, trampoline)
                },
            },
    {
        let slot = match self.free_slot() {
            Some(s) => s,
            None => return None,
        };
        let (phys, top) = match new_kernel_stack(pmm) {
            Some(x) => x,
            None => return None,
        };
        let frame = top - FORK_FRAME_SIZE;
        let mut writes: Vec<(u64, u64)> = Vec::new();
        writes.push((frame + FORK_FRAME_RAX, 0));
        writes.push((frame - 8, trampoline));
        push_context(&mut writes, frame - 56);
        self.install(slot, top - STACK_BYTES, frame - 56, pml4);
        proof {
            assert(writes@ =~= forked_task_words(frame, trampoline));
        }
        Some((StackSetup { slot, stack_phys: phys, writes }, frame))
    }
}


/// A task that is not ready (killed, or the one running) is never the one
/// switched to; only ready tasks are chosen.
pub proof fn lemma_only_ready_tasks_run(tasks: Seq<Option<Task>>, cur: int)
    requires
        tasks.len() == MAX_TASKS,
        0 <= cur < MAX_TASKS,
    ensures
        next_ready(tasks, cur) matches Some(n) ==> 0 <= n < MAX_TASKS && runnable(tasks[n]),
{
    if next_ready(tasks, cur) is Some {
        let i = choose|i: int| 1 <= i <= 8 && runnable(#[trigger] tasks[(cur + i) % 8])
            && forall|j: int| 1 <= j < i ==> !runnable(#[trigger] tasks[(cur + j) % 8]);
        assert(next_ready(tasks, cur) == Some((cur + i) % 8));
    }
}

} // verus!
