//! Signal checks on the way back to user mode: which pending signal is taken,
//! what its disposition does, and where a handler's frame goes on the user stack.
use vstd::prelude::*;
use vstd::std_specs::bits::u64_trailing_zeros;
use super::state::{Process, ProcessState, SigAction, SigSet, MAX_PROCS};
use super::table::{lemma_wf_same_fds, ProcTable};
use super::task::{TaskTable, TaskState, Task};

verus! {

/// Bytes of the register frame saved on system-call entry.
pub const SYSCALL_FRAME_SIZE: u64 = 120;
/// Bytes below the user stack pointer left alone for the interrupted code.
pub const RED_ZONE: u64 = 128;

/// What a signal check decided.
pub enum SignalAction {
    /// No process, or no pending signal that is not blocked among signals 1 to 64.
    Nothing,
    /// Signal taken and dropped (ignored, or default action is to ignore).
    Ignored(usize),
    /// Signal taken; its default action ended the process.
    Terminated(usize),
    /// Signal taken; its handler is to run.
    Deliver(usize, SigAction),
}

/// Where a signal handler's frame goes on the user stack.
pub struct SignalFrame {
    /// Address at which the interrupted register frame is saved.
    pub frame_at: u64,
    /// Address at which the restorer's address is stored, when there is one.
    pub restorer_at: Option<u64>,
    /// The user stack pointer the handler starts with.
    pub new_rsp: u64,
}

/// The pending signals of word `i` that are not blocked.
pub open spec fn unblocked(pending: SigSet, mask: Seq<u64>, i: int) -> u64 {
    pending.bits[i] & !mask[i]
}

/// The first word with a pending signal that is not blocked, if any.
pub open spec fn first_word(pending: SigSet, mask: Seq<u64>) -> Option<int> {
    if exists|i: int| 0 <= i < 16 && #[trigger] unblocked(pending, mask, i) != 0 {
        Some(choose|i: int| 0 <= i < 16 && #[trigger] unblocked(pending, mask, i) != 0
            && forall|j: int| 0 <= j < i ==> #[trigger] unblocked(pending, mask, j) == 0)
    } else {
        None
    }
}

/// The signal a check takes: the lowest unblocked pending one, counted from 1,
/// when it lies in the first word; otherwise none (0).
pub open spec fn signal_taken(pending: SigSet, mask: Seq<u64>) -> int {
    match first_word(pending, mask) {
        Some(w) => if w == 0 { u64_trailing_zeros(unblocked(pending, mask, 0)) + 1 } else { 0 },
        None => 0,
    }
}

/// Whether the default action of signal `sig` ends the process.
pub open spec fn terminates_by_default(sig: int) -> bool {
    sig == 1 || sig == 2 || sig == 3 || sig == 6 || sig == 8 || sig == 9 || sig == 11
        || sig == 13 || sig == 14 || sig == 15
}

/// The signal a check takes is pending and not blocked, and no lower-numbered
/// signal of the first word is; none is taken exactly when no signal of the
/// first word is pending unblocked.
pub proof fn lemma_signal_taken_lowest(pending: SigSet, mask: Seq<u64>)
    ensures
        signal_taken(pending, mask) != 0 ==> {
            let sig = signal_taken(pending, mask);
            &&& 1 <= sig <= 64
            &&& ((pending.bits[0] & !mask[0]) >> ((sig - 1) as u64)) & 1u64 == 1u64
            &&& forall|j: u64| j < sig - 1 ==> #[trigger] ((pending.bits[0] & !mask[0]) >> j) & 1u64 == 0u64
        },
        signal_taken(pending, mask) == 0 <==> pending.bits[0] & !mask[0] == 0,
{
    let u = pending.bits[0] & !mask[0];
    vstd::std_specs::bits::axiom_u64_trailing_zeros(u);
    if u != 0 {
        assert(unblocked(pending, mask, 0) != 0);
        lemma_first_word(pending, mask, 0);
    } else {
        match first_word(pending, mask) {
            Some(w) => {
                if w == 0 {
                    let c = choose|i: int| 0 <= i < 16 && #[trigger] unblocked(pending, mask, i) != 0
                        && forall|j: int| 0 <= j < i ==> #[trigger] unblocked(pending, mask, j) == 0;
                    assert(c == 0);
                    assert(unblocked(pending, mask, 0) != 0);
                }
            },
            None => {},
        }
    }
}

/// The signals whose default action ends the process are exactly SIGHUP,
/// SIGINT, SIGQUIT, SIGABRT, SIGFPE, SIGKILL, SIGSEGV, SIGPIPE, SIGALRM and
/// SIGTERM; the default action of every other signal is to drop it.
pub proof fn lemma_default_terminating(sig: int)
    ensures
        terminates_by_default(sig) <==> (sig == 1 || sig == 2 || sig == 3 || sig == 6 || sig == 8 || sig == 9
            || sig == 11 || sig == 13 || sig == 14 || sig == 15),
{
}

/// Signal mask of the thread in task slot `cur`, empty when it has none.
pub open spec fn mask_of(t: ProcTable, cur: int) -> Seq<u64> {
    match t.threads[cur] {
        Some(th) => th.sig_mask.bits@,
        None => Seq::new(16, |i: int| 0u64),
    }
}

proof fn lemma_first_word(pending: SigSet, mask: Seq<u64>, i: int)
    requires
        0 <= i <= 16,
        forall|j: int| 0 <= j < i ==> #[trigger] unblocked(pending, mask, j) == 0,
        i < 16 ==> unblocked(pending, mask, i) != 0,
    ensures
        first_word(pending, mask) == (if i < 16 { Some(i) } else { None }),
{
    if i < 16 {
        let c = choose|k: int| 0 <= k < 16 && #[trigger] unblocked(pending, mask, k) != 0
            && forall|j: int| 0 <= j < k ==> #[trigger] unblocked(pending, mask, j) == 0;
        assert(0 <= i < 16 && unblocked(pending, mask, i) != 0
            && forall|j: int| 0 <= j < i ==> #[trigger] unblocked(pending, mask, j) == 0);
        if c < i { assert(unblocked(pending, mask, c) == 0); }
        if i < c { assert(unblocked(pending, mask, i) == 0); }
    } else {
        assert forall|k: int| 0 <= k < 16 implies #[trigger] unblocked(pending, mask, k) == 0 by {}
    }
}

/// The signal a check takes (see `signal_taken`): 0 when none is pending
/// unblocked, a number above 64 when the first one lies past the first word.
fn first_unblocked(pending: &SigSet, mask: &SigSet) -> (sig: usize)
    ensures
        (sig == 0 || sig > 64) <==> signal_taken(*pending, mask.bits@) == 0,
        1 <= sig <= 64 ==> sig == signal_taken(*pending, mask.bits@),
        signal_taken(*pending, mask.bits@) <= 64,
{
    let mut i: usize = 0;
    while i < 16
        invariant
            i <= 16,
            forall|j: int| 0 <= j < i ==> #[trigger] unblocked(*pending, mask.bits@, j) == 0,
        decreases 16 - i,
    {
        let word = pending.bits[i] & !mask.bits[i];
        if word != 0 {
            proof {
                lemma_first_word(*pending, mask.bits@, i as int);
                vstd::std_specs::bits::axiom_u64_trailing_zeros(word);
            }
            if i == 0 {
                let tz = word.trailing_zeros();
                return tz as usize + 1;
            }
            return 65;
        }
        i = i + 1;
    }
    proof { lemma_first_word(*pending, mask.bits@, 16); }
    0
}

impl ProcTable {
    /// Take the first pending signal of the process in task slot `cur` that the
    /// current thread does not block, if it is among signals 1 to 64: clear it
    /// and act on its disposition. The default action of signals 1, 2, 3, 6, 8,
    /// 9, 11, 13, 14 and 15 makes the process a zombie with exit code
    /// `(128 + sig) << 8` and kills its task; other defaults and ignored
    /// signals are dropped; a handler is to be delivered.
    pub fn check_signals(&mut self, cur: usize, tasks: &mut TaskTable) -> (r: SignalAction)
        requires
            old(self).wf(),
            old(tasks).wf(),
            cur < MAX_PROCS,
        ensures
            final(self).wf(),
            final(tasks).wf(),
            old(self).processes[cur as int] matches Some(p) ==> ({
                let sig = signal_taken(p.sig_pending, mask_of(*old(self), cur as int));
                let q = final(self).processes[cur as int]->0;
                sig != 0 && p.sig_handlers[sig].handler == 0 ==>
                    if sig == 1 || sig == 2 || sig == 3 || sig == 6 || sig == 8 || sig == 9 || sig == 11
                        || sig == 13 || sig == 14 || sig == 15 {
                        &&& r == SignalAction::Terminated(sig as usize)
                        &&& q.state == ProcessState::Zombie
                        &&& q.exit_code == (128 + sig) * 256
                        &&& old(tasks).tasks[cur as int] is Some ==> final(tasks).tasks[cur as int]->0.state == TaskState::Dead
                    } else {
                        &&& r == SignalAction::Ignored(sig as usize)
                        &&& q.state == p.state && q.exit_code == p.exit_code
                        &&& *final(tasks) == *old(tasks)
                    }
            }),
            match old(self).processes[cur as int] {
                None => r is Nothing && *final(self) == *old(self) && *final(tasks) == *old(tasks),
                Some(p) => {
                    let sig = signal_taken(p.sig_pending, mask_of(*old(self), cur as int));
                    if sig == 0 {
                        r is Nothing && *final(self) == *old(self) && *final(tasks) == *old(tasks)
                    } else {
                        let cleared = p.sig_pending.bits[0] & !(1u64 << ((sig - 1) as u64));
                        let act = p.sig_handlers[sig];
                        let q = final(self).processes[cur as int]->0;
                        &&& 1 <= sig <= 64
                        &&& final(self).processes[cur as int] is Some
                        &&& q.sig_pending.bits@ == p.sig_pending.bits@.update(0, cleared)
                        &&& forall|j: int| 0 <= j < MAX_PROCS && j != cur ==> final(self).processes[j] == old(self).processes[j]
                        &&& final(self).threads == old(self).threads && final(self).open_files == old(self).open_files
                        &&& final(self).pipes == old(self).pipes && final(self).next_pid == old(self).next_pid
                        &&& if act.handler == 0 && terminates_by_default(sig) {
                            &&& r == SignalAction::Terminated(sig as usize)
                            &&& q == (Process { state: ProcessState::Zombie, exit_code: ((128 + sig) * 256) as i64, sig_pending: q.sig_pending, ..p })
                            &&& final(tasks).tasks[cur as int] == (match old(tasks).tasks[cur as int] {
                                Some(t) => Some(Task { state: TaskState::Dead, ..t }),
                                None => None,
                            })
                            &&& forall|i: int| 0 <= i < 8 && i != cur ==> final(tasks).tasks[i] == old(tasks).tasks[i]
                            &&& final(tasks).current == old(tasks).current && final(tasks).next_id == old(tasks).next_id
                        } else {
                            &&& q == (Process { sig_pending: q.sig_pending, ..p })
                            &&& *final(tasks) == *old(tasks)
                            &&& if act.handler == 0 || act.handler == 1 {
                                r == SignalAction::Ignored(sig as usize)
                            } else {
                                r == SignalAction::Deliver(sig as usize, act)
                            }
                        }
                    }
                },
            },
    {
        let mut p = match self.processes[cur] {
            Some(p) => p,
            None => return SignalAction::Nothing,
        };
        let mask: SigSet = match &self.threads[cur] {
            Some(th) => th.sig_mask,
            None => SigSet::empty(),
        };
        proof {
            assert(mask.bits@ =~= mask_of(*old(self), cur as int));
        }
        let sig = first_unblocked(&p.sig_pending, &mask);
        if sig == 0 || sig > 64 {
            return SignalAction::Nothing;
        }
        let ghost t0 = *self;
        let bit = (sig - 1) as u64;
        p.sig_pending.bits[0] = p.sig_pending.bits[0] & !(1u64 << bit);
        let action = p.sig_handlers[sig];
        if action.handler == 0 {
            if sig == 1 || sig == 2 || sig == 3 || sig == 6 || sig == 8 || sig == 9 || sig == 11
                || sig == 13 || sig == 14 || sig == 15 {
                p.state = ProcessState::Zombie;
                let base: i64 = 128 + sig as i64;
                assert((base << 8) == base * 256) by (bit_vector)
                    requires 129 <= base <= 192;
                p.exit_code = base << 8;
                self.processes[cur] = Some(p);
                proof { lemma_wf_same_fds(t0, *self); }
                tasks.kill_task(cur);
                return SignalAction::Terminated(sig);
            }
            self.processes[cur] = Some(p);
            proof { lemma_wf_same_fds(t0, *self); }
            return SignalAction::Ignored(sig);
        }
        self.processes[cur] = Some(p);
        proof { lemma_wf_same_fds(t0, *self); }
        if action.handler == 1 {
            return SignalAction::Ignored(sig);
        }
        SignalAction::Deliver(sig, action)
    }
}

/// Lay out a handler's frame below the interrupted user stack pointer `rsp`:
/// skip the red zone, align down to 16 bytes, make room for the saved
/// register frame, and below it for the restorer's address when there is one.
pub fn signal_frame(rsp: u64, action: &SigAction) -> (f: SignalFrame)
    requires
        rsp >= RED_ZONE,
        ((rsp - RED_ZONE) as u64 & !15u64) >= SYSCALL_FRAME_SIZE + (if action.restorer != 0 { 8int } else { 0int }),
    ensures
        f.frame_at == ((rsp - RED_ZONE) as u64 & !15u64) - SYSCALL_FRAME_SIZE,
        f.restorer_at == (if action.restorer != 0 { Some((f.frame_at - 8) as u64) } else { None::<u64> }),
        f.new_rsp == (if action.restorer != 0 { f.frame_at - 8 } else { f.frame_at as int }),
{
    let mut ustack = rsp - RED_ZONE;
    ustack = ustack & !15u64;
    ustack = ustack - SYSCALL_FRAME_SIZE;
    let frame_at = ustack;
    let mut restorer_at: Option<u64> = None;
    if action.restorer != 0 {
        ustack = ustack - 8;
        restorer_at = Some(ustack);
    }
    SignalFrame { frame_at, restorer_at, new_rsp: ustack }
}

} // verus!
