//! Where a read or write on a descriptor goes: the console, a character
//! device, a pipe or an open file, and the scheduler's preemption rule.
use vstd::prelude::*;
use super::state::{FdTarget, MAX_PROCS};
use super::table::ProcTable;
use super::fd::fd_target_of;
use super::pipe::{pipe_end_of, pipe_took, pipe_wrote, only_pipe_changed, PipeReadResult};
use super::fd_file::{open_idx_of, only_open_changed};
use crate::fs::file_slice;
use super::task::{TaskSwitch, TaskTable};
use crate::fs::RamFS;
use crate::hw::kbd_buffer::KeyBuffer;

verus! {

/// Whether descriptor `fd` of the current process is served without touching
/// a pipe or a file: standard input, the terminal, the null or zero device.
pub open spec fn reads_keyboard_or_device(t: ProcTable, cur: int, fd: int) -> bool {
    let tg = fd_target_of(t, cur, fd);
    tg == Some(FdTarget::Stdio(0)) || tg == Some(FdTarget::Tty) || tg == Some(FdTarget::Null) || tg == Some(FdTarget::Zero)
}


/// Where a write goes.
#[derive(Clone, Copy, PartialEq, Eq, Structural, Debug)]
pub enum WriteRoute {
    /// The serial port and the framebuffer terminal; every byte is taken.
    Console,
    /// A null or zero device; every byte is taken and dropped.
    Discard,
    /// The pipe or open file behind the descriptor.
    Other,
}

/// Where a write on descriptor `fd` of the current process goes.
pub open spec fn write_route_of(t: ProcTable, cur: int, fd: int) -> WriteRoute {
    match fd_target_of(t, cur, fd) {
        Some(FdTarget::Stdio(i)) => if i == 1 || i == 2 { WriteRoute::Console } else { WriteRoute::Other },
        Some(FdTarget::Tty) => WriteRoute::Console,
        Some(FdTarget::Null) => WriteRoute::Discard,
        Some(FdTarget::Zero) => WriteRoute::Discard,
        _ => WriteRoute::Other,
    }
}

/// What a write to a descriptor did.
#[derive(Clone, Copy, PartialEq, Eq, Structural, Debug)]
pub enum WriteOutcome {
    /// These many bytes go to the console; the caller shows them.
    Console(usize),
    /// These many bytes were taken.
    Taken(usize),
}

/// What a read from a descriptor gives.
pub enum ReadOutcome {
    /// These bytes.
    Bytes(Vec<u8>),
    /// Read this many bytes from the keyboard, waiting for each.
    Keyboard(usize),
    /// Nothing yet: wait for an event and retry.
    Wait,
}

/// Whether the timer tick `ticks` is one at which the scheduler switches tasks.
pub fn tick_switches(ticks: u64) -> (r: bool)
    ensures
        r == (ticks % 10 == 0),
{
    ticks % 10 == 0
}

/// Preempt the running task, unless a system call is in progress: choose
/// the next task round-robin (see `TaskTable::next_task_switch`).
pub fn try_switch(tasks: &mut TaskTable, procs: &mut ProcTable, in_syscall: bool) -> (r: Option<TaskSwitch>)
    requires
        old(tasks).wf(),
        old(procs).wf(),
    ensures
        final(tasks).wf(),
        final(procs).wf(),
        in_syscall ==> r is None && *final(tasks) == *old(tasks) && *final(procs) == *old(procs),
        !in_syscall ==> (r is None <==> super::task::next_ready(old(tasks).tasks@, old(tasks).current as int) is None),
{
    if in_syscall {
        return None;
    }
    tasks.next_task_switch(procs)
}

/// Take up to `count` characters already typed, as bytes.
pub fn read_keys(kbd: &mut KeyBuffer, count: usize) -> (out: Vec<u8>)
    requires
        old(kbd).wf(),
    ensures
        final(kbd).wf(),
        out@.len() == (if count < old(kbd).contents().len() { count as int } else { old(kbd).contents().len() as int }),
        forall|i: int| 0 <= i < out@.len() ==> #[trigger] out@[i] == old(kbd).contents()[i] as u32 as u8,
        final(kbd).contents() == old(kbd).contents().skip(out@.len() as int),
{
    let mut out: Vec<u8> = Vec::new();
    while out.len() < count
        invariant
            kbd.wf(),
            out@.len() <= count,
            out@.len() <= old(kbd).contents().len(),
            forall|i: int| 0 <= i < out@.len() ==> #[trigger] out@[i] == old(kbd).contents()[i] as u32 as u8,
            kbd.contents() == old(kbd).contents().skip(out@.len() as int),
        decreases count - out@.len(),
    {
        let ghost before = kbd.contents();
        match kbd.pop() {
            Some(c) => {
                proof {
                    assert(before[0] == old(kbd).contents()[out@.len() as int]);
                    assert(before.drop_first() =~= old(kbd).contents().skip(out@.len() as int + 1));
                }
                out.push((c as u32) as u8);
            },
            None => {
                proof {
                    assert(old(kbd).contents().len() == out@.len());
                }
                return out;
            },
        }
    }
    out
}

impl ProcTable {
    /// Where a write on descriptor `fd` goes: standard output and error and
    /// the terminal device go to the console, the null and zero devices take
    /// and drop the bytes, anything else goes to the pipe or file behind it.
    pub fn write_route(&self, cur: usize, fd: usize) -> (r: WriteRoute)
        requires
            cur < MAX_PROCS,
        ensures
            r == write_route_of(*self, cur as int, fd as int),
    {
        if self.is_stdout_or_stderr(cur, fd) {
            return WriteRoute::Console;
        }
        match self.get_fd_target(cur, fd) {
            Some(FdTarget::Tty) => WriteRoute::Console,
            Some(FdTarget::Null) => WriteRoute::Discard,
            Some(FdTarget::Zero) => WriteRoute::Discard,
            _ => WriteRoute::Other,
        }
    }

    /// Write `data` to descriptor `fd`: standard output and error and the
    /// terminal take it for the console (the caller shows it); the null and
    /// zero devices take and drop it; the write end of a pipe takes what fits
    /// (nothing once no reader is left). `None` for any other descriptor.
    pub fn write_to_fd(&mut self, cur: usize, fd: usize, data: &[u8]) -> (r: Option<WriteOutcome>)
        requires
            old(self).wf(),
            cur < MAX_PROCS,
        ensures
            final(self).wf(),
            match write_route_of(*old(self), cur as int, fd as int) {
                WriteRoute::Console => r == Some(WriteOutcome::Console(data@.len() as usize)) && *final(self) == *old(self),
                WriteRoute::Discard => r == Some(WriteOutcome::Taken(data@.len() as usize)) && *final(self) == *old(self),
                WriteRoute::Other => match pipe_end_of(*old(self), cur as int, fd as int) {
                    Some((k, false)) => if old(self).pipes[k].read_refs == 0 {
                        r == Some(WriteOutcome::Taken(0)) && *final(self) == *old(self)
                    } else {
                        &&& r matches Some(WriteOutcome::Taken(n))
                        &&& pipe_wrote(old(self).pipes[k], final(self).pipes[k], data@, n as int)
                        &&& only_pipe_changed(*old(self), *final(self), k)
                    },
                    _ => r is None && *final(self) == *old(self),
                },
            },
    {
        match self.write_route(cur, fd) {
            WriteRoute::Console => Some(WriteOutcome::Console(data.len())),
            WriteRoute::Discard => Some(WriteOutcome::Taken(data.len())),
            WriteRoute::Other => match self.write_pipe(cur, fd, data) {
                Some(n) => Some(WriteOutcome::Taken(n)),
                None => None,
            },
        }
    }

    /// Read up to `count` bytes from descriptor `fd`. Nothing is asked for
    /// with `count` 0; standard input and the terminal read the keyboard; the
    /// null device gives nothing and the zero device `count` zeros; a pipe's
    /// read end reads the pipe; anything else reads the open file behind it.
    /// `None` when the descriptor can do none of these.
    pub fn read_from_fd(&mut self, cur: usize, fd: usize, count: usize, fs: &RamFS) -> (r: Option<ReadOutcome>)
        requires
            old(self).wf(),
            cur < MAX_PROCS,
        ensures
            final(self).wf(),
            count == 0 ==> (r matches Some(ReadOutcome::Bytes(v)) && v@.len() == 0) && *final(self) == *old(self),
            count > 0 && (fd_target_of(*old(self), cur as int, fd as int) == Some(FdTarget::Stdio(0))
                || fd_target_of(*old(self), cur as int, fd as int) == Some(FdTarget::Tty)) ==>
                r == Some(ReadOutcome::Keyboard(count)) && *final(self) == *old(self),
            count > 0 && fd_target_of(*old(self), cur as int, fd as int) == Some(FdTarget::Null) ==>
                (r matches Some(ReadOutcome::Bytes(v)) && v@.len() == 0) && *final(self) == *old(self),
            count > 0 && fd_target_of(*old(self), cur as int, fd as int) == Some(FdTarget::Zero) ==>
                (r matches Some(ReadOutcome::Bytes(v)) && v@ == Seq::new(count as nat, |i: int| 0u8)) && *final(self) == *old(self),
            count > 0 && !reads_keyboard_or_device(*old(self), cur as int, fd as int) ==>
                match pipe_end_of(*old(self), cur as int, fd as int) {
                    Some((k, true)) => if old(self).pipes[k].len > 0 {
                        &&& r matches Some(ReadOutcome::Bytes(out))
                        &&& pipe_took(old(self).pipes[k], final(self).pipes[k], count as int, out@)
                        &&& only_pipe_changed(*old(self), *final(self), k)
                    } else if old(self).pipes[k].write_refs == 0 {
                        r matches Some(ReadOutcome::Bytes(out)) && out@.len() == 0 && *final(self) == *old(self)
                    } else {
                        r == Some(ReadOutcome::Wait) && *final(self) == *old(self)
                    },
                    _ => match open_idx_of(*old(self), cur as int, fd as int) {
                        Some(k) => {
                            let of = old(self).open_files[k];
                            &&& r matches Some(ReadOutcome::Bytes(out))
                            &&& out@ == file_slice(fs.data_at(of.file_idx as int), of.offset as int, count as int)
                            &&& only_open_changed(*old(self), *final(self), k)
                            &&& final(self).open_files[k].offset == of.offset + out@.len()
                            &&& final(self).open_files[k].status_flags == of.status_flags
                        },
                        None => r is None && *final(self) == *old(self),
                    },
                },
    {
        if count == 0 {
            return Some(ReadOutcome::Bytes(Vec::new()));
        }
        if self.is_stdin(cur, fd) {
            return Some(ReadOutcome::Keyboard(count));
        }
        match self.get_fd_target(cur, fd) {
            Some(FdTarget::Tty) => { return Some(ReadOutcome::Keyboard(count)); },
            Some(FdTarget::Null) => { return Some(ReadOutcome::Bytes(Vec::new())); },
            Some(FdTarget::Zero) => {
                let mut v: Vec<u8> = Vec::new();
                while v.len() < count
                    invariant
                        v@.len() <= count,
                        forall|i: int| 0 <= i < v@.len() ==> #[trigger] v@[i] == 0u8,
                    decreases count - v@.len(),
                {
                    v.push(0);
                }
                assert(v@ =~= Seq::new(count as nat, |i: int| 0u8));
                return Some(ReadOutcome::Bytes(v));
            },
            _ => {},
        }
        match self.read_pipe(cur, fd, count) {
            Some(PipeReadResult::Data(v)) => { return Some(ReadOutcome::Bytes(v)); },
            Some(PipeReadResult::Wait) => { return Some(ReadOutcome::Wait); },
            None => {},
        }
        match self.read_file(cur, fd, fs, count) {
            Some(v) => Some(ReadOutcome::Bytes(v)),
            None => None,
        }
    }
}

} // verus!
