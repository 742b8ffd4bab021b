//! Pipe ring buffers: bytes leave in the order they came in.
use vstd::prelude::*;
use super::state::{FdTarget, Pipe, MAX_PIPES, MAX_PROCS, PIPE_CAPACITY};
use super::table::{pipe_wf, pipe_contents, ProcTable};
use super::fd::fd_target_of;

verus! {

proof fn lemma_mod_shift(a: int, i: int)
    requires
        0 <= a,
        0 <= i,
    ensures
        ((a % 1024) + i) % 1024 == (a + i) % 1024,
{
    vstd::arithmetic::div_mod::lemma_add_mod_noop_right(i, a, 1024);
    assert(i + (a % 1024) == (a % 1024) + i);
    assert(i + a == a + i);
}

proof fn lemma_mod_distinct(a: int, i: int, j: int)
    requires
        0 <= a,
        0 <= i < j < 1024,
    ensures
        (a + i) % 1024 != (a + j) % 1024,
{
    vstd::arithmetic::div_mod::lemma_fundamental_div_mod(a + i, 1024);
    vstd::arithmetic::div_mod::lemma_fundamental_div_mod(a + j, 1024);
    if (a + i) % 1024 == (a + j) % 1024 {
        assert(1024 * ((a + j) / 1024) - 1024 * ((a + i) / 1024) == j - i);
        vstd::arithmetic::mul::lemma_mul_is_distributive_sub(1024, (a + j) / 1024, (a + i) / 1024);
        assert(1024 * ((a + j) / 1024 - (a + i) / 1024) == j - i);
        assert(false) by (nonlinear_arith)
            requires
                1024 * ((a + j) / 1024 - (a + i) / 1024) == j - i,
                0 < j - i < 1024,
        ;
    }
}

/// Number of bytes a write of `data` into `p` takes: as many as fit.
pub open spec fn write_len(p: Pipe, data: Seq<u8>) -> int {
    if data.len() < PIPE_CAPACITY - p.len { data.len() as int } else { PIPE_CAPACITY - p.len }
}

/// `new` is `old` after a write of `data` that took `written` bytes: those bytes
/// follow what was already there, and nothing but the ring buffer changed.
pub open spec fn pipe_wrote(old: Pipe, new: Pipe, data: Seq<u8>, written: int) -> bool {
    &&& pipe_wf(new)
    &&& written == write_len(old, data)
    &&& pipe_contents(new) == pipe_contents(old) + data.subrange(0, written)
    &&& new.read_refs == old.read_refs && new.write_refs == old.write_refs
    &&& new.read_flags == old.read_flags && new.write_flags == old.write_flags
    &&& new.in_use == old.in_use
}

/// `new` is `old` after a read of up to `count` bytes that gave `out`: the
/// oldest bytes, as many as were asked for or held, leave in order.
pub open spec fn pipe_took(old: Pipe, new: Pipe, count: int, out: Seq<u8>) -> bool {
    &&& pipe_wf(new)
    &&& out.len() == (if count < old.len { count } else { old.len as int })
    &&& out == pipe_contents(old).subrange(0, out.len() as int)
    &&& pipe_contents(new) == pipe_contents(old).subrange(out.len() as int, old.len as int)
    &&& new.read_refs == old.read_refs && new.write_refs == old.write_refs
    &&& new.read_flags == old.read_flags && new.write_flags == old.write_flags
    &&& new.in_use == old.in_use
}

/// A pipe hands bytes out in the order they came in: after a write into an
/// empty pipe, a read of at least as many bytes as were taken gives back
/// exactly the bytes taken and leaves the pipe empty; and a write of at most
/// the capacity into an empty pipe takes every byte.
pub proof fn lemma_pipe_fifo(p: Pipe, q: Pipe, r: Pipe, data: Seq<u8>, written: int, count: int, out: Seq<u8>)
    requires
        pipe_wf(p),
        p.len == 0,
        pipe_wrote(p, q, data, written),
        pipe_took(q, r, count, out),
        count >= written,
    ensures
        out == data.subrange(0, written),
        r.len == 0,
        data.len() <= PIPE_CAPACITY ==> written == data.len(),
{
    assert(pipe_contents(p) =~= Seq::<u8>::empty());
    assert(pipe_contents(q).len() == q.len);
    assert(pipe_contents(r).len() == r.len);
}

impl Pipe {
    /// Append as much of `data` as fits; returns the number of bytes taken.
    pub fn pipe_write(&mut self, data: &[u8]) -> (written: usize)
        requires
            pipe_wf(*old(self)),
        ensures
            pipe_wrote(*old(self), *final(self), data@, written as int),
    {
        let mut written: usize = 0;
        while written < data.len() && self.len < PIPE_CAPACITY
            invariant
                pipe_wf(*self),
                written <= data@.len(),
                self.len == old(self).len + written,
                self.read_pos == old(self).read_pos,
                pipe_contents(*self) == pipe_contents(*old(self)) + data@.subrange(0, written as int),
                self.read_refs == old(self).read_refs && self.write_refs == old(self).write_refs,
                self.read_flags == old(self).read_flags && self.write_flags == old(self).write_flags,
                self.in_use == old(self).in_use,
            decreases data@.len() - written,
        {
            let ghost before = *self;
            let b = data[written];
            self.buf[self.write_pos] = b;
            self.write_pos = (self.write_pos + 1) % PIPE_CAPACITY;
            self.len = self.len + 1;
            proof {
                lemma_mod_shift(before.read_pos + before.len, 1);
                assert forall|i: int| 0 <= i < before.len implies
                    #[trigger] pipe_contents(*self)[i] == pipe_contents(before)[i] by {
                    lemma_mod_distinct(before.read_pos as int, i, before.len as int);
                }
                assert(pipe_contents(*self) =~= pipe_contents(before).push(b));
                assert(data@.subrange(0, written + 1) =~= data@.subrange(0, written as int).push(b));
            }
            written = written + 1;
        }
        written
    }

    /// Take up to `count` bytes from the front.
    pub fn pipe_read(&mut self, count: usize) -> (out: Vec<u8>)
        requires
            pipe_wf(*old(self)),
        ensures
            pipe_took(*old(self), *final(self), count as int, out@),
    {
        let mut out: Vec<u8> = Vec::new();
        while out.len() < count && self.len > 0
            invariant
                pipe_wf(*self),
                out@.len() <= count,
                out@.len() + self.len == old(self).len,
                out@ == pipe_contents(*old(self)).subrange(0, out@.len() as int),
                pipe_contents(*self) == pipe_contents(*old(self)).subrange(out@.len() as int, old(self).len as int),
                self.write_pos == old(self).write_pos && self.buf == old(self).buf,
                self.read_refs == old(self).read_refs && self.write_refs == old(self).write_refs,
                self.read_flags == old(self).read_flags && self.write_flags == old(self).write_flags,
                self.in_use == old(self).in_use,
            decreases self.len,
        {
            let ghost before = *self;
            let b = self.buf[self.read_pos];
            out.push(b);
            self.read_pos = (self.read_pos + 1) % PIPE_CAPACITY;
            self.len = self.len - 1;
            proof {
                assert forall|i: int| 0 <= i < self.len implies
                    #[trigger] pipe_contents(*self)[i] == pipe_contents(before)[i + 1] by {
                    lemma_mod_shift(before.read_pos + 1, i);
                }
                lemma_mod_shift(before.read_pos + 1, before.len - 1);
                assert(pipe_contents(*self) =~= pipe_contents(before).drop_first());
                assert(b == pipe_contents(before)[0]);
            }
        }
        out
    }
}

/// The pipe behind descriptor `fd` of the current process, and whether the
/// descriptor is its read end; `None` unless the descriptor is a pipe end in use.
pub open spec fn pipe_end_of(t: ProcTable, cur: int, fd: int) -> Option<(int, bool)> {
    match fd_target_of(t, cur, fd) {
        Some(FdTarget::PipeRead(k)) => if k < MAX_PIPES && t.pipes[k as int].in_use { Some((k as int, true)) } else { None },
        Some(FdTarget::PipeWrite(k)) => if k < MAX_PIPES && t.pipes[k as int].in_use { Some((k as int, false)) } else { None },
        _ => None,
    }
}

/// `new` differs from `old` in pipe `k` alone, and there only in its ring buffer.
pub open spec fn only_pipe_changed(old: ProcTable, new: ProcTable, k: int) -> bool {
    &&& new.processes == old.processes
    &&& new.threads == old.threads
    &&& new.open_files == old.open_files
    &&& new.next_pid == old.next_pid
    &&& forall|j: int| 0 <= j < MAX_PIPES && j != k ==> new.pipes[j] == old.pipes[j]
}

/// What a read from a pipe end gives.
pub enum PipeReadResult {
    /// Bytes taken from the pipe; empty when the pipe is empty and no writer is left.
    Data(Vec<u8>),
    /// The pipe is empty but a writer is still open: wait for an event and retry.
    Wait,
}

impl ProcTable {
    fn pipe_end(&self, cur: usize, fd: usize) -> (r: Option<(usize, bool)>)
        requires
            cur < MAX_PROCS,
        ensures
            match r {
                Some((k, rd)) => pipe_end_of(*self, cur as int, fd as int) == Some((k as int, rd)) && k < MAX_PIPES,
                None => pipe_end_of(*self, cur as int, fd as int) is None,
            },
    {
        match self.get_fd_target(cur, fd) {
            Some(FdTarget::PipeRead(k)) => if k < MAX_PIPES && self.pipes[k].in_use { Some((k, true)) } else { None },
            Some(FdTarget::PipeWrite(k)) => if k < MAX_PIPES && self.pipes[k].in_use { Some((k, false)) } else { None },
            _ => None,
        }
    }

    /// Whether the other end of the pipe behind `fd` has no descriptor left.
    pub fn peer_closed(&self, cur: usize, fd: usize) -> (r: Option<bool>)
        requires
            cur < MAX_PROCS,
        ensures
            r == match pipe_end_of(*self, cur as int, fd as int) {
                Some((k, true)) => Some(self.pipes[k].write_refs == 0),
                Some((k, false)) => Some(self.pipes[k].read_refs == 0),
                None => None,
            },
    {
        match self.pipe_end(cur, fd) {
            Some((k, true)) => Some(self.pipes[k].write_refs == 0),
            Some((k, false)) => Some(self.pipes[k].read_refs == 0),
            None => None,
        }
    }

    /// Status flags of the pipe end behind `fd`.
    pub(crate) fn pipe_status_flags(&self, cur: usize, fd: usize) -> (r: Option<u32>)
        requires
            cur < MAX_PROCS,
        ensures
            r == match pipe_end_of(*self, cur as int, fd as int) {
                Some((k, true)) => Some(self.pipes[k].read_flags),
                Some((k, false)) => Some(self.pipes[k].write_flags),
                None => None,
            },
    {
        match self.pipe_end(cur, fd) {
            Some((k, true)) => Some(self.pipes[k].read_flags),
            Some((k, false)) => Some(self.pipes[k].write_flags),
            None => None,
        }
    }

    /// Set the status flags of the pipe end behind `fd`.
    pub(crate) fn set_pipe_status_flags(&mut self, cur: usize, fd: usize, flags: u32) -> (r: bool)
        requires
            old(self).wf(),
            cur < MAX_PROCS,
        ensures
            final(self).wf(),
            r == pipe_end_of(*old(self), cur as int, fd as int) is Some,
            !r ==> *final(self) == *old(self),
            r ==> only_pipe_changed(*old(self), *final(self), pipe_end_of(*old(self), cur as int, fd as int).unwrap().0),
            r ==> ({
                let (k, rd) = pipe_end_of(*old(self), cur as int, fd as int).unwrap();
                &&& final(self).pipes[k] == (if rd { Pipe { read_flags: flags, ..old(self).pipes[k] } } else { Pipe { write_flags: flags, ..old(self).pipes[k] } })
            }),
    {
        match self.pipe_end(cur, fd) {
            Some((k, rd)) => {
                let ghost before = *self;
                let mut p = self.pipes[k];
                if rd {
                    p.read_flags = flags;
                } else {
                    p.write_flags = flags;
                }
                self.pipes[k] = p;
                proof {
                    assert forall|j: int| 0 <= j < MAX_PIPES implies #[trigger] self.pipe_ok(j) by {
                        assert(before.pipe_ok(j));
                    }
                    assert forall|j: int| 0 <= j < 32 implies #[trigger] self.open_ok(j) by {
                        assert(before.open_ok(j));
                    }
                }
                true
            },
            None => false,
        }
    }

    /// Write `data` to the pipe behind `fd`. `None` unless `fd` is the write end
    /// of a pipe in use; `Some(0)` when no reader is left; otherwise as many
    /// bytes as fit are appended and their number returned.
    pub fn write_pipe(&mut self, cur: usize, fd: usize, data: &[u8]) -> (r: Option<usize>)
        requires
            old(self).wf(),
            cur < MAX_PROCS,
        ensures
            final(self).wf(),
            match pipe_end_of(*old(self), cur as int, fd as int) {
                Some((k, false)) => if old(self).pipes[k].read_refs == 0 {
                    r == Some(0usize) && *final(self) == *old(self)
                } else {
                    &&& r is Some
                    &&& pipe_wrote(old(self).pipes[k], final(self).pipes[k], data@, r.unwrap() as int)
                    &&& only_pipe_changed(*old(self), *final(self), k)
                },
                _ => r is None && *final(self) == *old(self),
            },
    {
        match self.pipe_end(cur, fd) {
            Some((k, false)) => {
                if self.pipes[k].read_refs == 0 {
                    return Some(0);
                }
                let ghost before = *self;
                let mut p = self.pipes[k];
                proof {
                    assert(before.pipe_ok(k as int));
                }
                let n = p.pipe_write(data);
                self.pipes[k] = p;
                proof {
                    assert forall|j: int| 0 <= j < MAX_PIPES implies #[trigger] self.pipe_ok(j) by {
                        assert(before.pipe_ok(j));
                    }
                    assert forall|j: int| 0 <= j < 32 implies #[trigger] self.open_ok(j) by {
                        assert(before.open_ok(j));
                    }
                }
                Some(n)
            },
            _ => None,
        }
    }

    /// Read up to `count` bytes from the pipe behind `fd`. `None` unless `fd` is
    /// the read end of a pipe in use. Bytes held are taken oldest first; an
    /// empty pipe gives no bytes once every writer is gone, and `Wait` before.
    pub fn read_pipe(&mut self, cur: usize, fd: usize, count: usize) -> (r: Option<PipeReadResult>)
        requires
            old(self).wf(),
            cur < MAX_PROCS,
        ensures
            final(self).wf(),
            match pipe_end_of(*old(self), cur as int, fd as int) {
                Some((k, true)) => if old(self).pipes[k].len > 0 {
                    &&& r matches Some(PipeReadResult::Data(out))
                    &&& pipe_took(old(self).pipes[k], final(self).pipes[k], count as int, out@)
                    &&& only_pipe_changed(*old(self), *final(self), k)
                } else if old(self).pipes[k].write_refs == 0 {
                    r matches Some(PipeReadResult::Data(out)) && out@.len() == 0 && *final(self) == *old(self)
                } else {
                    r matches Some(PipeReadResult::Wait) && *final(self) == *old(self)
                },
                _ => r is None && *final(self) == *old(self),
            },
    {
        match self.pipe_end(cur, fd) {
            Some((k, true)) => {
                if self.pipes[k].len == 0 {
                    if self.pipes[k].write_refs == 0 {
                        return Some(PipeReadResult::Data(Vec::new()));
                    }
                    return Some(PipeReadResult::Wait);
                }
                let ghost before = *self;
                let mut p = self.pipes[k];
                proof {
                    assert(before.pipe_ok(k as int));
                }
                let out = p.pipe_read(count);
                self.pipes[k] = p;
                proof {
                    assert forall|j: int| 0 <= j < MAX_PIPES implies #[trigger] self.pipe_ok(j) by {
                        assert(before.pipe_ok(j));
                    }
                    assert forall|j: int| 0 <= j < 32 implies #[trigger] self.open_ok(j) by {
                        assert(before.open_ok(j));
                    }
                }
                Some(PipeReadResult::Data(out))
            },
            _ => None,
        }
    }
}

} // verus!
