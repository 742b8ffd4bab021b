//! Descriptor operations on open files: what a descriptor is, its status
//! flags, its offset, and reads of the file behind it.
use vstd::prelude::*;
use super::state::{DescriptorInfo, FdTarget, OpenFile, MAX_OPEN_FILES, MAX_PROCS};
use super::table::ProcTable;
use super::fd::fd_target_of;
use super::pipe::pipe_end_of;
use crate::fs::{file_slice, RamFS};

verus! {

pub const SEEK_SET: u64 = 0;
pub const SEEK_CUR: u64 = 1;
pub const SEEK_END: u64 = 2;

/// The open-file description behind descriptor `fd` of the current process,
/// if the descriptor refers to one in use.
pub open spec fn open_idx_of(t: ProcTable, cur: int, fd: int) -> Option<int> {
    match fd_target_of(t, cur, fd) {
        Some(FdTarget::Open(k)) => if k < MAX_OPEN_FILES && t.open_files[k as int].in_use { Some(k as int) } else { None },
        _ => None,
    }
}

/// What descriptor `fd` of the current process is, with file sizes taken from `fs`.
pub open spec fn descriptor_info_of(t: ProcTable, cur: int, fd: int, fs: RamFS) -> Option<DescriptorInfo> {
    match fd_target_of(t, cur, fd) {
        Some(FdTarget::Stdio(i)) => Some(DescriptorInfo::Stdio { index: i }),
        Some(FdTarget::Open(k)) => if k < MAX_OPEN_FILES && t.open_files[k as int].in_use {
            let f = t.open_files[k as int].file_idx;
            Some(DescriptorInfo::File { file_idx: f, size: fs.data_at(f as int).len() as usize })
        } else {
            None
        },
        Some(FdTarget::PipeRead(_)) => Some(DescriptorInfo::Pipe),
        Some(FdTarget::PipeWrite(_)) => Some(DescriptorInfo::Pipe),
        _ => None,
    }
}

/// `new` differs from `old` in open-file description `k` alone, and there
/// neither in what it refers to nor in how it is counted.
pub open spec fn only_open_changed(old: ProcTable, new: ProcTable, k: int) -> bool {
    &&& new.processes == old.processes
    &&& new.threads == old.threads
    &&& new.pipes == old.pipes
    &&& new.next_pid == old.next_pid
    &&& forall|j: int| 0 <= j < MAX_OPEN_FILES && j != k ==> new.open_files[j] == old.open_files[j]
    &&& new.open_files[k].file_idx == old.open_files[k].file_idx
    &&& new.open_files[k].refs == old.open_files[k].refs
    &&& new.open_files[k].in_use == old.open_files[k].in_use
}

/// `a + b`, held to the range of `i64`.
pub open spec fn saturating_add_i64(a: int, b: int) -> int {
    if a + b > i64::MAX { i64::MAX as int } else if a + b < i64::MIN { i64::MIN as int } else { a + b }
}

/// The offset a seek asks for, before it is checked for being negative.
pub open spec fn seek_target(whence: u64, offset: i64, cur: usize, size: nat) -> Option<int> {
    if whence == SEEK_SET {
        Some(offset as int)
    } else if whence == SEEK_CUR {
        Some(saturating_add_i64((cur as i64) as int, offset as int))
    } else if whence == SEEK_END {
        Some(saturating_add_i64((size as i64) as int, offset as int))
    } else {
        None
    }
}

fn saturating_add(a: i64, b: i64) -> (r: i64)
    ensures
        r == saturating_add_i64(a as int, b as int),
{
    match a.checked_add(b) {
        Some(v) => v,
        None => if b > 0 { i64::MAX } else { i64::MIN },
    }
}

impl ProcTable {
    /// Status flags of open-file description `open_idx`, if it is in use.
    pub fn status_flags(&self, open_idx: usize) -> (r: Option<u32>)
        ensures
            r == (if open_idx < MAX_OPEN_FILES && self.open_files[open_idx as int].in_use {
                Some(self.open_files[open_idx as int].status_flags)
            } else {
                None
            }),
    {
        if open_idx >= MAX_OPEN_FILES || !self.open_files[open_idx].in_use {
            return None;
        }
        Some(self.open_files[open_idx].status_flags)
    }

    /// Set the status flags of open-file description `open_idx`, if it is in use.
    fn set_open_status_flags(&mut self, open_idx: usize, flags: u32) -> (r: bool)
        requires
            old(self).wf(),
        ensures
            final(self).wf(),
            r == (open_idx < MAX_OPEN_FILES && old(self).open_files[open_idx as int].in_use),
            !r ==> *final(self) == *old(self),
            r ==> only_open_changed(*old(self), *final(self), open_idx as int),
            r ==> final(self).open_files[open_idx as int] == (OpenFile { status_flags: flags, ..old(self).open_files[open_idx as int] }),
    {
        if open_idx >= MAX_OPEN_FILES || !self.open_files[open_idx].in_use {
            return false;
        }
        let ghost before = *self;
        let mut of = self.open_files[open_idx];
        of.status_flags = flags;
        self.open_files[open_idx] = of;
        proof {
            assert forall|j: int| 0 <= j < MAX_OPEN_FILES implies #[trigger] self.open_ok(j) by {
                assert(before.open_ok(j));
            }
            assert forall|j: int| 0 <= j < 16 implies #[trigger] self.pipe_ok(j) by {
                assert(before.pipe_ok(j));
            }
        }
        true
    }

    /// Descriptor information for open-file description `open_idx`.
    fn open_descriptor_info(&self, open_idx: usize, fs: &RamFS) -> (r: Option<DescriptorInfo>)
        ensures
            r == (if open_idx < MAX_OPEN_FILES && self.open_files[open_idx as int].in_use {
                let f = self.open_files[open_idx as int].file_idx;
                Some(DescriptorInfo::File { file_idx: f, size: fs.data_at(f as int).len() as usize })
            } else {
                None
            }),
    {
        if open_idx >= MAX_OPEN_FILES || !self.open_files[open_idx].in_use {
            return None;
        }
        let f = self.open_files[open_idx].file_idx;
        Some(DescriptorInfo::File { file_idx: f, size: fs.file_size(f) })
    }

    /// What descriptor `fd` of the current process is.
    pub fn descriptor_info(&self, cur: usize, fd: usize, fs: &RamFS) -> (r: Option<DescriptorInfo>)
        requires
            cur < MAX_PROCS,
        ensures
            r == descriptor_info_of(*self, cur as int, fd as int, *fs),
    {
        match self.get_fd_target(cur, fd) {
            Some(FdTarget::Stdio(index)) => Some(DescriptorInfo::Stdio { index }),
            Some(FdTarget::Open(k)) => self.open_descriptor_info(k, fs),
            Some(FdTarget::PipeRead(_)) => Some(DescriptorInfo::Pipe),
            Some(FdTarget::PipeWrite(_)) => Some(DescriptorInfo::Pipe),
            _ => None,
        }
    }

    /// The open-file description behind descriptor `fd`, if it refers to one in use.
    pub fn open_index(&self, cur: usize, fd: usize) -> (r: Option<usize>)
        requires
            cur < MAX_PROCS,
        ensures
            match r {
                Some(k) => open_idx_of(*self, cur as int, fd as int) == Some(k as int),
                None => open_idx_of(*self, cur as int, fd as int) is None,
            },
    {
        match self.get_fd_target(cur, fd) {
            Some(FdTarget::Open(k)) => if k < MAX_OPEN_FILES && self.open_files[k].in_use { Some(k) } else { None },
            _ => None,
        }
    }

    /// Status flags of descriptor `fd`: 0 for standard streams, those of the
    /// open-file description or pipe end otherwise; `None` for anything else.
    pub fn get_status_flags(&self, cur: usize, fd: usize) -> (r: Option<u32>)
        requires
            cur < MAX_PROCS,
        ensures
            r == match fd_target_of(*self, cur as int, fd as int) {
                Some(FdTarget::Stdio(_)) => Some(0u32),
                Some(FdTarget::Open(k)) => if k < MAX_OPEN_FILES && self.open_files[k as int].in_use {
                    Some(self.open_files[k as int].status_flags)
                } else {
                    None
                },
                Some(FdTarget::PipeRead(_)) => match pipe_end_of(*self, cur as int, fd as int) {
                    Some((k, _)) => Some(self.pipes[k].read_flags),
                    None => None,
                },
                Some(FdTarget::PipeWrite(_)) => match pipe_end_of(*self, cur as int, fd as int) {
                    Some((k, _)) => Some(self.pipes[k].write_flags),
                    None => None,
                },
                _ => None,
            },
    {
        match self.get_fd_target(cur, fd) {
            Some(FdTarget::Stdio(_)) => Some(0),
            Some(FdTarget::Open(k)) => self.status_flags(k),
            Some(FdTarget::PipeRead(_)) => self.pipe_status_flags(cur, fd),
            Some(FdTarget::PipeWrite(_)) => self.pipe_status_flags(cur, fd),
            _ => None,
        }
    }

    /// Set the status flags of descriptor `fd`. Standard streams accept and
    /// ignore them; open files and pipe ends take them; anything else refuses.
    pub fn set_status_flags(&mut self, cur: usize, fd: usize, flags: u32) -> (r: bool)
        requires
            old(self).wf(),
            cur < MAX_PROCS,
        ensures
            final(self).wf(),
            match fd_target_of(*old(self), cur as int, fd as int) {
                Some(FdTarget::Stdio(_)) => r && *final(self) == *old(self),
                Some(FdTarget::Open(k)) => if k < MAX_OPEN_FILES && old(self).open_files[k as int].in_use {
                    &&& r
                    &&& only_open_changed(*old(self), *final(self), k as int)
                    &&& final(self).open_files[k as int].status_flags == flags
                    &&& final(self).open_files[k as int].offset == old(self).open_files[k as int].offset
                } else {
                    !r && *final(self) == *old(self)
                },
                Some(FdTarget::PipeRead(_)) => match pipe_end_of(*old(self), cur as int, fd as int) {
                    Some((k, _)) => r && final(self).pipes[k].read_flags == flags
                        && final(self).pipes[k] == (super::state::Pipe { read_flags: flags, ..old(self).pipes[k] })
                        && super::pipe::only_pipe_changed(*old(self), *final(self), k),
                    None => !r && *final(self) == *old(self),
                },
                Some(FdTarget::PipeWrite(_)) => match pipe_end_of(*old(self), cur as int, fd as int) {
                    Some((k, _)) => r && final(self).pipes[k].write_flags == flags
                        && final(self).pipes[k] == (super::state::Pipe { write_flags: flags, ..old(self).pipes[k] })
                        && super::pipe::only_pipe_changed(*old(self), *final(self), k),
                    None => !r && *final(self) == *old(self),
                },
                _ => !r && *final(self) == *old(self),
            },
    {
        match self.get_fd_target(cur, fd) {
            Some(FdTarget::Stdio(_)) => true,
            Some(FdTarget::Open(k)) => self.set_open_status_flags(k, flags),
            Some(FdTarget::PipeRead(_)) => self.set_pipe_status_flags(cur, fd, flags),
            Some(FdTarget::PipeWrite(_)) => self.set_pipe_status_flags(cur, fd, flags),
            _ => false,
        }
    }

    /// Size of the file behind descriptor `fd`, if it is an open file.
    pub fn file_size(&self, cur: usize, fd: usize, fs: &RamFS) -> (r: Option<usize>)
        requires
            cur < MAX_PROCS,
        ensures
            r == match descriptor_info_of(*self, cur as int, fd as int, *fs) {
                Some(DescriptorInfo::File { size, .. }) => Some(size),
                _ => None,
            },
    {
        match self.descriptor_info(cur, fd, fs) {
            Some(DescriptorInfo::File { size, .. }) => Some(size),
            _ => None,
        }
    }

    /// Whether descriptor `fd` is standard input.
    pub fn is_stdin(&self, cur: usize, fd: usize) -> (r: bool)
        requires
            cur < MAX_PROCS,
        ensures
            r == (fd_target_of(*self, cur as int, fd as int) == Some(FdTarget::Stdio(0))),
    {
        match self.get_fd_target(cur, fd) {
            Some(FdTarget::Stdio(i)) => i == 0,
            _ => false,
        }
    }

    /// Whether descriptor `fd` is standard output or standard error.
    pub fn is_stdout_or_stderr(&self, cur: usize, fd: usize) -> (r: bool)
        requires
            cur < MAX_PROCS,
        ensures
            r == (fd_target_of(*self, cur as int, fd as int) == Some(FdTarget::Stdio(1))
                || fd_target_of(*self, cur as int, fd as int) == Some(FdTarget::Stdio(2))),
    {
        match self.get_fd_target(cur, fd) {
            Some(FdTarget::Stdio(i)) => i == 1 || i == 2,
            _ => false,
        }
    }

    /// Move the offset of the open file behind `fd`: to `offset` (`SEEK_SET`),
    /// by `offset` (`SEEK_CUR`) or to the end plus `offset` (`SEEK_END`), with
    /// saturating arithmetic. `None`, with nothing changed, for a descriptor
    /// that is no open file, an unknown `whence` or a negative result.
    pub fn seek(&mut self, cur: usize, fd: usize, offset: i64, whence: u64, fs: &RamFS) -> (r: Option<u64>)
        requires
            old(self).wf(),
            cur < MAX_PROCS,
        ensures
            final(self).wf(),
            match open_idx_of(*old(self), cur as int, fd as int) {
                Some(k) => {
                    let of = old(self).open_files[k];
                    match seek_target(whence, offset, of.offset, fs.data_at(of.file_idx as int).len()) {
                        Some(n) => if n < 0 {
                            r is None && *final(self) == *old(self)
                        } else {
                            &&& r == Some(n as u64)
                            &&& only_open_changed(*old(self), *final(self), k)
                            &&& final(self).open_files[k].offset == (n as i64) as usize
                            &&& final(self).open_files[k].status_flags == of.status_flags
                        },
                        None => r is None && *final(self) == *old(self),
                    }
                },
                None => r is None && *final(self) == *old(self),
            },
    {
        let k = match self.open_index(cur, fd) {
            Some(k) => k,
            None => return None,
        };
        let size = fs.file_size(self.open_files[k].file_idx) as i64;
        let pos = self.open_files[k].offset as i64;
        let new_off: i64 = if whence == SEEK_SET {
            offset
        } else if whence == SEEK_CUR {
            saturating_add(pos, offset)
        } else if whence == SEEK_END {
            saturating_add(size, offset)
        } else {
            return None;
        };
        if new_off < 0 {
            return None;
        }
        let ghost before = *self;
        let mut of = self.open_files[k];
        of.offset = new_off as usize;
        self.open_files[k] = of;
        proof {
            assert forall|j: int| 0 <= j < MAX_OPEN_FILES implies #[trigger] self.open_ok(j) by {
                assert(before.open_ok(j));
            }
            assert forall|j: int| 0 <= j < 16 implies #[trigger] self.pipe_ok(j) by {
                assert(before.pipe_ok(j));
            }
        }
        Some(new_off as u64)
    }

    /// Read up to `count` bytes of the open file behind `fd` at its offset, and
    /// move the offset past them. `None` when `fd` is no open file.
    pub fn read_file(&mut self, cur: usize, fd: usize, fs: &RamFS, count: usize) -> (r: Option<Vec<u8>>)
        requires
            old(self).wf(),
            cur < MAX_PROCS,
        ensures
            final(self).wf(),
            match open_idx_of(*old(self), cur as int, fd as int) {
                Some(k) => {
                    let of = old(self).open_files[k];
                    let d = fs.data_at(of.file_idx as int);
                    &&& r is Some
                    &&& r.unwrap()@ == file_slice(d, of.offset as int, count as int)
                    &&& only_open_changed(*old(self), *final(self), k)
                    &&& final(self).open_files[k].offset == of.offset + r.unwrap()@.len()
                    &&& final(self).open_files[k].status_flags == of.status_flags
                },
                None => r is None && *final(self) == *old(self),
            },
    {
        let k = match self.open_index(cur, fd) {
            Some(k) => k,
            None => return None,
        };
        let of0 = self.open_files[k];
        let out = fs.read_at(of0.file_idx, of0.offset, count);
        let ghost before = *self;
        let mut of = of0;
        of.offset = of0.offset + out.len();
        self.open_files[k] = of;
        proof {
            assert forall|j: int| 0 <= j < MAX_OPEN_FILES implies #[trigger] self.open_ok(j) by {
                assert(before.open_ok(j));
            }
            assert forall|j: int| 0 <= j < 16 implies #[trigger] self.pipe_ok(j) by {
                assert(before.pipe_ok(j));
            }
        }
        Some(out)
    }
}


impl ProcTable {
    /// Run `f` once on open-file description `open_idx` and hand back what it
    /// returns; `None`, with `f` not called and nothing changed, when the index
    /// is out of range or the description is free. The table stays well formed
    /// when `f` leaves the description's reference count and in-use flag as
    /// they were.
    pub fn with_mut<R, F: FnOnce(&mut OpenFile) -> R>(&mut self, open_idx: usize, f: F) -> (r: Option<R>)
        requires
            old(self).wf(),
            open_idx < MAX_OPEN_FILES && old(self).open_files[open_idx as int].in_use ==>
                forall|a: &mut OpenFile| *a == old(self).open_files[open_idx as int] ==> call_requires(f, (a,)),
        ensures
            r is Some == (open_idx < MAX_OPEN_FILES && old(self).open_files[open_idx as int].in_use),
            r is None ==> *final(self) == *old(self),
            r is Some ==> {
                &&& final(self).processes == old(self).processes
                &&& final(self).threads == old(self).threads
                &&& final(self).pipes == old(self).pipes
                &&& final(self).next_pid == old(self).next_pid
                &&& forall|j: int| 0 <= j < MAX_OPEN_FILES && j != open_idx ==> final(self).open_files[j] == old(self).open_files[j]
                &&& exists|a: &mut OpenFile| *a == old(self).open_files[open_idx as int]
                    && *final(a) == final(self).open_files[open_idx as int]
                    && call_ensures(f, (a,), r->0)
            },
            (final(self).open_files[open_idx as int].refs == old(self).open_files[open_idx as int].refs
                && final(self).open_files[open_idx as int].in_use == old(self).open_files[open_idx as int].in_use)
                ==> final(self).wf(),
    {
        if open_idx >= MAX_OPEN_FILES || !self.open_files[open_idx].in_use {
            return None;
        }
        let ghost before = *self;
        let mut of = self.open_files[open_idx];
        let out = f(&mut of);
        self.open_files[open_idx] = of;
        proof {
            if of.refs == before.open_files[open_idx as int].refs && of.in_use == before.open_files[open_idx as int].in_use {
                assert forall|j: int| 0 <= j < MAX_OPEN_FILES implies #[trigger] self.open_ok(j) by {
                    assert(before.open_ok(j));
                }
                assert forall|j: int| 0 <= j < 16 implies #[trigger] self.pipe_ok(j) by {
                    assert(before.pipe_ok(j));
                }
            }
        }
        Some(out)
    }
}

} // verus!
