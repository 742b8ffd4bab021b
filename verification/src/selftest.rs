//! Boot sanity checks run before user programs start.
use vstd::prelude::*;
use crate::fs::selftest_ramfs_basic;

verus! {

/// Register slots in the frame saved on system-call entry.
pub const SYSCALL_FRAME_QWORDS: usize = 15;
/// Bytes of that frame.
pub const SYSCALL_FRAME_SIZE: usize = 120;
/// Byte offset of the saved `rax` in the frame.
pub const SYSCALL_FRAME_RAX_OFFSET: usize = 88;
/// Byte offset of the saved user stack pointer (the `r10` slot).
pub const SYSCALL_FRAME_USER_RSP_OFFSET: usize = 112;

/// Whether the system-call frame's layout, as the compiler laid it out, is
/// the one the entry stubs and the fork path assume: its size and the offsets
/// of `rax` and `r10`.
pub fn validate_syscall_frame_layout(size: usize, rax_offset: usize, r10_offset: usize) -> (ok: bool)
    ensures
        ok == (size == SYSCALL_FRAME_SIZE && rax_offset == SYSCALL_FRAME_RAX_OFFSET
            && r10_offset == SYSCALL_FRAME_USER_RSP_OFFSET),
{
    size == SYSCALL_FRAME_SIZE && rax_offset == SYSCALL_FRAME_RAX_OFFSET && r10_offset == SYSCALL_FRAME_USER_RSP_OFFSET
}

/// The boot sanity suite: the frame layout check and the file-system
/// self-test. Returns whether the layout matched; the file-system test
/// cannot fail (its outcome is proved).
pub fn run_boot_sanity_suite(size: usize, rax_offset: usize, r10_offset: usize) -> (ok: bool)
    ensures
        ok == (size == SYSCALL_FRAME_SIZE && rax_offset == SYSCALL_FRAME_RAX_OFFSET
            && r10_offset == SYSCALL_FRAME_USER_RSP_OFFSET),
{
    let ok = validate_syscall_frame_layout(size, rax_offset, r10_offset);
    selftest_ramfs_basic();
    ok
}

} // verus!
