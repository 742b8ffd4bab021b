//! Boot timing: time-stamp counter readings at the phases of kernel start-up
//! and the deltas the `boottime` report shows.
use vstd::prelude::*;
use vstd::utf8::encode_utf8;
use crate::fmt::{dec_digits, push_bytes, push_dec};

verus! {

pub const NUM_PHASES: usize = 10;

#[derive(Clone, Copy, PartialEq, Eq, Structural, Debug)]
pub enum Phase {
    KernelEntry,
    PmmDone,
    PagingDone,
    GdtDone,
    IdtDone,
    SyscallDone,
    PitDone,
    HeapDone,
    RamfsDone,
    ShellReady,
}

/// Position of a phase in start-up order.
pub open spec fn phase_index(p: Phase) -> int {
    match p {
        Phase::KernelEntry => 0,
        Phase::PmmDone => 1,
        Phase::PagingDone => 2,
        Phase::GdtDone => 3,
        Phase::IdtDone => 4,
        Phase::SyscallDone => 5,
        Phase::PitDone => 6,
        Phase::HeapDone => 7,
        Phase::RamfsDone => 8,
        Phase::ShellReady => 9,
    }
}

/// The phase at position `i` of start-up order (the last one past the end).
pub open spec fn phase_at(i: int) -> Phase {
    if i == 0 { Phase::KernelEntry } else if i == 1 { Phase::PmmDone } else if i == 2 { Phase::PagingDone }
    else if i == 3 { Phase::GdtDone } else if i == 4 { Phase::IdtDone } else if i == 5 { Phase::SyscallDone }
    else if i == 6 { Phase::PitDone } else if i == 7 { Phase::HeapDone } else if i == 8 { Phase::RamfsDone }
    else { Phase::ShellReady }
}

/// A phase's name in the report.
pub open spec fn phase_label(p: Phase) -> Seq<char> {
    match p {
        Phase::KernelEntry => "kernel entry"@,
        Phase::PmmDone => "pmm init"@,
        Phase::PagingDone => "paging init"@,
        Phase::GdtDone => "gdt init"@,
        Phase::IdtDone => "idt init"@,
        Phase::SyscallDone => "syscall init"@,
        Phase::PitDone => "pit init"@,
        Phase::HeapDone => "heap smoke-test"@,
        Phase::RamfsDone => "ramfs + elf load"@,
        Phase::ShellReady => "shell ready"@,
    }
}

impl Phase {
    /// The phase's name in the report.
    pub fn label(self) -> (r: &'static str)
        ensures
            r@ == phase_label(self),
    {
        match self {
            Phase::KernelEntry => "kernel entry",
            Phase::PmmDone => "pmm init",
            Phase::PagingDone => "paging init",
            Phase::GdtDone => "gdt init",
            Phase::IdtDone => "idt init",
            Phase::SyscallDone => "syscall init",
            Phase::PitDone => "pit init",
            Phase::HeapDone => "heap smoke-test",
            Phase::RamfsDone => "ramfs + elf load",
            Phase::ShellReady => "shell ready",
        }
    }

    /// Position of the phase in start-up order.
    pub fn index(self) -> (r: usize)
        ensures
            r == phase_index(self),
            r < NUM_PHASES,
    {
        match self {
            Phase::KernelEntry => 0,
            Phase::PmmDone => 1,
            Phase::PagingDone => 2,
            Phase::GdtDone => 3,
            Phase::IdtDone => 4,
            Phase::SyscallDone => 5,
            Phase::PitDone => 6,
            Phase::HeapDone => 7,
            Phase::RamfsDone => 8,
            Phase::ShellReady => 9,
        }
    }

    /// The phase at position `i` of start-up order.
    pub fn from_index(i: usize) -> (p: Self)
        requires
            i < NUM_PHASES,
        ensures
            p == phase_at(i as int),
            phase_index(p) == i,
    {
        if i == 0 { Phase::KernelEntry } else if i == 1 { Phase::PmmDone } else if i == 2 { Phase::PagingDone }
        else if i == 3 { Phase::GdtDone } else if i == 4 { Phase::IdtDone } else if i == 5 { Phase::SyscallDone }
        else if i == 6 { Phase::PitDone } else if i == 7 { Phase::HeapDone } else if i == 8 { Phase::RamfsDone }
        else { Phase::ShellReady }
    }
}

/// Counter readings taken during boot; 0 means "not taken".
pub struct BootStamps {
    pub bootloader_tsc: u64,
    pub stamps: [u64; 10],
}

/// The last stamp taken before phase `i`, if any.
pub open spec fn last_taken_before(s: Seq<u64>, i: int) -> Option<int>
    decreases i,
{
    if i <= 0 {
        None
    } else if s[i - 1] > 0 {
        Some(i - 1)
    } else {
        last_taken_before(s, i - 1)
    }
}

/// The reading a phase's delta is measured from: for the first phase the
/// loader's reading when there is one, otherwise the last earlier stamp (its
/// own reading when there is none).
pub open spec fn prev_reading(s: Seq<u64>, bl: u64, i: int) -> u64 {
    if i == 0 {
        if bl > 0 { bl } else { s[0] }
    } else {
        match last_taken_before(s, i) {
            Some(j) => s[j],
            None => s[i],
        }
    }
}

/// The report rows for phases before `n`: each phase with a stamp and its
/// delta, 0 when the counter went backwards.
pub open spec fn rows_before(s: Seq<u64>, bl: u64, n: int) -> Seq<(usize, u64)>
    decreases n,
{
    if n <= 0 {
        Seq::empty()
    } else {
        let i = n - 1;
        let prev = prev_reading(s, bl, i);
        rows_before(s, bl, i) + if s[i] != 0 {
            seq![(i as usize, if s[i] >= prev { (s[i] - prev) as u64 } else { 0u64 })]
        } else {
            Seq::empty()
        }
    }
}

impl BootStamps {
    /// No readings.
    pub fn new() -> (b: Self)
        ensures
            b.bootloader_tsc == 0,
            forall|i: int| 0 <= i < NUM_PHASES ==> #[trigger] b.stamps[i] == 0,
    {
        BootStamps { bootloader_tsc: 0, stamps: [0u64; 10] }
    }

    /// Record reading `tsc` for `phase`.
    pub fn stamp(&mut self, phase: Phase, tsc: u64)
        ensures
            final(self).stamps@ == old(self).stamps@.update(phase_index(phase), tsc),
            final(self).bootloader_tsc == old(self).bootloader_tsc,
    {
        let i = phase.index();
        self.stamps[i] = tsc;
    }

    /// Record the loader's reading.
    pub fn set_bootloader_tsc(&mut self, tsc: u64)
        ensures
            final(self).bootloader_tsc == tsc && final(self).stamps == old(self).stamps,
    {
        self.bootloader_tsc = tsc;
    }

    /// Cycles from the loader's start to kernel entry, when both were read
    /// and the counter moved forward.
    pub fn bootloader_delta(&self) -> (r: Option<u64>)
        ensures
            r == (if self.bootloader_tsc > 0 && self.stamps[0] > self.bootloader_tsc {
                Some((self.stamps[0] - self.bootloader_tsc) as u64)
            } else {
                None
            }),
    {
        let bl = self.bootloader_tsc;
        if bl > 0 && self.stamps[0] > bl { Some(self.stamps[0] - bl) } else { None }
    }

    fn last_before(&self, i: usize) -> (r: Option<usize>)
        requires
            i <= NUM_PHASES,
        ensures
            match r {
                Some(j) => last_taken_before(self.stamps@, i as int) == Some(j as int) && j < i,
                None => last_taken_before(self.stamps@, i as int) is None,
            },
        decreases i,
    {
        if i == 0 {
            return None;
        }
        if self.stamps[i - 1] > 0 {
            return Some(i - 1);
        }
        self.last_before(i - 1)
    }

    /// The report rows: each phase with a stamp, in order, with the cycles
    /// since the reading before it.
    pub fn report_rows(&self) -> (rows: Vec<(usize, u64)>)
        ensures
            rows@ == rows_before(self.stamps@, self.bootloader_tsc, NUM_PHASES as int),
    {
        let mut rows: Vec<(usize, u64)> = Vec::new();
        let bl = self.bootloader_tsc;
        let mut i: usize = 0;
        while i < NUM_PHASES
            invariant
                i <= NUM_PHASES,
                bl == self.bootloader_tsc,
                rows@ == rows_before(self.stamps@, bl, i as int),
            decreases NUM_PHASES - i,
        {
            let cur = self.stamps[i];
            if cur != 0 {
                let prev = if i == 0 {
                    if bl > 0 { bl } else { cur }
                } else {
                    match self.last_before(i) {
                        Some(j) => self.stamps[j],
                        None => cur,
                    }
                };
                let delta = if cur >= prev { cur - prev } else { 0 };
                rows.push((i, delta));
            }
            proof {
                assert(rows@ =~= rows_before(self.stamps@, bl, i + 1));
            }
            i = i + 1;
        }
        rows
    }

    /// Cycles from kernel entry to the last stamp taken, when kernel entry
    /// was stamped and the counter moved forward.
    pub fn total(&self) -> (r: Option<u64>)
        ensures
            r == (match last_taken_before(self.stamps@, NUM_PHASES as int) {
                Some(li) => if self.stamps[li] > self.stamps[0] && self.stamps[0] > 0 {
                    Some((self.stamps[li] - self.stamps[0]) as u64)
                } else {
                    None
                },
                None => None,
            }),
    {
        let first = self.stamps[0];
        match self.last_before(NUM_PHASES) {
            Some(li) => if self.stamps[li] > first && first > 0 { Some(self.stamps[li] - first) } else { None },
            None => None,
        }
    }
}


/// `s` padded on the right with spaces to `w` bytes.
pub open spec fn padded(s: Seq<u8>, w: nat) -> Seq<u8> {
    if s.len() < w { s + Seq::new((w - s.len()) as nat, |i: int| 32u8) } else { s }
}

/// The report line of a phase with its delta. Phase names are ASCII, so
/// padding by bytes is padding by characters.
pub open spec fn row_text(row: (usize, u64)) -> Seq<u8> {
    padded(encode_utf8(phase_label(phase_at(row.0 as int))), 22) + encode_utf8(": "@)
        + dec_digits(row.1 as nat) + encode_utf8(" cycles\n"@)
}

/// The report lines of the first `n` rows.
pub open spec fn rows_text(rows: Seq<(usize, u64)>, n: int) -> Seq<u8>
    decreases n,
{
    if n <= 0 || n > rows.len() { Seq::empty() } else { rows_text(rows, n - 1) + row_text(rows[n - 1]) }
}

/// The whole boot timing report: a heading, the loader-to-kernel line when
/// there is a delta, a line per stamped phase and, when there is one, the
/// total under a rule.
pub open spec fn report_text(b: BootStamps) -> Seq<u8> {
    let rows = rows_before(b.stamps@, b.bootloader_tsc, NUM_PHASES as int);
    let bl = b.bootloader_tsc;
    let s = b.stamps@;
    encode_utf8("Boot timing (TSC cycles)\n------------------------\n"@)
    + (if bl > 0 && s[0] > bl {
        encode_utf8("bootloader \u{2192} kernel entry : "@) + dec_digits((s[0] - bl) as nat) + encode_utf8(" cycles\n"@)
    } else {
        Seq::empty()
    })
    + rows_text(rows, rows.len() as int)
    + (match last_taken_before(s, NUM_PHASES as int) {
        Some(li) => if s[li] > s[0] && s[0] > 0 {
            encode_utf8("------------------------\ntotal kernel init         : "@) + dec_digits((s[li] - s[0]) as nat)
                + encode_utf8(" cycles\n"@)
        } else {
            Seq::empty()
        },
        None => Seq::empty(),
    })
}

fn push_row(out: &mut Vec<u8>, row: (usize, u64))
    requires
        row.0 < NUM_PHASES,
    ensures
        final(out)@ == old(out)@ + row_text(row),
{
    let label = Phase::from_index(row.0).label().as_bytes();
    push_bytes(out, label);
    let mut n: usize = label.len();
    while n < 22
        invariant
            label.len() <= n,
            n <= 22 || n == label.len(),
            out@ == old(out)@ + label@ + Seq::new((n - label.len()) as nat, |i: int| 32u8),
        decreases 22 - n,
    {
        out.push(32u8);
        n = n + 1;
        assert(out@ =~= old(out)@ + label@ + Seq::new((n - label.len()) as nat, |i: int| 32u8));
    }
    assert(padded(label@, 22) =~= label@ + Seq::new((n - label.len()) as nat, |i: int| 32u8));
    push_bytes(out, ": ".as_bytes());
    push_dec(out, row.1);
    push_bytes(out, " cycles\n".as_bytes());
    assert(out@ =~= old(out)@ + row_text(row));
}

impl BootStamps {
    /// The boot timing report text, as UTF-8 bytes.
    pub fn report(&self) -> (text: Vec<u8>)
        ensures
            text@ == report_text(*self),
    {
        let mut out: Vec<u8> = Vec::new();
        push_bytes(&mut out, "Boot timing (TSC cycles)\n------------------------\n".as_bytes());
        match self.bootloader_delta() {
            Some(d) => {
                push_bytes(&mut out, "bootloader \u{2192} kernel entry : ".as_bytes());
                push_dec(&mut out, d);
                push_bytes(&mut out, " cycles\n".as_bytes());
            },
            None => {},
        }
        let ghost head = out@;
        let rows = self.report_rows();
        proof { lemma_rows_indices(self.stamps@, self.bootloader_tsc, NUM_PHASES as int); }
        let mut k: usize = 0;
        while k < rows.len()
            invariant
                k <= rows@.len(),
                rows@ == rows_before(self.stamps@, self.bootloader_tsc, NUM_PHASES as int),
                forall|j: int| 0 <= j < rows@.len() ==> (#[trigger] rows@[j]).0 < NUM_PHASES,
                out@ == head + rows_text(rows@, k as int),
            decreases rows@.len() - k,
        {
            push_row(&mut out, rows[k]);
            k = k + 1;
            assert(out@ =~= head + rows_text(rows@, k as int));
        }
        match self.total() {
            Some(t) => {
                push_bytes(&mut out, "------------------------\ntotal kernel init         : ".as_bytes());
                push_dec(&mut out, t);
                push_bytes(&mut out, " cycles\n".as_bytes());
            },
            None => {},
        }
        assert(out@ =~= report_text(*self));
        out
    }
}

/// Every row names a phase.
proof fn lemma_rows_indices(s: Seq<u64>, bl: u64, n: int)
    requires
        n <= NUM_PHASES,
    ensures
        forall|j: int| 0 <= j < rows_before(s, bl, n).len() ==> (#[trigger] rows_before(s, bl, n)[j]).0 < NUM_PHASES,
    decreases n,
{
    if n > 0 {
        lemma_rows_indices(s, bl, n - 1);
        let prev = rows_before(s, bl, n - 1);
        assert forall|j: int| 0 <= j < rows_before(s, bl, n).len() implies (#[trigger] rows_before(s, bl, n)[j]).0 < NUM_PHASES by {
            if j < prev.len() {
                assert(rows_before(s, bl, n)[j] == prev[j]);
            }
        }
    }
}

} // verus!
