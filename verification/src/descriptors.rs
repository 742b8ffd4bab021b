//! Segment and interrupt descriptors: the global descriptor table's entries,
//! the task-state segment and its descriptor, and interrupt gates.
use vstd::prelude::*;
use vstd::utf8::encode_utf8;
use crate::fmt::{dec_digits, hex_digits, hex_min, push_bytes, push_dec, push_hex, push_hex_min};

verus! {

pub const SEG_KCODE: u16 = 0x08;
pub const SEG_KDATA: u16 = 0x10;
pub const SEG_UDATA: u16 = 0x1B;
pub const SEG_UCODE: u16 = 0x23;
pub const SEG_TSS: u16 = 0x28;
pub const PRESENT: u8 = 0x80;
pub const DPL0: u8 = 0x00;
pub const DPL3: u8 = 0x60;
pub const DTYPE: u8 = 0x10;
pub const EXEC: u8 = 0x08;
pub const RW: u8 = 0x02;
pub const LONG: u8 = 0x2;
pub const DB: u8 = 0x4;
pub const GRAN: u8 = 0x8;
/// Bytes in a task-state segment.
pub const TSS_SIZE: u16 = 104;
/// Gate attributes: present, 64-bit interrupt gate, privilege 0.
pub const INTERRUPT_GATE: u16 = 0x8E00;

/// A code or data segment descriptor with a flat 4 GiB limit and zero base.
#[derive(Clone, Copy)]
pub struct GdtEntry {
    pub limit_low: u16,
    pub base_low: u16,
    pub base_mid: u8,
    pub access: u8,
    pub granul: u8,
    pub base_high: u8,
}

/// The eight bytes of a descriptor, as the table holds them (little-endian).
pub open spec fn gdt_bits(e: GdtEntry) -> u64 {
    (e.limit_low as u64) | ((e.base_low as u64) << 16u64) | ((e.base_mid as u64) << 32u64)
        | ((e.access as u64) << 40u64) | ((e.granul as u64) << 48u64) | ((e.base_high as u64) << 56u64)
}

impl GdtEntry {
    /// The null descriptor.
    pub fn null() -> (e: Self)
        ensures
            gdt_bits(e) == 0,
    {
        let e = GdtEntry { limit_low: 0, base_low: 0, base_mid: 0, access: 0, granul: 0, base_high: 0 };
        let z16: u16 = 0;
        let z8: u8 = 0;
        assert((z16 as u64) | ((z16 as u64) << 16u64) | ((z8 as u64) << 32u64) | ((z8 as u64) << 40u64)
            | ((z8 as u64) << 48u64) | ((z8 as u64) << 56u64) == 0) by (bit_vector)
            requires z16 == 0, z8 == 0;
        e
    }

    /// A flat segment with access byte `access` and flag nibble `flags`.
    pub fn new(access: u8, flags: u8) -> (e: Self)
        ensures
            e.limit_low == 0xFFFF && e.base_low == 0 && e.base_mid == 0 && e.base_high == 0,
            e.access == access,
            e.granul == ((flags << 4u8) | 0x0F),
    {
        GdtEntry { limit_low: 0xFFFF, base_low: 0, base_mid: 0, access, granul: (flags << 4u8) | 0x0F, base_high: 0 }
    }

    /// The descriptor as the table stores it.
    pub fn encode(&self) -> (v: u64)
        ensures
            v == gdt_bits(*self),
    {
        (self.limit_low as u64) | ((self.base_low as u64) << 16u64) | ((self.base_mid as u64) << 32u64)
            | ((self.access as u64) << 40u64) | ((self.granul as u64) << 48u64) | ((self.base_high as u64) << 56u64)
    }
}

/// The sixteen-byte system descriptor of a task-state segment.
#[derive(Clone, Copy)]
pub struct TssDescriptor {
    pub limit_low: u16,
    pub base_0_15: u16,
    pub base_16_23: u8,
    pub access: u8,
    pub limit_flags: u8,
    pub base_24_31: u8,
    pub base_32_63: u32,
    pub reserved: u32,
}

impl TssDescriptor {
    /// The descriptor of an available 64-bit TSS at `base` with limit `limit`.
    pub fn new(base: u64, limit: u32) -> (d: Self)
        ensures
            d.limit_low == (limit & 0xFFFF) as u16,
            d.base_0_15 == (base & 0xFFFF) as u16,
            d.base_16_23 == ((base >> 16u64) & 0xFF) as u8,
            d.access == 0x89,
            d.limit_flags == ((limit >> 16u32) & 0xF) as u8,
            d.base_24_31 == ((base >> 24u64) & 0xFF) as u8,
            d.base_32_63 == (base >> 32u64) as u32,
            d.reserved == 0,
    {
        TssDescriptor {
            limit_low: (limit & 0xFFFF) as u16,
            base_0_15: (base & 0xFFFF) as u16,
            base_16_23: ((base >> 16u64) & 0xFF) as u8,
            access: 0x89,
            limit_flags: ((limit >> 16u32) & 0xF) as u8,
            base_24_31: ((base >> 24u64) & 0xFF) as u8,
            base_32_63: (base >> 32u64) as u32,
            reserved: 0,
        }
    }

    /// The descriptor's two table words, low then high.
    pub fn encode(&self) -> (v: (u64, u64))
        ensures
            v.0 == (self.limit_low as u64) | ((self.base_0_15 as u64) << 16u64) | ((self.base_16_23 as u64) << 32u64)
                | ((self.access as u64) << 40u64) | ((self.limit_flags as u64) << 48u64) | ((self.base_24_31 as u64) << 56u64),
            v.1 == (self.base_32_63 as u64) | ((self.reserved as u64) << 32u64),
    {
        ((self.limit_low as u64) | ((self.base_0_15 as u64) << 16u64) | ((self.base_16_23 as u64) << 32u64)
            | ((self.access as u64) << 40u64) | ((self.limit_flags as u64) << 48u64) | ((self.base_24_31 as u64) << 56u64),
         (self.base_32_63 as u64) | ((self.reserved as u64) << 32u64))
    }
}

/// The task-state segment: the kernel stack to enter on from user mode.
#[derive(Clone, Copy)]
pub struct Tss {
    pub reserved0: u32,
    pub rsp0: u64,
    pub rsp1: u64,
    pub rsp2: u64,
    pub reserved1: u64,
    pub ist: [u64; 7],
    pub reserved2: u64,
    pub reserved3: u16,
    pub iopb: u16,
}

impl Tss {
    /// An empty TSS whose I/O permission map starts past its end (no map).
    pub fn new() -> (t: Self)
        ensures
            t.rsp0 == 0 && t.rsp1 == 0 && t.rsp2 == 0,
            forall|i: int| 0 <= i < 7 ==> #[trigger] t.ist[i] == 0,
            t.iopb == TSS_SIZE,
    {
        Tss { reserved0: 0, rsp0: 0, rsp1: 0, rsp2: 0, reserved1: 0, ist: [0u64; 7], reserved2: 0, reserved3: 0, iopb: TSS_SIZE }
    }
}

/// The seven table words: null, kernel code, kernel data, user data, user
/// code, and the two words of the TSS descriptor for `tss_base`.
pub fn gdt_table(tss_base: u64) -> (t: [u64; 7])
    ensures
        t[0] == 0,
        t[1] == gdt_bits(GdtEntry { limit_low: 0xFFFF, base_low: 0, base_mid: 0, access: 0x9A, granul: 0xAF, base_high: 0 }),
        t[2] == gdt_bits(GdtEntry { limit_low: 0xFFFF, base_low: 0, base_mid: 0, access: 0x92, granul: 0xCF, base_high: 0 }),
        t[3] == gdt_bits(GdtEntry { limit_low: 0xFFFF, base_low: 0, base_mid: 0, access: 0xF2, granul: 0xCF, base_high: 0 }),
        t[4] == gdt_bits(GdtEntry { limit_low: 0xFFFF, base_low: 0, base_mid: 0, access: 0xFA, granul: 0xAF, base_high: 0 }),
{
    let mut t = [0u64; 7];
    let kcode = GdtEntry::new(PRESENT | DPL0 | DTYPE | EXEC | RW, LONG | GRAN);
    let kdata = GdtEntry::new(PRESENT | DPL0 | DTYPE | RW, DB | GRAN);
    let udata = GdtEntry::new(PRESENT | DPL3 | DTYPE | RW, DB | GRAN);
    let ucode = GdtEntry::new(PRESENT | DPL3 | DTYPE | EXEC | RW, LONG | GRAN);
    assert(((LONG | GRAN) << 4u8) | 0x0F == 0xAFu8) by (bit_vector);
    assert(((DB | GRAN) << 4u8) | 0x0F == 0xCFu8) by (bit_vector);
    assert(PRESENT | DPL0 | DTYPE | EXEC | RW == 0x9Au8) by (bit_vector);
    assert(PRESENT | DPL0 | DTYPE | RW == 0x92u8) by (bit_vector);
    assert(PRESENT | DPL3 | DTYPE | RW == 0xF2u8) by (bit_vector);
    assert(PRESENT | DPL3 | DTYPE | EXEC | RW == 0xFAu8) by (bit_vector);
    t[1] = kcode.encode();
    t[2] = kdata.encode();
    t[3] = udata.encode();
    t[4] = ucode.encode();
    let (lo, hi) = TssDescriptor::new(tss_base, (TSS_SIZE - 1) as u32).encode();
    t[5] = lo;
    t[6] = hi;
    t
}

/// An interrupt gate.
#[derive(Clone, Copy)]
pub struct IdtEntry {
    pub offset_low: u16,
    pub selector: u16,
    pub options: u16,
    pub offset_mid: u16,
    pub offset_high: u32,
    pub zero: u32,
}

impl IdtEntry {
    /// An absent gate.
    pub fn missing() -> (e: Self)
        ensures
            e.offset_low == 0 && e.selector == 0 && e.options == 0,
            e.offset_mid == 0 && e.offset_high == 0 && e.zero == 0,
    {
        IdtEntry { offset_low: 0, selector: 0, options: 0, offset_mid: 0, offset_high: 0, zero: 0 }
    }

    pub fn set_handler(&mut self, addr: u64)
        ensures
            final(self).offset_low == addr as u16,
            final(self).offset_mid == (addr >> 16u64) as u16,
            final(self).offset_high == (addr >> 32u64) as u32,
            final(self).selector == SEG_KCODE,
            final(self).options == INTERRUPT_GATE,
            final(self).zero == 0,
            final(self).offset_low as u64 | ((final(self).offset_mid as u64) << 16u64)
                | ((final(self).offset_high as u64) << 32u64) == addr,
    {
        self.offset_low = addr as u16;
        self.selector = SEG_KCODE;
        self.options = INTERRUPT_GATE;
        self.offset_mid = (addr >> 16u64) as u16;
        self.offset_high = (addr >> 32u64) as u32;
        self.zero = 0;
        let lo = self.offset_low;
        let mid = self.offset_mid;
        let hi = self.offset_high;
        assert(lo as u64 | ((mid as u64) << 16u64) | ((hi as u64) << 32u64) == addr) by (bit_vector)
            requires lo == addr as u16, mid == (addr >> 16u64) as u16, hi == (addr >> 32u64) as u32;
    }
}

/// Registers saved by the exception entry stubs, in the order they sit on the stack.
#[derive(Clone, Copy)]
pub struct InterruptFrame {
    pub r15: u64,
    pub r14: u64,
    pub r13: u64,
    pub r12: u64,
    pub r11: u64,
    pub r10: u64,
    pub r9: u64,
    pub r8: u64,
    pub rbp: u64,
    pub rdi: u64,
    pub rsi: u64,
    pub rdx: u64,
    pub rcx: u64,
    pub rbx: u64,
    pub rax: u64,
    pub padding: u64,
    pub vector: u64,
    pub error_code: u64,
    pub rip: u64,
    pub cs: u64,
    pub rflags: u64,
    pub rsp: u64,
    pub ss: u64,
}

/// The exit code a process gets when an exception ends it: the vector number.
pub fn exception_exit_code(frame: &InterruptFrame) -> (code: i64)
    ensures
        code == frame.vector as i64,
{
    frame.vector as i64
}

/// `v` as `{:#x}` prints it: `0x` and the hex digits without leading zeros.
pub open spec fn alt_hex(v: u64) -> Seq<u8> {
    seq![48u8, 120u8] + hex_min(v as nat)
}

/// `v` as `{:#018x}` prints it: `0x` and sixteen hex digits.
pub open spec fn alt_hex18(v: u64) -> Seq<u8> {
    seq![48u8, 120u8] + hex_digits(v, 16)
}

/// A register dump line of four registers: each name, then its value.
pub open spec fn regs_line(n0: Seq<char>, v0: u64, n1: Seq<char>, v1: u64, n2: Seq<char>, v2: u64, n3: Seq<char>, v3: u64) -> Seq<u8> {
    encode_utf8(n0) + alt_hex18(v0) + encode_utf8(n1) + alt_hex18(v1) + encode_utf8(n2) + alt_hex18(v2)
        + encode_utf8(n3) + alt_hex18(v3) + seq![10u8]
}

/// The report written to the serial line when an exception ends a task:
/// the vector, instruction pointer and error code, every general register,
/// and the segment selectors and flags.
pub open spec fn exception_text(f: InterruptFrame) -> Seq<u8> {
    encode_utf8("\n[EXCEPTION] fault #"@) + dec_digits(f.vector as nat) + encode_utf8(" in task (RIP="@)
        + alt_hex(f.rip) + encode_utf8(", ERR="@) + alt_hex(f.error_code) + encode_utf8(")\n"@)
    + regs_line("RAX="@, f.rax, " RBX="@, f.rbx, " RCX="@, f.rcx, " RDX="@, f.rdx)
    + regs_line("RSI="@, f.rsi, " RDI="@, f.rdi, " RBP="@, f.rbp, " RSP="@, f.rsp)
    + regs_line("R8 ="@, f.r8, " R9 ="@, f.r9, " R10="@, f.r10, " R11="@, f.r11)
    + regs_line("R12="@, f.r12, " R13="@, f.r13, " R14="@, f.r14, " R15="@, f.r15)
    + encode_utf8("CS ="@) + alt_hex(f.cs) + encode_utf8(" SS ="@) + alt_hex(f.ss)
        + encode_utf8(" RFLAGS="@) + alt_hex(f.rflags) + seq![10u8]
}

fn push_alt_hex18(out: &mut Vec<u8>, v: u64)
    ensures
        final(out)@ == old(out)@ + alt_hex18(v),
{
    out.push(48u8);
    out.push(120u8);
    push_hex(out, v, 16);
    assert(final(out)@ =~= old(out)@ + alt_hex18(v));
}

fn push_alt_hex(out: &mut Vec<u8>, v: u64)
    ensures
        final(out)@ == old(out)@ + alt_hex(v),
{
    out.push(48u8);
    out.push(120u8);
    push_hex_min(out, v);
    assert(final(out)@ =~= old(out)@ + alt_hex(v));
}

fn push_regs_line(out: &mut Vec<u8>, n0: &str, v0: u64, n1: &str, v1: u64, n2: &str, v2: u64, n3: &str, v3: u64)
    ensures
        final(out)@ == old(out)@ + regs_line(n0@, v0, n1@, v1, n2@, v2, n3@, v3),
{
    push_bytes(out, n0.as_bytes());
    push_alt_hex18(out, v0);
    push_bytes(out, n1.as_bytes());
    push_alt_hex18(out, v1);
    push_bytes(out, n2.as_bytes());
    push_alt_hex18(out, v2);
    push_bytes(out, n3.as_bytes());
    push_alt_hex18(out, v3);
    out.push(10u8);
    assert(final(out)@ =~= old(out)@ + regs_line(n0@, v0, n1@, v1, n2@, v2, n3@, v3));
}

/// The exception report for `frame` (see `exception_text`).
pub fn exception_report(frame: &InterruptFrame) -> (text: Vec<u8>)
    ensures
        text@ == exception_text(*frame),
{
    let mut out: Vec<u8> = Vec::new();
    push_bytes(&mut out, "\n[EXCEPTION] fault #".as_bytes());
    push_dec(&mut out, frame.vector);
    push_bytes(&mut out, " in task (RIP=".as_bytes());
    push_alt_hex(&mut out, frame.rip);
    push_bytes(&mut out, ", ERR=".as_bytes());
    push_alt_hex(&mut out, frame.error_code);
    push_bytes(&mut out, ")\n".as_bytes());
    push_regs_line(&mut out, "RAX=", frame.rax, " RBX=", frame.rbx, " RCX=", frame.rcx, " RDX=", frame.rdx);
    push_regs_line(&mut out, "RSI=", frame.rsi, " RDI=", frame.rdi, " RBP=", frame.rbp, " RSP=", frame.rsp);
    push_regs_line(&mut out, "R8 =", frame.r8, " R9 =", frame.r9, " R10=", frame.r10, " R11=", frame.r11);
    push_regs_line(&mut out, "R12=", frame.r12, " R13=", frame.r13, " R14=", frame.r14, " R15=", frame.r15);
    push_bytes(&mut out, "CS =".as_bytes());
    push_alt_hex(&mut out, frame.cs);
    push_bytes(&mut out, " SS =".as_bytes());
    push_alt_hex(&mut out, frame.ss);
    push_bytes(&mut out, " RFLAGS=".as_bytes());
    push_alt_hex(&mut out, frame.rflags);
    out.push(10u8);
    assert(out@ =~= exception_text(*frame));
    out
}

/// Flags of a user-mode entry: interrupts on, and the reserved bit.
pub const USER_RFLAGS: u64 = 0x202;

/// The user stack top the boot-time `exec` starts a program with: the
/// highest end of its stack frames, aligned down to 16 bytes, less 8 for
/// the call-site alignment the ABI expects.
pub fn exec_stack_top(frames: &[usize]) -> (top: usize)
    requires
        frames@.len() > 0,
        forall|i: int| 0 <= i < frames@.len() ==> #[trigger] frames@[i] + 4096 <= usize::MAX,
    ensures
        exists|i: int| 0 <= i < frames@.len() && top == ((frames@[i] + 4096) as usize & !0xFusize) - 8
            && forall|j: int| 0 <= j < frames@.len() ==> #[trigger] frames@[j] <= frames@[i],
{
    let mut best: usize = 0;
    let mut bi: usize = 0;
    let mut i: usize = 0;
    while i < frames.len()
        invariant
            i <= frames@.len(),
            frames@.len() > 0,
            forall|k: int| 0 <= k < frames@.len() ==> #[trigger] frames@[k] + 4096 <= usize::MAX,
            i > 0 ==> bi < i && best == frames@[bi as int] + 4096,
            forall|j: int| 0 <= j < i ==> #[trigger] frames@[j] <= frames@[bi as int],
            i == 0 ==> best == 0,
        decreases frames@.len() - i,
    {
        let top = frames[i] + 4096;
        if top > best {
            best = top;
            bi = i;
        }
        i = i + 1;
    }
    assert(best >= 4096);
    assert((best & !0xFusize) >= 16) by (bit_vector) requires best >= 4096;
    (best & !0xFusize) - 8
}

/// The frame `iretq` pops to enter user mode at `entry` with stack `rsp`:
/// instruction pointer, stack pointer, code selector, stack selector and flags.
pub fn user_entry_frame(entry: u64, rsp: u64) -> (f: (u64, u64, u64, u64, u64))
    ensures
        f == (entry, rsp, SEG_UCODE as u64, SEG_UDATA as u64, USER_RFLAGS),
{
    (entry, rsp, SEG_UCODE as u64, SEG_UDATA as u64, USER_RFLAGS)
}

} // verus!
