//! The programmable interval timer's tick count: the kernel's clock.
use vstd::prelude::*;

verus! {

/// Interrupts per second.
pub const TICK_HZ: u64 = 100;
/// Input clock of the timer, in Hz.
pub const PIT_INPUT_HZ: u32 = 1_193_182;

/// The tick counter, incremented on every timer interrupt.
pub struct Pit {
    pub ticks: u64,
}

impl Pit {
    /// No ticks yet.
    pub fn new() -> (p: Self)
        ensures
            p.ticks == 0,
    {
        Pit { ticks: 0 }
    }

    /// Count one timer interrupt (the counter wraps).
    pub fn tick(&mut self)
        ensures
            final(self).ticks == old(self).ticks.wrapping_add(1),
    {
        self.ticks = self.ticks.wrapping_add(1);
    }

    /// The tick count.
    pub fn ticks(&self) -> (r: u64)
        ensures
            r == self.ticks,
    {
        self.ticks
    }

    /// Whole seconds since boot.
    pub fn uptime_seconds(&self) -> (r: u64)
        ensures
            r == self.ticks / 100,
    {
        self.ticks / TICK_HZ
    }

    /// Whether `wait_ticks` ticks have passed since tick `start`.
    pub fn waited(&self, start: u64, wait_ticks: u64) -> (r: bool)
        requires
            start <= self.ticks,
        ensures
            r == (self.ticks - start >= wait_ticks),
    {
        self.ticks - start >= wait_ticks
    }
}

/// The divisor that makes the timer fire `TICK_HZ` times a second, as the
/// low and high bytes written to its data port.
pub fn divisor_bytes() -> (r: (u8, u8))
    ensures
        r.0 as int + 256 * (r.1 as int) == (PIT_INPUT_HZ as int) / (TICK_HZ as int),
{
    let divisor = (PIT_INPUT_HZ / 100) as u16;
    assert(divisor == 11931);
    let lo = (divisor & 0xFF) as u8;
    let hi = (divisor >> 8u16) as u8;
    assert(lo == 155 && hi == 46) by (bit_vector) requires divisor == 11931u16, lo == (divisor & 0xFF) as u8, hi == (divisor >> 8u16) as u8;
    (lo, hi)
}

} // verus!
