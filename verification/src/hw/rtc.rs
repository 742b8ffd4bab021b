//! The real-time clock's register encoding and the stable-read rule.
use vstd::prelude::*;

verus! {

/// A register value in binary-coded decimal, as a number.
pub open spec fn bcd_value(v: u8) -> int {
    (v % 16) + (v / 16) * 10
}

/// Decode a binary-coded decimal register value.
pub fn decode_bcd(val: u8) -> (r: u8)
    ensures
        r == bcd_value(val),
{
    assert(val & 0x0F == val % 16) by (bit_vector);
    (val & 0x0F) + ((val / 16) * 10)
}

/// Decode two successive reads of hours, minutes and seconds; the time is
/// taken only when both reads agree (the clock did not tick in between).
pub fn stable_time(first: (u8, u8, u8), second: (u8, u8, u8)) -> (r: Option<(u8, u8, u8)>)
    ensures
        r == (if bcd_value(first.0) == bcd_value(second.0) && bcd_value(first.1) == bcd_value(second.1)
            && bcd_value(first.2) == bcd_value(second.2) {
            Some((bcd_value(first.0) as u8, bcd_value(first.1) as u8, bcd_value(first.2) as u8))
        } else {
            None
        }),
{
    let h1 = decode_bcd(first.0);
    let m1 = decode_bcd(first.1);
    let s1 = decode_bcd(first.2);
    let h2 = decode_bcd(second.0);
    let m2 = decode_bcd(second.1);
    let s2 = decode_bcd(second.2);
    if h1 == h2 && m1 == m2 && s1 == s2 {
        Some((h1, m1, s1))
    } else {
        None
    }
}

/// Whether the status register says an update is in progress.
pub fn is_updating(status: u8) -> (r: bool)
    ensures
        r == (status & 0x80 != 0),
{
    status & 0x80 != 0
}

} // verus!
