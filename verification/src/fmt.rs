//! Number formatting for the serial logs: fixed-width lower-case hex and
//! plain decimal, as bytes.
use vstd::prelude::*;

verus! {

/// The ASCII digit for a nibble, lower case.
pub open spec fn hex_char(n: int) -> u8 {
    if n < 10 { (48 + n) as u8 } else { (97 + n - 10) as u8 }
}

/// The low `n` nibbles of `v` as hex digits, most significant first.
pub open spec fn hex_digits(v: u64, n: nat) -> Seq<u8>
    decreases n,
{
    if n == 0 {
        Seq::empty()
    } else {
        hex_digits(v >> 4u64, (n - 1) as nat).push(hex_char((v & 0xF) as int))
    }
}

/// The decimal digits of `v`, without leading zeros ("0" for zero).
pub open spec fn dec_digits(v: nat) -> Seq<u8>
    decreases v,
{
    if v < 10 {
        seq![(48 + v) as u8]
    } else {
        dec_digits(v / 10).push((48 + v % 10) as u8)
    }
}

/// The ASCII digit for nibble `n`.
pub fn hex_digit(n: u8) -> (c: u8)
    requires
        n < 16,
    ensures
        c == hex_char(n as int),
{
    if n < 10 { 48u8 + n } else { 97u8 + (n - 10) }
}

/// Append the low `digits` nibbles of `value` in hex, most significant first.
pub fn push_hex(out: &mut Vec<u8>, value: u64, digits: usize)
    requires
        digits <= 16,
    ensures
        final(out)@ == old(out)@ + hex_digits(value, digits as nat),
    decreases digits,
{
    if digits == 0 {
        assert(old(out)@ + hex_digits(value, 0) =~= old(out)@);
        return;
    }
    push_hex(out, value >> 4u64, digits - 1);
    let nib = (value & 0xF) as u8;
    assert((value & 0xF) < 16) by (bit_vector);
    out.push(hex_digit(nib));
    assert(final(out)@ =~= old(out)@ + hex_digits(value, digits as nat));
}

/// The hex digits of `v`, without leading zeros ("0" for zero).
pub open spec fn hex_min(v: nat) -> Seq<u8>
    decreases v,
{
    if v < 16 {
        seq![hex_char(v as int)]
    } else {
        hex_min(v / 16).push(hex_char((v % 16) as int))
    }
}

/// Append `value` in hex without leading zeros.
pub fn push_hex_min(out: &mut Vec<u8>, value: u64)
    ensures
        final(out)@ == old(out)@ + hex_min(value as nat),
    decreases value,
{
    if value < 16 {
        out.push(hex_digit(value as u8));
        assert(final(out)@ =~= old(out)@ + hex_min(value as nat));
        return;
    }
    push_hex_min(out, value / 16);
    out.push(hex_digit((value % 16) as u8));
    assert(final(out)@ =~= old(out)@ + hex_min(value as nat));
}

/// Append `value` in decimal.
pub fn push_dec(out: &mut Vec<u8>, value: u64)
    ensures
        final(out)@ == old(out)@ + dec_digits(value as nat),
    decreases value,
{
    if value < 10 {
        out.push(48u8 + value as u8);
        assert(final(out)@ =~= old(out)@ + dec_digits(value as nat));
        return;
    }
    push_dec(out, value / 10);
    out.push(48u8 + (value % 10) as u8);
    assert(final(out)@ =~= old(out)@ + dec_digits(value as nat));
}

/// Append the bytes of `s`.
pub fn push_bytes(out: &mut Vec<u8>, s: &[u8])
    ensures
        final(out)@ == old(out)@ + s@,
{
    let mut i: usize = 0;
    while i < s.len()
        invariant
            i <= s@.len(),
            out@ == old(out)@ + s@.subrange(0, i as int),
        decreases s@.len() - i,
    {
        out.push(s[i]);
        i = i + 1;
        assert(out@ =~= old(out)@ + s@.subrange(0, i as int));
    }
    assert(s@.subrange(0, s@.len() as int) =~= s@);
}

/// The bytes the loader sends down the serial line for a message: the
/// message itself, byte for byte.
pub fn log(s: &[u8]) -> (sent: Vec<u8>)
    ensures
        sent@ == s@,
{
    let mut out: Vec<u8> = Vec::new();
    push_bytes(&mut out, s);
    assert(out@ =~= s@);
    out
}

/// The line the loader logs for a labelled value in hex: the prefix, `0x`,
/// sixteen hex digits and a newline.
pub fn log_hex(prefix: &[u8], value: u64) -> (line: Vec<u8>)
    ensures
        line@ == prefix@ + seq![48u8, 120u8] + hex_digits(value, 16) + seq![10u8],
{
    let mut out: Vec<u8> = Vec::new();
    push_bytes(&mut out, prefix);
    out.push(48u8);
    out.push(120u8);
    push_hex(&mut out, value, 16);
    out.push(10u8);
    assert(out@ =~= prefix@ + seq![48u8, 120u8] + hex_digits(value, 16) + seq![10u8]);
    out
}

/// The line the loader logs for a labelled value in decimal: the prefix,
/// the digits and a newline.
pub fn log_dec(prefix: &[u8], value: u64) -> (line: Vec<u8>)
    ensures
        line@ == prefix@ + dec_digits(value as nat) + seq![10u8],
{
    let mut out: Vec<u8> = Vec::new();
    push_bytes(&mut out, prefix);
    push_dec(&mut out, value);
    out.push(10u8);
    assert(out@ =~= prefix@ + dec_digits(value as nat) + seq![10u8]);
    out
}

} // verus!
