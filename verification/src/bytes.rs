//! Big-endian byte-order conversions used by the wire format: the frame
//! length prefix (four bytes), the string length prefix (two bytes), and
//! the signed interpretation of an exit-code payload.

use vstd::prelude::*;

verus! {

/// The value of a two-byte big-endian sequence.
pub open spec fn be16(s: Seq<u8>) -> int
    recommends
        s.len() == 2,
{
    s[0] * 0x100 + s[1]
}

/// The value of a four-byte big-endian sequence.
pub open spec fn be32(s: Seq<u8>) -> int
    recommends
        s.len() == 4,
{
    s[0] * 0x100_0000 + s[1] * 0x1_0000 + s[2] * 0x100 + s[3]
}

/// The two-byte big-endian encoding of a 16-bit value.
pub open spec fn be16_bytes(n: u16) -> Seq<u8> {
    seq![(n / 0x100) as u8, (n % 0x100) as u8]
}

/// The four-byte big-endian encoding of a 32-bit value.
pub open spec fn be32_bytes(n: u32) -> Seq<u8> {
    seq![
        (n / 0x100_0000) as u8,
        ((n / 0x1_0000) % 0x100) as u8,
        ((n / 0x100) % 0x100) as u8,
        (n % 0x100) as u8,
    ]
}

/// The signed (two's complement) reading of a four-byte big-endian sequence.
pub open spec fn be32_signed(s: Seq<u8>) -> int
    recommends
        s.len() == 4,
{
    if be32(s) < 0x8000_0000 {
        be32(s)
    } else {
        be32(s) - 0x1_0000_0000
    }
}

pub proof fn lemma_be32_round(n: u32)
    ensures
        be32_bytes(n).len() == 4,
        be32(be32_bytes(n)) == n,
{
}

/// Append the two-byte big-endian encoding of `n` to `buf`.
pub fn push_be16(buf: &mut Vec<u8>, n: u16)
    ensures
        final(buf)@ == old(buf)@ + be16_bytes(n),
{
    buf.push((n / 0x100) as u8);
    buf.push((n % 0x100) as u8);
    assert(buf@ =~= old(buf)@ + be16_bytes(n));
}

/// Append the four-byte big-endian encoding of `n` to `buf`.
pub fn push_be32(buf: &mut Vec<u8>, n: u32)
    ensures
        final(buf)@ == old(buf)@ + be32_bytes(n),
{
    buf.push((n / 0x100_0000) as u8);
    buf.push(((n / 0x1_0000) % 0x100) as u8);
    buf.push(((n / 0x100) % 0x100) as u8);
    buf.push((n % 0x100) as u8);
    assert(buf@ =~= old(buf)@ + be32_bytes(n));
}

/// Read the four bytes starting at `i` as an unsigned big-endian value.
pub fn read_be32(s: &[u8], i: usize) -> (n: u32)
    requires
        i + 4 <= s@.len(),
    ensures
        n == be32(s@.subrange(i as int, i + 4)),
{
    let b0 = s[i] as u32;
    let b1 = s[i + 1] as u32;
    let b2 = s[i + 2] as u32;
    let b3 = s[i + 3] as u32;
    b0 * 0x100_0000 + b1 * 0x1_0000 + b2 * 0x100 + b3
}

/// Read the four bytes starting at `i` as a signed big-endian value.
pub fn read_be32_signed(s: &[u8], i: usize) -> (n: i32)
    requires
        i + 4 <= s@.len(),
    ensures
        n == be32_signed(s@.subrange(i as int, i + 4)),
{
    let u = read_be32(s, i);
    if u < 0x8000_0000 {
        u as i32
    } else {
        ((u as i64) - 0x1_0000_0000) as i32
    }
}

} // verus!
