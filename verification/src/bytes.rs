//! Little-endian integers and byte-sequence helpers.

use vstd::prelude::*;

verus! {

/// The two bytes of `value`, low byte first.
pub open spec fn u16_le(value: u16) -> Seq<u8> {
    seq![(value % 256) as u8, (value / 256) as u8]
}

/// The four bytes of `value`, lowest byte first.
pub open spec fn u32_le(value: u32) -> Seq<u8> {
    seq![
        (value % 256) as u8,
        (value / 256 % 256) as u8,
        (value / 65536 % 256) as u8,
        (value / 16777216) as u8,
    ]
}

/// The integer that two bytes stand for, low byte first.
pub open spec fn u16_from_le(b0: u8, b1: u8) -> u16 {
    (b0 + 256 * b1) as u16
}

/// The integer that four bytes stand for, lowest byte first.
pub open spec fn u32_from_le(b0: u8, b1: u8, b2: u8, b3: u8) -> u32 {
    (b0 + 256 * b1 + 65536 * b2 + 16777216 * b3) as u32
}

/// Reading back what `u16_le` wrote gives the integer again.
pub proof fn lemma_u16_le_round_trip(value: u16)
    ensures
        u16_le(value).len() == 2,
        u16_from_le(u16_le(value)[0], u16_le(value)[1]) == value,
{
}

/// Reading back what `u32_le` wrote gives the integer again.
pub proof fn lemma_u32_le_round_trip(value: u32)
    ensures
        u32_le(value).len() == 4,
        u32_from_le(u32_le(value)[0], u32_le(value)[1], u32_le(value)[2], u32_le(value)[3])
            == value,
{
}

/// Writing what `u16_from_le` read gives the two bytes again.
pub proof fn lemma_u16_from_le_round_trip(b0: u8, b1: u8)
    ensures
        u16_le(u16_from_le(b0, b1)) == seq![b0, b1],
{
    assert(u16_le(u16_from_le(b0, b1)) =~= seq![b0, b1]);
}

/// Writing what `u32_from_le` read gives the four bytes again.
pub proof fn lemma_u32_from_le_round_trip(b0: u8, b1: u8, b2: u8, b3: u8)
    ensures
        u32_le(u32_from_le(b0, b1, b2, b3)) == seq![b0, b1, b2, b3],
{
    let value: int = b0 + 256 * b1 + 65536 * b2 + 16777216 * b3;
    let q1: int = b1 + 256 * b2 + 65536 * b3;
    let q2: int = b2 + 256 * b3;
    assert(value == 256 * q1 + b0);
    assert(value / 256 == q1 && value % 256 == b0);
    assert(q1 == 256 * q2 + b1);
    assert(q1 % 256 == b1);
    assert(value == 65536 * q2 + (b0 + 256 * b1));
    assert(value / 65536 == q2);
    assert(q2 % 256 == b2);
    assert(value == 16777216 * b3 + (b0 + 256 * b1 + 65536 * b2));
    assert(value / 16777216 == b3);
    assert(u32_le(u32_from_le(b0, b1, b2, b3)) =~= seq![b0, b1, b2, b3]);
}

/// Appends the two little-endian bytes of `value`.
pub fn push_u16_le(out: &mut Vec<u8>, value: u16)
    ensures
        final(out)@ == old(out)@ + u16_le(value),
{
    out.push((value % 256) as u8);
    out.push((value / 256) as u8);
    assert(out@ =~= old(out)@ + u16_le(value));
}

/// Appends the four little-endian bytes of `value`.
pub fn push_u32_le(out: &mut Vec<u8>, value: u32)
    ensures
        final(out)@ == old(out)@ + u32_le(value),
{
    out.push((value % 256) as u8);
    out.push((value / 256 % 256) as u8);
    out.push((value / 65536 % 256) as u8);
    out.push((value / 16777216) as u8);
    assert(out@ =~= old(out)@ + u32_le(value));
}

/// Reads a little-endian `u16` from two bytes.
pub fn read_u16_le(b0: u8, b1: u8) -> (value: u16)
    ensures
        value == u16_from_le(b0, b1),
{
    let low: u16 = b0 as u16;
    let high: u16 = b1 as u16;
    low + 256 * high
}

/// Reads a little-endian `u32` from four bytes.
pub fn read_u32_le(b0: u8, b1: u8, b2: u8, b3: u8) -> (value: u32)
    ensures
        value == u32_from_le(b0, b1, b2, b3),
{
    let w0: u32 = b0 as u32;
    let w1: u32 = b1 as u32;
    let w2: u32 = b2 as u32;
    let w3: u32 = b3 as u32;
    w0 + 256 * w1 + 65536 * w2 + 16777216 * w3
}

/// Appends a copy of `src`.
pub fn append_bytes(out: &mut Vec<u8>, src: &[u8])
    ensures
        final(out)@ == old(out)@ + src@,
{
    let mut i: usize = 0;
    while i < src.len()
        invariant
            i <= src.len(),
            out@ == old(out)@ + src@.subrange(0, i as int),
        decreases src.len() - i,
    {
        out.push(src[i]);
        i += 1;
        assert(out@ =~= old(out)@ + src@.subrange(0, i as int));
    }
    assert(src@.subrange(0, src@.len() as int) =~= src@);
}

/// Copies four bytes of `src`, starting at `start`, into an array.
pub fn array4_at(src: &[u8], start: usize) -> (out: [u8; 4])
    requires
        start + 4 <= src@.len(),
    ensures
        out@ == src@.subrange(start as int, start + 4),
{
    let out: [u8; 4] = [src[start], src[start + 1], src[start + 2], src[start + 3]];
    assert(out@ =~= src@.subrange(start as int, start + 4));
    out
}

} // verus!
