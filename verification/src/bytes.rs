//! Little- and big-endian words as bytes.

use vstd::prelude::*;

verus! {

/// The bytes of a 16-bit word, least significant first.
pub open spec fn le16(x: u16) -> Seq<u8> {
    seq![(x % 256) as u8, (x / 256) as u8]
}

/// The bytes of a 32-bit word, least significant first.
pub open spec fn le32(x: u32) -> Seq<u8> {
    seq![
        (x % 256) as u8,
        (x / 256 % 256) as u8,
        (x / 65536 % 256) as u8,
        (x / 16777216) as u8,
    ]
}

/// The bytes of a 32-bit word, most significant first.
pub open spec fn be32(x: u32) -> Seq<u8> {
    seq![
        (x / 16777216) as u8,
        (x / 65536 % 256) as u8,
        (x / 256 % 256) as u8,
        (x % 256) as u8,
    ]
}

/// The word four bytes stand for, least significant first.
pub open spec fn from_le32(b: Seq<u8>) -> int {
    b[0] + 256 * b[1] + 65536 * b[2] + 16777216 * b[3]
}

/// A word is read back from its bytes.
pub proof fn law_le32_round_trip(x: u32)
    ensures
        from_le32(le32(x)) == x,
{
}

/// Four bytes are read back from their word.
pub proof fn law_from_le32_round_trip(b: Seq<u8>)
    requires
        b.len() == 4,
    ensures
        0 <= from_le32(b) <= u32::MAX,
        le32(from_le32(b) as u32) == b,
{
    assert(le32(from_le32(b) as u32) =~= b);
}

pub fn push_le16(out: &mut Vec<u8>, x: u16)
    ensures
        final(out)@ == old(out)@ + le16(x),
{
    out.push((x % 256) as u8);
    out.push((x / 256) as u8);
    assert(out@ =~= old(out)@ + le16(x));
}

pub fn push_le32(out: &mut Vec<u8>, x: u32)
    ensures
        final(out)@ == old(out)@ + le32(x),
{
    out.push((x % 256) as u8);
    out.push((x / 256 % 256) as u8);
    out.push((x / 65536 % 256) as u8);
    out.push((x / 16777216) as u8);
    assert(out@ =~= old(out)@ + le32(x));
}

pub fn push_be32(out: &mut Vec<u8>, x: u32)
    ensures
        final(out)@ == old(out)@ + be32(x),
{
    out.push((x / 16777216) as u8);
    out.push((x / 65536 % 256) as u8);
    out.push((x / 256 % 256) as u8);
    out.push((x % 256) as u8);
    assert(out@ =~= old(out)@ + be32(x));
}

/// The word at byte `i`.
pub fn read_le32(b: &[u8], i: usize) -> (x: u32)
    requires
        i + 4 <= b@.len(),
    ensures
        x == from_le32(b@.subrange(i as int, i + 4)),
{
    let b0: u32 = b[i] as u32;
    let b1: u32 = b[i + 1] as u32;
    let b2: u32 = b[i + 2] as u32;
    let b3: u32 = b[i + 3] as u32;
    b0 + 256 * b1 + 65536 * b2 + 16777216 * b3
}

/// Append `src` to `out`.
pub fn push_all(out: &mut Vec<u8>, src: &[u8])
    ensures
        final(out)@ == old(out)@ + src@,
{
    let mut i: usize = 0;
    while i < src.len()
        invariant
            i <= src@.len(),
            out@ == old(out)@ + src@.take(i as int),
        decreases src@.len() - i,
    {
        out.push(src[i]);
        i = i + 1;
    }
    assert(src@.take(i as int) == src@);
}

/// The bytes of a word, however it is laid out: byte `i` from the least significant end is worth
/// 256 to the `i`.
pub proof fn law_bytes_of_words(x: u32, y: u16)
    ensures
        le32(x).len() == 4 && be32(x).len() == 4 && le16(y).len() == 2,
        le32(x)[0] + 0x100 * le32(x)[1] + 0x1_0000 * le32(x)[2] + 0x100_0000 * le32(x)[3] == x,
        be32(x)[3] + 0x100 * be32(x)[2] + 0x1_0000 * be32(x)[1] + 0x100_0000 * be32(x)[0] == x,
        le16(y)[0] + 0x100 * le16(y)[1] == y,
{
}

/// The first of four bytes is worth the least.
pub proof fn law_words_of_bytes(b: Seq<u8>)
    ensures
        from_le32(b) == b[0] + 0x100 * b[1] + 0x1_0000 * b[2] + 0x100_0000 * b[3],
{
}

} // verus!
