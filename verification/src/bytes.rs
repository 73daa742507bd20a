//! Little-endian integers in byte sequences.

use vstd::prelude::*;

verus! {

/// The 16-bit little-endian number at `i`.
pub open spec fn le16(s: Seq<u8>, i: int) -> int {
    s[i] + 256 * s[i + 1]
}

/// The 32-bit little-endian number at `i`.
pub open spec fn le32(s: Seq<u8>, i: int) -> int {
    s[i] + 256 * s[i + 1] + 65536 * s[i + 2] + 16777216 * s[i + 3]
}

/// A 16-bit number as two bytes, least significant first.
pub open spec fn le16_bytes(v: u16) -> Seq<u8> {
    seq![(v % 256) as u8, (v / 256) as u8]
}

/// A 32-bit number as four bytes, least significant first.
pub open spec fn le32_bytes(v: u32) -> Seq<u8> {
    seq![
        (v % 256) as u8,
        (v / 256 % 256) as u8,
        (v / 65536 % 256) as u8,
        (v / 16777216) as u8,
    ]
}

/// A number is read back from its two bytes.
pub proof fn lemma_le16_read_back(v: u16, s: Seq<u8>, i: int)
    requires
        0 <= i,
        i + 2 <= s.len(),
        s.subrange(i, i + 2) == le16_bytes(v),
    ensures
        le16(s, i) == v,
{
    assert(s.subrange(i, i + 2)[0] == s[i]);
    assert(s.subrange(i, i + 2)[1] == s[i + 1]);
}

/// A number is read back from its four bytes.
pub proof fn lemma_le32_read_back(v: u32, s: Seq<u8>, i: int)
    requires
        0 <= i,
        i + 4 <= s.len(),
        s.subrange(i, i + 4) == le32_bytes(v),
    ensures
        le32(s, i) == v,
{
    assert(s.subrange(i, i + 4)[0] == s[i]);
    assert(s.subrange(i, i + 4)[1] == s[i + 1]);
    assert(s.subrange(i, i + 4)[2] == s[i + 2]);
    assert(s.subrange(i, i + 4)[3] == s[i + 3]);
}

/// Joins two bytes, least significant first.
pub fn join16(b0: u8, b1: u8) -> (r: u16)
    ensures
        r == b0 + 256 * b1,
{
    b0 as u16 + 256 * (b1 as u16)
}

/// Joins four bytes, least significant first.
pub fn join32(b0: u8, b1: u8, b2: u8, b3: u8) -> (r: u32)
    ensures
        r == b0 + 256 * b1 + 65536 * b2 + 16777216 * b3,
{
    b0 as u32 + 256 * (b1 as u32) + 65536 * (b2 as u32) + 16777216 * (b3 as u32)
}

} // verus!
