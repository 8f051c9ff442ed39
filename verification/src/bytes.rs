//! Little-endian numbers in byte sequences.

use vstd::prelude::*;

verus! {

/// A value read from a position on, with the position behind it; or why there is none.
pub enum Scan<T> {
    Got(T, int),
    Bad(Seq<char>),
}

/// Two bytes, least significant first.
pub open spec fn u16_le(s: Seq<u8>, at: int) -> u16 {
    (s[at] + s[at + 1] * 0x100) as u16
}

/// Four bytes, least significant first.
pub open spec fn u32_le(s: Seq<u8>, at: int) -> u32 {
    (s[at] + s[at + 1] * 0x100 + s[at + 2] * 0x1_0000 + s[at + 3] * 0x100_0000) as u32
}

/// Eight bytes, least significant first.
pub open spec fn u64_le(s: Seq<u8>, at: int) -> u64 {
    (u32_le(s, at) + u32_le(s, at + 4) * 0x1_0000_0000) as u64
}

/// The `u16` at `at`.
pub fn get_u16(data: &[u8], at: usize) -> (r: u16)
    requires
        at + 2 <= data@.len(),
    ensures
        r == u16_le(data@, at as int),
{
    data[at] as u16 + data[at + 1] as u16 * 0x100
}

/// The `u32` at `at`.
pub fn get_u32(data: &[u8], at: usize) -> (r: u32)
    requires
        at + 4 <= data@.len(),
    ensures
        r == u32_le(data@, at as int),
{
    data[at] as u32 + data[at + 1] as u32 * 0x100 + data[at + 2] as u32 * 0x1_0000
        + data[at + 3] as u32 * 0x100_0000
}

/// The `u64` at `at`.
pub fn get_u64(data: &[u8], at: usize) -> (r: u64)
    requires
        at + 8 <= data@.len(),
    ensures
        r == u64_le(data@, at as int),
{
    assert(data.len() == data@.len());
    get_u32(data, at) as u64 + get_u32(data, at + 4) as u64 * 0x1_0000_0000
}

/// The 32-bit words of `s`, four bytes each; a shorter rest is left out.
pub open spec fn words_le(s: Seq<u8>) -> Seq<u32> {
    Seq::new((s.len() / 4) as nat, |i: int| u32_le(s, 4 * i))
}

/// The 32-bit words of `data`.
pub fn read_words(data: &[u8]) -> (r: Vec<u32>)
    ensures
        r@ == words_le(data@),
{
    let n: usize = data.len() / 4;
    let mut out: Vec<u32> = Vec::new();
    let mut i: usize = 0;
    while i < n
        invariant
            i <= n,
            n == data@.len() / 4,
            data@.len() <= usize::MAX,
            out@.len() == i,
            forall|j: int| 0 <= j < i ==> #[trigger] out@[j] == u32_le(data@, 4 * j),
        decreases n - i,
    {
        out.push(get_u32(data, 4 * i));
        i = i + 1;
    }
    assert(out@ =~= words_le(data@));
    out
}

/// The first byte of a number is its lowest: each byte is worth 256 times the one
/// before it.
pub proof fn law_low_bytes_come_first(s: Seq<u8>, at: int)
    ensures
        u16_le(s, at) % 256 == s[at],
        u16_le(s, at) / 256 == s[at + 1],
        u32_le(s, at) % 0x1_0000 == u16_le(s, at),
        u32_le(s, at) / 0x1_0000 == u16_le(s, at + 2),
        u64_le(s, at) % 0x1_0000_0000 == u32_le(s, at),
        u64_le(s, at) / 0x1_0000_0000 == u32_le(s, at + 4),
{
}

/// A run of bytes has a word for every four, each with its own four bytes.
pub proof fn law_words_are_apart(s: Seq<u8>, i: int)
    requires
        0 <= i,
        4 * i + 4 <= s.len(),
    ensures
        words_le(s).len() == s.len() / 4,
        words_le(s)[i] % 0x1_0000 == u16_le(s, 4 * i),
        words_le(s)[i] / 0x1_0000 == u16_le(s, 4 * i + 2),
{
    law_low_bytes_come_first(s, 4 * i);
}

} // verus!
