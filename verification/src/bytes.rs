//! Big-endian integers in byte sequences.

use vstd::prelude::*;

verus! {

/// The two bytes of `x`, the more significant one first.
pub open spec fn be16(x: u16) -> Seq<u8> {
    seq![(x / 256) as u8, (x % 256) as u8]
}

/// The three bytes of `x`, which is below 2^24, the most significant one first.
pub open spec fn be24(x: nat) -> Seq<u8> {
    seq![(x / 0x1_0000) as u8, (x / 0x100 % 0x100) as u8, (x % 0x100) as u8]
}

/// The four bytes of `x`, the most significant one first.
pub open spec fn be32(x: u32) -> Seq<u8> {
    seq![
        (x / 0x100_0000) as u8,
        (x / 0x1_0000 % 0x100) as u8,
        (x / 0x100 % 0x100) as u8,
        (x % 0x100) as u8,
    ]
}

/// The number that the two bytes at `at` spell.
pub open spec fn read16(s: Seq<u8>, at: int) -> u16 {
    (s[at] * 256 + s[at + 1]) as u16
}

/// The number that the three bytes at `at` spell.
pub open spec fn read24(s: Seq<u8>, at: int) -> int {
    s[at] * 0x1_0000 + s[at + 1] * 0x100 + s[at + 2]
}

/// The number that the four bytes at `at` spell.
pub open spec fn read32(s: Seq<u8>, at: int) -> int {
    s[at] * 0x100_0000 + s[at + 1] * 0x1_0000 + s[at + 2] * 0x100 + s[at + 3]
}

/// Writing a 16-bit number and reading it back gives the number.
pub proof fn be16_round_trip(x: u16)
    ensures
        be16(x).len() == 2,
        read16(be16(x), 0) == x,
{
}

/// Writing a 24-bit number and reading it back gives the number.
pub proof fn be24_round_trip(x: nat)
    requires
        x < 0x100_0000,
    ensures
        be24(x).len() == 3,
        read24(be24(x), 0) == x,
{
}

/// Writing a 32-bit number and reading it back gives the number.
pub proof fn be32_round_trip(x: u32)
    ensures
        be32(x).len() == 4,
        read32(be32(x), 0) == x,
{
}

/// Appends the two bytes of `x`.
pub(crate) fn push_be16(out: &mut Vec<u8>, x: u16)
    ensures
        final(out)@ == old(out)@ + be16(x),
{
    out.push((x / 256) as u8);
    out.push((x % 256) as u8);
    assert(out@ =~= old(out)@ + be16(x));
}

/// Reads the number that the two bytes at `at` spell.
pub(crate) fn read_be16(data: &[u8], at: usize) -> (x: u16)
    requires
        at + 1 < data@.len(),
    ensures
        x == read16(data@, at as int),
{
    (data[at] as u16) * 256 + data[at + 1] as u16
}

/// The four bytes of `x`.
pub(crate) fn be32_bytes(x: u32) -> (bytes: [u8; 4])
    ensures
        bytes@ == be32(x),
{
    let bytes = [
        (x / 0x100_0000) as u8,
        (x / 0x1_0000 % 0x100) as u8,
        (x / 0x100 % 0x100) as u8,
        (x % 0x100) as u8,
    ];
    assert(bytes@ =~= be32(x));
    bytes
}

/// The more significant byte goes first, in writing and in reading.
pub proof fn the_more_significant_byte_goes_first(x: u16, y: nat, z: u32, s: Seq<u8>, at: int)
    requires
        y < 0x100_0000,
    ensures
        be16(x).len() == 2,
        256 * be16(x)[0] + be16(x)[1] == x,
        be24(y).len() == 3,
        0x1_0000 * be24(y)[0] + 256 * be24(y)[1] + be24(y)[2] == y,
        be32(z).len() == 4,
        0x100_0000 * be32(z)[0] + 0x1_0000 * be32(z)[1] + 256 * be32(z)[2] + be32(z)[3] == z,
        read16(s, at) == 256 * s[at] + s[at + 1],
        read24(s, at) == 0x1_0000 * s[at] + 256 * s[at + 1] + s[at + 2],
        read32(s, at) == 0x100_0000 * s[at] + 0x1_0000 * s[at + 1] + 256 * s[at + 2] + s[at + 3],
{
}

} // verus!
