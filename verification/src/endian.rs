//! Integers in big-endian byte order, as the staging index holds them.

use vstd::prelude::*;
use byteorder::{BigEndian, ByteOrder};

verus! {

/// The four bytes of a number, the most significant first.
pub open spec fn be32_bytes(n: u32) -> Seq<u8> {
    seq![
        (n / 0x1000000) as u8,
        (n / 0x10000 % 0x100) as u8,
        (n / 0x100 % 0x100) as u8,
        (n % 0x100) as u8,
    ]
}

/// The number that the first four bytes of `b` spell, the most significant
/// first.
pub open spec fn be32(b: Seq<u8>) -> u32 {
    (b[0] as int * 0x1000000 + b[1] as int * 0x10000 + b[2] as int * 0x100 + b[3] as int) as u32
}

/// The two bytes of a number, the more significant first.
pub open spec fn be16_bytes(n: u16) -> Seq<u8> {
    seq![(n / 0x100) as u8, (n % 0x100) as u8]
}

/// The number that the first two bytes of `b` spell, the more significant
/// first.
pub open spec fn be16(b: Seq<u8>) -> u16 {
    (b[0] as int * 0x100 + b[1] as int) as u16
}

/// Writing a number and reading it gives the number.
pub proof fn lemma_be32_roundtrip(n: u32)
    ensures
        be32_bytes(n).len() == 4,
        be32(be32_bytes(n)) == n,
{
}

/// Writing a number and reading it gives the number.
pub proof fn lemma_be16_roundtrip(n: u16)
    ensures
        be16_bytes(n).len() == 2,
        be16(be16_bytes(n)) == n,
{
}

/// Calls `BigEndian::read_u32` of the crate `byteorder`, which reads the first
/// four bytes as a number, the most significant first, and panics on fewer.
#[verifier::external_body]
pub(crate) fn read_be32(buf: &[u8]) -> (n: u32)
    requires
        buf@.len() >= 4,
    ensures
        n == be32(buf@),
{
    BigEndian::read_u32(buf)
}

/// Calls `BigEndian::read_u16` of the crate `byteorder`, which reads the first
/// two bytes as a number, the more significant first, and panics on fewer.
#[verifier::external_body]
pub(crate) fn read_be16(buf: &[u8]) -> (n: u16)
    requires
        buf@.len() >= 2,
    ensures
        n == be16(buf@),
{
    BigEndian::read_u16(buf)
}

/// Calls `BigEndian::write_u32` of the crate `byteorder` on a buffer of four
/// bytes, which it fills with the number, the most significant byte first.
#[verifier::external_body]
pub(crate) fn write_be32(n: u32) -> (buf: [u8; 4])
    ensures
        buf@ == be32_bytes(n),
{
    let mut buf = [0u8; 4];
    BigEndian::write_u32(&mut buf, n);
    buf
}

/// Calls `BigEndian::write_u16` of the crate `byteorder` on a buffer of two
/// bytes, which it fills with the number, the more significant byte first.
#[verifier::external_body]
pub(crate) fn write_be16(n: u16) -> (buf: [u8; 2])
    ensures
        buf@ == be16_bytes(n),
{
    let mut buf = [0u8; 2];
    BigEndian::write_u16(&mut buf, n);
    buf
}

} // verus!
