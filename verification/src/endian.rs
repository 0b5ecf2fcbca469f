//! Big-endian integers, as they travel on the wire.
use byteorder::{BigEndian, ByteOrder};
use vstd::prelude::*;

verus! {

/// The four bytes of `n`, most significant first.
pub open spec fn bytes_of_u32(n: u32) -> Seq<u8> {
    seq![
        (n / 0x100_0000) as u8,
        (n / 0x1_0000 % 0x100) as u8,
        (n / 0x100 % 0x100) as u8,
        (n % 0x100) as u8,
    ]
}

/// The number that the first four bytes of `bytes` spell, most significant first.
pub open spec fn u32_of_bytes(bytes: Seq<u8>) -> int {
    bytes[0] * 0x100_0000 + bytes[1] * 0x1_0000 + bytes[2] * 0x100 + bytes[3]
}

/// The number that the first two bytes of `bytes` spell, most significant first.
pub open spec fn u16_of_bytes(bytes: Seq<u8>) -> int {
    bytes[0] * 0x100 + bytes[1]
}

/// `byteorder::BigEndian::read_u16`: the first two bytes of `buf` as a number,
/// most significant byte first; any bytes after them are ignored. It panics on
/// fewer than two bytes.
#[verifier::external_body]
pub(crate) fn read_u16(buf: &[u8]) -> (n: u16)
    requires
        buf@.len() >= 2,
    ensures
        n == u16_of_bytes(buf@),
{
    BigEndian::read_u16(buf)
}

/// `byteorder::BigEndian::read_u32`: the first four bytes of `buf` as a number,
/// most significant byte first; any bytes after them are ignored. It panics on
/// fewer than four bytes.
#[verifier::external_body]
pub(crate) fn read_u32(buf: &[u8]) -> (n: u32)
    requires
        buf@.len() >= 4,
    ensures
        n == u32_of_bytes(buf@),
{
    BigEndian::read_u32(buf)
}

/// `byteorder::BigEndian::write_u32` into a buffer of four bytes: the bytes of
/// `n`, most significant first.
#[verifier::external_body]
pub(crate) fn write_u32(n: u32) -> (bytes: [u8; 4])
    ensures
        bytes@ == bytes_of_u32(n),
{
    let mut bytes = [0u8; 4];
    BigEndian::write_u32(&mut bytes, n);
    bytes
}

/// Reading back the four bytes of a number gives that number, whatever bytes follow.
pub proof fn u32_round_trip(n: u32, rest: Seq<u8>)
    ensures
        bytes_of_u32(n).len() == 4,
        u32_of_bytes(bytes_of_u32(n)) == n,
        u32_of_bytes(bytes_of_u32(n) + rest) == n,
{
}

/// The four bytes of the number that four bytes spell are those bytes.
pub proof fn u32_bytes_round_trip(bytes: Seq<u8>)
    requires
        bytes.len() == 4,
    ensures
        0 <= u32_of_bytes(bytes) <= u32::MAX,
        bytes_of_u32(u32_of_bytes(bytes) as u32) == bytes,
{
}

} // verus!
