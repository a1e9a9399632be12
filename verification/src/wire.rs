//! Big-endian 32-bit integers, the only multi-byte integers on the wire.

use byteorder::{BigEndian, ByteOrder};
use vstd::prelude::*;

verus! {

/// The number that the first four bytes of `b` spell in big-endian order.
pub open spec fn be_u32(b: Seq<u8>) -> u32
    recommends
        b.len() >= 4,
{
    (b[0] as int * 0x100_0000 + b[1] as int * 0x1_0000 + b[2] as int * 0x100 + b[3] as int) as u32
}

/// The four bytes that spell `n` in big-endian order.
pub open spec fn be_bytes(n: u32) -> Seq<u8> {
    seq![
        (n as int / 0x100_0000) as u8,
        (n as int / 0x1_0000 % 0x100) as u8,
        (n as int / 0x100 % 0x100) as u8,
        (n as int % 0x100) as u8,
    ]
}

/// `byteorder::BigEndian::read_u32`: the big-endian value of the first four
/// bytes of `buf`. The outside function panics on a shorter slice, which the
/// precondition rules out.
#[verifier::external_body]
pub(crate) fn read_be_u32(buf: &[u8]) -> (n: u32)
    requires
        buf@.len() >= 4,
    ensures
        n == be_u32(buf@),
{
    BigEndian::read_u32(buf)
}

/// `byteorder::BigEndian::write_u32` on a fresh four-byte buffer: the four
/// bytes that spell `n` in big-endian order.
#[verifier::external_body]
pub(crate) fn write_be_u32(n: u32) -> (out: Vec<u8>)
    ensures
        out@ == be_bytes(n),
{
    let mut out = vec![0u8; 4];
    BigEndian::write_u32(&mut out, n);
    out
}

/// Reading back the four bytes written for `n` gives `n`, whatever follows them.
pub proof fn lemma_be_u32_of_be_bytes(n: u32, rest: Seq<u8>)
    ensures
        be_bytes(n).len() == 4,
        be_u32(be_bytes(n) + rest) == n,
{
    let b = be_bytes(n) + rest;
    assert(b[0] == be_bytes(n)[0]);
    assert(b[1] == be_bytes(n)[1]);
    assert(b[2] == be_bytes(n)[2]);
    assert(b[3] == be_bytes(n)[3]);
}

/// Writing the number read from four bytes gives those four bytes back.
pub proof fn lemma_be_bytes_of_be_u32(b: Seq<u8>)
    requires
        b.len() >= 4,
    ensures
        be_bytes(be_u32(b)) == b.subrange(0, 4),
{
    let n = be_u32(b) as int;
    assert(n == b[0] as int * 0x100_0000 + b[1] as int * 0x1_0000 + b[2] as int * 0x100 + b[3] as int);
    assert(n / 0x100 == b[0] as int * 0x1_0000 + b[1] as int * 0x100 + b[2] as int);
    assert(n / 0x1_0000 == b[0] as int * 0x100 + b[1] as int);
    assert(n / 0x100_0000 == b[0] as int);
    assert(be_bytes(be_u32(b)) =~= b.subrange(0, 4));
}

} // verus!
