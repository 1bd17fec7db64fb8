//! Fixed-width big-endian integers, written and read with `byteorder`.

use byteorder::{BigEndian, ByteOrder, WriteBytesExt};
use vstd::prelude::*;

verus! {

/// The two bytes of `n`, most significant first.
pub open spec fn be16(n: u16) -> Seq<u8> {
    seq![(n >> 8) as u8, (n & 0xff) as u8]
}

/// The four bytes of `n`, most significant first.
pub open spec fn be32(n: u32) -> Seq<u8> {
    seq![(n >> 24) as u8, ((n >> 16) & 0xff) as u8, ((n >> 8) & 0xff) as u8, (n & 0xff) as u8]
}

/// The eight bytes of `n`, most significant first.
pub open spec fn be64(n: u64) -> Seq<u8> {
    seq![
        (n >> 56) as u8,
        ((n >> 48) & 0xff) as u8,
        ((n >> 40) & 0xff) as u8,
        ((n >> 32) & 0xff) as u8,
        ((n >> 24) & 0xff) as u8,
        ((n >> 16) & 0xff) as u8,
        ((n >> 8) & 0xff) as u8,
        (n & 0xff) as u8,
    ]
}

/// The number whose big-endian form is the first two bytes of `b`.
pub open spec fn from_be16(b: Seq<u8>) -> u16 {
    ((b[0] as u16) << 8) | (b[1] as u16)
}

/// The number whose big-endian form is the first four bytes of `b`.
pub open spec fn from_be32(b: Seq<u8>) -> u32 {
    ((b[0] as u32) << 24) | ((b[1] as u32) << 16) | ((b[2] as u32) << 8) | (b[3] as u32)
}

/// The number whose big-endian form is the first eight bytes of `b`.
pub open spec fn from_be64(b: Seq<u8>) -> u64 {
    ((b[0] as u64) << 56) | ((b[1] as u64) << 48) | ((b[2] as u64) << 40) | ((b[3] as u64) << 32)
        | ((b[4] as u64) << 24) | ((b[5] as u64) << 16) | ((b[6] as u64) << 8) | (b[7] as u64)
}

/// Reading back what was written gives the number written, whatever follows it.
pub proof fn lemma_be16_round_trip(n: u16, rest: Seq<u8>)
    ensures
        be16(n).len() == 2,
        from_be16(be16(n) + rest) == n,
{
    let b = be16(n) + rest;
    assert(b[0] == (n >> 8) as u8);
    assert(b[1] == (n & 0xff) as u8);
    assert(((((n >> 8) as u8) as u16) << 8) | (((n & 0xff) as u8) as u16) == n) by (bit_vector);
}

/// Reading back what was written gives the number written, whatever follows it.
pub proof fn lemma_be32_round_trip(n: u32, rest: Seq<u8>)
    ensures
        be32(n).len() == 4,
        from_be32(be32(n) + rest) == n,
{
    let b = be32(n) + rest;
    assert(b[0] == (n >> 24) as u8);
    assert(b[1] == ((n >> 16) & 0xff) as u8);
    assert(b[2] == ((n >> 8) & 0xff) as u8);
    assert(b[3] == (n & 0xff) as u8);
    assert(((((n >> 24) as u8) as u32) << 24) | (((((n >> 16) & 0xff) as u8) as u32) << 16) | (((((n
        >> 8) & 0xff) as u8) as u32) << 8) | (((n & 0xff) as u8) as u32) == n) by (bit_vector);
}

/// Reading back what was written gives the number written, whatever follows it.
pub proof fn lemma_be64_round_trip(n: u64, rest: Seq<u8>)
    ensures
        be64(n).len() == 8,
        from_be64(be64(n) + rest) == n,
{
    let b = be64(n) + rest;
    assert(b[0] == (n >> 56) as u8);
    assert(b[1] == ((n >> 48) & 0xff) as u8);
    assert(b[2] == ((n >> 40) & 0xff) as u8);
    assert(b[3] == ((n >> 32) & 0xff) as u8);
    assert(b[4] == ((n >> 24) & 0xff) as u8);
    assert(b[5] == ((n >> 16) & 0xff) as u8);
    assert(b[6] == ((n >> 8) & 0xff) as u8);
    assert(b[7] == (n & 0xff) as u8);
    assert(((((n >> 56) as u8) as u64) << 56) | (((((n >> 48) & 0xff) as u8) as u64) << 48) | (((((n
        >> 40) & 0xff) as u8) as u64) << 40) | (((((n >> 32) & 0xff) as u8) as u64) << 32) | (((((n
        >> 24) & 0xff) as u8) as u64) << 24) | (((((n >> 16) & 0xff) as u8) as u64) << 16) | (((((n
        >> 8) & 0xff) as u8) as u64) << 8) | (((n & 0xff) as u8) as u64) == n) by (bit_vector);
}

/// `WriteBytesExt::write_u16::<BigEndian>` on a `Vec<u8>`: appends the two
/// bytes of `n`, most significant first. A `Vec` as a writer never fails.
#[verifier::external_body]
pub(crate) fn put_u16(out: &mut Vec<u8>, n: u16)
    ensures
        final(out)@ == old(out)@ + be16(n),
{
    let _ = out.write_u16::<BigEndian>(n);
}

/// `WriteBytesExt::write_u32::<BigEndian>` on a `Vec<u8>`: appends the four
/// bytes of `n`, most significant first. A `Vec` as a writer never fails.
#[verifier::external_body]
pub(crate) fn put_u32(out: &mut Vec<u8>, n: u32)
    ensures
        final(out)@ == old(out)@ + be32(n),
{
    let _ = out.write_u32::<BigEndian>(n);
}

/// `WriteBytesExt::write_u64::<BigEndian>` on a `Vec<u8>`: appends the eight
/// bytes of `n`, most significant first. A `Vec` as a writer never fails.
#[verifier::external_body]
pub(crate) fn put_u64(out: &mut Vec<u8>, n: u64)
    ensures
        final(out)@ == old(out)@ + be64(n),
{
    let _ = out.write_u64::<BigEndian>(n);
}

/// `<BigEndian as ByteOrder>::read_u16`: the number that the first two bytes
/// of `src` spell, most significant first. It panics on a shorter slice.
#[verifier::external_body]
pub(crate) fn get_u16(src: &[u8]) -> (n: u16)
    requires
        src@.len() >= 2,
    ensures
        n == from_be16(src@),
{
    BigEndian::read_u16(src)
}

/// `<BigEndian as ByteOrder>::read_u32`: the number that the first four bytes
/// of `src` spell, most significant first. It panics on a shorter slice.
#[verifier::external_body]
pub(crate) fn get_u32(src: &[u8]) -> (n: u32)
    requires
        src@.len() >= 4,
    ensures
        n == from_be32(src@),
{
    BigEndian::read_u32(src)
}

/// `<BigEndian as ByteOrder>::read_u64`: the number that the first eight bytes
/// of `src` spell, most significant first. It panics on a shorter slice.
#[verifier::external_body]
pub(crate) fn get_u64(src: &[u8]) -> (n: u64)
    requires
        src@.len() >= 8,
    ensures
        n == from_be64(src@),
{
    BigEndian::read_u64(src)
}

} // verus!
