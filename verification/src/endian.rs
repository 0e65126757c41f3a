//! Big-endian integers, as every length, tag, version and timestamp of the
//! two file formats is written.
//!
//! The spec functions say what the bytes of an integer are; the executable
//! functions at the end of the file call `byteorder` and are trusted to
//! agree with them.

use byteorder::BigEndian;
use byteorder::ReadBytesExt;
use byteorder::WriteBytesExt;
use vstd::prelude::*;

verus! {

/// The unsigned number that the first four bytes of `s` spell, most
/// significant byte first.
pub open spec fn be_u32(s: Seq<u8>) -> u32
    recommends
        s.len() >= 4,
{
    (s[0] as int * 0x100_0000 + s[1] as int * 0x1_0000 + s[2] as int * 0x100 + s[3] as int) as u32
}

/// The four bytes of `v`, most significant byte first.
pub open spec fn u32_be_bytes(v: u32) -> Seq<u8> {
    seq![
        (v as int / 0x100_0000) as u8,
        (v as int / 0x1_0000 % 0x100) as u8,
        (v as int / 0x100 % 0x100) as u8,
        (v as int % 0x100) as u8,
    ]
}

/// The unsigned number that the first eight bytes of `s` spell, most
/// significant byte first.
pub open spec fn be_u64(s: Seq<u8>) -> u64
    recommends
        s.len() >= 8,
{
    (be_u32(s) as int * 0x1_0000_0000 + be_u32(s.skip(4)) as int) as u64
}

/// The eight bytes of `v`, most significant byte first.
pub open spec fn u64_be_bytes(v: u64) -> Seq<u8> {
    u32_be_bytes((v as int / 0x1_0000_0000) as u32) + u32_be_bytes((v as int % 0x1_0000_0000) as u32)
}

/// The signed reading of a 32-bit pattern (two's complement).
pub open spec fn u32_as_i32(u: u32) -> i32 {
    if u >= 0x8000_0000 {
        (u as int - 0x1_0000_0000) as i32
    } else {
        u as i32
    }
}

/// The 32-bit pattern of a signed number (two's complement).
pub open spec fn i32_as_u32(v: i32) -> u32 {
    if v < 0 {
        (v as int + 0x1_0000_0000) as u32
    } else {
        v as u32
    }
}

/// The signed reading of a 64-bit pattern (two's complement).
pub open spec fn u64_as_i64(u: u64) -> i64 {
    if u >= 0x8000_0000_0000_0000 {
        (u as int - 0x1_0000_0000_0000_0000) as i64
    } else {
        u as i64
    }
}

/// The 64-bit pattern of a signed number (two's complement).
pub open spec fn i64_as_u64(v: i64) -> u64 {
    if v < 0 {
        (v as int + 0x1_0000_0000_0000_0000) as u64
    } else {
        v as u64
    }
}

/// The signed number that the first four bytes of `s` spell.
pub open spec fn be_i32(s: Seq<u8>) -> i32
    recommends
        s.len() >= 4,
{
    u32_as_i32(be_u32(s))
}

/// The four bytes of a signed number, most significant byte first.
pub open spec fn i32_be_bytes(v: i32) -> Seq<u8> {
    u32_be_bytes(i32_as_u32(v))
}

/// The signed number that the first eight bytes of `s` spell.
pub open spec fn be_i64(s: Seq<u8>) -> i64
    recommends
        s.len() >= 8,
{
    u64_as_i64(be_u64(s))
}

/// The eight bytes of a signed number, most significant byte first.
pub open spec fn i64_be_bytes(v: i64) -> Seq<u8> {
    u64_be_bytes(i64_as_u64(v))
}

/// Reading back the bytes of a `u32` gives the number, whatever follows them.
pub proof fn lemma_u32_round_trip(v: u32, rest: Seq<u8>)
    ensures
        u32_be_bytes(v).len() == 4,
        be_u32(u32_be_bytes(v) + rest) == v,
{
    let s = u32_be_bytes(v) + rest;
    assert(s[0] == u32_be_bytes(v)[0]);
    assert(s[1] == u32_be_bytes(v)[1]);
    assert(s[2] == u32_be_bytes(v)[2]);
    assert(s[3] == u32_be_bytes(v)[3]);
}

/// Reading back the bytes of a `u64` gives the number, whatever follows them.
pub proof fn lemma_u64_round_trip(v: u64, rest: Seq<u8>)
    ensures
        u64_be_bytes(v).len() == 8,
        be_u64(u64_be_bytes(v) + rest) == v,
{
    let hi = (v as int / 0x1_0000_0000) as u32;
    let lo = (v as int % 0x1_0000_0000) as u32;
    let s = u64_be_bytes(v) + rest;
    lemma_u32_round_trip(hi, u32_be_bytes(lo) + rest);
    lemma_u32_round_trip(lo, rest);
    assert(s =~= u32_be_bytes(hi) + (u32_be_bytes(lo) + rest));
    assert(s.skip(4) =~= u32_be_bytes(lo) + rest);
}

/// Reading back the bytes of an `i32` gives the number, whatever follows them.
pub proof fn lemma_i32_round_trip(v: i32, rest: Seq<u8>)
    ensures
        i32_be_bytes(v).len() == 4,
        be_i32(i32_be_bytes(v) + rest) == v,
{
    lemma_u32_round_trip(i32_as_u32(v), rest);
}

/// Reading back the bytes of an `i64` gives the number, whatever follows them.
pub proof fn lemma_i64_round_trip(v: i64, rest: Seq<u8>)
    ensures
        i64_be_bytes(v).len() == 8,
        be_i64(i64_be_bytes(v) + rest) == v,
{
    lemma_u64_round_trip(i64_as_u64(v), rest);
}

/// What a failed read of the standard library reports.
#[verifier::external_type_specification]
#[verifier::external_body]
pub struct ExIoError(std::io::Error);

/// `byteorder`'s `read_u32::<BigEndian>` on a slice: the number that the
/// first four bytes spell, and an error exactly when there are fewer than
/// four.
#[verifier::external_body]
pub(crate) fn read_u32_be(bytes: &[u8]) -> (r: Result<u32, std::io::Error>)
    ensures
        r is Ok <==> bytes@.len() >= 4,
        r is Ok ==> r->Ok_0 == be_u32(bytes@),
{
    let mut rest = bytes;
    rest.read_u32::<BigEndian>()
}

/// `byteorder`'s `read_i32::<BigEndian>` on a slice: the signed number that
/// the first four bytes spell, and an error exactly when there are fewer
/// than four.
#[verifier::external_body]
pub(crate) fn read_i32_be(bytes: &[u8]) -> (r: Result<i32, std::io::Error>)
    ensures
        r is Ok <==> bytes@.len() >= 4,
        r is Ok ==> r->Ok_0 == be_i32(bytes@),
{
    let mut rest = bytes;
    rest.read_i32::<BigEndian>()
}

/// `byteorder`'s `read_i64::<BigEndian>` on a slice: the signed number that
/// the first eight bytes spell, and an error exactly when there are fewer
/// than eight.
#[verifier::external_body]
pub(crate) fn read_i64_be(bytes: &[u8]) -> (r: Result<i64, std::io::Error>)
    ensures
        r is Ok <==> bytes@.len() >= 8,
        r is Ok ==> r->Ok_0 == be_i64(bytes@),
{
    let mut rest = bytes;
    rest.read_i64::<BigEndian>()
}

/// `byteorder`'s `write_u32::<BigEndian>` on a vector: the four bytes of `v`
/// are appended. Writing to a vector does not fail.
#[verifier::external_body]
pub(crate) fn write_u32_be(out: &mut Vec<u8>, v: u32)
    ensures
        final(out)@ == old(out)@ + u32_be_bytes(v),
{
    let _ = out.write_u32::<BigEndian>(v);
}

/// `byteorder`'s `write_i32::<BigEndian>` on a vector: the four bytes of `v`
/// are appended. Writing to a vector does not fail.
#[verifier::external_body]
pub(crate) fn write_i32_be(out: &mut Vec<u8>, v: i32)
    ensures
        final(out)@ == old(out)@ + i32_be_bytes(v),
{
    let _ = out.write_i32::<BigEndian>(v);
}

/// `byteorder`'s `write_i64::<BigEndian>` on a vector: the eight bytes of
/// `v` are appended. Writing to a vector does not fail.
#[verifier::external_body]
pub(crate) fn write_i64_be(out: &mut Vec<u8>, v: i64)
    ensures
        final(out)@ == old(out)@ + i64_be_bytes(v),
{
    let _ = out.write_i64::<BigEndian>(v);
}

} // verus!
