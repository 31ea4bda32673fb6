//! Little-endian integers: what a run of bytes spells, and how to read it.
//!
//! The specification functions give the number as a weighted sum of the bytes.
//! The executable readers hand the work to the `byteorder` crate; each of them
//! is a thin, unverified wrapper whose contract restates what that crate
//! documents.

use byteorder::{ByteOrder, LittleEndian};
use vstd::prelude::*;

verus! {

/// The number spelled by the first two bytes, least significant first.
pub open spec fn le_u16(bytes: Seq<u8>) -> u16
    recommends
        bytes.len() >= 2,
{
    (bytes[0] as int + 0x100 * (bytes[1] as int)) as u16
}

/// The number spelled by the first four bytes, least significant first.
pub open spec fn le_u32(bytes: Seq<u8>) -> u32
    recommends
        bytes.len() >= 4,
{
    (bytes[0] as int + 0x100 * (bytes[1] as int) + 0x1_0000 * (bytes[2] as int) + 0x100_0000 * (
    bytes[3] as int)) as u32
}

/// The number spelled by the first eight bytes, least significant first.
pub open spec fn le_u64(bytes: Seq<u8>) -> u64
    recommends
        bytes.len() >= 8,
{
    (le_u32(bytes) as int + 0x1_0000_0000 * (le_u32(bytes.subrange(4, 8)) as int)) as u64
}

/// The two's complement reading of a 16-bit pattern.
pub open spec fn signed16(bits: u16) -> i16 {
    if bits >= 0x8000 {
        (bits as int - 0x1_0000) as i16
    } else {
        bits as i16
    }
}

/// The two's complement reading of a 32-bit pattern.
pub open spec fn signed32(bits: u32) -> i32 {
    if bits >= 0x8000_0000 {
        (bits as int - 0x1_0000_0000) as i32
    } else {
        bits as i32
    }
}

/// The two's complement reading of a 64-bit pattern.
pub open spec fn signed64(bits: u64) -> i64 {
    if bits >= 0x8000_0000_0000_0000 {
        (bits as int - 0x1_0000_0000_0000_0000) as i64
    } else {
        bits as i64
    }
}

/// The two's complement reading of an 8-bit pattern.
pub open spec fn signed8(bits: u8) -> i8 {
    if bits >= 0x80 {
        (bits as int - 0x100) as i8
    } else {
        bits as i8
    }
}

/// The `count` numbers spelled by consecutive groups of eight bytes.
pub open spec fn le_u64_seq(bytes: Seq<u8>, count: nat) -> Seq<u64> {
    Seq::new(count, |i: int| le_u64(bytes.subrange(8 * i, 8 * i + 8)))
}

/// The four bytes that spell `v`, least significant first.
pub open spec fn le_bytes_u32(v: u32) -> Seq<u8> {
    seq![
        (v % 0x100) as u8,
        (v / 0x100 % 0x100) as u8,
        (v / 0x1_0000 % 0x100) as u8,
        (v / 0x100_0000) as u8,
    ]
}

/// The eight bytes that spell `v`, least significant first.
pub open spec fn le_bytes_u64(v: u64) -> Seq<u8> {
    le_bytes_u32((v % 0x1_0000_0000) as u32) + le_bytes_u32((v / 0x1_0000_0000) as u32)
}

/// Dividing by 256 twice or three times is dividing by its powers.
proof fn lemma_byte_shifts(v: u32)
    ensures
        v / 0x100 / 0x100 == v / 0x1_0000,
        v / 0x1_0000 / 0x100 == v / 0x100_0000,
        v / 0x100_0000 < 0x100,
{
    assert(v / 0x100 / 0x100 == v / 0x1_0000) by (bit_vector);
    assert(v / 0x1_0000 / 0x100 == v / 0x100_0000) by (bit_vector);
    assert(v / 0x100_0000 < 0x100) by (bit_vector);
}

/// Spelling a number and reading the spelling gives the number back.
pub proof fn lemma_le_u32_of_bytes(v: u32)
    ensures
        le_bytes_u32(v).len() == 4,
        le_u32(le_bytes_u32(v)) == v,
{
    lemma_byte_shifts(v);
    let q1 = v / 0x100;
    let q2 = v / 0x1_0000;
    let q3 = v / 0x100_0000;
    assert(v == 0x100 * q1 + v % 0x100);
    assert(q1 == 0x100 * q2 + q1 % 0x100);
    assert(q2 == 0x100 * q3 + q2 % 0x100);
    let bytes = le_bytes_u32(v);
    assert(bytes[0] == v % 0x100);
    assert(bytes[1] == q1 % 0x100);
    assert(bytes[2] == q2 % 0x100);
    assert(bytes[3] == q3);
}

/// Reading four bytes and spelling the number gives the bytes back.
pub proof fn lemma_le_bytes_of_u32(bytes: Seq<u8>)
    requires
        bytes.len() >= 4,
    ensures
        le_bytes_u32(le_u32(bytes)) == bytes.subrange(0, 4),
{
    let b0 = bytes[0] as int;
    let b1 = bytes[1] as int;
    let b2 = bytes[2] as int;
    let b3 = bytes[3] as int;
    let k2 = b2 + 0x100 * b3;
    let k1 = b1 + 0x100 * k2;
    let x = b0 + 0x100 * k1;
    let v = le_u32(bytes);
    assert(v == x);
    lemma_byte_shifts(v);
    assert(x / 0x100 == k1 && x % 0x100 == b0);
    assert(k1 / 0x100 == k2 && k1 % 0x100 == b1);
    assert(k2 / 0x100 == b3 && k2 % 0x100 == b2);
    let spelled = le_bytes_u32(v);
    assert(spelled[0] == bytes[0]);
    assert(spelled[1] == bytes[1]);
    assert(spelled[2] == bytes[2]);
    assert(spelled[3] == bytes[3]);
    assert(spelled =~= bytes.subrange(0, 4));
}

/// A 64-bit number falls apart into its low and high halves.
proof fn lemma_halves(low: int, high: int)
    requires
        0 <= low < 0x1_0000_0000,
        0 <= high < 0x1_0000_0000,
    ensures
        (low + 0x1_0000_0000 * high) % 0x1_0000_0000 == low,
        (low + 0x1_0000_0000 * high) / 0x1_0000_0000 == high,
        0 <= low + 0x1_0000_0000 * high <= 0xffff_ffff_ffff_ffff,
{
}

/// Spelling a number and reading the spelling gives the number back.
pub proof fn lemma_le_u64_of_bytes(v: u64)
    ensures
        le_bytes_u64(v).len() == 8,
        le_u64(le_bytes_u64(v)) == v,
{
    let low = (v % 0x1_0000_0000) as u32;
    let high = (v / 0x1_0000_0000) as u32;
    assert(v == low + 0x1_0000_0000 * high);
    lemma_le_u32_of_bytes(low);
    lemma_le_u32_of_bytes(high);
    let bytes = le_bytes_u32(low) + le_bytes_u32(high);
    assert(bytes == le_bytes_u64(v));
    assert(bytes.subrange(4, 8) =~= le_bytes_u32(high));
    assert(bytes.subrange(0, 4) =~= le_bytes_u32(low));
    lemma_le_u32_reads_four(bytes);
}

/// Only the first four bytes matter to a 32-bit read.
proof fn lemma_le_u32_reads_four(bytes: Seq<u8>)
    requires
        bytes.len() >= 4,
    ensures
        le_u32(bytes) == le_u32(bytes.subrange(0, 4)),
{
}

/// Reading eight bytes and spelling the number gives the bytes back.
pub proof fn lemma_le_bytes_of_u64(bytes: Seq<u8>)
    requires
        bytes.len() >= 8,
    ensures
        le_bytes_u64(le_u64(bytes)) == bytes.subrange(0, 8),
{
    let low = le_u32(bytes);
    let high = le_u32(bytes.subrange(4, 8));
    let v = le_u64(bytes);
    lemma_halves(low as int, high as int);
    assert(v == low + 0x1_0000_0000 * high);
    assert((v % 0x1_0000_0000) as u32 == low);
    assert((v / 0x1_0000_0000) as u32 == high);
    lemma_le_bytes_of_u32(bytes);
    lemma_le_bytes_of_u32(bytes.subrange(4, 8));
    let spelled = le_bytes_u32(low) + le_bytes_u32(high);
    assert(spelled == le_bytes_u64(v));
    assert(bytes.subrange(4, 8).subrange(0, 4) =~= bytes.subrange(4, 8));
    assert(spelled =~= bytes.subrange(0, 4) + bytes.subrange(4, 8));
    assert(bytes.subrange(0, 4) + bytes.subrange(4, 8) =~= bytes.subrange(0, 8));
}

/// Appends the four bytes that spell `v` to `out`.
pub fn put_u32(out: &mut Vec<u8>, v: u32)
    ensures
        final(out)@ == old(out)@ + le_bytes_u32(v),
{
    out.push((v % 0x100) as u8);
    out.push((v / 0x100 % 0x100) as u8);
    out.push((v / 0x1_0000 % 0x100) as u8);
    out.push((v / 0x100_0000) as u8);
    assert(out@ =~= old(out)@ + le_bytes_u32(v));
}

/// Appends the eight bytes that spell `v` to `out`.
pub fn put_u64(out: &mut Vec<u8>, v: u64)
    ensures
        final(out)@ == old(out)@ + le_bytes_u64(v),
{
    put_u32(out, (v % 0x1_0000_0000) as u32);
    put_u32(out, (v / 0x1_0000_0000) as u32);
    assert(out@ =~= old(out)@ + le_bytes_u64(v));
}

/// `byteorder::LittleEndian::read_u16`: the first two bytes of `buf` as a
/// little-endian number. The crate panics on a shorter slice, so that input is
/// excluded.
#[verifier::external_body]
pub(crate) fn le_read_u16(buf: &[u8]) -> (r: u16)
    requires
        buf@.len() >= 2,
    ensures
        r == le_u16(buf@),
{
    LittleEndian::read_u16(buf)
}

/// `byteorder::LittleEndian::read_i16`: the first two bytes of `buf` as a
/// little-endian number in two's complement. Panics in the crate on fewer than
/// two bytes, so that input is excluded.
#[verifier::external_body]
pub(crate) fn le_read_i16(buf: &[u8]) -> (r: i16)
    requires
        buf@.len() >= 2,
    ensures
        r == signed16(le_u16(buf@)),
{
    LittleEndian::read_i16(buf)
}

/// `byteorder::LittleEndian::read_u32`: the first four bytes of `buf` as a
/// little-endian number. Panics in the crate on fewer than four bytes, so that
/// input is excluded.
#[verifier::external_body]
pub(crate) fn le_read_u32(buf: &[u8]) -> (r: u32)
    requires
        buf@.len() >= 4,
    ensures
        r == le_u32(buf@),
{
    LittleEndian::read_u32(buf)
}

/// `byteorder::LittleEndian::read_i32`: the first four bytes of `buf` as a
/// little-endian number in two's complement. Panics in the crate on fewer than
/// four bytes, so that input is excluded.
#[verifier::external_body]
pub(crate) fn le_read_i32(buf: &[u8]) -> (r: i32)
    requires
        buf@.len() >= 4,
    ensures
        r == signed32(le_u32(buf@)),
{
    LittleEndian::read_i32(buf)
}

/// `byteorder::LittleEndian::read_u64`: the first eight bytes of `buf` as a
/// little-endian number. Panics in the crate on fewer than eight bytes, so
/// that input is excluded.
#[verifier::external_body]
pub(crate) fn le_read_u64(buf: &[u8]) -> (r: u64)
    requires
        buf@.len() >= 8,
    ensures
        r == le_u64(buf@),
{
    LittleEndian::read_u64(buf)
}

/// `byteorder::LittleEndian::read_i64`: the first eight bytes of `buf` as a
/// little-endian number in two's complement. Panics in the crate on fewer than
/// eight bytes, so that input is excluded.
#[verifier::external_body]
pub(crate) fn le_read_i64(buf: &[u8]) -> (r: i64)
    requires
        buf@.len() >= 8,
    ensures
        r == signed64(le_u64(buf@)),
{
    LittleEndian::read_i64(buf)
}

/// `byteorder::LittleEndian::read_u64_into`: fills `dst` with the numbers that
/// consecutive groups of eight bytes of `src` spell, in order. The crate
/// panics unless `src` holds exactly eight bytes per slot of `dst`, so other
/// inputs are excluded. The length of `dst` does not change.
#[verifier::external_body]
pub(crate) fn le_read_u64_into(src: &[u8], dst: &mut Vec<u64>)
    requires
        src@.len() == 8 * old(dst)@.len(),
    ensures
        final(dst)@ == le_u64_seq(src@, old(dst)@.len()),
{
    LittleEndian::read_u64_into(src, dst.as_mut_slice())
}

} // verus!
