//! The primitive reader: fixed-width scalars and length-prefixed strings.
//!
//! A read at position `pos` either yields the value together with the position
//! just behind it, or fails without yielding anything. A scalar of width `N`
//! occupies exactly the bytes `pos..pos + N`.

use crate::error::DecodeError;
use crate::little_endian::{
    le_read_i16, le_read_i32, le_read_i64, le_read_u16, le_read_u32, le_read_u64, le_u16, le_u32,
    le_u64, signed16, signed32, signed64, signed8,
};
use vstd::prelude::*;
use vstd::slice::slice_to_vec;
use vstd::utf8::{decode_utf8, valid_utf8};

verus! {

/// `data` holds `n` bytes starting at `pos`.
pub open spec fn has_bytes(data: Seq<u8>, pos: int, n: int) -> bool {
    0 <= pos && 0 <= n && pos + n <= data.len()
}

/// What an executable read returned, with its position as a mathematical
/// integer, for comparison with a specification.
pub open spec fn plain<T>(r: Result<(T, usize), DecodeError>) -> Result<(T, int), DecodeError> {
    match r {
        Ok((v, next)) => Ok((v, next as int)),
        Err(e) => Err(e),
    }
}

/// What an executable read returned, with the value replaced by its view and
/// the position as a mathematical integer.
pub open spec fn viewed<T: View>(r: Result<(T, usize), DecodeError>) -> Result<
    (T::V, int),
    DecodeError,
> {
    match r {
        Ok((v, next)) => Ok((v@, next as int)),
        Err(e) => Err(e),
    }
}

/// The `n` bytes at `pos`, or `Truncated` when fewer remain.
pub open spec fn spec_read_bytes(data: Seq<u8>, pos: int, n: int) -> Result<
    (Seq<u8>, int),
    DecodeError,
> {
    if has_bytes(data, pos, n) {
        Ok((data.subrange(pos, pos + n), pos + n))
    } else {
        Err(DecodeError::Truncated)
    }
}

/// One byte as an unsigned number.
pub open spec fn spec_read_u8(data: Seq<u8>, pos: int) -> Result<(u8, int), DecodeError> {
    match spec_read_bytes(data, pos, 1) {
        Ok((b, next)) => Ok((b[0], next)),
        Err(e) => Err(e),
    }
}

/// One byte as a number in two's complement.
pub open spec fn spec_read_i8(data: Seq<u8>, pos: int) -> Result<(i8, int), DecodeError> {
    match spec_read_bytes(data, pos, 1) {
        Ok((b, next)) => Ok((signed8(b[0]), next)),
        Err(e) => Err(e),
    }
}

/// One byte; any nonzero byte is `true`.
pub open spec fn spec_read_bool(data: Seq<u8>, pos: int) -> Result<(bool, int), DecodeError> {
    match spec_read_bytes(data, pos, 1) {
        Ok((b, next)) => Ok((b[0] != 0, next)),
        Err(e) => Err(e),
    }
}

/// Two bytes as a little-endian unsigned number.
pub open spec fn spec_read_u16(data: Seq<u8>, pos: int) -> Result<(u16, int), DecodeError> {
    match spec_read_bytes(data, pos, 2) {
        Ok((b, next)) => Ok((le_u16(b), next)),
        Err(e) => Err(e),
    }
}

/// Two bytes as a little-endian number in two's complement.
pub open spec fn spec_read_i16(data: Seq<u8>, pos: int) -> Result<(i16, int), DecodeError> {
    match spec_read_bytes(data, pos, 2) {
        Ok((b, next)) => Ok((signed16(le_u16(b)), next)),
        Err(e) => Err(e),
    }
}

/// Four bytes as a little-endian unsigned number.
pub open spec fn spec_read_u32(data: Seq<u8>, pos: int) -> Result<(u32, int), DecodeError> {
    match spec_read_bytes(data, pos, 4) {
        Ok((b, next)) => Ok((le_u32(b), next)),
        Err(e) => Err(e),
    }
}

/// Four bytes as a little-endian number in two's complement.
pub open spec fn spec_read_i32(data: Seq<u8>, pos: int) -> Result<(i32, int), DecodeError> {
    match spec_read_bytes(data, pos, 4) {
        Ok((b, next)) => Ok((signed32(le_u32(b)), next)),
        Err(e) => Err(e),
    }
}

/// Eight bytes as a little-endian unsigned number.
pub open spec fn spec_read_u64(data: Seq<u8>, pos: int) -> Result<(u64, int), DecodeError> {
    match spec_read_bytes(data, pos, 8) {
        Ok((b, next)) => Ok((le_u64(b), next)),
        Err(e) => Err(e),
    }
}

/// Eight bytes as a little-endian number in two's complement.
pub open spec fn spec_read_i64(data: Seq<u8>, pos: int) -> Result<(i64, int), DecodeError> {
    match spec_read_bytes(data, pos, 8) {
        Ok((b, next)) => Ok((signed64(le_u64(b)), next)),
        Err(e) => Err(e),
    }
}

/// A string on the wire: a `u64` byte count, then that many bytes of UTF-8.
/// The count is checked against what remains before the text is looked at.
pub open spec fn spec_read_string(data: Seq<u8>, pos: int) -> Result<
    (Seq<char>, int),
    DecodeError,
> {
    match spec_read_u64(data, pos) {
        Err(e) => Err(e),
        Ok((len, start)) => match spec_read_bytes(data, start, len as int) {
            Err(e) => Err(e),
            Ok((text, next)) => if valid_utf8(text) {
                Ok((decode_utf8(text), next))
            } else {
                Err(DecodeError::InvalidEncoding)
            },
        },
    }
}

/// The error of `String::from_utf8`; nothing is read from it.
#[verifier::external_type_specification]
#[verifier::external_body]
pub struct ExFromUtf8Error(std::string::FromUtf8Error);

/// `String::from_utf8` succeeds exactly on well-formed UTF-8 and then yields
/// the text that the bytes encode.
pub assume_specification[ std::string::String::from_utf8 ](vec: std::vec::Vec<u8>) -> (r: Result<
    std::string::String,
    std::string::FromUtf8Error,
>)
    ensures
        r is Ok <==> valid_utf8(vec@),
        r matches Ok(s) ==> s@ == decode_utf8(vec@),
;

/// Borrows the `n` bytes at `pos` without copying them; `Truncated` when
/// fewer remain.
pub fn read_bytes(data: &[u8], pos: usize, n: usize) -> (r: Result<(&[u8], usize), DecodeError>)
    ensures
        viewed(r) == spec_read_bytes(data@, pos as int, n as int),
{
    if pos > data.len() || data.len() - pos < n {
        return Err(DecodeError::Truncated);
    }
    Ok((&data[pos..pos + n], pos + n))
}

/// Reads one byte as an unsigned number; `Truncated` when fewer bytes remain.
pub fn read_u8(data: &[u8], pos: usize) -> (r: Result<(u8, usize), DecodeError>)
    ensures
        plain(r) == spec_read_u8(data@, pos as int),
{
    let (b, next) = read_bytes(data, pos, 1)?;
    Ok((b[0], next))
}

/// Reads one byte as a number in two's complement; `Truncated` when fewer bytes remain.
pub fn read_i8(data: &[u8], pos: usize) -> (r: Result<(i8, usize), DecodeError>)
    ensures
        plain(r) == spec_read_i8(data@, pos as int),
{
    let (b, next) = read_bytes(data, pos, 1)?;
    let bits: u8 = b[0];
    let v: i8 = if bits >= 0x80 {
        (bits as i16 - 0x100) as i8
    } else {
        bits as i8
    };
    Ok((v, next))
}

/// Reads one byte as a truth value; `Truncated` when none remains.
pub fn read_bool(data: &[u8], pos: usize) -> (r: Result<(bool, usize), DecodeError>)
    ensures
        plain(r) == spec_read_bool(data@, pos as int),
{
    let (b, next) = read_bytes(data, pos, 1)?;
    Ok((b[0] != 0, next))
}

/// Reads two bytes as a little-endian unsigned number; `Truncated` when fewer bytes remain.
pub fn read_u16(data: &[u8], pos: usize) -> (r: Result<(u16, usize), DecodeError>)
    ensures
        plain(r) == spec_read_u16(data@, pos as int),
{
    let (b, next) = read_bytes(data, pos, 2)?;
    Ok((le_read_u16(b), next))
}

/// Reads two bytes as a little-endian number in two's complement; `Truncated`
/// when fewer bytes remain.
pub fn read_i16(data: &[u8], pos: usize) -> (r: Result<(i16, usize), DecodeError>)
    ensures
        plain(r) == spec_read_i16(data@, pos as int),
{
    let (b, next) = read_bytes(data, pos, 2)?;
    Ok((le_read_i16(b), next))
}

/// Reads four bytes as a little-endian unsigned number; `Truncated` when fewer bytes remain.
pub fn read_u32(data: &[u8], pos: usize) -> (r: Result<(u32, usize), DecodeError>)
    ensures
        plain(r) == spec_read_u32(data@, pos as int),
{
    let (b, next) = read_bytes(data, pos, 4)?;
    Ok((le_read_u32(b), next))
}

/// Reads four bytes as a little-endian number in two's complement; `Truncated`
/// when fewer bytes remain.
pub fn read_i32(data: &[u8], pos: usize) -> (r: Result<(i32, usize), DecodeError>)
    ensures
        plain(r) == spec_read_i32(data@, pos as int),
{
    let (b, next) = read_bytes(data, pos, 4)?;
    Ok((le_read_i32(b), next))
}

/// Reads eight bytes as a little-endian unsigned number; `Truncated` when fewer bytes remain.
pub fn read_u64(data: &[u8], pos: usize) -> (r: Result<(u64, usize), DecodeError>)
    ensures
        plain(r) == spec_read_u64(data@, pos as int),
{
    let (b, next) = read_bytes(data, pos, 8)?;
    Ok((le_read_u64(b), next))
}

/// Reads eight bytes as a little-endian number in two's complement; `Truncated`
/// when fewer bytes remain.
pub fn read_i64(data: &[u8], pos: usize) -> (r: Result<(i64, usize), DecodeError>)
    ensures
        plain(r) == spec_read_i64(data@, pos as int),
{
    let (b, next) = read_bytes(data, pos, 8)?;
    Ok((le_read_i64(b), next))
}

/// Reads a length-prefixed UTF-8 string: `Truncated` when the length or the
/// text is cut short, `InvalidEncoding` when the text is not UTF-8.
pub fn read_string(data: &[u8], pos: usize) -> (r: Result<(String, usize), DecodeError>)
    ensures
        viewed(r) == spec_read_string(data@, pos as int),
{
    let (len, start) = read_u64(data, pos)?;
    if len > (data.len() - start) as u64 {
        return Err(DecodeError::Truncated);
    }
    let (text, next) = read_bytes(data, start, len as usize)?;
    match String::from_utf8(slice_to_vec(text)) {
        Ok(s) => Ok((s, next)),
        Err(_) => Err(DecodeError::InvalidEncoding),
    }
}

} // verus!
