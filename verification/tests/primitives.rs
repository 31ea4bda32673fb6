use gguf_inspector::error::DecodeError;
use gguf_inspector::reader::{
    read_bool, read_bytes, read_i16, read_i32, read_i64, read_i8, read_string, read_u16, read_u32,
    read_u64, read_u8,
};

fn string_bytes(s: &str) -> Vec<u8> {
    let mut out = (s.len() as u64).to_le_bytes().to_vec();
    out.extend_from_slice(s.as_bytes());
    out
}

#[test]
fn u8_is_read_and_position_advances_by_one() {
    assert_eq!(read_u8(&[7, 9], 0), Ok((7, 1)));
    assert_eq!(read_u8(&[7, 9], 1), Ok((9, 2)));
    assert_eq!(read_u8(&[7, 9], 2), Err(DecodeError::Truncated));
}

#[test]
fn i8_is_twos_complement() {
    assert_eq!(read_i8(&[0xff], 0), Ok((-1, 1)));
    assert_eq!(read_i8(&[0x80], 0), Ok((-128, 1)));
    assert_eq!(read_i8(&[0x7f], 0), Ok((127, 1)));
    assert_eq!(read_i8(&[], 0), Err(DecodeError::Truncated));
}

#[test]
fn bool_is_any_nonzero_byte() {
    assert_eq!(read_bool(&[0], 0), Ok((false, 1)));
    assert_eq!(read_bool(&[1], 0), Ok((true, 1)));
    assert_eq!(read_bool(&[0xfe], 0), Ok((true, 1)));
    assert_eq!(read_bool(&[], 0), Err(DecodeError::Truncated));
}

#[test]
fn u16_is_little_endian() {
    assert_eq!(read_u16(&[0x34, 0x12], 0), Ok((0x1234, 2)));
    assert_eq!(read_u16(&[0, 0x34, 0x12], 1), Ok((0x1234, 3)));
    assert_eq!(read_u16(&[0x34], 0), Err(DecodeError::Truncated));
}

#[test]
fn i16_is_little_endian_twos_complement() {
    assert_eq!(read_i16(&[0x18, 0xfc], 0), Ok((-1000, 2)));
    assert_eq!(read_i16(&[0x00, 0x80], 0), Ok((i16::MIN, 2)));
    assert_eq!(read_i16(&[0xff, 0x7f], 0), Ok((i16::MAX, 2)));
}

#[test]
fn u32_is_little_endian() {
    assert_eq!(read_u32(&[0x78, 0x56, 0x34, 0x12], 0), Ok((0x1234_5678, 4)));
    assert_eq!(read_u32(b"GGUF", 0), Ok((0x4655_4747, 4)));
    assert_eq!(read_u32(&[0xff, 0xff, 0xff, 0xff], 0), Ok((u32::MAX, 4)));
}

#[test]
fn i32_is_little_endian_twos_complement() {
    assert_eq!(read_i32(&(-1_000_000i32).to_le_bytes(), 0), Ok((-1_000_000, 4)));
    assert_eq!(read_i32(&i32::MIN.to_le_bytes(), 0), Ok((i32::MIN, 4)));
    assert_eq!(read_i32(&[0xff, 0xff, 0xff, 0xff], 0), Ok((-1, 4)));
}

#[test]
fn u64_is_little_endian() {
    assert_eq!(
        read_u64(&[0xef, 0xcd, 0xab, 0x89, 0x67, 0x45, 0x23, 0x01], 0),
        Ok((0x0123_4567_89ab_cdef, 8))
    );
    assert_eq!(read_u64(&u64::MAX.to_le_bytes(), 0), Ok((u64::MAX, 8)));
}

#[test]
fn i64_is_little_endian_twos_complement() {
    assert_eq!(read_i64(&(-1_000_000_000i64).to_le_bytes(), 0), Ok((-1_000_000_000, 8)));
    assert_eq!(read_i64(&i64::MIN.to_le_bytes(), 0), Ok((i64::MIN, 8)));
    assert_eq!(read_i64(&i64::MAX.to_le_bytes(), 0), Ok((i64::MAX, 8)));
}

#[test]
fn two_bytes_where_four_are_needed_is_truncated() {
    assert_eq!(read_u32(&[1, 2], 0), Err(DecodeError::Truncated));
    assert_eq!(read_i32(&[1, 2], 0), Err(DecodeError::Truncated));
    assert_eq!(read_u32(&[0, 0, 0, 1, 2], 3), Err(DecodeError::Truncated));
}

#[test]
fn every_scalar_short_by_one_byte_is_truncated() {
    let data = [0u8; 8];
    assert_eq!(read_u16(&data[..1], 0), Err(DecodeError::Truncated));
    assert_eq!(read_i16(&data[..1], 0), Err(DecodeError::Truncated));
    assert_eq!(read_u32(&data[..3], 0), Err(DecodeError::Truncated));
    assert_eq!(read_u64(&data[..7], 0), Err(DecodeError::Truncated));
    assert_eq!(read_i64(&data[..7], 0), Err(DecodeError::Truncated));
    assert_eq!(read_u64(&data, 1), Err(DecodeError::Truncated));
}

#[test]
fn a_position_behind_the_end_is_truncated() {
    assert_eq!(read_u8(&[1, 2, 3], 4), Err(DecodeError::Truncated));
    assert_eq!(read_u32(&[1, 2, 3], usize::MAX), Err(DecodeError::Truncated));
    assert_eq!(read_string(&[1, 2, 3], usize::MAX), Err(DecodeError::Truncated));
}

#[test]
fn bytes_are_borrowed_in_place() {
    let data = [1u8, 2, 3, 4, 5];
    assert_eq!(read_bytes(&data, 1, 3), Ok((&data[1..4], 4)));
    assert_eq!(read_bytes(&data, 5, 0), Ok((&data[5..5], 5)));
    assert_eq!(read_bytes(&data, 3, 3), Err(DecodeError::Truncated));
    assert_eq!(read_bytes(&data, 0, usize::MAX), Err(DecodeError::Truncated));
}

#[test]
fn string_is_length_prefixed_utf8() {
    let data = string_bytes("general.name");
    assert_eq!(read_string(&data, 0), Ok(("general.name".to_string(), 8 + 12)));
}

#[test]
fn string_may_be_empty() {
    let data = string_bytes("");
    assert_eq!(read_string(&data, 0), Ok((String::new(), 8)));
}

#[test]
fn string_may_hold_multibyte_text() {
    let text = "模型 – ü 😀";
    let mut data = vec![0xaa];
    data.extend(string_bytes(text));
    data.push(0xbb);
    assert_eq!(read_string(&data, 1), Ok((text.to_string(), 1 + 8 + text.len())));
}

#[test]
fn string_with_invalid_utf8_is_invalid_encoding() {
    let mut data = 2u64.to_le_bytes().to_vec();
    data.extend_from_slice(&[0xc3, 0x28]);
    assert_eq!(read_string(&data, 0), Err(DecodeError::InvalidEncoding));
    let mut lone = 1u64.to_le_bytes().to_vec();
    lone.push(0x80);
    assert_eq!(read_string(&lone, 0), Err(DecodeError::InvalidEncoding));
}

#[test]
fn string_shorter_than_its_length_is_truncated() {
    let mut data = 5u64.to_le_bytes().to_vec();
    data.extend_from_slice(b"abcd");
    assert_eq!(read_string(&data, 0), Err(DecodeError::Truncated));
    assert_eq!(read_string(&data[..7], 0), Err(DecodeError::Truncated));
}

#[test]
fn string_with_absurd_length_is_truncated() {
    let mut data = u64::MAX.to_le_bytes().to_vec();
    data.extend_from_slice(b"abcd");
    assert_eq!(read_string(&data, 0), Err(DecodeError::Truncated));
}

#[test]
fn truncation_is_found_before_the_text_is_checked() {
    let mut data = 3u64.to_le_bytes().to_vec();
    data.extend_from_slice(&[0xff, 0xff]);
    assert_eq!(read_string(&data, 0), Err(DecodeError::Truncated));
}
