use gguf_inspector::error::DecodeError;
use gguf_inspector::metadata::{read_metadata_kv, MetadataKV};
use gguf_inspector::value::{read_value, read_value_nested, GGUFValue, MAX_ARRAY_DEPTH};

fn string_bytes(s: &str) -> Vec<u8> {
    let mut out = (s.len() as u64).to_le_bytes().to_vec();
    out.extend_from_slice(s.as_bytes());
    out
}

fn array_header(element_type: u32, count: u64) -> Vec<u8> {
    let mut out = element_type.to_le_bytes().to_vec();
    out.extend_from_slice(&count.to_le_bytes());
    out
}

/// One encoded value of each scalar kind, with what it decodes to.
fn sample(tag: u32, seed: u8) -> (Vec<u8>, GGUFValue) {
    match tag {
        0 => (vec![seed], GGUFValue::U8(seed)),
        1 => (vec![seed], GGUFValue::I8(seed as i8)),
        2 => {
            let v = 0x1200 + seed as u16;
            (v.to_le_bytes().to_vec(), GGUFValue::U16(v))
        }
        3 => {
            let v = -300 - seed as i16;
            (v.to_le_bytes().to_vec(), GGUFValue::I16(v))
        }
        4 => {
            let v = 0xdead_0000 + seed as u32;
            (v.to_le_bytes().to_vec(), GGUFValue::U32(v))
        }
        5 => {
            let v = -70_000 - seed as i32;
            (v.to_le_bytes().to_vec(), GGUFValue::I32(v))
        }
        6 => {
            let v = 1.5f32 + seed as f32;
            (v.to_le_bytes().to_vec(), GGUFValue::F32(v.to_bits()))
        }
        7 => (vec![seed], GGUFValue::Bool(seed != 0)),
        8 => {
            let s = format!("text-{}", seed);
            (string_bytes(&s), GGUFValue::String(s))
        }
        10 => {
            let v = 0x0102_0304_0506_0700 + seed as u64;
            (v.to_le_bytes().to_vec(), GGUFValue::U64(v))
        }
        11 => {
            let v = -5_000_000_000 - seed as i64;
            (v.to_le_bytes().to_vec(), GGUFValue::I64(v))
        }
        12 => {
            let v = -2.25f64 - seed as f64;
            (v.to_le_bytes().to_vec(), GGUFValue::F64(v.to_bits()))
        }
        _ => unreachable!(),
    }
}

const SCALAR_TAGS: [u32; 12] = [0, 1, 2, 3, 4, 5, 6, 7, 8, 10, 11, 12];

#[test]
fn every_scalar_kind_decodes_under_its_tag() {
    for tag in SCALAR_TAGS {
        let (bytes, expected) = sample(tag, 3);
        let mut data = vec![0xee, 0xee];
        data.extend_from_slice(&bytes);
        data.push(0x55);
        assert_eq!(read_value(&data, 2, tag), Ok((expected, 2 + bytes.len())), "tag {}", tag);
    }
}

#[test]
fn every_decoded_value_reports_the_tag_it_was_read_under() {
    for tag in SCALAR_TAGS {
        let (bytes, _) = sample(tag, 1);
        let (value, _) = read_value(&bytes, 0, tag).unwrap();
        assert_eq!(value.type_tag(), tag);
    }
    let (array, _) = read_value(&array_header(4, 0), 0, 9).unwrap();
    assert_eq!(array.type_tag(), 9);
}

#[test]
fn float32_keeps_its_bit_pattern() {
    let data = 3.75f32.to_le_bytes();
    match read_value(&data, 0, 6) {
        Ok((GGUFValue::F32(bits), 4)) => assert_eq!(f32::from_bits(bits), 3.75f32),
        other => panic!("unexpected {:?}", other),
    }
    let nan = [0x01, 0x00, 0xc0, 0x7f];
    assert_eq!(read_value(&nan, 0, 6), Ok((GGUFValue::F32(0x7fc0_0001), 4)));
}

#[test]
fn float64_keeps_its_bit_pattern() {
    let data = (-0.1f64).to_le_bytes();
    match read_value(&data, 0, 12) {
        Ok((GGUFValue::F64(bits), 8)) => assert_eq!(f64::from_bits(bits), -0.1f64),
        other => panic!("unexpected {:?}", other),
    }
}

#[test]
fn bool_value_is_nonzero_byte() {
    assert_eq!(read_value(&[0], 0, 7), Ok((GGUFValue::Bool(false), 1)));
    assert_eq!(read_value(&[2], 0, 7), Ok((GGUFValue::Bool(true), 1)));
}

#[test]
fn tag_thirteen_is_unknown_type() {
    let data = [0u8; 32];
    assert_eq!(read_value(&data, 0, 13), Err(DecodeError::UnknownType(13)));
}

#[test]
fn every_tag_above_twelve_is_unknown_type() {
    let data = [0u8; 32];
    for tag in [13u32, 14, 15, 16, 100, 255, 256, 65_535, 0x8000_0000, u32::MAX] {
        assert_eq!(read_value(&data, 0, tag), Err(DecodeError::UnknownType(tag)));
        assert_eq!(read_value(&[], 0, tag), Err(DecodeError::UnknownType(tag)));
    }
}

#[test]
fn array_has_the_declared_length_for_every_element_kind() {
    for tag in SCALAR_TAGS {
        for count in [0u64, 1, 2, 7] {
            let mut data = array_header(tag, count);
            let mut expected = Vec::new();
            for i in 0..count {
                let (bytes, value) = sample(tag, i as u8);
                data.extend_from_slice(&bytes);
                expected.push(value);
            }
            let end = data.len();
            data.extend_from_slice(&[0xff; 4]);
            match read_value(&data, 0, 9) {
                Ok((GGUFValue::Array(items), next)) => {
                    assert_eq!(items.len() as u64, count);
                    assert_eq!(next, end);
                    for item in items.iter() {
                        assert_eq!(item.type_tag(), tag);
                    }
                    assert_eq!(items, expected);
                }
                other => panic!("unexpected {:?}", other),
            }
        }
    }
}

#[test]
fn array_element_tag_is_read_once_for_all_elements() {
    // Three u8 elements: were a tag read per element, the bytes 4, 5, 6
    // would be taken as tags.
    let mut data = array_header(0, 3);
    data.extend_from_slice(&[4, 5, 6]);
    assert_eq!(
        read_value(&data, 0, 9),
        Ok((
            GGUFValue::Array(vec![GGUFValue::U8(4), GGUFValue::U8(5), GGUFValue::U8(6)]),
            15
        ))
    );
}

#[test]
fn nested_arrays_decode_recursively() {
    // [[1, 2], [], [3]] as array of array of u16
    let mut data = array_header(9, 3);
    data.extend(array_header(2, 2));
    data.extend_from_slice(&1u16.to_le_bytes());
    data.extend_from_slice(&2u16.to_le_bytes());
    data.extend(array_header(2, 0));
    data.extend(array_header(2, 1));
    data.extend_from_slice(&3u16.to_le_bytes());
    let expected = GGUFValue::Array(vec![
        GGUFValue::Array(vec![GGUFValue::U16(1), GGUFValue::U16(2)]),
        GGUFValue::Array(vec![]),
        GGUFValue::Array(vec![GGUFValue::U16(3)]),
    ]);
    let (value, next) = read_value(&data, 0, 9).unwrap();
    assert_eq!(next, data.len());
    assert_eq!(value, expected);
    match value {
        GGUFValue::Array(items) => {
            assert_eq!(items.len(), 3);
            for item in items.iter() {
                assert_eq!(item.type_tag(), 9);
            }
        }
        _ => unreachable!(),
    }
}

#[test]
fn nested_arrays_may_differ_in_their_own_element_kind() {
    // The outer element kind is "array"; each inner array names its own.
    let mut data = array_header(9, 2);
    data.extend(array_header(0, 1));
    data.push(9);
    data.extend(array_header(8, 1));
    data.extend(string_bytes("x"));
    assert_eq!(
        read_value(&data, 0, 9),
        Ok((
            GGUFValue::Array(vec![
                GGUFValue::Array(vec![GGUFValue::U8(9)]),
                GGUFValue::Array(vec![GGUFValue::String("x".to_string())]),
            ]),
            data.len()
        ))
    );
}

#[test]
fn empty_array_of_unknown_element_kind_is_empty() {
    let data = array_header(77, 0);
    assert_eq!(read_value(&data, 0, 9), Ok((GGUFValue::Array(vec![]), 12)));
}

#[test]
fn array_of_unknown_element_kind_fails_at_first_element() {
    let mut data = array_header(13, 2);
    data.extend_from_slice(&[0; 16]);
    assert_eq!(read_value(&data, 0, 9), Err(DecodeError::UnknownType(13)));
}

#[test]
fn array_cut_short_is_truncated() {
    let mut data = array_header(4, 3);
    data.extend_from_slice(&1u32.to_le_bytes());
    data.extend_from_slice(&2u32.to_le_bytes());
    data.extend_from_slice(&[3, 0]);
    assert_eq!(read_value(&data, 0, 9), Err(DecodeError::Truncated));
    assert_eq!(read_value(&data[..10], 0, 9), Err(DecodeError::Truncated));
    assert_eq!(read_value(&data[..2], 0, 9), Err(DecodeError::Truncated));
}

#[test]
fn array_with_absurd_count_is_truncated() {
    let mut data = array_header(0, u64::MAX);
    data.extend_from_slice(&[1, 2, 3]);
    assert_eq!(read_value(&data, 0, 9), Err(DecodeError::Truncated));
}

#[test]
fn array_reports_the_first_failure_among_its_elements() {
    let mut data = array_header(8, 3);
    data.extend(string_bytes("ok"));
    data.extend_from_slice(&1u64.to_le_bytes());
    data.push(0xff);
    assert_eq!(read_value(&data, 0, 9), Err(DecodeError::InvalidEncoding));
}

fn nested(levels: u32) -> Vec<u8> {
    // `levels` arrays inside one another, the innermost empty.
    let mut data = Vec::new();
    for _ in 1..levels {
        data.extend(array_header(9, 1));
    }
    data.extend(array_header(0, 0));
    data
}

fn depth_of(value: &GGUFValue) -> u32 {
    match value {
        GGUFValue::Array(items) => 1 + items.iter().map(depth_of).max().unwrap_or(0),
        _ => 0,
    }
}

#[test]
fn arrays_nest_up_to_the_depth_limit() {
    let data = nested(MAX_ARRAY_DEPTH);
    let (value, next) = read_value(&data, 0, 9).unwrap();
    assert_eq!(next, data.len());
    assert_eq!(depth_of(&value), MAX_ARRAY_DEPTH);
}

#[test]
fn arrays_nested_beyond_the_depth_limit_are_refused() {
    let data = nested(MAX_ARRAY_DEPTH + 1);
    assert_eq!(read_value(&data, 0, 9), Err(DecodeError::ResourceLimitExceeded));
    let deep = nested(100_000);
    assert_eq!(read_value(&deep, 0, 9), Err(DecodeError::ResourceLimitExceeded));
}

#[test]
fn depth_budget_counts_arrays_only() {
    assert_eq!(read_value_nested(&[5], 0, 0, 0), Ok((GGUFValue::U8(5), 1)));
    assert_eq!(
        read_value_nested(&array_header(0, 0), 0, 9, 0),
        Err(DecodeError::ResourceLimitExceeded)
    );
    assert_eq!(
        read_value_nested(&array_header(0, 0), 0, 9, 1),
        Ok((GGUFValue::Array(vec![]), 12))
    );
    assert_eq!(read_value_nested(&nested(2), 0, 9, 1), Err(DecodeError::ResourceLimitExceeded));
    assert_eq!(read_value_nested(&[], 0, 13, 0), Err(DecodeError::UnknownType(13)));
}

#[test]
fn metadata_entry_is_key_tag_value() {
    let mut data = string_bytes("general.architecture");
    data.extend_from_slice(&8u32.to_le_bytes());
    data.extend(string_bytes("llama"));
    data.push(0);
    assert_eq!(
        read_metadata_kv(&data, 0),
        Ok((
            MetadataKV {
                key: "general.architecture".to_string(),
                value: GGUFValue::String("llama".to_string())
            },
            data.len() - 1
        ))
    );
}

#[test]
fn metadata_entry_passes_every_failure_on() {
    let mut bad_tag = string_bytes("k");
    bad_tag.extend_from_slice(&13u32.to_le_bytes());
    bad_tag.extend_from_slice(&[0; 8]);
    assert_eq!(read_metadata_kv(&bad_tag, 0), Err(DecodeError::UnknownType(13)));

    let mut bad_key = 1u64.to_le_bytes().to_vec();
    bad_key.push(0xff);
    bad_key.extend_from_slice(&0u32.to_le_bytes());
    bad_key.push(1);
    assert_eq!(read_metadata_kv(&bad_key, 0), Err(DecodeError::InvalidEncoding));

    let mut short = string_bytes("k");
    short.extend_from_slice(&4u32.to_le_bytes());
    short.extend_from_slice(&[1, 2]);
    assert_eq!(read_metadata_kv(&short, 0), Err(DecodeError::Truncated));
    assert_eq!(read_metadata_kv(&short[..10], 0), Err(DecodeError::Truncated));
}
