use gguf_inspector::display::{
    array_preview, contains_bytes, key_order, listing_order, passes_filter, sections_to_show,
    select_metadata, select_tensors, text_contains, KeyOrder, Sections, ARRAY_PREVIEW,
};
use gguf_inspector::metadata::MetadataKV;
use gguf_inspector::tensor::TensorInfo;
use gguf_inspector::value::GGUFValue;

fn entries(keys: &[&str]) -> Vec<MetadataKV> {
    keys.iter()
        .enumerate()
        .map(|(i, k)| MetadataKV { key: k.to_string(), value: GGUFValue::U32(i as u32) })
        .collect()
}

fn tensors(names: &[&str]) -> Vec<TensorInfo> {
    names
        .iter()
        .map(|n| TensorInfo {
            name: n.to_string(),
            n_dims: 1,
            shape: vec![8],
            type_code: 0,
            dtype: "F32".to_string(),
            offset: 0,
            size_in_bytes: 32,
        })
        .collect()
}

#[test]
fn all_sections_show_when_none_is_asked_for() {
    assert_eq!(
        sections_to_show(false, false, false),
        Sections { header: true, metadata: true, tensors: true }
    );
}

#[test]
fn only_the_sections_asked_for_show() {
    assert_eq!(
        sections_to_show(true, false, false),
        Sections { header: true, metadata: false, tensors: false }
    );
    assert_eq!(
        sections_to_show(false, true, false),
        Sections { header: false, metadata: true, tensors: false }
    );
    assert_eq!(
        sections_to_show(false, false, true),
        Sections { header: false, metadata: false, tensors: true }
    );
    assert_eq!(
        sections_to_show(true, false, true),
        Sections { header: true, metadata: false, tensors: true }
    );
    assert_eq!(
        sections_to_show(true, true, true),
        Sections { header: true, metadata: true, tensors: true }
    );
}

#[test]
fn bytes_are_found_wherever_they_stand() {
    assert!(contains_bytes(b"general.alignment", b"general"));
    assert!(contains_bytes(b"general.alignment", b"alignment"));
    assert!(contains_bytes(b"general.alignment", b"l.a"));
    assert!(contains_bytes(b"general.alignment", b"general.alignment"));
    assert!(contains_bytes(b"aab", b"ab"));
    assert!(contains_bytes(b"abababc", b"ababc"));
}

#[test]
fn bytes_that_do_not_stand_there_are_not_found() {
    assert!(!contains_bytes(b"general.alignment", b"General"));
    assert!(!contains_bytes(b"general.alignment", b"general.alignment."));
    assert!(!contains_bytes(b"abc", b"abcd"));
    assert!(!contains_bytes(b"", b"a"));
    assert!(!contains_bytes(b"ababab", b"abb"));
}

#[test]
fn the_empty_pattern_is_found_everywhere() {
    assert!(contains_bytes(b"abc", b""));
    assert!(contains_bytes(b"", b""));
    assert!(text_contains("", ""));
}

#[test]
fn text_search_agrees_with_the_standard_one() {
    let texts = ["", "a", "blk.0.attn_q.weight", "模型.权重", "aaa", "abcabd", "ü–😀"];
    let patterns = ["", "a", "b", "aa", "attn", "weight", "权重", "模", "abd", "abc", "😀", "–"];
    for text in texts {
        for pattern in patterns {
            assert_eq!(text_contains(text, pattern), text.contains(pattern), "{text} / {pattern}");
        }
    }
}

#[test]
fn keys_compare_like_strings() {
    let keys = ["", "a", "A", "ab", "abc", "b", "general.a", "general.b", "général", "z", "模"];
    for a in keys {
        for b in keys {
            let expected = if a < b {
                KeyOrder::Before
            } else if a == b {
                KeyOrder::Same
            } else {
                KeyOrder::After
            };
            assert_eq!(key_order(a.as_bytes(), b.as_bytes()), expected, "{a} / {b}");
        }
    }
}

#[test]
fn a_prefix_comes_before_its_extensions() {
    assert_eq!(key_order(b"abc", b"abcd"), KeyOrder::Before);
    assert_eq!(key_order(b"abcd", b"abc"), KeyOrder::After);
    assert_eq!(key_order(b"", b"\0"), KeyOrder::Before);
    assert_eq!(key_order(b"\xff", b"\xff"), KeyOrder::Same);
}

#[test]
fn listing_is_sorted_by_key() {
    let metadata = entries(&["tokenizer.model", "general.name", "llama.block_count", "a"]);
    assert_eq!(listing_order(&metadata), vec![3, 1, 2, 0]);
}

#[test]
fn entries_of_one_key_stay_in_file_order() {
    let metadata = entries(&["k", "b", "k", "a", "k", "b"]);
    assert_eq!(listing_order(&metadata), vec![3, 1, 5, 0, 2, 4]);
}

#[test]
fn listing_agrees_with_a_stable_sort() {
    let mut x: u32 = 7;
    for n in [0usize, 1, 2, 3, 5, 8, 17, 64, 257] {
        let keys: Vec<String> = (0..n)
            .map(|_| {
                x = x.wrapping_mul(1_103_515_245).wrapping_add(12_345);
                format!("k{}", (x >> 16) % 11)
            })
            .collect();
        let refs: Vec<&str> = keys.iter().map(|k| k.as_str()).collect();
        let metadata = entries(&refs);
        let mut expected: Vec<usize> = (0..n).collect();
        expected.sort_by(|a, b| metadata[*a].key.cmp(&metadata[*b].key));
        assert_eq!(listing_order(&metadata), expected);
        assert_eq!(select_metadata(&metadata, None), expected);
    }
}

#[test]
fn filtered_listing_keeps_the_order_of_the_full_one() {
    let metadata = entries(&[
        "tokenizer.ggml.model",
        "general.name",
        "llama.attention.head_count",
        "general.alignment",
        "tokenizer.ggml.tokens",
    ]);
    assert_eq!(select_metadata(&metadata, None), vec![3, 1, 2, 0, 4]);
    assert_eq!(select_metadata(&metadata, Some("general")), vec![3, 1]);
    assert_eq!(select_metadata(&metadata, Some("ggml")), vec![0, 4]);
    assert_eq!(select_metadata(&metadata, Some("e")), vec![3, 1, 2, 0, 4]);
    assert_eq!(select_metadata(&metadata, Some("")), vec![3, 1, 2, 0, 4]);
    assert_eq!(select_metadata(&metadata, Some("missing")), Vec::<usize>::new());
    assert_eq!(select_metadata(&Vec::new(), Some("a")), Vec::<usize>::new());
}

#[test]
fn tensors_are_listed_in_file_order() {
    let table = tensors(&["output.weight", "blk.0.attn_q.weight", "blk.0.ffn_up.bias", "a"]);
    assert_eq!(select_tensors(&table, None), vec![0, 1, 2, 3]);
    assert_eq!(select_tensors(&table, Some("weight")), vec![0, 1]);
    assert_eq!(select_tensors(&table, Some("blk.0")), vec![1, 2]);
    assert_eq!(select_tensors(&table, Some("a")), vec![1, 2, 3]);
    assert_eq!(select_tensors(&table, Some("x")), Vec::<usize>::new());
}

#[test]
fn filter_passes_names_that_hold_its_text() {
    assert!(passes_filter(None, "anything"));
    assert!(passes_filter(Some("thin"), "anything"));
    assert!(!passes_filter(Some("Thin"), "anything"));
}

#[test]
fn long_arrays_are_previewed_by_their_first_eight() {
    assert_eq!(ARRAY_PREVIEW, 8);
    let items: Vec<GGUFValue> = (0..9).map(GGUFValue::U8).collect();
    let preview = array_preview(&items).unwrap();
    assert_eq!(preview, &items[..8]);
    let many: Vec<GGUFValue> = (0..200).map(GGUFValue::U8).collect();
    assert_eq!(array_preview(&many).unwrap(), &many[..8]);
}

#[test]
fn arrays_of_up_to_eight_are_listed_whole() {
    let items: Vec<GGUFValue> = (0..8).map(GGUFValue::U8).collect();
    assert_eq!(array_preview(&items), None);
    assert_eq!(array_preview(&Vec::new()), None);
}

#[test]
fn a_cloned_value_equals_its_source() {
    let value = GGUFValue::Array(vec![
        GGUFValue::Array(vec![GGUFValue::String("a".to_string()), GGUFValue::String(String::new())]),
        GGUFValue::Array(vec![]),
        GGUFValue::Array(vec![GGUFValue::F64(1), GGUFValue::Bool(true), GGUFValue::I8(-4)]),
    ]);
    assert_eq!(value.clone(), value);
    assert_eq!(GGUFValue::U64(9).clone(), GGUFValue::U64(9));
}
