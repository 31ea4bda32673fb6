//! What holds of the decoder as a whole.
//!
//! Three things are shown here of every input. The bytes that a decode
//! consumes are the sum of the widths of the fields that it found. The header
//! that it found, written out again, is the start of the input. And the
//! outcome depends on nothing behind the tables: an input that agrees with a
//! well-formed one up to the end of its tables decodes alike, and one that
//! stops before that end is reported as truncated.

use crate::error::DecodeError;
use crate::file::{
    header_bytes, spec_parse_gguf, spec_read_header, GGUFHeader, ParsedModel, GGUF_MAGIC,
};
use crate::little_endian::{
    le_bytes_u32, le_bytes_u64, lemma_le_bytes_of_u32, lemma_le_bytes_of_u64,
    lemma_le_u32_of_bytes, lemma_le_u64_of_bytes,
};
use crate::metadata::{
    lemma_entries_extent, lemma_entry_extent, spec_read_entries, spec_read_metadata_kv, EntryModel,
};
use crate::reader::{
    spec_read_bool, spec_read_bytes, spec_read_i16, spec_read_i32, spec_read_i64, spec_read_i8,
    spec_read_string, spec_read_u16, spec_read_u32, spec_read_u64, spec_read_u8,
};
use crate::tensor::{
    lemma_tensor_extent, lemma_tensors_extent, spec_read_tensor_info, spec_read_tensors,
    TensorModel,
};
use crate::value::{
    lemma_value_extent, lemma_values_extent, spec_read_value, spec_read_values, ValueModel,
    MAX_ARRAY_DEPTH,
};
use vstd::prelude::*;
use vstd::utf8::{decode_utf8_encode_utf8, encode_utf8, valid_utf8};

verus! {

/// The bytes that a string occupies: the length prefix and the text.
pub open spec fn string_width(s: Seq<char>) -> nat {
    8 + encode_utf8(s).len()
}

/// The bytes that a value occupies behind its type tag.
pub open spec fn value_width(v: ValueModel) -> nat
    decreases v,
{
    match v {
        ValueModel::U8(_) | ValueModel::I8(_) | ValueModel::Bool(_) => 1,
        ValueModel::U16(_) | ValueModel::I16(_) => 2,
        ValueModel::U32(_) | ValueModel::I32(_) | ValueModel::F32(_) => 4,
        ValueModel::U64(_) | ValueModel::I64(_) | ValueModel::F64(_) => 8,
        ValueModel::String(s) => string_width(s),
        ValueModel::Array(items) => 12 + values_width(items),
    }
}

/// The bytes that a run of values occupies.
pub open spec fn values_width(items: Seq<ValueModel>) -> nat
    decreases items,
{
    if items.len() == 0 {
        0
    } else {
        values_width(items.drop_last()) + value_width(items.last())
    }
}

/// The bytes that a metadata entry occupies: key, type tag, value.
pub open spec fn entry_width(e: EntryModel) -> nat {
    string_width(e.key) + 4 + value_width(e.value)
}

/// The bytes that a metadata table occupies.
pub open spec fn entries_width(entries: Seq<EntryModel>) -> nat
    decreases entries.len(),
{
    if entries.len() == 0 {
        0
    } else {
        entries_width(entries.drop_last()) + entry_width(entries.last())
    }
}

/// The bytes that a tensor descriptor occupies: name, dimension count,
/// extents, type code, payload offset.
pub open spec fn tensor_width(t: TensorModel) -> nat {
    string_width(t.name) + 4 + 8 * (t.n_dims as nat) + 4 + 8
}

/// The bytes that a tensor table occupies.
pub open spec fn tensors_width(tensors: Seq<TensorModel>) -> nat
    decreases tensors.len(),
{
    if tensors.len() == 0 {
        0
    } else {
        tensors_width(tensors.drop_last()) + tensor_width(tensors.last())
    }
}

/// A string that decodes occupies its width.
pub proof fn lemma_string_width(data: Seq<u8>, pos: int)
    ensures
        spec_read_string(data, pos) matches Ok((s, next)) ==> next - pos == string_width(s),
{
    if let Ok((len, start)) = spec_read_u64(data, pos) {
        if let Ok((text, next)) = spec_read_bytes(data, start, len as int) {
            if valid_utf8(text) {
                decode_utf8_encode_utf8(text);
            }
        }
    }
}

/// A value that decodes occupies its width.
pub proof fn lemma_value_width(data: Seq<u8>, pos: int, value_type: u32, depth: nat)
    ensures
        spec_read_value(data, pos, value_type, depth) matches Ok((v, next)) ==> next - pos
            == value_width(v),
    decreases depth, 0nat,
{
    if value_type == 8 {
        lemma_string_width(data, pos);
    } else if value_type == 9 && depth > 0 {
        if let Ok((element_type, at_count)) = spec_read_u32(data, pos) {
            if let Ok((count, at_first)) = spec_read_u64(data, at_count) {
                lemma_values_width(data, at_first, element_type, count as nat, (depth - 1) as nat);
            }
        }
    }
}

/// A run of values that decodes occupies the sum of their widths.
pub proof fn lemma_values_width(
    data: Seq<u8>,
    pos: int,
    element_type: u32,
    count: nat,
    depth: nat,
)
    ensures
        spec_read_values(data, pos, element_type, count, depth) matches Ok((vs, next)) ==> next
            - pos == values_width(vs),
    decreases depth, count + 1,
{
    if count > 0 {
        lemma_values_width(data, pos, element_type, (count - 1) as nat, depth);
        if let Ok((front, at_last)) = spec_read_values(
            data,
            pos,
            element_type,
            (count - 1) as nat,
            depth,
        ) {
            lemma_value_width(data, at_last, element_type, depth);
            if let Ok((v, next)) = spec_read_value(data, at_last, element_type, depth) {
                let vs = front.push(v);
                assert(vs.drop_last() =~= front);
                assert(vs.last() == v);
            }
        }
    } else {
        assert(values_width(Seq::<ValueModel>::empty()) == 0);
    }
}

/// An entry that decodes occupies its width.
pub proof fn lemma_entry_width(data: Seq<u8>, pos: int)
    ensures
        spec_read_metadata_kv(data, pos) matches Ok((e, next)) ==> next - pos == entry_width(e),
{
    lemma_string_width(data, pos);
    if let Ok((_, at_tag)) = spec_read_string(data, pos) {
        if let Ok((value_type, at_value)) = spec_read_u32(data, at_tag) {
            lemma_value_width(data, at_value, value_type, MAX_ARRAY_DEPTH as nat);
        }
    }
}

/// A run of entries that decodes occupies the sum of their widths.
pub proof fn lemma_entries_width(data: Seq<u8>, pos: int, count: nat)
    ensures
        spec_read_entries(data, pos, count) matches Ok((es, next)) ==> next - pos
            == entries_width(es),
    decreases count,
{
    if count > 0 {
        lemma_entries_width(data, pos, (count - 1) as nat);
        if let Ok((front, at_last)) = spec_read_entries(data, pos, (count - 1) as nat) {
            lemma_entry_width(data, at_last);
            if let Ok((e, next)) = spec_read_metadata_kv(data, at_last) {
                let es = front.push(e);
                assert(es.drop_last() =~= front);
                assert(es.last() == e);
            }
        }
    } else {
        assert(entries_width(Seq::<EntryModel>::empty()) == 0);
    }
}

/// A descriptor that decodes occupies its width.
pub proof fn lemma_tensor_width(data: Seq<u8>, pos: int)
    ensures
        spec_read_tensor_info(data, pos) matches Ok((t, next)) ==> next - pos == tensor_width(t),
{
    lemma_string_width(data, pos);
}

/// A run of descriptors that decodes occupies the sum of their widths.
pub proof fn lemma_tensors_width(data: Seq<u8>, pos: int, count: nat)
    ensures
        spec_read_tensors(data, pos, count) matches Ok((ts, next)) ==> next - pos
            == tensors_width(ts),
    decreases count,
{
    if count > 0 {
        lemma_tensors_width(data, pos, (count - 1) as nat);
        if let Ok((front, at_last)) = spec_read_tensors(data, pos, (count - 1) as nat) {
            lemma_tensor_width(data, at_last);
            if let Ok((t, next)) = spec_read_tensor_info(data, at_last) {
                let ts = front.push(t);
                assert(ts.drop_last() =~= front);
                assert(ts.last() == t);
            }
        }
    } else {
        assert(tensors_width(Seq::<TensorModel>::empty()) == 0);
    }
}

/// The bytes that a decode consumes are exactly the 24 bytes of magic number
/// and header and the widths of the fields of every entry and descriptor that
/// the file holds; they lie inside the input. What follows the tables has no
/// part in the count.
pub proof fn lemma_consumed_is_sum_of_widths(data: Seq<u8>)
    ensures
        spec_parse_gguf(data) matches Ok(p) ==> {
            &&& p.consumed == 24 + entries_width(p.file.metadata) + tensors_width(p.file.tensors)
            &&& p.consumed <= data.len()
        },
{
    if let Ok((header, at_entries)) = spec_read_header(data) {
        lemma_entries_width(data, at_entries, header.metadata_kv_count as nat);
        lemma_entries_extent(data, at_entries, header.metadata_kv_count as nat);
        if let Ok((_, at_tensors)) = spec_read_entries(
            data,
            at_entries,
            header.metadata_kv_count as nat,
        ) {
            lemma_tensors_width(data, at_tensors, header.tensor_count as nat);
            lemma_tensors_extent(data, at_tensors, header.tensor_count as nat);
        }
    }
}

/// Decoding the start of a file and writing the header out again gives the
/// first 24 bytes of the file back: magic number, version and both counts.
pub proof fn lemma_header_round_trip(data: Seq<u8>)
    ensures
        spec_read_header(data) matches Ok((h, next)) ==> next == 24 && header_bytes(h)
            == data.subrange(0, 24),
        spec_parse_gguf(data) matches Ok(p) ==> header_bytes(p.file.header) == data.subrange(
            0,
            24,
        ),
{
    if let Ok((h, next)) = spec_read_header(data) {
        lemma_le_bytes_of_u32(data.subrange(0, 4));
        lemma_le_bytes_of_u32(data.subrange(4, 8));
        lemma_le_bytes_of_u64(data.subrange(8, 16));
        lemma_le_bytes_of_u64(data.subrange(16, 24));
        assert(data.subrange(0, 4).subrange(0, 4) =~= data.subrange(0, 4));
        assert(data.subrange(4, 8).subrange(0, 4) =~= data.subrange(4, 8));
        assert(data.subrange(8, 16).subrange(0, 8) =~= data.subrange(8, 16));
        assert(data.subrange(16, 24).subrange(0, 8) =~= data.subrange(16, 24));
        assert(header_bytes(h) =~= data.subrange(0, 24));
    }
}

/// Writing a header out and decoding what was written gives the header back,
/// whatever follows it.
pub proof fn lemma_header_bytes_decode(h: GGUFHeader, rest: Seq<u8>)
    ensures
        header_bytes(h).len() == 24,
        spec_read_header(header_bytes(h) + rest) == Ok::<(GGUFHeader, int), DecodeError>((h, 24)),
{
    lemma_le_u32_of_bytes(GGUF_MAGIC);
    lemma_le_u32_of_bytes(h.version);
    lemma_le_u64_of_bytes(h.tensor_count);
    lemma_le_u64_of_bytes(h.metadata_kv_count);
    let data = header_bytes(h) + rest;
    assert(data.subrange(0, 4) =~= le_bytes_u32(GGUF_MAGIC));
    assert(data.subrange(4, 8) =~= le_bytes_u32(h.version));
    assert(data.subrange(8, 16) =~= le_bytes_u64(h.tensor_count));
    assert(data.subrange(16, 24) =~= le_bytes_u64(h.metadata_kv_count));
}

/// The inputs `a` and `b` are the same in their first `k` bytes.
pub open spec fn agree_up_to(a: Seq<u8>, b: Seq<u8>, k: int) -> bool {
    &&& 0 <= k <= a.len()
    &&& k <= b.len()
    &&& forall|i: int| 0 <= i < k ==> a[i] == b[i]
}

/// A read of one input carries over to another input that agrees with it in
/// the first `k` bytes. A successful read that ends inside those bytes comes
/// out the same, and one that ends behind them is `Truncated` when the other
/// input stops there. A failed read comes out the same when the first input
/// stops at `k` and the failure is not that bytes are missing.
pub open spec fn follows<T>(
    read_a: Result<(T, int), DecodeError>,
    read_b: Result<(T, int), DecodeError>,
    k: int,
    len_a: int,
    len_b: int,
) -> bool {
    match read_a {
        Ok((_, next)) => if next <= k {
            read_b == read_a
        } else {
            len_b == k ==> read_b == Err::<(T, int), DecodeError>(DecodeError::Truncated)
        },
        Err(e) => len_a == k && e != DecodeError::Truncated ==> read_b == read_a,
    }
}

/// Reading a run of bytes carries over.
pub proof fn lemma_bytes_follow(a: Seq<u8>, b: Seq<u8>, k: int, pos: int, n: int)
    requires
        agree_up_to(a, b, k),
    ensures
        follows(
            spec_read_bytes(a, pos, n),
            spec_read_bytes(b, pos, n),
            k,
            a.len() as int,
            b.len() as int,
        ),
{
    if let Ok((bytes, next)) = spec_read_bytes(a, pos, n) {
        if next <= k {
            assert(a.subrange(pos, pos + n) =~= b.subrange(pos, pos + n));
        }
    }
}

/// Reading a scalar of any kind carries over.
pub proof fn lemma_scalars_follow(a: Seq<u8>, b: Seq<u8>, k: int, pos: int)
    requires
        agree_up_to(a, b, k),
    ensures
        follows(spec_read_u8(a, pos), spec_read_u8(b, pos), k, a.len() as int, b.len() as int),
        follows(spec_read_i8(a, pos), spec_read_i8(b, pos), k, a.len() as int, b.len() as int),
        follows(spec_read_bool(a, pos), spec_read_bool(b, pos), k, a.len() as int, b.len() as int),
        follows(spec_read_u16(a, pos), spec_read_u16(b, pos), k, a.len() as int, b.len() as int),
        follows(spec_read_i16(a, pos), spec_read_i16(b, pos), k, a.len() as int, b.len() as int),
        follows(spec_read_u32(a, pos), spec_read_u32(b, pos), k, a.len() as int, b.len() as int),
        follows(spec_read_i32(a, pos), spec_read_i32(b, pos), k, a.len() as int, b.len() as int),
        follows(spec_read_u64(a, pos), spec_read_u64(b, pos), k, a.len() as int, b.len() as int),
        follows(spec_read_i64(a, pos), spec_read_i64(b, pos), k, a.len() as int, b.len() as int),
{
    lemma_bytes_follow(a, b, k, pos, 1);
    lemma_bytes_follow(a, b, k, pos, 2);
    lemma_bytes_follow(a, b, k, pos, 4);
    lemma_bytes_follow(a, b, k, pos, 8);
}

/// Reading a string carries over.
pub proof fn lemma_string_follows(a: Seq<u8>, b: Seq<u8>, k: int, pos: int)
    requires
        agree_up_to(a, b, k),
    ensures
        follows(
            spec_read_string(a, pos),
            spec_read_string(b, pos),
            k,
            a.len() as int,
            b.len() as int,
        ),
{
    lemma_scalars_follow(a, b, k, pos);
    if let Ok((len, start)) = spec_read_u64(a, pos) {
        lemma_bytes_follow(a, b, k, start, len as int);
    }
}

/// Reading a value carries over.
pub proof fn lemma_value_follows(
    a: Seq<u8>,
    b: Seq<u8>,
    k: int,
    pos: int,
    value_type: u32,
    depth: nat,
)
    requires
        agree_up_to(a, b, k),
    ensures
        follows(
            spec_read_value(a, pos, value_type, depth),
            spec_read_value(b, pos, value_type, depth),
            k,
            a.len() as int,
            b.len() as int,
        ),
    decreases depth, 0nat,
{
    lemma_scalars_follow(a, b, k, pos);
    if value_type == 8 {
        lemma_string_follows(a, b, k, pos);
    } else if value_type == 9 && depth > 0 {
        if let Ok((element_type, at_count)) = spec_read_u32(a, pos) {
            lemma_scalars_follow(a, b, k, at_count);
            if let Ok((count, at_first)) = spec_read_u64(a, at_count) {
                lemma_values_follow(
                    a,
                    b,
                    k,
                    at_first,
                    element_type,
                    count as nat,
                    (depth - 1) as nat,
                );
                lemma_values_extent(a, at_first, element_type, count as nat, (depth - 1) as nat);
            }
        }
    }
}

/// Reading a run of values carries over. An empty run reads nothing, so it
/// carries over only where it stands inside the common bytes.
pub proof fn lemma_values_follow(
    a: Seq<u8>,
    b: Seq<u8>,
    k: int,
    pos: int,
    element_type: u32,
    count: nat,
    depth: nat,
)
    requires
        agree_up_to(a, b, k),
    ensures
        count > 0 || pos <= k ==> follows(
            spec_read_values(a, pos, element_type, count, depth),
            spec_read_values(b, pos, element_type, count, depth),
            k,
            a.len() as int,
            b.len() as int,
        ),
    decreases depth, count + 1,
{
    if count > 0 {
        lemma_values_follow(a, b, k, pos, element_type, (count - 1) as nat, depth);
        lemma_values_extent(a, pos, element_type, (count - 1) as nat, depth);
        let front = spec_read_values(a, pos, element_type, (count - 1) as nat, depth);
        if let Ok((_, at_last)) = front {
            lemma_value_follows(a, b, k, at_last, element_type, depth);
            lemma_value_extent(a, at_last, element_type, depth);
        }
    }
}

/// Reading a metadata entry carries over.
pub proof fn lemma_entry_follows(a: Seq<u8>, b: Seq<u8>, k: int, pos: int)
    requires
        agree_up_to(a, b, k),
    ensures
        follows(
            spec_read_metadata_kv(a, pos),
            spec_read_metadata_kv(b, pos),
            k,
            a.len() as int,
            b.len() as int,
        ),
{
    lemma_string_follows(a, b, k, pos);
    if let Ok((_, at_tag)) = spec_read_string(a, pos) {
        lemma_scalars_follow(a, b, k, at_tag);
        if let Ok((value_type, at_value)) = spec_read_u32(a, at_tag) {
            lemma_value_follows(a, b, k, at_value, value_type, MAX_ARRAY_DEPTH as nat);
            lemma_value_extent(a, at_value, value_type, MAX_ARRAY_DEPTH as nat);
        }
    }
}

/// Reading a run of entries carries over; an empty run as for values.
pub proof fn lemma_entries_follow(a: Seq<u8>, b: Seq<u8>, k: int, pos: int, count: nat)
    requires
        agree_up_to(a, b, k),
    ensures
        count > 0 || pos <= k ==> follows(
            spec_read_entries(a, pos, count),
            spec_read_entries(b, pos, count),
            k,
            a.len() as int,
            b.len() as int,
        ),
    decreases count,
{
    if count > 0 {
        lemma_entries_follow(a, b, k, pos, (count - 1) as nat);
        if let Ok((_, at_last)) = spec_read_entries(a, pos, (count - 1) as nat) {
            lemma_entry_follows(a, b, k, at_last);
            lemma_entry_extent(a, at_last);
        }
    }
}

/// Reading a tensor descriptor carries over.
pub proof fn lemma_tensor_follows(a: Seq<u8>, b: Seq<u8>, k: int, pos: int)
    requires
        agree_up_to(a, b, k),
    ensures
        follows(
            spec_read_tensor_info(a, pos),
            spec_read_tensor_info(b, pos),
            k,
            a.len() as int,
            b.len() as int,
        ),
{
    lemma_string_follows(a, b, k, pos);
    if let Ok((_, at_dims)) = spec_read_string(a, pos) {
        lemma_scalars_follow(a, b, k, at_dims);
        if let Ok((n_dims, at_shape)) = spec_read_u32(a, at_dims) {
            lemma_bytes_follow(a, b, k, at_shape, 8 * n_dims);
            if let Ok((_, at_type)) = spec_read_bytes(a, at_shape, 8 * n_dims) {
                lemma_scalars_follow(a, b, k, at_type);
                if let Ok((_, at_offset)) = spec_read_u32(a, at_type) {
                    lemma_scalars_follow(a, b, k, at_offset);
                }
            }
        }
    }
}

/// Reading a run of descriptors carries over; an empty run as for values.
pub proof fn lemma_tensors_follow(a: Seq<u8>, b: Seq<u8>, k: int, pos: int, count: nat)
    requires
        agree_up_to(a, b, k),
    ensures
        count > 0 || pos <= k ==> follows(
            spec_read_tensors(a, pos, count),
            spec_read_tensors(b, pos, count),
            k,
            a.len() as int,
            b.len() as int,
        ),
    decreases count,
{
    if count > 0 {
        lemma_tensors_follow(a, b, k, pos, (count - 1) as nat);
        if let Ok((_, at_last)) = spec_read_tensors(a, pos, (count - 1) as nat) {
            lemma_tensor_follows(a, b, k, at_last);
            lemma_tensor_extent(a, at_last);
        }
    }
}

/// Reading the header carries over.
pub proof fn lemma_header_follows(a: Seq<u8>, b: Seq<u8>, k: int)
    requires
        agree_up_to(a, b, k),
    ensures
        follows(spec_read_header(a), spec_read_header(b), k, a.len() as int, b.len() as int),
{
    lemma_scalars_follow(a, b, k, 0);
    lemma_scalars_follow(a, b, k, 4);
    lemma_scalars_follow(a, b, k, 8);
    lemma_scalars_follow(a, b, k, 16);
}

/// The decode of `a` settles the decode of every input `b` that agrees with
/// `a` in the first `k` bytes. Where it succeeds and the tables end inside
/// those bytes the outcome is the same, and where they end behind them and `b`
/// stops there the outcome is `Truncated`. Where it fails, `a` stops at `k`
/// and the failure is not that bytes are missing, the outcome is the same.
pub proof fn lemma_parse_follows(a: Seq<u8>, b: Seq<u8>, k: int)
    requires
        agree_up_to(a, b, k),
    ensures
        match spec_parse_gguf(a) {
            Ok(p) => if p.consumed <= k {
                spec_parse_gguf(b) == spec_parse_gguf(a)
            } else {
                b.len() == k ==> spec_parse_gguf(b) == Err::<ParsedModel, DecodeError>(
                    DecodeError::Truncated,
                )
            },
            Err(e) => a.len() == k && e != DecodeError::Truncated ==> spec_parse_gguf(b)
                == spec_parse_gguf(a),
        },
{
    lemma_header_follows(a, b, k);
    if let Ok((header, at_entries)) = spec_read_header(a) {
        let entries = header.metadata_kv_count as nat;
        lemma_entries_follow(a, b, k, at_entries, entries);
        lemma_entries_extent(a, at_entries, entries);
        if let Ok((_, at_tensors)) = spec_read_entries(a, at_entries, entries) {
            let tensors = header.tensor_count as nat;
            lemma_tensors_follow(a, b, k, at_tensors, tensors);
            lemma_tensors_extent(a, at_tensors, tensors);
        }
    }
}

/// The decoder never looks behind the tables: two inputs that are the same up
/// to where the tables of the first end decode to the same outcome, whatever
/// payload follows in either and however long it is.
pub proof fn lemma_payload_is_never_read(a: Seq<u8>, b: Seq<u8>)
    requires
        spec_parse_gguf(a) matches Ok(p) && agree_up_to(a, b, p.consumed),
    ensures
        spec_parse_gguf(b) == spec_parse_gguf(a),
{
    lemma_parse_follows(a, b, spec_parse_gguf(a)->Ok_0.consumed);
}

/// A verdict on the start of an input stands for the whole input, unless the
/// verdict is that bytes are missing. So a caller may decode what it has read
/// so far and read on only when told `Truncated`.
pub proof fn lemma_verdict_on_a_start_is_final(start: Seq<u8>, rest: Seq<u8>)
    requires
        spec_parse_gguf(start) != Err::<ParsedModel, DecodeError>(DecodeError::Truncated),
    ensures
        spec_parse_gguf(start + rest) == spec_parse_gguf(start),
{
    lemma_consumed_is_sum_of_widths(start);
    lemma_parse_follows(start, start + rest, start.len() as int);
}

/// Cutting a well-formed file off anywhere before the end of its tables
/// makes the decode fail with `Truncated`; no value is made up for the
/// missing bytes.
pub proof fn lemma_truncation_is_reported(a: Seq<u8>, k: int)
    requires
        spec_parse_gguf(a) matches Ok(p) && 0 <= k < p.consumed,
    ensures
        spec_parse_gguf(a.subrange(0, k)) == Err::<ParsedModel, DecodeError>(
            DecodeError::Truncated,
        ),
{
    lemma_consumed_is_sum_of_widths(a);
    lemma_parse_follows(a, a.subrange(0, k), k);
}

} // verus!
