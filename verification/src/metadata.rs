//! Metadata entries: a key, a type tag, and the value that the tag announces.

use crate::error::DecodeError;
use crate::reader::{read_string, read_u32, spec_read_string, spec_read_u32, viewed};
use crate::value::{
    lemma_value_extent, read_value, spec_read_value, GGUFValue, ValueModel, MAX_ARRAY_DEPTH,
};
use vstd::prelude::*;

verus! {

/// One key/value pair of the metadata table. Keys need not be unique.
#[derive(Debug, Clone, PartialEq)]
pub struct MetadataKV {
    pub key: String,
    pub value: GGUFValue,
}

/// The mathematical content of a [`MetadataKV`].
pub struct EntryModel {
    pub key: Seq<char>,
    pub value: ValueModel,
}

impl View for MetadataKV {
    type V = EntryModel;

    open spec fn view(&self) -> EntryModel {
        EntryModel { key: self.key@, value: self.value@ }
    }
}

/// The views of a run of entries, in order.
pub open spec fn entries_view(entries: Seq<MetadataKV>) -> Seq<EntryModel> {
    Seq::new(entries.len(), |i: int| entries[i]@)
}

/// The entry that starts at `pos`: the key as a string, a `u32` type tag, then
/// one value of that kind. Whatever fails first is the entry's failure.
pub open spec fn spec_read_metadata_kv(data: Seq<u8>, pos: int) -> Result<
    (EntryModel, int),
    DecodeError,
> {
    match spec_read_string(data, pos) {
        Err(e) => Err(e),
        Ok((key, at_tag)) => match spec_read_u32(data, at_tag) {
            Err(e) => Err(e),
            Ok((value_type, at_value)) => match spec_read_value(
                data,
                at_value,
                value_type,
                MAX_ARRAY_DEPTH as nat,
            ) {
                Err(e) => Err(e),
                Ok((value, next)) => Ok((EntryModel { key, value }, next)),
            },
        },
    }
}

/// `count` entries, one behind the other from `pos`. The first failure among
/// them is the failure of the run.
pub open spec fn spec_read_entries(data: Seq<u8>, pos: int, count: nat) -> Result<
    (Seq<EntryModel>, int),
    DecodeError,
>
    decreases count,
{
    if count == 0 {
        Ok((Seq::empty(), pos))
    } else {
        match spec_read_entries(data, pos, (count - 1) as nat) {
            Err(e) => Err(e),
            Ok((front, at_last)) => match spec_read_metadata_kv(data, at_last) {
                Err(e) => Err(e),
                Ok((entry, next)) => Ok((front.push(entry), next)),
            },
        }
    }
}

/// Once a run of entries has failed, every longer run fails in the same way.
pub proof fn lemma_entries_failure_persists(data: Seq<u8>, pos: int, shorter: nat, longer: nat)
    requires
        shorter <= longer,
        spec_read_entries(data, pos, shorter) is Err,
    ensures
        spec_read_entries(data, pos, longer) == spec_read_entries(data, pos, shorter),
    decreases longer,
{
    if shorter < longer {
        lemma_entries_failure_persists(data, pos, shorter, (longer - 1) as nat);
    }
}

/// An entry that decodes ends behind its start and inside the input.
pub proof fn lemma_entry_extent(data: Seq<u8>, pos: int)
    ensures
        spec_read_metadata_kv(data, pos) matches Ok((_, next)) ==> 0 <= pos < next <= data.len(),
{
    if let Ok((_, at_tag)) = spec_read_string(data, pos) {
        if let Ok((value_type, at_value)) = spec_read_u32(data, at_tag) {
            lemma_value_extent(data, at_value, value_type, MAX_ARRAY_DEPTH as nat);
        }
    }
}

/// A run of entries that decodes ends at or behind its start, inside the
/// input when the start is.
pub proof fn lemma_entries_extent(data: Seq<u8>, pos: int, count: nat)
    ensures
        spec_read_entries(data, pos, count) matches Ok((_, next)) ==> pos <= next && (pos
            <= data.len() ==> next <= data.len()),
    decreases count,
{
    if count > 0 {
        lemma_entries_extent(data, pos, (count - 1) as nat);
        if let Ok((_, at_last)) = spec_read_entries(data, pos, (count - 1) as nat) {
            lemma_entry_extent(data, at_last);
        }
    }
}

/// Decodes one metadata entry at `pos`.
pub fn read_metadata_kv(data: &[u8], pos: usize) -> (r: Result<(MetadataKV, usize), DecodeError>)
    ensures
        viewed(r) == spec_read_metadata_kv(data@, pos as int),
{
    let (key, at_tag) = read_string(data, pos)?;
    let (value_type, at_value) = read_u32(data, at_tag)?;
    let (value, next) = read_value(data, at_value, value_type)?;
    Ok((MetadataKV { key, value }, next))
}

} // verus!
