//! The file-level decoder: magic, header, metadata table, tensor table, and
//! the start of the tensor payload.

use crate::error::DecodeError;
use crate::little_endian::{le_bytes_u32, le_bytes_u64, put_u32, put_u64};
use crate::metadata::{
    entries_view, lemma_entries_failure_persists, lemma_entry_extent, read_metadata_kv,
    spec_read_entries, EntryModel, MetadataKV,
};
use crate::reader::{plain, read_u32, read_u64, spec_read_u32, spec_read_u64};
use crate::tensor::{
    lemma_tensor_extent, lemma_tensors_failure_persists, read_tensor_info, spec_read_tensors,
    tensors_view, TensorInfo, TensorModel,
};
use crate::value::{GGUFValue, ValueModel};
use vstd::prelude::*;

verus! {

/// The four bytes `G`, `G`, `U`, `F`, read as a little-endian number.
pub const GGUF_MAGIC: u32 = 0x4655_4747;

/// The alignment that applies when the metadata does not declare one.
pub const DEFAULT_ALIGNMENT: u32 = 32;

/// The fixed header behind the magic number. The two counts are taken from
/// the file as they are; they bound the tables that follow.
#[derive(Debug, Clone, Copy, PartialEq, Eq, Structural)]
pub struct GGUFHeader {
    pub version: u32,
    pub tensor_count: u64,
    pub metadata_kv_count: u64,
}

/// Everything that the file says ahead of the tensor payload, in file order.
#[derive(Debug, Clone, PartialEq)]
pub struct GGUFMeta {
    pub header: GGUFHeader,
    pub metadata: Vec<MetadataKV>,
    pub tensors: Vec<TensorInfo>,
}

/// The mathematical content of a [`GGUFMeta`].
pub struct FileModel {
    pub header: GGUFHeader,
    pub metadata: Seq<EntryModel>,
    pub tensors: Seq<TensorModel>,
}

impl View for GGUFMeta {
    type V = FileModel;

    open spec fn view(&self) -> FileModel {
        FileModel {
            header: self.header,
            metadata: entries_view(self.metadata@),
            tensors: tensors_view(self.tensors@),
        }
    }
}

impl FileModel {
    /// Both tables have the length that the header declares, and every
    /// descriptor's derived fields agree with its stored ones.
    pub open spec fn wf(self) -> bool {
        &&& self.metadata.len() == self.header.metadata_kv_count
        &&& self.tensors.len() == self.header.tensor_count
        &&& forall|i: int| 0 <= i < self.tensors.len() ==> (#[trigger] self.tensors[i]).wf()
    }
}

/// The outcome of decoding a file.
#[derive(Debug, Clone, PartialEq)]
pub struct ParsedFile {
    pub meta: GGUFMeta,
    /// The number of bytes that the header and the two tables occupy.
    pub consumed: usize,
    /// Where the tensor payload begins, counted from the start of the file;
    /// `None` when the declared alignment is zero or the position does not
    /// fit a `u64`.
    pub tensor_data_offset: Option<u64>,
}

/// The mathematical content of a [`ParsedFile`].
pub struct ParsedModel {
    pub file: FileModel,
    pub consumed: int,
    pub tensor_data_offset: Option<u64>,
}

impl View for ParsedFile {
    type V = ParsedModel;

    open spec fn view(&self) -> ParsedModel {
        ParsedModel {
            file: self.meta@,
            consumed: self.consumed as int,
            tensor_data_offset: self.tensor_data_offset,
        }
    }
}

/// What an executable decode returned, with the outcome replaced by its view.
pub open spec fn outcome(r: Result<ParsedFile, DecodeError>) -> Result<ParsedModel, DecodeError> {
    match r {
        Ok(p) => Ok(p@),
        Err(e) => Err(e),
    }
}

/// The 24 bytes at the start of a file with header `h`.
pub open spec fn header_bytes(h: GGUFHeader) -> Seq<u8> {
    le_bytes_u32(GGUF_MAGIC) + le_bytes_u32(h.version) + le_bytes_u64(h.tensor_count)
        + le_bytes_u64(h.metadata_kv_count)
}

/// The magic number and the header at the start of `data`. A first word other
/// than the magic number is `BadMagic`, with both words.
pub open spec fn spec_read_header(data: Seq<u8>) -> Result<(GGUFHeader, int), DecodeError> {
    match spec_read_u32(data, 0) {
        Err(e) => Err(e),
        Ok((magic, at_version)) => if magic != GGUF_MAGIC {
            Err(DecodeError::BadMagic { expected: GGUF_MAGIC, actual: magic })
        } else {
            match spec_read_u32(data, at_version) {
                Err(e) => Err(e),
                Ok((version, at_tensors)) => match spec_read_u64(data, at_tensors) {
                    Err(e) => Err(e),
                    Ok((tensor_count, at_entries)) => match spec_read_u64(data, at_entries) {
                        Err(e) => Err(e),
                        Ok((metadata_kv_count, next)) => Ok(
                            (GGUFHeader { version, tensor_count, metadata_kv_count }, next),
                        ),
                    },
                },
            }
        },
    }
}

/// The key under which a file declares its alignment.
pub open spec fn alignment_key() -> Seq<char> {
    "general.alignment"@
}

/// The alignment that a metadata table asks for: the value of the first entry
/// whose key is exactly `general.alignment`, if that value is a `u32`; in
/// every other case the default.
pub open spec fn spec_alignment(metadata: Seq<EntryModel>) -> u32
    decreases metadata.len(),
{
    if metadata.len() == 0 {
        DEFAULT_ALIGNMENT
    } else if metadata[0].key == alignment_key() {
        match metadata[0].value {
            ValueModel::U32(v) => v,
            _ => DEFAULT_ALIGNMENT,
        }
    } else {
        spec_alignment(metadata.drop_first())
    }
}

/// The bytes to skip from `position` to reach the next multiple of
/// `alignment`.
pub open spec fn spec_padding(position: int, alignment: int) -> int
    recommends
        alignment > 0,
{
    (alignment - position % alignment) % alignment
}

/// The start of the tensor payload for a file whose tables end at `position`,
/// where it can be computed.
pub open spec fn spec_tensor_data_offset(position: int, alignment: u32) -> Option<u64> {
    if alignment == 0 || position < 0 || position + spec_padding(position, alignment as int)
        > u64::MAX {
        None
    } else {
        Some((position + spec_padding(position, alignment as int)) as u64)
    }
}

/// The whole decode: header, then as many entries and descriptors as the
/// header declares, then the payload's start. Whatever fails first is the
/// failure of the decode.
pub open spec fn spec_parse_gguf(data: Seq<u8>) -> Result<ParsedModel, DecodeError> {
    match spec_read_header(data) {
        Err(e) => Err(e),
        Ok((header, at_entries)) => match spec_read_entries(
            data,
            at_entries,
            header.metadata_kv_count as nat,
        ) {
            Err(e) => Err(e),
            Ok((metadata, at_tensors)) => match spec_read_tensors(
                data,
                at_tensors,
                header.tensor_count as nat,
            ) {
                Err(e) => Err(e),
                Ok((tensors, consumed)) => Ok(
                    ParsedModel {
                        file: FileModel { header, metadata, tensors },
                        consumed,
                        tensor_data_offset: spec_tensor_data_offset(
                            consumed,
                            spec_alignment(metadata),
                        ),
                    },
                ),
            },
        },
    }
}

/// Reads the magic number and the fixed header from the start of `data`.
pub fn read_header(data: &[u8]) -> (r: Result<(GGUFHeader, usize), DecodeError>)
    ensures
        plain(r) == spec_read_header(data@),
{
    let (magic, at_version) = read_u32(data, 0)?;
    if magic != GGUF_MAGIC {
        return Err(DecodeError::BadMagic { expected: GGUF_MAGIC, actual: magic });
    }
    let (version, at_tensors) = read_u32(data, at_version)?;
    let (tensor_count, at_entries) = read_u64(data, at_tensors)?;
    let (metadata_kv_count, next) = read_u64(data, at_entries)?;
    Ok((GGUFHeader { version, tensor_count, metadata_kv_count }, next))
}

/// Writes the magic number and `header` as they stand at the start of a file.
pub fn encode_header(header: &GGUFHeader) -> (bytes: Vec<u8>)
    ensures
        bytes@ == header_bytes(*header),
{
    let mut bytes: Vec<u8> = Vec::new();
    put_u32(&mut bytes, GGUF_MAGIC);
    put_u32(&mut bytes, header.version);
    put_u64(&mut bytes, header.tensor_count);
    put_u64(&mut bytes, header.metadata_kv_count);
    assert(bytes@ =~= header_bytes(*header));
    bytes
}

/// Looks the alignment up in a decoded metadata table.
pub fn resolve_alignment(metadata: &Vec<MetadataKV>) -> (alignment: u32)
    ensures
        alignment == spec_alignment(entries_view(metadata@)),
{
    let key: String = "general.alignment".to_owned();
    let ghost all = entries_view(metadata@);
    let mut i: usize = 0;
    assert(all.skip(0) =~= all);
    while i < metadata.len()
        invariant
            i <= metadata@.len(),
            all == entries_view(metadata@),
            key@ == alignment_key(),
            spec_alignment(all) == spec_alignment(all.skip(i as int)),
        decreases metadata@.len() - i,
    {
        let ghost rest = all.skip(i as int);
        assert(rest[0] == metadata@[i as int]@);
        assert(rest.drop_first() =~= all.skip(i + 1));
        if metadata[i].key == key {
            return match &metadata[i].value {
                GGUFValue::U32(v) => *v,
                _ => DEFAULT_ALIGNMENT,
            };
        }
        i += 1;
    }
    DEFAULT_ALIGNMENT
}

/// The bytes to skip from `position` to reach the next multiple of
/// `alignment`.
pub fn alignment_padding(position: u64, alignment: u64) -> (padding: u64)
    requires
        alignment > 0,
    ensures
        padding == spec_padding(position as int, alignment as int),
        padding < alignment,
        (position + padding) % (alignment as int) == 0,
{
    let over = position % alignment;
    let padding = (alignment - over) % alignment;
    proof {
        lemma_padding_aligns(position as int, alignment as int);
    }
    padding
}

/// The padding is the least step from `position` to a multiple of
/// `alignment`.
pub proof fn lemma_padding_aligns(position: int, alignment: int)
    requires
        position >= 0,
        alignment > 0,
    ensures
        0 <= spec_padding(position, alignment) < alignment,
        (position + spec_padding(position, alignment)) % alignment == 0,
{
    let over = position % alignment;
    let whole = position / alignment;
    assert(position == alignment * whole + over && 0 <= over < alignment) by (nonlinear_arith)
        requires
            alignment > 0,
            over == position % alignment,
            whole == position / alignment,
    ;
    if over == 0 {
        assert(alignment % alignment == 0) by (nonlinear_arith)
            requires
                alignment > 0,
        ;
    } else {
        assert((alignment - over) % alignment == alignment - over) by (nonlinear_arith)
            requires
                0 < over < alignment,
        ;
        assert((alignment * whole + alignment) % alignment == 0) by (nonlinear_arith)
            requires
                alignment > 0,
        ;
    }
}

/// Where the tensor payload begins, given the position behind the tables and
/// the alignment.
pub fn tensor_data_offset(position: usize, alignment: u32) -> (offset: Option<u64>)
    ensures
        offset == spec_tensor_data_offset(position as int, alignment),
{
    if alignment == 0 {
        return None;
    }
    let padding = alignment_padding(position as u64, alignment as u64);
    (position as u64).checked_add(padding)
}

/// Decodes the header, the metadata table and the tensor table from the start
/// of `data`, and locates the tensor payload. Nothing behind the tables is
/// looked at.
#[verifier::loop_isolation(false)]
pub fn parse_gguf(data: &[u8]) -> (r: Result<ParsedFile, DecodeError>)
    ensures
        outcome(r) == spec_parse_gguf(data@),
        r matches Ok(p) ==> p@.file.wf() && p.consumed <= data@.len(),
{
    let (header, at_entries) = read_header(data)?;

    let mut metadata: Vec<MetadataKV> = Vec::new();
    let mut cur: usize = at_entries;
    let mut done: u64 = 0;
    assert(entries_view(metadata@) =~= Seq::empty());
    while done < header.metadata_kv_count
        invariant
            done <= header.metadata_kv_count,
            cur <= data@.len(),
            metadata@.len() == done,
            spec_read_entries(data@, at_entries as int, done as nat) == Ok::<
                (Seq<EntryModel>, int),
                DecodeError,
            >((entries_view(metadata@), cur as int)),
        decreases header.metadata_kv_count - done,
    {
        match read_metadata_kv(data, cur) {
            Ok((entry, next)) => {
                proof {
                    assert(entries_view(metadata@).push(entry@) =~= entries_view(
                        metadata@.push(entry),
                    ));
                    lemma_entry_extent(data@, cur as int);
                }
                metadata.push(entry);
                cur = next;
            },
            Err(e) => {
                proof {
                    lemma_entries_failure_persists(
                        data@,
                        at_entries as int,
                        (done + 1) as nat,
                        header.metadata_kv_count as nat,
                    );
                }
                return Err(e);
            },
        }
        done += 1;
    }
    let at_tensors = cur;

    let mut tensors: Vec<TensorInfo> = Vec::new();
    let mut done: u64 = 0;
    assert(tensors_view(tensors@) =~= Seq::empty());
    while done < header.tensor_count
        invariant
            done <= header.tensor_count,
            cur <= data@.len(),
            tensors@.len() == done,
            forall|i: int| 0 <= i < tensors@.len() ==> (#[trigger] tensors@[i])@.wf(),
            spec_read_tensors(data@, at_tensors as int, done as nat) == Ok::<
                (Seq<TensorModel>, int),
                DecodeError,
            >((tensors_view(tensors@), cur as int)),
        decreases header.tensor_count - done,
    {
        match read_tensor_info(data, cur) {
            Ok((tensor, next)) => {
                proof {
                    assert(tensors_view(tensors@).push(tensor@) =~= tensors_view(
                        tensors@.push(tensor),
                    ));
                    lemma_tensor_extent(data@, cur as int);
                }
                tensors.push(tensor);
                cur = next;
            },
            Err(e) => {
                proof {
                    lemma_tensors_failure_persists(
                        data@,
                        at_tensors as int,
                        (done + 1) as nat,
                        header.tensor_count as nat,
                    );
                }
                return Err(e);
            },
        }
        done += 1;
    }

    let alignment = resolve_alignment(&metadata);
    let tensor_data_offset = tensor_data_offset(cur, alignment);
    let meta = GGUFMeta { header, metadata, tensors };
    Ok(ParsedFile { meta, consumed: cur, tensor_data_offset })
}

} // verus!
