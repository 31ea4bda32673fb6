//! Tensor descriptors: where a tensor lies and what it looks like.

use crate::error::DecodeError;
use crate::little_endian::{le_read_u64_into, le_u64_seq};
use crate::reader::{
    read_bytes, read_string, read_u32, read_u64, spec_read_bytes, spec_read_string, spec_read_u32,
    spec_read_u64, viewed,
};
use crate::tensor_type::{dtype_name, estimated_bytes, estimated_size, ggml_type_info, size_limit};
use vstd::prelude::*;

verus! {

/// The description of one tensor. The payload it points at is not touched.
#[derive(Debug, Clone, PartialEq)]
pub struct TensorInfo {
    pub name: String,
    /// The number of extents, as stored.
    pub n_dims: u32,
    /// The extents in stored order.
    pub shape: Vec<u64>,
    /// The tensor type code, as stored.
    pub type_code: u32,
    /// The display name of the type code.
    pub dtype: String,
    /// Where the payload starts, counted from the start of the data region.
    pub offset: u64,
    /// The storage estimate; derived, not stored in the file.
    pub size_in_bytes: u64,
}

/// The mathematical content of a [`TensorInfo`].
pub struct TensorModel {
    pub name: Seq<char>,
    pub n_dims: u32,
    pub shape: Seq<u64>,
    pub type_code: u32,
    pub dtype: Seq<char>,
    pub offset: u64,
    pub size_in_bytes: u64,
}

impl View for TensorInfo {
    type V = TensorModel;

    open spec fn view(&self) -> TensorModel {
        TensorModel {
            name: self.name@,
            n_dims: self.n_dims,
            shape: self.shape@,
            type_code: self.type_code,
            dtype: self.dtype@,
            offset: self.offset,
            size_in_bytes: self.size_in_bytes,
        }
    }
}

impl TensorModel {
    /// The derived fields agree with the stored ones: one extent per
    /// dimension, the name and the estimate that the table gives for the type
    /// code and the extents.
    pub open spec fn wf(self) -> bool {
        &&& self.shape.len() == self.n_dims
        &&& self.dtype == dtype_name(self.type_code)
        &&& self.size_in_bytes == estimated_size(self.type_code, self.shape)
    }
}

/// The views of a run of descriptors, in order.
pub open spec fn tensors_view(tensors: Seq<TensorInfo>) -> Seq<TensorModel> {
    Seq::new(tensors.len(), |i: int| tensors[i]@)
}

/// The descriptor that starts at `pos`: name, `u32` dimension count, that many
/// `u64` extents, `u32` type code, `u64` payload offset. When all of it is
/// there and the storage estimate exceeds a `u64`, the descriptor is refused
/// with `ResourceLimitExceeded`.
pub open spec fn spec_read_tensor_info(data: Seq<u8>, pos: int) -> Result<
    (TensorModel, int),
    DecodeError,
> {
    match spec_read_string(data, pos) {
        Err(e) => Err(e),
        Ok((name, at_dims)) => match spec_read_u32(data, at_dims) {
            Err(e) => Err(e),
            Ok((n_dims, at_shape)) => match spec_read_bytes(data, at_shape, 8 * n_dims) {
                Err(e) => Err(e),
                Ok((extents, at_type)) => match spec_read_u32(data, at_type) {
                    Err(e) => Err(e),
                    Ok((type_code, at_offset)) => match spec_read_u64(data, at_offset) {
                        Err(e) => Err(e),
                        Ok((offset, next)) => {
                            let shape = le_u64_seq(extents, n_dims as nat);
                            if estimated_size(type_code, shape) > size_limit() {
                                Err(DecodeError::ResourceLimitExceeded)
                            } else {
                                Ok(
                                    (
                                        TensorModel {
                                            name,
                                            n_dims,
                                            shape,
                                            type_code,
                                            dtype: dtype_name(type_code),
                                            offset,
                                            size_in_bytes: estimated_size(type_code, shape) as u64,
                                        },
                                        next,
                                    ),
                                )
                            }
                        },
                    },
                },
            },
        },
    }
}

/// `count` descriptors, one behind the other from `pos`. The first failure
/// among them is the failure of the run.
pub open spec fn spec_read_tensors(data: Seq<u8>, pos: int, count: nat) -> Result<
    (Seq<TensorModel>, int),
    DecodeError,
>
    decreases count,
{
    if count == 0 {
        Ok((Seq::empty(), pos))
    } else {
        match spec_read_tensors(data, pos, (count - 1) as nat) {
            Err(e) => Err(e),
            Ok((front, at_last)) => match spec_read_tensor_info(data, at_last) {
                Err(e) => Err(e),
                Ok((tensor, next)) => Ok((front.push(tensor), next)),
            },
        }
    }
}

/// Once a run of descriptors has failed, every longer run fails in the same
/// way.
pub proof fn lemma_tensors_failure_persists(data: Seq<u8>, pos: int, shorter: nat, longer: nat)
    requires
        shorter <= longer,
        spec_read_tensors(data, pos, shorter) is Err,
    ensures
        spec_read_tensors(data, pos, longer) == spec_read_tensors(data, pos, shorter),
    decreases longer,
{
    if shorter < longer {
        lemma_tensors_failure_persists(data, pos, shorter, (longer - 1) as nat);
    }
}

/// A descriptor that decodes ends behind its start and inside the input.
pub proof fn lemma_tensor_extent(data: Seq<u8>, pos: int)
    ensures
        spec_read_tensor_info(data, pos) matches Ok((_, next)) ==> 0 <= pos < next <= data.len(),
{
}

/// A run of descriptors that decodes ends at or behind its start, inside the
/// input when the start is.
pub proof fn lemma_tensors_extent(data: Seq<u8>, pos: int, count: nat)
    ensures
        spec_read_tensors(data, pos, count) matches Ok((_, next)) ==> pos <= next && (pos
            <= data.len() ==> next <= data.len()),
    decreases count,
{
    if count > 0 {
        lemma_tensors_extent(data, pos, (count - 1) as nat);
        if let Ok((_, at_last)) = spec_read_tensors(data, pos, (count - 1) as nat) {
            lemma_tensor_extent(data, at_last);
        }
    }
}

/// Decodes one tensor descriptor at `pos` and fills in the type's display name
/// and the storage estimate.
pub fn read_tensor_info(data: &[u8], pos: usize) -> (r: Result<(TensorInfo, usize), DecodeError>)
    ensures
        viewed(r) == spec_read_tensor_info(data@, pos as int),
        r matches Ok((t, _)) ==> t@.wf(),
{
    let (name, at_dims) = read_string(data, pos)?;
    let (n_dims, at_shape) = read_u32(data, at_dims)?;
    let needed: u64 = 8 * (n_dims as u64);
    if needed > (data.len() - at_shape) as u64 {
        return Err(DecodeError::Truncated);
    }
    let (extents, at_type) = read_bytes(data, at_shape, needed as usize)?;
    let mut shape: Vec<u64> = vec![0u64; n_dims as usize];
    le_read_u64_into(extents, &mut shape);
    let (type_code, at_offset) = read_u32(data, at_type)?;
    let (offset, next) = read_u64(data, at_offset)?;
    if estimated_bytes(type_code, shape.as_slice()).is_none() {
        return Err(DecodeError::ResourceLimitExceeded);
    }
    let (dtype, size_in_bytes) = ggml_type_info(type_code, shape.as_slice());
    Ok((TensorInfo { name, n_dims, shape, type_code, dtype, offset, size_in_bytes }, next))
}

} // verus!
