//! The ways in which decoding can fail.

use vstd::prelude::*;

verus! {

/// Why a decode stopped. Every error is final: nothing is returned besides it.
#[derive(Debug, Clone, Copy, PartialEq, Eq, Structural)]
pub enum DecodeError {
    /// The first four bytes are not the format's tag.
    BadMagic { expected: u32, actual: u32 },
    /// The input ended before a field was complete.
    Truncated,
    /// The bytes of a string are not valid UTF-8.
    InvalidEncoding,
    /// A value type tag outside the closed set `0..=12`; carries the tag.
    UnknownType(u32),
    /// Arrays are nested deeper than the decoder follows, or a tensor's
    /// extents describe more bytes than a `u64` can count.
    ResourceLimitExceeded,
}

} // verus!
