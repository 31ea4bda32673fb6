//! A read-only decoder for the GGUF model container format.
//!
//! Given the leading bytes of a GGUF file, the library reconstructs the header,
//! the typed key/value metadata table and the tensor descriptor table, and
//! reports where the tensor payload begins. The payload itself is never read.
//!
//! Every decoder takes the input as a byte slice together with a position and
//! returns the decoded item with the position that follows it. Each one is
//! specified by a `spec_*` function over `Seq<u8>` that says, for every input,
//! which value or which error is the answer.

pub mod byte_size;
pub mod display;
pub mod error;
pub mod file;
pub mod laws;
pub mod little_endian;
pub mod metadata;
pub mod reader;
pub mod tensor;
pub mod tensor_type;
pub mod value;
