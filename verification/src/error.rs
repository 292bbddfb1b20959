//! Error types used across the crate.

use vstd::prelude::*;
use crate::text::push_text;

verus! {

/// Errors produced by the loader, the tokenizers and the model builders.
#[derive(Debug, Clone, PartialEq, Eq)]
pub enum Error {
    /// The byte buffer is too short to contain a safetensors header.
    HeaderTooShort,
    /// The header length prefix points past the end of the buffer.
    HeaderLengthOutOfBounds,
    /// The header bytes are not valid UTF-8.
    HeaderNotUtf8,
    /// The header JSON failed to parse. The static string gives a brief reason.
    InvalidHeader(&'static str),
    /// The dtype string in the header is not recognized.
    UnsupportedDtype,
    /// A tensor's data offsets point past the end of the payload.
    DataOffsetsOutOfBounds,
    /// No tensor with the requested name exists in the file.
    TensorNotFound,
    /// The requested dtype does not match the dtype stored on disk.
    DtypeMismatch,
    /// The byte slice is not properly aligned for the requested element type.
    Alignment,
    /// The byte length is not a multiple of the element size.
    UnevenLength,
    /// The declared tensor shape does not match the data byte length.
    ShapeDataMismatch,
    /// The tokenizer vocabulary or tokenizer request is invalid.
    InvalidTokenizer(&'static str),
    /// The model configuration or inference input is invalid.
    InvalidInput(&'static str),
}

/// Crate-wide result alias.
pub type Result<T> = core::result::Result<T, Error>;

/// What an error says.
pub open spec fn error_text(e: Error) -> Seq<char> {
    match e {
        Error::HeaderTooShort => "safetensors header is too short"@,
        Error::HeaderLengthOutOfBounds => "header length exceeds buffer size"@,
        Error::HeaderNotUtf8 => "header is not valid UTF-8"@,
        Error::InvalidHeader(s) => "invalid safetensors header: "@ + s@,
        Error::UnsupportedDtype => "unsupported tensor dtype"@,
        Error::DataOffsetsOutOfBounds => "tensor data offsets are out of bounds"@,
        Error::TensorNotFound => "tensor not found in model file"@,
        Error::DtypeMismatch => "tensor dtype does not match the requested type"@,
        Error::Alignment => "tensor data is not aligned for the requested type"@,
        Error::UnevenLength => "tensor byte length is not a multiple of element size"@,
        Error::ShapeDataMismatch => "declared shape does not match data length"@,
        Error::InvalidTokenizer(s) => "invalid tokenizer: "@ + s@,
        Error::InvalidInput(s) => "invalid input: "@ + s@,
    }
}

impl Error {
    /// What the error says.
    pub fn message(&self) -> (res: String)
        ensures
            res@ == error_text(*self),
    {
        let (what, detail): (&str, &str) = match self {
            Error::HeaderTooShort => ("safetensors header is too short", ""),
            Error::HeaderLengthOutOfBounds => ("header length exceeds buffer size", ""),
            Error::HeaderNotUtf8 => ("header is not valid UTF-8", ""),
            Error::InvalidHeader(s) => ("invalid safetensors header: ", *s),
            Error::UnsupportedDtype => ("unsupported tensor dtype", ""),
            Error::DataOffsetsOutOfBounds => ("tensor data offsets are out of bounds", ""),
            Error::TensorNotFound => ("tensor not found in model file", ""),
            Error::DtypeMismatch => ("tensor dtype does not match the requested type", ""),
            Error::Alignment => ("tensor data is not aligned for the requested type", ""),
            Error::UnevenLength => ("tensor byte length is not a multiple of element size", ""),
            Error::ShapeDataMismatch => ("declared shape does not match data length", ""),
            Error::InvalidTokenizer(s) => ("invalid tokenizer: ", *s),
            Error::InvalidInput(s) => ("invalid input: ", *s),
        };
        let mut out = String::new();
        push_text(&mut out, what);
        push_text(&mut out, detail);
        proof {
            reveal_strlit("");
            assert(out@ =~= what@ + detail@);
            assert(what@ + ""@ =~= what@);
        }
        out
    }
}

} // verus!
