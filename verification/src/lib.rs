//! Tiny transformer inference.
//!
//! Loading, tokenizing and running small transformers, forward inference only.
//! The library never opens files: callers pass bytes in via
//! [`ModelFile::parse`].
//!
//! Tensors hold elements of any type `T`. Addition, multiplication and the other
//! operators come from the element type; functions that have no operator, such
//! as the exponential, are passed in by the caller. Contracts relate every result
//! to the results of these.

pub mod ascii;
pub mod bytes;
pub mod config;
pub mod convert;
mod cursor;
pub mod error;
pub mod exact;
pub mod header;
pub mod loader;
pub mod models;
pub mod num;
pub mod ops;
pub mod pipeline;
pub mod quant;
pub mod table;
pub mod tensor;
pub mod text;
pub mod tokenizer;
pub mod writer;

// Re-exports of the most-used types.
pub use error::{Error, Result};
pub use loader::{Dtype, ModelFile, TensorView};
pub use pipeline::Pipeline;
pub use quant::{QuantizedTensorI8, QuantizedTensorQ4, QuantizedTensorU8};
pub use tensor::{Shape, Tensor};
pub use tokenizer::bpe::BpeTokenizer;
pub use tokenizer::{EncodedInput, WordPieceOptions, WordPieceTokenizer};
