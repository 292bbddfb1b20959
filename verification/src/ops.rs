//! Forward-only tensor operations.
//!
//! Every op is a free function. Inputs are borrowed (`&Tensor`), outputs are
//! returned by value.

pub mod activations;
pub mod attention;
pub mod elementwise;
pub mod embedding;
pub mod layernorm;
pub mod linear;
pub mod matmul;
pub mod meaning;
pub mod quantized;
pub mod rms_norm;
pub mod rows;
pub mod softmax;
