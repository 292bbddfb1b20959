//! Pre-built transformer architectures.
//!
//! Each model is a plain struct of weight tensors, loaded from a safetensors
//! file under the names that HuggingFace gives them.

pub mod accepted;
pub mod bert;
pub mod forward;
pub mod generate;
pub mod gpt2;
pub mod held;
pub mod plan;
pub mod renamed;
pub mod t5;
