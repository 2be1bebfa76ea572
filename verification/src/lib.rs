//! Integer core of a ternary (BitNet 1.58-bit) language model.
//!
//! Every weight is a trit in {-1, 0, +1}. This crate holds the parts of the
//! model that are pure integer and index logic, each with a contract proved
//! by Verus: trit clamping, the deterministic weight patterns, the integer
//! accumulation of a ternary matrix-vector product, row chunking, the
//! causal-mask select/scatter, the sliding-window KV cache and the
//! bookkeeping of greedy generation.

pub mod trit;
pub mod pattern;
pub mod linear;
pub mod embedding;
pub mod kv_cache;
pub mod mask;
pub mod generate;

pub use trit::Trit;
pub use linear::TernaryLinear;
pub use embedding::TokenEmbedding;
pub use kv_cache::{KvCache, KvCacheEntry};
