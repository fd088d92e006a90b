//! Text-embedding pipeline: batch tokenization with padding, input-tensor
//! construction, pooling over attention masks, normalization, and cosine
//! similarity over fixed-point vectors.

pub mod encoding;
pub mod engine;
pub mod errors;
pub mod pooling;
pub mod tensor;
pub mod tokenizer;
pub mod vector;
