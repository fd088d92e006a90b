//! Error taxonomy of the embedding pipeline. Each variant identifies the
//! stage that failed: tokenization, model loading, inference, internal
//! tensor shaping, or similarity scoring.

use vstd::prelude::*;

verus! {

/// The errors the pipeline can surface. None is retried; all are
/// unrecoverable for the request that raised them.
#[derive(Clone, Copy, Debug, PartialEq, Eq, Structural)]
pub enum EmbedError {
    /// The input batch was empty, the tokenizer resource failed to load,
    /// or a string could not be encoded.
    Tokenization,
    /// The model resource is missing or malformed, or its input signature
    /// does not match the three-input contract.
    ModelLoad,
    /// The inference run failed or produced an unexpected output.
    Inference,
    /// Encodings of differing length reached the tensor builder.
    ShapeMismatch,
    /// Similarity scoring was attempted on vectors of unequal length.
    DimensionMismatch,
}

impl EmbedError {
    /// A short description of the failing stage, for callers that report.
    pub fn describe(&self) -> (r: &'static str)
        ensures
            *self == EmbedError::Tokenization ==> r@ == "tokenization failed"@,
            *self == EmbedError::ModelLoad ==> r@ == "model load failed"@,
            *self == EmbedError::Inference ==> r@ == "inference failed"@,
            *self == EmbedError::ShapeMismatch ==> r@ == "encoding shape mismatch"@,
            *self == EmbedError::DimensionMismatch ==> r@ == "vector dimension mismatch"@,
    {
        match self {
            EmbedError::Tokenization => "tokenization failed",
            EmbedError::ModelLoad => "model load failed",
            EmbedError::Inference => "inference failed",
            EmbedError::ShapeMismatch => "encoding shape mismatch",
            EmbedError::DimensionMismatch => "vector dimension mismatch",
        }
    }
}

} // verus!
