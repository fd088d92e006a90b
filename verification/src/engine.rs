//! Inference-engine support: validation of a loaded model's input/output
//! signature, detection of the output layout (per-token hidden states versus
//! pre-pooled sentence vectors), and the verified post-inference stages that
//! turn raw hidden states into normalized embeddings.
//!
//! The computation graph itself is executed by the unverified runtime around
//! this library; that runtime hands the declared shapes and the output
//! values to these functions as plain integers.

use vstd::prelude::*;
use crate::encoding::Encoding;
use crate::errors::EmbedError;
use crate::pooling::{mean_pool, pooled_comp, rect};
use crate::vector::{bounded, normalize, normalized_comp, COMP_BOUND, DIM_LIMIT};

verus! {

/// How the model's first output is laid out: one hidden vector per token
/// (`[batch, seq, hidden]`, to be mean-pooled) or one per text
/// (`[batch, hidden]`, already pooled). Resolved once, from the graph's
/// declared output shape.
#[derive(Clone, Copy, Debug, PartialEq, Eq, Structural)]
pub enum OutputLayout {
    PerToken { hidden: usize },
    Pooled { hidden: usize },
}

/// The number of input tensors the model must declare: ids, attention mask,
/// and token-type ids.
pub const REQUIRED_INPUTS: usize = 3;

/// The layout a declared output shape denotes, if any: three dimensions are
/// per-token hidden states, two are pre-pooled vectors; the trailing hidden
/// dimension must be a concrete positive size.
pub open spec fn layout_of(dims: Seq<i64>) -> Option<OutputLayout> {
    if dims.len() == 3 && 1 <= dims[2] <= 0xffffffffi64 {
        Some(OutputLayout::PerToken { hidden: dims[2] as usize })
    } else if dims.len() == 2 && 1 <= dims[1] <= 0xffffffffi64 {
        Some(OutputLayout::Pooled { hidden: dims[1] as usize })
    } else {
        None
    }
}

/// Validates a loaded graph's signature: it must declare exactly the three
/// required inputs, and its first output must have a recognizable layout.
/// Anything else is a `ModelLoad` error; a handle is only built on success.
pub fn validate_model_signature(n_inputs: usize, output_dims: &Vec<i64>) -> (r: Result<
    OutputLayout,
    EmbedError,
>)
    ensures
        match r {
            Ok(lay) => n_inputs == REQUIRED_INPUTS && layout_of(output_dims@) == Some(lay),
            Err(e) => (n_inputs != REQUIRED_INPUTS || layout_of(output_dims@) is None) && e
                == EmbedError::ModelLoad,
        },
{
    if n_inputs != REQUIRED_INPUTS {
        return Err(EmbedError::ModelLoad);
    }
    if output_dims.len() == 3 {
        let h = output_dims[2];
        if 1 <= h && h <= 0xffffffff {
            return Ok(OutputLayout::PerToken { hidden: h as usize });
        }
        return Err(EmbedError::ModelLoad);
    }
    if output_dims.len() == 2 {
        let h = output_dims[1];
        if 1 <= h && h <= 0xffffffff {
            return Ok(OutputLayout::Pooled { hidden: h as usize });
        }
        return Err(EmbedError::ModelLoad);
    }
    Err(EmbedError::ModelLoad)
}

/// The pooled vector of one text: component `d` is the masked mean of
/// component `d` over the token vectors.
pub open spec fn pooled_vec(tokens: Seq<Vec<i64>>, mask: Seq<u32>) -> Seq<i64> {
    if tokens.len() == 0 {
        Seq::empty()
    } else {
        Seq::new(tokens[0]@.len(), |d: int| pooled_comp(tokens, mask, d) as i64)
    }
}

/// The embedding of one text: its pooled vector, L2-normalized.
pub open spec fn embedding_of(tokens: Seq<Vec<i64>>, mask: Seq<u32>) -> Seq<i64> {
    let p = pooled_vec(tokens, mask);
    Seq::new(p.len(), |d: int| normalized_comp(p, d) as i64)
}

/// The hidden states line up with the encodings: one row of token vectors
/// per encoding, each row as long as its attention mask, each row
/// rectangular.
pub open spec fn rows_aligned(hidden: Seq<Vec<Vec<i64>>>, encs: Seq<Encoding>) -> bool {
    &&& encs.len() == hidden.len()
    &&& forall|i: int|
        0 <= i < hidden.len() ==> encs[i].attention_mask@.len() == (#[trigger] hidden[i])@.len()
            && rect(hidden[i]@)
}

/// Turns per-token hidden states into one normalized embedding per text:
/// mean pooling over each text's attention mask, then L2 normalization.
/// Fails with `ShapeMismatch` exactly when the hidden states do not line up
/// with the encodings: a different batch size, a mask of the wrong length,
/// or ragged token vectors.
pub fn embed_from_per_token(hidden: &Vec<Vec<Vec<i64>>>, encs: &Vec<Encoding>) -> (r: Result<
    Vec<Vec<i64>>,
    EmbedError,
>)
    requires
        forall|i: int, j: int|
            0 <= i < hidden@.len() && 0 <= j < hidden@[i]@.len() ==> bounded(
                (#[trigger] hidden@[i]@[j])@,
                COMP_BOUND as int,
            ) && hidden@[i]@[j]@.len() <= DIM_LIMIT,
    ensures
        match r {
            Ok(out) => rows_aligned(hidden@, encs@) && out@.len() == hidden@.len() && forall|
                i: int,
            |
                0 <= i < out@.len() ==> (#[trigger] out@[i])@ == embedding_of(
                    hidden@[i]@,
                    encs@[i].attention_mask@,
                ),
            Err(e) => !rows_aligned(hidden@, encs@) && e == EmbedError::ShapeMismatch,
        },
{
    let n = hidden.len();
    if encs.len() != n {
        return Err(EmbedError::ShapeMismatch);
    }
    let mut out: Vec<Vec<i64>> = Vec::new();
    let mut i: usize = 0;
    while i < n
        invariant
            n == hidden@.len() == encs@.len(),
            forall|i2: int, j: int|
                0 <= i2 < n && 0 <= j < hidden@[i2]@.len() ==> bounded(
                    (#[trigger] hidden@[i2]@[j])@,
                    COMP_BOUND as int,
                ) && hidden@[i2]@[j]@.len() <= DIM_LIMIT,
            0 <= i <= n,
            out@.len() == i,
            forall|i2: int|
                0 <= i2 < i ==> encs@[i2].attention_mask@.len() == (#[trigger] hidden@[i2])@.len()
                    && rect(hidden@[i2]@),
            forall|i2: int|
                0 <= i2 < i ==> (#[trigger] out@[i2])@ == embedding_of(
                    hidden@[i2]@,
                    encs@[i2].attention_mask@,
                ),
        decreases n - i,
    {
        let row = &hidden[i];
        let p = match mean_pool(row, &encs[i].attention_mask) {
            Ok(p) => p,
            Err(_) => {
                proof {
                    assert(!(encs@[i as int].attention_mask@.len() == hidden@[i as int]@.len()
                        && rect(hidden@[i as int]@)));
                    assert(!rows_aligned(hidden@, encs@));
                }
                return Err(EmbedError::ShapeMismatch);
            },
        };
        proof {
            assert(p@ =~= pooled_vec(hidden@[i as int]@, encs@[i as int].attention_mask@));
        }
        let e = normalize(&p);
        proof {
            assert(e@ =~= embedding_of(hidden@[i as int]@, encs@[i as int].attention_mask@));
        }
        out.push(e);
        i = i + 1;
    }
    Ok(out)
}

/// L2-normalizes each row of a pre-pooled output.
pub fn normalize_batch(rows: &Vec<Vec<i64>>) -> (r: Vec<Vec<i64>>)
    requires
        forall|i: int|
            0 <= i < rows@.len() ==> bounded((#[trigger] rows@[i])@, COMP_BOUND as int)
                && rows@[i]@.len() <= DIM_LIMIT,
    ensures
        r@.len() == rows@.len(),
        forall|i: int|
            0 <= i < r@.len() ==> (#[trigger] r@[i])@.len() == rows@[i]@.len() && forall|d: int|
                0 <= d < r@[i]@.len() ==> (#[trigger] r@[i]@[d]) as int == normalized_comp(
                    rows@[i]@,
                    d,
                ),
{
    let n = rows.len();
    let mut out: Vec<Vec<i64>> = Vec::new();
    let mut i: usize = 0;
    while i < n
        invariant
            n == rows@.len(),
            forall|i2: int|
                0 <= i2 < n ==> bounded((#[trigger] rows@[i2])@, COMP_BOUND as int)
                    && rows@[i2]@.len() <= DIM_LIMIT,
            0 <= i <= n,
            out@.len() == i,
            forall|i2: int|
                0 <= i2 < i ==> (#[trigger] out@[i2])@.len() == rows@[i2]@.len() && forall|d: int|
                    0 <= d < out@[i2]@.len() ==> (#[trigger] out@[i2]@[d]) as int
                        == normalized_comp(rows@[i2]@, d),
        decreases n - i,
    {
        let e = normalize(&rows[i]);
        out.push(e);
        i = i + 1;
    }
    out
}

} // verus!
