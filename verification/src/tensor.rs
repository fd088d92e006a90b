//! Tensor builder: reshapes a batch of uniform-length encodings into three
//! flat, row-major integer tensors of shape `[rows, cols]` — token ids,
//! attention mask, token-type ids — one row per text.

use vstd::prelude::*;
use crate::encoding::{batch_uniform, Encoding};
use crate::errors::EmbedError;

verus! {

/// Three row-major integer tensors of one shape `[rows, cols]`; row `i`
/// carries encoding `i` of the batch.
pub struct InputTensorSet {
    pub rows: usize,
    pub cols: usize,
    pub ids: Vec<i64>,
    pub mask: Vec<i64>,
    pub type_ids: Vec<i64>,
}

impl InputTensorSet {
    /// Each flat tensor holds exactly `rows * cols` elements.
    pub open spec fn wf(self) -> bool {
        &&& self.ids@.len() == self.rows * self.cols
        &&& self.mask@.len() == self.rows * self.cols
        &&& self.type_ids@.len() == self.rows * self.cols
    }

    /// Row `i` of every tensor is encoding `i`, widened to `i64`.
    pub open spec fn holds_batch(self, encs: Seq<Encoding>) -> bool {
        &&& self.rows == encs.len()
        &&& forall|i: int, j: int|
            0 <= i < self.rows && 0 <= j < self.cols ==> #[trigger] self.ids@[i * self.cols + j]
                == encs[i].ids@[j] as i64 && self.mask@[i * self.cols + j]
                == encs[i].attention_mask@[j] as i64 && self.type_ids@[i * self.cols + j]
                == encs[i].type_ids@[j] as i64
    }
}

proof fn lemma_row_major_range(i2: int, j2: int, i: int, l: int)
    by (nonlinear_arith)
    requires
        0 <= i2 < i,
        0 <= j2 < l,
    ensures
        0 <= i2 * l + j2 < i * l,
        i2 * l + j2 < i * l + l,
{
}

/// Builds the three input tensors from a batch of encodings. Encodings of
/// differing length — an internal invariant violation that correct prior
/// stages never produce — are rejected with `ShapeMismatch`.
pub fn build_input_tensors(encs: &Vec<Encoding>) -> (r: Result<InputTensorSet, EmbedError>)
    ensures
        match r {
            Ok(t) => batch_uniform(encs@) && t.wf() && t.holds_batch(encs@) && t.rows
                == encs@.len() && (encs@.len() > 0 ==> t.cols == encs@[0].ids@.len()),
            Err(e) => !batch_uniform(encs@) && e == EmbedError::ShapeMismatch,
        },
{
    let n = encs.len();
    let l: usize = if n > 0 {
        encs[0].ids.len()
    } else {
        0
    };
    let mut i: usize = 0;
    while i < n
        invariant
            n == encs@.len(),
            0 <= i <= n,
            n > 0 ==> l == encs@[0].ids@.len(),
            forall|k: int|
                0 <= k < i ==> (#[trigger] encs@[k]).wf() && encs@[k].ids@.len()
                    == encs@[0].ids@.len(),
        decreases n - i,
    {
        let e = &encs[i];
        if e.ids.len() != l || e.attention_mask.len() != l || e.type_ids.len() != l {
            return Err(EmbedError::ShapeMismatch);
        }
        i = i + 1;
    }
    let mut ids: Vec<i64> = Vec::new();
    let mut mask: Vec<i64> = Vec::new();
    let mut tys: Vec<i64> = Vec::new();
    i = 0;
    while i < n
        invariant
            n == encs@.len(),
            n > 0 ==> l == encs@[0].ids@.len(),
            batch_uniform(encs@),
            forall|k: int| 0 <= k < n ==> (#[trigger] encs@[k]).ids@.len() == l,
            0 <= i <= n,
            ids@.len() == i * l,
            mask@.len() == i * l,
            tys@.len() == i * l,
            forall|i2: int, j2: int|
                0 <= i2 < i && 0 <= j2 < l ==> #[trigger] ids@[i2 * l + j2] == encs@[i2].ids@[j2]
                    as i64 && mask@[i2 * l + j2] == encs@[i2].attention_mask@[j2] as i64
                    && tys@[i2 * l + j2] == encs@[i2].type_ids@[j2] as i64,
        decreases n - i,
    {
        let e = &encs[i];
        let mut j: usize = 0;
        while j < l
            invariant
                e.wf(),
                e.ids@.len() == l,
                0 <= j <= l,
                ids@.len() == i * l + j,
                mask@.len() == i * l + j,
                tys@.len() == i * l + j,
                forall|i2: int, j2: int|
                    0 <= i2 < i && 0 <= j2 < l ==> #[trigger] ids@[i2 * l + j2]
                        == encs@[i2].ids@[j2] as i64 && mask@[i2 * l + j2]
                        == encs@[i2].attention_mask@[j2] as i64 && tys@[i2 * l + j2]
                        == encs@[i2].type_ids@[j2] as i64,
                forall|j2: int|
                    0 <= j2 < j ==> #[trigger] ids@[i * l + j2] == e.ids@[j2] as i64
                        && mask@[i * l + j2] == e.attention_mask@[j2] as i64
                        && tys@[i * l + j2] == e.type_ids@[j2] as i64,
                n == encs@.len(),
                i < n,
                e == encs@[i as int],
            decreases l - j,
        {
            proof {
                assert forall|i2: int, j2: int|
                    #![trigger i2 * l + j2]
                    0 <= i2 < i && 0 <= j2 < l implies i2 * l + j2 < i * l + j by {
                    lemma_row_major_range(i2, j2, i as int, l as int);
                }
            }
            ids.push(e.ids[j] as i64);
            mask.push(e.attention_mask[j] as i64);
            tys.push(e.type_ids[j] as i64);
            j = j + 1;
        }
        proof {
            assert((i + 1) * l == i * l + l) by (nonlinear_arith);
            assert forall|i2: int, j2: int|
                #![trigger ids@[i2 * l + j2]]
                #![trigger mask@[i2 * l + j2]]
                #![trigger tys@[i2 * l + j2]]
                0 <= i2 < i + 1 && 0 <= j2 < l implies ids@[i2 * l + j2] == encs@[i2].ids@[j2]
                as i64 && mask@[i2 * l + j2] == encs@[i2].attention_mask@[j2] as i64 && tys@[i2 * l
                + j2] == encs@[i2].type_ids@[j2] as i64 by {
                lemma_row_major_range(i2, j2, i + 1 as int, l as int);
                if i2 == i as int {
                    assert(ids@[i2 * l + j2] == e.ids@[j2] as i64);
                } else {
                    lemma_row_major_range(i2, j2, i as int, l as int);
                }
            }
        }
        i = i + 1;
    }
    proof {
        assert forall|i2: int, j2: int|
            #![trigger i2 * l + j2]
            0 <= i2 < n && 0 <= j2 < l implies 0 <= i2 * l + j2 < n * l by {
            lemma_row_major_range(i2, j2, n as int, l as int);
        }
    }
    Ok(InputTensorSet { rows: n, cols: l, ids, mask, type_ids: tys })
}

} // verus!
