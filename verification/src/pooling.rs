//! Mean pooling: reduces per-token hidden vectors to one vector per text by
//! averaging over exactly the positions whose attention-mask entry is one.
//! Padded positions are ignored.

use vstd::prelude::*;
use vstd::arithmetic::div_mod::lemma_div_is_ordered;
use vstd::arithmetic::div_mod::lemma_div_multiples_vanish;
use crate::encoding::count_ones;
use crate::errors::EmbedError;
use crate::vector::{bounded, div_trunc, COMP_BOUND};

verus! {

/// Sum of component `d` over the token vectors whose mask entry is one.
pub open spec fn masked_sum(tokens: Seq<Vec<i64>>, mask: Seq<u32>, d: int) -> int
    decreases tokens.len(),
{
    if tokens.len() == 0 {
        0
    } else {
        masked_sum(tokens.drop_last(), mask.drop_last(), d) + if mask.last() == 1u32 {
            tokens.last()@[d] as int
        } else {
            0int
        }
    }
}

/// Sum of component `d` over all token vectors.
pub open spec fn total_sum(tokens: Seq<Vec<i64>>, d: int) -> int
    decreases tokens.len(),
{
    if tokens.len() == 0 {
        0
    } else {
        total_sum(tokens.drop_last(), d) + tokens.last()@[d] as int
    }
}

/// Component `d` of the pooled vector: the masked sum divided (truncating)
/// by the number of attended positions, or zero when nothing is attended.
pub open spec fn pooled_comp(tokens: Seq<Vec<i64>>, mask: Seq<u32>, d: int) -> int {
    let c = count_ones(mask);
    if c == 0 {
        0
    } else {
        div_trunc(masked_sum(tokens, mask, d), c)
    }
}

/// All token vectors have one length.
pub open spec fn rect(tokens: Seq<Vec<i64>>) -> bool {
    forall|i: int| 0 <= i < tokens.len() ==> (#[trigger] tokens[i])@.len() == tokens[0]@.len()
}

proof fn lemma_count_ones_nonneg(mask: Seq<u32>)
    ensures
        0 <= count_ones(mask) <= mask.len(),
    decreases mask.len(),
{
    if mask.len() > 0 {
        lemma_count_ones_nonneg(mask.drop_last());
    }
}

proof fn lemma_masked_sum_bound(tokens: Seq<Vec<i64>>, mask: Seq<u32>, d: int, m: int)
    requires
        tokens.len() == mask.len(),
        m >= 0,
        forall|i: int|
            0 <= i < tokens.len() && mask[i] == 1u32 ==> -m <= (#[trigger] tokens[i])@[d] <= m,
    ensures
        -(count_ones(mask) * m) <= masked_sum(tokens, mask, d) <= count_ones(mask) * m,
    decreases tokens.len(),
{
    lemma_count_ones_nonneg(mask);
    if tokens.len() > 0 {
        lemma_masked_sum_bound(tokens.drop_last(), mask.drop_last(), d, m);
        lemma_count_ones_nonneg(mask.drop_last());
        let c = count_ones(mask.drop_last());
        if mask.last() == 1u32 {
            assert((c + 1) * m == c * m + m) by (nonlinear_arith);
        }
    }
}

/// Over an all-ones attention mask, mean pooling attends every position:
/// the masked sum is the sum of all token vectors and the count is the full
/// length, so the pooled vector is the arithmetic mean of all tokens.
pub proof fn lemma_mean_pool_all_ones(tokens: Seq<Vec<i64>>, mask: Seq<u32>, d: int)
    requires
        tokens.len() == mask.len(),
        forall|j: int| 0 <= j < mask.len() ==> #[trigger] mask[j] == 1u32,
    ensures
        count_ones(mask) == mask.len(),
        masked_sum(tokens, mask, d) == total_sum(tokens, d),
    decreases tokens.len(),
{
    if tokens.len() > 0 {
        lemma_mean_pool_all_ones(tokens.drop_last(), mask.drop_last(), d);
    }
}

/// Over a mask of `m` ones followed by zeros, mean pooling attends exactly
/// the first `m` positions: the masked sum is the sum of the first `m` token
/// vectors and the count is `m`.
pub proof fn lemma_mean_pool_prefix(tokens: Seq<Vec<i64>>, mask: Seq<u32>, d: int, m: int)
    requires
        tokens.len() == mask.len(),
        0 <= m <= mask.len(),
        forall|j: int| 0 <= j < m ==> #[trigger] mask[j] == 1u32,
        forall|j: int| m <= j < mask.len() ==> #[trigger] mask[j] == 0u32,
    ensures
        count_ones(mask) == m,
        masked_sum(tokens, mask, d) == total_sum(tokens.take(m), d),
    decreases tokens.len(),
{
    if tokens.len() == m {
        lemma_mean_pool_all_ones(tokens, mask, d);
        assert(tokens.take(m) =~= tokens);
    } else if tokens.len() > m {
        lemma_mean_pool_prefix(tokens.drop_last(), mask.drop_last(), d, m);
        assert(tokens.drop_last().take(m) =~= tokens.take(m));
    }
}

/// Mean-pools one text's token vectors over its attention mask: component
/// `d` of the result is the average of component `d` over exactly the
/// positions whose mask entry is one; a mask with no ones yields the zero
/// vector. A mask of the wrong length or ragged token vectors are rejected
/// with `ShapeMismatch`.
pub fn mean_pool(tokens: &Vec<Vec<i64>>, mask: &Vec<u32>) -> (r: Result<Vec<i64>, EmbedError>)
    requires
        forall|i: int| 0 <= i < tokens@.len() ==> bounded((#[trigger] tokens@[i])@, COMP_BOUND as int),
    ensures
        match r {
            Ok(p) => mask@.len() == tokens@.len() && rect(tokens@) && p@.len() == (
            if tokens@.len() == 0 {
                0int
            } else {
                tokens@[0]@.len() as int
            }) && (forall|d: int|
                0 <= d < p@.len() ==> (#[trigger] p@[d]) as int == pooled_comp(
                    tokens@,
                    mask@,
                    d,
                )) && bounded(p@, COMP_BOUND as int),
            Err(e) => (mask@.len() != tokens@.len() || !rect(tokens@)) && e
                == EmbedError::ShapeMismatch,
        },
{
    let l = tokens.len();
    if mask.len() != l {
        return Err(EmbedError::ShapeMismatch);
    }
    let h: usize = if l > 0 {
        tokens[0].len()
    } else {
        0
    };
    let mut i: usize = 0;
    while i < l
        invariant
            l == tokens@.len(),
            0 <= i <= l,
            l > 0 ==> h == tokens@[0]@.len(),
            forall|k: int| 0 <= k < i ==> (#[trigger] tokens@[k])@.len() == tokens@[0]@.len(),
        decreases l - i,
    {
        if tokens[i].len() != h {
            return Err(EmbedError::ShapeMismatch);
        }
        i = i + 1;
    }
    // count the attended positions
    let mut cnt: usize = 0;
    let mut j: usize = 0;
    while j < l
        invariant
            l == mask@.len(),
            0 <= j <= l,
            cnt <= j,
            cnt as int == count_ones(mask@.take(j as int)),
        decreases l - j,
    {
        proof {
            assert(mask@.take(j + 1 as int).drop_last() =~= mask@.take(j as int));
            assert(mask@.take(j + 1 as int).last() == mask@[j as int]);
        }
        if mask[j] == 1 {
            cnt = cnt + 1;
        }
        j = j + 1;
    }
    proof {
        assert(mask@.take(l as int) =~= mask@);
        lemma_count_ones_nonneg(mask@);
    }
    let mut p: Vec<i64> = Vec::new();
    let mut d: usize = 0;
    while d < h
        invariant
            l == tokens@.len() == mask@.len(),
            l > 0 ==> h == tokens@[0]@.len(),
            rect(tokens@),
            l == 0 ==> h == 0,
            forall|k: int| 0 <= k < l ==> bounded((#[trigger] tokens@[k])@, COMP_BOUND as int),
            cnt as int == count_ones(mask@),
            cnt <= l,
            0 <= d <= h,
            p@.len() == d,
            forall|d2: int|
                0 <= d2 < d ==> (#[trigger] p@[d2]) as int == pooled_comp(tokens@, mask@, d2),
            bounded(p@, COMP_BOUND as int),
        decreases h - d,
    {
        let mut acc: i128 = 0;
        let mut jj: usize = 0;
        while jj < l
            invariant
                l == tokens@.len() == mask@.len(),
                rect(tokens@),
                l > 0 ==> h == tokens@[0]@.len(),
                0 <= d < h,
                forall|k: int| 0 <= k < l ==> bounded((#[trigger] tokens@[k])@, COMP_BOUND as int),
                0 <= jj <= l,
                acc as int == masked_sum(tokens@.take(jj as int), mask@.take(jj as int), d as int),
                -(jj as int * (COMP_BOUND as int)) <= acc as int <= jj as int * (COMP_BOUND as int),
            decreases l - jj,
        {
            proof {
                assert(tokens@.take(jj + 1 as int).drop_last() =~= tokens@.take(jj as int));
                assert(mask@.take(jj + 1 as int).drop_last() =~= mask@.take(jj as int));
                assert(tokens@.take(jj + 1 as int).last() == tokens@[jj as int]);
                assert(mask@.take(jj + 1 as int).last() == mask@[jj as int]);
                assert((tokens@[jj as int])@.len() == h);
                let m = COMP_BOUND as int;
                assert((jj as int) * m + m == (jj + 1) as int * m) by (nonlinear_arith);
                assert((jj + 1) as int * m <= (l as int) * m) by (nonlinear_arith)
                    requires
                        jj + 1 <= l as int,
                        m >= 0,
                ;
                assert((l as int) * m <= 0x7fffffffffffffffffffffffffff) by (nonlinear_arith)
                    requires
                        0 <= l as int <= 0xffffffffffffffffu64 as int,
                        0 <= m <= 1000000000int,
                ;
            }
            if mask[jj] == 1 {
                acc = acc + (tokens[jj][d] as i128);
            }
            jj = jj + 1;
        }
        proof {
            assert(tokens@.take(l as int) =~= tokens@);
            assert(mask@.take(l as int) =~= mask@);
        }
        if cnt == 0 {
            p.push(0);
        } else {
            proof {
                lemma_masked_sum_bound(tokens@, mask@, d as int, COMP_BOUND as int);
            }
            let magacc: u128 = if acc >= 0 {
                acc as u128
            } else {
                (-acc) as u128
            };
            let q: u128 = magacc / (cnt as u128);
            proof {
                lemma_div_is_ordered(
                    magacc as int,
                    (cnt as int) * (COMP_BOUND as int),
                    cnt as int,
                );
                lemma_div_multiples_vanish(COMP_BOUND as int, cnt as int);
                assert(q as int <= COMP_BOUND as int);
            }
            let y: i64 = if acc >= 0 {
                q as i64
            } else {
                -(q as i64)
            };
            proof {
                assert(y as int == pooled_comp(tokens@, mask@, d as int));
            }
            p.push(y);
        }
        d = d + 1;
    }
    Ok(p)
}

} // verus!
