//! Batch padding for tokenized text. Raw per-text token sequences are padded
//! to the length of the longest sequence in the batch; the attention mask is
//! one at real-token positions and zero at padded positions.

use vstd::prelude::*;

verus! {

/// Unpadded output of the tokenizer for one text: token ids and token-type
/// ids, parallel sequences of the same length.
pub struct RawEncoding {
    pub ids: Vec<u32>,
    pub type_ids: Vec<u32>,
}

/// The two sequences of a raw encoding run in parallel.
pub open spec fn raw_wf(r: RawEncoding) -> bool {
    r.ids@.len() == r.type_ids@.len()
}

/// The tokenized representation of one text, padded to the batch length:
/// token ids, attention mask, and token-type ids, all of one length.
pub struct Encoding {
    pub ids: Vec<u32>,
    pub attention_mask: Vec<u32>,
    pub type_ids: Vec<u32>,
}

impl Encoding {
    /// All three sequences have identical length.
    pub open spec fn wf(self) -> bool {
        self.ids@.len() == self.attention_mask@.len() && self.ids@.len() == self.type_ids@.len()
    }
}

/// Every encoding of the batch is well formed and of one common length.
pub open spec fn batch_uniform(encs: Seq<Encoding>) -> bool {
    forall|i: int|
        0 <= i < encs.len() ==> (#[trigger] encs[i]).wf() && encs[i].ids@.len()
            == encs[0].ids@.len()
}

/// How many entries of a mask are exactly one.
pub open spec fn count_ones(mask: Seq<u32>) -> int
    decreases mask.len(),
{
    if mask.len() == 0 {
        0
    } else {
        count_ones(mask.drop_last()) + if mask.last() == 1u32 {
            1int
        } else {
            0int
        }
    }
}

proof fn lemma_count_ones_push(m: Seq<u32>, x: u32)
    ensures
        count_ones(m.push(x)) == count_ones(m) + if x == 1u32 {
            1int
        } else {
            0int
        },
{
    assert(m.push(x).drop_last() =~= m);
    assert(m.push(x).last() == x);
}

/// The longest raw encoding's length.
pub open spec fn max_raw_len(raws: Seq<RawEncoding>) -> int
    decreases raws.len(),
{
    if raws.len() == 0 {
        0
    } else {
        let rest = max_raw_len(raws.drop_last());
        if raws.last().ids@.len() > rest {
            raws.last().ids@.len() as int
        } else {
            rest
        }
    }
}

/// The mask is `k` ones followed by zeros.
pub open spec fn ones_then_zeros(mask: Seq<u32>, k: int) -> bool {
    forall|j: int|
        0 <= j < mask.len() ==> (#[trigger] mask[j]) == if j < k {
            1u32
        } else {
            0u32
        }
}

/// The encoding is a padded row: its attention mask is ones followed by
/// zeros, it has exactly as many ones as attended positions, and every
/// padded position holds the pad id `p` and type id zero.
pub open spec fn padded_with(e: Encoding, p: u32) -> bool {
    exists|k: int|
        #![trigger ones_then_zeros(e.attention_mask@, k)]
        0 <= k <= e.ids@.len() && ones_then_zeros(e.attention_mask@, k) && count_ones(
            e.attention_mask@,
        ) == k && forall|j: int|
            k <= j < e.ids@.len() ==> #[trigger] e.ids@[j] == p && e.type_ids@[j] == 0u32
}

/// Every encoding of the batch is a row padded with `p`.
pub open spec fn batch_padded_with(encs: Seq<Encoding>, p: u32) -> bool {
    forall|i: int| 0 <= i < encs.len() ==> padded_with(#[trigger] encs[i], p)
}

/// A padded row has the padded shape: mask of ones then zeros, pad id and
/// type id zero at the padded positions.
pub proof fn lemma_padded_row_shape(e: Encoding, raw: RawEncoding, p: u32, l: int)
    requires
        padded_row(e, raw, p, l),
    ensures
        padded_with(e, p),
{
    let k = raw.ids@.len() as int;
    assert forall|j: int|
        0 <= j < e.attention_mask@.len() implies (#[trigger] e.attention_mask@[j]) == (if j < k {
        1u32
    } else {
        0u32
    }) by {
        if j < k {
            assert(e.ids@[j] == raw.ids@[j]);
        } else {
            assert(e.ids@[j] == p);
        }
    }
    assert(ones_then_zeros(e.attention_mask@, k));
    assert forall|j: int| k <= j < e.ids@.len() implies #[trigger] e.ids@[j] == p
        && e.type_ids@[j] == 0u32 by {}
}

proof fn lemma_max_raw_len_ge(raws: Seq<RawEncoding>, i: int)
    requires
        0 <= i < raws.len(),
    ensures
        raws[i].ids@.len() <= max_raw_len(raws),
    decreases raws.len(),
{
    if i < raws.len() - 1 {
        lemma_max_raw_len_ge(raws.drop_last(), i);
    }
}

/// Some raw encoding attains the batch maximum.
pub proof fn lemma_max_raw_len_attained(raws: Seq<RawEncoding>)
    requires
        raws.len() > 0,
    ensures
        exists|i: int|
            0 <= i < raws.len() && (#[trigger] raws[i]).ids@.len() == max_raw_len(raws),
    decreases raws.len(),
{
    if raws.len() == 1 {
        assert(max_raw_len(raws.drop_last()) == 0);
        assert(raws[0].ids@.len() == max_raw_len(raws));
    } else {
        let rest = raws.drop_last();
        lemma_max_raw_len_attained(rest);
        if raws.last().ids@.len() as int > max_raw_len(rest) {
            assert(raws[raws.len() - 1].ids@.len() == max_raw_len(raws));
        } else {
            let i = choose|i: int|
                0 <= i < rest.len() && (#[trigger] rest[i]).ids@.len() == max_raw_len(rest);
            assert(raws[i].ids@.len() == max_raw_len(raws));
        }
    }
}

/// `e` is `raw` padded with `pad_id` to length `l`: the prefix carries the
/// raw ids and type ids under an attention mask of ones, the suffix carries
/// the pad id and type id zero under a mask of zeros, and the mask has
/// exactly as many ones as the raw encoding has tokens.
pub open spec fn padded_row(e: Encoding, raw: RawEncoding, pad_id: u32, l: int) -> bool {
    &&& e.wf()
    &&& e.ids@.len() == l
    &&& raw.ids@.len() <= l
    &&& forall|j: int|
        0 <= j < raw.ids@.len() ==> #[trigger] e.ids@[j] == raw.ids@[j] && e.type_ids@[j]
            == raw.type_ids@[j] && e.attention_mask@[j] == 1u32
    &&& forall|j: int|
        raw.ids@.len() <= j < l ==> #[trigger] e.ids@[j] == pad_id && e.type_ids@[j] == 0u32
            && e.attention_mask@[j] == 0u32
    &&& count_ones(e.attention_mask@) == raw.ids@.len()
}

/// Pads a batch of raw encodings to a common length: the maximum raw length
/// in the batch. Padded positions carry the designated pad id and a zero
/// attention-mask entry; every mask has exactly as many ones as its text has
/// tokens.
#[verifier::rlimit(60)]
pub fn pad_batch(raws: &Vec<RawEncoding>, pad_id: u32) -> (r: Vec<Encoding>)
    requires
        forall|i: int| 0 <= i < raws@.len() ==> raw_wf(#[trigger] raws@[i]),
    ensures
        r@.len() == raws@.len(),
        forall|i: int|
            0 <= i < r@.len() ==> padded_row(#[trigger] r@[i], raws@[i], pad_id, max_raw_len(raws@)),
{
    let n = raws.len();
    let mut l: usize = 0;
    let mut i: usize = 0;
    while i < n
        invariant
            n == raws@.len(),
            0 <= i <= n,
            l as int == max_raw_len(raws@.take(i as int)),
        decreases n - i,
    {
        proof {
            assert(raws@.take(i + 1 as int).drop_last() =~= raws@.take(i as int));
            assert(raws@.take(i + 1 as int).last() == raws@[i as int]);
        }
        let li = raws[i].ids.len();
        if li > l {
            l = li;
        }
        i = i + 1;
    }
    proof {
        assert(raws@.take(n as int) =~= raws@);
    }
    let mut out: Vec<Encoding> = Vec::new();
    i = 0;
    while i < n
        invariant
            n == raws@.len(),
            forall|k: int| 0 <= k < n ==> raw_wf(#[trigger] raws@[k]),
            l as int == max_raw_len(raws@),
            0 <= i <= n,
            out@.len() == i,
            forall|k: int|
                0 <= k < i ==> padded_row(#[trigger] out@[k], raws@[k], pad_id, l as int),
        decreases n - i,
    {
        proof {
            lemma_max_raw_len_ge(raws@, i as int);
        }
        let raw = &raws[i];
        let k = raw.ids.len();
        let mut ids: Vec<u32> = Vec::new();
        let mut mask: Vec<u32> = Vec::new();
        let mut tys: Vec<u32> = Vec::new();
        let mut j: usize = 0;
        while j < l
            invariant
                raw_wf(*raw),
                k == raw.ids@.len(),
                k <= l,
                0 <= j <= l,
                ids@.len() == j,
                mask@.len() == j,
                tys@.len() == j,
                forall|t: int|
                    0 <= t < j && t < k ==> #[trigger] ids@[t] == raw.ids@[t] && tys@[t]
                        == raw.type_ids@[t] && mask@[t] == 1u32,
                forall|t: int|
                    k <= t < j ==> #[trigger] ids@[t] == pad_id && tys@[t] == 0u32 && mask@[t]
                        == 0u32,
                count_ones(mask@) == if j <= k {
                    j as int
                } else {
                    k as int
                },
            decreases l - j,
        {
            proof {
                if j < k {
                    lemma_count_ones_push(mask@, 1u32);
                } else {
                    lemma_count_ones_push(mask@, 0u32);
                }
            }
            if j < k {
                ids.push(raw.ids[j]);
                mask.push(1);
                tys.push(raw.type_ids[j]);
            } else {
                ids.push(pad_id);
                mask.push(0);
                tys.push(0);
            }
            j = j + 1;
        }
        let e = Encoding { ids, attention_mask: mask, type_ids: tys };
        proof {
            assert(padded_row(e, raws@[i as int], pad_id, l as int));
        }
        out.push(e);
        i = i + 1;
    }
    out
}

} // verus!
