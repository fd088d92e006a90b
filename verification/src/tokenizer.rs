//! Tokenizer adapter: loads a tokenizer resource and turns a batch of texts
//! into padded encodings. The tokenizer itself comes from the `tokenizers`
//! crate; everything around its calls — batching, padding, attention masks,
//! and the check that keeps panicking truncation configurations out — is
//! verified here.

use vstd::prelude::*;
use crate::encoding::{
    batch_padded_with, batch_uniform, count_ones, pad_batch, padded_row, raw_wf, Encoding,
    RawEncoding,
};
use crate::encoding::{lemma_max_raw_len_attained, lemma_padded_row_shape, max_raw_len};
use crate::errors::EmbedError;

verus! {

#[verifier::external_type_specification]
#[verifier::external_body]
pub struct ExTokenizer(tokenizers::Tokenizer);

/// Relies on tokenizers::Tokenizer::from_file: deserializes a tokenizer
/// definition from a JSON file, or fails when the file is missing or
/// malformed.
#[verifier::external_body]
fn tokenizer_from_file(path: &str) -> (r: Option<tokenizers::Tokenizer>)
{
    match tokenizers::Tokenizer::from_file(path) {
        Ok(t) => Some(t),
        Err(_) => None,
    }
}

/// Relies on TokenizerImpl::get_truncation: the configured truncation
/// parameters as plain values — (max_length, stride) — if truncation is
/// configured.
#[verifier::external_body]
fn truncation_params(t: &tokenizers::Tokenizer) -> (r: Option<(usize, usize)>)
{
    t.get_truncation().map(|tr| (tr.max_length, tr.stride))
}

/// Relies on TokenizerImpl::get_post_processor and PostProcessor::
/// added_tokens: how many special tokens the post-processor adds to a
/// single encoded sequence.
#[verifier::external_body]
fn added_token_count(t: &tokenizers::Tokenizer) -> (r: usize)
{
    match t.get_post_processor() {
        Some(pp) => tokenizers::PostProcessor::added_tokens(pp, false),
        None => 0,
    }
}

/// Relies on tokenizers::Tokenizer::encode, on single sequences. It is
/// called only through a `TokenizerHandle`, whose constructors reject the
/// truncation configurations on which encode panics (a stride at or above
/// the effective max length, or a max length below the post-processor's
/// added special tokens); deserialization does not validate them. The
/// returned id and type-id sequences run in parallel: every construction of
/// the crate's Encoding builds `type_ids` with exactly as many entries as
/// `ids`.
#[verifier::external_body]
fn encode_text(h: &TokenizerHandle, text: &str, add_special: bool) -> (r: Option<RawEncoding>)
    ensures
        match r {
            Some(raw) => raw_wf(raw),
            None => true,
        },
{
    match h.tok.encode(text, add_special) {
        Ok(e) => Some(
            RawEncoding { ids: e.get_ids().to_vec(), type_ids: e.get_type_ids().to_vec() },
        ),
        Err(_) => None,
    }
}

/// Relies on tokenizers::Tokenizer::get_padding: the pad token id configured
/// in the loaded tokenizer resource, if any padding parameters are set.
#[verifier::external_body]
fn configured_pad_id(t: &tokenizers::Tokenizer) -> (r: Option<u32>)
{
    t.get_padding().map(|p| p.pad_id)
}

/// A loaded tokenizer resource. A handle exists only for a tokenizer that
/// loaded successfully and whose truncation parameters cannot make encode
/// panic; it holds no mutable state after construction.
pub struct TokenizerHandle {
    tok: tokenizers::Tokenizer,
}

impl TokenizerHandle {
    /// Loads a tokenizer definition from a file. A missing or malformed
    /// resource, or one whose truncation parameters could make encoding
    /// panic, is a `Tokenization` error and yields no handle.
    pub fn from_file(path: &str) -> (r: Result<TokenizerHandle, EmbedError>)
        ensures
            match r {
                Ok(_) => true,
                Err(e) => e == EmbedError::Tokenization,
            },
    {
        match tokenizer_from_file(path) {
            Some(t) => TokenizerHandle::from_tokenizer(t),
            None => Err(EmbedError::Tokenization),
        }
    }

    /// Wraps an already-built tokenizer, rejecting truncation parameters on
    /// which encoding would panic: deserialization stores them unvalidated,
    /// and encoding asserts that the stride is strictly below the effective
    /// max length (the configured max length less the post-processor's added
    /// special tokens) and subtracts the two without an underflow check. An
    /// effective max length of zero is safe: truncation to zero takes its
    /// own, asserting-free path.
    pub fn from_tokenizer(t: tokenizers::Tokenizer) -> (r: Result<TokenizerHandle, EmbedError>)
        ensures
            match r {
                Ok(_) => true,
                Err(e) => e == EmbedError::Tokenization,
            },
    {
        let safe: bool = match truncation_params(&t) {
            None => true,
            Some(p) => {
                let max_length = p.0;
                let stride = p.1;
                let added = added_token_count(&t);
                max_length >= added && (if max_length - added == 0 {
                    max_length == 0 || stride < max_length
                } else {
                    stride < max_length - added
                })
            },
        };
        if safe {
            Ok(TokenizerHandle { tok: t })
        } else {
            Err(EmbedError::Tokenization)
        }
    }

    /// The pad token id of the loaded resource: the configured padding id,
    /// or zero when the resource configures none.
    pub fn pad_id(&self) -> (r: u32) {
        match configured_pad_id(&self.tok) {
            Some(p) => p,
            None => 0,
        }
    }

    /// Tokenizes a batch of texts and pads every encoding to the longest
    /// length in the batch. An empty batch, or any text the tokenizer cannot
    /// encode, is a `Tokenization` error. On success there is one encoding
    /// per text, each well formed, all of one length; every mask is ones
    /// followed by zeros with exactly as many ones as its text has tokens;
    /// all padded positions hold one pad id and type id zero; and at least
    /// one encoding is unpadded, so the common length is the batch maximum.
    #[verifier::rlimit(60)]
    pub fn tokenize_batch(&self, texts: &Vec<String>, add_special: bool) -> (r: Result<
        Vec<Encoding>,
        EmbedError,
    >)
        ensures
            texts@.len() == 0 ==> r is Err,
            match r {
                Ok(encs) => texts@.len() > 0 && encs@.len() == texts@.len() && batch_uniform(
                    encs@,
                ) && (exists|p: u32| batch_padded_with(encs@, p)) && (exists|i: int|
                    0 <= i < encs@.len() && count_ones(#[trigger] encs@[i].attention_mask@)
                        == encs@[i].attention_mask@.len()),
                Err(e) => e == EmbedError::Tokenization,
            },
    {
        if texts.len() == 0 {
            return Err(EmbedError::Tokenization);
        }
        let pad = self.pad_id();
        let n = texts.len();
        let mut raws: Vec<RawEncoding> = Vec::new();
        let mut i: usize = 0;
        while i < n
            invariant
                n == texts@.len(),
                0 <= i <= n,
                raws@.len() == i,
                forall|k: int| 0 <= k < i ==> raw_wf(#[trigger] raws@[k]),
            decreases n - i,
        {
            match encode_text(self, texts[i].as_str(), add_special) {
                Some(raw) => raws.push(raw),
                None => {
                    return Err(EmbedError::Tokenization);
                },
            }
            i = i + 1;
        }
        let encs = pad_batch(&raws, pad);
        proof {
            let ghost l = max_raw_len(raws@);
            assert forall|k: int| 0 <= k < encs@.len() implies (#[trigger] encs@[k]).wf()
                && encs@[k].ids@.len() == encs@[0].ids@.len() by {
                assert(padded_row(encs@[k], raws@[k], pad, l));
                assert(padded_row(encs@[0], raws@[0], pad, l));
            }
            assert forall|k: int| 0 <= k < encs@.len() implies crate::encoding::padded_with(
                #[trigger] encs@[k],
                pad,
            ) by {
                lemma_padded_row_shape(encs@[k], raws@[k], pad, l);
            }
            assert(batch_padded_with(encs@, pad));
            lemma_max_raw_len_attained(raws@);
            let i0 = choose|i0: int|
                0 <= i0 < raws@.len() && raws@[i0].ids@.len() == max_raw_len(raws@);
            assert(padded_row(encs@[i0], raws@[i0], pad, l));
            assert(count_ones(encs@[i0].attention_mask@) == encs@[i0].attention_mask@.len());
            assert(exists|p: u32| batch_padded_with(encs@, p));
            assert(exists|i2: int|
                0 <= i2 < encs@.len() && count_ones(#[trigger] encs@[i2].attention_mask@)
                    == encs@[i2].attention_mask@.len());
        }
        Ok(encs)
    }
}

} // verus!
