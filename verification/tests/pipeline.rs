use embedpipe::encoding::{pad_batch, Encoding, RawEncoding};
use embedpipe::engine::{embed_from_per_token, normalize_batch, validate_model_signature};
use embedpipe::engine::OutputLayout;
use embedpipe::errors::EmbedError;
use embedpipe::pooling::mean_pool;
use embedpipe::tensor::build_input_tensors;
use embedpipe::tokenizer::TokenizerHandle;
use embedpipe::vector::cosine_similarity;
use embedpipe::vector::SCALE;

use tokenizers::{PaddingParams, Tokenizer, TruncationParams};

fn test_tokenizer() -> Tokenizer {
    let json = r#"{
  "version": "1.0",
  "truncation": null,
  "padding": null,
  "added_tokens": [],
  "normalizer": null,
  "pre_tokenizer": { "type": "Whitespace" },
  "post_processor": null,
  "decoder": null,
  "model": {
    "type": "WordLevel",
    "vocab": {
      "[UNK]": 0, "the": 1, "quick": 2, "fox": 3,
      "jumps": 4, "over": 5, "lazy": 6, "dog": 7
    },
    "unk_token": "[UNK]"
  }
}"#;
    Tokenizer::from_bytes(json.as_bytes()).unwrap()
}

#[test]
fn pad_batch_pads_to_longest() {
    let raws = vec![
        RawEncoding {
            ids: vec![1, 2, 3],
            type_ids: vec![0, 0, 0],
        },
        RawEncoding {
            ids: vec![4],
            type_ids: vec![0],
        },
    ];
    let encs = pad_batch(&raws, 9);
    assert_eq!(encs.len(), 2);
    assert_eq!(encs[0].ids, vec![1, 2, 3]);
    assert_eq!(encs[0].attention_mask, vec![1, 1, 1]);
    assert_eq!(encs[0].type_ids, vec![0, 0, 0]);
    assert_eq!(encs[1].ids, vec![4, 9, 9]);
    assert_eq!(encs[1].attention_mask, vec![1, 0, 0]);
    assert_eq!(encs[1].type_ids, vec![0, 0, 0]);
}

#[test]
fn pad_batch_mask_counts_tokens() {
    // the attention mask has exactly as many ones as the text has tokens
    let raws = vec![
        RawEncoding {
            ids: vec![5, 6],
            type_ids: vec![0, 0],
        },
        RawEncoding {
            ids: vec![7, 8, 9, 10],
            type_ids: vec![0, 0, 0, 0],
        },
        RawEncoding {
            ids: vec![],
            type_ids: vec![],
        },
    ];
    let encs = pad_batch(&raws, 0);
    for (i, want) in [2usize, 4, 0].iter().enumerate() {
        let ones = encs[i].attention_mask.iter().filter(|m| **m == 1).count();
        assert_eq!(ones, *want);
        assert_eq!(encs[i].ids.len(), 4);
        assert_eq!(encs[i].attention_mask.len(), 4);
        assert_eq!(encs[i].type_ids.len(), 4);
    }
}

#[test]
fn tokenize_batch_uniform_lengths() {
    let handle = TokenizerHandle::from_tokenizer(test_tokenizer()).unwrap();
    let texts = vec![
        "the quick fox jumps".to_string(),
        "fox".to_string(),
        "lazy dog".to_string(),
    ];
    let encs = handle.tokenize_batch(&texts, false).unwrap();
    assert_eq!(encs.len(), 3);
    for e in &encs {
        assert_eq!(e.ids.len(), 4);
        assert_eq!(e.attention_mask.len(), 4);
        assert_eq!(e.type_ids.len(), 4);
    }
    assert_eq!(encs[0].ids, vec![1, 2, 3, 4]);
    assert_eq!(encs[0].attention_mask, vec![1, 1, 1, 1]);
    assert_eq!(encs[1].ids, vec![3, 0, 0, 0]);
    assert_eq!(encs[1].attention_mask, vec![1, 0, 0, 0]);
    assert_eq!(encs[2].attention_mask, vec![1, 1, 0, 0]);
}

#[test]
fn tokenize_batch_empty_is_error() {
    let handle = TokenizerHandle::from_tokenizer(test_tokenizer()).unwrap();
    let texts: Vec<String> = vec![];
    assert!(matches!(
        handle.tokenize_batch(&texts, false),
        Err(EmbedError::Tokenization)
    ));
}

#[test]
fn tokenizer_missing_file_is_error() {
    let r = TokenizerHandle::from_file("no-such-tokenizer.json");
    assert!(matches!(r, Err(EmbedError::Tokenization)));
}

#[test]
fn panicking_truncation_is_rejected_at_load() {
    // deserialization stores truncation parameters unvalidated; a stride at
    // or above the max length would make encoding assert, so such a
    // tokenizer yields no handle
    let json = r#"{
  "version": "1.0",
  "truncation": {
    "direction": "Right", "max_length": 2,
    "strategy": "LongestFirst", "stride": 5
  },
  "padding": null,
  "added_tokens": [],
  "normalizer": null,
  "pre_tokenizer": { "type": "Whitespace" },
  "post_processor": null,
  "decoder": null,
  "model": {
    "type": "WordLevel",
    "vocab": { "[UNK]": 0, "the": 1 },
    "unk_token": "[UNK]"
  }
}"#;
    let tok = Tokenizer::from_bytes(json.as_bytes()).unwrap();
    assert!(matches!(
        TokenizerHandle::from_tokenizer(tok),
        Err(EmbedError::Tokenization)
    ));
}

#[test]
fn valid_truncation_is_accepted_and_truncates() {
    let mut tok = test_tokenizer();
    let mut tp = TruncationParams::default();
    tp.max_length = 2;
    tp.stride = 1;
    tok.with_truncation(Some(tp)).unwrap();
    let handle = TokenizerHandle::from_tokenizer(tok).unwrap();
    let texts = vec!["the quick fox jumps over".to_string()];
    let encs = handle.tokenize_batch(&texts, false).unwrap();
    assert_eq!(encs[0].ids, vec![1, 2]);
    assert_eq!(encs[0].attention_mask, vec![1, 1]);
}

#[test]
fn pad_id_comes_from_resource() {
    let handle = TokenizerHandle::from_tokenizer(test_tokenizer()).unwrap();
    assert_eq!(handle.pad_id(), 0);
    let mut tok = test_tokenizer();
    let mut pp = PaddingParams::default();
    pp.pad_id = 7;
    tok.with_padding(Some(pp));
    let handle = TokenizerHandle::from_tokenizer(tok).unwrap();
    assert_eq!(handle.pad_id(), 7);
}

#[test]
fn tensors_are_row_major() {
    let raws = vec![
        RawEncoding {
            ids: vec![1, 2],
            type_ids: vec![0, 1],
        },
        RawEncoding {
            ids: vec![3],
            type_ids: vec![1],
        },
    ];
    let encs = pad_batch(&raws, 9);
    let t = build_input_tensors(&encs).unwrap();
    assert_eq!(t.rows, 2);
    assert_eq!(t.cols, 2);
    assert_eq!(t.ids, vec![1, 2, 3, 9]);
    assert_eq!(t.mask, vec![1, 1, 1, 0]);
    assert_eq!(t.type_ids, vec![0, 1, 1, 0]);
}

#[test]
fn tensors_reject_ragged_batch() {
    let encs = vec![
        Encoding {
            ids: vec![1, 2],
            attention_mask: vec![1, 1],
            type_ids: vec![0, 0],
        },
        Encoding {
            ids: vec![3],
            attention_mask: vec![1],
            type_ids: vec![0],
        },
    ];
    let r = build_input_tensors(&encs);
    assert!(matches!(r, Err(EmbedError::ShapeMismatch)));
}

#[test]
fn mean_pool_all_ones_is_arithmetic_mean() {
    let tokens: Vec<Vec<i64>> = vec![vec![2, 40], vec![6, 80], vec![10, 120]];
    let mask: Vec<u32> = vec![1, 1, 1];
    let p = mean_pool(&tokens, &mask).unwrap();
    assert_eq!(p, vec![6, 80]);
}

#[test]
fn mean_pool_trailing_zeros_pools_prefix() {
    let tokens: Vec<Vec<i64>> = vec![vec![2, 40], vec![6, 80], vec![10, 120]];
    let mask: Vec<u32> = vec![1, 1, 0];
    let p = mean_pool(&tokens, &mask).unwrap();
    assert_eq!(p, vec![4, 60]);
    let mask_one: Vec<u32> = vec![1, 0, 0];
    let p1 = mean_pool(&tokens, &mask_one).unwrap();
    assert_eq!(p1, vec![2, 40]);
}

#[test]
fn mean_pool_empty_mask_is_zero_vector() {
    let tokens: Vec<Vec<i64>> = vec![vec![5, 5], vec![7, 7]];
    let mask: Vec<u32> = vec![0, 0];
    let p = mean_pool(&tokens, &mask).unwrap();
    assert_eq!(p, vec![0, 0]);
}

#[test]
fn mean_pool_rejects_wrong_mask_length() {
    let tokens: Vec<Vec<i64>> = vec![vec![5, 5]];
    let mask: Vec<u32> = vec![1, 1];
    assert!(matches!(
        mean_pool(&tokens, &mask),
        Err(EmbedError::ShapeMismatch)
    ));
}

#[test]
fn model_signature_validation() {
    assert_eq!(
        validate_model_signature(3, &vec![-1, -1, 384]),
        Ok(OutputLayout::PerToken { hidden: 384 })
    );
    assert_eq!(
        validate_model_signature(3, &vec![-1, 384]),
        Ok(OutputLayout::Pooled { hidden: 384 })
    );
    // wrong input arity: the three-input contract is not met
    assert_eq!(
        validate_model_signature(2, &vec![-1, -1, 384]),
        Err(EmbedError::ModelLoad)
    );
    // dynamic hidden dimension: not a recognizable layout
    assert_eq!(
        validate_model_signature(3, &vec![-1, -1, -1]),
        Err(EmbedError::ModelLoad)
    );
    assert_eq!(
        validate_model_signature(3, &vec![384]),
        Err(EmbedError::ModelLoad)
    );
}

fn synthetic_hidden(enc: &Encoding, hidden_dim: usize) -> Vec<Vec<i64>> {
    // deterministic per-token vectors derived from the token ids
    enc.ids
        .iter()
        .map(|id| {
            (0..hidden_dim)
                .map(|d| (*id as i64 + 1) * 1_000 + (d as i64) * 37 - 500)
                .collect()
        })
        .collect()
}

#[test]
fn identical_texts_give_identical_embeddings() {
    // a batch of the same text twice: equal encodings, equal rows, equal
    // embeddings, self-similarity of one
    let handle = TokenizerHandle::from_tokenizer(test_tokenizer()).unwrap();
    let texts = vec!["the quick fox".to_string(), "the quick fox".to_string()];
    let encs = handle.tokenize_batch(&texts, false).unwrap();
    assert_eq!(encs[0].ids, encs[1].ids);
    assert_eq!(encs[0].attention_mask, encs[1].attention_mask);
    let t = build_input_tensors(&encs).unwrap();
    assert_eq!(t.ids[0..t.cols], t.ids[t.cols..2 * t.cols]);
    let hidden: Vec<Vec<Vec<i64>>> =
        encs.iter().map(|e| synthetic_hidden(e, 8)).collect();
    let embeddings = embed_from_per_token(&hidden, &encs).unwrap();
    assert_eq!(embeddings[0], embeddings[1]);
    let c = cosine_similarity(&embeddings[0], &embeddings[1]).unwrap();
    assert_eq!(c, SCALE);
}

#[test]
fn normalize_batch_normalizes_rows() {
    let rows: Vec<Vec<i64>> = vec![vec![3_000_000, 4_000_000], vec![0, 0]];
    let out = normalize_batch(&rows);
    assert_eq!(out[0], vec![600_000, 800_000]);
    assert_eq!(out[1], vec![0, 0]);
}
