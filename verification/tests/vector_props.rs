use embedpipe::errors::EmbedError;
use embedpipe::vector::{cosine_similarity, dot_product, isqrt, negate, normalize, SCALE};

fn fix(x: f64) -> i64 {
    (x * (SCALE as f64)).round() as i64
}

fn fixvec(xs: &[f64]) -> Vec<i64> {
    xs.iter().map(|x| fix(*x)).collect()
}

#[test]
fn dot_product_exact() {
    let a = vec![1, 2, 3];
    let b = vec![4, -5, 6];
    assert_eq!(dot_product(&a, &b), (4 - 10 + 18) as i128);
    let e: Vec<i64> = vec![];
    assert_eq!(dot_product(&e, &e), 0);
}

#[test]
fn isqrt_exact_values() {
    assert_eq!(isqrt(0), 0);
    assert_eq!(isqrt(1), 1);
    assert_eq!(isqrt(3), 1);
    assert_eq!(isqrt(4), 2);
    assert_eq!(isqrt(999_999), 999);
    assert_eq!(isqrt(1_000_000), 1000);
    assert_eq!(isqrt(u64::MAX as u128), 4294967295);
}

#[test]
fn normalize_unit_result() {
    // 3-4-5 triangle: exact unit vector in fixed point
    let v = fixvec(&[3.0, 4.0]);
    let n = normalize(&v);
    assert_eq!(n, vec![600_000, 800_000]);
}

#[test]
fn normalize_idempotent() {
    // normalization applied twice equals applying it once (within one
    // fixed-point unit per component)
    for xs in [
        vec![3.0, 4.0],
        vec![1.0, 1.0, 1.0],
        vec![0.2, -0.7, 0.1, 0.05],
        vec![123.456, -77.1, 0.003],
    ] {
        let v = fixvec(&xs);
        let once = normalize(&v);
        let twice = normalize(&once);
        for (a, b) in once.iter().zip(twice.iter()) {
            assert!((a - b).abs() <= 2, "{} vs {}", a, b);
        }
    }
}

#[test]
fn normalize_zero_vector_noop() {
    // the documented zero-vector no-op: unchanged both times
    let v: Vec<i64> = vec![0, 0, 0];
    let once = normalize(&v);
    assert_eq!(once, v);
    let twice = normalize(&once);
    assert_eq!(twice, v);
}

#[test]
fn cosine_self_is_one() {
    for xs in [vec![3.0, 4.0], vec![1.0, 1.0, 1.0], vec![0.25, -0.33, 0.5]] {
        let v = fixvec(&xs);
        let c = cosine_similarity(&v, &v).unwrap();
        assert_eq!(c, SCALE);
    }
}

#[test]
fn cosine_opposite_is_minus_one() {
    for xs in [vec![3.0, 4.0], vec![1.0, 1.0, 1.0], vec![0.25, -0.33, 0.5]] {
        let v = fixvec(&xs);
        let w = negate(&v);
        let c = cosine_similarity(&v, &w).unwrap();
        let cself = cosine_similarity(&v, &v).unwrap();
        assert_eq!(c, -cself);
        assert_eq!(c, -SCALE);
    }
}

#[test]
fn cosine_symmetric() {
    let a = fixvec(&[1.0, 0.5, -0.25, 0.0]);
    let b = fixvec(&[-0.3, 0.9, 0.1, 2.0]);
    assert_eq!(
        cosine_similarity(&a, &b).unwrap(),
        cosine_similarity(&b, &a).unwrap()
    );
    let c = fixvec(&[0.0, 1.0]);
    let d = fixvec(&[1.0, 0.0]);
    assert_eq!(
        cosine_similarity(&c, &d).unwrap(),
        cosine_similarity(&d, &c).unwrap()
    );
}

#[test]
fn cosine_score_stays_in_unit_range() {
    // a tiny vector: the floor square root of 2 is 1, so the raw quotient
    // would be two; the returned score is clamped to one
    let v: Vec<i64> = vec![1, 1];
    assert_eq!(cosine_similarity(&v, &v).unwrap(), SCALE);
}

#[test]
fn cosine_orthogonal_is_zero() {
    let a = fixvec(&[1.0, 0.0]);
    let b = fixvec(&[0.0, 1.0]);
    assert_eq!(cosine_similarity(&a, &b).unwrap(), 0);
}

#[test]
fn cosine_dimension_mismatch() {
    // vectors of length 384 and 383 are rejected
    let a: Vec<i64> = vec![1_000; 384];
    let b: Vec<i64> = vec![1_000; 383];
    assert_eq!(
        cosine_similarity(&a, &b),
        Err(EmbedError::DimensionMismatch)
    );
}

#[test]
fn cosine_zero_vector_scores_zero() {
    let a: Vec<i64> = vec![0, 0, 0];
    let b = fixvec(&[1.0, 2.0, 3.0]);
    assert_eq!(cosine_similarity(&a, &b).unwrap(), 0);
}

#[test]
fn error_descriptions() {
    assert_eq!(EmbedError::Tokenization.describe(), "tokenization failed");
    assert_eq!(EmbedError::ModelLoad.describe(), "model load failed");
    assert_eq!(EmbedError::Inference.describe(), "inference failed");
    assert_eq!(
        EmbedError::ShapeMismatch.describe(),
        "encoding shape mismatch"
    );
    assert_eq!(
        EmbedError::DimensionMismatch.describe(),
        "vector dimension mismatch"
    );
}
