//! Fixed-point embedding vectors and their arithmetic: dot product,
//! Euclidean norm via integer square root, L2 normalization, and cosine
//! similarity. A component `c` stands for the real value `c / SCALE`.

use vstd::prelude::*;
use vstd::arithmetic::div_mod::lemma_div_is_ordered;
use vstd::arithmetic::div_mod::lemma_div_multiples_vanish;
use vstd::arithmetic::div_mod::lemma_div_denominator;
use vstd::arithmetic::div_mod::lemma_hoist_over_denominator;
use vstd::arithmetic::mul::lemma_mul_inequality;
use vstd::arithmetic::mul::lemma_mul_is_commutative;
use crate::errors::EmbedError;

verus! {

/// Fixed-point scale: one unit of real value is `SCALE` component units.
pub const SCALE: i64 = 1_000_000;

/// Largest component magnitude the arithmetic accepts; keeps every
/// intermediate product and sum inside `i128`/`u128`.
pub const COMP_BOUND: i64 = 1_000_000_000;

/// Largest vector length the arithmetic accepts; with `COMP_BOUND` it keeps
/// `dot * SCALE` inside `u128`.
pub const DIM_LIMIT: usize = 100_000_000;

/// All components of `v` lie in `[-m, m]`.
pub open spec fn bounded(v: Seq<i64>, m: int) -> bool {
    forall|i: int| 0 <= i < v.len() ==> -m <= #[trigger] v[i] <= m
}

/// Mathematical dot product of two equal-length vectors.
pub open spec fn dot(a: Seq<i64>, b: Seq<i64>) -> int
    decreases a.len(),
{
    if a.len() == 0 {
        0
    } else {
        dot(a.drop_last(), b.drop_last()) + (a.last() as int) * (b.last() as int)
    }
}

/// Squared Euclidean norm.
pub open spec fn norm_sq(v: Seq<i64>) -> int {
    dot(v, v)
}

/// `r` is the floor of the square root of `x`.
pub open spec fn is_sqrt(x: int, r: int) -> bool {
    0 <= r && r * r <= x && x < (r + 1) * (r + 1)
}

/// The floor of the square root of a non-negative `x`.
pub open spec fn sqrt_floor(x: int) -> int {
    choose|r: int| is_sqrt(x, r)
}

/// Truncated (round-toward-zero) division of `x` by a positive `d`.
pub open spec fn div_trunc(x: int, d: int) -> int {
    if x >= 0 {
        x / d
    } else {
        -((-x) / d)
    }
}

proof fn lemma_dot_bound(a: Seq<i64>, b: Seq<i64>, m: int)
    requires
        a.len() == b.len(),
        0 <= m,
        bounded(a, m),
        bounded(b, m),
    ensures
        -(a.len() * m * m) <= dot(a, b) <= a.len() * m * m,
    decreases a.len(),
{
    if a.len() > 0 {
        assert(bounded(a.drop_last(), m));
        assert(bounded(b.drop_last(), m));
        lemma_dot_bound(a.drop_last(), b.drop_last(), m);
        assert(-m <= a.last() <= m && -m <= b.last() <= m);
        assert(-(m * m) <= (a.last() as int) * (b.last() as int) <= m * m) by (nonlinear_arith)
            requires
                -m <= a.last() <= m,
                -m <= b.last() <= m,
                0 <= m,
        ;
        assert((a.len() - 1) * m * m + m * m == a.len() * m * m) by (nonlinear_arith)
            requires
                a.len() >= 1,
        ;
    }
}

proof fn lemma_sqrt_unique(x: int, r1: int, r2: int)
    by (nonlinear_arith)
    requires
        is_sqrt(x, r1),
        is_sqrt(x, r2),
    ensures
        r1 == r2,
{
}

/// Computes the dot product of two equal-length bounded vectors exactly.
pub fn dot_product(a: &Vec<i64>, b: &Vec<i64>) -> (r: i128)
    requires
        a@.len() == b@.len(),
        a@.len() <= DIM_LIMIT,
        bounded(a@, COMP_BOUND as int),
        bounded(b@, COMP_BOUND as int),
    ensures
        r as int == dot(a@, b@),
{
    let n = a.len();
    let mut acc: i128 = 0;
    let mut i: usize = 0;
    while i < n
        invariant
            n == a@.len() == b@.len(),
            n <= DIM_LIMIT,
            bounded(a@, COMP_BOUND as int),
            bounded(b@, COMP_BOUND as int),
            0 <= i <= n,
            acc as int == dot(a@.take(i as int), b@.take(i as int)),
            -(i as int * (COMP_BOUND as int) * (COMP_BOUND as int)) <= acc as int
                <= i as int * (COMP_BOUND as int) * (COMP_BOUND as int),
        decreases n - i,
    {
        proof {
            let m = COMP_BOUND as int;
            assert(-(m * m) <= (a@[i as int] as int) * (b@[i as int] as int) <= m * m)
                by (nonlinear_arith)
                requires
                    -m <= a@[i as int] <= m,
                    -m <= b@[i as int] <= m,
            ;
            assert((i as int) * m * m + m * m == (i + 1) as int * m * m) by (nonlinear_arith);
            assert((i + 1) as int * m * m <= (DIM_LIMIT as int) * m * m) by (nonlinear_arith)
                requires
                    i + 1 <= DIM_LIMIT as int,
                    0 <= m,
            ;
        }
        let p: i128 = (a[i] as i128) * (b[i] as i128);
        acc = acc + p;
        proof {
            assert(a@.take(i + 1 as int).drop_last() =~= a@.take(i as int));
            assert(b@.take(i + 1 as int).drop_last() =~= b@.take(i as int));
            assert(a@.take(i + 1 as int).last() == a@[i as int]);
        }
        i = i + 1;
    }
    proof {
        assert(a@.take(n as int) =~= a@);
        assert(b@.take(n as int) =~= b@);
    }
    acc
}

/// Floor of the square root, by binary search.
pub fn isqrt(x: u128) -> (r: u64)
    requires
        (x as int) < 0x40000000000000000000000000000000,
    ensures
        is_sqrt(x as int, r as int),
        r as int == sqrt_floor(x as int),
        r < 0x8000000000000000,
{
    let mut lo: u64 = 0;
    let mut hi: u64 = 0x8000000000000000;
    proof {
        assert((hi as int) * (hi as int) == 0x40000000000000000000000000000000)
            by (nonlinear_arith)
            requires
                hi == 0x8000000000000000u64,
        ;
    }
    while lo + 1 < hi
        invariant
            lo < hi,
            hi <= 0x8000000000000000,
            (lo as int) * (lo as int) <= x as int,
            (x as int) < (hi as int) * (hi as int),
        decreases hi - lo,
    {
        let mid: u64 = lo + (hi - lo) / 2;
        proof {
            assert((mid as int) * (mid as int) < 0x40000000000000000000000000000000)
                by (nonlinear_arith)
                requires
                    mid < 0x8000000000000000,
            ;
        }
        let sq: u128 = (mid as u128) * (mid as u128);
        if sq <= x {
            lo = mid;
        } else {
            hi = mid;
        }
    }
    proof {
        assert(hi == lo + 1);
        assert(is_sqrt(x as int, lo as int));
        let c = sqrt_floor(x as int);
        assert(is_sqrt(x as int, c));
        lemma_sqrt_unique(x as int, lo as int, c);
    }
    lo
}

/// The squared norm is never negative.
pub proof fn lemma_norm_sq_nonneg(v: Seq<i64>)
    ensures
        norm_sq(v) >= 0,
    decreases v.len(),
{
    if v.len() > 0 {
        lemma_norm_sq_nonneg(v.drop_last());
        assert((v.last() as int) * (v.last() as int) >= 0) by (nonlinear_arith);
    }
}

/// Each component's square is at most the squared norm.
proof fn lemma_comp_sq_le_norm_sq(v: Seq<i64>, i: int)
    requires
        0 <= i < v.len(),
    ensures
        (v[i] as int) * (v[i] as int) <= norm_sq(v),
    decreases v.len(),
{
    if i == v.len() - 1 {
        lemma_norm_sq_nonneg(v.drop_last());
    } else {
        lemma_comp_sq_le_norm_sq(v.drop_last(), i);
        assert(v.drop_last()[i] == v[i]);
        assert((v.last() as int) * (v.last() as int) >= 0) by (nonlinear_arith);
    }
}

/// The dot product is symmetric.
pub proof fn lemma_dot_symmetric(a: Seq<i64>, b: Seq<i64>)
    requires
        a.len() == b.len(),
    ensures
        dot(a, b) == dot(b, a),
    decreases a.len(),
{
    if a.len() > 0 {
        lemma_dot_symmetric(a.drop_last(), b.drop_last());
    }
}

/// Cauchy-Schwarz: the dot product squared is at most the product of the
/// squared norms.
pub proof fn lemma_cauchy_schwarz(a: Seq<i64>, b: Seq<i64>)
    requires
        a.len() == b.len(),
    ensures
        dot(a, b) * dot(a, b) <= norm_sq(a) * norm_sq(b),
    decreases a.len(),
{
    if a.len() == 0 {
    } else {
        let a1 = a.drop_last();
        let b1 = b.drop_last();
        lemma_cauchy_schwarz(a1, b1);
        lemma_norm_sq_nonneg(a1);
        lemma_norm_sq_nonneg(b1);
        let d = dot(a1, b1);
        let aa = norm_sq(a1);
        let bb = norm_sq(b1);
        let x = a.last() as int;
        let y = b.last() as int;
        assert((aa * (y * y) - bb * (x * x)) * (aa * (y * y) - bb * (x * x)) >= 0)
            by (nonlinear_arith);
        assert(4 * (aa * bb) * ((x * y) * (x * y)) <= (aa * (y * y) + bb * (x * x)) * (aa * (y
            * y) + bb * (x * x))) by (nonlinear_arith)
            requires
                (aa * (y * y) - bb * (x * x)) * (aa * (y * y) - bb * (x * x)) >= 0,
        ;
        assert(4 * ((d * (x * y)) * (d * (x * y))) <= 4 * (aa * bb) * ((x * y) * (x * y)))
            by (nonlinear_arith)
            requires
                d * d <= aa * bb,
                aa * bb >= 0,
        ;
        assert(aa * (y * y) >= 0) by (nonlinear_arith)
            requires
                aa >= 0,
        ;
        assert(bb * (x * x) >= 0) by (nonlinear_arith)
            requires
                bb >= 0,
        ;
        let u = 2 * (d * (x * y));
        let w = aa * (y * y) + bb * (x * x);
        assert(u * u == 4 * ((d * (x * y)) * (d * (x * y)))) by (nonlinear_arith)
            requires
                u == 2 * (d * (x * y)),
        ;
        assert(u * u <= w * w);
        assert(u <= w) by (nonlinear_arith)
            requires
                u * u <= w * w,
                w >= 0,
        ;
        assert(2 * (d * (x * y)) <= aa * (y * y) + bb * (x * x));
        assert((d + x * y) * (d + x * y) == d * d + 2 * (d * (x * y)) + (x * y) * (x * y))
            by (nonlinear_arith);
        assert((aa + x * x) * (bb + y * y) == aa * bb + (aa * (y * y) + bb * (x * x)) + (x * y)
            * (x * y)) by (nonlinear_arith);
        assert((d + x * y) * (d + x * y) <= (aa + x * x) * (bb + y * y));
        assert(dot(a, b) == d + x * y);
        assert(norm_sq(a) == aa + x * x);
        assert(norm_sq(b) == bb + y * y);
    }
}

/// With `sa`, `sb` the floor square roots of the two squared norms, the dot
/// product's magnitude is below `(sa + 1) * (sb + 1)`.
proof fn lemma_dot_magnitude(a: Seq<i64>, b: Seq<i64>, sa: int, sb: int)
    requires
        a.len() == b.len(),
        is_sqrt(norm_sq(a), sa),
        is_sqrt(norm_sq(b), sb),
    ensures
        -((sa + 1) * (sb + 1)) < dot(a, b) < (sa + 1) * (sb + 1),
{
    lemma_cauchy_schwarz(a, b);
    let d = dot(a, b);
    assert(-((sa + 1) * (sb + 1)) < d < (sa + 1) * (sb + 1)) by (nonlinear_arith)
        requires
            d * d <= norm_sq(a) * norm_sq(b),
            0 <= norm_sq(a) < (sa + 1) * (sa + 1),
            0 <= norm_sq(b) < (sb + 1) * (sb + 1),
            sa >= 0,
            sb >= 0,
    ;
}

/// Value of component `i` of `v` after L2 normalization: scaled division by
/// the norm, or the component unchanged when the norm is zero.
pub open spec fn normalized_comp(v: Seq<i64>, i: int) -> int {
    if norm_sq(v) == 0 {
        v[i] as int
    } else {
        div_trunc((v[i] as int) * (SCALE as int), sqrt_floor(norm_sq(v)))
    }
}

/// L2-normalizes a vector: each component is divided by the Euclidean norm
/// (in fixed point: scaled by `SCALE`, divided by the integer norm). A
/// zero-norm vector is returned unchanged: the documented no-op that avoids
/// division by zero.
pub fn normalize(v: &Vec<i64>) -> (r: Vec<i64>)
    requires
        v@.len() <= DIM_LIMIT,
        bounded(v@, COMP_BOUND as int),
    ensures
        r@.len() == v@.len(),
        forall|i: int| 0 <= i < v@.len() ==> r@[i] as int == normalized_comp(v@, i),
        norm_sq(v@) == 0 ==> r@ == v@,
        norm_sq(v@) != 0 ==> bounded(r@, SCALE as int),
{
    proof {
        lemma_dot_bound(v@, v@, COMP_BOUND as int);
        lemma_norm_sq_nonneg(v@);
        let m = COMP_BOUND as int;
        assert((v@.len() as int) * m * m <= (DIM_LIMIT as int) * m * m) by (nonlinear_arith)
            requires
                0 <= v@.len() <= DIM_LIMIT as int,
                m >= 0,
        ;
    }
    let nsq_i = dot_product(v, v);
    let nsq: u128 = nsq_i as u128;
    proof {
        assert(nsq_i >= 0);
        assert(nsq as int == norm_sq(v@));
    }
    let s = isqrt(nsq);
    let n = v.len();
    let mut r: Vec<i64> = Vec::new();
    let mut i: usize = 0;
    if s == 0 {
        proof {
            assert(norm_sq(v@) == 0);
        }
        while i < n
            invariant
                n == v@.len(),
                0 <= i <= n,
                r@ =~= v@.take(i as int),
            decreases n - i,
        {
            r.push(v[i]);
            i = i + 1;
        }
        proof {
            assert(v@.take(n as int) =~= v@);
            assert(r@ =~= v@);
        }
        r
    } else {
        proof {
            assert(norm_sq(v@) >= (s as int) * (s as int));
            assert((s as int) * (s as int) >= 1) by (nonlinear_arith)
                requires
                    s >= 1,
            ;
        }
        while i < n
            invariant
                n == v@.len(),
                n <= DIM_LIMIT,
                bounded(v@, COMP_BOUND as int),
                0 <= i <= n,
                1 <= s,
                is_sqrt(norm_sq(v@), s as int),
                s as int == sqrt_floor(norm_sq(v@)),
                norm_sq(v@) != 0,
                r@.len() == i,
                forall|k: int| 0 <= k < i ==> #[trigger] (r@[k] as int) == normalized_comp(
                    v@,
                    k,
                ),
                forall|k: int| 0 <= k < i ==> -(SCALE as int) <= #[trigger] r@[k] <= SCALE as int,
            decreases n - i,
        {
            let xi = v[i];
            proof {
                lemma_comp_sq_le_norm_sq(v@, i as int);
                assert(-(s as int) <= xi as int <= s as int) by (nonlinear_arith)
                    requires
                        (xi as int) * (xi as int) <= norm_sq(v@),
                        norm_sq(v@) < ((s as int) + 1) * ((s as int) + 1),
                        s >= 1,
                ;
            }
            let mag: u64 = if xi >= 0 {
                xi as u64
            } else {
                (-xi) as u64
            };
            let num: u128 = (mag as u128) * (SCALE as u128);
            let q: u128 = num / (s as u128);
            proof {
                lemma_mul_inequality(mag as int, s as int, SCALE as int);
                lemma_div_is_ordered(num as int, (s as int) * (SCALE as int), s as int);
                lemma_div_multiples_vanish(SCALE as int, s as int);
                assert((s as int) * (SCALE as int) == (SCALE as int) * (s as int));
                assert(q as int <= SCALE as int);
                assert(q as int == ((mag as int) * (SCALE as int)) / (s as int));
            }
            let y: i64 = if xi >= 0 {
                q as i64
            } else {
                -(q as i64)
            };
            proof {
                assert(y as int == normalized_comp(v@, i as int));
            }
            r.push(y);
            i = i + 1;
        }
        r
    }
}

/// Fixed-point cosine similarity of two equal-length vectors:
/// `dot(a, b) * SCALE` divided (truncating) by the product of the two
/// integer norms, or zero when either norm is zero.
pub open spec fn cosine_spec(a: Seq<i64>, b: Seq<i64>) -> int {
    let na = sqrt_floor(norm_sq(a));
    let nb = sqrt_floor(norm_sq(b));
    if na == 0 || nb == 0 {
        0
    } else {
        div_trunc(dot(a, b) * (SCALE as int), na * nb)
    }
}

/// A score clamped to the representable unit range `[-SCALE, SCALE]`.
pub open spec fn clamp_unit(x: int) -> int {
    if x > SCALE as int {
        SCALE as int
    } else if x < -(SCALE as int) {
        -(SCALE as int)
    } else {
        x
    }
}

/// Computes cosine similarity between two vectors. Vectors of unequal
/// length are rejected with `DimensionMismatch`; norms are recomputed
/// defensively rather than assumed to be one. The score is clamped to the
/// unit range, where the mathematical cosine always lies: without clamping
/// the floor square roots could overshoot it by their rounding slack.
pub fn cosine_similarity(a: &Vec<i64>, b: &Vec<i64>) -> (r: Result<i64, EmbedError>)
    requires
        a@.len() <= DIM_LIMIT,
        b@.len() <= DIM_LIMIT,
        bounded(a@, COMP_BOUND as int),
        bounded(b@, COMP_BOUND as int),
    ensures
        match r {
            Ok(c) => a@.len() == b@.len() && c as int == clamp_unit(cosine_spec(a@, b@)) && -(
            SCALE as int) <= c as int <= SCALE as int,
            Err(e) => a@.len() != b@.len() && e == EmbedError::DimensionMismatch,
        },
{
    if a.len() != b.len() {
        return Err(EmbedError::DimensionMismatch);
    }
    proof {
        lemma_dot_bound(a@, a@, COMP_BOUND as int);
        lemma_dot_bound(b@, b@, COMP_BOUND as int);
        lemma_dot_bound(a@, b@, COMP_BOUND as int);
        lemma_norm_sq_nonneg(a@);
        lemma_norm_sq_nonneg(b@);
        let m = COMP_BOUND as int;
        assert((a@.len() as int) * m * m <= (DIM_LIMIT as int) * m * m) by (nonlinear_arith)
            requires
                0 <= a@.len() <= DIM_LIMIT as int,
                m >= 0,
        ;
    }
    let naa = dot_product(a, a);
    let nbb = dot_product(b, b);
    proof {
        assert(naa >= 0);
        assert(nbb >= 0);
        assert((naa as u128) as int == norm_sq(a@));
        assert((nbb as u128) as int == norm_sq(b@));
    }
    let sa = isqrt(naa as u128);
    let sb = isqrt(nbb as u128);
    if sa == 0 || sb == 0 {
        return Ok(0);
    }
    let d = dot_product(a, b);
    proof {
        lemma_dot_magnitude(a@, b@, sa as int, sb as int);
        assert((sa as int) * (sb as int) >= 1) by (nonlinear_arith)
            requires
                sa >= 1,
                sb >= 1,
        ;
        assert((sa as u128) * (sb as u128) < 0x40000000000000000000000000000000)
            by (nonlinear_arith)
            requires
                sa < 0x8000000000000000u64,
                sb < 0x8000000000000000u64,
        ;
    }
    let denom: u128 = (sa as u128) * (sb as u128);
    let mag: u128 = if d >= 0 {
        d as u128
    } else {
        (-d) as u128
    };
    proof {
        assert(mag as int <= (DIM_LIMIT as int) * (COMP_BOUND as int) * (COMP_BOUND as int));
        assert((mag as u128) * (SCALE as u128) <= u128::MAX) by (nonlinear_arith)
            requires
                mag as int <= (DIM_LIMIT as int) * (COMP_BOUND as int) * (COMP_BOUND as int),
        ;
    }
    let num: u128 = mag * (SCALE as u128);
    let q: u128 = num / denom;
    proof {
        let p = (sa as int) * (sb as int);
        assert(denom as int == p);
        assert(num as int == (mag as int) * (SCALE as int));
        assert(q as int == ((mag as int) * (SCALE as int)) / p);
        assert(mag as int <= p + (sa as int) + (sb as int)) by (nonlinear_arith)
            requires
                -(((sa as int) + 1) * ((sb as int) + 1)) < (d as int),
                (d as int) < ((sa as int) + 1) * ((sb as int) + 1),
                p == (sa as int) * (sb as int),
                mag as int == if d >= 0 {
                    d as int
                } else {
                    -(d as int)
                },
        ;
        assert((p + (sa as int) + (sb as int)) <= 3 * p) by (nonlinear_arith)
            requires
                sa >= 1,
                sb >= 1,
                p == (sa as int) * (sb as int),
        ;
        lemma_mul_inequality(mag as int, 3 * p, SCALE as int);
        assert((3 * p) * (SCALE as int) == (3 * (SCALE as int)) * p) by (nonlinear_arith);
        lemma_div_is_ordered((mag as int) * (SCALE as int), (3 * (SCALE as int)) * p, p);
        lemma_div_multiples_vanish(3 * (SCALE as int), p);
        assert(q as int <= 3 * (SCALE as int));
    }
    let qc: u128 = if q > SCALE as u128 {
        SCALE as u128
    } else {
        q
    };
    let c: i64 = if d >= 0 {
        qc as i64
    } else {
        -(qc as i64)
    };
    proof {
        assert(c as int == clamp_unit(cosine_spec(a@, b@)));
    }
    Ok(c)
}

/// Every non-negative integer has a floor square root.
pub proof fn lemma_sqrt_exists(x: int)
    requires
        x >= 0,
    ensures
        is_sqrt(x, sqrt_floor(x)),
    decreases x,
{
    if x == 0 {
        assert(is_sqrt(0, 0));
    } else {
        lemma_sqrt_exists(x - 1);
        let r = sqrt_floor(x - 1);
        if x < (r + 1) * (r + 1) {
            assert(is_sqrt(x, r));
        } else {
            assert(is_sqrt(x, r + 1)) by (nonlinear_arith)
                requires
                    is_sqrt(x - 1, r),
                    x >= (r + 1) * (r + 1),
            ;
        }
        assert(exists|s: int| is_sqrt(x, s));
    }
}

/// Cosine similarity is symmetric in its two arguments.
pub proof fn lemma_cosine_symmetric(a: Seq<i64>, b: Seq<i64>)
    requires
        a.len() == b.len(),
    ensures
        cosine_spec(a, b) == cosine_spec(b, a),
{
    lemma_dot_symmetric(a, b);
    lemma_mul_is_commutative(sqrt_floor(norm_sq(a)), sqrt_floor(norm_sq(b)));
}

/// `w` is the componentwise negation of `v`.
pub open spec fn is_negation(w: Seq<i64>, v: Seq<i64>) -> bool {
    &&& w.len() == v.len()
    &&& forall|i: int| 0 <= i < v.len() ==> (#[trigger] w[i]) as int == -(v[i] as int)
}

proof fn lemma_dot_negation(a: Seq<i64>, w: Seq<i64>, v: Seq<i64>)
    requires
        a.len() == v.len(),
        is_negation(w, v),
    ensures
        dot(a, w) == -dot(a, v),
    decreases a.len(),
{
    if a.len() > 0 {
        assert(is_negation(w.drop_last(), v.drop_last()));
        lemma_dot_negation(a.drop_last(), w.drop_last(), v.drop_last());
        assert((a.last() as int) * (w.last() as int) == -((a.last() as int) * (v.last() as int)))
            by (nonlinear_arith)
            requires
                (w.last() as int) == -(v.last() as int),
        ;
    }
}

proof fn lemma_norm_sq_negation(w: Seq<i64>, v: Seq<i64>)
    requires
        is_negation(w, v),
    ensures
        norm_sq(w) == norm_sq(v),
    decreases v.len(),
{
    if v.len() > 0 {
        assert(is_negation(w.drop_last(), v.drop_last()));
        lemma_norm_sq_negation(w.drop_last(), v.drop_last());
        assert((w.last() as int) * (w.last() as int) == (v.last() as int) * (v.last() as int))
            by (nonlinear_arith)
            requires
                (w.last() as int) == -(v.last() as int),
        ;
    }
}

/// Cosine similarity of a vector with its componentwise negation is the
/// exact negation of its self-similarity, clamped or not.
pub proof fn lemma_cosine_opposite(v: Seq<i64>, w: Seq<i64>)
    requires
        is_negation(w, v),
    ensures
        cosine_spec(v, w) == -cosine_spec(v, v),
        clamp_unit(cosine_spec(v, w)) == -clamp_unit(cosine_spec(v, v)),
{
    lemma_norm_sq_negation(w, v);
    lemma_dot_negation(v, w, v);
    lemma_norm_sq_nonneg(v);
    let s = sqrt_floor(norm_sq(v));
    if s != 0 {
        let x = dot(v, v) * (SCALE as int);
        assert(dot(v, w) * (SCALE as int) == -x);
        assert(x >= 0) by (nonlinear_arith)
            requires
                dot(v, v) >= 0,
                x == dot(v, v) * (SCALE as int),
        ;
        lemma_sqrt_exists(norm_sq(v));
        assert(s * s > 0) by (nonlinear_arith)
            requires
                is_sqrt(norm_sq(v), s),
                s != 0,
        ;
        if x == 0 {
            vstd::arithmetic::div_mod::lemma_div_of0(s * s);
            assert(div_trunc(-x, s * s) == 0);
            assert(div_trunc(x, s * s) == 0);
        }
    }
}

/// Self-similarity of a non-zero vector: the raw score is at least `SCALE`
/// (exactly one in fixed point) and above it by no more than the rounding
/// slack of the integer square root, so the clamped score is exactly one.
pub proof fn lemma_cosine_self(v: Seq<i64>)
    requires
        norm_sq(v) > 0,
    ensures
        SCALE as int <= cosine_spec(v, v),
        cosine_spec(v, v) <= SCALE as int + (2 * (SCALE as int)) / sqrt_floor(norm_sq(v)),
        clamp_unit(cosine_spec(v, v)) == SCALE as int,
{
    let nsq = norm_sq(v);
    let sc = SCALE as int;
    lemma_sqrt_exists(nsq);
    let s = sqrt_floor(nsq);
    assert(s >= 1) by (nonlinear_arith)
        requires
            is_sqrt(nsq, s),
            nsq > 0,
    ;
    assert(s * s >= 1) by (nonlinear_arith)
        requires
            s >= 1,
    ;
    let q = (nsq * sc) / (s * s);
    assert(cosine_spec(v, v) == q);
    // lower bound: nsq >= s * s, so the quotient is at least SCALE
    lemma_mul_inequality(s * s, nsq, sc);
    lemma_div_is_ordered((s * s) * sc, nsq * sc, s * s);
    lemma_div_multiples_vanish(sc, s * s);
    assert(((s * s) * sc) / (s * s) == sc);
    assert(q >= sc);
    // upper bound: nsq <= s * s + 2 * s
    assert(nsq <= s * s + 2 * s) by (nonlinear_arith)
        requires
            is_sqrt(nsq, s),
    ;
    lemma_mul_inequality(nsq, s * s + 2 * s, sc);
    lemma_div_is_ordered(nsq * sc, (s * s + 2 * s) * sc, s * s);
    assert((s * s + 2 * s) * sc == s * ((s + 2) * sc)) by (nonlinear_arith);
    lemma_div_denominator(s * ((s + 2) * sc), s, s);
    lemma_div_multiples_vanish((s + 2) * sc, s);
    assert((s * ((s + 2) * sc)) / (s * s) == ((s + 2) * sc) / s);
    assert((s + 2) * sc == 2 * sc + sc * s) by (nonlinear_arith);
    lemma_hoist_over_denominator(2 * sc, sc, s as nat);
    assert(((s + 2) * sc) / s == (2 * sc) / s + sc);
    assert(q <= sc + (2 * sc) / s);
}

/// Normalization is idempotent where it can be: on a vector whose integer
/// norm is exactly `SCALE` — length one, in fixed point — it is the
/// identity, so a second application returns the first's result unchanged;
/// and on a zero-norm vector both applications are the documented no-op.
/// For vectors of very small norm the integer square root's relative slack
/// breaks the tolerance, so no unrestricted statement holds.
pub proof fn lemma_normalize_idempotent(w: Seq<i64>)
    requires
        norm_sq(w) == 0 || sqrt_floor(norm_sq(w)) == SCALE as int,
    ensures
        forall|i: int| 0 <= i < w.len() ==> normalized_comp(w, i) == w[i] as int,
{
    let sc = SCALE as int;
    lemma_norm_sq_nonneg(w);
    if norm_sq(w) != 0 {
        lemma_sqrt_exists(norm_sq(w));
        assert forall|i: int| 0 <= i < w.len() implies normalized_comp(w, i) == w[i] as int by {
            let x = w[i] as int;
            if x >= 0 {
                lemma_div_multiples_vanish(x, sc);
                assert((sc * x) / sc == x);
            } else {
                lemma_div_multiples_vanish(-x, sc);
                assert((sc * (-x)) / sc == -x);
            }
        }
    }
}

/// Componentwise negation.
pub fn negate(v: &Vec<i64>) -> (r: Vec<i64>)
    requires
        bounded(v@, COMP_BOUND as int),
    ensures
        is_negation(r@, v@),
        bounded(r@, COMP_BOUND as int),
{
    let n = v.len();
    let mut r: Vec<i64> = Vec::new();
    let mut i: usize = 0;
    while i < n
        invariant
            n == v@.len(),
            bounded(v@, COMP_BOUND as int),
            0 <= i <= n,
            r@.len() == i,
            forall|k: int| 0 <= k < i ==> (#[trigger] r@[k]) as int == -(v@[k] as int),
            bounded(r@, COMP_BOUND as int),
        decreases n - i,
    {
        r.push(-v[i]);
        i = i + 1;
    }
    r
}

} // verus!
