//! The decay-weight engine, in fixed point.
//!
//! A weight is a whole number of millionths, so the most recent entry's
//! weight 1.0 is `WEIGHT_SCALE`.  For a decay rate of `c` hundredths, the
//! weight with age `k` is obtained by `k` fixed-point multiplications by
//! `c/100`, starting from `WEIGHT_SCALE`.  Means and standard deviations
//! come out in hundredths, matching the two decimals the interface shows.

use vstd::prelude::*;
use vstd::arithmetic::div_mod::{lemma_div_is_ordered, lemma_div_multiples_vanish, lemma_div_pos_is_pos};
use crate::rate::DecayRate;
use crate::store::ScoreEntry;

verus! {

/// The fixed-point weight of the most recent entry: 1.0 in millionths.
pub const WEIGHT_SCALE: u64 = 1_000_000;

/// Largest score value the statistics accept; keeps every fixed-point
/// intermediate inside 128 bits.
pub const MAX_STAT_SCORE: i64 = 1_000_000_000_000;

/// Largest score-sequence length the statistics accept; keeps every
/// fixed-point intermediate inside 128 bits.
pub const MAX_STAT_LEN: usize = 1_000_000;

/// The weight, in millionths, of an entry `k` places older than the most
/// recent one, for a decay rate of `c` hundredths: `k` truncating
/// fixed-point multiplications by `c/100`, starting from 1.0.
pub open spec fn weight_pow(c: int, k: nat) -> int
    decreases k,
{
    if k == 0 {
        WEIGHT_SCALE as int
    } else {
        weight_pow(c, (k - 1) as nat) * c / 100
    }
}

/// The sum of a weight vector.
pub open spec fn sum_weights(w: Seq<u64>) -> int
    decreases w.len(),
{
    if w.len() == 0 {
        0
    } else {
        sum_weights(w.drop_last()) + w.last()
    }
}

/// The weighted sum of the values.
pub open spec fn dot_scores(v: Seq<i64>, w: Seq<u64>) -> int
    decreases v.len(),
{
    if v.len() == 0 {
        0
    } else {
        dot_scores(v.drop_last(), w.drop_last()) + v.last() * w.last()
    }
}

/// The weighted sum of squared deviations from `m`.
pub open spec fn dev_sum(v: Seq<i64>, w: Seq<u64>, m: int) -> int
    decreases v.len(),
{
    if v.len() == 0 {
        0
    } else {
        dev_sum(v.drop_last(), w.drop_last(), m) + w.last() * ((v.last() - m) * (v.last() - m))
    }
}

/// The weighted mean, rounded down to whole units; 0 for an empty sequence.
pub open spec fn mean_whole_of(v: Seq<i64>, w: Seq<u64>) -> int {
    if v.len() == 0 {
        0
    } else {
        dot_scores(v, w) / sum_weights(w)
    }
}

/// The weighted mean in hundredths, rounded down; 0 for an empty sequence.
pub open spec fn mean_centi_of(v: Seq<i64>, w: Seq<u64>) -> int {
    if v.len() == 0 {
        0
    } else {
        100 * dot_scores(v, w) / sum_weights(w)
    }
}

/// The weighted variance about the whole-unit mean, rounded down; 0 for an
/// empty sequence.
pub open spec fn variance_of(v: Seq<i64>, w: Seq<u64>) -> int {
    if v.len() == 0 {
        0
    } else {
        dev_sum(v, w, mean_whole_of(v, w)) / sum_weights(w)
    }
}

/// `r` is the integer square root of `x`.
pub open spec fn is_isqrt(x: int, r: int) -> bool {
    r >= 0 && r * r <= x && x < (r + 1) * (r + 1)
}

/// The score values of a run of entries, in order.
pub open spec fn scores_of_entries(es: Seq<ScoreEntry>) -> Seq<i64> {
    Seq::new(es.len(), |i: int| es[i]@.score as i64)
}

/// Decay weights never leave [0, 1.0]: ageing can only shrink them.
pub proof fn lemma_weight_pow_bounds(c: int, k: nat)
    requires
        1 <= c <= 100,
    ensures
        0 <= weight_pow(c, k) <= WEIGHT_SCALE,
    decreases k,
{
    if k > 0 {
        lemma_weight_pow_bounds(c, (k - 1) as nat);
        let w = weight_pow(c, (k - 1) as nat);
        assert(0 <= w * c <= 100 * (WEIGHT_SCALE as int)) by (nonlinear_arith)
            requires
                0 <= w <= WEIGHT_SCALE,
                1 <= c <= 100,
        ;
        assert(w * c / 100 <= WEIGHT_SCALE) by {
            lemma_div_is_ordered(w * c, 100 * (WEIGHT_SCALE as int), 100);
            lemma_div_multiples_vanish(WEIGHT_SCALE as int, 100);
        }
        assert(w * c / 100 >= 0) by {
            if w * c > 0 {
                lemma_div_pos_is_pos(w * c, 100);
            }
        }
    }
}

/// The law of decay weights: the most recent entry's weight is exactly 1.0;
/// weights never increase with age; with a decay rate of 1.00 every weight
/// is exactly 1.0; with a smaller rate, a weight strictly shrinks with age
/// until it reaches 0.
pub proof fn lemma_decay_weights(c: int, k: nat)
    requires
        1 <= c <= 100,
    ensures
        weight_pow(c, 0) == WEIGHT_SCALE,
        weight_pow(c, k + 1) <= weight_pow(c, k),
        c == 100 ==> weight_pow(c, k) == WEIGHT_SCALE,
        c < 100 && weight_pow(c, k) > 0 ==> weight_pow(c, k + 1) < weight_pow(c, k),
    decreases k,
{
    lemma_weight_pow_bounds(c, k);
    let w = weight_pow(c, k);
    assert(weight_pow(c, k + 1) == w * c / 100);
    assert(w * c <= w * 100) by (nonlinear_arith)
        requires
            0 <= w,
            c <= 100,
    ;
    assert(w * c / 100 <= w) by {
        lemma_div_is_ordered(w * c, w * 100, 100);
        lemma_div_multiples_vanish(w, 100);
        assert(w * 100 == 100 * w);
    }
    if c == 100 {
        if k > 0 {
            lemma_decay_weights(c, (k - 1) as nat);
        }
        assert(w * 100 / 100 == w) by {
            lemma_div_multiples_vanish(w, 100);
            assert(w * 100 == 100 * w);
        }
    }
    if c < 100 && w > 0 {
        assert(w * c < w * 100) by (nonlinear_arith)
            requires
                0 < w,
                c < 100,
        ;
        assert(w * c / 100 < w) by (nonlinear_arith)
            requires
                0 <= w * c,
                w * c < w * 100,
        ;
    }
}

/// Weight sums are never negative.
pub proof fn lemma_sum_nonneg(w: Seq<u64>)
    ensures
        sum_weights(w) >= 0,
    decreases w.len(),
{
    if w.len() > 0 {
        lemma_sum_nonneg(w.drop_last());
    }
}

/// A weight sum is at least its final element and at most length times the
/// largest element bound.
pub proof fn lemma_sum_bounds(w: Seq<u64>, b: int)
    requires
        forall|i: int| 0 <= i < w.len() ==> #[trigger] w[i] <= b,
    ensures
        sum_weights(w) <= w.len() * b,
        w.len() > 0 ==> sum_weights(w) >= w.last(),
    decreases w.len(),
{
    if w.len() > 0 {
        lemma_sum_bounds(w.drop_last(), b);
        lemma_sum_nonneg(w.drop_last());
        assert(w.drop_last().len() * b + b == w.len() * b) by (nonlinear_arith)
            requires
                w.len() >= 1,
                w.drop_last().len() == w.len() - 1,
        ;
        assert(w.last() <= b);
    }
}

/// A weighted sum of values in [0, m] lies in [0, m * sum of weights].
pub proof fn lemma_dot_bounds(v: Seq<i64>, w: Seq<u64>, m: int)
    requires
        v.len() == w.len(),
        forall|i: int| 0 <= i < v.len() ==> 0 <= #[trigger] v[i] <= m,
    ensures
        0 <= dot_scores(v, w),
        dot_scores(v, w) <= m * sum_weights(w),
    decreases v.len(),
{
    if v.len() > 0 {
        lemma_dot_bounds(v.drop_last(), w.drop_last(), m);
        lemma_sum_nonneg(w.drop_last());
        let a = v.last() as int;
        let b = w.last() as int;
        assert(0 <= a * b && a * b <= m * b) by (nonlinear_arith)
            requires
                0 <= a <= m,
                0 <= b,
        ;
        assert(m * sum_weights(w.drop_last()) + m * b == m * sum_weights(w)) by (nonlinear_arith)
            requires
                sum_weights(w) == sum_weights(w.drop_last()) + b,
        ;
    }
}

/// A weighted sum of squared deviations, each at most `b`, lies in
/// [0, b * sum of weights].
pub proof fn lemma_dev_sum_bounds(v: Seq<i64>, w: Seq<u64>, m: int, b: int)
    requires
        v.len() == w.len(),
        forall|i: int| 0 <= i < v.len() ==> ((#[trigger] v[i]) - m) * (v[i] - m) <= b,
    ensures
        0 <= dev_sum(v, w, m),
        dev_sum(v, w, m) <= b * sum_weights(w),
    decreases v.len(),
{
    if v.len() > 0 {
        lemma_dev_sum_bounds(v.drop_last(), w.drop_last(), m, b);
        lemma_sum_nonneg(w.drop_last());
        let d = (v.last() - m) as int;
        let ww = w.last() as int;
        assert(d * d >= 0) by (nonlinear_arith);
        assert(0 <= ww * (d * d) && ww * (d * d) <= ww * b) by (nonlinear_arith)
            requires
                0 <= ww,
                0 <= d * d,
                d * d <= b,
        ;
        assert(b * sum_weights(w.drop_last()) + ww * b == b * sum_weights(w)) by (nonlinear_arith)
            requires
                sum_weights(w) == sum_weights(w.drop_last()) + ww,
        ;
    }
}

/// The weighted sum of a constant sequence is the constant times the weight
/// sum.
pub proof fn lemma_dot_of_constant(v: Seq<i64>, w: Seq<u64>, s: int)
    requires
        v.len() == w.len(),
        forall|i: int| 0 <= i < v.len() ==> #[trigger] v[i] == s,
    ensures
        dot_scores(v, w) == s * sum_weights(w),
    decreases v.len(),
{
    if v.len() == 0 {
        assert(s * 0 == 0) by (nonlinear_arith);
    } else {
        lemma_dot_of_constant(v.drop_last(), w.drop_last(), s);
        assert(s * sum_weights(w.drop_last()) + s * w.last() == s * sum_weights(w))
            by (nonlinear_arith)
            requires
                sum_weights(w) == sum_weights(w.drop_last()) + w.last(),
        ;
    }
}

/// The decay weights for `n` entries in insertion order: the entry at
/// position `i` has age `n - 1 - i`, so the last entry carries weight 1.0
/// and older entries carry ever smaller weights.
pub fn generate_weights(decay_rate: DecayRate, n: usize) -> (r: Vec<u64>)
    requires
        decay_rate.valid(),
    ensures
        r@.len() == n,
        forall|i: int|
            0 <= i < n ==> (#[trigger] r@[i]) as int == weight_pow(
                decay_rate.spec_centi(),
                (n - 1 - i) as nat,
            ),
        forall|i: int| 0 <= i < n ==> #[trigger] r@[i] <= WEIGHT_SCALE,
{
    let ghost c = decay_rate.spec_centi();
    let centi = decay_rate.centi();
    let mut asc: Vec<u64> = Vec::new();
    let mut w: u64 = WEIGHT_SCALE;
    let mut i: usize = 0;
    while i < n
        invariant
            i <= n,
            asc@.len() == i,
            c == centi as int,
            1 <= c <= 100,
            forall|k: int| 0 <= k < i ==> (#[trigger] asc@[k]) as int == weight_pow(c, k as nat),
            w as int == weight_pow(c, i as nat),
            w <= WEIGHT_SCALE,
        decreases n - i,
    {
        asc.push(w);
        proof {
            assert((w as int) * (centi as int) <= 100_000_000) by (nonlinear_arith)
                requires
                    0 <= w as int <= 1_000_000,
                    0 <= centi as int <= 100,
            ;
        }
        w = w * (centi as u64) / 100;
        i += 1;
        proof {
            lemma_weight_pow_bounds(c, i as nat);
        }
    }
    let mut r: Vec<u64> = Vec::new();
    let mut j: usize = 0;
    while j < n
        invariant
            j <= n,
            r@.len() == j,
            asc@.len() == n,
            c == centi as int,
            1 <= c <= 100,
            forall|k: int| 0 <= k < n ==> (#[trigger] asc@[k]) as int == weight_pow(c, k as nat),
            forall|k: int|
                0 <= k < j ==> (#[trigger] r@[k]) as int == weight_pow(c, (n - 1 - k) as nat),
            forall|k: int| 0 <= k < j ==> #[trigger] r@[k] <= WEIGHT_SCALE,
        decreases n - j,
    {
        r.push(asc[n - 1 - j]);
        proof {
            lemma_weight_pow_bounds(c, (n - 1 - j) as nat);
        }
        j += 1;
    }
    r
}

/// Accumulates the weight sum and the weighted score sum in one pass.
fn weight_score_sums(values: &Vec<i64>, weights: &Vec<u64>) -> (r: (u128, u128))
    requires
        values@.len() == weights@.len(),
        values@.len() <= MAX_STAT_LEN,
        forall|i: int| 0 <= i < values@.len() ==> 0 <= #[trigger] values@[i] <= MAX_STAT_SCORE,
        forall|i: int| 0 <= i < weights@.len() ==> #[trigger] weights@[i] <= WEIGHT_SCALE,
    ensures
        r.0 as int == dot_scores(values@, weights@),
        r.1 as int == sum_weights(weights@),
        r.0 <= 1_000_000_000_000_000_000_000_000u128,
        r.1 <= 1_000_000_000_000u128,
{
    let n = values.len();
    let mut dot: u128 = 0;
    let mut sw: u128 = 0;
    let mut i: usize = 0;
    while i < n
        invariant
            i <= n,
            n == values@.len(),
            n == weights@.len(),
            n <= MAX_STAT_LEN,
            forall|k: int| 0 <= k < n ==> 0 <= #[trigger] values@[k] <= MAX_STAT_SCORE,
            forall|k: int| 0 <= k < n ==> #[trigger] weights@[k] <= WEIGHT_SCALE,
            dot as int == dot_scores(
                values@.subrange(0, i as int),
                weights@.subrange(0, i as int),
            ),
            sw as int == sum_weights(weights@.subrange(0, i as int)),
            dot as int <= (i as int) * 1_000_000_000_000_000_000,
            sw as int <= (i as int) * 1_000_000,
        decreases n - i,
    {
        let v = values[i];
        let w = weights[i];
        proof {
            assert((v as int) * (w as int) <= 1_000_000_000_000_000_000) by (nonlinear_arith)
                requires
                    0 <= v as int <= 1_000_000_000_000,
                    0 <= w as int <= 1_000_000,
            ;
            assert((i as int) * 1_000_000_000_000_000_000 + 1_000_000_000_000_000_000 == ((
            i + 1) as int) * 1_000_000_000_000_000_000) by (nonlinear_arith);
            assert((i as int) * 1_000_000_000_000_000_000 <= 1_000_000
                * 1_000_000_000_000_000_000int) by (nonlinear_arith)
                requires
                    0 <= i as int <= 1_000_000,
            ;
            assert((i as int) * 1_000_000 + 1_000_000 == ((i + 1) as int) * 1_000_000)
                by (nonlinear_arith);
            assert((i as int) * 1_000_000 <= 1_000_000 * 1_000_000int) by (nonlinear_arith)
                requires
                    0 <= i as int <= 1_000_000,
            ;
        }
        dot = dot + (v as u128) * (w as u128);
        sw = sw + (w as u128);
        proof {
            assert(values@.subrange(0, (i + 1) as int).drop_last() =~= values@.subrange(
                0,
                i as int,
            ));
            assert(weights@.subrange(0, (i + 1) as int).drop_last() =~= weights@.subrange(
                0,
                i as int,
            ));
            assert(values@.subrange(0, (i + 1) as int).last() == values@[i as int]);
            assert(weights@.subrange(0, (i + 1) as int).last() == weights@[i as int]);
        }
        i += 1;
    }
    proof {
        assert(values@.subrange(0, n as int) =~= values@);
        assert(weights@.subrange(0, n as int) =~= weights@);
        assert((n as int) * 1_000_000_000_000_000_000 <= 1_000_000_000_000_000_000_000_000int)
            by (nonlinear_arith)
            requires
                0 <= n as int <= 1_000_000,
        ;
        assert((n as int) * 1_000_000 <= 1_000_000_000_000int) by (nonlinear_arith)
            requires
                0 <= n as int <= 1_000_000,
        ;
    }
    (dot, sw)
}

/// The weighted mean of the values, in hundredths, rounded down.
pub fn weighted_mean(values: &Vec<i64>, weights: &Vec<u64>) -> (r: i64)
    requires
        values@.len() == weights@.len(),
        values@.len() > 0,
        values@.len() <= MAX_STAT_LEN,
        forall|i: int| 0 <= i < values@.len() ==> 0 <= #[trigger] values@[i] <= MAX_STAT_SCORE,
        forall|i: int| 0 <= i < weights@.len() ==> #[trigger] weights@[i] <= WEIGHT_SCALE,
        sum_weights(weights@) > 0,
    ensures
        r as int == mean_centi_of(values@, weights@),
        0 <= r as int <= 100 * MAX_STAT_SCORE,
{
    let (dot, sw) = weight_score_sums(values, weights);
    let m = 100 * dot / sw;
    proof {
        lemma_dot_bounds(values@, weights@, MAX_STAT_SCORE as int);
        let d = dot_scores(values@, weights@);
        let s = sum_weights(weights@);
        assert(100 * d <= (100 * MAX_STAT_SCORE) * s) by (nonlinear_arith)
            requires
                d <= MAX_STAT_SCORE * s,
        ;
        lemma_div_is_ordered(100 * d, (100 * MAX_STAT_SCORE) * s, s);
        lemma_div_multiples_vanish(100 * MAX_STAT_SCORE as int, s);
        assert(s * (100 * MAX_STAT_SCORE) == (100 * MAX_STAT_SCORE) * s) by (nonlinear_arith);
        if 100 * d > 0 {
            lemma_div_pos_is_pos(100 * d, s);
        }
    }
    m as i64
}

/// The weighted mean of the values, rounded down to whole units.
fn weighted_mean_whole(values: &Vec<i64>, weights: &Vec<u64>) -> (r: i64)
    requires
        values@.len() == weights@.len(),
        values@.len() > 0,
        values@.len() <= MAX_STAT_LEN,
        forall|i: int| 0 <= i < values@.len() ==> 0 <= #[trigger] values@[i] <= MAX_STAT_SCORE,
        forall|i: int| 0 <= i < weights@.len() ==> #[trigger] weights@[i] <= WEIGHT_SCALE,
        sum_weights(weights@) > 0,
    ensures
        r as int == mean_whole_of(values@, weights@),
        0 <= r <= MAX_STAT_SCORE,
{
    let (dot, sw) = weight_score_sums(values, weights);
    let m = dot / sw;
    proof {
        lemma_dot_bounds(values@, weights@, MAX_STAT_SCORE as int);
        let d = dot_scores(values@, weights@);
        let s = sum_weights(weights@);
        lemma_div_is_ordered(d, MAX_STAT_SCORE * s, s);
        lemma_div_multiples_vanish(MAX_STAT_SCORE as int, s);
        assert(s * (MAX_STAT_SCORE as int) == MAX_STAT_SCORE * s) by (nonlinear_arith);
        if d > 0 {
            lemma_div_pos_is_pos(d, s);
        }
    }
    m as i64
}

/// The weighted variance of the values about their whole-unit weighted
/// mean, rounded down.
pub fn weighted_variance(values: &Vec<i64>, weights: &Vec<u64>) -> (r: i128)
    requires
        values@.len() == weights@.len(),
        values@.len() > 0,
        values@.len() <= MAX_STAT_LEN,
        forall|i: int| 0 <= i < values@.len() ==> 0 <= #[trigger] values@[i] <= MAX_STAT_SCORE,
        forall|i: int| 0 <= i < weights@.len() ==> #[trigger] weights@[i] <= WEIGHT_SCALE,
        sum_weights(weights@) > 0,
    ensures
        r as int == variance_of(values@, weights@),
        0 <= r as int <= MAX_STAT_SCORE * MAX_STAT_SCORE,
{
    let n = values.len();
    let m = weighted_mean_whole(values, weights);
    let ghost mi = m as int;
    let mut acc: u128 = 0;
    let mut i: usize = 0;
    while i < n
        invariant
            i <= n,
            n == values@.len(),
            n == weights@.len(),
            n <= MAX_STAT_LEN,
            0 <= m <= MAX_STAT_SCORE,
            mi == m as int,
            forall|k: int| 0 <= k < n ==> 0 <= #[trigger] values@[k] <= MAX_STAT_SCORE,
            forall|k: int| 0 <= k < n ==> #[trigger] weights@[k] <= WEIGHT_SCALE,
            acc as int == dev_sum(
                values@.subrange(0, i as int),
                weights@.subrange(0, i as int),
                mi,
            ),
            acc as int <= (i as int) * 1_000_000_000_000_000_000_000_000_000_000,
        decreases n - i,
    {
        let v = values[i];
        let w = weights[i];
        let d: i128 = v as i128 - m as i128;
        proof {
            assert(0 <= d * d <= 1_000_000_000_000_000_000_000_000) by (nonlinear_arith)
                requires
                    -1_000_000_000_000 <= d as int <= 1_000_000_000_000,
            ;
        }
        let sq: u128 = (d * d) as u128;
        proof {
            assert((w as int) * (sq as int) <= 1_000_000_000_000_000_000_000_000_000_000)
                by (nonlinear_arith)
                requires
                    0 <= w as int <= 1_000_000,
                    0 <= sq as int <= 1_000_000_000_000_000_000_000_000,
            ;
            assert((i as int) * 1_000_000_000_000_000_000_000_000_000_000
                + 1_000_000_000_000_000_000_000_000_000_000 == ((i + 1) as int)
                * 1_000_000_000_000_000_000_000_000_000_000) by (nonlinear_arith);
            assert((i as int) * 1_000_000_000_000_000_000_000_000_000_000 <= 1_000_000
                * 1_000_000_000_000_000_000_000_000_000_000int) by (nonlinear_arith)
                requires
                    0 <= i as int <= 1_000_000,
            ;
        }
        acc = acc + (w as u128) * sq;
        proof {
            assert(values@.subrange(0, (i + 1) as int).drop_last() =~= values@.subrange(
                0,
                i as int,
            ));
            assert(weights@.subrange(0, (i + 1) as int).drop_last() =~= weights@.subrange(
                0,
                i as int,
            ));
            assert(values@.subrange(0, (i + 1) as int).last() == values@[i as int]);
            assert(weights@.subrange(0, (i + 1) as int).last() == weights@[i as int]);
            assert((w as int) * ((d as int) * (d as int)) == (w as u128) as int * (sq as int));
        }
        i += 1;
    }
    let (_, sw) = weight_score_sums(values, weights);
    proof {
        assert(values@.subrange(0, n as int) =~= values@);
        assert(weights@.subrange(0, n as int) =~= weights@);
        assert(mean_whole_of(values@, weights@) == mi);
        assert forall|k: int| 0 <= k < n implies ((#[trigger] values@[k]) - mi) * (values@[k]
            - mi) <= MAX_STAT_SCORE * MAX_STAT_SCORE by {
            assert((values@[k] - mi) * (values@[k] - mi) <= 1_000_000_000_000
                * 1_000_000_000_000int) by (nonlinear_arith)
                requires
                    -1_000_000_000_000 <= values@[k] - mi <= 1_000_000_000_000,
            ;
        }
        lemma_dev_sum_bounds(values@, weights@, mi, MAX_STAT_SCORE * MAX_STAT_SCORE as int);
        let ds = dev_sum(values@, weights@, mi);
        let s = sum_weights(weights@);
        lemma_div_is_ordered(ds, (MAX_STAT_SCORE * MAX_STAT_SCORE) * s, s);
        lemma_div_multiples_vanish(MAX_STAT_SCORE * MAX_STAT_SCORE as int, s);
        assert(s * (MAX_STAT_SCORE * MAX_STAT_SCORE) == (MAX_STAT_SCORE * MAX_STAT_SCORE) * s)
            by (nonlinear_arith);
        if ds > 0 {
            lemma_div_pos_is_pos(ds, s);
        }
    }
    let var = acc / sw;
    var as i128
}

/// The integer square root: the largest `r` with `r * r <= x`.
pub fn isqrt_u128(x: u128) -> (r: u128)
    requires
        x <= 10_000_000_000_000_000_000_000_000_000u128,
    ensures
        is_isqrt(x as int, r as int),
{
    let mut lo: u128 = 0;
    let mut hi: u128 = 100_000_000_000_000;
    proof {
        assert((100_000_000_000_000int + 1) * (100_000_000_000_000int + 1)
            > 10_000_000_000_000_000_000_000_000_000int) by (nonlinear_arith);
    }
    while lo < hi
        invariant
            lo <= hi <= 100_000_000_000_000u128,
            (lo as int) * (lo as int) <= x as int,
            (x as int) < ((hi as int) + 1) * ((hi as int) + 1),
        decreases hi - lo,
    {
        let mid = lo + (hi - lo + 1) / 2;
        proof {
            assert(lo < mid <= hi);
            assert((mid as int) * (mid as int) <= 200_000_000_000_000_000_000_000_000_000int)
                by (nonlinear_arith)
                requires
                    0 <= mid as int <= 100_000_000_000_000,
            ;
        }
        if mid * mid <= x {
            lo = mid;
        } else {
            hi = mid - 1;
        }
    }
    lo
}

/// The weighted standard deviation of the values, in hundredths: the
/// integer square root of the variance scaled into hundredths-squared.
pub fn weighted_std(values: &Vec<i64>, weights: &Vec<u64>) -> (r: i64)
    requires
        values@.len() == weights@.len(),
        values@.len() > 0,
        values@.len() <= MAX_STAT_LEN,
        forall|i: int| 0 <= i < values@.len() ==> 0 <= #[trigger] values@[i] <= MAX_STAT_SCORE,
        forall|i: int| 0 <= i < weights@.len() ==> #[trigger] weights@[i] <= WEIGHT_SCALE,
        sum_weights(weights@) > 0,
    ensures
        is_isqrt(10000 * variance_of(values@, weights@), r as int),
        r >= 0,
{
    let var = weighted_variance(values, weights);
    let x: u128 = (var as u128) * 10000;
    let s = isqrt_u128(x);
    proof {
        assert((s as int) * (s as int) <= 10_000_000_000_000_000_000_000_000_000int);
        assert(s as int <= 1_000_000_000_000_000_000int) by (nonlinear_arith)
            requires
                0 <= s as int,
                (s as int) * (s as int) <= 10_000_000_000_000_000_000_000_000_000int,
        ;
    }
    s as i64
}

/// The law of identical scores: whatever the weights, as long as their sum
/// is positive, the weighted mean of a constant score sequence is exactly
/// that score (in hundredths, exactly one hundred times it).
pub proof fn lemma_mean_of_identical_scores(v: Seq<i64>, w: Seq<u64>, s: int)
    requires
        v.len() == w.len(),
        v.len() > 0,
        forall|i: int| 0 <= i < v.len() ==> #[trigger] v[i] == s,
        sum_weights(w) > 0,
    ensures
        mean_centi_of(v, w) == 100 * s,
        mean_whole_of(v, w) == s,
{
    lemma_dot_of_constant(v, w, s);
    let sw = sum_weights(w);
    assert(100 * (s * sw) == (100 * s) * sw) by (nonlinear_arith);
    lemma_div_multiples_vanish(100 * s, sw);
    assert(sw * (100 * s) == (100 * s) * sw) by (nonlinear_arith);
    lemma_div_multiples_vanish(s, sw);
    assert(sw * s == s * sw) by (nonlinear_arith);
}

/// Everything the interface shows about one item's scores: the weighted
/// mean and standard deviation in hundredths, the entry count, and the
/// per-entry decay weights in millionths.
pub struct Stats {
    pub mean_centi: i64,
    pub std_centi: i64,
    pub count: usize,
    pub weights: Vec<u64>,
}

/// The decay-weighted statistics of a score run: per-entry weights (most
/// recent entry weighing exactly 1.0), the weighted mean, and the weighted
/// standard deviation.  An empty run yields zero statistics and an empty
/// weight vector; nothing ever divides by zero.
pub fn calculate_stats(scores: &Vec<ScoreEntry>, decay_rate: DecayRate) -> (r: Stats)
    requires
        decay_rate.valid(),
        scores@.len() <= MAX_STAT_LEN,
        forall|i: int| 0 <= i < scores@.len() ==> 0 <= (#[trigger] scores@[i])@.score <= MAX_STAT_SCORE,
    ensures
        r.count == scores@.len(),
        r.weights@.len() == scores@.len(),
        forall|i: int|
            0 <= i < scores@.len() ==> (#[trigger] r.weights@[i]) as int == weight_pow(
                decay_rate.spec_centi(),
                (scores@.len() - 1 - i) as nat,
            ),
        r.mean_centi as int == mean_centi_of(scores_of_entries(scores@), r.weights@),
        is_isqrt(10000 * variance_of(scores_of_entries(scores@), r.weights@), r.std_centi as int),
        scores@.len() == 0 ==> r.mean_centi == 0 && r.std_centi == 0,
{
    let n = scores.len();
    if n == 0 {
        let r = Stats { mean_centi: 0, std_centi: 0, count: 0, weights: Vec::new() };
        proof {
            assert(scores_of_entries(scores@).len() == 0);
            assert(mean_centi_of(scores_of_entries(scores@), r.weights@) == 0);
            assert(variance_of(scores_of_entries(scores@), r.weights@) == 0);
        }
        return r;
    }
    let weights = generate_weights(decay_rate, n);
    let mut values: Vec<i64> = Vec::new();
    let mut i: usize = 0;
    while i < n
        invariant
            i <= n,
            n == scores@.len(),
            values@.len() == i,
            forall|k: int| 0 <= k < n ==> 0 <= (#[trigger] scores@[k])@.score <= MAX_STAT_SCORE,
            forall|k: int| 0 <= k < i ==> (#[trigger] values@[k]) as int == scores@[k]@.score,
        decreases n - i,
    {
        values.push(scores[i].score());
        i += 1;
    }
    proof {
        assert(values@ =~= scores_of_entries(scores@));
        let c = decay_rate.spec_centi();
        assert(weights@.last() as int == weight_pow(c, 0));
        lemma_sum_bounds(weights@, WEIGHT_SCALE as int);
        assert(sum_weights(weights@) >= WEIGHT_SCALE);
    }
    let mean = weighted_mean(&values, &weights);
    let std = weighted_std(&values, &weights);
    Stats { mean_centi: mean, std_centi: std, count: n, weights }
}

} // verus!
