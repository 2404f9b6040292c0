//! The plot-range calculator.
//!
//! Chooses a display floor and ceiling for the chart so that heavily
//! decayed old outliers do not dominate the axis: only scores whose weight
//! reaches a fixed relevance threshold take part (all scores when none
//! does), and the resulting range gets ten percent of padding on both
//! ends, with the floor clamped at zero.

use vstd::prelude::*;
use crate::stats::{MAX_STAT_LEN, MAX_STAT_SCORE};
use crate::store::ScoreEntry;

verus! {

/// Weights below one tenth (in millionths) are left out of the range.
pub const PLOT_WEIGHT_THRESHOLD: u64 = 100_000;

/// The chart's vertical range: every bar is drawn between these bounds.
pub struct PlotParams {
    pub max_y: i64,
    pub min_y: i64,
}

/// The scores whose weight reaches the relevance threshold, in order.
pub open spec fn filtered_scores_spec(v: Seq<i64>, w: Seq<u64>) -> Seq<i64>
    decreases v.len(),
{
    if v.len() == 0 {
        Seq::empty()
    } else {
        let rest = filtered_scores_spec(v.drop_last(), w.drop_last());
        if w.last() >= PLOT_WEIGHT_THRESHOLD {
            rest.push(v.last())
        } else {
            rest
        }
    }
}

/// The scores the range is based on: the relevant ones, or every score
/// when no weight reaches the threshold.
pub open spec fn relevant_scores(v: Seq<i64>, w: Seq<u64>) -> Seq<i64> {
    if filtered_scores_spec(v, w).len() == 0 {
        v
    } else {
        filtered_scores_spec(v, w)
    }
}

/// The smallest score of the sequence, or 0 when it is empty.
pub open spec fn min_score(s: Seq<i64>) -> int
    decreases s.len(),
{
    if s.len() == 0 {
        0
    } else if s.len() == 1 {
        s[0] as int
    } else {
        let m = min_score(s.drop_last());
        if s.last() < m {
            s.last() as int
        } else {
            m
        }
    }
}

/// The largest score of the sequence, or 0 when it is empty.
pub open spec fn max_score(s: Seq<i64>) -> int
    decreases s.len(),
{
    if s.len() == 0 {
        0
    } else if s.len() == 1 {
        s[0] as int
    } else {
        let m = max_score(s.drop_last());
        if s.last() > m {
            s.last() as int
        } else {
            m
        }
    }
}

/// The padding applied to both ends: a tenth of the relevant range.
pub open spec fn plot_padding(v: Seq<i64>, w: Seq<u64>) -> int {
    (max_score(relevant_scores(v, w)) - min_score(relevant_scores(v, w))) / 10
}

/// The chart ceiling: the relevant maximum plus the padding.
pub open spec fn plot_ceiling(v: Seq<i64>, w: Seq<u64>) -> int {
    max_score(relevant_scores(v, w)) + plot_padding(v, w)
}

/// The chart floor: the relevant minimum less the padding, never negative.
pub open spec fn plot_floor(v: Seq<i64>, w: Seq<u64>) -> int {
    if min_score(relevant_scores(v, w)) - plot_padding(v, w) < 0 {
        0
    } else {
        min_score(relevant_scores(v, w)) - plot_padding(v, w)
    }
}

/// Every element of a sequence of scores in [0, b] bounds its minimum and
/// maximum.
proof fn lemma_min_max_bounds(s: Seq<i64>, b: int)
    requires
        b >= 0,
        forall|i: int| 0 <= i < s.len() ==> 0 <= #[trigger] s[i] <= b,
    ensures
        0 <= min_score(s) <= b,
        0 <= max_score(s) <= b,
        min_score(s) <= max_score(s) || s.len() == 0,
    decreases s.len(),
{
    if s.len() == 1 {
        assert(0 <= s[0] <= b);
    } else if s.len() > 1 {
        lemma_min_max_bounds(s.drop_last(), b);
        assert(0 <= s.last() <= b);
    }
}

/// The display floor and ceiling for a run of scores and their weights;
/// see the module description for the policy.
pub fn calculate_plot_params(scores: &Vec<ScoreEntry>, weights: &Vec<u64>) -> (r: PlotParams)
    requires
        scores@.len() == weights@.len(),
        scores@.len() <= MAX_STAT_LEN,
        forall|i: int|
            0 <= i < scores@.len() ==> 0 <= (#[trigger] scores@[i])@.score <= MAX_STAT_SCORE,
    ensures
        ({
            let v = crate::stats::scores_of_entries(scores@);
            &&& r.min_y as int == plot_floor(v, weights@)
            &&& r.max_y as int == plot_ceiling(v, weights@)
            &&& 0 <= r.min_y
            &&& r.min_y <= r.max_y
        }),
{
    let ghost v = crate::stats::scores_of_entries(scores@);
    let n = scores.len();
    let mut filtered: Vec<i64> = Vec::new();
    let mut i: usize = 0;
    while i < n
        invariant
            i <= n,
            n == scores@.len(),
            n == weights@.len(),
            v == crate::stats::scores_of_entries(scores@),
            v.len() == n,
            forall|k: int| 0 <= k < n ==> 0 <= (#[trigger] scores@[k])@.score <= MAX_STAT_SCORE,
            forall|k: int| 0 <= k < n ==> #[trigger] v[k] as int == scores@[k]@.score,
            filtered@ == filtered_scores_spec(
                v.subrange(0, i as int),
                weights@.subrange(0, i as int),
            ),
            forall|k: int| 0 <= k < filtered@.len() ==> 0 <= #[trigger] filtered@[k]
                <= MAX_STAT_SCORE,
        decreases n - i,
    {
        if weights[i] >= PLOT_WEIGHT_THRESHOLD {
            filtered.push(scores[i].score());
        }
        proof {
            assert(v.subrange(0, (i + 1) as int).drop_last() =~= v.subrange(0, i as int));
            assert(weights@.subrange(0, (i + 1) as int).drop_last() =~= weights@.subrange(
                0,
                i as int,
            ));
            assert(v.subrange(0, (i + 1) as int).last() == v[i as int]);
            assert(weights@.subrange(0, (i + 1) as int).last() == weights@[i as int]);
        }
        i += 1;
    }
    proof {
        assert(v.subrange(0, n as int) =~= v);
        assert(weights@.subrange(0, n as int) =~= weights@);
    }
    let use_all = filtered.is_empty();
    let relevant: &Vec<i64> = if use_all {
        proof {
            assert(relevant_scores(v, weights@) == v);
        }
        let mut all: Vec<i64> = Vec::new();
        let mut j: usize = 0;
        while j < n
            invariant
                j <= n,
                n == scores@.len(),
                all@.len() == j,
                v.len() == n,
                forall|k: int| 0 <= k < n ==> 0 <= (#[trigger] scores@[k])@.score
                    <= MAX_STAT_SCORE,
                forall|k: int| 0 <= k < n ==> #[trigger] v[k] as int == scores@[k]@.score,
                forall|k: int| 0 <= k < j ==> #[trigger] all@[k] == v[k],
            decreases n - j,
        {
            all.push(scores[j].score());
            j += 1;
        }
        proof {
            assert(all@ =~= v);
        }
        filtered = all;
        &filtered
    } else {
        &filtered
    };
    proof {
        assert(relevant@ == relevant_scores(v, weights@));
        assert(forall|k: int|
            0 <= k < relevant@.len() ==> 0 <= #[trigger] relevant@[k] <= MAX_STAT_SCORE);
        lemma_min_max_bounds(relevant@, MAX_STAT_SCORE as int);
    }
    let mut lo: i64 = 0;
    let mut hi: i64 = 0;
    let m = relevant.len();
    if m > 0 {
        lo = relevant[0];
        hi = relevant[0];
        let mut k: usize = 1;
        while k < m
            invariant
                1 <= k <= m,
                m == relevant@.len(),
                forall|t: int| 0 <= t < m ==> 0 <= #[trigger] relevant@[t] <= MAX_STAT_SCORE,
                lo as int == min_score(relevant@.subrange(0, k as int)),
                hi as int == max_score(relevant@.subrange(0, k as int)),
                0 <= lo <= MAX_STAT_SCORE,
                0 <= hi <= MAX_STAT_SCORE,
            decreases m - k,
        {
            proof {
                assert(relevant@.subrange(0, (k + 1) as int).drop_last() =~= relevant@.subrange(
                    0,
                    k as int,
                ));
                assert(relevant@.subrange(0, (k + 1) as int).last() == relevant@[k as int]);
            }
            if relevant[k] < lo {
                lo = relevant[k];
            }
            if relevant[k] > hi {
                hi = relevant[k];
            }
            k += 1;
        }
        proof {
            assert(relevant@.subrange(0, m as int) =~= relevant@);
        }
    } else {
        proof {
            assert(min_score(relevant@) == 0);
            assert(max_score(relevant@) == 0);
        }
    }
    let padding = ((hi - lo) as u64 / 10) as i64;
    let max_y = hi + padding;
    let lowered = lo - padding;
    let min_y = if lowered < 0 {
        0
    } else {
        lowered
    };
    PlotParams { max_y, min_y }
}

} // verus!
