//! Bar layout and click resolution for the score chart.
//!
//! Each score occupies a horizontal segment whose width equals its decay
//! weight, so recent entries are wide and heavily decayed ones thin.  The
//! layout walks the scores in chronological order with a running cursor and
//! records each segment's right edge; a pointer coordinate resolves back to
//! the first segment whose right edge lies strictly beyond it, or to no
//! selection when it falls outside the chart.  All horizontal coordinates
//! are in millionths, the weights' own fixed-point unit.

use vstd::prelude::*;
use crate::stats::{sum_weights, MAX_STAT_LEN, MAX_STAT_SCORE, WEIGHT_SCALE};
use crate::store::ScoreEntry;

verus! {

/// One bar of the chart: its left edge and width in millionths, and its
/// height above the chart floor.
pub struct BarSegment {
    pub left_x: u64,
    pub width: u64,
    pub height: i64,
}

/// The whole chart geometry: the bars, each segment's right edge for click
/// resolution, and the total width.
pub struct BarLayout {
    pub bars: Vec<BarSegment>,
    pub boundaries: Vec<u64>,
    pub total_width: u64,
}

/// The height of a bar: how far its score stands above the chart floor,
/// never negative.
pub open spec fn bar_height(score: int, floor: int) -> int {
    if score - floor < 0 {
        0
    } else {
        score - floor
    }
}

/// The chart geometry builder; it owns no state of its own.
pub struct WeightedScoreChart;

impl WeightedScoreChart {
    /// A fresh chart builder.
    pub fn new() -> (r: WeightedScoreChart) {
        WeightedScoreChart
    }

    /// Lays the scores out as variable-width bars: the bar of entry `i`
    /// spans from the summed width of all earlier entries over its own
    /// weight, its height is its score's rise above the floor, and its
    /// right edge is recorded for click resolution.
    pub fn create_bars(
        &self,
        scores: &Vec<ScoreEntry>,
        weights: &Vec<u64>,
        floor: i64,
    ) -> (r: BarLayout)
        requires
            scores@.len() == weights@.len(),
            scores@.len() <= MAX_STAT_LEN,
            forall|i: int|
                0 <= i < scores@.len() ==> 0 <= (#[trigger] scores@[i])@.score <= MAX_STAT_SCORE,
            forall|i: int| 0 <= i < weights@.len() ==> #[trigger] weights@[i] <= WEIGHT_SCALE,
            -MAX_STAT_SCORE <= floor <= MAX_STAT_SCORE,
        ensures
            r.bars@.len() == scores@.len(),
            r.boundaries@.len() == scores@.len(),
            forall|i: int|
                0 <= i < scores@.len() ==> (#[trigger] r.bars@[i]).left_x as int == sum_weights(
                    weights@.subrange(0, i),
                ),
            forall|i: int|
                0 <= i < scores@.len() ==> (#[trigger] r.bars@[i]).width == weights@[i],
            forall|i: int|
                0 <= i < scores@.len() ==> (#[trigger] r.bars@[i]).height as int == bar_height(
                    scores@[i]@.score,
                    floor as int,
                ),
            forall|i: int|
                0 <= i < scores@.len() ==> (#[trigger] r.boundaries@[i]) as int == sum_weights(
                    weights@.subrange(0, i + 1),
                ),
            r.total_width as int == sum_weights(weights@),
    {
        let n = scores.len();
        let mut bars: Vec<BarSegment> = Vec::new();
        let mut boundaries: Vec<u64> = Vec::new();
        let mut cursor: u64 = 0;
        let mut i: usize = 0;
        while i < n
            invariant
                i <= n,
                n == scores@.len(),
                n == weights@.len(),
                n <= MAX_STAT_LEN,
                forall|k: int|
                    0 <= k < n ==> 0 <= (#[trigger] scores@[k])@.score <= MAX_STAT_SCORE,
                forall|k: int| 0 <= k < n ==> #[trigger] weights@[k] <= WEIGHT_SCALE,
                -MAX_STAT_SCORE <= floor <= MAX_STAT_SCORE,
                bars@.len() == i,
                boundaries@.len() == i,
                cursor as int == sum_weights(weights@.subrange(0, i as int)),
                cursor as int <= (i as int) * 1_000_000,
                forall|k: int|
                    0 <= k < i ==> (#[trigger] bars@[k]).left_x as int == sum_weights(
                        weights@.subrange(0, k),
                    ),
                forall|k: int| 0 <= k < i ==> (#[trigger] bars@[k]).width == weights@[k],
                forall|k: int|
                    0 <= k < i ==> (#[trigger] bars@[k]).height as int == bar_height(
                        scores@[k]@.score,
                        floor as int,
                    ),
                forall|k: int|
                    0 <= k < i ==> (#[trigger] boundaries@[k]) as int == sum_weights(
                        weights@.subrange(0, k + 1),
                    ),
            decreases n - i,
        {
            let w = weights[i];
            let s = scores[i].score();
            let diff = s - floor;
            let height: i64 = if diff < 0 {
                0
            } else {
                diff
            };
            proof {
                assert((i as int) * 1_000_000 + 1_000_000 == ((i + 1) as int) * 1_000_000)
                    by (nonlinear_arith);
                assert((i as int) * 1_000_000 <= 1_000_000 * 1_000_000int) by (nonlinear_arith)
                    requires
                        0 <= i as int <= 1_000_000,
                ;
            }
            let right = cursor + w;
            bars.push(BarSegment { left_x: cursor, width: w, height });
            boundaries.push(right);
            proof {
                assert(weights@.subrange(0, (i + 1) as int).drop_last() =~= weights@.subrange(
                    0,
                    i as int,
                ));
                assert(weights@.subrange(0, (i + 1) as int).last() == weights@[i as int]);
            }
            cursor = right;
            i += 1;
        }
        proof {
            assert(weights@.subrange(0, n as int) =~= weights@);
        }
        BarLayout { bars, boundaries, total_width: cursor }
    }

    /// Resolves a pointer coordinate (in millionths) to the index of the
    /// first segment whose right edge lies strictly beyond it.  A negative
    /// coordinate, or one at or beyond every right edge, resolves to no
    /// selection.
    pub fn find_clicked_bar(&self, x: i64, boundaries: &Vec<u64>) -> (r: Option<usize>)
        requires
            forall|i: int| 0 <= i < boundaries@.len() ==> #[trigger] boundaries@[i]
                <= 1_000_000_000_000u64,
        ensures
            r is Some <==> (x >= 0 && exists|j: int|
                0 <= j < boundaries@.len() && (x as int) < (#[trigger] boundaries@[j]) as int),
            r matches Some(i) ==> {
                &&& 0 <= i < boundaries@.len()
                &&& (x as int) < boundaries@[i as int] as int
                &&& forall|j: int| 0 <= j < i ==> (#[trigger] boundaries@[j]) as int <= x as int
            },
    {
        if x < 0 {
            return None;
        }
        let n = boundaries.len();
        let mut i: usize = 0;
        while i < n
            invariant
                i <= n,
                n == boundaries@.len(),
                x >= 0,
                forall|i0: int| 0 <= i0 < n ==> #[trigger] boundaries@[i0] <= 1_000_000_000_000u64,
                forall|j: int| 0 <= j < i ==> (#[trigger] boundaries@[j]) as int <= x as int,
            decreases n - i,
        {
            if (x as u64) < boundaries[i] {
                return Some(i);
            }
            i += 1;
        }
        None
    }
}

} // verus!
