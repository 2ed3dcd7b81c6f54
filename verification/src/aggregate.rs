//! Aggregation of feature values.
//!
//! Two folds share one mean: the per-file aggregator folds the per-frame
//! descriptor sequence of one file into a single raw feature set, and the
//! group aggregator folds persisted rows of many files into a group
//! centroid. The group fold counts, per axis, only the rows that carry a
//! value on that axis; an axis with no contributing row yields zero instead
//! of an error, so groups with partial coverage still aggregate.

use vstd::prelude::*;

verus! {

use crate::features::{RawFeatureSet, FeatureRow, AXIS_COUNT, VALUE_BOUND};

/// Truncating mean: zero when nothing contributed.
pub open spec fn mean_trunc(sum: int, count: int) -> int {
    if count <= 0 {
        0
    } else if sum >= 0 {
        sum / count
    } else {
        -((-sum) / count)
    }
}

/// Sum of the values present on axis `k` over a sequence of rows.
pub open spec fn axis_sum(rows: Seq<FeatureRow>, k: int) -> int
    decreases rows.len(),
{
    if rows.len() == 0 {
        0
    } else {
        axis_sum(rows.drop_last(), k) + match rows.last().values@[k] {
            Some(v) => v as int,
            None => 0,
        }
    }
}

/// How many rows carry a value on axis `k`.
pub open spec fn axis_count(rows: Seq<FeatureRow>, k: int) -> int
    decreases rows.len(),
{
    if rows.len() == 0 {
        0
    } else {
        axis_count(rows.drop_last(), k) + if rows.last().values@[k] is Some {
            1int
        } else {
            0int
        }
    }
}

/// Sum over axis `k` of a sequence of complete raw feature sets.
pub open spec fn frame_axis_sum(frames: Seq<RawFeatureSet>, k: int) -> int
    decreases frames.len(),
{
    if frames.len() == 0 {
        0
    } else {
        frame_axis_sum(frames.drop_last(), k) + frames.last().axes@[k]
    }
}

/// Group centroid: per-axis means over the contributing rows, which the
/// caller reads from the store.
pub struct AggregatedAnalysisResult {
    pub axes: Vec<i64>,
}

proof fn lemma_axis_sum_push(rows: Seq<FeatureRow>, k: int, i: int)
    requires
        0 <= i < rows.len(),
    ensures
        axis_sum(rows.take(i + 1), k) == axis_sum(rows.take(i), k) + match rows[i].values@[k] {
            Some(v) => v as int,
            None => 0,
        },
        axis_count(rows.take(i + 1), k) == axis_count(rows.take(i), k) + if rows[i].values@[k] is Some {
            1int
        } else {
            0int
        },
{
    assert(rows.take(i + 1).drop_last() =~= rows.take(i));
    assert(rows.take(i + 1).last() == rows[i]);
}

proof fn lemma_frame_axis_sum_push(frames: Seq<RawFeatureSet>, k: int, i: int)
    requires
        0 <= i < frames.len(),
    ensures
        frame_axis_sum(frames.take(i + 1), k) == frame_axis_sum(frames.take(i), k)
            + frames[i].axes@[k],
{
    assert(frames.take(i + 1).drop_last() =~= frames.take(i));
    assert(frames.take(i + 1).last() == frames[i]);
}

/// `|sum| <= count * VALUE_BOUND` and `count > 0` pin the truncating mean
/// inside the value bound.
proof fn lemma_mean_bounded(sum: int, count: int)
    requires
        count > 0,
        -count * VALUE_BOUND <= sum <= count * VALUE_BOUND,
    ensures
        -VALUE_BOUND <= mean_trunc(sum, count) <= VALUE_BOUND,
{
    if sum >= 0 {
        assert(sum / count <= VALUE_BOUND) by (nonlinear_arith)
            requires
                count > 0,
                sum <= count * VALUE_BOUND,
        ;
        assert(sum / count >= 0) by (nonlinear_arith)
            requires
                count > 0,
                sum >= 0,
        ;
    } else {
        assert((-sum) / count <= VALUE_BOUND) by (nonlinear_arith)
            requires
                count > 0,
                -sum <= count * VALUE_BOUND,
        ;
        assert((-sum) / count >= 0) by (nonlinear_arith)
            requires
                count > 0,
                -sum >= 0,
        ;
    }
}

/// Mean of the values present on one axis over the given rows.
fn axis_mean(rows: &Vec<FeatureRow>, k: usize) -> (m: i64)
    requires
        forall|i: int| 0 <= i < rows@.len() ==> (#[trigger] rows@[i]).wf(),
        k < AXIS_COUNT,
    ensures
        m == mean_trunc(axis_sum(rows@, k as int), axis_count(rows@, k as int)),
        -VALUE_BOUND <= m <= VALUE_BOUND,
{
    let mut sum: i128 = 0;
    let mut count: usize = 0;
    let mut i: usize = 0;
    while i < rows.len()
        invariant
            i <= rows@.len(),
            count <= i,
            k < AXIS_COUNT,
            forall|j: int| 0 <= j < rows@.len() ==> (#[trigger] rows@[j]).wf(),
            sum == axis_sum(rows@.take(i as int), k as int),
            count == axis_count(rows@.take(i as int), k as int),
            -(count as int) * VALUE_BOUND <= sum <= (count as int) * VALUE_BOUND,
        decreases rows@.len() - i,
    {
        proof {
            lemma_axis_sum_push(rows@, k as int, i as int);
        }
        match rows[i].values[k] {
            Some(v) => {
                proof {
                    assert((count + 1) * VALUE_BOUND == count * VALUE_BOUND + VALUE_BOUND)
                        by (nonlinear_arith);
                    assert((count + 1) * VALUE_BOUND <= 0x1_0000_0000_0000_0000 * VALUE_BOUND)
                        by (nonlinear_arith)
                        requires
                            count + 1 <= 0x1_0000_0000_0000_0000,
                    ;
                }
                sum = sum + v as i128;
                count = count + 1;
            },
            None => {},
        }
        i = i + 1;
    }
    proof {
        assert(rows@.take(rows@.len() as int) =~= rows@);
    }
    if count == 0 {
        0
    } else {
        proof {
            lemma_mean_bounded(sum as int, count as int);
        }
        if sum >= 0 {
            ((sum as u128) / (count as u128)) as i64
        } else {
            -((((-sum) as u128) / (count as u128)) as i64)
        }
    }
}

/// Fold persisted rows into the group centroid: independently for every
/// axis, the mean over exactly the rows carrying a value there, and zero
/// where no row contributes.
pub fn get_centralized_analysis_result(rows: &Vec<FeatureRow>) -> (agg: AggregatedAnalysisResult)
    requires
        forall|i: int| 0 <= i < rows@.len() ==> (#[trigger] rows@[i]).wf(),
    ensures
        agg.axes@.len() == AXIS_COUNT,
        forall|k: int| 0 <= k < AXIS_COUNT ==> #[trigger] agg.axes@[k] == mean_trunc(
            axis_sum(rows@, k),
            axis_count(rows@, k),
        ),
{
    let mut axes: Vec<i64> = Vec::new();
    let mut k: usize = 0;
    while k < AXIS_COUNT
        invariant
            k <= AXIS_COUNT,
            forall|i: int| 0 <= i < rows@.len() ==> (#[trigger] rows@[i]).wf(),
            axes@.len() == k,
            forall|j: int| 0 <= j < k ==> #[trigger] axes@[j] == mean_trunc(
                axis_sum(rows@, j),
                axis_count(rows@, j),
            ),
        decreases AXIS_COUNT - k,
    {
        let m = axis_mean(rows, k);
        axes.push(m);
        k = k + 1;
    }
    AggregatedAnalysisResult { axes }
}

/// Fold the per-frame descriptor sequence of one file into one raw feature
/// set: the truncating mean across frames, independently per axis. A file
/// with no frames yields all zeroes. Pure: no reading, no writing.
pub fn aggregate_frames(frames: &Vec<RawFeatureSet>) -> (agg: RawFeatureSet)
    requires
        forall|i: int| 0 <= i < frames@.len() ==> (#[trigger] frames@[i]).wf(),
    ensures
        agg.wf(),
        forall|k: int| 0 <= k < AXIS_COUNT ==> #[trigger] agg.axes@[k] == mean_trunc(
            frame_axis_sum(frames@, k),
            frames@.len() as int,
        ),
{
    let mut axes: Vec<i64> = Vec::new();
    let mut k: usize = 0;
    while k < AXIS_COUNT
        invariant
            k <= AXIS_COUNT,
            forall|i: int| 0 <= i < frames@.len() ==> (#[trigger] frames@[i]).wf(),
            axes@.len() == k,
            forall|j: int| 0 <= j < k ==> #[trigger] axes@[j] == mean_trunc(
                frame_axis_sum(frames@, j),
                frames@.len() as int,
            ),
            forall|j: int| 0 <= j < k ==> -VALUE_BOUND <= #[trigger] axes@[j] <= VALUE_BOUND,
        decreases AXIS_COUNT - k,
    {
        let m = frame_axis_mean(frames, k);
        axes.push(m);
        k = k + 1;
    }
    RawFeatureSet { axes }
}

/// Mean across frames on one axis.
fn frame_axis_mean(frames: &Vec<RawFeatureSet>, k: usize) -> (m: i64)
    requires
        forall|i: int| 0 <= i < frames@.len() ==> (#[trigger] frames@[i]).wf(),
        k < AXIS_COUNT,
    ensures
        m == mean_trunc(frame_axis_sum(frames@, k as int), frames@.len() as int),
        -VALUE_BOUND <= m <= VALUE_BOUND,
{
    let mut sum: i128 = 0;
    let mut i: usize = 0;
    while i < frames.len()
        invariant
            i <= frames@.len(),
            k < AXIS_COUNT,
            forall|j: int| 0 <= j < frames@.len() ==> (#[trigger] frames@[j]).wf(),
            sum == frame_axis_sum(frames@.take(i as int), k as int),
            -(i as int) * VALUE_BOUND <= sum <= (i as int) * VALUE_BOUND,
        decreases frames@.len() - i,
    {
        proof {
            lemma_frame_axis_sum_push(frames@, k as int, i as int);
            assert((i + 1) * VALUE_BOUND == i * VALUE_BOUND + VALUE_BOUND) by (nonlinear_arith);
            assert((i + 1) * VALUE_BOUND <= 0x1_0000_0000_0000_0000 * VALUE_BOUND)
                by (nonlinear_arith)
                requires
                    i + 1 <= 0x1_0000_0000_0000_0000,
            ;
        }
        sum = sum + frames[i].axes[k] as i128;
        i = i + 1;
    }
    proof {
        assert(frames@.take(frames@.len() as int) =~= frames@);
    }
    if frames.len() == 0 {
        0
    } else {
        proof {
            lemma_mean_bounded(sum as int, frames@.len() as int);
        }
        if sum >= 0 {
            ((sum as u128) / (frames.len() as u128)) as i64
        } else {
            -((((-sum) as u128) / (frames.len() as u128)) as i64)
        }
    }
}

} // verus!
