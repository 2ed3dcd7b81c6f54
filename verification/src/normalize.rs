//! The normalizer: a pure, deterministic remapping of raw descriptor values
//! into the bounded range `[0, FEATURE_SCALE]`.
//!
//! Every axis has a fixed mapping: the flatness axis is compressed
//! logarithmically (flatness is a ratio whose useful resolution sits near
//! zero), every other axis is clamped linearly against a fixed per-axis
//! range. The mappings are integer arithmetic only, so the same raw input
//! yields the same normalized output on every run and every platform.

use vstd::prelude::*;

verus! {

use vstd::arithmetic::div_mod::{
    lemma_div_is_ordered,
    lemma_div_multiples_vanish,
    lemma_div_pos_is_pos,
};
use vstd::arithmetic::power2::{pow2, lemma_pow2_strictly_increases, lemma2_to64, lemma2_to64_rest};
use crate::FEATURE_SCALE;
use crate::features::{RawFeatureSet, NormalizedFeatureSet, AXIS_COUNT, VALUE_BOUND, MFCC_BASE};
use crate::math::{log2floor, floor_log2};

/// Axis of the spectral flatness descriptor, the one compressed
/// logarithmically.
pub const FLATNESS_AXIS: usize = 4;

/// Upper range bound of the descriptors measured in scaled bin units:
/// centroid, rolloff and spread reach at most 1024 bins.
pub const BIN_UNIT_TOP: i64 = 67108864;

/// Range half-width of the wide signed descriptors (slope, skewness) and
/// range top of kurtosis.
pub const WIDE_TOP: i64 = 4294967296;

/// Range half-width of the cepstral coefficients.
pub const MFCC_TOP: i64 = 16777216;

/// Lower bound of the fixed range an axis is clamped against.
pub open spec fn axis_lo(k: int) -> int {
    if k == 5 || k == 8 {
        -WIDE_TOP as int
    } else if k >= MFCC_BASE {
        -MFCC_TOP as int
    } else {
        0
    }
}

/// Upper bound of the fixed range an axis is clamped against.
pub open spec fn axis_hi(k: int) -> int {
    if k == 3 || k == 6 || k == 7 {
        BIN_UNIT_TOP as int
    } else if k == 5 || k == 8 || k == 9 {
        WIDE_TOP as int
    } else if k >= MFCC_BASE {
        MFCC_TOP as int
    } else {
        FEATURE_SCALE as int
    }
}

/// Linear clamp of `v` against `[lo, hi]`, scaled into `[0, FEATURE_SCALE]`.
pub open spec fn linear_remap(v: int, lo: int, hi: int) -> int {
    if v <= lo {
        0
    } else if v >= hi {
        FEATURE_SCALE as int
    } else {
        ((v - lo) * FEATURE_SCALE) / (hi - lo)
    }
}

/// Logarithmic compression of a nonnegative ratio-like value: the floor
/// base-two logarithm of `1 + v` (with `v` clamped into `[0, WIDE_TOP]`),
/// rescaled so that the top of the range maps to `FEATURE_SCALE`.
pub open spec fn log_remap(v: int) -> int {
    let c = if v <= 0 {
        0
    } else if v >= WIDE_TOP as int {
        WIDE_TOP as int
    } else {
        v
    };
    (log2floor(1 + c) * FEATURE_SCALE) / 32
}

/// The fixed mapping of one axis.
pub open spec fn normalize_axis_spec(k: int, v: int) -> int {
    if k == FLATNESS_AXIS {
        log_remap(v)
    } else {
        linear_remap(v, axis_lo(k), axis_hi(k))
    }
}

/// A ratio of nonnegative parts scaled by `FEATURE_SCALE` stays within
/// `[0, FEATURE_SCALE]` while the numerator part is below the denominator.
proof fn lemma_scaled_ratio_bounds(dv: int, den: int)
    requires
        0 <= dv <= den,
        0 < den,
    ensures
        0 <= (dv * FEATURE_SCALE) / den <= FEATURE_SCALE,
{
    lemma_div_pos_is_pos(dv * FEATURE_SCALE, den);
    lemma_div_is_ordered(dv * FEATURE_SCALE, den * FEATURE_SCALE, den);
    lemma_div_multiples_vanish(FEATURE_SCALE as int, den);
}

/// Remap one axis value. The result always lands in `[0, FEATURE_SCALE]`.
pub fn normalize_axis(k: usize, v: i64) -> (n: i64)
    requires
        k < AXIS_COUNT,
        -VALUE_BOUND <= v <= VALUE_BOUND,
    ensures
        n == normalize_axis_spec(k as int, v as int),
        0 <= n <= FEATURE_SCALE,
{
    if k == FLATNESS_AXIS {
        let c: i64 = if v <= 0 {
            0
        } else if v >= WIDE_TOP {
            WIDE_TOP
        } else {
            v
        };
        let w: u64 = 1 + c as u64;
        let r: u64 = floor_log2(w);
        proof {
            if r >= 33 {
                lemma2_to64();
                lemma2_to64_rest();
                if r > 33 {
                    lemma_pow2_strictly_increases(33, r as nat);
                }
                assert(pow2(r as nat) >= 0x200000000);
            }
        }
        ((r * 65536) / 32) as i64
    } else {
        let lo: i64 = if k == 5 || k == 8 {
            -WIDE_TOP
        } else if k >= MFCC_BASE {
            -MFCC_TOP
        } else {
            0
        };
        let hi: i64 = if k == 3 || k == 6 || k == 7 {
            BIN_UNIT_TOP
        } else if k == 5 || k == 8 || k == 9 {
            WIDE_TOP
        } else if k >= MFCC_BASE {
            MFCC_TOP
        } else {
            FEATURE_SCALE
        };
        if v <= lo {
            0
        } else if v >= hi {
            FEATURE_SCALE
        } else {
            let dv: u128 = (v - lo) as u128;
            let den: u128 = (hi - lo) as u128;
            proof {
                lemma_scaled_ratio_bounds(dv as int, den as int);
            }
            ((dv * 65536) / den) as i64
        }
    }
}

/// Normalize a raw feature set: the fixed per-axis mapping, axis by axis.
/// A pure function of its input: the result is pinned, axis for axis, to
/// `normalize_axis_spec`, so identical raw sets always yield identical
/// normalized sets.
pub fn normalize_analysis_result(raw: &RawFeatureSet) -> (n: NormalizedFeatureSet)
    requires
        raw.wf(),
    ensures
        n.wf(),
        forall|k: int| 0 <= k < AXIS_COUNT ==> #[trigger] n.axes@[k] == normalize_axis_spec(
            k,
            raw.axes@[k] as int,
        ),
{
    let mut axes: Vec<i64> = Vec::new();
    let mut k: usize = 0;
    while k < AXIS_COUNT
        invariant
            k <= AXIS_COUNT,
            raw.wf(),
            axes@.len() == k,
            forall|j: int| 0 <= j < k ==> #[trigger] axes@[j] == normalize_axis_spec(
                j,
                raw.axes@[j] as int,
            ),
            forall|j: int| 0 <= j < k ==> 0 <= #[trigger] axes@[j] <= FEATURE_SCALE,
        decreases AXIS_COUNT - k,
    {
        let n = normalize_axis(k, raw.axes[k]);
        axes.push(n);
        k = k + 1;
    }
    NormalizedFeatureSet { axes }
}

/// The normalizer is a pure function: two equal raw feature sets map to
/// the same normalized values on every axis, on every run.
pub proof fn lemma_normalizer_deterministic(a: RawFeatureSet, b: RawFeatureSet)
    requires
        a.axes@ == b.axes@,
    ensures
        forall|k: int| 0 <= k < AXIS_COUNT ==> normalize_axis_spec(k, a.axes@[k] as int)
            == normalize_axis_spec(k, b.axes@[k] as int),
{
}

} // verus!
