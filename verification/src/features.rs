//! The feature data model.
//!
//! Every descriptor value is a signed fixed-point number with
//! [`crate::FEATURE_SCALE`] as its unit, so that the whole model stays inside
//! machine integers. A feature set is a vector of [`AXIS_COUNT`] axes in a
//! fixed order: the twelve scalar descriptors first, then the chroma bins,
//! then the perceptual loudness bands, then the cepstral coefficients.
//! Identically-shaped named fields are represented uniformly as positions in
//! this vector rather than as generated per-index fields.

use vstd::prelude::*;

verus! {

use crate::FEATURE_SCALE;

/// Number of feature axes in one feature set:
/// 10 spectral/time scalars, 12 chroma bins, 2 perceptual scalars,
/// 24 loudness bands, 13 cepstral coefficients.
pub const AXIS_COUNT: usize = 61;

/// Magnitude bound on every raw descriptor value. The analyzer only
/// produces values below it, and sums over rows stay inside `i128`.
pub const VALUE_BOUND: i64 = 0x4000_0000_0000_0000;

/// First axis of the chroma block.
pub const CHROMA_BASE: usize = 10;
/// Number of chroma bins.
pub const CHROMA_BINS: usize = 12;
/// Axis of the perceptual spread scalar.
pub const PERCEPTUAL_SPREAD_AXIS: usize = 22;
/// Axis of the perceptual sharpness scalar.
pub const PERCEPTUAL_SHARPNESS_AXIS: usize = 23;
/// First axis of the perceptual loudness block.
pub const LOUDNESS_BASE: usize = 24;
/// Number of perceptual loudness bands.
pub const LOUDNESS_BANDS: usize = 24;
/// First axis of the cepstral-coefficient block.
pub const MFCC_BASE: usize = 48;
/// Number of cepstral coefficients.
pub const MFCC_COEFFS: usize = 13;

/// Raw per-file (or per-frame) descriptors, one value per axis.
pub struct RawFeatureSet {
    pub axes: Vec<i64>,
}

/// Descriptors remapped into the bounded range `[0, FEATURE_SCALE]`.
pub struct NormalizedFeatureSet {
    pub axes: Vec<i64>,
}

/// One persisted row: at most one per file identifier. An axis may be
/// absent when the row was written by an earlier producer that did not
/// compute it.
pub struct FeatureRow {
    pub file_id: i64,
    pub values: Vec<Option<i64>>,
}

impl RawFeatureSet {
    /// All axes present and bounded.
    pub open spec fn wf(self) -> bool {
        &&& self.axes@.len() == AXIS_COUNT
        &&& forall|k: int| 0 <= k < self.axes@.len() ==> -VALUE_BOUND <= #[trigger] self.axes@[k] <= VALUE_BOUND
    }

    pub open spec fn rms(self) -> int { self.axes@[0] as int }

    pub open spec fn zcr(self) -> int { self.axes@[1] as int }

    pub open spec fn energy(self) -> int { self.axes@[2] as int }

    pub open spec fn spectral_centroid(self) -> int { self.axes@[3] as int }

    pub open spec fn spectral_flatness(self) -> int { self.axes@[4] as int }

    pub open spec fn spectral_slope(self) -> int { self.axes@[5] as int }

    pub open spec fn spectral_rolloff(self) -> int { self.axes@[6] as int }

    pub open spec fn spectral_spread(self) -> int { self.axes@[7] as int }

    pub open spec fn spectral_skewness(self) -> int { self.axes@[8] as int }

    pub open spec fn spectral_kurtosis(self) -> int { self.axes@[9] as int }

    pub open spec fn chroma(self, bin: int) -> int { self.axes@[CHROMA_BASE + bin] as int }

    pub open spec fn perceptual_spread(self) -> int { self.axes@[PERCEPTUAL_SPREAD_AXIS as int] as int }

    pub open spec fn perceptual_sharpness(self) -> int { self.axes@[PERCEPTUAL_SHARPNESS_AXIS as int] as int }

    pub open spec fn perceptual_loudness(self, band: int) -> int { self.axes@[LOUDNESS_BASE + band] as int }

    pub open spec fn mfcc(self, coeff: int) -> int { self.axes@[MFCC_BASE + coeff] as int }

    /// Read one axis.
    pub fn axis(&self, k: usize) -> (v: i64)
        requires
            k < self.axes@.len(),
        ensures
            v == self.axes@[k as int],
    {
        self.axes[k]
    }
}

impl NormalizedFeatureSet {
    /// All axes present, each inside the bounded range.
    pub open spec fn wf(self) -> bool {
        &&& self.axes@.len() == AXIS_COUNT
        &&& forall|k: int| 0 <= k < self.axes@.len() ==> 0 <= #[trigger] self.axes@[k] <= FEATURE_SCALE
    }

    /// Read one axis.
    pub fn axis(&self, k: usize) -> (v: i64)
        requires
            k < self.axes@.len(),
        ensures
            v == self.axes@[k as int],
    {
        self.axes[k]
    }
}

impl FeatureRow {
    /// Well-formed: one slot per axis, every present value bounded.
    pub open spec fn wf(self) -> bool {
        &&& self.values@.len() == AXIS_COUNT
        &&& forall|k: int| 0 <= k < self.values@.len() ==>
                (#[trigger] self.values@[k] matches Some(v) ==> -VALUE_BOUND <= v <= VALUE_BOUND)
    }

    /// Every axis carries a value: the shape in which this library
    /// persists rows, so a committed row is never partially written.
    pub open spec fn complete(self) -> bool {
        &&& self.values@.len() == AXIS_COUNT
        &&& forall|k: int| 0 <= k < self.values@.len() ==> #[trigger] self.values@[k] is Some
    }
}

/// Assemble the raw feature set of one frame from the verified
/// time-domain and spectral descriptors and from the perceptual values
/// (chroma, loudness bands, cepstral coefficients, perceptual spread and
/// sharpness) that the filterbank stage hands in. Every axis of the
/// result is pinned to its source.
pub fn assemble_frame_features(
    time: &crate::frames::TimeStats,
    spectral: &crate::spectral::SpectralDescriptors,
    chroma: &Vec<i64>,
    perceptual_spread: i64,
    perceptual_sharpness: i64,
    loudness: &Vec<i64>,
    mfcc: &Vec<i64>,
) -> (f: RawFeatureSet)
    requires
        0 <= time.rms <= VALUE_BOUND,
        0 <= time.zcr <= VALUE_BOUND,
        0 <= time.energy <= VALUE_BOUND,
        -VALUE_BOUND <= spectral.centroid <= VALUE_BOUND,
        -VALUE_BOUND <= spectral.flatness <= VALUE_BOUND,
        -VALUE_BOUND <= spectral.slope <= VALUE_BOUND,
        -VALUE_BOUND <= spectral.rolloff <= VALUE_BOUND,
        -VALUE_BOUND <= spectral.spread <= VALUE_BOUND,
        -VALUE_BOUND <= spectral.skewness <= VALUE_BOUND,
        -VALUE_BOUND <= spectral.kurtosis <= VALUE_BOUND,
        chroma@.len() == CHROMA_BINS,
        loudness@.len() == LOUDNESS_BANDS,
        mfcc@.len() == MFCC_COEFFS,
        forall|i: int| 0 <= i < chroma@.len() ==> -VALUE_BOUND <= #[trigger] chroma@[i] <= VALUE_BOUND,
        forall|i: int| 0 <= i < loudness@.len() ==> -VALUE_BOUND <= #[trigger] loudness@[i] <= VALUE_BOUND,
        forall|i: int| 0 <= i < mfcc@.len() ==> -VALUE_BOUND <= #[trigger] mfcc@[i] <= VALUE_BOUND,
        -VALUE_BOUND <= perceptual_spread <= VALUE_BOUND,
        -VALUE_BOUND <= perceptual_sharpness <= VALUE_BOUND,
    ensures
        f.wf(),
        f.rms() == time.rms,
        f.zcr() == time.zcr,
        f.energy() == time.energy,
        f.spectral_centroid() == spectral.centroid,
        f.spectral_flatness() == spectral.flatness,
        f.spectral_slope() == spectral.slope,
        f.spectral_rolloff() == spectral.rolloff,
        f.spectral_spread() == spectral.spread,
        f.spectral_skewness() == spectral.skewness,
        f.spectral_kurtosis() == spectral.kurtosis,
        forall|i: int| 0 <= i < CHROMA_BINS ==> f.chroma(i) == chroma@[i],
        f.perceptual_spread() == perceptual_spread,
        f.perceptual_sharpness() == perceptual_sharpness,
        forall|i: int| 0 <= i < LOUDNESS_BANDS ==> f.perceptual_loudness(i) == loudness@[i],
        forall|i: int| 0 <= i < MFCC_COEFFS ==> f.mfcc(i) == mfcc@[i],
{
    let mut axes: Vec<i64> = Vec::new();
    axes.push(time.rms);
    axes.push(time.zcr);
    axes.push(time.energy);
    axes.push(spectral.centroid);
    axes.push(spectral.flatness);
    axes.push(spectral.slope);
    axes.push(spectral.rolloff);
    axes.push(spectral.spread);
    axes.push(spectral.skewness);
    axes.push(spectral.kurtosis);
    let ghost head = axes@;
    let mut i: usize = 0;
    while i < CHROMA_BINS
        invariant
            i <= CHROMA_BINS,
            chroma@.len() == CHROMA_BINS,
            head.len() == CHROMA_BASE,
            axes@.len() == CHROMA_BASE + i,
            axes@.take(CHROMA_BASE as int) == head,
            forall|t: int| 0 <= t < chroma@.len() ==> -VALUE_BOUND <= #[trigger] chroma@[t] <= VALUE_BOUND,
            forall|j: int| 0 <= j < i ==> #[trigger] axes@[CHROMA_BASE + j] == chroma@[j],
            forall|j: int| 0 <= j < i ==> -VALUE_BOUND <= #[trigger] axes@[CHROMA_BASE + j] <= VALUE_BOUND,
        decreases CHROMA_BINS - i,
    {
        axes.push(chroma[i]);
        proof {
            assert(axes@.take(CHROMA_BASE as int) =~= head);
        }
        i = i + 1;
    }
    axes.push(perceptual_spread);
    axes.push(perceptual_sharpness);
    let ghost head2 = axes@;
    proof {
        assert(forall|j: int| 0 <= j < CHROMA_BINS ==> #[trigger] head2[CHROMA_BASE + j]
            == chroma@[j]);
    }
    let mut i2: usize = 0;
    while i2 < LOUDNESS_BANDS
        invariant
            i2 <= LOUDNESS_BANDS,
            loudness@.len() == LOUDNESS_BANDS,
            head2.len() == LOUDNESS_BASE,
            axes@.len() == LOUDNESS_BASE + i2,
            axes@.take(LOUDNESS_BASE as int) == head2,
            forall|t: int| 0 <= t < loudness@.len() ==> -VALUE_BOUND <= #[trigger] loudness@[t] <= VALUE_BOUND,
            forall|j: int| 0 <= j < i2 ==> #[trigger] axes@[LOUDNESS_BASE + j] == loudness@[j],
            forall|j: int| 0 <= j < i2 ==> -VALUE_BOUND <= #[trigger] axes@[LOUDNESS_BASE + j] <= VALUE_BOUND,
        decreases LOUDNESS_BANDS - i2,
    {
        axes.push(loudness[i2]);
        proof {
            assert(axes@.take(LOUDNESS_BASE as int) =~= head2);
        }
        i2 = i2 + 1;
    }
    let ghost head3 = axes@;
    proof {
        assert(forall|j: int| 0 <= j < LOUDNESS_BANDS ==> #[trigger] head3[LOUDNESS_BASE + j]
            == loudness@[j]);
    }
    let mut i3: usize = 0;
    while i3 < MFCC_COEFFS
        invariant
            i3 <= MFCC_COEFFS,
            mfcc@.len() == MFCC_COEFFS,
            head3.len() == MFCC_BASE,
            axes@.len() == MFCC_BASE + i3,
            axes@.take(MFCC_BASE as int) == head3,
            forall|t: int| 0 <= t < mfcc@.len() ==> -VALUE_BOUND <= #[trigger] mfcc@[t] <= VALUE_BOUND,
            forall|j: int| 0 <= j < i3 ==> #[trigger] axes@[MFCC_BASE + j] == mfcc@[j],
            forall|j: int| 0 <= j < i3 ==> -VALUE_BOUND <= #[trigger] axes@[MFCC_BASE + j] <= VALUE_BOUND,
        decreases MFCC_COEFFS - i3,
    {
        axes.push(mfcc[i3]);
        proof {
            assert(axes@.take(MFCC_BASE as int) =~= head3);
        }
        i3 = i3 + 1;
    }
    proof {
        assert(head2.take(CHROMA_BASE as int) =~= head);
        assert(head3.take(LOUDNESS_BASE as int) =~= head2);
        assert(forall|j: int| 0 <= j < MFCC_BASE ==> #[trigger] axes@[j] == head3[j]);
        assert(forall|j: int| 0 <= j < LOUDNESS_BASE ==> #[trigger] head3[j] == head2[j]);
        assert(forall|j: int| 0 <= j < CHROMA_BASE ==> #[trigger] head2[j] == head[j]);
        assert forall|k: int| 0 <= k < axes@.len() implies -VALUE_BOUND <= #[trigger] axes@[k]
            <= VALUE_BOUND by {
            if k < CHROMA_BASE {
                assert(axes@[k] == head[k]);
            } else if k < PERCEPTUAL_SPREAD_AXIS {
                assert(axes@[k] == head2[k]);
                assert(head2[CHROMA_BASE + (k - CHROMA_BASE)] == chroma@[k - CHROMA_BASE]);
            } else if k < LOUDNESS_BASE {
                assert(axes@[k] == head2[k]);
            } else if k < MFCC_BASE {
                assert(axes@[k] == head3[k]);
                assert(head3[LOUDNESS_BASE + (k - LOUDNESS_BASE)] == loudness@[k - LOUDNESS_BASE]);
            } else {
                assert(axes@[MFCC_BASE + (k - MFCC_BASE)] == mfcc@[k - MFCC_BASE]);
            }
        }
    }
    RawFeatureSet { axes }
}

/// Build the row to persist for one file from its normalized feature set.
/// Every axis of the row is populated, so no partially written row can
/// reach the store through this constructor.
pub fn build_feature_row(file_id: i64, features: &NormalizedFeatureSet) -> (row: FeatureRow)
    requires
        features.wf(),
    ensures
        row.wf(),
        row.complete(),
        row.file_id == file_id,
        forall|k: int| 0 <= k < AXIS_COUNT ==> #[trigger] row.values@[k] == Some(features.axes@[k]),
{
    let mut values: Vec<Option<i64>> = Vec::new();
    let mut k: usize = 0;
    while k < AXIS_COUNT
        invariant
            k <= AXIS_COUNT,
            features.wf(),
            values@.len() == k,
            forall|j: int| 0 <= j < k ==> #[trigger] values@[j] == Some(features.axes@[j]),
        decreases AXIS_COUNT - k,
    {
        values.push(Some(features.axes[k]));
        k = k + 1;
    }
    FeatureRow { file_id, values }
}

} // verus!
