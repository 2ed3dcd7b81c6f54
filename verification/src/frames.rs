//! Frame segmentation and time-domain statistics.
//!
//! A signal of `n` samples is cut into overlapping frames of `window`
//! samples, one frame every `hop` samples. The trailing partial frame is
//! zero-padded to the full window length — fixed behavior, never dropped —
//! so a signal shorter than one window still yields exactly one frame.
//!
//! Samples are amplitudes in fixed point: `FEATURE_SCALE` stands for 1.0,
//! and every sample must lie in `[-FEATURE_SCALE, FEATURE_SCALE]`.

use vstd::prelude::*;

verus! {

use crate::FEATURE_SCALE;
use crate::math::isqrt64;

/// How many frames a signal of `n` samples yields: one frame starts at
/// every multiple of `hop` from zero up, as long as it starts inside the
/// signal; the last frame is padded.
pub open spec fn frame_count_spec(n: int, window: int, hop: int) -> int {
    if n == 0 {
        0
    } else if n <= window {
        1
    } else {
        1 + (n - window + hop - 1) / hop
    }
}

/// Number of frames for a signal of `n` samples.
pub fn frame_count(n: usize, window: usize, hop: usize) -> (c: usize)
    requires
        window >= 1,
        hop >= 1,
        n + hop <= usize::MAX,
    ensures
        c == frame_count_spec(n as int, window as int, hop as int),
{
    if n == 0 {
        0
    } else if n <= window {
        1
    } else {
        1 + (n - window + (hop - 1)) / hop
    }
}

/// Where frame `i` starts.
pub fn frame_start(i: usize, hop: usize) -> (s: usize)
    requires
        i * hop <= usize::MAX,
    ensures
        s == i * hop,
{
    i * hop
}

/// Cut one frame out of the signal: `window` samples from `start`,
/// zero-padded past the end of the signal.
pub fn extract_frame(samples: &Vec<i64>, start: usize, window: usize) -> (frame: Vec<i64>)
    ensures
        frame@.len() == window,
        forall|j: int| 0 <= j < window ==> #[trigger] frame@[j] == if start + j < samples@.len() {
            samples@[start + j]
        } else {
            0
        },
{
    let mut frame: Vec<i64> = Vec::new();
    let mut j: usize = 0;
    while j < window
        invariant
            j <= window,
            frame@.len() == j,
            forall|t: int| 0 <= t < j ==> #[trigger] frame@[t] == if start + t < samples@.len() {
                samples@[start + t]
            } else {
                0
            },
        decreases window - j,
    {
        if start < samples.len() && j < samples.len() - start {
            frame.push(samples[start + j]);
        } else {
            frame.push(0);
        }
        j = j + 1;
    }
    frame
}

/// Sum of squared samples.
pub open spec fn sum_squares(s: Seq<i64>) -> int
    decreases s.len(),
{
    if s.len() == 0 {
        0
    } else {
        sum_squares(s.drop_last()) + s.last() * s.last()
    }
}

/// How often the signal crosses zero: a sample strictly below zero
/// followed by one at or above it, or the other way around.
pub open spec fn sign_changes(s: Seq<i64>) -> int
    decreases s.len(),
{
    if s.len() < 2 {
        0
    } else {
        sign_changes(s.drop_last()) + if (s[s.len() - 2] < 0) != (s.last() < 0) {
            1int
        } else {
            0int
        }
    }
}

/// An all-zero signal has no energy and no crossings.
pub proof fn lemma_silence_has_no_energy(s: Seq<i64>)
    requires
        forall|i: int| 0 <= i < s.len() ==> s[i] == 0,
    ensures
        sum_squares(s) == 0,
        sign_changes(s) == 0,
    decreases s.len(),
{
    if s.len() > 0 {
        assert(forall|i: int| 0 <= i < s.drop_last().len() ==> s.drop_last()[i] == 0);
        lemma_silence_has_no_energy(s.drop_last());
    }
}

proof fn lemma_sum_squares_push(s: Seq<i64>, i: int)
    requires
        0 <= i < s.len(),
    ensures
        sum_squares(s.take(i + 1)) == sum_squares(s.take(i)) + s[i] * s[i],
{
    assert(s.take(i + 1).drop_last() =~= s.take(i));
}

proof fn lemma_sign_changes_push(s: Seq<i64>, i: int)
    requires
        1 <= i < s.len(),
    ensures
        sign_changes(s.take(i + 1)) == sign_changes(s.take(i)) + if (s[i - 1] < 0) != (s[i] < 0) {
            1int
        } else {
            0int
        },
{
    assert(s.take(i + 1).drop_last() =~= s.take(i));
}

/// Sums of squares of bounded samples stay under `len * FEATURE_SCALE^2`.
proof fn lemma_sum_squares_bound(s: Seq<i64>)
    requires
        forall|i: int| 0 <= i < s.len() ==> -FEATURE_SCALE <= #[trigger] s[i] <= FEATURE_SCALE,
    ensures
        0 <= sum_squares(s) <= s.len() * (FEATURE_SCALE * FEATURE_SCALE),
    decreases s.len(),
{
    if s.len() > 0 {
        lemma_sum_squares_bound(s.drop_last());
        assert(s.last() * s.last() <= FEATURE_SCALE * FEATURE_SCALE) by (nonlinear_arith)
            requires
                -FEATURE_SCALE <= s.last() <= FEATURE_SCALE,
        ;
        assert(s.last() * s.last() >= 0) by (nonlinear_arith);
        assert(s.len() * (FEATURE_SCALE * FEATURE_SCALE)
            == s.drop_last().len() * (FEATURE_SCALE * FEATURE_SCALE)
                + FEATURE_SCALE * FEATURE_SCALE) by (nonlinear_arith)
            requires
                s.len() == s.drop_last().len() + 1,
        ;
    }
}

/// Time-domain statistics of one signal, all in fixed point.
pub struct TimeStats {
    /// Root of the mean squared amplitude.
    pub rms: i64,
    /// Crossings per sample, scaled by `FEATURE_SCALE`.
    pub zcr: i64,
    /// Mean squared amplitude.
    pub energy: i64,
}

/// Compute root-mean-square amplitude, zero-crossing rate and energy of
/// a signal. The accumulators hold exact sums and the means divide once
/// at the end, so long signals lose nothing to intermediate rounding.
/// A silent signal — every sample zero — yields exactly zero for all
/// three, never an undefined value.
pub fn time_stats(samples: &Vec<i64>) -> (t: TimeStats)
    requires
        forall|i: int| 0 <= i < samples@.len()
            ==> -FEATURE_SCALE <= #[trigger] samples@[i] <= FEATURE_SCALE,
    ensures
        samples@.len() == 0 ==> t.rms == 0 && t.zcr == 0 && t.energy == 0,
        samples@.len() > 0 ==> ({
            let mean_sq = sum_squares(samples@) / samples@.len() as int;
            &&& t.rms == crate::math::sqrt_floor(mean_sq)
            &&& t.energy == mean_sq / FEATURE_SCALE as int
            &&& t.zcr == (sign_changes(samples@) * FEATURE_SCALE) / samples@.len() as int
        }),
        0 <= t.rms <= FEATURE_SCALE,
        0 <= t.zcr <= FEATURE_SCALE,
        0 <= t.energy <= FEATURE_SCALE,
        (forall|i: int| 0 <= i < samples@.len() ==> samples@[i] == 0) ==> t.rms == 0
            && t.zcr == 0 && t.energy == 0,
{
    let n = samples.len();
    if n == 0 {
        return TimeStats { rms: 0, zcr: 0, energy: 0 };
    }
    let mut sq: u128 = 0;
    let mut crossings: u64 = 0;
    let mut i: usize = 0;
    while i < n
        invariant
            i <= n,
            n == samples@.len(),
            1 <= n,
            forall|j: int| 0 <= j < samples@.len()
                ==> -FEATURE_SCALE <= #[trigger] samples@[j] <= FEATURE_SCALE,
            sq == sum_squares(samples@.take(i as int)),
            crossings == sign_changes(samples@.take(i as int)),
            crossings <= i,
        decreases n - i,
    {
        proof {
            lemma_sum_squares_push(samples@, i as int);
            lemma_sum_squares_bound(samples@.take(i as int + 1));
            if i >= 1 {
                lemma_sign_changes_push(samples@, i as int);
            } else {
                assert(samples@.take(1).len() == 1);
            }
            assert(samples@.take(i as int + 1).len() * (FEATURE_SCALE * FEATURE_SCALE)
                <= 0x1_0000_0000_0000_0000 * (FEATURE_SCALE * FEATURE_SCALE))
                by (nonlinear_arith)
                requires
                    0 <= samples@.take(i as int + 1).len() <= 0x1_0000_0000_0000_0000,
            ;
        }
        let v = samples[i];
        proof {
            assert(0 <= v * v <= FEATURE_SCALE * FEATURE_SCALE) by (nonlinear_arith)
                requires
                    -FEATURE_SCALE <= v <= FEATURE_SCALE,
            ;
        }
        let sqv: u64 = (v * v) as u64;
        sq = sq + sqv as u128;
        if i >= 1 {
            let prev = samples[i - 1];
            if (prev < 0) != (v < 0) {
                crossings = crossings + 1;
            }
        }
        i = i + 1;
    }
    proof {
        assert(samples@.take(n as int) =~= samples@);
        lemma_sum_squares_bound(samples@);
        crate::math::lemma_div_bound(sum_squares(samples@), n as int, FEATURE_SCALE as int
            * FEATURE_SCALE as int);
    }
    let mean_sq: u64 = (sq / n as u128) as u64;
    proof {
        crate::math::lemma_div_bound(mean_sq as int, FEATURE_SCALE as int, FEATURE_SCALE as int);
    }
    let rms = isqrt64(mean_sq);
    proof {
        assert(rms * rms <= FEATURE_SCALE * FEATURE_SCALE ==> rms <= FEATURE_SCALE)
            by (nonlinear_arith);
        crate::math::lemma_div_bound(
            sign_changes(samples@) * FEATURE_SCALE as int,
            n as int,
            FEATURE_SCALE as int,
        );
        vstd::arithmetic::div_mod::lemma_div_pos_is_pos(
            sign_changes(samples@) * FEATURE_SCALE as int,
            n as int,
        );
    }
    let energy: i64 = (mean_sq / FEATURE_SCALE as u64) as i64;
    let zcr: i64 = ((crossings as u128 * FEATURE_SCALE as u128) / n as u128) as i64;
    proof {
        if forall|j: int| 0 <= j < samples@.len() ==> samples@[j] == 0 {
            lemma_silence_has_no_energy(samples@);
            vstd::arithmetic::div_mod::lemma_div_of0(n as int);
            vstd::arithmetic::div_mod::lemma_div_of0(FEATURE_SCALE as int);
            assert(rms == 0) by (nonlinear_arith)
                requires
                    rms >= 0,
                    rms * rms <= 0,
            ;
        }
    }
    TimeStats { rms: rms as i64, zcr, energy }
}

} // verus!
