//! Spectral descriptors of one frame.
//!
//! The input is the power spectrum of a windowed frame: one nonnegative
//! fixed-point power value per frequency bin, at most [`MAX_BINS`] bins,
//! each at most [`POWER_LIMIT`] (that is, 1.0). The descriptors are the
//! statistical moments and shape measures of this power distribution over
//! the bin index, all in exact integer arithmetic. A frame with zero
//! total power — silence — yields zero for every descriptor, never a
//! division by zero or an undefined value.

use vstd::prelude::*;

verus! {

use vstd::arithmetic::div_mod::{
    lemma_div_is_ordered_by_denominator,
    lemma_div_nonincreasing,
    lemma_div_pos_is_pos,
    lemma_div_denominator,
};
use vstd::arithmetic::power2::{pow2, lemma_pow2_strictly_increases, lemma2_to64};
use crate::FEATURE_SCALE;
use crate::features::VALUE_BOUND;
use crate::math::{isqrt64, floor_log2, log2floor, sqrt_floor, lemma_div_bound};

/// Most bins a power spectrum may carry (a 2048-sample window).
pub const MAX_BINS: usize = 1024;

/// Largest power value of one bin: 1.0 in fixed point.
pub const POWER_LIMIT: u64 = 65536;

/// The input contract of the analyzer: bounded bin count, bounded bins.
pub open spec fn bins_bounded(p: Seq<u64>) -> bool {
    &&& p.len() <= MAX_BINS
    &&& forall|i: int| 0 <= i < p.len() ==> #[trigger] p[i] <= POWER_LIMIT
}

/// Total power.
pub open spec fn total_power(p: Seq<u64>) -> int
    decreases p.len(),
{
    if p.len() == 0 {
        0
    } else {
        total_power(p.drop_last()) + p.last()
    }
}

/// First raw moment: power weighted by bin index.
pub open spec fn indexed_power(p: Seq<u64>) -> int
    decreases p.len(),
{
    if p.len() == 0 {
        0
    } else {
        indexed_power(p.drop_last()) + (p.len() - 1) * p.last()
    }
}

/// Second central sum about bin `c`.
pub open spec fn central2(p: Seq<u64>, c: int) -> int
    decreases p.len(),
{
    if p.len() == 0 {
        0
    } else {
        central2(p.drop_last(), c) + (p.len() - 1 - c) * (p.len() - 1 - c) * p.last()
    }
}

/// Third central sum about bin `c`.
pub open spec fn central3(p: Seq<u64>, c: int) -> int
    decreases p.len(),
{
    if p.len() == 0 {
        0
    } else {
        central3(p.drop_last(), c) + (p.len() - 1 - c) * (p.len() - 1 - c) * (p.len() - 1 - c)
            * p.last()
    }
}

/// Fourth central sum about bin `c`.
pub open spec fn central4(p: Seq<u64>, c: int) -> int
    decreases p.len(),
{
    if p.len() == 0 {
        0
    } else {
        central4(p.drop_last(), c) + (p.len() - 1 - c) * (p.len() - 1 - c) * (p.len() - 1 - c)
            * (p.len() - 1 - c) * p.last()
    }
}

/// The mean bin of the power distribution, rounded down.
pub open spec fn bin_centroid(p: Seq<u64>) -> int {
    indexed_power(p) / total_power(p)
}

/// Truncating signed division (nonnegative divisor).
pub open spec fn div_trunc(a: int, b: int) -> int {
    if a >= 0 {
        a / b
    } else {
        -((-a) / b)
    }
}

/// Sum of the floor logarithms of all bins.
pub open spec fn log_power_sum(p: Seq<u64>) -> int
    decreases p.len(),
{
    if p.len() == 0 {
        0
    } else {
        log_power_sum(p.drop_last()) + log2floor(p.last() as int)
    }
}

/// Whether some bin carries no power at all.
pub open spec fn has_empty_bin(p: Seq<u64>) -> bool {
    exists|i: int| 0 <= i < p.len() && p[i] == 0
}

/// Spectral centroid: the mean bin index, in scaled bin units.
pub open spec fn centroid_spec(p: Seq<u64>) -> int {
    (indexed_power(p) * FEATURE_SCALE) / total_power(p)
}

/// Spectral spread: the standard deviation of the power distribution
/// about its centroid bin, in scaled bin units.
pub open spec fn spread_spec(p: Seq<u64>) -> int {
    sqrt_floor(
        (central2(p, bin_centroid(p)) * FEATURE_SCALE * FEATURE_SCALE) / total_power(p),
    )
}

/// Spectral skewness: the third standardized moment, scaled.
pub open spec fn skewness_spec(p: Seq<u64>) -> int {
    let c = bin_centroid(p);
    let s2 = central2(p, c);
    if s2 == 0 {
        0
    } else {
        div_trunc(
            central3(p, c) * FEATURE_SCALE * sqrt_floor(total_power(p)),
            sqrt_floor(s2) * s2,
        )
    }
}

/// Spectral kurtosis: the fourth standardized moment, scaled.
pub open spec fn kurtosis_spec(p: Seq<u64>) -> int {
    let c = bin_centroid(p);
    let s2 = central2(p, c);
    if s2 == 0 {
        0
    } else {
        (central4(p, c) * total_power(p) * FEATURE_SCALE) / (s2 * s2)
    }
}

/// Triangle number: the sum of the bin indices `0..n`.
pub open spec fn index_sum(n: int) -> int {
    n * (n - 1) / 2
}

/// The scatter of the bin indices about their own mean, times `n * n`:
/// the fixed denominator of the regression slope over `n` bins.
pub open spec fn slope_denominator(n: int) -> int {
    n * n * (n * n - 1) / 12
}

/// Spectral slope: the linear regression slope of power against bin
/// index, in scaled power-per-bin units.
pub open spec fn slope_spec(p: Seq<u64>) -> int {
    let n = p.len() as int;
    if n < 2 {
        0
    } else {
        div_trunc(
            (n * indexed_power(p) - index_sum(n) * total_power(p)) * FEATURE_SCALE,
            slope_denominator(n),
        )
    }
}

/// The rolloff search from bin `k`: the first bin at which the
/// cumulative power reaches 85 percent of the total, or the last bin.
pub open spec fn rolloff_bin_from(p: Seq<u64>, k: int) -> int
    decreases p.len() - k,
{
    if k < 0 || k >= p.len() - 1 {
        if p.len() == 0 {
            0
        } else {
            p.len() - 1
        }
    } else if total_power(p.take(k + 1)) * 20 >= total_power(p) * 17 {
        k
    } else {
        rolloff_bin_from(p, k + 1)
    }
}

/// Spectral rolloff: the 85th-percentile bin, in scaled bin units.
pub open spec fn rolloff_spec(p: Seq<u64>) -> int {
    rolloff_bin_from(p, 0) * FEATURE_SCALE
}

/// Spectral flatness: the ratio of the geometric to the arithmetic mean
/// of the bin powers, scaled. The geometric mean is taken to the nearest
/// power of two below, via the mean floor logarithm; a single empty bin
/// pins it, and the flatness, to zero.
pub open spec fn flatness_spec(p: Seq<u64>) -> int {
    if has_empty_bin(p) || p.len() == 0 {
        0
    } else {
        (pow2((log_power_sum(p) / p.len() as int) as nat) * FEATURE_SCALE)
            / (total_power(p) / p.len() as int)
    }
}

/// A silent frame has an all-zero spectrum, and an all-zero spectrum
/// carries no power — so, by the contract of `spectral_descriptors`,
/// every spectral descriptor of silence is zero, never an undefined
/// value.
pub proof fn lemma_silent_spectrum(p: Seq<u64>)
    requires
        forall|i: int| 0 <= i < p.len() ==> p[i] == 0,
    ensures
        total_power(p) == 0,
    decreases p.len(),
{
    if p.len() > 0 {
        assert(forall|i: int| 0 <= i < p.drop_last().len() ==> p.drop_last()[i] == 0);
        lemma_silent_spectrum(p.drop_last());
        assert(p[p.len() - 1] == 0);
    }
}

/// Bounds of the raw moments under the input contract.
proof fn lemma_weighted_bounds(p: Seq<u64>)
    requires
        bins_bounded(p),
    ensures
        0 <= total_power(p) <= p.len() * (POWER_LIMIT as int),
        0 <= indexed_power(p),
        p.len() >= 1 ==> indexed_power(p) <= (p.len() - 1) * total_power(p),
    decreases p.len(),
{
    if p.len() > 0 {
        assert(bins_bounded(p.drop_last()));
        lemma_weighted_bounds(p.drop_last());
        let l = p.len() as int;
        assert(p[l - 1] <= POWER_LIMIT);
        assert((l - 1) * p.last() >= 0) by (nonlinear_arith)
            requires
                l >= 1,
                p.last() >= 0,
        ;
        assert(l * (POWER_LIMIT as int) == (l - 1) * (POWER_LIMIT as int) + POWER_LIMIT)
            by (nonlinear_arith);
        if p.len() >= 2 {
            assert((l - 2) * total_power(p.drop_last()) <= (l - 1) * total_power(p.drop_last()))
                by (nonlinear_arith)
                requires
                    total_power(p.drop_last()) >= 0,
                    l >= 2,
            ;
            assert((l - 1) * total_power(p.drop_last()) + (l - 1) * p.last() == (l - 1) * (
            total_power(p.drop_last()) + p.last())) by (nonlinear_arith);
        }
    }
}

/// Bounds of the central sums about any bin inside the spectrum.
proof fn lemma_central_bounds(p: Seq<u64>, c: int)
    requires
        bins_bounded(p),
        0 <= c < MAX_BINS,
    ensures
        0 <= central2(p, c) <= 1048576 * total_power(p),
        -1024 * central2(p, c) <= central3(p, c) <= 1024 * central2(p, c),
        0 <= central4(p, c) <= 1048576 * central2(p, c),
    decreases p.len(),
{
    if p.len() > 0 {
        assert(bins_bounded(p.drop_last()));
        lemma_central_bounds(p.drop_last(), c);
        let e = p.len() - 1 - c;
        let v = p.last() as int;
        assert(-1024 <= e <= 1024);
        assert(v >= 0);
        let t2 = e * e * v;
        assert(0 <= t2 <= 1048576 * v) by (nonlinear_arith)
            requires
                -1024 <= e <= 1024,
                v >= 0,
                t2 == e * e * v,
        ;
        assert(-1024 * t2 <= e * e * e * v <= 1024 * t2) by (nonlinear_arith)
            requires
                -1024 <= e <= 1024,
                v >= 0,
                t2 == e * e * v,
        ;
        assert(0 <= e * e * e * e * v <= 1048576 * t2) by (nonlinear_arith)
            requires
                -1024 <= e <= 1024,
                v >= 0,
                t2 == e * e * v,
        ;
        assert(1048576 * (total_power(p.drop_last()) + v) == 1048576 * total_power(p.drop_last())
            + 1048576 * v) by (nonlinear_arith);
        assert(1048576 * (central2(p.drop_last(), c) + t2) == 1048576 * central2(p.drop_last(), c)
            + 1048576 * t2) by (nonlinear_arith);
        assert(1024 * (central2(p.drop_last(), c) + t2) == 1024 * central2(p.drop_last(), c) + 1024
            * t2) by (nonlinear_arith);
    }
}

/// Without empty bins the total power covers every bin at least once.
proof fn lemma_total_at_least_len(p: Seq<u64>)
    requires
        !has_empty_bin(p),
    ensures
        total_power(p) >= p.len(),
    decreases p.len(),
{
    if p.len() > 0 {
        assert(forall|i: int| 0 <= i < p.len() - 1 ==> p.drop_last()[i] == p[i]);
        assert(!has_empty_bin(p.drop_last()));
        lemma_total_at_least_len(p.drop_last());
        assert(p[p.len() - 1] != 0);
    }
}

proof fn lemma_total_power_push(p: Seq<u64>, i: int)
    requires
        0 <= i < p.len(),
    ensures
        total_power(p.take(i + 1)) == total_power(p.take(i)) + p[i],
        indexed_power(p.take(i + 1)) == indexed_power(p.take(i)) + i * p[i],
        log_power_sum(p.take(i + 1)) == log_power_sum(p.take(i)) + log2floor(p[i] as int),
{
    assert(p.take(i + 1).drop_last() =~= p.take(i));
    assert(p.take(i + 1).last() == p[i]);
}

proof fn lemma_central_push(p: Seq<u64>, c: int, i: int)
    requires
        0 <= i < p.len(),
    ensures
        central2(p.take(i + 1), c) == central2(p.take(i), c) + (i - c) * (i - c) * p[i],
        central3(p.take(i + 1), c) == central3(p.take(i), c) + (i - c) * (i - c) * (i - c) * p[i],
        central4(p.take(i + 1), c) == central4(p.take(i), c) + (i - c) * (i - c) * (i - c) * (i
            - c) * p[i],
{
    assert(p.take(i + 1).drop_last() =~= p.take(i));
    assert(p.take(i + 1).last() == p[i]);
}

/// The raw moment sums of the spectrum.
fn weighted_sums(power: &Vec<u64>) -> (s: (u64, u64))
    requires
        bins_bounded(power@),
    ensures
        s.0 == total_power(power@),
        s.1 == indexed_power(power@),
{
    let mut m0: u64 = 0;
    let mut m1: u64 = 0;
    let mut i: usize = 0;
    while i < power.len()
        invariant
            i <= power@.len(),
            bins_bounded(power@),
            m0 == total_power(power@.take(i as int)),
            m1 == indexed_power(power@.take(i as int)),
        decreases power@.len() - i,
    {
        proof {
            lemma_total_power_push(power@, i as int);
            assert(bins_bounded(power@.take(i as int + 1))) by {
                assert(forall|j: int| 0 <= j < i + 1 ==> power@.take(i as int + 1)[j]
                    == power@[j]);
            }
            lemma_weighted_bounds(power@.take(i as int + 1));
            assert((i as int) * (power@[i as int] as int) <= 1024 * 65536) by (nonlinear_arith)
                requires
                    0 <= i as int <= 1024,
                    0 <= power@[i as int] <= 65536,
            ;
            assert(indexed_power(power@.take(i as int + 1)) <= 1024 * (1024 * 65536))
                by (nonlinear_arith)
                requires
                    indexed_power(power@.take(i as int + 1)) <= (power@.take(i as int + 1).len()
                        - 1) * total_power(power@.take(i as int + 1)),
                    0 <= power@.take(i as int + 1).len() <= 1024,
                    0 <= total_power(power@.take(i as int + 1)) <= 1024 * 65536,
            ;
        }
        m0 = m0 + power[i];
        m1 = m1 + (i as u64) * power[i];
        i = i + 1;
    }
    proof {
        assert(power@.take(power@.len() as int) =~= power@);
    }
    (m0, m1)
}

/// The central sums of the spectrum about bin `c`.
fn central_sums(power: &Vec<u64>, c: u64) -> (s: (u64, i128, u128))
    requires
        bins_bounded(power@),
        c < 1024,
    ensures
        s.0 == central2(power@, c as int),
        s.1 == central3(power@, c as int),
        s.2 == central4(power@, c as int),
{
    let mut s2: u64 = 0;
    let mut s3: i128 = 0;
    let mut s4: u128 = 0;
    let mut i: usize = 0;
    while i < power.len()
        invariant
            i <= power@.len(),
            bins_bounded(power@),
            c < 1024,
            s2 == central2(power@.take(i as int), c as int),
            s3 == central3(power@.take(i as int), c as int),
            s4 == central4(power@.take(i as int), c as int),
        decreases power@.len() - i,
    {
        proof {
            lemma_central_push(power@, c as int, i as int);
            assert(bins_bounded(power@.take(i as int + 1))) by {
                assert(forall|j: int| 0 <= j < i + 1 ==> power@.take(i as int + 1)[j]
                    == power@[j]);
            }
            lemma_central_bounds(power@.take(i as int + 1), c as int);
            lemma_weighted_bounds(power@.take(i as int + 1));
            assert(1048576 * total_power(power@.take(i as int + 1)) <= 1048576 * (1025 * 65536))
                by (nonlinear_arith)
                requires
                    0 <= total_power(power@.take(i as int + 1)) <= 1025 * 65536,
            ;
            assert(1024 * central2(power@.take(i as int + 1), c as int) <= 1024 * (1048576 * (1025
                * 65536))) by (nonlinear_arith)
                requires
                    0 <= central2(power@.take(i as int + 1), c as int) <= 1048576 * (1025 * 65536),
            ;
            assert(1048576 * central2(power@.take(i as int + 1), c as int) <= 1048576 * (1048576
                * (1025 * 65536))) by (nonlinear_arith)
                requires
                    0 <= central2(power@.take(i as int + 1), c as int) <= 1048576 * (1025 * 65536),
            ;
        }
        let e: i64 = i as i64 - c as i64;
        let v: i64 = power[i] as i64;
        proof {
            assert(-1024 <= e as int <= 1024 && 0 <= v as int <= 65536);
            assert(e as int * e as int <= 1048576 && e as int * e as int >= 0) by (nonlinear_arith)
                requires
                    -1024 <= e as int <= 1024,
            ;
        }
        let e2: i64 = e * e;
        let t2: i64 = e2 * v;
        proof {
            assert(0 <= e2 * v <= 1048576 * 65536) by (nonlinear_arith)
                requires
                    0 <= e2 <= 1048576,
                    0 <= v <= 65536,
            ;
            assert(-1024 * (t2 as int) <= (e as int) * (t2 as int) <= 1024 * (t2 as int))
                by (nonlinear_arith)
                requires
                    -1024 <= e as int <= 1024,
                    t2 as int >= 0,
            ;
            assert((e as int) * ((e as int) * (e as int) * (v as int)) == (e as int) * (e as int)
                * (e as int) * (v as int)) by (nonlinear_arith);
            assert(((e as int) * (e as int)) * ((e as int) * (e as int) * (v as int)) == (e as int)
                * (e as int) * (e as int) * (e as int) * (v as int)) by (nonlinear_arith);
            assert(s3 + (e as int) * (t2 as int) == central3(power@.take(i as int + 1), c as int));
            assert(s4 + (e2 as int) * (t2 as int) == central4(power@.take(i as int + 1), c as int));
        }
        s2 = s2 + t2 as u64;
        s3 = s3 + (e as i128) * (t2 as i128);
        s4 = s4 + (e2 as u128) * (t2 as u128);
        i = i + 1;
    }
    proof {
        assert(power@.take(power@.len() as int) =~= power@);
    }
    (s2, s3, s4)
}

proof fn lemma_total_nonneg(p: Seq<u64>)
    ensures
        total_power(p) >= 0,
    decreases p.len(),
{
    if p.len() > 0 {
        lemma_total_nonneg(p.drop_last());
    }
}

proof fn lemma_total_prefix_le(p: Seq<u64>, j: int)
    requires
        0 <= j <= p.len(),
    ensures
        0 <= total_power(p.take(j)) <= total_power(p),
    decreases p.len() - j,
{
    lemma_total_nonneg(p.take(j));
    if j == p.len() {
        assert(p.take(j) =~= p);
    } else {
        lemma_total_power_push(p, j);
        lemma_total_prefix_le(p, j + 1);
    }
}

/// Find the rolloff bin: the first bin at which the cumulative power
/// reaches 85 percent of the total.
fn rolloff_search(power: &Vec<u64>, total: u64) -> (kb: usize)
    requires
        bins_bounded(power@),
        total == total_power(power@),
        total > 0,
    ensures
        kb == rolloff_bin_from(power@, 0),
        kb < power@.len(),
{
    proof {
        lemma_weighted_bounds(power@);
    }
    let n = power.len();
    let mut cum: u64 = 0;
    let mut k: usize = 0;
    while k < n - 1
        invariant
            n == power@.len(),
            n >= 1,
            k <= n - 1,
            bins_bounded(power@),
            total == total_power(power@),
            total <= 1024 * 65536,
            cum == total_power(power@.take(k as int)),
            cum <= total,
            rolloff_bin_from(power@, 0) == rolloff_bin_from(power@, k as int),
        decreases n - k,
    {
        proof {
            lemma_total_power_push(power@, k as int);
            lemma_total_prefix_le(power@, k as int + 1);
        }
        let cum2 = cum + power[k];
        if cum2 * 20 >= total * 17 {
            return k;
        }
        cum = cum2;
        k = k + 1;
    }
    n - 1
}

/// The flatness ratio of a spectrum with positive total power.
fn flatness_ratio(power: &Vec<u64>, total: u64) -> (f: i64)
    requires
        bins_bounded(power@),
        total == total_power(power@),
        total > 0,
    ensures
        f == flatness_spec(power@),
        0 <= f <= 0x1_0000_0000u64,
{
    let n = power.len();
    let mut logs: u64 = 0;
    let mut i: usize = 0;
    while i < n
        invariant
            i <= n,
            n == power@.len(),
            n >= 1,
            bins_bounded(power@),
            total == total_power(power@),
            total > 0,
            !has_empty_bin(power@.take(i as int)),
            logs == log_power_sum(power@.take(i as int)),
            logs <= 16 * i,
        decreases n - i,
    {
        let v = power[i];
        if v == 0 {
            proof {
                assert(has_empty_bin(power@)) by {
                    assert(0 <= i < power@.len() && power@[i as int] == 0);
                }
            }
            return 0;
        }
        let r = floor_log2(v);
        proof {
            lemma_total_power_push(power@, i as int);
            if r >= 17 {
                lemma2_to64();
                if r > 17 {
                    lemma_pow2_strictly_increases(17, r as nat);
                }
                assert(pow2(17) == 0x20000);
            }
            assert(!has_empty_bin(power@.take(i as int + 1))) by {
                assert(forall|j: int| 0 <= j < i ==> power@.take(i as int + 1)[j]
                    == power@.take(i as int)[j]);
                assert(power@.take(i as int + 1)[i as int] == power@[i as int]);
            }
        }
        logs = logs + r;
        i = i + 1;
    }
    proof {
        assert(power@.take(n as int) =~= power@);
        lemma_div_bound(logs as int, n as int, 16);
        lemma_total_at_least_len(power@);
        vstd::arithmetic::div_mod::lemma_div_is_ordered(n as int, total as int, n as int);
        vstd::arithmetic::div_mod::lemma_div_by_self(n as int);
        lemma2_to64();
    }
    let gm_e: u64 = logs / n as u64;
    let mut q: u64 = 1;
    let mut j: u64 = 0;
    while j < gm_e
        invariant
            j <= gm_e <= 16,
            q == pow2(j as nat),
            q <= 65536,
        decreases gm_e - j,
    {
        proof {
            vstd::arithmetic::power2::lemma_pow2_unfold((j + 1) as nat);
            lemma2_to64();
            if j + 1 < 16 {
                lemma_pow2_strictly_increases((j + 1) as nat, 16);
            }
        }
        q = q * 2;
        j = j + 1;
    }
    let am: u64 = total / n as u64;
    proof {
        lemma_div_bound((q * 65536) as int, am as int, 0x1_0000_0000);
    }
    (q * 65536 / am) as i64
}

/// The spectral descriptors of one frame.
pub struct SpectralDescriptors {
    pub centroid: i64,
    pub flatness: i64,
    pub slope: i64,
    pub rolloff: i64,
    pub spread: i64,
    pub skewness: i64,
    pub kurtosis: i64,
}

/// Compute every spectral descriptor of one frame from its power
/// spectrum. A frame with zero total power yields zero everywhere —
/// the silence edge case never divides by zero. With positive power,
/// each descriptor equals its exact integer formula.
pub fn spectral_descriptors(power: &Vec<u64>) -> (d: SpectralDescriptors)
    requires
        bins_bounded(power@),
    ensures
        total_power(power@) == 0 ==> d.centroid == 0 && d.flatness == 0 && d.slope == 0
            && d.rolloff == 0 && d.spread == 0 && d.skewness == 0 && d.kurtosis == 0,
        total_power(power@) > 0 ==> ({
            &&& d.centroid == centroid_spec(power@)
            &&& d.flatness == flatness_spec(power@)
            &&& d.slope == slope_spec(power@)
            &&& d.rolloff == rolloff_spec(power@)
            &&& d.spread == spread_spec(power@)
            &&& d.skewness == skewness_spec(power@)
            &&& d.kurtosis == kurtosis_spec(power@)
        }),
        0 <= d.centroid <= VALUE_BOUND,
        0 <= d.flatness <= VALUE_BOUND,
        -VALUE_BOUND <= d.slope <= VALUE_BOUND,
        0 <= d.rolloff <= VALUE_BOUND,
        0 <= d.spread <= VALUE_BOUND,
        -VALUE_BOUND <= d.skewness <= VALUE_BOUND,
        0 <= d.kurtosis <= VALUE_BOUND,
{
    let (m0e, m1e) = weighted_sums(power);
    if m0e == 0 {
        return SpectralDescriptors {
            centroid: 0,
            flatness: 0,
            slope: 0,
            rolloff: 0,
            spread: 0,
            skewness: 0,
            kurtosis: 0,
        };
    }
    proof {
        lemma_weighted_bounds(power@);
        assert(power@.len() >= 1);
        lemma_div_bound(m1e as int, m0e as int, power@.len() - 1);
        assert(m1e as int <= 1023 * (1024 * 65536)) by (nonlinear_arith)
            requires
                m1e as int <= (power@.len() - 1) * total_power(power@),
                1 <= power@.len() <= 1024,
                0 <= total_power(power@) <= 1024 * 65536,
                m0e == total_power(power@),
        ;
    }
    let c: u64 = m1e / m0e;
    proof {
        assert((m1e as int) * 65536 <= (1023int * 65536) * (m0e as int)) by (nonlinear_arith)
            requires
                m1e as int <= (power@.len() - 1) * (m0e as int),
                1 <= power@.len() <= 1024,
                m0e as int >= 0,
        ;
        lemma_div_bound((m1e * 65536) as int, m0e as int, 1023int * 65536);
    }
    let centroid: i64 = ((m1e * 65536) / m0e) as i64;
    let (s2, s3, s4) = central_sums(power, c);
    proof {
        lemma_central_bounds(power@, c as int);
        assert((s2 as int) * 65536 * 65536 == (s2 as int) * (65536 * 65536)) by (nonlinear_arith);
        assert((s2 as int) * (65536 * 65536) <= (1048576 * (65536 * 65536)) * (m0e as int))
            by (nonlinear_arith)
            requires
                0 <= s2 as int <= 1048576 * (m0e as int),
        ;
        lemma_div_bound(
            (s2 as int) * (65536 * 65536),
            m0e as int,
            1048576int * (65536 * 65536),
        );
        lemma_div_pos_is_pos((s2 as int) * (65536 * 65536), m0e as int);
    }
    let spread_arg: u64 = ((s2 as u128 * 65536 * 65536) / m0e as u128) as u64;
    let spread: i64 = isqrt64(spread_arg) as i64;
    proof {
        assert(spread as int <= 0x4000000) by (nonlinear_arith)
            requires
                (spread as int) * (spread as int) <= 0x10000000000000,
                spread as int >= 0,
        ;
    }
    let rm = isqrt64(m0e);
    proof {
        assert(rm as int <= 0x2000) by (nonlinear_arith)
            requires
                (rm as int) * (rm as int) <= 1024 * 65536,
                rm as int >= 0,
        ;
    }
    let skewness: i64 = if s2 == 0 {
        0
    } else {
        let q = isqrt64(s2);
        proof {
            assert(q >= 1) by (nonlinear_arith)
                requires
                    (q as int + 1) * (q as int + 1) > s2 as int,
                    s2 as int >= 1,
                    q as int >= 0,
            ;
            assert(q as int <= 0x800000) by (nonlinear_arith)
                requires
                    (q as int) * (q as int) <= s2 as int,
                    s2 as int <= 1048576 * (1024 * 65536),
                    q as int >= 0,
            ;
            assert(s2 as int <= (q as int) * (s2 as int) && (q as int) * (s2 as int) <= 0x800000
                * (s2 as int)) by (nonlinear_arith)
                requires
                    1 <= q as int <= 0x800000,
                    1 <= s2 as int,
            ;
            assert(s2 as int <= 0x400000000000) by (nonlinear_arith)
                requires
                    s2 as int <= 1048576 * (m0e as int),
                    0 <= m0e as int <= 1024 * 65536,
            ;
        }
        let mag: u128 = if s3 >= 0 {
            s3 as u128
        } else {
            (-s3) as u128
        };
        proof {
            assert((mag as int) * 65536 * (rm as int) <= ((1024 * 65536) * (rm as int)) * (
            s2 as int)) by (nonlinear_arith)
                requires
                    mag as int <= 1024 * (s2 as int),
                    0 <= rm as int,
                    0 <= s2 as int,
            ;
            assert(0 <= (mag as int) * 65536 * (rm as int) <= 0x400000000000000000000000)
                by (nonlinear_arith)
                requires
                    0 <= mag as int <= 1024 * (s2 as int),
                    0 <= s2 as int <= 0x400000000000,
                    0 <= rm as int <= 0x2000,
            ;
            lemma_div_is_ordered_by_denominator(
                (mag as int) * 65536 * (rm as int),
                s2 as int,
                (q as int) * (s2 as int),
            );
            lemma_div_bound(
                (mag as int) * 65536 * (rm as int),
                s2 as int,
                (1024 * 65536) * (rm as int),
            );
            assert(((1024 * 65536) as int) * (rm as int) <= 0x8000000000) by (nonlinear_arith)
                requires
                    0 <= rm as int <= 0x2000,
            ;
            lemma_div_pos_is_pos((mag as int) * 65536 * (rm as int), (q as int) * (s2 as int));
        }
        let mg: u128 = (mag * 65536 * rm as u128) / (q as u128 * s2 as u128);
        proof {
            assert((-(s3 as int)) * 65536 * (rm as int) == -((s3 as int) * 65536 * (rm as int)))
                by (nonlinear_arith);
        }
        if s3 >= 0 {
            mg as i64
        } else {
            -(mg as i64)
        }
    };
    let kurtosis: i64 = if s2 == 0 {
        0
    } else {
        proof {
            assert(s2 as int <= 0x400000000000 && 1 <= (s2 as int) * (s2 as int) && (s2 as int)
                * (s2 as int) <= 0x1000000000000000000000000) by (nonlinear_arith)
                requires
                    1 <= s2 as int,
                    s2 as int <= 1048576 * (m0e as int),
                    0 <= m0e as int <= 1024 * 65536,
            ;
            assert(0 <= (s4 as int) * (m0e as int) * 65536
                <= 0x1000000000000000000000000000000) by (nonlinear_arith)
                requires
                    0 <= s4 as int <= 1048576 * (s2 as int),
                    0 <= s2 as int <= 0x400000000000,
                    0 <= m0e as int <= 1024 * 65536,
            ;
            assert((s4 as int) * (m0e as int) * 65536 <= ((1048576 * 65536) * (m0e as int)) * (
            s2 as int)) by (nonlinear_arith)
                requires
                    0 <= s4 as int <= 1048576 * (s2 as int),
                    0 <= m0e as int,
                    0 <= s2 as int,
            ;
            lemma_div_denominator((s4 as int) * (m0e as int) * 65536, s2 as int, s2 as int);
            lemma_div_bound(
                (s4 as int) * (m0e as int) * 65536,
                s2 as int,
                (1048576 * 65536) * (m0e as int),
            );
            lemma_div_nonincreasing(
                ((s4 as int) * (m0e as int) * 65536) / (s2 as int),
                s2 as int,
            );
            lemma_div_pos_is_pos(
                (s4 as int) * (m0e as int) * 65536,
                (s2 as int) * (s2 as int),
            );
            assert(((1048576 * 65536) as int) * (m0e as int) <= 0x4000000000000000)
                by (nonlinear_arith)
                requires
                    0 <= m0e as int <= 1024 * 65536,
            ;
        }
        ((s4 * m0e as u128 * 65536) / (s2 as u128 * s2 as u128)) as i64
    };
    let n = power.len();
    let slope: i64 = if n < 2 {
        0
    } else {
        let nn = n as u64;
        proof {
            assert(nn as int * (nn as int - 1) <= 1024 * 1023 && nn as int * (nn as int - 1) >= 2)
                by (nonlinear_arith)
                requires
                    2 <= nn as int <= 1024,
            ;
            assert(nn as int * nn as int <= 1048576 && nn as int * nn as int >= 4)
                by (nonlinear_arith)
                requires
                    2 <= nn as int <= 1024,
            ;
        }
        let t: u64 = nn * (nn - 1) / 2;
        let nsq: u64 = nn * nn;
        proof {
            assert(nsq as int * (nsq as int - 1) >= 12 && nsq as int * (nsq as int - 1)
                <= 1048576 * 1048576) by (nonlinear_arith)
                requires
                    4 <= nsq as int <= 1048576,
            ;
        }
        let den: u64 = nsq * (nsq - 1) / 12;
        proof {
            assert(nn as int * (m1e as int) <= 1024 * (1023 * (1024 * 65536)))
                by (nonlinear_arith)
                requires
                    0 <= m1e as int <= 1023 * (1024 * 65536),
                    0 <= nn as int <= 1024,
            ;
            assert((t as int) * (m0e as int) <= (1024 * 1023 / 2) * (1024 * 65536))
                by (nonlinear_arith)
                requires
                    0 <= t as int <= 1024 * 1023 / 2,
                    0 <= m0e as int <= 1024 * 65536,
            ;
        }
        let a: i128 = nn as i128 * m1e as i128 - t as i128 * m0e as i128;
        let mag: u128 = if a >= 0 {
            a as u128
        } else {
            (-a) as u128
        };
        proof {
            lemma_div_nonincreasing((mag as int) * 65536, den as int);
            lemma_div_pos_is_pos((mag as int) * 65536, den as int);
            assert((-(a as int)) * 65536 == -((a as int) * 65536)) by (nonlinear_arith);
        }
        let mg: u128 = (mag * 65536) / den as u128;
        if a >= 0 {
            mg as i64
        } else {
            -(mg as i64)
        }
    };
    let rb = rolloff_search(power, m0e);
    let rolloff: i64 = (rb as i64) * 65536;
    let flatness = flatness_ratio(power, m0e);
    SpectralDescriptors { centroid, flatness, slope, rolloff, spread, skewness, kurtosis }
}

} // verus!
