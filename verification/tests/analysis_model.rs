use feature_pipeline::frames::{extract_frame, frame_count, time_stats};
use feature_pipeline::math::{floor_log2, isqrt64};
use feature_pipeline::spectral::spectral_descriptors;
use feature_pipeline::FEATURE_SCALE;

#[test]
fn isqrt_exact_values() {
    assert_eq!(isqrt64(0), 0);
    assert_eq!(isqrt64(1), 1);
    assert_eq!(isqrt64(3), 1);
    assert_eq!(isqrt64(4), 2);
    assert_eq!(isqrt64(2147483648), 46340);
    assert_eq!(isqrt64(u64::MAX), 4294967295);
}

#[test]
fn floor_log2_exact_values() {
    assert_eq!(floor_log2(1), 0);
    assert_eq!(floor_log2(2), 1);
    assert_eq!(floor_log2(3), 1);
    assert_eq!(floor_log2(100), 6);
    assert_eq!(floor_log2(65536), 16);
    assert_eq!(floor_log2(u64::MAX), 63);
}

#[test]
fn frame_count_boundary_lengths() {
    // window 1024, hop 512: the trailing partial frame is padded, not dropped
    assert_eq!(frame_count(0, 1024, 512), 0);
    assert_eq!(frame_count(1, 1024, 512), 1);
    assert_eq!(frame_count(1024, 1024, 512), 1);
    assert_eq!(frame_count(1025, 1024, 512), 2);
    assert_eq!(frame_count(1536, 1024, 512), 2);
    assert_eq!(frame_count(1537, 1024, 512), 3);
    assert_eq!(frame_count(2048, 1024, 512), 3);
}

#[test]
fn trailing_frame_is_zero_padded() {
    let samples = vec![11, 22, 33];
    let frame = extract_frame(&samples, 2, 4);
    assert_eq!(frame, vec![33, 0, 0, 0]);
    let full = extract_frame(&samples, 0, 3);
    assert_eq!(full, vec![11, 22, 33]);
}

#[test]
fn silent_signal_yields_zero_time_stats() {
    let samples = vec![0i64; 2048];
    let t = time_stats(&samples);
    assert_eq!(t.rms, 0);
    assert_eq!(t.zcr, 0);
    assert_eq!(t.energy, 0);
}

#[test]
fn alternating_full_scale_signal_stats() {
    let s = FEATURE_SCALE;
    let samples = vec![s, -s, s, -s];
    let t = time_stats(&samples);
    // every sample has squared amplitude 1.0, so rms and energy are 1.0
    assert_eq!(t.rms, s);
    assert_eq!(t.energy, s);
    // three crossings over four samples
    assert_eq!(t.zcr, 3 * s / 4);
}

#[test]
fn silent_spectrum_yields_zero_descriptors() {
    let power = vec![0u64; 513];
    let d = spectral_descriptors(&power);
    assert_eq!(d.centroid, 0);
    assert_eq!(d.flatness, 0);
    assert_eq!(d.slope, 0);
    assert_eq!(d.rolloff, 0);
    assert_eq!(d.spread, 0);
    assert_eq!(d.skewness, 0);
    assert_eq!(d.kurtosis, 0);
}

#[test]
fn single_tone_spectrum_descriptors() {
    // all power in bin 2 of 4
    let power = vec![0u64, 0, 65536, 0];
    let d = spectral_descriptors(&power);
    assert_eq!(d.centroid, 2 * 65536);
    assert_eq!(d.rolloff, 2 * 65536);
    // no scatter about the centroid bin
    assert_eq!(d.spread, 0);
    assert_eq!(d.skewness, 0);
    assert_eq!(d.kurtosis, 0);
    // an empty bin pins the geometric mean, and the flatness, to zero
    assert_eq!(d.flatness, 0);
    // regression slope: rising toward the upper bins
    assert_eq!(d.slope, 131072i64 * 65536 / 20);
}

#[test]
fn uniform_two_bin_spectrum_descriptors() {
    let power = vec![100u64, 100];
    let d = spectral_descriptors(&power);
    assert_eq!(d.centroid, 100 * 65536 / 200);
    assert_eq!(d.rolloff, 65536);
    assert_eq!(d.spread, 46340);
    assert_eq!(d.skewness, 91750);
    assert_eq!(d.kurtosis, 131072);
    assert_eq!(d.flatness, 41943);
}
