use feature_pipeline::aggregate::{aggregate_frames, get_centralized_analysis_result};
use feature_pipeline::features::{
    assemble_frame_features, build_feature_row, FeatureRow, RawFeatureSet, AXIS_COUNT,
    CHROMA_BASE, LOUDNESS_BASE, MFCC_BASE, PERCEPTUAL_SHARPNESS_AXIS, PERCEPTUAL_SPREAD_AXIS,
};
use feature_pipeline::frames::TimeStats;
use feature_pipeline::metadata::{
    get_metadata_summary_by_file_id, get_metadata_summary_by_file_ids, MetaEntry, MetaKey,
};
use feature_pipeline::normalize::{normalize_analysis_result, BIN_UNIT_TOP, FLATNESS_AXIS};
use feature_pipeline::spectral::SpectralDescriptors;
use feature_pipeline::sync::{
    check_items_in_playlist, next_playlist_position, plan_cover_art_action, plan_file_action,
    CoverArtAction, FileSyncAction,
};
use feature_pipeline::FEATURE_SCALE;

fn raw_with_axis(axis: usize, value: i64) -> RawFeatureSet {
    let mut axes = vec![0i64; AXIS_COUNT];
    axes[axis] = value;
    RawFeatureSet { axes }
}

fn row_with_axis(file_id: i64, axis: usize, value: Option<i64>) -> FeatureRow {
    let mut values: Vec<Option<i64>> = vec![Some(0i64); AXIS_COUNT];
    values[axis] = value;
    FeatureRow { file_id, values }
}

#[test]
fn group_mean_counts_only_contributing_rows() {
    // file A carries 2.0 on the axis, file B carries nothing there:
    // the mean is 2.0, because the denominator counts only contributors
    let a = row_with_axis(1, 0, Some(2 * FEATURE_SCALE));
    let b = row_with_axis(2, 0, None);
    let agg = get_centralized_analysis_result(&vec![a, b]);
    assert_eq!(agg.axes[0], 2 * FEATURE_SCALE);
    // an axis where both contribute averages over both
    assert_eq!(agg.axes[1], 0);
}

#[test]
fn group_mean_of_no_contributors_is_zero() {
    let a = row_with_axis(1, 5, None);
    let b = row_with_axis(2, 5, None);
    let agg = get_centralized_analysis_result(&vec![a, b]);
    assert_eq!(agg.axes[5], 0);
    let empty = get_centralized_analysis_result(&Vec::new());
    assert_eq!(empty.axes.len(), AXIS_COUNT);
    assert!(empty.axes.iter().all(|v| *v == 0));
}

#[test]
fn group_mean_handles_negative_values() {
    let a = row_with_axis(1, 8, Some(-9));
    let b = row_with_axis(2, 8, Some(-8));
    let agg = get_centralized_analysis_result(&vec![a, b]);
    // truncating mean of -9 and -8
    assert_eq!(agg.axes[8], -8);
}

#[test]
fn frame_aggregation_is_mean_per_axis() {
    let f1 = raw_with_axis(3, 10);
    let f2 = raw_with_axis(3, 21);
    let agg = aggregate_frames(&vec![f1, f2]);
    assert_eq!(agg.axes[3], 15);
    let none = aggregate_frames(&Vec::new());
    assert!(none.axes.iter().all(|v| *v == 0));
}

#[test]
fn persisted_row_is_fully_populated() {
    let raw = raw_with_axis(0, FEATURE_SCALE);
    let normalized = normalize_analysis_result(&raw);
    let row = build_feature_row(42, &normalized);
    assert_eq!(row.file_id, 42);
    assert_eq!(row.values.len(), AXIS_COUNT);
    assert!(row.values.iter().all(|v| v.is_some()));
    assert_eq!(row.values[0], Some(normalized.axes[0]));
}

#[test]
fn normalizer_is_pure() {
    let mut axes = Vec::new();
    for k in 0..AXIS_COUNT as i64 {
        axes.push(k * 12345 - 300000);
    }
    let raw_a = RawFeatureSet { axes: axes.clone() };
    let raw_b = RawFeatureSet { axes };
    let once = normalize_analysis_result(&raw_a);
    let twice = normalize_analysis_result(&raw_b);
    assert_eq!(once.axes, twice.axes);
}

#[test]
fn normalizer_clamps_linear_axes() {
    // mid-range rms maps linearly
    let half = normalize_analysis_result(&raw_with_axis(0, FEATURE_SCALE / 2));
    assert_eq!(half.axes[0], FEATURE_SCALE / 2);
    // below the range floor maps to zero, above the ceiling to full scale
    let low = normalize_analysis_result(&raw_with_axis(5, -5_000_000_000));
    assert_eq!(low.axes[5], 0);
    let high = normalize_analysis_result(&raw_with_axis(3, BIN_UNIT_TOP + 7));
    assert_eq!(high.axes[3], FEATURE_SCALE);
    // a centroid halfway up its range maps to half scale
    let mid = normalize_analysis_result(&raw_with_axis(3, BIN_UNIT_TOP / 2));
    assert_eq!(mid.axes[3], FEATURE_SCALE / 2);
}

#[test]
fn normalizer_compresses_flatness_logarithmically() {
    let zero = normalize_analysis_result(&raw_with_axis(FLATNESS_AXIS, 0));
    assert_eq!(zero.axes[FLATNESS_AXIS], 0);
    // 1 + 65535 is two to the sixteenth: sixteen of thirty-two log steps
    let unit = normalize_analysis_result(&raw_with_axis(FLATNESS_AXIS, 65535));
    assert_eq!(unit.axes[FLATNESS_AXIS], 16 * FEATURE_SCALE / 32);
}

#[test]
fn frame_assembly_places_every_axis() {
    let time = TimeStats { rms: 1, zcr: 2, energy: 3 };
    let spectral = SpectralDescriptors {
        centroid: 4,
        flatness: 5,
        slope: -6,
        rolloff: 7,
        spread: 8,
        skewness: -9,
        kurtosis: 10,
    };
    let chroma: Vec<i64> = (100..112).collect();
    let loudness: Vec<i64> = (200..224).collect();
    let mfcc: Vec<i64> = (300..313).collect();
    let f = assemble_frame_features(&time, &spectral, &chroma, 44, 55, &loudness, &mfcc);
    assert_eq!(f.axes.len(), AXIS_COUNT);
    assert_eq!(&f.axes[0..10], &[1, 2, 3, 4, 5, -6, 7, 8, -9, 10]);
    assert_eq!(f.axes[CHROMA_BASE], 100);
    assert_eq!(f.axes[CHROMA_BASE + 11], 111);
    assert_eq!(f.axes[PERCEPTUAL_SPREAD_AXIS], 44);
    assert_eq!(f.axes[PERCEPTUAL_SHARPNESS_AXIS], 55);
    assert_eq!(f.axes[LOUDNESS_BASE], 200);
    assert_eq!(f.axes[LOUDNESS_BASE + 23], 223);
    assert_eq!(f.axes[MFCC_BASE], 300);
    assert_eq!(f.axes[MFCC_BASE + 12], 312);
}

#[test]
fn scan_decision_covers_every_branch() {
    assert_eq!(plan_file_action(None, 10, 7), FileSyncAction::InsertNew);
    assert_eq!(plan_file_action(Some((10, 7)), 10, 9), FileSyncAction::Skip);
    assert_eq!(
        plan_file_action(Some((10, 7)), 11, 7),
        FileSyncAction::UpdateLastModified
    );
    assert_eq!(
        plan_file_action(Some((10, 7)), 11, 8),
        FileSyncAction::RefreshMetadata
    );
}

#[test]
fn metadata_summary_joins_with_defaults() {
    let entries = vec![
        MetaEntry { file_id: 1, key: MetaKey::Artist, value: b"ada".to_vec() },
        MetaEntry { file_id: 1, key: MetaKey::TrackTitle, value: b"first".to_vec() },
        MetaEntry { file_id: 2, key: MetaKey::Album, value: b"late".to_vec() },
        // a later entry for the same key wins
        MetaEntry { file_id: 1, key: MetaKey::Artist, value: b"grace".to_vec() },
    ];
    let durations = vec![(1i64, 180 * 65536i64)];
    let out = get_metadata_summary_by_file_ids(&vec![1, 2, 3], &entries, &durations);
    assert_eq!(out.len(), 3);
    assert_eq!(out[0].id, 1);
    assert_eq!(out[0].artist, b"grace".to_vec());
    assert_eq!(out[0].title, b"first".to_vec());
    assert_eq!(out[0].album, Vec::<u8>::new());
    assert_eq!(out[0].duration, 180 * 65536);
    assert_eq!(out[1].album, b"late".to_vec());
    assert_eq!(out[1].duration, 0);
    // a file with nothing stored still gets a summary, all defaults
    assert_eq!(out[2].id, 3);
    assert_eq!(out[2].artist, Vec::<u8>::new());
    assert_eq!(out[2].duration, 0);
    let single = get_metadata_summary_by_file_id(2, &entries, &durations);
    assert_eq!(single.album, b"late".to_vec());
}

#[test]
fn cover_art_decision_covers_every_branch() {
    assert_eq!(plan_cover_art_action(None, None, None), CoverArtAction::NotFound);
    assert_eq!(
        plan_cover_art_action(Some(Some(5)), None, None),
        CoverArtAction::FetchLinked(5)
    );
    assert_eq!(
        plan_cover_art_action(Some(None), Some(0xabcd), Some(9)),
        CoverArtAction::LinkExisting(9)
    );
    assert_eq!(
        plan_cover_art_action(Some(None), Some(0xabcd), None),
        CoverArtAction::StoreExtracted(0xabcd)
    );
    assert_eq!(
        plan_cover_art_action(Some(None), None, Some(3)),
        CoverArtAction::LinkExisting(3)
    );
    assert_eq!(
        plan_cover_art_action(Some(None), None, None),
        CoverArtAction::CreateEmptyMarker
    );
}

#[test]
fn playlist_duplicates_and_positions() {
    let requested = vec![1, 2, 3, 2];
    let present = vec![2, 9];
    assert_eq!(check_items_in_playlist(&requested, &present), vec![2, 2]);
    assert_eq!(next_playlist_position(None), 1);
    assert_eq!(next_playlist_position(Some(7)), 8);
}
