//! Decisions of the library scan.
//!
//! The scan walks the files on disk and reconciles each with its stored
//! record. The reads and writes stay outside; this module decides, from
//! plain values — the stored modification stamp and content hash against
//! the incoming ones — what the scan must do, and what belongs in a
//! playlist operation. Stamps and hashes arrive as plain integers.

use vstd::prelude::*;

verus! {

/// What the scan does with one file.
#[derive(Clone, Copy, Debug, PartialEq, Eq, Structural)]
pub enum FileSyncAction {
    /// The stored record is current: leave it alone.
    Skip,
    /// Same content, new stamp: touch only the modification stamp.
    UpdateLastModified,
    /// The content changed: refresh the stored hash and the metadata.
    RefreshMetadata,
    /// No record yet: insert one, with its metadata.
    InsertNew,
}

/// Decide what the scan does with one file. `existing` carries the
/// stored (modification stamp, content hash) when a record exists.
/// An unchanged stamp short-circuits: the hash is not even consulted.
pub fn plan_file_action(
    existing: Option<(i64, u64)>,
    incoming_modified: i64,
    incoming_hash: u64,
) -> (a: FileSyncAction)
    ensures
        existing is None ==> a == FileSyncAction::InsertNew,
        existing matches Some((m, h)) ==> a == if m == incoming_modified {
            FileSyncAction::Skip
        } else if h == incoming_hash {
            FileSyncAction::UpdateLastModified
        } else {
            FileSyncAction::RefreshMetadata
        },
{
    match existing {
        None => FileSyncAction::InsertNew,
        Some((m, h)) => {
            if m == incoming_modified {
                FileSyncAction::Skip
            } else if h == incoming_hash {
                FileSyncAction::UpdateLastModified
            } else {
                FileSyncAction::RefreshMetadata
            }
        },
    }
}

/// What the cover-art lookup does next for one file.
#[derive(Clone, Copy, Debug, PartialEq, Eq, Structural)]
pub enum CoverArtAction {
    /// The file is not in the library: nothing to return.
    NotFound,
    /// The file already points at a stored cover: fetch that row.
    FetchLinked(i64),
    /// A stored cover has the same checksum (or the empty marker row
    /// exists for a file without art): link the file to that row.
    LinkExisting(i64),
    /// Art was extracted and no stored row matches its checksum: store
    /// it, then link the file to the new row.
    StoreExtracted(u64),
    /// The file has no art and no empty marker row exists yet: create
    /// the marker, then link the file to it.
    CreateEmptyMarker,
}

/// Decide the cover-art step for one file from what the lookups saw:
/// whether the file exists and what cover row it already points at,
/// the checksum of the art extracted from the file if any, and the
/// stored row that matches — by checksum for extracted art, the empty
/// marker row otherwise.
pub fn plan_cover_art_action(
    file: Option<Option<i64>>,
    extracted_checksum: Option<u64>,
    matching_row: Option<i64>,
) -> (a: CoverArtAction)
    ensures
        file is None ==> a == CoverArtAction::NotFound,
        file matches Some(Some(linked)) ==> a == CoverArtAction::FetchLinked(linked),
        file matches Some(None) ==> a == match (extracted_checksum, matching_row) {
            (Some(_), Some(row)) => CoverArtAction::LinkExisting(row),
            (Some(checksum), None) => CoverArtAction::StoreExtracted(checksum),
            (None, Some(row)) => CoverArtAction::LinkExisting(row),
            (None, None) => CoverArtAction::CreateEmptyMarker,
        },
{
    match file {
        None => CoverArtAction::NotFound,
        Some(Some(linked)) => CoverArtAction::FetchLinked(linked),
        Some(None) => match (extracted_checksum, matching_row) {
            (Some(_), Some(row)) => CoverArtAction::LinkExisting(row),
            (Some(checksum), None) => CoverArtAction::StoreExtracted(checksum),
            (None, Some(row)) => CoverArtAction::LinkExisting(row),
            (None, None) => CoverArtAction::CreateEmptyMarker,
        },
    }
}

/// The members of `requested` that already sit in the playlist, in
/// request order: what a duplicate check reports.
pub open spec fn duplicates_spec(requested: Seq<i64>, present: Seq<i64>) -> Seq<i64>
    decreases requested.len(),
{
    if requested.len() == 0 {
        Seq::empty()
    } else if present.contains(requested.last()) {
        duplicates_spec(requested.drop_last(), present).push(requested.last())
    } else {
        duplicates_spec(requested.drop_last(), present)
    }
}

proof fn lemma_duplicates_push(requested: Seq<i64>, present: Seq<i64>, i: int)
    requires
        0 <= i < requested.len(),
    ensures
        duplicates_spec(requested.take(i + 1), present) == if present.contains(requested[i]) {
            duplicates_spec(requested.take(i), present).push(requested[i])
        } else {
            duplicates_spec(requested.take(i), present)
        },
{
    assert(requested.take(i + 1).drop_last() =~= requested.take(i));
}

/// Which of the requested media files are already in the playlist.
pub fn check_items_in_playlist(requested: &Vec<i64>, present: &Vec<i64>) -> (dup: Vec<i64>)
    ensures
        dup@ == duplicates_spec(requested@, present@),
{
    let mut dup: Vec<i64> = Vec::new();
    let mut i: usize = 0;
    while i < requested.len()
        invariant
            i <= requested@.len(),
            dup@ == duplicates_spec(requested@.take(i as int), present@),
        decreases requested@.len() - i,
    {
        proof {
            lemma_duplicates_push(requested@, present@, i as int);
        }
        let x = requested[i];
        let mut found = false;
        let mut j: usize = 0;
        while j < present.len()
            invariant
                j <= present@.len(),
                found == exists|t: int| 0 <= t < j && present@[t] == x,
            decreases present@.len() - j,
        {
            if present[j] == x {
                found = true;
            }
            j = j + 1;
        }
        if found {
            dup.push(x);
        }
        i = i + 1;
    }
    proof {
        assert(requested@.take(requested@.len() as int) =~= requested@);
    }
    dup
}

/// The position a media file gets when appended to a playlist: one past
/// the largest position present, or one when the playlist is empty.
pub fn next_playlist_position(max_present: Option<i32>) -> (p: i32)
    requires
        max_present matches Some(m) ==> m < i32::MAX,
    ensures
        p == match max_present {
            Some(m) => m + 1,
            None => 1,
        },
{
    match max_present {
        Some(m) => m + 1,
        None => 0 + 1,
    }
}

} // verus!
