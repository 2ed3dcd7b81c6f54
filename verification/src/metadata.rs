//! Metadata summaries.
//!
//! A summary joins, per file, the tag entries and the stored duration
//! into one record for display: artist, album and title fall back to
//! empty text, the duration to zero, when nothing is stored. The store
//! reads stay outside; this module does the join over plain values. Tag
//! text arrives as bytes, the duration in fixed point.

use vstd::prelude::*;

verus! {

/// The tag keys a summary reads.
#[derive(Clone, Copy, Debug, PartialEq, Eq, Structural)]
pub enum MetaKey {
    Artist,
    Album,
    TrackTitle,
}

/// One stored tag entry.
pub struct MetaEntry {
    pub file_id: i64,
    pub key: MetaKey,
    pub value: Vec<u8>,
}

/// One file's display summary.
pub struct MetadataSummary {
    pub id: i64,
    pub artist: Vec<u8>,
    pub album: Vec<u8>,
    pub title: Vec<u8>,
    pub duration: i64,
}

/// The value of the last entry for `(id, key)`, or empty text: when a
/// key was stored twice, the later entry wins.
pub open spec fn lookup_value(entries: Seq<MetaEntry>, id: i64, key: MetaKey) -> Seq<u8>
    decreases entries.len(),
{
    if entries.len() == 0 {
        Seq::empty()
    } else if entries.last().file_id == id && entries.last().key == key {
        entries.last().value@
    } else {
        lookup_value(entries.drop_last(), id, key)
    }
}

/// The last stored duration of the file, or zero.
pub open spec fn lookup_duration(durations: Seq<(i64, i64)>, id: i64) -> int
    decreases durations.len(),
{
    if durations.len() == 0 {
        0
    } else if durations.last().0 == id {
        durations.last().1 as int
    } else {
        lookup_duration(durations.drop_last(), id)
    }
}

proof fn lemma_lookup_push(entries: Seq<MetaEntry>, id: i64, key: MetaKey, j: int)
    requires
        0 <= j < entries.len(),
    ensures
        lookup_value(entries.take(j + 1), id, key) == if entries[j].file_id == id
            && entries[j].key == key {
            entries[j].value@
        } else {
            lookup_value(entries.take(j), id, key)
        },
{
    assert(entries.take(j + 1).drop_last() =~= entries.take(j));
}

proof fn lemma_duration_push(durations: Seq<(i64, i64)>, id: i64, j: int)
    requires
        0 <= j < durations.len(),
    ensures
        lookup_duration(durations.take(j + 1), id) == if durations[j].0 == id {
            durations[j].1 as int
        } else {
            lookup_duration(durations.take(j), id)
        },
{
    assert(durations.take(j + 1).drop_last() =~= durations.take(j));
}

/// An element-wise copy of a byte string.
fn copy_bytes(v: &Vec<u8>) -> (r: Vec<u8>)
    ensures
        r@ == v@,
{
    let mut r: Vec<u8> = Vec::new();
    let mut i: usize = 0;
    while i < v.len()
        invariant
            i <= v@.len(),
            r@ == v@.take(i as int),
        decreases v@.len() - i,
    {
        r.push(v[i]);
        proof {
            assert(v@.take(i as int + 1) =~= v@.take(i as int).push(v@[i as int]));
        }
        i = i + 1;
    }
    proof {
        assert(v@.take(v@.len() as int) =~= v@);
    }
    r
}

/// The summary of one file: its tag values with empty-text defaults and
/// its duration with a zero default.
fn summarize_one(file_id: i64, entries: &Vec<MetaEntry>, durations: &Vec<(i64, i64)>) -> (s: MetadataSummary)
    ensures
        s.id == file_id,
        s.artist@ == lookup_value(entries@, file_id, MetaKey::Artist),
        s.album@ == lookup_value(entries@, file_id, MetaKey::Album),
        s.title@ == lookup_value(entries@, file_id, MetaKey::TrackTitle),
        s.duration == lookup_duration(durations@, file_id),
{
    let mut artist: Vec<u8> = Vec::new();
    let mut album: Vec<u8> = Vec::new();
    let mut title: Vec<u8> = Vec::new();
    let mut j: usize = 0;
    while j < entries.len()
        invariant
            j <= entries@.len(),
            artist@ == lookup_value(entries@.take(j as int), file_id, MetaKey::Artist),
            album@ == lookup_value(entries@.take(j as int), file_id, MetaKey::Album),
            title@ == lookup_value(entries@.take(j as int), file_id, MetaKey::TrackTitle),
        decreases entries@.len() - j,
    {
        proof {
            lemma_lookup_push(entries@, file_id, MetaKey::Artist, j as int);
            lemma_lookup_push(entries@, file_id, MetaKey::Album, j as int);
            lemma_lookup_push(entries@, file_id, MetaKey::TrackTitle, j as int);
        }
        if entries[j].file_id == file_id {
            match entries[j].key {
                MetaKey::Artist => {
                    artist = copy_bytes(&entries[j].value);
                },
                MetaKey::Album => {
                    album = copy_bytes(&entries[j].value);
                },
                MetaKey::TrackTitle => {
                    title = copy_bytes(&entries[j].value);
                },
            }
        }
        j = j + 1;
    }
    let mut duration: i64 = 0;
    let mut t: usize = 0;
    while t < durations.len()
        invariant
            t <= durations@.len(),
            duration == lookup_duration(durations@.take(t as int), file_id),
        decreases durations@.len() - t,
    {
        proof {
            lemma_duration_push(durations@, file_id, t as int);
        }
        if durations[t].0 == file_id {
            duration = durations[t].1;
        }
        t = t + 1;
    }
    proof {
        assert(entries@.take(entries@.len() as int) =~= entries@);
        assert(durations@.take(durations@.len() as int) =~= durations@);
    }
    MetadataSummary { id: file_id, artist, album, title, duration }
}

/// One summary per requested file, in request order, with defaults for
/// whatever is not stored: a file without tags still gets a summary.
pub fn get_metadata_summary_by_file_ids(
    file_ids: &Vec<i64>,
    entries: &Vec<MetaEntry>,
    durations: &Vec<(i64, i64)>,
) -> (out: Vec<MetadataSummary>)
    ensures
        out@.len() == file_ids@.len(),
        forall|i: int| 0 <= i < out@.len() ==> ({
            &&& (#[trigger] out@[i]).id == file_ids@[i]
            &&& out@[i].artist@ == lookup_value(entries@, file_ids@[i], MetaKey::Artist)
            &&& out@[i].album@ == lookup_value(entries@, file_ids@[i], MetaKey::Album)
            &&& out@[i].title@ == lookup_value(entries@, file_ids@[i], MetaKey::TrackTitle)
            &&& out@[i].duration == lookup_duration(durations@, file_ids@[i])
        }),
{
    let mut out: Vec<MetadataSummary> = Vec::new();
    let mut i: usize = 0;
    while i < file_ids.len()
        invariant
            i <= file_ids@.len(),
            out@.len() == i,
            forall|k: int| 0 <= k < i ==> ({
                &&& (#[trigger] out@[k]).id == file_ids@[k]
                &&& out@[k].artist@ == lookup_value(entries@, file_ids@[k], MetaKey::Artist)
                &&& out@[k].album@ == lookup_value(entries@, file_ids@[k], MetaKey::Album)
                &&& out@[k].title@ == lookup_value(entries@, file_ids@[k], MetaKey::TrackTitle)
                &&& out@[k].duration == lookup_duration(durations@, file_ids@[k])
            }),
        decreases file_ids@.len() - i,
    {
        let s = summarize_one(file_ids[i], entries, durations);
        out.push(s);
        i = i + 1;
    }
    out
}

/// The summary of a single file.
pub fn get_metadata_summary_by_file_id(
    file_id: i64,
    entries: &Vec<MetaEntry>,
    durations: &Vec<(i64, i64)>,
) -> (s: MetadataSummary)
    ensures
        s.id == file_id,
        s.artist@ == lookup_value(entries@, file_id, MetaKey::Artist),
        s.album@ == lookup_value(entries@, file_id, MetaKey::Album),
        s.title@ == lookup_value(entries@, file_id, MetaKey::TrackTitle),
        s.duration == lookup_duration(durations@, file_id),
{
    summarize_one(file_id, entries, durations)
}

} // verus!
