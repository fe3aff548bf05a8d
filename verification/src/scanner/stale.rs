//! What of a file has to be done again.
//!
//! A file is known by the time it changed and its size. Each kind of asset has a version
//! of its own: raising one has only that asset made again.

use crate::clock;
use crate::text;
use vstd::prelude::*;

verus! {

/// Raised when what is stored of a show changes.
pub const SHOW_SCAN_VERSION: i64 = 3;

/// Raised when what is stored of a movie or an episode changes.
pub const MEDIA_SCAN_VERSION: i64 = 3;

pub const SUBTITLES_VERSION: i64 = 1;

pub const THUMBNAILS_VERSION: i64 = 1;

pub const TRICKPLAY_VERSION: i64 = 1;

/// Raised when chapters become markers in another way.
pub const MARKERS_VERSION: i64 = 1;

/// Raised when the sound of a season is compared in another way.
pub const AUDIO_MARKERS_VERSION: i64 = 1;

/// What the database holds of a file.
#[derive(Debug)]
pub struct MediaRow {
    pub id: String,
    pub scanned_at: String,
    pub scan_version: i64,
    pub deleted: bool,
    pub subtitles_version: i64,
    pub markers_version: i64,
    pub thumbnails_version: i64,
    pub trickplay_version: i64,
    pub content_mtime: Option<i64>,
    pub content_size: Option<i64>,
}

/// The time of change and the size that are stored of a file, where both are.
pub open spec fn stored_signature(m: Option<i64>, s: Option<i64>) -> Option<(i64, i64)> {
    match (m, s) {
        (Some(a), Some(b)) => Some((a, b)),
        _ => None,
    }
}

/// The signature that is stored, where both parts are.
pub fn signature_of(m: Option<i64>, s: Option<i64>) -> (r: Option<(i64, i64)>)
    ensures
        r == stored_signature(m, s),
{
    match (m, s) {
        (Some(a), Some(b)) => Some((a, b)),
        _ => None,
    }
}

/// Whether what is stored of a file was taken from another one than is there now, or from
/// one that nothing is known of: it is then looked at again before it is told.
pub fn needs_refresh(m: Option<i64>, s: Option<i64>, signature: (i64, i64)) -> (r: bool)
    ensures
        r == (stored_signature(m, s) != Some(signature)),
{
    match signature_of(m, s) {
        Some(t) => t.0 != signature.0 || t.1 != signature.1,
        None => true,
    }
}

/// What has to be done again for a file.
#[derive(Debug, Clone, Copy, PartialEq, Eq, Structural)]
pub struct Staleness {
    /// The file, or what stands beside it, changed.
    pub file_changed: bool,
    /// What is stored of it is of an older kind.
    pub metadata_stale: bool,
    /// Probe, subtitles and chapters.
    pub needs_essential: bool,
    pub needs_thumbnails: bool,
    pub needs_trickplay: bool,
}

/// All of it.
pub open spec fn all_stale() -> Staleness {
    Staleness {
        file_changed: true,
        metadata_stale: true,
        needs_essential: true,
        needs_thumbnails: true,
        needs_trickplay: true,
    }
}

/// None of it.
pub open spec fn none_stale() -> Staleness {
    Staleness {
        file_changed: false,
        metadata_stale: false,
        needs_essential: false,
        needs_thumbnails: false,
        needs_trickplay: false,
    }
}

/// The file is not the one that is stored, in whichever direction its time moved.
pub open spec fn content_changed(row: MediaRow, signature: (i64, i64)) -> bool {
    match stored_signature(row.content_mtime, row.content_size) {
        Some(s) => s != signature,
        None => false,
    }
}

/// What has to be done again for a file that is stored. A file whose signature was never
/// stored gets it with the essentials; its images are left alone.
pub open spec fn row_staleness(row: MediaRow, signature: (i64, i64), sidecars_changed: bool) -> Staleness {
    let changed = content_changed(row, signature);
    let unknown = stored_signature(row.content_mtime, row.content_size) is None;
    Staleness {
        file_changed: row.deleted || changed || sidecars_changed,
        metadata_stale: row.scan_version != MEDIA_SCAN_VERSION,
        needs_essential: row.deleted || changed || unknown || row.subtitles_version
            < SUBTITLES_VERSION || row.markers_version < MARKERS_VERSION,
        needs_thumbnails: row.deleted || changed || row.thumbnails_version < THUMBNAILS_VERSION,
        needs_trickplay: row.deleted || changed || row.trickplay_version < TRICKPLAY_VERSION,
    }
}

/// What has to be done again: all of it for a file that is new.
pub open spec fn file_staleness(
    existing: Option<MediaRow>,
    signature: (i64, i64),
    sidecar_mtimes: Seq<i64>,
) -> Staleness {
    match existing {
        Some(row) => row_staleness(
            row,
            signature,
            clock::some_newer(
                sidecar_mtimes,
                clock::parsed_time(row.scanned_at@, clock::sqlite_format()),
            ),
        ),
        None => all_stale(),
    }
}

/// What has to be done again for a file that is stored.
pub fn staleness_of_row(row: &MediaRow, signature: (i64, i64), sidecars_changed: bool) -> (r:
    Staleness)
    ensures
        r == row_staleness(*row, signature, sidecars_changed),
{
    let stored = signature_of(row.content_mtime, row.content_size);
    let changed = match stored {
        Some(s) => s.0 != signature.0 || s.1 != signature.1,
        None => false,
    };
    let unknown = stored.is_none();
    Staleness {
        file_changed: row.deleted || changed || sidecars_changed,
        metadata_stale: row.scan_version != MEDIA_SCAN_VERSION,
        needs_essential: row.deleted || changed || unknown || row.subtitles_version
            < SUBTITLES_VERSION || row.markers_version < MARKERS_VERSION,
        needs_thumbnails: row.deleted || changed || row.thumbnails_version < THUMBNAILS_VERSION,
        needs_trickplay: row.deleted || changed || row.trickplay_version < TRICKPLAY_VERSION,
    }
}

/// What has to be done again for a file: `signature` is what it is like now,
/// `sidecar_mtimes` says when what stands beside it changed.
pub fn staleness(
    existing: &Option<MediaRow>,
    signature: (i64, i64),
    sidecar_mtimes: &Vec<i64>,
) -> (r: Staleness)
    ensures
        r == file_staleness(*existing, signature, sidecar_mtimes@),
{
    match existing {
        Some(row) => {
            let changed = clock::any_newer_than(sidecar_mtimes, row.scanned_at.as_str());
            staleness_of_row(row, signature, changed)
        },
        None => Staleness {
            file_changed: true,
            metadata_stale: true,
            needs_essential: true,
            needs_thumbnails: true,
            needs_trickplay: true,
        },
    }
}

impl Staleness {
    /// Nothing has to be done again.
    pub fn is_current(&self) -> (r: bool)
        ensures
            r == (*self == none_stale()),
    {
        !self.file_changed && !self.metadata_stale && !self.needs_essential
            && !self.needs_thumbnails && !self.needs_trickplay
    }

    /// Some asset has to be made again.
    pub fn needs_assets(&self) -> (r: bool)
        ensures
            r == (self.needs_essential || self.needs_thumbnails || self.needs_trickplay),
    {
        self.needs_essential || self.needs_thumbnails || self.needs_trickplay
    }
}

/// A row that was stored for the file as it is, with the current versions, is current
/// until something beside the file changes.
pub proof fn stored_row_is_current(row: MediaRow, signature: (i64, i64))
    requires
        !row.deleted,
        stored_signature(row.content_mtime, row.content_size) == Some(signature),
        row.scan_version == MEDIA_SCAN_VERSION,
        row.subtitles_version >= SUBTITLES_VERSION,
        row.markers_version >= MARKERS_VERSION,
        row.thumbnails_version >= THUMBNAILS_VERSION,
        row.trickplay_version >= TRICKPLAY_VERSION,
    ensures
        row_staleness(row, signature, false) == none_stale(),
        row_staleness(row, signature, true) == (Staleness { file_changed: true, ..none_stale() }),
{
}

/// A file whose signature was never stored has its essentials made again, but no images.
pub proof fn unknown_signature_spares_images(
    row: MediaRow,
    signature: (i64, i64),
    sidecars_changed: bool,
)
    requires
        !row.deleted,
        stored_signature(row.content_mtime, row.content_size) is None,
        row.thumbnails_version >= THUMBNAILS_VERSION,
        row.trickplay_version >= TRICKPLAY_VERSION,
    ensures
        row_staleness(row, signature, sidecars_changed).needs_essential,
        !row_staleness(row, signature, sidecars_changed).needs_thumbnails,
        !row_staleness(row, signature, sidecars_changed).needs_trickplay,
{
}

/// A file that was replaced, even by an older one, and one that was gone, has all assets
/// made again.
pub proof fn replaced_file_is_stale(row: MediaRow, signature: (i64, i64), sidecars_changed: bool)
    requires
        row.deleted || content_changed(row, signature),
    ensures
        ({
            let s = row_staleness(row, signature, sidecars_changed);
            s.file_changed && s.needs_essential && s.needs_thumbnails && s.needs_trickplay
        }),
{
}

/// Of a file that is current but for the version of one asset, only that asset is made
/// again; subtitles and chapters come with the essentials.
pub proof fn asset_versions_are_independent(
    row: MediaRow,
    signature: (i64, i64),
    older: i64,
)
    requires
        row_staleness(row, signature, false) == none_stale(),
        older < TRICKPLAY_VERSION,
        older < THUMBNAILS_VERSION,
        older < SUBTITLES_VERSION,
        older < MARKERS_VERSION,
    ensures
        row_staleness(MediaRow { trickplay_version: older, ..row }, signature, false) == (
        Staleness { needs_trickplay: true, ..none_stale() }),
        row_staleness(MediaRow { thumbnails_version: older, ..row }, signature, false) == (
        Staleness { needs_thumbnails: true, ..none_stale() }),
        row_staleness(MediaRow { subtitles_version: older, ..row }, signature, false) == (
        Staleness { needs_essential: true, ..none_stale() }),
        row_staleness(MediaRow { markers_version: older, ..row }, signature, false) == (
        Staleness { needs_essential: true, ..none_stale() }),
{
}

// ---- shows ----

/// What the database holds of a show.
#[derive(Debug)]
pub struct ShowStamp {
    pub id: String,
    pub scanned_at: String,
    pub scan_version: i64,
    pub deleted: bool,
}

/// What is stored of a show is current: the show is there, what is stored is of the
/// current kind, and neither its metadata nor its directory changed since.
pub open spec fn show_is_current(s: ShowStamp, mtimes: Seq<i64>) -> bool {
    &&& !s.deleted
    &&& s.scan_version == SHOW_SCAN_VERSION
    &&& !clock::some_newer(
        mtimes,
        clock::parsed_time(s.scanned_at@, clock::sqlite_format()),
    )
}

/// The id under which a show is stored, where what is stored is current. `mtimes` says
/// when its metadata and its directory changed.
pub fn current_show(existing: &Option<ShowStamp>, mtimes: &Vec<i64>) -> (r: Option<String>)
    ensures
        match existing {
            Some(s) => if show_is_current(*s, mtimes@) {
                r is Some && (r->0)@ == s.id@
            } else {
                r is None
            },
            None => r is None,
        },
{
    match existing {
        Some(s) => {
            if !s.deleted && s.scan_version == SHOW_SCAN_VERSION && !clock::any_newer_than(
                mtimes,
                s.scanned_at.as_str(),
            ) {
                Some(text::own(s.id.as_str()))
            } else {
                None
            }
        },
        None => None,
    }
}

// ---- seasons ----

/// What is stored of an episode that its season is compared with.
#[derive(Debug)]
pub struct SeasonRow {
    pub id: String,
    pub content_mtime: Option<i64>,
    pub content_size: Option<i64>,
    pub audio_markers_version: i64,
    pub fp_mtime: Option<i64>,
    pub fp_size: Option<i64>,
    pub fp_version: Option<i64>,
}

/// The fingerprint of an episode is that of the file as it is stored.
pub open spec fn fingerprint_is_current(r: SeasonRow) -> bool {
    &&& r.content_mtime is Some
    &&& r.content_mtime == r.fp_mtime
    &&& r.content_size == r.fp_size
    &&& r.fp_version == Some(crate::markers::FP_ALGO_VERSION)
}

/// An episode for whose sake a season is compared again.
pub open spec fn wants_analysis(r: SeasonRow) -> bool {
    !fingerprint_is_current(r) || r.audio_markers_version < AUDIO_MARKERS_VERSION
}

/// A season is compared: it has two episodes or more, but not too many, and one of them
/// asks for it.
pub open spec fn season_is_due(rows: Seq<SeasonRow>) -> bool {
    &&& 2 <= rows.len() <= crate::markers::MAX_SEASON_EPISODES
    &&& exists|i: int| 0 <= i < rows.len() && wants_analysis(#[trigger] rows[i])
}

fn same_opt(a: Option<i64>, b: Option<i64>) -> (r: bool)
    ensures
        r == (a == b),
{
    match (a, b) {
        (Some(x), Some(y)) => x == y,
        (None, None) => true,
        _ => false,
    }
}

/// Whether a season is to be compared again.
pub fn needs_analysis(rows: &Vec<SeasonRow>) -> (r: bool)
    ensures
        r == season_is_due(rows@),
{
    if rows.len() < 2 || rows.len() > crate::markers::MAX_SEASON_EPISODES {
        return false;
    }
    let mut i: usize = 0;
    while i < rows.len()
        invariant
            i <= rows@.len(),
            2 <= rows@.len() <= crate::markers::MAX_SEASON_EPISODES,
            forall|j: int| 0 <= j < i ==> !wants_analysis(#[trigger] rows@[j]),
        decreases rows@.len() - i,
    {
        let row = &rows[i];
        let fresh = row.content_mtime.is_some() && same_opt(row.content_mtime, row.fp_mtime)
            && same_opt(row.content_size, row.fp_size) && same_opt(
            row.fp_version,
            Some(crate::markers::FP_ALGO_VERSION),
        );
        if !fresh || row.audio_markers_version < AUDIO_MARKERS_VERSION {
            assert(wants_analysis(rows@[i as int]));
            return true;
        }
        i += 1;
    }
    false
}

/// A season whose episodes have current fingerprints and were compared is not compared
/// again.
pub proof fn analysed_season_rests(rows: Seq<SeasonRow>)
    requires
        forall|i: int|
            0 <= i < rows.len() ==> fingerprint_is_current(#[trigger] rows[i])
                && rows[i].audio_markers_version >= AUDIO_MARKERS_VERSION,
    ensures
        !season_is_due(rows),
{
}

// ---- further laws ----

/// A file with any other time of change or any other size than those that are stored is
/// another file: everything is made anew.
pub proof fn any_other_file_is_made_anew(
    row: MediaRow,
    mtime: i64,
    size: i64,
    signature: (i64, i64),
    sidecars_changed: bool,
)
    requires
        row.content_mtime == Some(mtime),
        row.content_size == Some(size),
        mtime != signature.0 || size != signature.1,
    ensures
        ({
            let s = row_staleness(row, signature, sidecars_changed);
            s.file_changed && s.needs_essential && s.needs_thumbnails && s.needs_trickplay
        }),
{
}

/// What is stored in another way than now is read anew, whether it is older or newer, and
/// whatever the file is like.
pub proof fn other_versions_are_read_anew(
    row: MediaRow,
    signature: (i64, i64),
    sidecars_changed: bool,
)
    ensures
        row_staleness(row, signature, sidecars_changed).metadata_stale <==> row.scan_version != 3,
{
}

/// A show whose metadata or directory changed after it was scanned is scanned again, and so
/// is one whose scan has no time; one of which nothing changed later is not.
pub proof fn changed_shows_are_scanned(s: ShowStamp, mtimes: Seq<i64>, at: i64)
    requires
        clock::parsed_time(s.scanned_at@, clock::sqlite_format()) == Some(at),
        !s.deleted,
        s.scan_version == 3,
    ensures
        (exists|i: int| 0 <= i < mtimes.len() && #[trigger] mtimes[i] > at) ==> !show_is_current(
            s,
            mtimes,
        ),
        (forall|i: int| 0 <= i < mtimes.len() ==> #[trigger] mtimes[i] <= at) ==> show_is_current(
            s,
            mtimes,
        ),
{
}

/// One episode whose fingerprint is not that of its file, or that was not compared yet, has
/// its season compared, unless the season is too small or too large for it.
pub proof fn one_episode_wakes_its_season(rows: Seq<SeasonRow>, i: int)
    requires
        2 <= rows.len() <= 60,
        0 <= i < rows.len(),
        ({
            let r = rows[i];
            ||| r.content_mtime is None
            ||| r.fp_mtime != r.content_mtime
            ||| r.fp_size != r.content_size
            ||| r.fp_version != Some(1i64)
            ||| r.audio_markers_version < 1
        }),
    ensures
        season_is_due(rows),
{
    assert(wants_analysis(rows[i]));
}

/// A season with a single episode has nothing to compare, and one with more than sixty has
/// too much.
pub proof fn seasons_out_of_size_rest(rows: Seq<SeasonRow>)
    requires
        rows.len() < 2 || rows.len() > 60,
    ensures
        !season_is_due(rows),
{
}

/// A file that is not known yet is made anew in every part. One that is known and unchanged,
/// with no file beside it that is newer than its scan, has not changed.
pub proof fn unknown_files_are_made_anew(row: MediaRow, signature: (i64, i64), sidecars: Seq<i64>)
    ensures
        ({
            let s = file_staleness(None, signature, sidecars);
            s.file_changed && s.metadata_stale && s.needs_essential && s.needs_thumbnails
                && s.needs_trickplay
        }),
        ({
            let s = file_staleness(Some(row), signature, sidecars);
            let scanned = clock::parsed_time(row.scanned_at@, clock::sqlite_format());
            &&& row.deleted ==> s.file_changed && s.needs_essential && s.needs_thumbnails
                && s.needs_trickplay
            &&& clock::some_newer(sidecars, scanned) ==> s.file_changed
            &&& !row.deleted && !content_changed(row, signature) && !clock::some_newer(
                sidecars,
                scanned,
            ) ==> !s.file_changed
        }),
{
}

} // verus!
