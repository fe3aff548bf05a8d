//! What is stored of a show, an episode or a movie.

use crate::clock;
use crate::filename;
use crate::ids;
use crate::nfo::{EpisodeNfo, MovieNfo, TvShowNfo};
use crate::nfo;
use crate::paths;
use crate::scanner::files;
use crate::scanner::stale::{MediaRow, ShowStamp, MEDIA_SCAN_VERSION, SHOW_SCAN_VERSION};
use crate::scanner::stale;
use crate::text;
use crate::types;
use vstd::prelude::*;

verus! {

/// What comes of a file.
#[derive(Debug)]
pub struct UpsertOutcome {
    pub id: String,
    /// Whether an image stands beside the file.
    pub has_sidecar_image: bool,
    /// Whether what is stored was written anew.
    pub re_indexed: bool,
    pub needs_essential: bool,
    pub needs_thumbnails: bool,
    pub needs_trickplay: bool,
}

/// When a file was added, as it is stored.
pub open spec fn added_text(mtime: Option<i64>, now: i64) -> Seq<char> {
    match clock::written_time(
        match mtime {
            Some(t) => t,
            None => now,
        },
        clock::sqlite_format(),
    ) {
        Some(t) => t,
        None => ""@,
    }
}

/// The id of something that is stored, or a new one.
fn id_or_new(existing: Option<&str>) -> (r: String)
    ensures
        match types::opt_str(existing) {
            Some(id) => r@ == id,
            None => ids::is_uuid(r@),
        },
{
    match existing {
        Some(id) => text::own(id),
        None => ids::fresh_uuid(),
    }
}

// ---- season and episode ----

/// How many characters `s` has before its first digit.
pub open spec fn digits_start(s: Seq<char>) -> int
    decreases s.len(),
{
    if s.len() == 0 || text::is_digit(s[0]) {
        0
    } else {
        1 + digits_start(s.skip(1))
    }
}

/// How many digits `s` starts with.
pub open spec fn digits_len(s: Seq<char>) -> int
    decreases s.len(),
{
    if s.len() == 0 || !text::is_digit(s[0]) {
        0
    } else {
        1 + digits_len(s.skip(1))
    }
}

/// The number that the first digits of a text spell. None where there are no digits, or
/// too many.
pub open spec fn first_number(s: Seq<char>) -> Option<int> {
    let t = s.skip(digits_start(s));
    if digits_len(t) == 0 {
        None
    } else {
        text::digits_upto(t.take(digits_len(t)), i64::MAX as int)
    }
}

proof fn digits_bounds(s: Seq<char>)
    ensures
        0 <= digits_start(s) <= s.len(),
        0 <= digits_len(s) <= s.len(),
    decreases s.len(),
{
    if s.len() > 0 {
        digits_bounds(s.skip(1));
    }
}

/// The first run of digits, as a number.
pub fn first_int(s: &str) -> (r: Option<i64>)
    ensures
        match r {
            Some(n) => first_number(s@) == Some(n as int),
            None => first_number(s@) is None,
        },
{
    let v = text::chars_of(s);
    let total: usize = v.len();
    let mut start: usize = 0;
    assert(v@.skip(0) =~= v@);
    while start < total && !text::digit(v[start])
        invariant
            start <= total,
            total == v@.len(),
            digits_start(v@) == start + digits_start(v@.skip(start as int)),
        decreases total - start,
    {
        assert(v@.skip(start as int).skip(1) =~= v@.skip(start + 1));
        start += 1;
    }
    let ghost t = v@.skip(start as int);
    let mut end: usize = start;
    while end < total && text::digit(v[end])
        invariant
            start <= end <= total,
            total == v@.len(),
            digits_len(t) == (end - start) + digits_len(v@.skip(end as int)),
        decreases total - end,
    {
        assert(v@.skip(end as int).skip(1) =~= v@.skip(end + 1));
        end += 1;
    }
    if start == end {
        return None;
    }
    assert(v@.subrange(start as int, end as int) =~= t.take(digits_len(t)));
    match text::parse_digits(&v, start, end, i64::MAX as u64) {
        Some(n) => Some(n as i64),
        None => None,
    }
}

/// A number that depends on every byte of a name, and on nothing else.
pub open spec fn name_hash(bytes: Seq<u8>) -> u64
    decreases bytes.len(),
{
    if bytes.len() == 0 {
        1469598103934665603
    } else {
        (name_hash(bytes.drop_last()) ^ (bytes.last() as u64)).wrapping_mul(1099511628211u64)
    }
}

fn hash_name(s: &str) -> (r: u64)
    ensures
        r == name_hash(vstd::utf8::encode_utf8(s@)),
{
    let bytes = s.as_bytes();
    let ghost all = bytes@;
    let mut h: u64 = 1469598103934665603;
    let mut i: usize = 0;
    assert(all.take(0) =~= Seq::<u8>::empty());
    while i < bytes.len()
        invariant
            i <= bytes@.len(),
            all == bytes@,
            h == name_hash(all.take(i as int)),
        decreases bytes@.len() - i,
    {
        assert(all.take(i + 1).drop_last() =~= all.take(i as int));
        h = (h ^ (bytes[i] as u64)).wrapping_mul(1099511628211u64);
        i += 1;
    }
    assert(all.take(i as int) =~= all);
    h
}

/// The season and the episode of a file whose name has no tag: the first numbers in the
/// names of its directory and of the file. A file in the show's own directory is of the
/// first season; one without a number gets one from its name.
pub open spec fn inferred_numbers(video: Seq<char>, show_dir: Seq<char>) -> (int, int) {
    let dir = match paths::parent_of(video) {
        Some(d) => d,
        None => show_dir,
    };
    let season = if paths::same_path(dir, show_dir) {
        1
    } else {
        match paths::file_name_of(dir) {
            Some(n) => match first_number(n) {
                Some(k) => k,
                None => 1,
            },
            None => 1,
        }
    };
    let stem = match paths::stem_of(video) {
        Some(s) => s,
        None => Seq::empty(),
    };
    let episode = match first_number(stem) {
        Some(k) => k,
        None => 1000 + name_hash(vstd::utf8::encode_utf8(stem)) % 9000,
    };
    (season, episode)
}

/// The season and the number of an episode, by where its file is and how it is called.
pub fn infer_season_episode(video: &str, show_dir: &str) -> (r: (i64, i64))
    ensures
        (r.0 as int, r.1 as int) == inferred_numbers(video@, show_dir@),
{
    let dir = match paths::parent(video) {
        Some(d) => d,
        None => text::own(show_dir),
    };
    let season: i64 = if paths::is_same(dir.as_str(), show_dir) {
        1
    } else {
        match paths::file_name(dir.as_str()) {
            Some(n) => match first_int(n.as_str()) {
                Some(k) => k,
                None => 1,
            },
            None => 1,
        }
    };
    let stem = match paths::file_stem(video) {
        Some(s) => s,
        None => String::new(),
    };
    proof {
        if paths::stem_of(video@) is None {
            assert(stem@ =~= Seq::<char>::empty());
        }
    }
    let episode: i64 = match first_int(stem.as_str()) {
        Some(k) => k,
        None => {
            let h: u64 = hash_name(stem.as_str());
            1000 + (h % 9000) as i64
        },
    };
    (season, episode)
}

/// The season and the episode of a file: from its metadata where that has both, else from
/// the tag in its name, else inferred.
pub open spec fn episode_numbers(
    season: Option<i64>,
    episode: Option<i64>,
    base: Seq<char>,
    video: Seq<char>,
    show_dir: Seq<char>,
) -> (int, int) {
    match (season, episode) {
        (Some(s), Some(e)) => (s as int, e as int),
        _ => match filename::tag_numbers(base) {
            Some(n) => (n.0 as int, n.1 as int),
            None => inferred_numbers(video, show_dir),
        },
    }
}

fn number_episode(
    season: Option<i64>,
    episode: Option<i64>,
    base: &str,
    video: &str,
    show_dir: &str,
) -> (r: (i64, i64))
    ensures
        (r.0 as int, r.1 as int) == episode_numbers(season, episode, base@, video@, show_dir@),
{
    match (season, episode) {
        (Some(s), Some(e)) => (s, e),
        _ => match filename::parse_episode(base) {
            Some(n) => n,
            None => infer_season_episode(video, show_dir),
        },
    }
}

/// The stem of a path, or a name that stands for it.
pub open spec fn stem_or(path: Seq<char>, name: Seq<char>) -> Seq<char> {
    match paths::stem_of(path) {
        Some(s) => s,
        None => name,
    }
}

fn stem_or_name(path: &str, name: &str) -> (r: String)
    ensures
        r@ == stem_or(path@, name@),
{
    match paths::file_stem(path) {
        Some(s) => s,
        None => text::own(name),
    }
}

// ---- episodes ----

/// What is stored of an episode.
#[derive(Debug)]
pub struct EpisodeRow {
    pub id: String,
    pub path: String,
    pub file_size: i64,
    pub title: String,
    pub sort_title: String,
    pub plot: Option<String>,
    pub runtime_minutes: Option<i64>,
    pub image_path: Option<String>,
    pub show_id: String,
    pub season_number: i64,
    pub episode_number: i64,
    pub added_at: String,
    pub scan_version: i64,
    pub release_date: Option<String>,
}

/// The title of an episode: that of its metadata, else the one in its name.
pub open spec fn episode_row_title(
    title: Option<Seq<char>>,
    base: Seq<char>,
    episode: int,
) -> Seq<char> {
    match title {
        Some(t) => t,
        None => filename::title_behind_tag(base, episode),
    }
}

/// `row` is what is stored of an episode.
pub open spec fn is_episode_row(
    row: EpisodeRow,
    video: Seq<char>,
    show_id: Seq<char>,
    show_dir: Seq<char>,
    file_size: i64,
    nfo: EpisodeNfo,
    files: Seq<Seq<char>>,
    added: Seq<char>,
) -> bool {
    let base = stem_or(video, "episode"@);
    let numbers = episode_numbers(nfo.season, nfo.episode, base, video, show_dir);
    &&& row.path@ == video
    &&& row.file_size == file_size
    &&& row.title@ == episode_row_title(types::opt_text(nfo.title), base, numbers.1)
    &&& row.sort_title@ == filename::sort_key(row.title@)
    &&& types::opt_text(row.plot) == types::opt_text(nfo.plot)
    &&& row.runtime_minutes == nfo.runtime
    &&& types::opt_text(row.image_path) == files::image_beside(
        video,
        |b: Seq<char>| files::episode_thumb_stems(b),
        files,
    )
    &&& row.show_id@ == show_id
    &&& (row.season_number as int, row.episode_number as int) == numbers
    &&& row.added_at@ == added
    &&& row.scan_version == MEDIA_SCAN_VERSION
    &&& types::opt_text(row.release_date) == types::opt_text(nfo.aired)
}

/// Makes what is stored of an episode.
pub fn episode_row(
    id: String,
    video: &str,
    show_id: &str,
    show_dir: &str,
    file_size: i64,
    nfo: &EpisodeNfo,
    files: &Vec<String>,
    added_at: String,
) -> (r: EpisodeRow)
    ensures
        r.id@ == id@,
        is_episode_row(
            r,
            video@,
            show_id@,
            show_dir@,
            file_size,
            *nfo,
            types::texts(files@),
            added_at@,
        ),
{
    let base = stem_or_name(video, "episode");
    let (season, episode) = number_episode(
        nfo.season,
        nfo.episode,
        base.as_str(),
        video,
        show_dir,
    );
    let title = match &nfo.title {
        Some(t) => text::own(t.as_str()),
        None => filename::clean_episode_title(base.as_str(), episode),
    };
    let sort_title = filename::sort_title(title.as_str());
    EpisodeRow {
        id,
        path: text::own(video),
        file_size,
        title,
        sort_title,
        plot: types::copy_opt(&nfo.plot),
        runtime_minutes: nfo.runtime,
        image_path: files::find_episode_thumb(video, files),
        show_id: text::own(show_id),
        season_number: season,
        episode_number: episode,
        added_at,
        scan_version: MEDIA_SCAN_VERSION,
        release_date: types::copy_opt(&nfo.aired),
    }
}

fn row_id(existing: &Option<MediaRow>) -> (r: Option<&str>)
    ensures
        types::opt_str(r) == stored_id(*existing),
{
    match existing {
        Some(row) => Some(row.id.as_str()),
        None => None,
    }
}

/// The id under which a file is stored.
pub open spec fn stored_id(existing: Option<MediaRow>) -> Option<Seq<char>> {
    match existing {
        Some(row) => Some(row.id@),
        None => None,
    }
}

/// `id` is the one that is stored, or a new one.
pub open spec fn is_id_for(id: Seq<char>, stored: Option<Seq<char>>) -> bool {
    match stored {
        Some(s) => id == s,
        None => ids::is_uuid(id),
    }
}

/// `o` is what comes of a file with the given id and staleness.
pub open spec fn is_outcome(o: UpsertOutcome, s: stale::Staleness, image: bool) -> bool {
    &&& o.has_sidecar_image == image
    &&& o.re_indexed == (s != stale::none_stale())
    &&& o.needs_essential == s.needs_essential
    &&& o.needs_thumbnails == s.needs_thumbnails
    &&& o.needs_trickplay == s.needs_trickplay
}

/// What the scan finds of a file on the disk.
#[derive(Debug)]
pub struct FileFacts {
    pub path: String,
    pub size: i64,
    /// When it changed; zero where that is unknown.
    pub mtime: i64,
    /// When it changed, where that is known.
    pub known_mtime: Option<i64>,
    /// When what stands beside it changed: its metadata and its directory.
    pub sidecar_mtimes: Vec<i64>,
}

/// Decides what is stored of an episode, if anything is to be written, and what has to be
/// done for it.
pub fn upsert_episode(
    existing: &Option<MediaRow>,
    show_id: &str,
    show_dir: &str,
    file: &FileFacts,
    nfo: &EpisodeNfo,
    files: &Vec<String>,
    now: i64,
) -> (r: (UpsertOutcome, Option<EpisodeRow>))
    ensures
        ({
            let s = stale::file_staleness(
                *existing,
                (file.mtime, file.size),
                file.sidecar_mtimes@,
            );
            let image = files::image_beside(
                file.path@,
                |b: Seq<char>| files::episode_thumb_stems(b),
                types::texts(files@),
            );
            &&& is_id_for(r.0.id@, stored_id(*existing))
            &&& is_outcome(r.0, s, image is Some)
            &&& match r.1 {
                None => s == stale::none_stale(),
                Some(row) => {
                    &&& s != stale::none_stale()
                    &&& row.id@ == r.0.id@
                    &&& is_episode_row(
                        row,
                        file.path@,
                        show_id@,
                        show_dir@,
                        file.size,
                        *nfo,
                        types::texts(files@),
                        added_text(file.known_mtime, now),
                    )
                },
            }
        }),
{
    let s = stale::staleness(existing, (file.mtime, file.size), &file.sidecar_mtimes);
    let path = file.path.as_str();
    let id = id_or_new(row_id(existing));
    if s.is_current() {
        let image = files::find_episode_thumb(path, files);
        return (
            UpsertOutcome {
                id,
                has_sidecar_image: image.is_some(),
                re_indexed: false,
                needs_essential: false,
                needs_thumbnails: false,
                needs_trickplay: false,
            },
            None,
        );
    }
    let added_at = clock::file_added_at(file.known_mtime, now);
    let row = episode_row(
        text::own(id.as_str()),
        path,
        show_id,
        show_dir,
        file.size,
        nfo,
        files,
        added_at,
    );
    (
        UpsertOutcome {
            id,
            has_sidecar_image: row.image_path.is_some(),
            re_indexed: true,
            needs_essential: s.needs_essential,
            needs_thumbnails: s.needs_thumbnails,
            needs_trickplay: s.needs_trickplay,
        },
        Some(row),
    )
}

// ---- movies ----

/// What is stored of a movie.
#[derive(Debug)]
pub struct MovieRow {
    pub id: String,
    pub path: String,
    pub file_size: i64,
    pub title: String,
    pub sort_title: String,
    pub original_title: Option<String>,
    pub year: Option<i64>,
    pub plot: Option<String>,
    pub runtime_minutes: Option<i64>,
    pub imdb_id: Option<String>,
    pub tmdb_id: Option<String>,
    pub image_path: Option<String>,
    pub fanart_path: Option<String>,
    pub added_at: String,
    pub scan_version: i64,
    /// In millionths.
    pub rating: Option<i64>,
    pub rating_votes: Option<i64>,
    pub rating_source: Option<String>,
    pub mpaa: Option<String>,
    pub studio: Option<String>,
    pub tagline: Option<String>,
    pub release_date: Option<String>,
    pub director: Option<String>,
    pub writers: Option<String>,
    pub genres: Vec<String>,
}

/// A list of names in one text, or none where there are no names.
pub open spec fn listed(v: Seq<Seq<char>>) -> Option<Seq<char>> {
    if v.len() == 0 {
        None
    } else {
        Some(types::join_texts(v, ", "@))
    }
}

fn list_names(v: &Vec<String>) -> (r: Option<String>)
    ensures
        types::opt_text(r) == listed(types::texts(v@)),
{
    if v.len() == 0 {
        None
    } else {
        Some(types::join(v, ", "))
    }
}

/// The title in a movie's name.
pub open spec fn movie_name_title(base: Seq<char>) -> Seq<char> {
    let n = filename::normalized(base);
    filename::polished(n.take(filename::movie_title_end(n)))
}

/// The title of a movie: that of its metadata, else the one in its name, else its name.
pub open spec fn movie_row_title(title: Option<Seq<char>>, base: Seq<char>) -> Seq<char> {
    match title {
        Some(t) => t,
        None => if movie_name_title(base).len() == 0 {
            base
        } else {
            movie_name_title(base)
        },
    }
}

/// The year of a movie: that of its metadata, else the one in its name.
pub open spec fn movie_row_year(year: Option<i64>, base: Seq<char>) -> Option<int> {
    match year {
        Some(y) => Some(y as int),
        None => match filename::title_year(filename::normalized(base)) {
            Some(p) => Some(p.0),
            None => None,
        },
    }
}

/// The value, the votes and the source that are stored of a rating.
pub open spec fn rating_fields(r: Option<(i64, Option<i64>, Seq<char>)>) -> (
    Option<i64>,
    Option<i64>,
    Option<Seq<char>>,
) {
    match r {
        Some(x) => (Some(x.0), x.1, Some(x.2)),
        None => (None, None, None),
    }
}

/// `row` is what is stored of a movie.
pub open spec fn is_movie_row(
    row: MovieRow,
    video: Seq<char>,
    file_size: i64,
    nfo: MovieNfo,
    files: Seq<Seq<char>>,
    added: Seq<char>,
) -> bool {
    let base = stem_or(video, "Untitled"@);
    let rating = rating_fields(nfo::rating_of(nfo.ratings, nfo.rating));
    &&& row.path@ == video
    &&& row.file_size == file_size
    &&& row.title@ == movie_row_title(types::opt_text(nfo.title), base)
    &&& row.sort_title@ == filename::sort_key(row.title@)
    &&& types::opt_text(row.original_title) == types::opt_text(nfo.original_title)
    &&& match row.year {
        Some(y) => movie_row_year(nfo.year, base) == Some(y as int),
        None => movie_row_year(nfo.year, base) is None,
    }
    &&& types::opt_text(row.plot) == types::opt_text(nfo.plot)
    &&& row.runtime_minutes == nfo.runtime
    &&& types::opt_text(row.imdb_id) == nfo::id_of(nfo.uniqueid@, "imdb"@)
    &&& types::opt_text(row.tmdb_id) == nfo::id_of(nfo.uniqueid@, "tmdb"@)
    &&& types::opt_text(row.image_path) == files::image_beside(
        video,
        |b: Seq<char>| files::movie_image_stems(b),
        files,
    )
    &&& types::opt_text(row.fanart_path) == files::image_beside(
        video,
        |b: Seq<char>| files::movie_fanart_stems(b),
        files,
    )
    &&& row.added_at@ == added
    &&& row.scan_version == MEDIA_SCAN_VERSION
    &&& row.rating == rating.0
    &&& row.rating_votes == rating.1
    &&& types::opt_text(row.rating_source) == rating.2
    &&& types::opt_text(row.mpaa) == types::opt_text(nfo.mpaa)
    &&& types::opt_text(row.studio) == listed(types::texts(nfo.studio@))
    &&& types::opt_text(row.tagline) == types::opt_text(nfo.tagline)
    &&& types::opt_text(row.release_date) == types::opt_text(nfo.premiered)
    &&& types::opt_text(row.director) == listed(types::texts(nfo.director@))
    &&& types::opt_text(row.writers) == listed(types::texts(nfo.credits@))
    &&& types::texts(row.genres@) == types::texts(nfo.genre@)
}

fn split_rating(r: Option<(i64, Option<i64>, String)>) -> (f: (
    Option<i64>,
    Option<i64>,
    Option<String>,
))
    ensures
        (f.0, f.1, types::opt_text(f.2)) == rating_fields(
            match r {
                Some(x) => Some((x.0, x.1, x.2@)),
                None => None,
            },
        ),
{
    match r {
        Some(x) => (Some(x.0), x.1, Some(x.2)),
        None => (None, None, None),
    }
}

/// Makes what is stored of a movie.
pub fn movie_row(
    id: String,
    video: &str,
    file_size: i64,
    nfo: &MovieNfo,
    files: &Vec<String>,
    added_at: String,
) -> (r: MovieRow)
    ensures
        r.id@ == id@,
        is_movie_row(r, video@, file_size, *nfo, types::texts(files@), added_at@),
{
    let base = stem_or_name(video, "Untitled");
    let parsed = filename::parse_movie(base.as_str());
    let plain = text::chars_of(parsed.title.as_str());
    let title = match &nfo.title {
        Some(t) => text::own(t.as_str()),
        None => if plain.len() == 0 {
            text::own(base.as_str())
        } else {
            text::own(parsed.title.as_str())
        },
    };
    let year: Option<i64> = match nfo.year {
        Some(y) => Some(y),
        None => parsed.year,
    };
    let sort_title = filename::sort_title(title.as_str());
    let (rating, rating_votes, rating_source) = split_rating(nfo.primary_rating());
    MovieRow {
        id,
        path: text::own(video),
        file_size,
        title,
        sort_title,
        original_title: types::copy_opt(&nfo.original_title),
        year,
        plot: types::copy_opt(&nfo.plot),
        runtime_minutes: nfo.runtime,
        imdb_id: types::own_opt(nfo.imdb_id()),
        tmdb_id: types::own_opt(nfo.tmdb_id()),
        image_path: files::find_movie_image(video, files),
        fanart_path: files::find_movie_fanart(video, files),
        added_at,
        scan_version: MEDIA_SCAN_VERSION,
        rating,
        rating_votes,
        rating_source,
        mpaa: types::copy_opt(&nfo.mpaa),
        studio: list_names(&nfo.studio),
        tagline: types::copy_opt(&nfo.tagline),
        release_date: types::copy_opt(&nfo.premiered),
        director: list_names(&nfo.director),
        writers: list_names(&nfo.credits),
        genres: types::copy_texts(&nfo.genre),
    }
}

/// Decides what is stored of a movie, if anything is to be written, and what has to be
/// done for it.
pub fn upsert_movie(
    existing: &Option<MediaRow>,
    file: &FileFacts,
    nfo: &MovieNfo,
    files: &Vec<String>,
    now: i64,
) -> (r: (UpsertOutcome, Option<MovieRow>))
    ensures
        ({
            let s = stale::file_staleness(
                *existing,
                (file.mtime, file.size),
                file.sidecar_mtimes@,
            );
            let image = files::image_beside(
                file.path@,
                |b: Seq<char>| files::movie_image_stems(b),
                types::texts(files@),
            );
            &&& is_id_for(r.0.id@, stored_id(*existing))
            &&& is_outcome(r.0, s, image is Some)
            &&& match r.1 {
                None => s == stale::none_stale(),
                Some(row) => {
                    &&& s != stale::none_stale()
                    &&& row.id@ == r.0.id@
                    &&& is_movie_row(
                        row,
                        file.path@,
                        file.size,
                        *nfo,
                        types::texts(files@),
                        added_text(file.known_mtime, now),
                    )
                },
            }
        }),
{
    let s = stale::staleness(existing, (file.mtime, file.size), &file.sidecar_mtimes);
    let path = file.path.as_str();
    let id = id_or_new(row_id(existing));
    if s.is_current() {
        let image = files::find_movie_image(path, files);
        return (
            UpsertOutcome {
                id,
                has_sidecar_image: image.is_some(),
                re_indexed: false,
                needs_essential: false,
                needs_thumbnails: false,
                needs_trickplay: false,
            },
            None,
        );
    }
    let added_at = clock::file_added_at(file.known_mtime, now);
    let row = movie_row(text::own(id.as_str()), path, file.size, nfo, files, added_at);
    (
        UpsertOutcome {
            id,
            has_sidecar_image: row.image_path.is_some(),
            re_indexed: true,
            needs_essential: s.needs_essential,
            needs_thumbnails: s.needs_thumbnails,
            needs_trickplay: s.needs_trickplay,
        },
        Some(row),
    )
}

// ---- shows ----

/// What is stored of a show.
#[derive(Debug)]
pub struct ShowRow {
    pub id: String,
    pub path: String,
    pub title: String,
    pub sort_title: String,
    pub original_title: Option<String>,
    pub year: Option<i64>,
    pub plot: Option<String>,
    pub imdb_id: Option<String>,
    pub tmdb_id: Option<String>,
    pub tvdb_id: Option<String>,
    pub poster_path: Option<String>,
    pub fanart_path: Option<String>,
    pub clearlogo_path: Option<String>,
    pub banner_path: Option<String>,
    pub added_at: String,
    pub scan_version: i64,
    /// In millionths.
    pub rating: Option<i64>,
    pub rating_votes: Option<i64>,
    pub rating_source: Option<String>,
    pub mpaa: Option<String>,
    pub studio: Option<String>,
    pub premiered_date: Option<String>,
    pub end_date: Option<String>,
    pub status: Option<String>,
    pub genres: Vec<String>,
}

/// The title of a show: that of its metadata, else its directory's name, cleaned where
/// that leaves something.
pub open spec fn show_row_title(title: Option<Seq<char>>, show_dir: Seq<char>) -> Seq<char> {
    match title {
        Some(t) => t,
        None => {
            let folder = match paths::file_name_of(show_dir) {
                Some(n) => n,
                None => "Untitled Show"@,
            };
            let cleaned = filename::title_of(folder);
            if cleaned.len() == 0 {
                folder
            } else {
                cleaned
            }
        },
    }
}

fn show_title(title: &Option<String>, show_dir: &str) -> (r: String)
    ensures
        r@ == show_row_title(types::opt_text(*title), show_dir@),
{
    match title {
        Some(t) => text::own(t.as_str()),
        None => {
            let folder = match paths::file_name(show_dir) {
                Some(n) => n,
                None => text::own("Untitled Show"),
            };
            let cleaned = filename::clean_title(folder.as_str());
            let v = text::chars_of(cleaned.as_str());
            if v.len() == 0 {
                folder
            } else {
                cleaned
            }
        },
    }
}

/// `row` is what is stored of a show.
pub open spec fn is_show_row(
    row: ShowRow,
    show_dir: Seq<char>,
    nfo: TvShowNfo,
    files: Seq<Seq<char>>,
    added: Seq<char>,
) -> bool {
    let rating = rating_fields(nfo::rating_of(nfo.ratings, nfo.rating));
    let year = nfo::show_year(nfo.year, types::opt_text(nfo.premiered));
    &&& row.path@ == show_dir
    &&& row.title@ == show_row_title(types::opt_text(nfo.title), show_dir)
    &&& row.sort_title@ == filename::sort_key(row.title@)
    &&& types::opt_text(row.original_title) == types::opt_text(nfo.original_title)
    &&& match row.year {
        Some(y) => year == Some(y as int),
        None => year is None,
    }
    &&& types::opt_text(row.plot) == types::opt_text(nfo.plot)
    &&& types::opt_text(row.imdb_id) == nfo::id_of(nfo.uniqueid@, "imdb"@)
    &&& types::opt_text(row.tmdb_id) == nfo::id_of(nfo.uniqueid@, "tmdb"@)
    &&& types::opt_text(row.tvdb_id) == nfo::id_of(nfo.uniqueid@, "tvdb"@)
    &&& types::opt_text(row.poster_path) == files::first_present(
        files::image_candidates(show_dir, seq!["poster"@, "folder"@, "cover"@]),
        files,
    )
    &&& types::opt_text(row.fanart_path) == files::first_present(
        files::image_candidates(show_dir, seq!["fanart"@, "backdrop"@]),
        files,
    )
    &&& types::opt_text(row.clearlogo_path) == files::first_present(
        files::image_candidates(show_dir, seq!["clearlogo"@, "logo"@]),
        files,
    )
    &&& types::opt_text(row.banner_path) == files::first_present(
        files::image_candidates(show_dir, seq!["banner"@]),
        files,
    )
    &&& row.added_at@ == added
    &&& row.scan_version == SHOW_SCAN_VERSION
    &&& row.rating == rating.0
    &&& row.rating_votes == rating.1
    &&& types::opt_text(row.rating_source) == rating.2
    &&& types::opt_text(row.mpaa) == types::opt_text(nfo.mpaa)
    &&& types::opt_text(row.studio) == listed(types::texts(nfo.studio@))
    &&& types::opt_text(row.premiered_date) == types::opt_text(nfo.premiered)
    &&& types::opt_text(row.end_date) == types::opt_text(nfo.enddate)
    &&& types::opt_text(row.status) == types::opt_text(nfo.status)
    &&& types::texts(row.genres@) == types::texts(nfo.genre@)
}

/// Makes what is stored of a show.
pub fn show_row(id: String, show_dir: &str, nfo: &TvShowNfo, files: &Vec<String>, added_at: String) -> (r:
    ShowRow)
    ensures
        r.id@ == id@,
        is_show_row(r, show_dir@, *nfo, types::texts(files@), added_at@),
{
    let title = show_title(&nfo.title, show_dir);
    let sort_title = filename::sort_title(title.as_str());
    let (rating, rating_votes, rating_source) = split_rating(nfo.primary_rating());
    ShowRow {
        id,
        path: text::own(show_dir),
        title,
        sort_title,
        original_title: types::copy_opt(&nfo.original_title),
        year: nfo.year_or_premiered(),
        plot: types::copy_opt(&nfo.plot),
        imdb_id: types::own_opt(nfo.imdb_id()),
        tmdb_id: types::own_opt(nfo.tmdb_id()),
        tvdb_id: types::own_opt(nfo::find_id(&nfo.uniqueid, "tvdb")),
        poster_path: files::find_show_poster(show_dir, files),
        fanart_path: files::find_show_fanart(show_dir, files),
        clearlogo_path: files::find_show_clearlogo(show_dir, files),
        banner_path: files::find_show_banner(show_dir, files),
        added_at,
        scan_version: SHOW_SCAN_VERSION,
        rating,
        rating_votes,
        rating_source,
        mpaa: types::copy_opt(&nfo.mpaa),
        studio: list_names(&nfo.studio),
        premiered_date: types::copy_opt(&nfo.premiered),
        end_date: types::copy_opt(&nfo.enddate),
        status: types::copy_opt(&nfo.status),
        genres: types::copy_texts(&nfo.genre),
    }
}

/// The id under which a show is stored.
pub open spec fn stored_show_id(existing: Option<ShowStamp>) -> Option<Seq<char>> {
    match existing {
        Some(s) => Some(s.id@),
        None => None,
    }
}

/// Decides what is stored of a show, if anything is to be written. `mtimes` says when its
/// metadata and its directory changed, `known_mtime` when the directory did, where that
/// is known.
pub fn upsert_show(
    existing: &Option<ShowStamp>,
    show_dir: &str,
    mtimes: &Vec<i64>,
    known_mtime: Option<i64>,
    nfo: &TvShowNfo,
    files: &Vec<String>,
    now: i64,
) -> (r: (String, Option<ShowRow>))
    ensures
        is_id_for(r.0@, stored_show_id(*existing)),
        match r.1 {
            None => existing matches Some(s) && stale::show_is_current(*s, mtimes@),
            Some(row) => {
                &&& !(existing matches Some(s) && stale::show_is_current(*s, mtimes@))
                &&& row.id@ == r.0@
                &&& is_show_row(
                    row,
                    show_dir@,
                    *nfo,
                    types::texts(files@),
                    added_text(known_mtime, now),
                )
            },
        },
{
    if let Some(id) = stale::current_show(existing, mtimes) {
        return (id, None);
    }
    let stored = match existing {
        Some(s) => Some(s.id.as_str()),
        None => None,
    };
    let id = id_or_new(stored);
    let added_at = clock::file_added_at(known_mtime, now);
    let row = show_row(text::own(id.as_str()), show_dir, nfo, files, added_at);
    (id, Some(row))
}

// ---- laws ----

proof fn digits_start_is(s: Seq<char>, k: int)
    requires
        0 <= k <= s.len(),
        forall|i: int| 0 <= i < k ==> !text::is_digit(#[trigger] s[i]),
        k == s.len() || text::is_digit(s[k]),
    ensures
        digits_start(s) == k,
    decreases k,
{
    if k > 0 {
        assert(!text::is_digit(s[0]));
        assert forall|i: int| 0 <= i < k - 1 implies !text::is_digit(#[trigger] s.skip(1)[i]) by {
            assert(s.skip(1)[i] == s[i + 1]);
        }
        digits_start_is(s.skip(1), k - 1);
    }
}

proof fn digits_len_is(s: Seq<char>, k: int)
    requires
        0 <= k <= s.len(),
        forall|i: int| 0 <= i < k ==> text::is_digit(#[trigger] s[i]),
        k == s.len() || !text::is_digit(s[k]),
    ensures
        digits_len(s) == k,
    decreases k,
{
    if k > 0 {
        assert(text::is_digit(s[0]));
        assert forall|i: int| 0 <= i < k - 1 implies text::is_digit(#[trigger] s.skip(1)[i]) by {
            assert(s.skip(1)[i] == s[i + 1]);
        }
        digits_len_is(s.skip(1), k - 1);
    }
}

/// The first number of a text is what its first digits say, and a text without digits has
/// none.
pub proof fn first_digits_make_the_number(a: Seq<char>, digits: Seq<char>, b: Seq<char>)
    requires
        forall|i: int| 0 <= i < a.len() ==> !text::is_digit(#[trigger] a[i]),
        digits.len() > 0 && text::all_digits(digits),
        text::digits_value(digits) <= i64::MAX,
        b.len() > 0 ==> !text::is_digit(b[0]),
    ensures
        first_number(a + digits + b) == Some(text::digits_value(digits) as int),
        first_number(a) is None,
{
    let s = a + digits + b;
    let t = digits + b;
    assert forall|i: int| 0 <= i < a.len() implies !text::is_digit(#[trigger] s[i]) by {
        assert(s[i] == a[i]);
    }
    assert(s[a.len() as int] == digits[0]);
    assert(text::is_digit(digits[0]));
    digits_start_is(s, a.len() as int);
    assert(s.skip(a.len() as int) =~= t);
    assert forall|i: int| 0 <= i < digits.len() implies text::is_digit(#[trigger] t[i]) by {
        assert(t[i] == digits[i]);
    }
    if b.len() > 0 {
        assert(t[digits.len() as int] == b[0]);
    }
    digits_len_is(t, digits.len() as int);
    assert(t.take(digits.len() as int) =~= digits);
    digits_start_is(a, a.len() as int);
    assert(a.skip(a.len() as int).len() == 0);
}

/// The numbers of an episode: those of its metadata where that has both, else those of the tag
/// in its name, season first; only a name without a tag is guessed from.
pub proof fn episodes_are_numbered_by_metadata_then_tag(
    season: i64,
    episode: i64,
    base: Seq<char>,
    video: Seq<char>,
    show_dir: Seq<char>,
)
    ensures
        episode_numbers(Some(season), Some(episode), base, video, show_dir) == (
            season as int,
            episode as int,
        ),
        filename::tag_numbers(base) == Some((season, episode)) ==> episode_numbers(
            None,
            None,
            base,
            video,
            show_dir,
        ) == (season as int, episode as int) && episode_numbers(
            Some(season),
            None,
            base,
            video,
            show_dir,
        ) == (season as int, episode as int) && episode_numbers(
            None,
            Some(episode),
            base,
            video,
            show_dir,
        ) == (season as int, episode as int),
{
}

/// A file without a tag is of the season that its directory names first, of the first one in
/// the show's own directory, and has the first number of its name; one without a number has
/// one from 1000 to 9999.
pub proof fn untagged_episodes_are_guessed(
    video: Seq<char>,
    dir: Seq<char>,
    show_dir: Seq<char>,
    stem: Seq<char>,
)
    requires
        paths::parent_of(video) == Some(dir),
        paths::stem_of(video) == Some(stem),
    ensures
        paths::same_path(dir, show_dir) ==> inferred_numbers(video, show_dir).0 == 1,
        !paths::same_path(dir, show_dir) && paths::file_name_of(dir) is Some && first_number(
            paths::file_name_of(dir)->0,
        ) is Some ==> Some(inferred_numbers(video, show_dir).0) == first_number(
            paths::file_name_of(dir)->0,
        ),
        first_number(stem) matches Some(n) ==> inferred_numbers(video, show_dir).1 == n,
        first_number(stem) is None ==> 1000 <= inferred_numbers(video, show_dir).1 <= 9999,
{
}

/// What is stored of an episode is what its metadata says, as far as it says it.
pub proof fn episode_rows_hold_the_metadata(
    row: EpisodeRow,
    video: Seq<char>,
    show_id: Seq<char>,
    show_dir: Seq<char>,
    file_size: i64,
    nfo: EpisodeNfo,
    files: Seq<Seq<char>>,
    added: Seq<char>,
)
    requires
        is_episode_row(row, video, show_id, show_dir, file_size, nfo, files, added),
    ensures
        row.path@ == video && row.show_id@ == show_id && row.file_size == file_size && row.added_at@
            == added,
        nfo.title matches Some(t) ==> row.title@ == t@,
        nfo.plot matches Some(t) ==> row.plot is Some && (row.plot->0)@ == t@,
        nfo.aired matches Some(t) ==> row.release_date is Some && (row.release_date->0)@ == t@,
        row.runtime_minutes == nfo.runtime,
        nfo.season is Some && nfo.episode is Some ==> Some(row.season_number) == nfo.season && Some(
            row.episode_number,
        ) == nfo.episode,
        row.scan_version == 3,
        row.sort_title@ == filename::sort_key(row.title@),
{
}

/// What is stored of a movie is what its metadata says, as far as it says it; its writers are
/// those of the credits.
pub proof fn movie_rows_hold_the_metadata(
    row: MovieRow,
    video: Seq<char>,
    file_size: i64,
    nfo: MovieNfo,
    files: Seq<Seq<char>>,
    added: Seq<char>,
)
    requires
        is_movie_row(row, video, file_size, nfo, files, added),
    ensures
        row.path@ == video && row.file_size == file_size && row.added_at@ == added,
        nfo.title matches Some(t) ==> row.title@ == t@,
        nfo.original_title matches Some(t) ==> row.original_title is Some && (
        row.original_title->0)@ == t@,
        nfo.year is Some ==> row.year == nfo.year,
        nfo.plot matches Some(t) ==> row.plot is Some && (row.plot->0)@ == t@,
        nfo.mpaa matches Some(t) ==> row.mpaa is Some && (row.mpaa->0)@ == t@,
        nfo.tagline matches Some(t) ==> row.tagline is Some && (row.tagline->0)@ == t@,
        nfo.premiered matches Some(t) ==> row.release_date is Some && (row.release_date->0)@ == t@,
        row.runtime_minutes == nfo.runtime,
        nfo.director@.len() == 1 ==> row.director is Some && (row.director->0)@
            == nfo.director@[0]@,
        nfo.credits@.len() == 1 ==> row.writers is Some && (row.writers->0)@ == nfo.credits@[0]@,
        nfo.studio@.len() == 1 ==> row.studio is Some && (row.studio->0)@ == nfo.studio@[0]@,
        nfo.director@.len() == 0 ==> row.director is None,
        nfo.credits@.len() == 0 ==> row.writers is None,
        types::texts(row.genres@) == types::texts(nfo.genre@),
        row.scan_version == 3,
        row.sort_title@ == filename::sort_key(row.title@),
{
}

/// What is stored of a show is what its metadata says, as far as it says it.
pub proof fn show_rows_hold_the_metadata(
    row: ShowRow,
    show_dir: Seq<char>,
    nfo: TvShowNfo,
    files: Seq<Seq<char>>,
    added: Seq<char>,
)
    requires
        is_show_row(row, show_dir, nfo, files, added),
    ensures
        row.path@ == show_dir && row.added_at@ == added,
        nfo.title matches Some(t) ==> row.title@ == t@,
        nfo.original_title matches Some(t) ==> row.original_title is Some && (
        row.original_title->0)@ == t@,
        nfo.year is Some ==> row.year == nfo.year,
        nfo.plot matches Some(t) ==> row.plot is Some && (row.plot->0)@ == t@,
        nfo.mpaa matches Some(t) ==> row.mpaa is Some && (row.mpaa->0)@ == t@,
        nfo.status matches Some(t) ==> row.status is Some && (row.status->0)@ == t@,
        nfo.premiered matches Some(t) ==> row.premiered_date is Some && (row.premiered_date->0)@
            == t@,
        nfo.enddate matches Some(t) ==> row.end_date is Some && (row.end_date->0)@ == t@,
        types::texts(row.genres@) == types::texts(nfo.genre@),
        row.scan_version == 3,
        row.sort_title@ == filename::sort_key(row.title@),
{
}

/// What has to be done for a file is handed on as it was found, and a row is written exactly
/// where anything was stale.
pub proof fn outcomes_hand_on_what_is_stale(o: UpsertOutcome, s: stale::Staleness, image: bool)
    requires
        is_outcome(o, s, image),
    ensures
        o.needs_essential == s.needs_essential,
        o.needs_thumbnails == s.needs_thumbnails,
        o.needs_trickplay == s.needs_trickplay,
        o.re_indexed <==> s.file_changed || s.metadata_stale || s.needs_essential
            || s.needs_thumbnails || s.needs_trickplay,
        o.has_sidecar_image == image,
{
}

/// A movie without metadata has the title and the year of its name; one whose name leaves no
/// title has the name itself.
pub proof fn untold_movies_go_by_their_name(base: Seq<char>)
    ensures
        movie_row_title(None, base).len() == 0 ==> base.len() == 0,
        movie_name_title(base).len() > 0 ==> movie_row_title(None, base) == movie_name_title(base),
        movie_row_year(None, base) is Some == filename::title_year(
            filename::normalized(base),
        ) is Some,
{
}

/// A film is stored with its own file and with what its description says: each of the numbers
/// under which it is known elsewhere, and each of the people, in its own place.
pub proof fn films_are_stored_as_described(
    row: MovieRow,
    video: Seq<char>,
    file_size: i64,
    nfo: MovieNfo,
    files: Seq<Seq<char>>,
    added: Seq<char>,
)
    requires
        is_movie_row(row, video, file_size, nfo, files, added),
    ensures
        row.path@ == video && row.file_size == file_size && row.added_at@ == added,
        types::opt_text(row.imdb_id) == nfo::id_of(nfo.uniqueid@, "imdb"@),
        types::opt_text(row.tmdb_id) == nfo::id_of(nfo.uniqueid@, "tmdb"@),
        types::opt_text(row.plot) == types::opt_text(nfo.plot),
        types::opt_text(row.tagline) == types::opt_text(nfo.tagline),
        types::opt_text(row.mpaa) == types::opt_text(nfo.mpaa),
        types::opt_text(row.release_date) == types::opt_text(nfo.premiered),
        types::opt_text(row.original_title) == types::opt_text(nfo.original_title),
        types::opt_text(row.director) == listed(types::texts(nfo.director@)),
        types::opt_text(row.writers) == listed(types::texts(nfo.credits@)),
        types::opt_text(row.studio) == listed(types::texts(nfo.studio@)),
        types::texts(row.genres@) == types::texts(nfo.genre@),
        row.runtime_minutes == nfo.runtime,
        row.sort_title@ == filename::sort_key(row.title@),
{
}

/// An episode is stored with its own file, with what its description says, and under the show
/// that it belongs to.
pub proof fn episodes_are_stored_as_described(
    row: EpisodeRow,
    video: Seq<char>,
    show_id: Seq<char>,
    show_dir: Seq<char>,
    file_size: i64,
    nfo: EpisodeNfo,
    files: Seq<Seq<char>>,
    added: Seq<char>,
)
    requires
        is_episode_row(row, video, show_id, show_dir, file_size, nfo, files, added),
    ensures
        row.path@ == video && row.file_size == file_size && row.added_at@ == added,
        row.show_id@ == show_id,
        types::opt_text(row.plot) == types::opt_text(nfo.plot),
        types::opt_text(row.release_date) == types::opt_text(nfo.aired),
        row.runtime_minutes == nfo.runtime,
        row.sort_title@ == filename::sort_key(row.title@),
        nfo.season matches Some(s) ==> (nfo.episode matches Some(e) ==> row.season_number == s
            && row.episode_number == e),
{
}

} // verus!
