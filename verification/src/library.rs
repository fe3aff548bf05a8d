//! What the library is made of, and how it is laid out for a viewer.

use crate::room_client::RoomListItem;
use crate::scanner::files;
use crate::syncplay::RoomState;
use crate::text;
use crate::types;
use vstd::prelude::*;

verus! {

/// A movie in a list.
#[derive(Debug)]
pub struct MovieSummary {
    pub id: String,
    pub title: String,
    pub year: Option<i64>,
}

/// A show in a list.
#[derive(Debug)]
pub struct ShowSummary {
    pub id: String,
    pub title: String,
    pub year: Option<i64>,
    pub episode_count: i64,
    pub has_banner: bool,
}

/// Something that was added a short while ago.
#[derive(Debug)]
pub struct RecentItem {
    pub media_id: String,
    pub kind: String,
    pub title: String,
    pub show_id: Option<String>,
    pub show_title: Option<String>,
    pub season_number: Option<i64>,
    pub episode_number: Option<i64>,
    pub year: Option<i64>,
}

/// Everything there is.
#[derive(Debug)]
pub struct LibraryResponse {
    pub movies: Vec<MovieSummary>,
    pub shows: Vec<ShowSummary>,
    pub recently_added: Vec<RecentItem>,
}

/// How many things the list of what was added holds.
pub const RECENTLY_ADDED_LIMIT: i64 = 10;

/// For how many days something counts as added a short while ago.
pub const RECENTLY_ADDED_MAX_AGE_DAYS: i64 = 30;

/// A movie or an episode. Its rating is in millionths.
#[derive(Debug)]
pub struct Media {
    pub id: String,
    pub kind: String,
    pub title: String,
    pub original_title: Option<String>,
    pub year: Option<i64>,
    pub plot: Option<String>,
    pub runtime_minutes: Option<i64>,
    pub imdb_id: Option<String>,
    pub tmdb_id: Option<String>,
    pub file_size: i64,
    pub show_id: Option<String>,
    pub season_number: Option<i64>,
    pub episode_number: Option<i64>,
    pub has_fanart: bool,
    pub rating: Option<i64>,
    pub rating_votes: Option<i64>,
    pub rating_source: Option<String>,
    pub mpaa: Option<String>,
    pub studio: Option<String>,
    pub tagline: Option<String>,
    pub release_date: Option<String>,
    pub director: Option<String>,
    pub writers: Option<String>,
    pub genres: Vec<String>,
}

/// A show. Its rating is in millionths.
#[derive(Debug)]
pub struct Show {
    pub id: String,
    pub title: String,
    pub original_title: Option<String>,
    pub year: Option<i64>,
    pub plot: Option<String>,
    pub imdb_id: Option<String>,
    pub tmdb_id: Option<String>,
    pub tvdb_id: Option<String>,
    pub has_clearlogo: bool,
    pub has_fanart: bool,
    pub has_banner: bool,
    pub rating: Option<i64>,
    pub rating_votes: Option<i64>,
    pub rating_source: Option<String>,
    pub mpaa: Option<String>,
    pub studio: Option<String>,
    pub premiered_date: Option<String>,
    pub end_date: Option<String>,
    pub status: Option<String>,
    pub genres: Vec<String>,
}

/// A show and its seasons.
#[derive(Debug)]
pub struct ShowResponse {
    pub show: Show,
    pub seasons: Vec<Season>,
}

// ---- seasons ----

/// An episode in a list, with how far a viewer has come, in microseconds.
#[derive(Debug)]
pub struct EpisodeSummary {
    pub id: String,
    pub season_number: i64,
    pub episode_number: i64,
    pub title: String,
    pub plot: Option<String>,
    pub runtime_minutes: Option<i64>,
    pub release_date: Option<String>,
    pub position_us: i64,
    pub duration_us: i64,
    pub completed: i64,
}

/// Episodes of one season.
#[derive(Debug)]
pub struct Season {
    pub number: i64,
    pub episodes: Vec<EpisodeSummary>,
}

#[verifier::ext_equal]
pub struct SeasonView {
    pub number: i64,
    pub episodes: Seq<EpisodeSummary>,
}

impl View for Season {
    type V = SeasonView;

    open spec fn view(&self) -> SeasonView {
        SeasonView { number: self.number, episodes: self.episodes@ }
    }
}

pub open spec fn season_views(v: Seq<Season>) -> Seq<SeasonView> {
    v.map_values(|s: Season| s@)
}

/// Seasons with one more episode: in the last one where it belongs there, else in a new
/// one.
pub open spec fn with_episode(v: Seq<SeasonView>, e: EpisodeSummary) -> Seq<SeasonView> {
    if v.len() > 0 && v.last().number == e.season_number {
        v.drop_last().push(
            SeasonView { number: v.last().number, episodes: v.last().episodes.push(e) },
        )
    } else {
        v.push(SeasonView { number: e.season_number, episodes: seq![e] })
    }
}

/// Episodes in seasons: those that follow one another with the same number are together.
pub open spec fn in_seasons(v: Seq<EpisodeSummary>) -> Seq<SeasonView>
    decreases v.len(),
{
    if v.len() == 0 {
        Seq::empty()
    } else {
        with_episode(in_seasons(v.drop_last()), v.last())
    }
}

fn add_episode(seasons: &mut Vec<Season>, e: EpisodeSummary)
    ensures
        season_views(final(seasons)@) == with_episode(season_views(old(seasons)@), e),
{
    let ghost start = seasons@;
    let number: i64 = e.season_number;
    if seasons.len() > 0 && seasons[seasons.len() - 1].number == number {
        let last = seasons.pop();
        if let Some(mut s) = last {
            let ghost before = s@;
            s.episodes.push(e);
            assert(s@ =~= SeasonView { number, episodes: before.episodes.push(e) });
            seasons.push(s);
            assert(season_views(seasons@) =~= with_episode(season_views(start), e));
        }
    } else {
        let mut episodes: Vec<EpisodeSummary> = Vec::new();
        episodes.push(e);
        assert(episodes@ =~= seq![e]);
        seasons.push(Season { number, episodes });
        assert(season_views(seasons@) =~= with_episode(season_views(start), e));
    }
}

/// The seasons of a show, from its episodes in order.
pub fn group_seasons(episodes: Vec<EpisodeSummary>) -> (r: Vec<Season>)
    ensures
        season_views(r@) == in_seasons(episodes@),
{
    let ghost all = episodes@;
    let mut out: Vec<Season> = Vec::new();
    assert(season_views(out@) =~= in_seasons(all.take(0)));
    for e in it: episodes
        invariant
            it.seq() == all,
            season_views(out@) == in_seasons(all.take(it.index() as int)),
    {
        let ghost k = it.index() as int;
        assert(all.take(k + 1).drop_last() =~= all.take(k));
        assert(all.take(k + 1).last() == e);
        add_episode(&mut out, e);
    }
    assert(all.take(all.len() as int) =~= all);
    out
}

/// The episodes of all seasons, one season after another.
pub open spec fn all_episodes(v: Seq<SeasonView>) -> Seq<EpisodeSummary>
    decreases v.len(),
{
    if v.len() == 0 {
        Seq::empty()
    } else {
        all_episodes(v.drop_last()) + v.last().episodes
    }
}

/// No episode is lost, doubled or moved by putting episodes in seasons.
pub proof fn seasons_keep_episodes(v: Seq<EpisodeSummary>)
    ensures
        all_episodes(in_seasons(v)) == v,
    decreases v.len(),
{
    if v.len() > 0 {
        seasons_keep_episodes(v.drop_last());
        let s = in_seasons(v.drop_last());
        let t = in_seasons(v);
        if s.len() > 0 && s.last().number == v.last().season_number {
            assert(t.drop_last() =~= s.drop_last());
            assert(all_episodes(t) =~= all_episodes(s).push(v.last()));
        } else {
            assert(t.drop_last() =~= s);
            assert(all_episodes(t) =~= all_episodes(s).push(v.last()));
        }
        assert(all_episodes(t) =~= v);
    } else {
        assert(all_episodes(in_seasons(v)) =~= v);
    }
}

/// Every season has an episode, every episode of it has its number, and no two neighbours
/// have the same number.
pub open spec fn well_grouped(v: Seq<SeasonView>) -> bool {
    &&& forall|i: int|
        #![trigger v[i]]
        0 <= i < v.len() ==> v[i].episodes.len() > 0 && forall|j: int|
            #![trigger v[i].episodes[j]]
            0 <= j < v[i].episodes.len() ==> v[i].episodes[j].season_number == v[i].number
    &&& forall|i: int, j: int|
        #![trigger v[i], v[j]]
        0 <= i < v.len() && j == i + 1 && j < v.len() ==> v[i].number != v[j].number
}

/// Every season has only episodes with its number, at least one, and no two neighbours
/// have the same number.
pub proof fn seasons_are_whole(v: Seq<EpisodeSummary>)
    ensures
        well_grouped(in_seasons(v)),
    decreases v.len(),
{
    if v.len() > 0 {
        seasons_are_whole(v.drop_last());
    }
}

/// Where the episodes come in the order of their seasons, every season is there once.
pub proof fn ordered_seasons_are_distinct(v: Seq<EpisodeSummary>)
    requires
        forall|i: int, j: int|
            #![trigger v[i], v[j]]
            0 <= i <= j < v.len() ==> v[i].season_number <= v[j].season_number,
    ensures
        forall|i: int, j: int|
            #![trigger in_seasons(v)[i], in_seasons(v)[j]]
            0 <= i < j < in_seasons(v).len() ==> in_seasons(v)[i].number < in_seasons(v)[j].number,
        v.len() > 0 ==> in_seasons(v).len() > 0 && in_seasons(v).last().number
            == v.last().season_number,
    decreases v.len(),
{
    if v.len() > 0 {
        let w = v.drop_last();
        assert forall|i: int, j: int|
            #![trigger w[i], w[j]]
            0 <= i <= j < w.len() implies w[i].season_number <= w[j].season_number by {
            assert(w[i] == v[i] && w[j] == v[j]);
        }
        ordered_seasons_are_distinct(w);
        let s = in_seasons(w);
        let t = in_seasons(v);
        if w.len() > 0 {
            assert(w.last() == v[w.len() - 1]);
            assert(v.last() == v[v.len() - 1]);
            assert(s.last().number <= v.last().season_number);
        }
        assert forall|i: int, j: int| #![trigger t[i], t[j]] 0 <= i < j < t.len() implies t[i].number
            < t[j].number by {
            if s.len() > 0 && s.last().number == v.last().season_number {
                assert(t[i].number == s[i].number);
                assert(t[j].number == s[j].number);
            } else if j < s.len() {
                assert(t[i] == s[i] && t[j] == s[j]);
            } else {
                assert(t[i] == s[i]);
                assert(s[i].number <= s.last().number);
            }
        }
    }
}

// ---- what a page shows ----

/// The genres of something: its own, or else those of its show.
pub fn shown_genres(own: Vec<String>, of_show: Option<Vec<String>>) -> (r: Vec<String>)
    ensures
        r@ == if own@.len() > 0 {
            own@
        } else {
            match of_show {
                Some(g) => g@,
                None => Seq::empty(),
            }
        },
{
    if own.len() > 0 {
        return own;
    }
    match of_show {
        Some(g) => g,
        None => {
            let none: Vec<String> = Vec::new();
            assert(none@ =~= Seq::<String>::empty());
            none
        },
    }
}

/// Where an image comes from.
#[derive(Debug)]
pub enum Picture {
    File(String),
    /// The one that was made from the video.
    Thumbnail,
    /// There is none.
    Missing,
}

pub enum PictureView {
    File(Seq<char>),
    Thumbnail,
    Missing,
}

impl View for Picture {
    type V = PictureView;

    open spec fn view(&self) -> PictureView {
        match *self {
            Picture::File(p) => PictureView::File(p@),
            Picture::Thumbnail => PictureView::Thumbnail,
            Picture::Missing => PictureView::Missing,
        }
    }
}

/// The image of something: the file beside it, else the one that was made.
pub open spec fn picture_of(sidecar: Option<Seq<char>>, thumbnail: bool) -> PictureView {
    match sidecar {
        Some(p) => PictureView::File(p),
        None => if thumbnail {
            PictureView::Thumbnail
        } else {
            PictureView::Missing
        },
    }
}

/// Which picture is shown of a movie or an episode.
pub fn media_image(sidecar: Option<String>, thumbnail: bool) -> (r: Picture)
    ensures
        r@ == picture_of(types::opt_text(sidecar), thumbnail),
{
    match sidecar {
        Some(p) => Picture::File(p),
        None => if thumbnail {
            Picture::Thumbnail
        } else {
            Picture::Missing
        },
    }
}

/// The wide image of something: its own, else that of its show, else its image.
pub fn media_fanart(
    own: Option<String>,
    of_show: Option<String>,
    sidecar: Option<String>,
    thumbnail: bool,
) -> (r: Picture)
    ensures
        r@ == match (types::opt_text(own), types::opt_text(of_show)) {
            (Some(p), _) => PictureView::File(p),
            (None, Some(p)) => PictureView::File(p),
            (None, None) => picture_of(types::opt_text(sidecar), thumbnail),
        },
{
    match own {
        Some(p) => Picture::File(p),
        None => match of_show {
            Some(p) => Picture::File(p),
            None => media_image(sidecar, thumbnail),
        },
    }
}

/// The stems of a season's poster, in the order in which they are tried.
pub open spec fn season_stems(n: int) -> Seq<Seq<char>> {
    if n == 0 {
        seq!["season-specials-poster"@]
    } else {
        seq![
            "season"@ + text::padded_int(n, 2) + "-poster"@,
            "season"@ + text::decimal_int(n) + "-poster"@,
        ]
    }
}

/// The poster of a season in the folder of its show.
pub fn season_poster(show_dir: &str, n: i64, present: &Vec<String>) -> (r: Option<String>)
    ensures
        types::opt_text(r) == files::first_present(
            files::image_candidates(show_dir@, season_stems(n as int)),
            types::texts(present@),
        ),
{
    let mut stems: Vec<String> = Vec::new();
    if n == 0 {
        types::push_text(&mut stems, "season-specials-poster");
    } else {
        let mut padded = text::own("season");
        text::push_i64_padded(&mut padded, n, 2);
        padded.push_str("-poster");
        types::push_text(&mut stems, padded.as_str());
        let mut plain = text::own("season");
        text::push_i64(&mut plain, n);
        plain.push_str("-poster");
        types::push_text(&mut stems, plain.as_str());
    }
    assert(types::texts(stems@) =~= season_stems(n as int));
    files::first_existing(show_dir, &stems, present)
}

/// How a room is listed, with the title of what it plays where that is known.
pub fn room_item(
    id: String,
    playing: Option<RoomState>,
    title: Option<String>,
    viewers: usize,
    members: Vec<String>,
) -> (r: RoomListItem)
    ensures
        r.id@ == id@,
        r.viewers == viewers,
        r.members@ == members@,
        types::opt_text(r.current_media_id) == match playing {
            Some(s) => Some(s.media_id@),
            None => None,
        },
        types::opt_text(r.current_media_title) == match playing {
            Some(_) => types::opt_text(title),
            None => None,
        },
{
    match playing {
        Some(s) => RoomListItem {
            id,
            viewers,
            current_media_id: Some(s.media_id),
            current_media_title: title,
            members,
        },
        None => RoomListItem {
            id,
            viewers,
            current_media_id: None,
            current_media_title: None,
            members,
        },
    }
}

} // verus!
