//! Taking over what a user watched from another media server. Times are in ticks of a
//! tenth of a microsecond.

use crate::clock;
use crate::text;
use crate::types;
use vstd::prelude::*;

verus! {

/// Ticks in a minute.
pub const MINUTE_TICKS: i64 = 600_000_000;

/// Something that the other server says was watched.
#[derive(Debug)]
pub struct JfWatch {
    pub kind: String,
    pub name: Option<String>,
    pub series_name: Option<String>,
    pub season: Option<i64>,
    pub episode: Option<i64>,
    pub year: Option<i64>,
    pub runtime_ticks: Option<i64>,
    pub position_ticks: i64,
    pub played: i64,
    pub last_played: Option<String>,
}

/// A movie or an episode of this server, with its titles in lower case.
#[derive(Debug)]
pub struct BfMedia {
    pub id: String,
    pub kind: String,
    pub title_lc: String,
    pub year: Option<i64>,
    pub runtime_minutes: Option<i64>,
    pub season_number: Option<i64>,
    pub episode_number: Option<i64>,
    pub show_title_lc: Option<String>,
}

/// The name of the other server's episodes.
pub const JF_EPISODE: &'static str = "MediaBrowser.Controller.Entities.TV.Episode";

/// The name of the other server's movies.
pub const JF_MOVIE: &'static str = "MediaBrowser.Controller.Entities.Movies.Movie";

pub open spec fn episode_type() -> Seq<char> {
    JF_EPISODE@
}

pub open spec fn movie_type() -> Seq<char> {
    JF_MOVIE@
}

fn is_episode(r: &JfWatch) -> (b: bool)
    ensures
        b == (r.kind@ == episode_type()),
{
    *r.kind.as_str() == *JF_EPISODE
}

fn is_movie(r: &JfWatch) -> (b: bool)
    ensures
        b == (r.kind@ == movie_type()),
{
    *r.kind.as_str() == *JF_MOVIE
}

proof fn types_differ()
    ensures
        episode_type() != movie_type(),
{
    reveal_strlit("MediaBrowser.Controller.Entities.TV.Episode");
    reveal_strlit("MediaBrowser.Controller.Entities.Movies.Movie");
    assert(episode_type().len() == 43);
    assert(movie_type().len() == 45);
}

// ---- which of this server's it is ----

/// `m` is the given episode of a show.
pub open spec fn is_that_episode(m: BfMedia, show: Seq<char>, season: i64, episode: i64) -> bool {
    &&& m.kind@ == "episode"@
    &&& types::opt_text(m.show_title_lc) == Some(show)
    &&& m.season_number == Some(season)
    &&& m.episode_number == Some(episode)
}

/// `m` is the movie with the given title and year.
pub open spec fn is_that_movie(m: BfMedia, title: Seq<char>, year: i64) -> bool {
    m.kind@ == "movie"@ && m.title_lc@ == title && m.year == Some(year)
}

/// `m` is a movie with the given title.
pub open spec fn is_titled(m: BfMedia, title: Seq<char>) -> bool {
    m.kind@ == "movie"@ && m.title_lc@ == title
}

/// The last of the given episode.
pub open spec fn last_episode(v: Seq<BfMedia>, show: Seq<char>, season: i64, episode: i64) -> Option<
    BfMedia,
>
    decreases v.len(),
{
    if v.len() == 0 {
        None
    } else if is_that_episode(v.last(), show, season, episode) {
        Some(v.last())
    } else {
        last_episode(v.drop_last(), show, season, episode)
    }
}

/// The last movie with the given title and year.
pub open spec fn last_movie(v: Seq<BfMedia>, title: Seq<char>, year: i64) -> Option<BfMedia>
    decreases v.len(),
{
    if v.len() == 0 {
        None
    } else if is_that_movie(v.last(), title, year) {
        Some(v.last())
    } else {
        last_movie(v.drop_last(), title, year)
    }
}

/// The first movie with the given title.
pub open spec fn first_titled(v: Seq<BfMedia>, title: Seq<char>) -> Option<BfMedia>
    decreases v.len(),
{
    if v.len() == 0 {
        None
    } else if is_titled(v[0], title) {
        Some(v[0])
    } else {
        first_titled(v.skip(1), title)
    }
}

/// A text, or nothing, in lower case.
pub open spec fn lower_or_empty(s: Option<String>) -> Seq<char> {
    text::lower_text(
        match s {
            Some(t) => t@,
            None => ""@,
        },
    )
}

/// Which of this server's a row is: an episode by its show and number, a movie by title
/// and year, or else by title alone.
pub open spec fn matched(r: JfWatch, media: Seq<BfMedia>) -> Option<BfMedia> {
    if r.kind@ == episode_type() {
        match (r.season, r.episode) {
            (Some(s), Some(e)) => last_episode(media, lower_or_empty(r.series_name), s, e),
            _ => None,
        }
    } else if r.kind@ == movie_type() {
        let name = lower_or_empty(r.name);
        let by_year = match r.year {
            Some(y) => last_movie(media, name, y),
            None => None,
        };
        match by_year {
            Some(m) => Some(m),
            None => first_titled(media, name),
        }
    } else {
        None
    }
}

fn same_number(a: Option<i64>, n: i64) -> (r: bool)
    ensures
        r == (a == Some(n)),
{
    match a {
        Some(x) => x == n,
        None => false,
    }
}

fn find_episode(v: &Vec<BfMedia>, show: &str, season: i64, episode: i64) -> (r: Option<usize>)
    ensures
        match r {
            Some(i) => i < v@.len() && last_episode(v@, show@, season, episode) == Some(
                v@[i as int],
            ),
            None => last_episode(v@, show@, season, episode) is None,
        },
{
    let mut i: usize = v.len();
    assert(v@.take(i as int) =~= v@);
    while i > 0
        invariant
            i <= v@.len(),
            last_episode(v@, show@, season, episode) == last_episode(
                v@.take(i as int),
                show@,
                season,
                episode,
            ),
        decreases i,
    {
        proof {
            assert(v@.take(i as int).drop_last() =~= v@.take(i - 1));
            assert(v@.take(i as int).last() == v@[i - 1]);
        }
        i -= 1;
        let m = &v[i];
        let titled = match &m.show_title_lc {
            Some(t) => *t.as_str() == *show,
            None => false,
        };
        if *m.kind.as_str() == *"episode" && titled && same_number(m.season_number, season)
            && same_number(m.episode_number, episode) {
            return Some(i);
        }
    }
    None
}

fn find_movie(v: &Vec<BfMedia>, title: &str, year: i64) -> (r: Option<usize>)
    ensures
        match r {
            Some(i) => i < v@.len() && last_movie(v@, title@, year) == Some(v@[i as int]),
            None => last_movie(v@, title@, year) is None,
        },
{
    let mut i: usize = v.len();
    assert(v@.take(i as int) =~= v@);
    while i > 0
        invariant
            i <= v@.len(),
            last_movie(v@, title@, year) == last_movie(v@.take(i as int), title@, year),
        decreases i,
    {
        proof {
            assert(v@.take(i as int).drop_last() =~= v@.take(i - 1));
            assert(v@.take(i as int).last() == v@[i - 1]);
        }
        i -= 1;
        let m = &v[i];
        if *m.kind.as_str() == *"movie" && *m.title_lc.as_str() == *title && same_number(
            m.year,
            year,
        ) {
            return Some(i);
        }
    }
    None
}

fn find_titled(v: &Vec<BfMedia>, title: &str) -> (r: Option<usize>)
    ensures
        match r {
            Some(i) => i < v@.len() && first_titled(v@, title@) == Some(v@[i as int]),
            None => first_titled(v@, title@) is None,
        },
{
    let mut i: usize = 0;
    assert(v@.skip(0) =~= v@);
    while i < v.len()
        invariant
            i <= v@.len(),
            first_titled(v@, title@) == first_titled(v@.skip(i as int), title@),
        decreases v@.len() - i,
    {
        let m = &v[i];
        if *m.kind.as_str() == *"movie" && *m.title_lc.as_str() == *title {
            return Some(i);
        }
        assert(v@.skip(i as int).skip(1) =~= v@.skip(i + 1));
        i += 1;
    }
    None
}

fn lower_of(s: &Option<String>) -> (r: String)
    ensures
        r@ == lower_or_empty(*s),
{
    match s {
        Some(t) => text::to_lower(t.as_str()),
        None => text::to_lower(""),
    }
}

fn find_match(r: &JfWatch, media: &Vec<BfMedia>) -> (i: Option<usize>)
    ensures
        match i {
            Some(k) => k < media@.len() && matched(*r, media@) == Some(media@[k as int]),
            None => matched(*r, media@) is None,
        },
{
    proof {
        types_differ();
    }
    if is_episode(r) {
        let show = lower_of(&r.series_name);
        return match (r.season, r.episode) {
            (Some(s), Some(e)) => find_episode(media, show.as_str(), s, e),
            _ => None,
        };
    }
    if is_movie(r) {
        let name = lower_of(&r.name);
        if let Some(y) = r.year {
            if let Some(k) = find_movie(media, name.as_str(), y) {
                return Some(k);
            }
        }
        return find_titled(media, name.as_str());
    }
    None
}

// ---- what is taken over ----

/// What is stored of something that was watched.
#[derive(Debug)]
pub struct PlanRow {
    pub media_id: String,
    pub position_ticks: i128,
    pub duration_ticks: i128,
    pub completed: bool,
    pub updated_at: i64,
}

#[verifier::ext_equal]
pub struct PlanView {
    pub media_id: Seq<char>,
    pub position_ticks: int,
    pub duration_ticks: int,
    pub completed: bool,
    pub updated_at: i64,
}

impl View for PlanRow {
    type V = PlanView;

    open spec fn view(&self) -> PlanView {
        PlanView {
            media_id: self.media_id@,
            position_ticks: self.position_ticks as int,
            duration_ticks: self.duration_ticks as int,
            completed: self.completed,
            updated_at: self.updated_at,
        }
    }
}

pub open spec fn plan_views(v: Seq<PlanRow>) -> Seq<PlanView> {
    v.map_values(|p: PlanRow| p@)
}

/// The running time: the other server's, else this one's, else nothing.
pub open spec fn duration_of(runtime_ticks: Option<i64>, minutes: Option<i64>) -> int {
    match runtime_ticks {
        Some(t) => if t > 0 {
            t as int
        } else {
            match minutes {
                Some(m) => m * MINUTE_TICKS,
                None => 0,
            }
        },
        None => match minutes {
            Some(m) => m * MINUTE_TICKS,
            None => 0,
        },
    }
}

/// It was watched: the other server says so, or more than nine tenths were.
pub open spec fn is_watched(played: i64, position: int, duration: int) -> bool {
    played != 0 || (duration > 0 && 10 * position > 9 * duration)
}

/// How the other server writes a time, with and without fractions of a second.
pub open spec fn fraction_format() -> Seq<char> {
    "%Y-%m-%d %H:%M:%S%.f"@
}

/// When something was last watched: the first way of writing a time that fits.
pub open spec fn watched_at(s: Option<Seq<char>>) -> Option<i64> {
    match s {
        Some(t) => match clock::parsed_time(t, fraction_format()) {
            Some(x) => Some(x),
            None => clock::parsed_time(t, clock::sqlite_format()),
        },
        None => None,
    }
}

/// Reads when something was last watched.
pub fn parse_jf_date(s: Option<&str>) -> (r: Option<i64>)
    ensures
        r == watched_at(types::opt_str(s)),
{
    match s {
        None => None,
        Some(t) => match clock::parse_time(t, "%Y-%m-%d %H:%M:%S%.f") {
            Some(x) => Some(x),
            None => clock::sqlite_ts_to_secs(t),
        },
    }
}

/// What is taken over of a row that is one of this server's.
pub open spec fn planned_row(r: JfWatch, m: BfMedia, updated_at: i64) -> PlanView {
    let position = r.position_ticks as int;
    let duration = duration_of(r.runtime_ticks, m.runtime_minutes);
    let completed = is_watched(r.played, position, duration);
    PlanView {
        media_id: m.id@,
        position_ticks: if completed && position <= 0 && duration > 0 {
            duration
        } else {
            position
        },
        duration_ticks: duration,
        completed,
        updated_at,
    }
}

/// Makes what is taken over of a row.
pub fn plan_row(r: &JfWatch, m: &BfMedia, updated_at: i64) -> (p: PlanRow)
    ensures
        p@ == planned_row(*r, *m, updated_at),
{
    let minutes: i128 = match m.runtime_minutes {
        Some(x) => x as i128 * MINUTE_TICKS as i128,
        None => 0,
    };
    let duration: i128 = match r.runtime_ticks {
        Some(t) => if t > 0 {
            t as i128
        } else {
            minutes
        },
        None => minutes,
    };
    let position: i128 = r.position_ticks as i128;
    let completed = r.played != 0 || (duration > 0 && 10 * position > 9 * duration);
    let shown: i128 = if completed && position <= 0 && duration > 0 { duration } else { position };
    PlanRow {
        media_id: text::own(m.id.as_str()),
        position_ticks: shown,
        duration_ticks: duration,
        completed,
        updated_at,
    }
}

/// What has been watched in full has a position, where its running time is known.
pub proof fn watched_is_filled(r: JfWatch, m: BfMedia, updated_at: i64)
    ensures
        ({
            let p = planned_row(r, m, updated_at);
            p.completed && p.duration_ticks > 0 ==> p.position_ticks > 0
        }),
{
}

/// When a row was last watched, or `now` where that is unknown.
pub open spec fn row_time(r: JfWatch, now: i64) -> i64 {
    match watched_at(types::opt_text(r.last_played)) {
        Some(t) => t,
        None => now,
    }
}

/// What is taken over of the rows, in their order.
pub open spec fn all_planned(rows: Seq<JfWatch>, media: Seq<BfMedia>, now: i64) -> Seq<PlanView>
    decreases rows.len(),
{
    if rows.len() == 0 {
        Seq::empty()
    } else {
        let rest = all_planned(rows.drop_last(), media, now);
        match matched(rows.last(), media) {
            Some(m) => rest.push(planned_row(rows.last(), m, row_time(rows.last(), now))),
            None => rest,
        }
    }
}

/// How a row is described.
pub open spec fn description(r: JfWatch) -> Seq<char> {
    if r.kind@ == episode_type() {
        (match r.series_name {
            Some(n) => n@,
            None => "?"@,
        }) + " S"@ + text::padded_int(
            match r.season {
                Some(n) => n as int,
                None => 0,
            },
            2,
        ) + "E"@ + text::padded_int(
            match r.episode {
                Some(n) => n as int,
                None => 0,
            },
            2,
        )
    } else {
        let name = match r.name {
            Some(n) => n@,
            None => "?"@,
        };
        match r.year {
            Some(y) => name + " ("@ + text::decimal_int(y as int) + ")"@,
            None => name,
        }
    }
}

/// Describes a row.
pub fn describe_jf(r: &JfWatch) -> (d: String)
    ensures
        d@ == description(*r),
{
    if is_episode(r) {
        let mut out = match &r.series_name {
            Some(n) => text::own(n.as_str()),
            None => text::own("?"),
        };
        let s: i64 = match r.season {
            Some(n) => n,
            None => 0,
        };
        let e: i64 = match r.episode {
            Some(n) => n,
            None => 0,
        };
        out.push_str(" S");
        text::push_i64_padded(&mut out, s, 2);
        out.push_str("E");
        text::push_i64_padded(&mut out, e, 2);
        out
    } else {
        let mut out = match &r.name {
            Some(n) => text::own(n.as_str()),
            None => text::own("?"),
        };
        if let Some(y) = r.year {
            out.push_str(" (");
            text::push_i64(&mut out, y);
            out.push_str(")");
        }
        out
    }
}

/// The descriptions of the rows that are none of this server's.
pub open spec fn all_unmatched(rows: Seq<JfWatch>, media: Seq<BfMedia>) -> Seq<Seq<char>>
    decreases rows.len(),
{
    if rows.len() == 0 {
        Seq::empty()
    } else {
        let rest = all_unmatched(rows.drop_last(), media);
        match matched(rows.last(), media) {
            Some(_) => rest,
            None => rest.push(description(rows.last())),
        }
    }
}

/// How many rows of a kind are this server's.
pub open spec fn matched_of(rows: Seq<JfWatch>, media: Seq<BfMedia>, kind: Seq<char>) -> nat
    decreases rows.len(),
{
    if rows.len() == 0 {
        0
    } else {
        matched_of(rows.drop_last(), media, kind) + if matched(rows.last(), media) is Some
            && rows.last().kind@ == kind {
            1nat
        } else {
            0
        }
    }
}

/// What an import would do.
#[derive(Debug)]
pub struct ImportPlan {
    pub planned: Vec<PlanRow>,
    pub unmatched: Vec<String>,
    pub episodes: usize,
    pub movies: usize,
}

/// Matches what the other server says was watched with what this one has.
pub fn plan_import(rows: &Vec<JfWatch>, media: &Vec<BfMedia>, now: i64) -> (r: ImportPlan)
    ensures
        plan_views(r.planned@) == all_planned(rows@, media@, now),
        types::texts(r.unmatched@) == all_unmatched(rows@, media@),
        r.episodes == matched_of(rows@, media@, episode_type()),
        r.movies == matched_of(rows@, media@, movie_type()),
{
    let mut planned: Vec<PlanRow> = Vec::new();
    let mut unmatched: Vec<String> = Vec::new();
    let mut episodes: usize = 0;
    let mut movies: usize = 0;
    let mut i: usize = 0;
    proof {
        assert(rows@.take(0) =~= Seq::<JfWatch>::empty());
        assert(plan_views(planned@) =~= all_planned(rows@.take(0), media@, now));
        assert(types::texts(unmatched@) =~= all_unmatched(rows@.take(0), media@));
        types_differ();
    }
    while i < rows.len()
        invariant
            i <= rows@.len(),
            episodes <= i,
            movies <= i,
            episode_type() != movie_type(),
            plan_views(planned@) == all_planned(rows@.take(i as int), media@, now),
            types::texts(unmatched@) == all_unmatched(rows@.take(i as int), media@),
            episodes == matched_of(rows@.take(i as int), media@, episode_type()),
            movies == matched_of(rows@.take(i as int), media@, movie_type()),
        decreases rows@.len() - i,
    {
        let row = &rows[i];
        assert(rows@.take(i + 1).drop_last() =~= rows@.take(i as int));
        match find_match(row, media) {
            None => {
                let d = describe_jf(row);
                types::push_text(&mut unmatched, d.as_str());
            },
            Some(k) => {
                let at = match &row.last_played {
                    Some(t) => parse_jf_date(Some(t.as_str())),
                    None => None,
                };
                let updated_at: i64 = match at {
                    Some(t) => t,
                    None => now,
                };
                let p = plan_row(row, &media[k], updated_at);
                let ghost before = planned@;
                planned.push(p);
                assert(plan_views(planned@) =~= plan_views(before).push(p@));
                if is_episode(row) {
                    episodes += 1;
                } else if is_movie(row) {
                    movies += 1;
                }
            },
        }
        i += 1;
    }
    assert(rows@.take(i as int) =~= rows@);
    ImportPlan { planned, unmatched, episodes, movies }
}

/// Every row is either taken over or described as none of this server's.
pub proof fn every_row_is_accounted(rows: Seq<JfWatch>, media: Seq<BfMedia>, now: i64)
    ensures
        all_planned(rows, media, now).len() + all_unmatched(rows, media).len() == rows.len(),
        matched_of(rows, media, episode_type()) + matched_of(rows, media, movie_type())
            == all_planned(rows, media, now).len(),
    decreases rows.len(),
{
    types_differ();
    if rows.len() > 0 {
        every_row_is_accounted(rows.drop_last(), media, now);
    }
}

// ---- what is there already ----

/// When something was last watched by what is stored, by the last row that has it.
pub open spec fn stored_time(v: Seq<(String, i64)>, id: Seq<char>) -> Option<i64>
    decreases v.len(),
{
    if v.len() == 0 {
        None
    } else if v.last().0@ == id {
        Some(v.last().1)
    } else {
        stored_time(v.drop_last(), id)
    }
}

/// What becomes of a row.
#[derive(Debug, Clone, Copy, PartialEq, Eq, Structural)]
pub enum Effect {
    Insert,
    Overwrite,
    /// What is stored is newer.
    Skip,
}

pub open spec fn effect_of(stored: Option<i64>, updated_at: i64) -> Effect {
    match stored {
        None => Effect::Insert,
        Some(t) => if updated_at > t {
            Effect::Overwrite
        } else {
            Effect::Skip
        },
    }
}

/// When something was last watched, by what is stored.
pub fn find_stored(v: &Vec<(String, i64)>, id: &str) -> (r: Option<i64>)
    ensures
        r == stored_time(v@, id@),
{
    let mut i: usize = v.len();
    assert(v@.take(i as int) =~= v@);
    while i > 0
        invariant
            i <= v@.len(),
            stored_time(v@, id@) == stored_time(v@.take(i as int), id@),
        decreases i,
    {
        proof {
            assert(v@.take(i as int).drop_last() =~= v@.take(i - 1));
            assert(v@.take(i as int).last() == v@[i - 1]);
        }
        i -= 1;
        if *v[i].0.as_str() == *id {
            return Some(v[i].1);
        }
    }
    None
}

/// What becomes of a row, given when what is stored was last watched.
pub fn effect(stored: Option<i64>, updated_at: i64) -> (r: Effect)
    ensures
        r == effect_of(stored, updated_at),
{
    match stored {
        None => Effect::Insert,
        Some(t) => if updated_at > t {
            Effect::Overwrite
        } else {
            Effect::Skip
        },
    }
}

/// How many rows an effect has.
pub open spec fn count_effect(v: Seq<PlanView>, stored: Seq<(String, i64)>, e: Effect) -> nat
    decreases v.len(),
{
    if v.len() == 0 {
        0
    } else {
        count_effect(v.drop_last(), stored, e) + if effect_of(
            stored_time(stored, v.last().media_id),
            v.last().updated_at,
        ) == e {
            1nat
        } else {
            0
        }
    }
}

/// How many rows would be inserted, overwritten and skipped.
pub fn forecast(planned: &Vec<PlanRow>, stored: &Vec<(String, i64)>) -> (r: (usize, usize, usize))
    ensures
        r.0 == count_effect(plan_views(planned@), stored@, Effect::Insert),
        r.1 == count_effect(plan_views(planned@), stored@, Effect::Overwrite),
        r.2 == count_effect(plan_views(planned@), stored@, Effect::Skip),
{
    let ghost all = plan_views(planned@);
    let mut ins: usize = 0;
    let mut over: usize = 0;
    let mut skip: usize = 0;
    let mut i: usize = 0;
    assert(all.take(0) =~= Seq::<PlanView>::empty());
    while i < planned.len()
        invariant
            i <= planned@.len(),
            all == plan_views(planned@),
            ins + over + skip == i,
            ins == count_effect(all.take(i as int), stored@, Effect::Insert),
            over == count_effect(all.take(i as int), stored@, Effect::Overwrite),
            skip == count_effect(all.take(i as int), stored@, Effect::Skip),
        decreases planned@.len() - i,
    {
        proof {
            assert(all.take(i + 1).drop_last() =~= all.take(i as int));
            assert(all.take(i + 1).last() == planned@[i as int]@);
        }
        match effect(find_stored(stored, planned[i].media_id.as_str()), planned[i].updated_at) {
            Effect::Insert => {
                ins += 1;
            },
            Effect::Overwrite => {
                over += 1;
            },
            Effect::Skip => {
                skip += 1;
            },
        }
        i += 1;
    }
    assert(all.take(i as int) =~= all);
    (ins, over, skip)
}

/// Every row is inserted, overwrites something older or is skipped.
pub proof fn every_row_has_one_effect(v: Seq<PlanView>, stored: Seq<(String, i64)>)
    ensures
        count_effect(v, stored, Effect::Insert) + count_effect(v, stored, Effect::Overwrite)
            + count_effect(v, stored, Effect::Skip) == v.len(),
    decreases v.len(),
{
    if v.len() > 0 {
        every_row_has_one_effect(v.drop_last(), stored);
    }
}

/// What was watched later than a row says stays as it is.
pub proof fn newer_is_kept(stored: i64, updated_at: i64)
    requires
        stored >= updated_at,
    ensures
        effect_of(Some(stored), updated_at) == Effect::Skip,
{
}

/// What became of a row: whether something was stored before, and whether the row
/// changed anything.
pub fn applied(was_stored: bool, changed: bool) -> (r: Effect)
    ensures
        r == if !changed {
            Effect::Skip
        } else if was_stored {
            Effect::Overwrite
        } else {
            Effect::Insert
        },
{
    if !changed {
        Effect::Skip
    } else if was_stored {
        Effect::Overwrite
    } else {
        Effect::Insert
    }
}

// ---- what is said of it ----

/// How many of the rows that are none of this server's are shown.
pub const SAMPLE_SIZE: usize = 10;

/// The rows that are none of this server's, as far as they are shown.
pub open spec fn sample_lines(unmatched: Seq<Seq<char>>) -> Seq<Seq<char>> {
    let n = if unmatched.len() < SAMPLE_SIZE {
        unmatched.len()
    } else {
        SAMPLE_SIZE as nat
    };
    if unmatched.len() == 0 {
        Seq::empty()
    } else {
        seq!["Sample unmatched (first "@ + text::decimal(n) + "):"@] + unmatched.take(
            n as int,
        ).map_values(|u: Seq<char>| "  - "@ + u) + if unmatched.len() > n {
            seq!["  … "@ + text::decimal((unmatched.len() - n) as nat) + " more"@]
        } else {
            Seq::empty()
        }
    }
}

/// What is said of an import before it is made.
pub open spec fn preview_lines(
    episodes: nat,
    movies: nat,
    unmatched: Seq<Seq<char>>,
    effects: (nat, nat, nat),
) -> Seq<Seq<char>> {
    seq![
        "Matched: "@ + text::decimal(episodes) + " episodes, "@ + text::decimal(movies)
            + " movies   (unmatched: "@ + text::decimal(unmatched.len()) + ")"@,
    ] + sample_lines(unmatched) + seq![
        ""@,
        "Plan: insert "@ + text::decimal(effects.0) + ", overwrite "@ + text::decimal(effects.1)
            + ", skip-newer "@ + text::decimal(effects.2),
    ]
}

fn push_sample(out: &mut Vec<String>, unmatched: &Vec<String>)
    ensures
        types::texts(final(out)@) == types::texts(old(out)@) + sample_lines(
            types::texts(unmatched@),
        ),
{
    let ghost start = types::texts(out@);
    let ghost all = types::texts(unmatched@);
    let total: usize = unmatched.len();
    if total == 0 {
        assert(types::texts(out@) =~= start + sample_lines(all));
        return;
    }
    let n: usize = if total < SAMPLE_SIZE {
        total
    } else {
        SAMPLE_SIZE
    };
    let mut head = text::own("Sample unmatched (first ");
    text::push_u64(&mut head, n as u64);
    head.push_str("):");
    types::push_text(out, head.as_str());
    let ghost first = start + seq!["Sample unmatched (first "@ + text::decimal(n as nat) + "):"@];
    let ghost shown = all.take(n as int).map_values(|u: Seq<char>| "  - "@ + u);
    assert(types::texts(out@) =~= first + shown.take(0));
    let mut i: usize = 0;
    while i < n
        invariant
            i <= n <= unmatched@.len(),
            all == types::texts(unmatched@),
            shown == all.take(n as int).map_values(|u: Seq<char>| "  - "@ + u),
            types::texts(out@) == first + shown.take(i as int),
        decreases n - i,
    {
        let mut line = text::own("  - ");
        line.push_str(unmatched[i].as_str());
        types::push_text(out, line.as_str());
        assert(shown.take(i + 1) =~= shown.take(i as int).push(line@));
        assert(types::texts(out@) =~= first + shown.take(i + 1));
        i += 1;
    }
    assert(shown.take(i as int) =~= shown);
    if total > n {
        let mut more = text::own("  … ");
        text::push_u64(&mut more, (total - n) as u64);
        more.push_str(" more");
        types::push_text(out, more.as_str());
    }
    assert(types::texts(out@) =~= start + sample_lines(all));
}

/// The lines that are printed before an import is made, given how many rows it would
/// insert, overwrite and skip.
pub fn preview(plan: &ImportPlan, effects: (usize, usize, usize)) -> (r: Vec<String>)
    ensures
        types::texts(r@) == preview_lines(
            plan.episodes as nat,
            plan.movies as nat,
            types::texts(plan.unmatched@),
            (effects.0 as nat, effects.1 as nat, effects.2 as nat),
        ),
{
    let mut out: Vec<String> = Vec::new();
    let mut matched = text::own("Matched: ");
    text::push_u64(&mut matched, plan.episodes as u64);
    matched.push_str(" episodes, ");
    text::push_u64(&mut matched, plan.movies as u64);
    matched.push_str(" movies   (unmatched: ");
    text::push_u64(&mut matched, plan.unmatched.len() as u64);
    matched.push_str(")");
    types::push_text(&mut out, matched.as_str());
    assert(types::texts(out@) =~= seq![matched@]);
    push_sample(&mut out, &plan.unmatched);
    types::push_text(&mut out, "");
    let mut line = text::own("Plan: insert ");
    text::push_u64(&mut line, effects.0 as u64);
    line.push_str(", overwrite ");
    text::push_u64(&mut line, effects.1 as u64);
    line.push_str(", skip-newer ");
    text::push_u64(&mut line, effects.2 as u64);
    types::push_text(&mut out, line.as_str());
    assert(types::texts(out@) =~= preview_lines(
        plan.episodes as nat,
        plan.movies as nat,
        types::texts(plan.unmatched@),
        (effects.0 as nat, effects.1 as nat, effects.2 as nat),
    ));
    out
}

// ---- who it is for ----

/// The start of a long identity, with a mark that something is missing.
pub open spec fn shortened(s: Seq<char>) -> Seq<char> {
    if text::byte_size(s) > 8 {
        text::byte_prefix(s, 8) + "…"@
    } else {
        s
    }
}

/// Shortens an identity.
pub fn short_sub(s: &str) -> (r: String)
    requires
        text::splits_at(s@, 8),
    ensures
        r@ == shortened(s@),
{
    if text::is_wider(s, 8) {
        let mut out = text::first_bytes(s, 8);
        out.push_str("…");
        out
    } else {
        text::own(s)
    }
}

/// How a user is shown: by name and identity, or by identity alone.
pub open spec fn user_label(sub: Seq<char>, login: Option<Seq<char>>) -> Seq<char> {
    match login {
        Some(l) => l + " ("@ + shortened(sub) + ")"@,
        None => sub,
    }
}

/// How a user is shown.
pub fn target_label(sub: &str, login: Option<&str>) -> (r: String)
    requires
        login is Some ==> text::splits_at(sub@, 8),
    ensures
        r@ == user_label(sub@, types::opt_str(login)),
{
    match login {
        Some(l) => {
            let mut out = text::own(l);
            out.push_str(" (");
            out.push_str(short_sub(sub).as_str());
            out.push_str(")");
            out
        },
        None => text::own(sub),
    }
}

/// The identities that can be chosen: that of the one user there is without signing in
/// comes first where it is not among them.
pub open spec fn with_dev(subs: Seq<Seq<char>>) -> Seq<Seq<char>> {
    if subs.contains("dev"@) {
        subs
    } else {
        seq!["dev"@] + subs
    }
}

/// Whether that identity has to be put in front.
pub fn adds_dev(subs: &Vec<String>) -> (r: bool)
    ensures
        r == !types::texts(subs@).contains("dev"@),
        r ==> with_dev(types::texts(subs@)) == seq!["dev"@] + types::texts(subs@),
        !r ==> with_dev(types::texts(subs@)) == types::texts(subs@),
{
    !types::holds_text(subs, "dev")
}

/// The identity that was typed in.
pub fn custom_sub(typed: &str) -> (r: Result<String, String>)
    ensures
        match r {
            Ok(s) => s@ == text::trimmed(typed@) && s@.len() > 0,
            Err(why) => text::trimmed(typed@).len() == 0 && why@ == "empty user_sub"@,
        },
{
    let s = text::trim(typed);
    let v = text::chars_of(s.as_str());
    if v.len() == 0 {
        Err(text::own("empty user_sub"))
    } else {
        Ok(s)
    }
}

// ---- further laws ----

proof fn last_episode_is_one(v: Seq<BfMedia>, show: Seq<char>, season: i64, episode: i64)
    ensures
        match last_episode(v, show, season, episode) {
            Some(m) => v.contains(m) && is_that_episode(m, show, season, episode),
            None => forall|i: int|
                0 <= i < v.len() ==> !is_that_episode(#[trigger] v[i], show, season, episode),
        },
    decreases v.len(),
{
    if v.len() > 0 {
        let w = v.drop_last();
        last_episode_is_one(w, show, season, episode);
        assert(v[v.len() - 1] == v.last());
        match last_episode(v, show, season, episode) {
            Some(m) => {
                if w.contains(m) {
                    let i = choose|i: int| 0 <= i < w.len() && w[i] == m;
                    assert(v[i] == m);
                }
            },
            None => {
                assert forall|i: int| 0 <= i < v.len() implies !is_that_episode(
                    #[trigger] v[i],
                    show,
                    season,
                    episode,
                ) by {
                    if i < w.len() {
                        assert(v[i] == w[i]);
                    }
                }
            },
        }
    }
}

proof fn last_movie_is_one(v: Seq<BfMedia>, title: Seq<char>, year: i64)
    ensures
        match last_movie(v, title, year) {
            Some(m) => v.contains(m) && is_that_movie(m, title, year),
            None => forall|i: int|
                0 <= i < v.len() ==> !is_that_movie(#[trigger] v[i], title, year),
        },
    decreases v.len(),
{
    if v.len() > 0 {
        let w = v.drop_last();
        last_movie_is_one(w, title, year);
        assert(v[v.len() - 1] == v.last());
        match last_movie(v, title, year) {
            Some(m) => {
                if w.contains(m) {
                    let i = choose|i: int| 0 <= i < w.len() && w[i] == m;
                    assert(v[i] == m);
                }
            },
            None => {
                assert forall|i: int| 0 <= i < v.len() implies !is_that_movie(
                    #[trigger] v[i],
                    title,
                    year,
                ) by {
                    if i < w.len() {
                        assert(v[i] == w[i]);
                    }
                }
            },
        }
    }
}

proof fn first_titled_is_one(v: Seq<BfMedia>, title: Seq<char>)
    ensures
        match first_titled(v, title) {
            Some(m) => v.contains(m) && is_titled(m, title),
            None => forall|i: int| 0 <= i < v.len() ==> !is_titled(#[trigger] v[i], title),
        },
    decreases v.len(),
{
    if v.len() > 0 {
        let w = v.skip(1);
        first_titled_is_one(w, title);
        match first_titled(v, title) {
            Some(m) => {
                if is_titled(v[0], title) {
                    assert(v[0] == m);
                } else {
                    let i = choose|i: int| 0 <= i < w.len() && w[i] == m;
                    assert(v[i + 1] == m);
                }
            },
            None => {
                assert forall|i: int| 0 <= i < v.len() implies !is_titled(
                    #[trigger] v[i],
                    title,
                ) by {
                    if i > 0 {
                        assert(v[i] == w[i - 1]);
                    }
                }
            },
        }
    }
}

/// An episode is matched with one of the same show, season and number, whatever it is
/// called; it is not matched only where this server has none.
pub proof fn episodes_match_by_number(r: JfWatch, media: Seq<BfMedia>, show: Seq<char>, season: i64, episode: i64)
    requires
        r.kind@ == "MediaBrowser.Controller.Entities.TV.Episode"@,
        r.series_name matches Some(n) && text::lower_text(n@) == show,
        r.season == Some(season),
        r.episode == Some(episode),
    ensures
        match matched(r, media) {
            Some(m) => {
                &&& media.contains(m)
                &&& m.kind@ == "episode"@
                &&& m.show_title_lc matches Some(t) && t@ == show
                &&& m.season_number == Some(season)
                &&& m.episode_number == Some(episode)
            },
            None => forall|i: int|
                0 <= i < media.len() ==> !((#[trigger] media[i]).kind@ == "episode"@
                    && types::opt_text(media[i].show_title_lc) == Some(show)
                    && media[i].season_number == Some(season) && media[i].episode_number == Some(
                    episode,
                )),
        },
{
    last_episode_is_one(media, show, season, episode);
    if matched(r, media) is None {
        assert forall|i: int| 0 <= i < media.len() implies !((#[trigger] media[i]).kind@
            == "episode"@ && types::opt_text(media[i].show_title_lc) == Some(show)
            && media[i].season_number == Some(season) && media[i].episode_number == Some(
            episode,
        )) by {
            assert(!is_that_episode(media[i], show, season, episode));
        }
    }
}

/// A movie is matched with one of its title: one of its year too where there is one. It is not
/// matched only where no movie has the title.
pub proof fn movies_match_by_title_and_year(r: JfWatch, media: Seq<BfMedia>, title: Seq<char>)
    requires
        r.kind@ == "MediaBrowser.Controller.Entities.Movies.Movie"@,
        r.name matches Some(n) && text::lower_text(n@) == title,
    ensures
        match matched(r, media) {
            Some(m) => {
                &&& media.contains(m)
                &&& m.kind@ == "movie"@
                &&& m.title_lc@ == title
                &&& r.year is Some && m.year != r.year ==> forall|i: int|
                    0 <= i < media.len() ==> !((#[trigger] media[i]).kind@ == "movie"@
                        && media[i].title_lc@ == title && media[i].year == r.year)
            },
            None => forall|i: int|
                0 <= i < media.len() ==> !((#[trigger] media[i]).kind@ == "movie"@
                    && media[i].title_lc@ == title),
        },
{
    types_differ();
    first_titled_is_one(media, title);
    if let Some(y) = r.year {
        last_movie_is_one(media, title, y);
        if last_movie(media, title, y) is None {
            assert forall|i: int| 0 <= i < media.len() implies !((#[trigger] media[i]).kind@
                == "movie"@ && media[i].title_lc@ == title && media[i].year == r.year) by {
                assert(!is_that_movie(media[i], title, y));
            }
        }
    }
    if matched(r, media) is None {
        assert forall|i: int| 0 <= i < media.len() implies !((#[trigger] media[i]).kind@ == "movie"@
            && media[i].title_lc@ == title) by {
            assert(!is_titled(media[i], title));
        }
    }
}

/// What is taken over of a row keeps how far it was watched, unless it was watched in full
/// without a position: then all of it was. A minute has six hundred million ticks.
pub proof fn position_is_taken_over(r: JfWatch, m: BfMedia, updated_at: i64)
    ensures
        ({
            let p = planned_row(r, m, updated_at);
            let d = p.duration_ticks;
            &&& p.media_id == m.id@
            &&& p.updated_at == updated_at
            &&& r.runtime_ticks matches Some(t) ==> t > 0 ==> d == t
            &&& (r.runtime_ticks is None || r.runtime_ticks->0 <= 0) ==> d == match m.runtime_minutes {
                Some(x) => x * 600_000_000,
                None => 0,
            }
            &&& p.completed <==> r.played != 0 || (d > 0 && (d - r.position_ticks) * 10 < d)
            &&& r.position_ticks > 0 || !p.completed || d <= 0 ==> p.position_ticks
                == r.position_ticks
            &&& r.position_ticks <= 0 && p.completed && d > 0 ==> p.position_ticks == d
        }),
{
}

/// Rows are taken over one by one, in their order.
pub proof fn rows_are_taken_over_in_order(a: Seq<JfWatch>, b: Seq<JfWatch>, media: Seq<BfMedia>, now: i64)
    ensures
        all_planned(a + b, media, now) == all_planned(a, media, now) + all_planned(b, media, now),
        all_unmatched(a + b, media) == all_unmatched(a, media) + all_unmatched(b, media),
    decreases b.len(),
{
    if b.len() == 0 {
        assert(a + b =~= a);
        assert(all_planned(a + b, media, now) =~= all_planned(a, media, now) + all_planned(
            b,
            media,
            now,
        ));
        assert(all_unmatched(a + b, media) =~= all_unmatched(a, media) + all_unmatched(b, media));
    } else {
        rows_are_taken_over_in_order(a, b.drop_last(), media, now);
        assert((a + b).drop_last() =~= a + b.drop_last());
        assert(all_planned(a + b, media, now) =~= all_planned(a, media, now) + all_planned(
            b,
            media,
            now,
        ));
        assert(all_unmatched(a + b, media) =~= all_unmatched(a, media) + all_unmatched(b, media));
    }
}

/// What is not stored is put in; what is stored is replaced by what was watched later, and by
/// nothing else.
pub proof fn later_replaces_earlier(stored: i64, updated_at: i64)
    ensures
        effect_of(None, updated_at) == Effect::Insert,
        effect_of(Some(stored), updated_at) == Effect::Overwrite <==> updated_at > stored,
        effect_of(Some(stored), updated_at) == Effect::Skip <==> updated_at <= stored,
{
}

/// Someone who is told by a long name is told by its first eight characters.
pub proof fn long_names_are_cut(sub: Seq<char>)
    requires
        forall|i: int| 0 <= i < sub.len() ==> text::is_ascii_char(#[trigger] sub[i]),
    ensures
        sub.len() > 8 ==> shortened(sub) == sub.take(8) + "…"@,
        sub.len() <= 8 ==> shortened(sub) == sub,
{
    text::ascii_prefix_is_by_character(sub, sub.len());
    text::prefix_fits_and_is_longest(sub, sub.len());
    assert(sub.take(sub.len() as int) =~= sub);
    if sub.len() > 8 {
        text::ascii_prefix_is_by_character(sub, 8);
    }
}

/// What was played counts as watched, and what was not only from beyond nine tenths on.
pub proof fn played_counts_as_watched(played: i64, position: int, duration: int)
    ensures
        played != 0 ==> is_watched(played, position, duration),
        duration <= 0 ==> !is_watched(0, position, duration),
        duration > 0 ==> (is_watched(0, position, duration) <==> position * 10 > duration * 9),
{
}

/// The developer's own account is among those that can be chosen, once.
pub proof fn developer_can_be_chosen(subs: Seq<Seq<char>>, sub: Seq<char>)
    ensures
        with_dev(subs).contains("dev"@),
        sub != "dev"@ ==> (with_dev(subs).contains(sub) <==> subs.contains(sub)),
        subs.contains("dev"@) ==> with_dev(subs) == subs,
        !subs.contains("dev"@) ==> with_dev(subs).len() == subs.len() + 1,
{
    let w = with_dev(subs);
    if !subs.contains("dev"@) {
        assert(w[0] == "dev"@);
        assert forall|i: int| 0 <= i < subs.len() implies w[i + 1] == subs[i] by {}
        if subs.contains(sub) {
            let i = choose|i: int| 0 <= i < subs.len() && subs[i] == sub;
            assert(w[i + 1] == sub);
        }
        if sub != "dev"@ && w.contains(sub) {
            let i = choose|i: int| 0 <= i < w.len() && w[i] == sub;
            assert(subs[i - 1] == sub);
        }
    }
}

/// What was not found is listed in part: a heading, as many lines as there are, the sample
/// size at most, and how many more there are.
pub proof fn unmatched_are_listed_in_part(unmatched: Seq<Seq<char>>, i: int)
    ensures
        unmatched.len() == 0 ==> sample_lines(unmatched).len() == 0,
        0 <= i < unmatched.len() && i < SAMPLE_SIZE ==> sample_lines(unmatched)[i + 1] == "  - "@
            + unmatched[i],
        0 < unmatched.len() <= SAMPLE_SIZE ==> sample_lines(unmatched).len() == unmatched.len() + 1,
        unmatched.len() > SAMPLE_SIZE ==> sample_lines(unmatched).last() == "  … "@ + text::decimal(
            (unmatched.len() - SAMPLE_SIZE) as nat,
        ) + " more"@,
{
}

} // verus!
