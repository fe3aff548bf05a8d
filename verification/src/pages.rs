//! What stands on the pages of the player.

use crate::library::{EpisodeSummary, LibraryResponse, Media, ShowResponse, ShowSummary};
use crate::scanner::progress::ScanProgress;
use crate::search::SearchParams;
use crate::text;
use crate::types;
use crate::views;
use crate::watch::ContinueItem;
use vstd::prelude::*;

verus! {

fn as_opt(s: &Option<String>) -> (r: Option<&str>)
    ensures
        types::opt_str(r) == types::opt_text(*s),
        r is Some == s is Some,
{
    match s {
        Some(t) => Some(t.as_str()),
        None => None,
    }
}

// ---- the line of facts ----

/// A rating and how many gave it.
pub open spec fn rating_part(rating: int, votes: Option<i64>) -> Seq<char> {
    "★ "@ + views::rating_text(rating) + match votes {
        Some(v) => " ("@ + views::votes_text(v as int) + ")"@,
        None => ""@,
    }
}

/// The facts and the rating of something; nothing where there are neither.
pub open spec fn facts_row(facts: Seq<char>, rating: Option<i64>, votes: Option<i64>) -> Option<
    Seq<char>,
> {
    match rating {
        Some(r) => if facts.len() > 0 {
            Some(facts + " · "@ + rating_part(r as int, votes))
        } else {
            Some(rating_part(r as int, votes))
        },
        None => if facts.len() > 0 {
            Some(facts)
        } else {
            None
        },
    }
}

/// The row of facts under a title.
pub fn meta_row(facts: String, rating: Option<i64>, votes: Option<i64>) -> (r: Option<String>)
    ensures
        types::opt_text(r) == facts_row(facts@, rating, votes),
{
    proof {
        reveal_strlit("");
    }
    let chars = text::chars_of(facts.as_str());
    let has_facts = chars.len() > 0;
    match rating {
        None => if has_facts {
            Some(facts)
        } else {
            None
        },
        Some(n) => {
            let mut out = String::new();
            if has_facts {
                out.push_str(facts.as_str());
                out.push_str(" · ");
            }
            let ghost head = out@;
            let mut part = text::own("★ ");
            part.push_str(views::format_rating(n).as_str());
            if let Some(v) = votes {
                part.push_str(" (");
                part.push_str(views::format_votes(v).as_str());
                part.push_str(")");
            }
            assert(part@ =~= rating_part(n as int, votes));
            out.push_str(part.as_str());
            assert(out@ =~= head + part@);
            assert(Some(out@) =~= facts_row(facts@, rating, votes));
            Some(out)
        },
    }
}

// ---- links ----

/// What a link says and where it leads.
pub type Link = (String, String);

pub open spec fn link_views(v: Seq<Link>) -> Seq<(Seq<char>, Seq<char>)> {
    v.map_values(|l: Link| (l.0@, l.1@))
}

/// A link, where there is something that it leads to.
pub open spec fn link_to(label: Seq<char>, url: Option<Seq<char>>) -> Seq<(Seq<char>, Seq<char>)> {
    match url {
        Some(u) => seq![(label, u)],
        None => Seq::empty(),
    }
}

fn push_link(v: &mut Vec<Link>, label: &str, url: Option<String>)
    ensures
        link_views(final(v)@) == link_views(old(v)@) + link_to(label@, types::opt_text(url)),
{
    let ghost start = link_views(v@);
    if let Some(u) = url {
        let l: Link = (text::own(label), u);
        v.push(l);
        assert(link_views(v@) =~= start.push((label@, u@)));
    }
    assert(link_views(v@) =~= start + link_to(label@, types::opt_text(url)));
}

pub open spec fn imdb_of(id: Seq<char>) -> Seq<char> {
    "https://www.imdb.com/title/"@ + id + "/"@
}

pub open spec fn tmdb_of(id: Seq<char>, tv: bool) -> Seq<char> {
    (if tv {
        "https://www.themoviedb.org/tv/"@
    } else {
        "https://www.themoviedb.org/movie/"@
    }) + id
}

pub open spec fn tvdb_of(id: Seq<char>) -> Seq<char> {
    "https://thetvdb.com/?id="@ + id + "&tab=series"@
}

/// Where more is said of something.
pub open spec fn outside_links(
    imdb: Option<Seq<char>>,
    tmdb: Option<Seq<char>>,
    tvdb: Option<Seq<char>>,
    tv: bool,
) -> Seq<(Seq<char>, Seq<char>)> {
    link_to(
        "IMDb"@,
        match imdb {
            Some(id) => Some(imdb_of(id)),
            None => None,
        },
    ) + link_to(
        "TMDb"@,
        match tmdb {
            Some(id) => Some(tmdb_of(id, tv)),
            None => None,
        },
    ) + link_to(
        "TVDB"@,
        match tvdb {
            Some(id) => Some(tvdb_of(id)),
            None => None,
        },
    )
}

/// The pages elsewhere that speak of a movie or a show.
pub fn external_links(
    imdb: Option<&str>,
    tmdb: Option<&str>,
    tvdb: Option<&str>,
    tv: bool,
) -> (r: Vec<Link>)
    ensures
        link_views(r@) == outside_links(
            types::opt_str(imdb),
            types::opt_str(tmdb),
            types::opt_str(tvdb),
            tv,
        ),
{
    let mut out: Vec<Link> = Vec::new();
    assert(link_views(out@) =~= Seq::<(Seq<char>, Seq<char>)>::empty());
    let first: Option<String> = match imdb {
        Some(id) => Some(views::imdb_url(id)),
        None => None,
    };
    push_link(&mut out, "IMDb", first);
    let second: Option<String> = match tmdb {
        Some(id) => Some(
            if tv {
                views::tmdb_tv_url(id)
            } else {
                views::tmdb_movie_url(id)
            },
        ),
        None => None,
    };
    push_link(&mut out, "TMDb", second);
    let third: Option<String> = match tvdb {
        Some(id) => Some(views::tvdb_url(id)),
        None => None,
    };
    push_link(&mut out, "TVDB", third);
    assert(link_views(out@) =~= outside_links(
        types::opt_str(imdb),
        types::opt_str(tmdb),
        types::opt_str(tvdb),
        tv,
    ));
    out
}

/// Texts that are there, in order.
pub open spec fn chips_of(a: Option<Seq<char>>, b: Option<Seq<char>>) -> Seq<Seq<char>> {
    (match a {
        Some(s) => seq![s],
        None => Seq::empty(),
    }) + match b {
        Some(s) => seq![s],
        None => Seq::empty(),
    }
}

fn chips(a: Option<&str>, b: Option<&str>) -> (r: Vec<String>)
    ensures
        types::texts(r@) == chips_of(types::opt_str(a), types::opt_str(b)),
{
    let mut out: Vec<String> = Vec::new();
    if let Some(s) = a {
        types::push_text(&mut out, s);
    }
    if let Some(s) = b {
        types::push_text(&mut out, s);
    }
    assert(types::texts(out@) =~= chips_of(types::opt_str(a), types::opt_str(b)));
    out
}

// ---- the page of a movie or an episode ----

/// The picture beside the text.
#[derive(Debug)]
pub enum Poster {
    OfShow(String),
    OfMedia(String),
    Nothing,
}

pub enum PosterView {
    OfShow(Seq<char>),
    OfMedia(Seq<char>),
    Nothing,
}

impl View for Poster {
    type V = PosterView;

    open spec fn view(&self) -> PosterView {
        match *self {
            Poster::OfShow(s) => PosterView::OfShow(s@),
            Poster::OfMedia(s) => PosterView::OfMedia(s@),
            Poster::Nothing => PosterView::Nothing,
        }
    }
}

#[derive(Debug)]
pub struct MediaPage {
    pub window_title: String,
    pub has_backdrop: bool,
    pub poster: Poster,
    pub other_title: Option<String>,
    pub facts: Option<String>,
    pub chips: Vec<String>,
    pub credits: Option<String>,
    pub links: Vec<Link>,
    /// The show that the page leads to.
    pub show: Option<String>,
    pub size: String,
}

#[verifier::ext_equal]
pub struct MediaPageView {
    pub window_title: Seq<char>,
    pub has_backdrop: bool,
    pub poster: PosterView,
    pub other_title: Option<Seq<char>>,
    pub facts: Option<Seq<char>>,
    pub chips: Seq<Seq<char>>,
    pub credits: Option<Seq<char>>,
    pub links: Seq<(Seq<char>, Seq<char>)>,
    pub show: Option<Seq<char>>,
    pub size: Seq<char>,
}

impl View for MediaPage {
    type V = MediaPageView;

    open spec fn view(&self) -> MediaPageView {
        MediaPageView {
            window_title: self.window_title@,
            has_backdrop: self.has_backdrop,
            poster: self.poster@,
            other_title: types::opt_text(self.other_title),
            facts: types::opt_text(self.facts),
            chips: types::texts(self.chips@),
            credits: types::opt_text(self.credits),
            links: link_views(self.links@),
            show: types::opt_text(self.show),
            size: self.size@,
        }
    }
}

/// A title other than the one that is shown.
pub open spec fn different(title: Seq<char>, original: Option<Seq<char>>) -> Option<Seq<char>> {
    match original {
        Some(o) => if o != title {
            Some(o)
        } else {
            None
        },
        None => None,
    }
}

/// The page of a movie or an episode.
pub open spec fn page_of_media(m: Media) -> MediaPageView {
    let episode = m.kind@ == "episode"@;
    let show = types::opt_text(m.show_id);
    MediaPageView {
        window_title: m.title@ + " — Binkflix"@,
        has_backdrop: m.has_fanart,
        poster: if episode {
            match show {
                Some(s) => PosterView::OfShow(s),
                None => PosterView::Nothing,
            }
        } else {
            PosterView::OfMedia(m.id@)
        },
        other_title: different(m.title@, types::opt_text(m.original_title)),
        facts: facts_row(
            types::join_texts(
                views::media_bits(
                    m.kind@,
                    m.season_number,
                    m.episode_number,
                    types::opt_text(m.release_date),
                    m.year,
                    m.runtime_minutes,
                ),
                " · "@,
            ),
            m.rating,
            m.rating_votes,
        ),
        chips: chips_of(types::opt_text(m.mpaa), None),
        credits: views::credits_text(types::opt_text(m.director), types::opt_text(m.writers)),
        links: outside_links(
            types::opt_text(m.imdb_id),
            types::opt_text(m.tmdb_id),
            None,
            episode,
        ),
        show: if episode {
            show
        } else {
            None
        },
        size: views::bytes_text(m.file_size as int),
    }
}

/// What the page of a movie or an episode shows.
pub fn media_page(m: &Media) -> (r: MediaPage)
    ensures
        r@ == page_of_media(*m),
{
    let episode = *m.kind.as_str() == *"episode";
    let poster = if episode {
        match &m.show_id {
            Some(s) => Poster::OfShow(text::own(s.as_str())),
            None => Poster::Nothing,
        }
    } else {
        Poster::OfMedia(text::own(m.id.as_str()))
    };
    let line = views::media_line(
        m.kind.as_str(),
        m.season_number,
        m.episode_number,
        as_opt(&m.release_date),
        m.year,
        m.runtime_minutes,
    );
    let facts = meta_row(line, m.rating, m.rating_votes);
    let show = if episode {
        types::copy_opt(&m.show_id)
    } else {
        None
    };
    let r = MediaPage {
        window_title: views::page_title(Some(m.title.as_str())),
        has_backdrop: m.has_fanart,
        poster,
        other_title: views::other_title(m.title.as_str(), as_opt(&m.original_title)),
        facts,
        chips: chips(as_opt(&m.mpaa), None),
        credits: views::credits_line(as_opt(&m.director), as_opt(&m.writers)),
        links: external_links(as_opt(&m.imdb_id), as_opt(&m.tmdb_id), None, episode),
        show,
        size: views::format_bytes(m.file_size),
    };
    assert(r@ =~= page_of_media(*m));
    r
}

// ---- the page of a show ----

#[derive(Debug)]
pub struct ShowPage {
    pub window_title: String,
    pub has_backdrop: bool,
    /// The logo stands in place of the title.
    pub has_logo: bool,
    pub other_title: Option<String>,
    pub facts: Option<String>,
    pub chips: Vec<String>,
    pub links: Vec<Link>,
    /// The number of the season whose episodes are listed.
    pub season: i64,
    /// The names of the seasons that can be picked.
    pub seasons: Vec<String>,
    /// The one of the things to go on with that belongs to the show.
    pub next: Option<usize>,
    /// The other shows under this one.
    pub banners: Vec<String>,
}

#[verifier::ext_equal]
pub struct ShowPageView {
    pub window_title: Seq<char>,
    pub has_backdrop: bool,
    pub has_logo: bool,
    pub other_title: Option<Seq<char>>,
    pub facts: Option<Seq<char>>,
    pub chips: Seq<Seq<char>>,
    pub links: Seq<(Seq<char>, Seq<char>)>,
    pub season: i64,
    pub seasons: Seq<Seq<char>>,
    pub next: Option<int>,
    pub banners: Seq<Seq<char>>,
}

impl View for ShowPage {
    type V = ShowPageView;

    open spec fn view(&self) -> ShowPageView {
        ShowPageView {
            window_title: self.window_title@,
            has_backdrop: self.has_backdrop,
            has_logo: self.has_logo,
            other_title: types::opt_text(self.other_title),
            facts: types::opt_text(self.facts),
            chips: types::texts(self.chips@),
            links: link_views(self.links@),
            season: self.season,
            seasons: types::texts(self.seasons@),
            next: match self.next {
                Some(i) => Some(i as int),
                None => None,
            },
            banners: types::texts(self.banners@),
        }
    }
}

/// The page of a show, where `picked` is the season that was picked on it.
pub open spec fn page_of_show(
    d: ShowResponse,
    picked: Option<i64>,
    going_on: Seq<ContinueItem>,
    shows: Seq<ShowSummary>,
) -> ShowPageView {
    ShowPageView {
        window_title: d.show.title@ + " — Binkflix"@,
        has_backdrop: d.show.has_fanart,
        has_logo: d.show.has_clearlogo,
        other_title: different(d.show.title@, types::opt_text(d.show.original_title)),
        facts: facts_row(
            views::show_years(
                types::opt_text(d.show.premiered_date),
                d.show.year,
                types::opt_text(d.show.end_date),
            ),
            d.show.rating,
            d.show.rating_votes,
        ),
        chips: chips_of(types::opt_text(d.show.mpaa), types::opt_text(d.show.status)),
        links: outside_links(
            types::opt_text(d.show.imdb_id),
            types::opt_text(d.show.tmdb_id),
            types::opt_text(d.show.tvdb_id),
            true,
        ),
        season: match picked {
            Some(n) => if views::has_season(d.seasons@, n) {
                n
            } else {
                views::opening_season(d.seasons@)
            },
            None => views::opening_season(d.seasons@),
        },
        seasons: d.seasons@.map_values(
            |s: crate::library::Season| views::season_name(s.number as int),
        ),
        next: views::next_of_show(going_on, d.show.id@),
        banners: views::companions(shows, d.show.id@),
    }
}

fn season_names(d: &ShowResponse) -> (r: Vec<String>)
    ensures
        types::texts(r@) == d.seasons@.map_values(
            |s: crate::library::Season| views::season_name(s.number as int),
        ),
{
    let ghost want = d.seasons@.map_values(
        |s: crate::library::Season| views::season_name(s.number as int),
    );
    let mut out: Vec<String> = Vec::new();
    let mut i: usize = 0;
    while i < d.seasons.len()
        invariant
            i <= d.seasons@.len(),
            want == d.seasons@.map_values(
                |s: crate::library::Season| views::season_name(s.number as int),
            ),
            types::texts(out@) == want.take(i as int),
        decreases d.seasons@.len() - i,
    {
        let name = views::season_label(d.seasons[i].number);
        types::push_text(&mut out, name.as_str());
        assert(want.take(i + 1) =~= want.take(i as int).push(name@));
        i += 1;
    }
    assert(want.take(i as int) =~= want);
    out
}

/// What the page of a show shows, given the season that was picked.
pub fn show_page(
    d: &ShowResponse,
    picked: Option<i64>,
    going_on: &Vec<ContinueItem>,
    shows: &Vec<ShowSummary>,
) -> (r: ShowPage)
    ensures
        r@ == page_of_show(*d, picked, going_on@, shows@),
{
    let years = views::year_text(
        as_opt(&d.show.premiered_date),
        d.show.year,
        as_opt(&d.show.end_date),
    );
    let facts = meta_row(years, d.show.rating, d.show.rating_votes);
    let r = ShowPage {
        window_title: views::page_title(Some(d.show.title.as_str())),
        has_backdrop: d.show.has_fanart,
        has_logo: d.show.has_clearlogo,
        other_title: views::other_title(d.show.title.as_str(), as_opt(&d.show.original_title)),
        facts,
        chips: chips(as_opt(&d.show.mpaa), as_opt(&d.show.status)),
        links: external_links(
            as_opt(&d.show.imdb_id),
            as_opt(&d.show.tmdb_id),
            as_opt(&d.show.tvdb_id),
            true,
        ),
        season: views::shown_season(picked, &d.seasons),
        seasons: season_names(d),
        next: views::find_next(going_on, d.show.id.as_str()),
        banners: views::banner_picks(shows, d.show.id.as_str()),
    };
    assert(r@ =~= page_of_show(*d, picked, going_on@, shows@));
    r
}

// ---- the menu of the scan button ----

#[derive(Debug)]
pub struct ScanMenu {
    pub heading: String,
    /// The lines under the heading.
    pub lines: Vec<String>,
    /// How much is done, in percent, where that is known.
    pub percent: Option<u32>,
    /// What is worked on, and how far it is.
    pub jobs: Vec<(String, String)>,
    /// What went wrong.
    pub error: Option<String>,
    /// A scan can be started.
    pub can_start: bool,
}

#[verifier::ext_equal]
pub struct ScanMenuView {
    pub heading: Seq<char>,
    pub lines: Seq<Seq<char>>,
    pub percent: Option<u32>,
    pub jobs: Seq<(Seq<char>, Seq<char>)>,
    pub error: Option<Seq<char>>,
    pub can_start: bool,
}

impl View for ScanMenu {
    type V = ScanMenuView;

    open spec fn view(&self) -> ScanMenuView {
        ScanMenuView {
            heading: self.heading@,
            lines: types::texts(self.lines@),
            percent: self.percent,
            jobs: link_views(self.jobs@),
            error: types::opt_text(self.error),
            can_start: self.can_start,
        }
    }
}

/// What is said of the last scan.
pub open spec fn last_scan(summary: Option<Seq<char>>, elapsed_ms: Option<u64>) -> Seq<Seq<char>> {
    match summary {
        Some(s) => seq!["Last scan: "@ + s] + match elapsed_ms {
            Some(ms) => seq!["Took "@ + views::elapsed_text(ms as nat)],
            None => Seq::empty(),
        },
        None => seq!["No scan run yet this session."@],
    }
}

/// How much of a scan is done.
pub open spec fn percent_of(done: nat, total: nat) -> Option<u32> {
    if total == 0 {
        None
    } else if done * 100 / total > 100 {
        Some(100)
    } else {
        Some((done * 100 / total) as u32)
    }
}

/// The menu of the scan button.
pub open spec fn menu_of(p: ScanProgress) -> ScanMenuView {
    let jobs = p.active@.map_values(
        |j: crate::scanner::progress::ActiveJob| (j.title@, j.stage@),
    );
    if p.running {
        ScanMenuView {
            heading: views::heading_of(true, p.phase@),
            lines: seq![views::counter_text(p.done as nat, p.total as nat)] + if jobs.len() == 0 {
                match p.current {
                    Some(c) => seq![c@],
                    None => Seq::empty(),
                }
            } else {
                Seq::empty()
            },
            percent: percent_of(p.done as nat, p.total as nat),
            jobs,
            error: None,
            can_start: false,
        }
    } else {
        ScanMenuView {
            heading: views::heading_of(false, p.phase@),
            lines: last_scan(types::opt_text(p.last_summary), p.last_elapsed_ms),
            percent: None,
            jobs: Seq::empty(),
            error: types::opt_text(p.message),
            can_start: true,
        }
    }
}

fn job_pairs(p: &ScanProgress) -> (r: Vec<(String, String)>)
    ensures
        link_views(r@) == p.active@.map_values(
            |j: crate::scanner::progress::ActiveJob| (j.title@, j.stage@),
        ),
{
    let ghost want = p.active@.map_values(
        |j: crate::scanner::progress::ActiveJob| (j.title@, j.stage@),
    );
    let mut out: Vec<(String, String)> = Vec::new();
    let mut i: usize = 0;
    assert(link_views(out@) =~= want.take(0));
    while i < p.active.len()
        invariant
            i <= p.active@.len(),
            want == p.active@.map_values(
                |j: crate::scanner::progress::ActiveJob| (j.title@, j.stage@),
            ),
            link_views(out@) == want.take(i as int),
        decreases p.active@.len() - i,
    {
        let ghost before = out@;
        let j = &p.active[i];
        let pair = (text::own(j.title.as_str()), text::own(j.stage.as_str()));
        out.push(pair);
        assert(link_views(out@) =~= link_views(before).push((pair.0@, pair.1@)));
        assert(want.take(i + 1) =~= want.take(i as int).push((pair.0@, pair.1@)));
        i += 1;
    }
    assert(want.take(i as int) =~= want);
    out
}

/// What the menu of the scan button shows.
pub fn scan_menu(p: &ScanProgress) -> (r: ScanMenu)
    ensures
        r@ == menu_of(*p),
{
    let mut lines: Vec<String> = Vec::new();
    if p.running {
        types::push_text(&mut lines, views::scan_counter(p.done as u64, p.total as u64).as_str());
        let jobs = job_pairs(p);
        if jobs.len() == 0 {
            if let Some(c) = &p.current {
                types::push_text(&mut lines, c.as_str());
            }
        }
        let percent = views::scan_percent(p.done as u64, p.total as u64);
        let r = ScanMenu {
            heading: text::own(views::scan_heading(true, p.phase.as_str())),
            lines,
            percent,
            jobs,
            error: None,
            can_start: false,
        };
        assert(r@ =~= menu_of(*p));
        r
    } else {
        match &p.last_summary {
            Some(s) => {
                let mut line = text::own("Last scan: ");
                line.push_str(s.as_str());
                types::push_text(&mut lines, line.as_str());
                if let Some(ms) = p.last_elapsed_ms {
                    let mut took = text::own("Took ");
                    took.push_str(views::format_elapsed(ms).as_str());
                    types::push_text(&mut lines, took.as_str());
                }
            },
            None => {
                types::push_text(&mut lines, "No scan run yet this session.");
            },
        }
        let jobs: Vec<(String, String)> = Vec::new();
        let r = ScanMenu {
            heading: text::own(views::scan_heading(false, p.phase.as_str())),
            lines,
            percent: None,
            jobs,
            error: types::copy_opt(&p.message),
            can_start: true,
        };
        assert(r@ =~= menu_of(*p));
        r
    }
}

// ---- an episode in a list ----

#[derive(Debug)]
pub struct EpisodeCard {
    pub heading: String,
    /// How long it takes and when it came out, as far as that is known.
    pub line: Option<String>,
    /// How far it was watched, in millionths.
    pub bar: Option<u32>,
    /// Whether it can be marked as watched.
    pub can_mark: bool,
}

#[verifier::ext_equal]
pub struct EpisodeCardView {
    pub heading: Seq<char>,
    pub line: Option<Seq<char>>,
    pub bar: Option<int>,
    pub can_mark: bool,
}

impl View for EpisodeCard {
    type V = EpisodeCardView;

    open spec fn view(&self) -> EpisodeCardView {
        EpisodeCardView {
            heading: self.heading@,
            line: types::opt_text(self.line),
            bar: match self.bar {
                Some(n) => Some(n as int),
                None => None,
            },
            can_mark: self.can_mark,
        }
    }
}

/// How an episode is shown in the list of its season.
pub open spec fn card_of_episode(e: EpisodeSummary) -> EpisodeCardView {
    let released = types::opt_text(e.release_date);
    EpisodeCardView {
        heading: views::tag_text(e.season_number as int, e.episode_number as int) + " · "@
            + e.title@,
        line: if e.runtime_minutes is None && released is None {
            None
        } else {
            Some(
                types::join_texts(
                    views::runtime_bits(e.runtime_minutes) + views::date_bits(released),
                    " · "@,
                ),
            )
        },
        bar: views::bar_length(e.position_us as int, e.duration_us as int, e.completed != 0),
        can_mark: e.completed == 0,
    }
}

/// How an episode is shown in a list.
pub fn episode_card(e: &EpisodeSummary) -> (r: EpisodeCard)
    ensures
        r@ == card_of_episode(*e),
{
    let mut heading = views::episode_tag(e.season_number, e.episode_number);
    heading.push_str(" · ");
    heading.push_str(e.title.as_str());
    let line = if e.runtime_minutes.is_none() && e.release_date.is_none() {
        None
    } else {
        Some(views::episode_line(e.runtime_minutes, as_opt(&e.release_date)))
    };
    let r = EpisodeCard {
        heading,
        line,
        bar: views::progress_bar(e.position_us, e.duration_us, e.completed != 0),
        can_mark: e.completed == 0,
    };
    assert(r@ =~= card_of_episode(*e));
    r
}

// ---- the first page ----

/// The parts of the first page.
#[derive(Debug, Clone, Copy, PartialEq, Eq, Structural)]
pub enum HomePart {
    Empty,
    ContinueWatching,
    RecentlyAdded,
    Shows,
    Movies,
}

/// One part, where there is something in it.
pub open spec fn part_if(n: nat, part: HomePart) -> Seq<HomePart> {
    if n > 0 {
        seq![part]
    } else {
        Seq::empty()
    }
}

/// The parts of the first page, given how much there is of each.
pub open spec fn parts_of(movies: nat, shows: nat, recent: nat, going_on: nat) -> Seq<HomePart> {
    if movies == 0 && shows == 0 {
        seq![HomePart::Empty]
    } else {
        part_if(going_on, HomePart::ContinueWatching) + part_if(recent, HomePart::RecentlyAdded)
            + part_if(shows, HomePart::Shows) + part_if(movies, HomePart::Movies)
    }
}

/// The parts of the first page, in order: only a word where the library is empty.
pub fn home_parts(lib: &LibraryResponse, going_on: usize) -> (r: Vec<HomePart>)
    ensures
        r@ == parts_of(
            lib.movies@.len(),
            lib.shows@.len(),
            lib.recently_added@.len(),
            going_on as nat,
        ),
{
    let mut out: Vec<HomePart> = Vec::new();
    if lib.movies.len() == 0 && lib.shows.len() == 0 {
        out.push(HomePart::Empty);
        return out;
    }
    if going_on > 0 {
        out.push(HomePart::ContinueWatching);
    }
    if lib.recently_added.len() > 0 {
        out.push(HomePart::RecentlyAdded);
    }
    if lib.shows.len() > 0 {
        out.push(HomePart::Shows);
    }
    if lib.movies.len() > 0 {
        out.push(HomePart::Movies);
    }
    out
}

// ---- the search page ----

/// How many results the search page asks for.
pub const PAGE_LIMIT: i64 = 120;

/// What is set on the search page.
#[derive(Debug)]
pub struct Filters {
    pub kind: String,
    pub year_min: Option<i64>,
    pub year_max: Option<i64>,
    pub genres: Vec<String>,
    pub watched: String,
    pub sort: String,
}

#[verifier::ext_equal]
pub struct FiltersView {
    pub kind: Seq<char>,
    pub year_min: Option<i64>,
    pub year_max: Option<i64>,
    pub genres: Seq<Seq<char>>,
    pub watched: Seq<char>,
    pub sort: Seq<char>,
}

impl View for Filters {
    type V = FiltersView;

    open spec fn view(&self) -> FiltersView {
        FiltersView {
            kind: self.kind@,
            year_min: self.year_min,
            year_max: self.year_max,
            genres: types::texts(self.genres@),
            watched: self.watched@,
            sort: self.sort@,
        }
    }
}

/// Nothing is set.
pub open spec fn no_filters() -> FiltersView {
    FiltersView {
        kind: ""@,
        year_min: None,
        year_max: None,
        genres: Seq::empty(),
        watched: "any"@,
        sort: "title"@,
    }
}

/// How many of the filters are set.
pub open spec fn filters_set(f: FiltersView) -> nat {
    views::set_filters(
        f.kind,
        f.year_min is Some,
        f.year_max is Some,
        f.genres.len(),
        f.watched,
        f.sort,
    )
}

impl Filters {
    /// No filter is set.
    pub fn new() -> (r: Self)
        ensures
            r@ == no_filters(),
    {
        let r = Filters {
            kind: text::own(""),
            year_min: None,
            year_max: None,
            genres: Vec::new(),
            watched: text::own("any"),
            sort: text::own("title"),
        };
        assert(r@ =~= no_filters());
        r
    }

    /// Takes back everything that is set.
    pub fn clear(&mut self)
        ensures
            final(self)@ == no_filters(),
    {
        *self = Filters::new();
    }

    /// How many filters are set.
    pub fn active(&self) -> (r: u32)
        ensures
            r == filters_set(self@),
    {
        views::active_filters(
            self.kind.as_str(),
            self.year_min,
            self.year_max,
            &self.genres,
            self.watched.as_str(),
            self.sort.as_str(),
        )
    }

    /// What is asked for with a text and these filters.
    pub fn params(&self, q: &str) -> (r: SearchParams)
        ensures
            types::opt_text(r.q) == Some(q@),
            types::opt_text(r.kind) == Some(self@.kind),
            r.year_min == self.year_min,
            r.year_max == self.year_max,
            types::texts(r.genres@) == self@.genres,
            types::opt_text(r.watched) == Some(self@.watched),
            types::opt_text(r.sort) == Some(self@.sort),
            r.limit == Some(PAGE_LIMIT),
            r.offset is None,
    {
        SearchParams {
            q: Some(text::own(q)),
            kind: Some(text::own(self.kind.as_str())),
            year_min: self.year_min,
            year_max: self.year_max,
            genres: types::copy_texts(&self.genres),
            watched: Some(text::own(self.watched.as_str())),
            sort: Some(text::own(self.sort.as_str())),
            limit: Some(PAGE_LIMIT),
            offset: None,
        }
    }

    /// Sets or takes back a genre.
    pub fn toggle_genre(&mut self, genre: &str)
        ensures
            final(self)@ == (FiltersView {
                genres: views::toggled(old(self)@.genres, genre@),
                ..old(self)@
            }),
    {
        views::toggle_genre(&mut self.genres, genre);
        assert(self@ =~= FiltersView {
            genres: views::toggled(old(self)@.genres, genre@),
            ..old(self)@
        });
    }
}

/// Nothing is set on a page that was cleared.
pub proof fn cleared_has_none()
    ensures
        filters_set(no_filters()) == 0,
{
    reveal_strlit("");
}

/// What stands where the results belong.
#[derive(Debug)]
pub enum Results {
    Message(String),
    /// The headings over the shows and the movies that were found.
    Found { shows: Option<String>, movies: Option<String> },
}

pub enum ResultsView {
    Message(Seq<char>),
    Found { shows: Option<Seq<char>>, movies: Option<Seq<char>> },
}

impl View for Results {
    type V = ResultsView;

    open spec fn view(&self) -> ResultsView {
        match *self {
            Results::Message(s) => ResultsView::Message(s@),
            Results::Found { shows, movies } => ResultsView::Found {
                shows: types::opt_text(shows),
                movies: types::opt_text(movies),
            },
        }
    }
}

/// How much a search has found.
#[derive(Debug, Clone, Copy)]
pub struct Found {
    pub shows: usize,
    pub movies: usize,
    pub total_shows: i64,
    pub total_movies: i64,
}

/// What stands where the results belong: nothing yet, an error, a word where nothing was
/// found, or what was.
pub open spec fn results_of(
    answer: Option<Result<Found, String>>,
    query: Seq<char>,
    filters: nat,
) -> ResultsView {
    match answer {
        None => ResultsView::Message("Searching…"@),
        Some(Err(e)) => ResultsView::Message("Search failed: "@ + e@),
        Some(Ok(f)) => if f.shows == 0 && f.movies == 0 {
            if text::trimmed(query).len() == 0 && filters == 0 {
                ResultsView::Message("Start typing or open Filters to browse the library."@)
            } else {
                ResultsView::Message("No matches."@)
            }
        } else {
            ResultsView::Found {
                shows: if f.shows > 0 {
                    Some("Shows ("@ + text::decimal_int(f.total_shows as int) + ")"@)
                } else {
                    None
                },
                movies: if f.movies > 0 {
                    Some("Movies ("@ + text::decimal_int(f.total_movies as int) + ")"@)
                } else {
                    None
                },
            }
        },
    }
}

fn counted(name: &str, n: i64) -> (r: String)
    ensures
        r@ == name@ + " ("@ + text::decimal_int(n as int) + ")"@,
{
    let mut out = text::own(name);
    out.push_str(" (");
    text::push_i64(&mut out, n);
    out.push_str(")");
    out
}

/// What is shown of an answer to a search.
pub fn search_results(answer: &Option<Result<Found, String>>, query: &str, filters: &Filters) -> (r:
    Results)
    ensures
        r@ == results_of(*answer, query@, filters_set(filters@)),
{
    match answer {
        None => Results::Message(text::own("Searching…")),
        Some(Err(e)) => {
            let mut out = text::own("Search failed: ");
            out.push_str(e.as_str());
            Results::Message(out)
        },
        Some(Ok(f)) => if f.shows == 0 && f.movies == 0 {
            Results::Message(text::own(views::nothing_found(query, filters.active())))
        } else {
            proof {
                reveal_strlit("Shows (");
                reveal_strlit("Shows");
                reveal_strlit("Movies (");
                reveal_strlit("Movies");
                reveal_strlit(" (");
                assert("Shows"@ + " ("@ =~= "Shows ("@);
                assert("Movies"@ + " ("@ =~= "Movies ("@);
            }
            let shows = if f.shows > 0 {
                Some(counted("Shows", f.total_shows))
            } else {
                None
            };
            let movies = if f.movies > 0 {
                Some(counted("Movies", f.total_movies))
            } else {
                None
            };
            Results::Found { shows, movies }
        },
    }
}

// ---- further laws ----

/// A scan can be started where none runs, and only there; while one runs, how far it has come
/// is told in whole percent of what is known.
pub proof fn scans_start_where_none_runs(p: ScanProgress)
    ensures
        menu_of(p).can_start == !p.running,
        p.running ==> menu_of(p).percent == percent_of(p.done as nat, p.total as nat),
        !p.running ==> menu_of(p).percent is None,
        p.running ==> menu_of(p).error is None,
        !p.running ==> menu_of(p).error == types::opt_text(p.message),
        menu_of(p).jobs.len() == if p.running {
            p.active@.len()
        } else {
            0
        },
{
}

/// Percent are whole hundredths of the total, rounded down, and never more than a hundred.
pub proof fn percent_are_hundredths(done: nat, total: nat)
    ensures
        total == 0 ==> percent_of(done, total) is None,
        total > 0 && done >= total ==> percent_of(done, total) == Some(100u32),
        total > 0 && done < total ==> {
            let p = percent_of(done, total)->0;
            &&& percent_of(done, total) is Some
            &&& p * total <= done * 100
            &&& done * 100 < (p + 1) * total
        },
{
    if total > 0 {
        let x = (done * 100) as int;
        let t = total as int;
        vstd::arithmetic::div_mod::lemma_fundamental_div_mod(x, t);
        vstd::arithmetic::div_mod::lemma_mod_bound(x, t);
        let q = x / t;
        assert(t * q == q * t) by (nonlinear_arith);
        assert((q + 1) * t == q * t + t) by (nonlinear_arith);
        if done >= total {
            assert(q >= 100) by (nonlinear_arith)
                requires
                    (q + 1) * t > x,
                    x >= 100 * t,
                    t > 0,
            ;
        } else {
            assert(q <= 99) by (nonlinear_arith)
                requires
                    q * t <= x,
                    x < 100 * t,
                    t > 0,
            ;
            assert(q >= 0) by (nonlinear_arith)
                requires
                    (q + 1) * t > x,
                    x >= 0,
                    t > 0,
            ;
        }
    }
}

/// The page of an episode leads to its show and bears the show's picture; that of a movie leads
/// to none and bears its own. Links lead where an id is known, and nowhere else.
pub proof fn episodes_lead_to_their_show(m: Media)
    ensures
        ({
            let p = page_of_media(m);
            let episode = m.kind@ == "episode"@;
            &&& episode ==> p.show == types::opt_text(m.show_id)
            &&& !episode ==> p.show is None && p.poster == PosterView::OfMedia(m.id@)
            &&& episode && m.show_id is Some ==> p.poster == PosterView::OfShow((m.show_id->0)@)
            &&& p.links.len() == (if m.imdb_id is Some {
                1int
            } else {
                0
            }) + (if m.tmdb_id is Some {
                1int
            } else {
                0
            })
            &&& m.imdb_id is Some ==> p.links[0] == ("IMDb"@, "https://www.imdb.com/title/"@ + (
            m.imdb_id->0)@ + "/"@)
            &&& m.imdb_id is None && m.tmdb_id is Some && !episode ==> p.links[0] == (
                "TMDb"@,
                "https://www.themoviedb.org/movie/"@ + (m.tmdb_id->0)@,
            )
            &&& p.other_title is Some ==> p.other_title == types::opt_text(m.original_title)
                && p.other_title != Some(m.title@)
        }),
{
}

/// What was found is counted under its heading; where nothing was, a word is said instead.
pub proof fn results_are_counted(f: Found, query: Seq<char>, filters: nat)
    ensures
        results_of(Some(Ok(f)), query, filters) is Found <==> f.shows > 0 || f.movies > 0,
        results_of(Some(Ok(f)), query, filters) matches ResultsView::Found { shows, movies } ==> {
            &&& shows is Some == (f.shows > 0)
            &&& movies is Some == (f.movies > 0)
            &&& shows matches Some(t) ==> t == "Shows ("@ + text::decimal_int(f.total_shows as int)
                + ")"@
            &&& movies matches Some(t) ==> t == "Movies ("@ + text::decimal_int(
                f.total_movies as int,
            ) + ")"@
        },
        results_of(None, query, filters) is Message,
{
}

/// Facts and rating stand in one row, with a dot between them where both are known; without
/// either there is no row.
pub proof fn facts_and_rating_share_a_row(facts: Seq<char>, rating: i64, votes: Option<i64>)
    ensures
        facts.len() > 0 ==> facts_row(facts, Some(rating), votes) == Some(
            facts + " · "@ + rating_part(rating as int, votes),
        ),
        facts.len() > 0 ==> facts_row(facts, None, votes) == Some(facts),
        facts_row(Seq::empty(), Some(rating), votes) == Some(rating_part(rating as int, votes)),
        facts_row(Seq::empty(), None, votes) is None,
{
}

/// The first page has a part for everything that there is something of, and no other, what to
/// go on with first and the movies last; an empty library has a word alone.
pub proof fn first_page_has_what_there_is(movies: nat, shows: nat, recent: nat, going_on: nat)
    ensures
        ({
            let p = parts_of(movies, shows, recent, going_on);
            let empty = movies == 0 && shows == 0;
            &&& empty ==> p == seq![HomePart::Empty]
            &&& !empty ==> {
                &&& p.len() > 0
                &&& going_on > 0 ==> p[0] == HomePart::ContinueWatching
                &&& going_on == 0 && recent > 0 ==> p[0] == HomePart::RecentlyAdded
                &&& movies > 0 ==> p.last() == HomePart::Movies
                &&& movies == 0 ==> p.last() == HomePart::Shows
                &&& p.len() == (if going_on > 0 {
                    1int
                } else {
                    0
                }) + (if recent > 0 {
                    1int
                } else {
                    0
                }) + (if shows > 0 {
                    1int
                } else {
                    0
                }) + (if movies > 0 {
                    1int
                } else {
                    0
                })
            }
        }),
{
}

/// The page of a show opens at the season that was picked where the show has it, and otherwise
/// where it would open without one; it tells of the show itself and lists every season.
pub proof fn picked_seasons_are_opened(
    d: ShowResponse,
    n: i64,
    i: int,
    going_on: Seq<ContinueItem>,
    shows: Seq<ShowSummary>,
)
    requires
        0 <= i < d.seasons@.len(),
    ensures
        ({
            let p = page_of_show(d, Some(n), going_on, shows);
            let opened = page_of_show(d, None, going_on, shows);
            &&& page_of_show(d, Some(d.seasons@[i].number), going_on, shows).season
                == d.seasons@[i].number
            &&& (forall|k: int| 0 <= k < d.seasons@.len() ==> (#[trigger] d.seasons@[k]).number != n)
                ==> p.season == opened.season
            &&& p.seasons.len() == d.seasons@.len()
            &&& p.seasons[i] == views::season_name(d.seasons@[i].number as int)
            &&& p.has_backdrop == d.show.has_fanart
            &&& p.has_logo == d.show.has_clearlogo
            &&& p.window_title == d.show.title@ + " — Binkflix"@
            &&& p.other_title matches Some(o) ==> o != d.show.title@
        }),
{
    assert(views::has_season(d.seasons@, d.seasons@[i].number));
}

/// The card of an episode starts with its season and number, has a full bar once the episode
/// is watched, and can then no longer be marked.
pub proof fn watched_episodes_have_a_full_bar(e: EpisodeSummary)
    ensures
        ({
            let c = card_of_episode(e);
            &&& c.can_mark <==> e.completed == 0
            &&& c.bar == views::bar_length(
                e.position_us as int,
                e.duration_us as int,
                !c.can_mark,
            )
            &&& c.heading == "S"@ + text::padded_int(e.season_number as int, 2) + "E"@
                + text::padded_int(e.episode_number as int, 2) + " · "@ + e.title@
            &&& c.line is None <==> e.runtime_minutes is None && e.release_date is None
        }),
{
}

/// Each of the three places outside is linked to by its own number for the show or film.
pub proof fn links_lead_to_the_entry(imdb: Seq<char>, tmdb: Seq<char>, tvdb: Seq<char>, tv: bool)
    ensures
        ({
            let l = outside_links(Some(imdb), Some(tmdb), Some(tvdb), tv);
            &&& l.len() == 3
            &&& l[0] == ("IMDb"@, "https://www.imdb.com/title/"@ + imdb + "/"@)
            &&& tv ==> l[1] == ("TMDb"@, "https://www.themoviedb.org/tv/"@ + tmdb)
            &&& !tv ==> l[1] == ("TMDb"@, "https://www.themoviedb.org/movie/"@ + tmdb)
            &&& l[2] == ("TVDB"@, "https://thetvdb.com/?id="@ + tvdb + "&tab=series"@)
        }),
        outside_links(None, None, None, tv).len() == 0,
{
}

/// While a scan runs, the menu shows how far it has come and what it works on, or the one file
/// where no work is told of; where none runs, one can be started.
pub proof fn menu_shows_the_scan(p: ScanProgress)
    ensures
        menu_of(p).can_start <==> !p.running,
        p.running ==> menu_of(p).lines[0] == views::counter_text(p.done as nat, p.total as nat),
        p.running ==> menu_of(p).jobs.len() == p.active@.len(),
        p.running && p.active@.len() > 0 ==> menu_of(p).lines.len() == 1,
        p.running && p.active@.len() == 0 ==> (p.current matches Some(c) ==> menu_of(p).lines.len()
            == 2 && menu_of(p).lines[1] == c@),
        !p.running ==> menu_of(p).jobs.len() == 0 && menu_of(p).percent is None,
        !p.running ==> (p.message matches Some(e) ==> menu_of(p).error == Some(e@)),
        p.running ==> menu_of(p).error is None,
{
}

} // verus!
