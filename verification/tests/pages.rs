use binkflix::library::{
    group_seasons, media_fanart, media_image, room_item, season_poster, shown_genres,
    EpisodeSummary, LibraryResponse, Media, MovieSummary, Picture, Show, ShowResponse, ShowSummary,
};
use binkflix::pages::{
    episode_card, home_parts, media_page, scan_menu, search_results, show_page, Filters, Found,
    HomePart, Poster, Results,
};
use binkflix::scanner::progress::{ActiveJob, ScanProgress};
use binkflix::syncplay::RoomState;

fn episode(season_number: i64, episode_number: i64) -> EpisodeSummary {
    EpisodeSummary {
        id: format!("{season_number}-{episode_number}"),
        season_number,
        episode_number,
        title: String::new(),
        plot: None,
        runtime_minutes: None,
        release_date: None,
        position_us: 0,
        duration_us: 0,
        completed: 0,
    }
}

fn media(kind: &str) -> Media {
    Media {
        id: "m1".into(),
        kind: kind.into(),
        title: "The Matrix".into(),
        original_title: Some("The Matrix".into()),
        year: Some(1999),
        plot: None,
        runtime_minutes: Some(136),
        imdb_id: Some("tt0133093".into()),
        tmdb_id: Some("603".into()),
        file_size: 1 << 30,
        show_id: None,
        season_number: None,
        episode_number: None,
        has_fanart: true,
        rating: Some(8_700_000),
        rating_votes: Some(1_900_000),
        rating_source: None,
        mpaa: Some("R".into()),
        studio: None,
        tagline: None,
        release_date: None,
        director: Some("The Wachowskis".into()),
        writers: None,
        genres: vec![],
    }
}

#[test]
fn the_page_of_a_movie() {
    let p = media_page(&media("movie"));
    assert_eq!(p.window_title, "The Matrix — Binkflix");
    assert!(p.has_backdrop);
    assert!(matches!(p.poster, Poster::OfMedia(id) if id == "m1"));
    assert_eq!(p.other_title, None);
    assert_eq!(p.facts.as_deref(), Some("1999 · 136 min · ★ 8.7 (1.9M)"));
    assert_eq!(p.chips, vec!["R"]);
    assert_eq!(p.credits.as_deref(), Some("Directed by The Wachowskis"));
    assert_eq!(
        p.links,
        vec![
            ("IMDb".to_string(), "https://www.imdb.com/title/tt0133093/".to_string()),
            ("TMDb".to_string(), "https://www.themoviedb.org/movie/603".to_string()),
        ]
    );
    assert_eq!(p.show, None);
    assert_eq!(p.size, "1.00 GB");
}

#[test]
fn the_page_of_an_episode() {
    let mut m = media("episode");
    m.show_id = Some("s1".into());
    m.season_number = Some(1);
    m.episode_number = Some(2);
    m.rating = None;
    let p = media_page(&m);
    assert!(matches!(&p.poster, Poster::OfShow(id) if id == "s1"));
    assert_eq!(p.facts.as_deref(), Some("S01E02 · 136 min"));
    assert_eq!(p.links[1].1, "https://www.themoviedb.org/tv/603");
    assert_eq!(p.show.as_deref(), Some("s1"));
    m.show_id = None;
    assert!(matches!(media_page(&m).poster, Poster::Nothing));
}

fn show() -> Show {
    Show {
        id: "s1".into(),
        title: "Breaking Bad".into(),
        original_title: Some("BB".into()),
        year: Some(2008),
        plot: None,
        imdb_id: None,
        tmdb_id: Some("1396".into()),
        tvdb_id: Some("81189".into()),
        has_clearlogo: true,
        has_fanart: false,
        has_banner: true,
        rating: None,
        rating_votes: None,
        rating_source: None,
        mpaa: None,
        studio: None,
        premiered_date: Some("2008-01-20".into()),
        end_date: Some("2013-09-29".into()),
        status: Some("Ended".into()),
        genres: vec![],
    }
}

#[test]
fn the_page_of_a_show() {
    let d = ShowResponse {
        show: show(),
        seasons: group_seasons(vec![episode(0, 1), episode(1, 1), episode(1, 2), episode(2, 1)]),
    };
    let others = vec![ShowSummary {
        id: "s2".into(),
        title: "Better Call Saul".into(),
        year: None,
        episode_count: 1,
        has_banner: true,
    }];
    let p = show_page(&d, None, &vec![], &others);
    assert_eq!(p.window_title, "Breaking Bad — Binkflix");
    assert!(p.has_logo && !p.has_backdrop);
    assert_eq!(p.other_title.as_deref(), Some("BB"));
    assert_eq!(p.facts.as_deref(), Some("2008 – 2013"));
    assert_eq!(p.chips, vec!["Ended"]);
    assert_eq!(p.links.len(), 2);
    assert_eq!(p.links[1].0, "TVDB");
    assert_eq!(p.season, 1);
    assert_eq!(p.seasons, vec!["Specials", "Season 1", "Season 2"]);
    assert_eq!(p.next, None);
    assert_eq!(p.banners, vec!["s2"]);
    assert_eq!(show_page(&d, Some(2), &vec![], &others).season, 2);
}

#[test]
fn episodes_that_follow_one_another_share_a_season() {
    let v = group_seasons(vec![episode(1, 1), episode(1, 2), episode(2, 1), episode(1, 3)]);
    let numbers: Vec<(i64, usize)> = v.iter().map(|s| (s.number, s.episodes.len())).collect();
    assert_eq!(numbers, vec![(1, 2), (2, 1), (1, 1)]);
    let ids: Vec<&str> = v.iter().flat_map(|s| s.episodes.iter().map(|e| e.id.as_str())).collect();
    assert_eq!(ids, vec!["1-1", "1-2", "2-1", "1-3"]);
    assert!(group_seasons(vec![]).is_empty());
}

#[test]
fn pictures_fall_back() {
    let text = |s: &str| Some(s.to_string());
    assert!(matches!(media_image(text("a.jpg"), true), Picture::File(p) if p == "a.jpg"));
    assert!(matches!(media_image(None, true), Picture::Thumbnail));
    assert!(matches!(media_image(None, false), Picture::Missing));
    assert!(matches!(media_fanart(text("f"), text("s"), text("a"), true), Picture::File(p) if p == "f"));
    assert!(matches!(media_fanart(None, text("s"), text("a"), true), Picture::File(p) if p == "s"));
    assert!(matches!(media_fanart(None, None, text("a"), true), Picture::File(p) if p == "a"));
    assert!(matches!(media_fanart(None, None, None, false), Picture::Missing));
}

#[test]
fn genres_fall_back_to_those_of_the_show() {
    let g = |v: &[&str]| v.iter().map(|s| s.to_string()).collect::<Vec<_>>();
    assert_eq!(shown_genres(g(&["Drama"]), Some(g(&["Crime"]))), vec!["Drama"]);
    assert_eq!(shown_genres(vec![], Some(g(&["Crime"]))), vec!["Crime"]);
    assert!(shown_genres(vec![], None).is_empty());
}

#[test]
fn posters_of_seasons() {
    let files = vec!["/tv/show/season1-poster.png".to_string(), "/tv/show/season-specials-poster.jpg".to_string()];
    assert_eq!(season_poster("/tv/show", 1, &files).as_deref(), Some("/tv/show/season1-poster.png"));
    assert_eq!(season_poster("/tv/show", 0, &files).as_deref(), Some("/tv/show/season-specials-poster.jpg"));
    assert_eq!(season_poster("/tv/show", 2, &files), None);
    let both = vec!["/s/season1-poster.jpg".to_string(), "/s/season01-poster.webp".to_string()];
    assert_eq!(season_poster("/s", 1, &both).as_deref(), Some("/s/season01-poster.webp"));
}

#[test]
fn rooms_in_a_list() {
    let s = RoomState { media_id: "m".into(), position_ms: 5, playing: true, updated_at: 0, version: 1 };
    let r = room_item("r".into(), Some(s), Some("Title".into()), 2, vec!["a".into()]);
    assert_eq!(r.current_media_id.as_deref(), Some("m"));
    assert_eq!(r.current_media_title.as_deref(), Some("Title"));
    let r = room_item("r".into(), None, Some("Title".into()), 0, vec![]);
    assert_eq!((r.current_media_id, r.current_media_title), (None, None));
}

#[test]
fn the_menu_of_the_scan_button() {
    let mut p = ScanProgress::default();
    let m = scan_menu(&p);
    assert_eq!(m.heading, "Library scan");
    assert_eq!(m.lines, vec!["No scan run yet this session."]);
    assert!(m.can_start);
    p.last_summary = Some("nothing to scan".into());
    p.last_elapsed_ms = Some(1500);
    p.message = Some("scan failed: disk".into());
    let m = scan_menu(&p);
    assert_eq!(m.lines, vec!["Last scan: nothing to scan", "Took 1.5s"]);
    assert_eq!(m.error.as_deref(), Some("scan failed: disk"));
    p.running = true;
    p.phase = "indexing".into();
    p.done = 4;
    p.current = Some("a.mkv".into());
    let m = scan_menu(&p);
    assert_eq!(m.heading, "Indexing library…");
    assert_eq!(m.lines, vec!["Discovering — 4 files found", "a.mkv"]);
    assert_eq!((m.percent, m.error, m.can_start), (None, None, false));
    p.total = 8;
    p.active.push(ActiveJob { media_id: "m".into(), title: "a".into(), stage: "probe".into() });
    let m = scan_menu(&p);
    assert_eq!(m.lines, vec!["4 / 8"]);
    assert_eq!(m.percent, Some(50));
    assert_eq!(m.jobs, vec![("a".to_string(), "probe".to_string())]);
}

#[test]
fn the_parts_of_the_first_page() {
    let mut lib = LibraryResponse { movies: vec![], shows: vec![], recently_added: vec![] };
    assert_eq!(home_parts(&lib, 3), vec![HomePart::Empty]);
    lib.movies.push(MovieSummary { id: "m".into(), title: "M".into(), year: None });
    assert_eq!(home_parts(&lib, 3), vec![HomePart::ContinueWatching, HomePart::Movies]);
    assert_eq!(home_parts(&lib, 0), vec![HomePart::Movies]);
}

#[test]
fn the_search_page() {
    let mut f = Filters::new();
    assert_eq!(f.active(), 0);
    assert!(matches!(search_results(&None, "", &f), Results::Message(m) if m == "Searching…"));
    let e: Option<Result<Found, String>> = Some(Err("offline".to_string()));
    assert!(matches!(search_results(&e, "", &f), Results::Message(m) if m == "Search failed: offline"));
    let none = Some(Ok(Found { shows: 0, movies: 0, total_shows: 0, total_movies: 0 }));
    assert!(matches!(search_results(&none, " ", &f), Results::Message(m) if m.starts_with("Start typing")));
    f.toggle_genre("Drama");
    assert_eq!(f.active(), 1);
    assert!(matches!(search_results(&none, " ", &f), Results::Message(m) if m == "No matches."));
    let some = Some(Ok(Found { shows: 0, movies: 2, total_shows: 0, total_movies: 12 }));
    match search_results(&some, "x", &f) {
        Results::Found { shows, movies } => {
            assert_eq!(shows, None);
            assert_eq!(movies.as_deref(), Some("Movies (12)"));
        }
        Results::Message(m) => panic!("{m}"),
    }
    let p = f.params("x");
    assert_eq!(p.q.as_deref(), Some("x"));
    assert_eq!(p.genres, vec!["Drama"]);
    assert_eq!((p.limit, p.offset), (Some(120), None));
    f.clear();
    assert_eq!(f.active(), 0);
}

#[test]
fn episodes_in_a_list() {
    let mut e = episode(2, 13);
    e.title = "Pilot".into();
    let plain = episode_card(&e);
    assert_eq!(plain.heading, "S02E13 · Pilot");
    assert_eq!((plain.line, plain.bar, plain.can_mark), (None, None, true));
    e.runtime_minutes = Some(42);
    e.release_date = Some("2020-03-09".into());
    e.position_us = 1;
    e.duration_us = 4;
    let begun = episode_card(&e);
    assert_eq!(begun.line.as_deref(), Some("42 min · Mar 9, 2020"));
    assert_eq!((begun.bar, begun.can_mark), (Some(250_000), true));
    e.completed = 1;
    let done = episode_card(&e);
    assert_eq!((done.bar, done.can_mark), (Some(1_000_000), false));
}
