use binkflix::library::{EpisodeSummary, Season, ShowSummary};
use binkflix::numbers::{coarse_number, millionths_times, round_div, scaled_div};
use binkflix::scanner::progress::ScanProgress;
use binkflix::views;
use binkflix::watch::ContinueItem;

fn season(number: i64) -> Season {
    Season { number, episodes: Vec::<EpisodeSummary>::new() }
}

fn show(id: &str, has_banner: bool) -> ShowSummary {
    ShowSummary { id: id.into(), title: id.into(), year: None, episode_count: 1, has_banner }
}

#[test]
fn rounding_goes_to_the_nearest_and_then_to_the_even() {
    assert_eq!(round_div(5, 2), 2);
    assert_eq!(round_div(7, 2), 4);
    assert_eq!(round_div(8, 3), 3);
    assert_eq!(coarse_number(9_007_199_254_740_993), 9_007_199_254_740_992);
    assert_eq!(coarse_number(9_007_199_254_740_995), 9_007_199_254_740_996);
    assert_eq!(coarse_number(i64::MAX as u64), 1 << 63);
}

#[test]
fn scaled_quotients_round_like_floats() {
    for n in 1000..60_000u64 {
        let want = format!("{:.1}", n as f64 / 1000.0);
        let got = scaled_div(n, 1000, 10);
        assert_eq!(format!("{}.{}", got / 10, got % 10), want, "{n}");
    }
}

#[test]
fn products_round_like_floats() {
    for k in 0..20_000u64 {
        // Many of these lie between two whole numbers.
        let a = k * 377_500 + k % 2 * 500;
        for factor in [0u32, 1, 600, 1000, 12_800, 44_100, 90_000] {
            let want = (a as f64 / 1e6 * factor as f64).round() as u128;
            assert_eq!(millionths_times(a, factor), want, "{a} {factor}");
        }
    }
    // Beyond 53 bits the product is coarse.
    let far = (1u64 << 53) - 1;
    let want = (far as f64 / 1e6 * 4_294_967_295.0).round() as u128;
    assert_eq!(millionths_times(far, u32::MAX), want);
    assert_eq!(millionths_times(1, 1), 0);
    assert_eq!(millionths_times(1, 500_000), 1);
}

#[test]
fn elapsed_times() {
    assert_eq!(views::format_elapsed(0), "0ms");
    assert_eq!(views::format_elapsed(999), "999ms");
    assert_eq!(views::format_elapsed(1000), "1.0s");
    assert_eq!(views::format_elapsed(1050), "1.1s");
    assert_eq!(views::format_elapsed(1150), "1.1s");
    assert_eq!(views::format_elapsed(1250), "1.2s");
    assert_eq!(views::format_elapsed(59_999), "60.0s");
    assert_eq!(views::format_elapsed(60_000), "1m 0s");
    assert_eq!(views::format_elapsed(125_700), "2m 5s");
}

#[test]
fn vote_counts() {
    assert_eq!(views::format_votes(-3), "-3");
    assert_eq!(views::format_votes(999), "999");
    assert_eq!(views::format_votes(1500), "1.5k");
    assert_eq!(views::format_votes(10_500), "10k");
    assert_eq!(views::format_votes(11_500), "12k");
    assert_eq!(views::format_votes(2_340_000), "2.3M");
    for n in [1_050i64, 1_150, 9_949, 9_950, 1_250_000, 1_350_000, 987_654_321] {
        let want = if n < 1_000_000 {
            format!("{:.1}k", n as f64 / 1000.0)
        } else {
            format!("{:.1}M", n as f64 / 1_000_000.0)
        };
        assert_eq!(views::format_votes(n), want);
    }
}

#[test]
fn file_sizes() {
    assert_eq!(views::format_bytes(-1), "0 B");
    assert_eq!(views::format_bytes(1023), "1023 B");
    assert_eq!(views::format_bytes(1024), "1.0 KB");
    assert_eq!(views::format_bytes(1_126), "1.1 KB");
    assert_eq!(views::format_bytes(5 << 20), "5.0 MB");
    assert_eq!(views::format_bytes(1 << 30), "1.00 GB");
    assert_eq!(views::format_bytes(3 * (1 << 29)), "1.50 GB");
}

#[test]
fn ratings_have_one_decimal() {
    assert_eq!(views::format_rating(7_850_000), format!("{:.1}", 7.85));
    assert_eq!(views::format_rating(8_000_000), "8.0");
    assert_eq!(views::format_rating(0), "0.0");
    assert_eq!(views::format_rating(-50_000), format!("{:.1}", -0.05));
}

#[test]
fn long_dates() {
    assert_eq!(views::format_long_date("2019-01-04"), "Jan 4, 2019");
    assert_eq!(views::format_long_date("2019-12-31"), "Dec 31, 2019");
    assert_eq!(views::format_long_date("2019-13-04"), "2019-13-04");
    assert_eq!(views::format_long_date("2019-01-04-05"), "2019-01-04-05");
    assert_eq!(views::format_long_date("2019"), "2019");
    assert_eq!(views::format_long_date("MMXIX-01-04"), "MMXIX-01-04");
    assert_eq!(views::format_long_date("January 2019"), "January 2019");
}

#[test]
fn years_of_dates() {
    assert_eq!(views::year_from_date("2019-01-04"), Some(2019));
    assert_eq!(views::year_from_date("19"), None);
    assert_eq!(views::year_from_date("abcd"), None);
    assert_eq!(views::year_from_date("-123x"), Some(-123));
    assert_eq!(views::year_from_date("日本"), None);
    assert_eq!(views::year_text(Some("2008-01-20"), Some(1), Some("2013-09-29")), "2008 – 2013");
    assert_eq!(views::year_text(Some("2008-01-20"), None, Some("2008-09-29")), "2008");
    assert_eq!(views::year_text(Some("soon"), Some(2020), None), "2020");
    assert_eq!(views::year_text(None, None, Some("2013-09-29")), "");
}

#[test]
fn addresses_of_databases() {
    assert_eq!(views::imdb_url("tt1"), "https://www.imdb.com/title/tt1/");
    assert_eq!(views::tmdb_movie_url("5"), "https://www.themoviedb.org/movie/5");
    assert_eq!(views::tmdb_tv_url("5"), "https://www.themoviedb.org/tv/5");
    assert_eq!(views::tvdb_url("7"), "https://thetvdb.com/?id=7&tab=series");
}

#[test]
fn seasons_on_a_page() {
    assert_eq!(views::season_label(0), "Specials");
    assert_eq!(views::season_label(3), "Season 3");
    assert_eq!(views::default_season(&vec![season(0), season(2), season(1)]), 1);
    assert_eq!(views::default_season(&vec![season(0)]), 0);
    assert_eq!(views::default_season(&vec![]), 1);
    let v = vec![season(0), season(1), season(2)];
    assert_eq!(views::shown_season(Some(2), &v), 2);
    assert_eq!(views::shown_season(Some(9), &v), 1);
    assert_eq!(views::shown_season(None, &v), 1);
}

#[test]
fn banners_of_other_shows() {
    let shows: Vec<ShowSummary> =
        ["a", "b", "c", "d", "e", "f", "g"].iter().map(|s| show(s, true)).collect();
    // "a" is byte 97, and six others are left: the first is number 97 % 6 = 1.
    assert_eq!(views::banner_picks(&shows, "a"), vec!["c", "d", "e", "f", "g"]);
    assert_eq!(views::banner_picks(&vec![show("a", true), show("b", false)], "a"), Vec::<String>::new());
    assert_eq!(views::banner_picks(&vec![show("a", true), show("b", true)], "a"), vec!["b"]);
}

#[test]
fn lines_under_titles() {
    assert_eq!(
        views::media_line("episode", Some(1), Some(2), Some("2019-01-04"), Some(2019), Some(45)),
        "S01E02 · Jan 4, 2019 · 45 min"
    );
    assert_eq!(views::media_line("movie", None, None, None, Some(1999), Some(136)), "1999 · 136 min");
    assert_eq!(
        views::media_line("movie", None, None, Some("1999-03-31"), Some(1999), None),
        "Mar 31, 1999"
    );
    assert_eq!(views::media_line("episode", Some(1), None, None, Some(5), None), "");
    assert_eq!(views::episode_line(Some(45), Some("2019-01-04")), "45 min · Jan 4, 2019");
    assert_eq!(views::episode_line(None, None), "");
    assert_eq!(views::episode_tag(-1, 12), "S-1E12");
    let l = views::card_line(Some("s"), Some("Show"), Some(1), None, Some(1));
    assert_eq!(l.show, Some(("s".to_string(), "Show".to_string())));
    assert_eq!(l.rest, " · S1E0");
    let l = views::card_line(Some("s"), Some(""), Some(1), Some(2), None);
    assert_eq!((l.show, l.rest), (None, "S1E2".to_string()));
    let l = views::card_line(None, Some("Show"), Some(1), Some(2), Some(1999));
    assert_eq!((l.show, l.rest), (None, "1999".to_string()));
    assert_eq!(views::show_card_line(Some(2008), 62), "2008 · 62 eps");
    assert_eq!(views::show_card_line(None, 1), "1 eps");
    assert_eq!(views::credits_line(Some("A"), Some("B")).as_deref(), Some("Directed by A · Written by B"));
    assert_eq!(views::credits_line(None, Some("B")).as_deref(), Some("Written by B"));
    assert_eq!(views::credits_line(Some("A"), None).as_deref(), Some("Directed by A"));
    assert_eq!(views::credits_line(None, None), None);
    assert_eq!(views::other_title("A", Some("A")), None);
    assert_eq!(views::other_title("A", Some("B")).as_deref(), Some("B"));
    assert_eq!(views::page_title(Some("A")), "A — Binkflix");
    assert_eq!(views::page_title(None), "Binkflix");
}

#[test]
fn going_on_with_a_show() {
    let item = |id: &str, show: Option<&str>| ContinueItem {
        media_id: id.into(),
        kind: "episode".into(),
        title: id.into(),
        show_id: show.map(|s| s.to_string()),
        position_us: 0,
        duration_us: 0,
    };
    let v = vec![item("m", None), item("x", Some("a")), item("y", Some("b")), item("z", Some("b"))];
    assert_eq!(views::find_next(&v, "b"), Some(2));
    assert_eq!(views::find_next(&v, "c"), None);
}

#[test]
fn the_way_back_from_the_player() {
    assert!(matches!(views::back_route("m", Some("movie"), Some("s")), views::Back::Media(m) if m == "m"));
    assert!(matches!(views::back_route("m", Some("episode"), Some("s")), views::Back::Show(s) if s == "s"));
    assert!(matches!(views::back_route("m", Some("episode"), None), views::Back::Home));
    assert!(matches!(views::back_route("m", None, None), views::Back::Media(_)));
}

#[test]
fn the_scan_button() {
    let mut p = ScanProgress::default();
    assert_eq!(views::scan_label(&p), "Rescan");
    p.running = true;
    p.phase = "starting".into();
    assert_eq!(views::scan_label(&p), "Scanning — starting");
    p.done = 3;
    p.total = 7;
    assert_eq!(views::scan_label(&p), "Scanning 3/7");
    assert_eq!(views::scan_percent(3, 7), Some(42));
    assert_eq!(views::scan_percent(9, 7), Some(100));
    assert_eq!(views::scan_percent(9, 0), None);
    assert_eq!(views::scan_counter(3, 7), "3 / 7");
    assert_eq!(views::scan_counter(3, 0), "Discovering — 3 files found");
    assert_eq!(views::scan_counter(0, 0), "Starting…");
    assert_eq!(views::scan_heading(true, "subtitles"), "Extracting subtitles…");
    assert_eq!(views::scan_heading(true, "restarting"), "Scanning…");
    assert_eq!(views::scan_heading(false, "indexing"), "Library scan");
    assert_eq!(views::scan_poll(true, false), (500, true));
    assert_eq!(views::scan_poll(false, true), (2000, true));
    assert_eq!(views::scan_poll(false, false), (1500, false));
    assert_eq!(views::rescan_clicked(false, false), (true, true));
    assert_eq!(views::rescan_clicked(true, false), (true, false));
    assert_eq!(views::rescan_clicked(false, true), (false, false));
    assert_eq!(views::rescan_clicked(true, true), (false, false));
    p.last_elapsed_ms = Some(9);
    let asked = views::scan_asked(p);
    assert_eq!((asked.running, asked.phase.as_str(), asked.done, asked.total), (true, "starting", 0, 0));
    assert_eq!((asked.message, asked.last_elapsed_ms), (None, Some(9)));
}

#[test]
fn filters_of_the_search_page() {
    assert_eq!(views::active_filters("", None, None, &vec![], "any", "title"), 0);
    assert_eq!(
        views::active_filters("movie", Some(1), Some(2), &vec!["Drama".to_string()], "watched", "year_asc"),
        6
    );
    assert_eq!(views::year_box(" 1999 "), Some(1999));
    assert_eq!(views::year_box("soon"), None);
    assert_eq!(views::nothing_found("  ", 0), "Start typing or open Filters to browse the library.");
    assert_eq!(views::nothing_found("  ", 1), "No matches.");
    assert_eq!(views::nothing_found("x", 0), "No matches.");
}

#[test]
fn a_genre_clicked_twice_is_as_before() {
    let mut g = vec!["Drama".to_string()];
    views::toggle_genre(&mut g, "Comedy");
    assert_eq!(g, vec!["Drama", "Comedy"]);
    views::toggle_genre(&mut g, "Comedy");
    assert_eq!(g, vec!["Drama"]);
    views::toggle_genre(&mut g, "Drama");
    assert!(g.is_empty());
}

#[test]
fn menus_and_themes() {
    assert_eq!(views::toggle_menu(None, "theme"), Some("theme"));
    assert_eq!(views::toggle_menu(Some("theme"), "theme"), None);
    assert_eq!(views::toggle_menu(Some("rescan"), "theme"), Some("theme"));
    assert_eq!(views::themes()[0], ("default", "Default (dark)"));
    assert_eq!(views::themes().len(), 5);
}

#[test]
fn bars_show_how_far() {
    assert_eq!(views::progress_bar(0, 100, false), None);
    assert_eq!(views::progress_bar(-5, 100, false), None);
    assert_eq!(views::progress_bar(50, 0, false), None);
    assert_eq!(views::progress_bar(1, 3, false), Some(333_333));
    assert_eq!(views::progress_bar(25, 100, false), Some(250_000));
    assert_eq!(views::progress_bar(150, 100, false), Some(views::FULL_BAR));
    assert_eq!(views::progress_bar(0, 0, true), Some(views::FULL_BAR));
}

#[test]
fn pictures_of_cards() {
    assert_eq!(views::card_picture(false, true), views::CardPicture::Letterbox);
    assert_eq!(views::card_picture(true, true), views::CardPicture::Still);
    assert_eq!(views::card_picture(true, false), views::CardPicture::Backdrop);
}
