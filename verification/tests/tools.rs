use binkflix::tools::cleanup::{purges, report, GoneLibrary, GoneMedia, GoneShow};
use binkflix::tools::cli::{run, Command};
use binkflix::tools::jellyfin::{
    adds_dev, applied, custom_sub, describe_jf, effect, find_stored, forecast, parse_jf_date,
    plan_import, plan_row, preview, short_sub, target_label, BfMedia, Effect, JfWatch,
    MINUTE_TICKS,
};

const EPISODE: &str = "MediaBrowser.Controller.Entities.TV.Episode";
const MOVIE: &str = "MediaBrowser.Controller.Entities.Movies.Movie";

fn watch(kind: &str, name: &str) -> JfWatch {
    JfWatch {
        kind: kind.into(),
        name: Some(name.into()),
        series_name: None,
        season: None,
        episode: None,
        year: None,
        runtime_ticks: None,
        position_ticks: 0,
        played: 0,
        last_played: None,
    }
}

fn media(id: &str, kind: &str, title_lc: &str) -> BfMedia {
    BfMedia {
        id: id.into(),
        kind: kind.into(),
        title_lc: title_lc.into(),
        year: None,
        runtime_minutes: None,
        season_number: None,
        episode_number: None,
        show_title_lc: None,
    }
}

#[test]
fn the_server_runs_by_default() {
    assert!(matches!(run(None), Command::Serve));
    assert!(matches!(run(Some(Command::Cleanup { apply: true })), Command::Cleanup { apply: true }));
}

#[test]
fn nothing_to_clean_up() {
    assert_eq!(report(&vec![], &vec![], &vec![], false), vec!["No soft-deleted rows. Nothing to clean up."]);
    assert!(!purges(0, true));
    assert!(!purges(3, false));
    assert!(purges(3, true));
}

#[test]
fn what_would_be_cleaned_up() {
    let l = vec![GoneLibrary { id: 4, path: "/old".into(), deleted_at: "d1".into() }];
    let s: Vec<GoneShow> = vec![];
    let m = vec![GoneMedia {
        id: "m".into(),
        kind: "movie".into(),
        path: "/old/a.mkv".into(),
        deleted_at: "d2".into(),
    }];
    let lines = report(&l, &s, &m, false);
    assert_eq!(
        lines,
        vec![
            "Soft-deleted rows (2 total):",
            "",
            "Libraries (1):",
            "  [d1] id=4  /old",
            "",
            "Media (1):",
            "  [d2] movie m  /old/a.mkv",
            "",
            "Dry run — re-run with `--apply` to hard-delete these rows.",
            "Note: cascading FKs will also remove watch_progress, subtitles, thumbnails, etc. for \
             purged media.",
        ]
    );
    assert_eq!(report(&l, &s, &m, true).len(), 8);
}

#[test]
fn movies_match_by_year_and_then_by_title() {
    let mut a = media("1", "movie", "dune");
    a.year = Some(1984);
    let mut b = media("2", "movie", "dune");
    b.year = Some(2021);
    let mut w = watch(MOVIE, "Dune");
    w.year = Some(2021);
    w.played = 1;
    let mut x = watch(MOVIE, "DUNE");
    x.year = Some(1900);
    let y = watch(MOVIE, "Arrival");
    let plan = plan_import(&vec![w, x, y], &vec![a, b], 77);
    let ids: Vec<&str> = plan.planned.iter().map(|p| p.media_id.as_str()).collect();
    assert_eq!(ids, vec!["2", "1"]);
    assert_eq!(plan.unmatched, vec!["Arrival"]);
    assert_eq!((plan.episodes, plan.movies), (0, 2));
    assert_eq!(plan.planned[0].updated_at, 77);
}

#[test]
fn episodes_match_by_show_and_number() {
    let mut m = media("e", "episode", "pilot");
    m.show_title_lc = Some("été".into());
    m.season_number = Some(1);
    m.episode_number = Some(2);
    let mut w = watch(EPISODE, "Pilot");
    w.series_name = Some("ÉTÉ".into());
    w.season = Some(1);
    w.episode = Some(2);
    w.last_played = Some("1970-01-01 00:01:00.25".into());
    let mut x = watch(EPISODE, "Pilot");
    x.series_name = Some("Été".into());
    x.season = Some(1);
    let plan = plan_import(&vec![w, x], &vec![m], 0);
    assert_eq!(plan.planned.len(), 1);
    assert_eq!(plan.planned[0].updated_at, 60);
    assert_eq!(plan.unmatched, vec!["Été S01E00"]);
    assert_eq!((plan.episodes, plan.movies), (1, 0));
}

#[test]
fn what_is_taken_over() {
    let mut m = media("1", "movie", "dune");
    m.runtime_minutes = Some(2);
    let mut w = watch(MOVIE, "Dune");
    w.played = 1;
    let p = plan_row(&w, &m, 5);
    assert!(p.completed);
    assert_eq!(p.duration_ticks, 2 * MINUTE_TICKS as i128);
    assert_eq!(p.position_ticks, p.duration_ticks);
    w.played = 0;
    w.runtime_ticks = Some(100);
    w.position_ticks = 91;
    let p = plan_row(&w, &m, 5);
    assert!(p.completed);
    assert_eq!((p.position_ticks, p.duration_ticks), (91, 100));
    w.position_ticks = 90;
    assert!(!plan_row(&w, &m, 5).completed);
}

#[test]
fn rows_are_described() {
    let mut w = watch(MOVIE, "Dune");
    assert_eq!(describe_jf(&w), "Dune");
    w.year = Some(2021);
    assert_eq!(describe_jf(&w), "Dune (2021)");
    w.name = None;
    assert_eq!(describe_jf(&w), "? (2021)");
    let mut e = watch(EPISODE, "x");
    assert_eq!(describe_jf(&e), "? S00E00");
    e.series_name = Some("Show".into());
    e.season = Some(3);
    e.episode = Some(14);
    assert_eq!(describe_jf(&e), "Show S03E14");
}

#[test]
fn dates_of_the_other_server() {
    assert_eq!(parse_jf_date(None), None);
    assert_eq!(parse_jf_date(Some("1970-01-01 00:00:10.5")), Some(10));
    assert_eq!(parse_jf_date(Some("1970-01-01 00:00:10")), Some(10));
    assert_eq!(parse_jf_date(Some("yesterday")), None);
}

#[test]
fn what_is_stored_already_stays_where_it_is_newer() {
    assert_eq!(effect(None, 5), Effect::Insert);
    assert_eq!(effect(Some(4), 5), Effect::Overwrite);
    assert_eq!(effect(Some(5), 5), Effect::Skip);
    let stored = vec![("a".to_string(), 1), ("b".to_string(), 9), ("a".to_string(), 3)];
    assert_eq!(find_stored(&stored, "a"), Some(3));
    assert_eq!(find_stored(&stored, "z"), None);
    let rows = vec![
        plan_row(&watch(MOVIE, "x"), &media("a", "movie", "x"), 5),
        plan_row(&watch(MOVIE, "x"), &media("b", "movie", "x"), 5),
        plan_row(&watch(MOVIE, "x"), &media("c", "movie", "x"), 5),
    ];
    assert_eq!(forecast(&rows, &stored), (1, 1, 1));
    assert_eq!(applied(false, true), Effect::Insert);
    assert_eq!(applied(true, true), Effect::Overwrite);
    assert_eq!(applied(true, false), Effect::Skip);
}

#[test]
fn an_import_is_previewed() {
    let rows: Vec<JfWatch> = (0..12).map(|k| watch(MOVIE, &format!("M{k}"))).collect();
    let plan = plan_import(&rows, &vec![], 0);
    let lines = preview(&plan, (1, 2, 3));
    assert_eq!(lines[0], "Matched: 0 episodes, 0 movies   (unmatched: 12)");
    assert_eq!(lines[1], "Sample unmatched (first 10):");
    assert_eq!(lines[2], "  - M0");
    assert_eq!(lines[12], "  … 2 more");
    assert_eq!(lines[14], "Plan: insert 1, overwrite 2, skip-newer 3");
    assert_eq!(lines.len(), 15);
    assert_eq!(preview(&plan_import(&vec![], &vec![], 0), (0, 0, 0)).len(), 3);
}

#[test]
fn users_to_import_for() {
    assert_eq!(short_sub("12345678"), "12345678");
    assert_eq!(short_sub("123456789"), "12345678…");
    assert_eq!(target_label("123456789", Some("alice")), "alice (12345678…)");
    assert_eq!(target_label("123456789", None), "123456789");
    assert!(adds_dev(&vec!["a".to_string()]));
    assert!(!adds_dev(&vec!["a".to_string(), "dev".to_string()]));
    assert_eq!(custom_sub("  me "), Ok("me".to_string()));
    assert_eq!(custom_sub("   "), Err("empty user_sub".to_string()));
}
