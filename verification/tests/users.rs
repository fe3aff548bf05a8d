use binkflix::clock::{
    any_newer_than, backfilled_added_at, file_added_at, newer_than, sqlite_ts, sqlite_ts_to_secs,
};
use binkflix::users::{
    number_to_store, stored_number, stored_theme, Touches, UserSettings, TOUCH_DEBOUNCE_MS,
};
use binkflix::watch::{
    format_episode_title, mark_watched, report_progress, CwRow, NextEp, Offers, ROW_LIMIT,
};

#[test]
fn times_of_the_database() {
    assert_eq!(sqlite_ts(0).as_deref(), Some("1970-01-01 00:00:00"));
    assert_eq!(sqlite_ts(1_700_000_000).as_deref(), Some("2023-11-14 22:13:20"));
    assert_eq!(sqlite_ts_to_secs("2023-11-14 22:13:20"), Some(1_700_000_000));
    assert_eq!(sqlite_ts_to_secs("2023-11-14T22:13:20"), None);
    assert_eq!(sqlite_ts_to_secs(""), None);
    assert_eq!(sqlite_ts(i64::MAX), None);
    assert_eq!(file_added_at(Some(0), 5), "1970-01-01 00:00:00");
    assert_eq!(file_added_at(None, 60), "1970-01-01 00:01:00");
    assert_eq!(backfilled_added_at(Some(60), "then"), "1970-01-01 00:01:00");
    assert_eq!(backfilled_added_at(None, "then"), "then");
}

#[test]
fn files_that_changed_since() {
    assert!(newer_than(&vec![5, 11], Some(10)));
    assert!(!newer_than(&vec![5, 10], Some(10)));
    assert!(newer_than(&vec![], None));
    assert!(any_newer_than(&vec![61], "1970-01-01 00:01:00"));
    assert!(!any_newer_than(&vec![60], "1970-01-01 00:01:00"));
    assert!(any_newer_than(&vec![], "never"));
}

#[test]
fn users_are_noted_now_and_then() {
    let mut t = Touches::new();
    assert!(t.touch("alice", 1000));
    assert!(!t.touch("alice", 1000 + TOUCH_DEBOUNCE_MS - 1));
    assert!(t.touch("bob", 1001));
    assert!(t.touch("alice", 1000 + TOUCH_DEBOUNCE_MS));
    assert!(!t.touch("alice", 1001 + TOUCH_DEBOUNCE_MS));
}

#[test]
fn settings_of_users() {
    assert_eq!(UserSettings::default().theme, None);
    assert_eq!(stored_theme(Some("  terminal ")).as_deref(), Some("terminal"));
    assert_eq!(stored_theme(Some("   ")), None);
    assert_eq!(stored_theme(None), None);
    assert_eq!(stored_number(number_to_store(Some(u32::MAX))), Some(u32::MAX));
    assert_eq!(number_to_store(None), None);
    assert_eq!(stored_number(None), None);
}

#[test]
fn progress_of_a_player() {
    let p = report_progress(Some(9_000_001), Some(10_000_000)).unwrap();
    assert!(p.completed);
    let p = report_progress(Some(9_000_000), Some(10_000_000)).unwrap();
    assert!(!p.completed);
    let p = report_progress(Some(5), Some(0)).unwrap();
    assert!(!p.completed);
    assert_eq!(report_progress(None, Some(1)), Err("position_secs invalid".to_string()));
    assert_eq!(report_progress(Some(-1), None), Err("position_secs invalid".to_string()));
    assert_eq!(report_progress(Some(1), Some(-1)), Err("duration_secs invalid".to_string()));
}

#[test]
fn marked_as_watched() {
    let p = mark_watched(Some(60_000_000));
    assert!(p.completed);
    assert_eq!((p.position_us, p.duration_us), (60_000_000, 60_000_000));
    assert_eq!(mark_watched(None).duration_us, 1_000_000);
    assert_eq!(mark_watched(Some(0)).duration_us, 1_000_000);
}

fn row(id: &str, kind: &str, show: Option<&str>, completed: bool) -> CwRow {
    CwRow {
        media_id: id.into(),
        kind: kind.into(),
        title: format!("T{id}"),
        show_id: show.map(|s| s.to_string()),
        show_title: show.map(|s| s.to_uppercase()),
        season_number: Some(1),
        episode_number: Some(2),
        position_us: 7,
        duration_us: 70,
        completed,
    }
}

#[test]
fn what_is_offered_to_go_on_with() {
    let mut o = Offers::new();
    o.offer(&row("1", "movie", None, false), &None);
    o.offer(&row("2", "movie", None, true), &None);
    o.offer(&row("3", "episode", Some("a"), false), &None);
    // The show has been dealt with.
    o.offer(&row("4", "episode", Some("a"), false), &None);
    let over = row("5", "episode", Some("b"), true);
    assert_eq!(o.asks(&over), Some(("b".to_string(), 1, 2)));
    let next = NextEp {
        id: "6".into(),
        title: "Next".into(),
        season_number: Some(1),
        episode_number: Some(3),
    };
    o.offer(&over, &Some(next));
    // All of it was watched.
    o.offer(&row("7", "episode", Some("c"), true), &None);
    assert_eq!(o.asks(&row("8", "episode", Some("c"), true)), None);
    let items = o.finish();
    let ids: Vec<&str> = items.iter().map(|i| i.media_id.as_str()).collect();
    assert_eq!(ids, vec!["1", "3", "6"]);
    assert_eq!(items[2].position_us, 0);
    assert_eq!(items[2].show_id.as_deref(), Some("b"));
    assert_eq!(items[1].title, format_episode_title("A", Some(1), Some(2), "T3"));
}

#[test]
fn offers_are_limited() {
    let mut o = Offers::new();
    for k in 0..ROW_LIMIT + 5 {
        o.offer(&row(&k.to_string(), "movie", None, false), &None);
    }
    assert!(o.is_full());
    assert_eq!(o.finish().len(), ROW_LIMIT);
}
