use binkflix::hls::command::format_argv;
use binkflix::hls::producer::{covers, LOOKAHEAD_WINDOW};

#[test]
fn format_argv_quotes_paths_with_spaces() {
    let argv = vec![
        "ffmpeg".to_string(),
        "-i".to_string(),
        "/srv/My Movies/it's a film.mkv".to_string(),
        "-c:v".to_string(),
        "libx264".to_string(),
    ];
    let out = format_argv(&argv);
    // Path with spaces and a single quote gets single-quoted with
    // the embedded `'` rendered as `'\''`.
    assert!(out.contains("'/srv/My Movies/it'\\''s a film.mkv'"));
    // Plain args stay unquoted.
    assert!(out.starts_with("ffmpeg -i "));
    assert!(out.contains(" -c:v libx264"));
    assert!(out.ends_with('\n'));
}

#[test]
fn covers_window() {
    // A producer started at seg 10 that has reached head 20.
    // In-range: from its start through head + LOOKAHEAD_WINDOW.
    assert!(covers(10, 20, 10)); // exactly at start
    assert!(covers(10, 20, 20)); // exactly at head
    assert!(covers(10, 20, 20 + LOOKAHEAD_WINDOW)); // edge of window
    // Out of range: before start (seek backward) → spawn own.
    assert!(!covers(10, 20, 9));
    // Out of range: far seek forward past the window → spawn own.
    assert!(!covers(10, 20, 20 + LOOKAHEAD_WINDOW + 1));
}
