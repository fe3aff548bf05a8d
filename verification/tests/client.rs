use binkflix::client::{
    body_error, check_answer, check_status, encode_scope, hls_state_url, invalid_json,
    network_error, preferences_url, truncate, Endpoint,
};

#[test]
fn long_bodies_are_cut() {
    assert_eq!(truncate("hello", 5), "hello");
    assert_eq!(truncate("hello", 4), "hell…");
    assert_eq!(truncate("aéb", 3), "aé…");
}

#[test]
fn answers_are_checked() {
    assert_eq!(check_answer("/x", 200, ""), Ok(()));
    assert_eq!(check_answer("/x", 299, ""), Ok(()));
    assert_eq!(check_answer("/x", 404, "gone"), Err("/x returned HTTP 404: gone".to_string()));
    assert_eq!(check_status("/x", 204), Ok(()));
    assert_eq!(check_status("/x", 500), Err("/x returned HTTP 500".to_string()));
    assert_eq!(invalid_json("/x", "eof", "{"), "invalid JSON from /x: eof. First bytes: {");
    assert_eq!(network_error("/x", "down"), "network error hitting /x: down");
    assert_eq!(body_error("/x", "reset"), "failed to read response body from /x: reset");
}

#[test]
fn addresses_of_the_server() {
    assert_eq!(Endpoint::Library.url(), "/api/library");
    assert_eq!(Endpoint::ContinueWatching.url(), "/api/continue-watching");
    assert_eq!(Endpoint::Rooms.url(), "/api/rooms");
    assert_eq!(Endpoint::Scan.url(), "/api/scan");
    assert_eq!(Endpoint::ScanStatus.url(), "/api/scan/status");
    assert_eq!(Endpoint::Show { id: "s".into() }.url(), "/api/shows/s");
    assert_eq!(Endpoint::Media { id: "m".into() }.url(), "/api/media/m");
    assert_eq!(Endpoint::Subtitles { id: "m".into() }.url(), "/api/media/m/subtitles");
    assert_eq!(Endpoint::Tech { id: "m".into() }.url(), "/api/media/m/tech");
    assert_eq!(Endpoint::Progress { id: "m".into() }.url(), "/api/media/m/progress");
    assert_eq!(Endpoint::Watched { id: "m".into() }.url(), "/api/media/m/watched");
    assert_eq!(hls_state_url("m", 0, "", None), "/api/media/m/hls/state?a=0");
    assert_eq!(
        hls_state_url("m", 2, "transcode", Some(4000)),
        "/api/media/m/hls/state?a=2&mode=transcode&bitrate=4000"
    );
    assert_eq!(encode_scope("show:a b/é"), "show%3Aa%20b%2F%C3%A9");
    assert_eq!(encode_scope("-_.!~*'()"), "-_.!~*'()");
    assert_eq!(preferences_url("media:1"), "/api/preferences/media%3A1");
}
