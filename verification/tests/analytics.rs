use binkflix::analytics::{
    accepts_sample, encode_rate_x100, parse_ua, sample_producer, transcode_telemetry, PlaybackSessionStart,
};
use binkflix::hls::plan::Mode;

#[test]
fn parse_ua_chrome_macos() {
    let ua = "Mozilla/5.0 (Macintosh; Intel Mac OS X 10_15_7) AppleWebKit/537.36 \
              (KHTML, like Gecko) Chrome/120.0.0.0 Safari/537.36";
    assert_eq!(parse_ua(ua), "Chrome 120.0.0.0 / macOS");
}

#[test]
fn parse_ua_firefox_linux() {
    let ua = "Mozilla/5.0 (X11; Linux x86_64; rv:121.0) Gecko/20100101 Firefox/121.0";
    assert_eq!(parse_ua(ua), "Firefox 121.0 / Linux");
}

#[test]
fn parse_ua_safari_ios() {
    let ua = "Mozilla/5.0 (iPhone; CPU iPhone OS 17_0 like Mac OS X) \
              AppleWebKit/605.1.15 (KHTML, like Gecko) Version/17.0 Mobile/15E148 Safari/604.1";
    assert_eq!(parse_ua(ua), "Safari 17.0 / iOS");
}

#[test]
fn parse_ua_edge_wins_over_chrome() {
    let ua = "Mozilla/5.0 (Windows NT 10.0; Win64; x64) AppleWebKit/537.36 \
              (KHTML, like Gecko) Chrome/120.0.0.0 Safari/537.36 Edg/120.0.0.0";
    assert_eq!(parse_ua(ua), "Edge 120.0.0.0 / Windows");
}

#[test]
fn samples_come_from_the_owner() {
    assert!(accepts_sample(Some(Some("alice")), "alice"));
    assert!(!accepts_sample(Some(Some("alice")), "bob"));
    assert!(!accepts_sample(Some(None), "alice"));
    assert!(!accepts_sample(None, "alice"));
}

#[test]
fn telemetry_is_asked_of_the_right_producer() {
    assert_eq!(sample_producer("remux", Some(2), None), Some((2, Mode::Remux)));
    assert_eq!(
        sample_producer("transcode", None, Some(4000)),
        Some((0, Mode::Transcode { bitrate_kbps: 4000, max_height: 720 }))
    );
    assert_eq!(sample_producer("transcode", None, None), None);
    assert_eq!(sample_producer("transcode", None, Some(-1)), None);
    assert_eq!(sample_producer("direct", Some(0), Some(4000)), None);
    assert_eq!(sample_producer("remux", Some(-3), None), Some((0, Mode::Remux)));
    assert_eq!(transcode_telemetry(7, 150), (42_000, 150));
}

#[test]
fn the_rate_of_an_encoder() {
    // Ten segments of six seconds in forty seconds.
    assert_eq!(encode_rate_x100(1, 10, 40_000), 150);
    assert_eq!(encode_rate_x100(5, 5, 12_000), 50);
    assert_eq!(encode_rate_x100(5, 4, 12_000), 0);
    assert_eq!(encode_rate_x100(1, 10, 0), 0);
    assert_eq!(encode_rate_x100(1, u32::MAX, 1), u32::MAX);
}

#[test]
fn a_new_session_is_empty() {
    let s = PlaybackSessionStart::default();
    assert_eq!(s.user_sub, None);
}
