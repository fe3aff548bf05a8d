use binkflix::hls::plan::{Mode, Segment, StreamPlan, PLAN_VERSION};
use binkflix::hls::playlist::{push_seconds3, render_m3u8};

fn us(secs: f64) -> u64 {
    (secs * 1_000_000.0).round() as u64
}

fn offset(secs: f64) -> Option<i64> {
    Some((secs * 1_000_000.0).round() as i64)
}

fn seconds_text(us: u64) -> String {
    let mut out = String::new();
    push_seconds3(&mut out, us);
    out
}

/// The float nearest to a number of microseconds in seconds.
fn float_secs(us: u64) -> f64 {
    format!("{}.{:06}", us / 1_000_000, us % 1_000_000).parse().unwrap()
}

fn sample_plan() -> StreamPlan {
    StreamPlan {
        version: PLAN_VERSION,
        mode: Mode::Remux,
        duration: us(12.0),
        video_codec: "h264".into(),
        segments: vec![
            Segment { i: 1, t: us(0.0), d: us(6.0) },
            Segment { i: 2, t: us(6.0), d: us(6.0) },
        ],
    }
}

#[test]
fn renders_complete_vod_playlist() {
    let s = render_m3u8(&sample_plan(), 0, None, None, None);
    assert!(s.starts_with("#EXTM3U\n"));
    assert!(s.contains("#EXT-X-PLAYLIST-TYPE:VOD"));
    assert!(s.contains("#EXT-X-MAP:URI=\"init.mp4?a=0\""));
    assert!(s.contains("seg-00001.m4s?a=0"));
    assert!(s.contains("seg-00002.m4s?a=0"));
    assert!(s.ends_with("#EXT-X-ENDLIST\n"));
}

#[test]
fn target_duration_covers_longest_segment() {
    let mut plan = sample_plan();
    plan.segments.push(Segment { i: 3, t: us(12.0), d: us(9.7) });
    let s = render_m3u8(&plan, 0, None, None, None);
    assert!(s.contains("#EXT-X-TARGETDURATION:10"));
}

#[test]
fn audio_idx_threads_into_segment_uris() {
    let s = render_m3u8(&sample_plan(), 2, None, None, None);
    assert!(s.contains("#EXT-X-MAP:URI=\"init.mp4?a=2\""));
    assert!(s.contains("seg-00001.m4s?a=2"));
    assert!(s.contains("seg-00002.m4s?a=2"));
}

#[test]
fn mode_and_bitrate_thread_into_segment_uris() {
    let s = render_m3u8(&sample_plan(), 0, Some("transcode"), Some(4000), None);
    assert!(s.contains("#EXT-X-MAP:URI=\"init.mp4?a=0&mode=transcode&bitrate=4000\""));
    assert!(s.contains("seg-00001.m4s?a=0&mode=transcode&bitrate=4000"));
}

#[test]
fn time_offset_emits_ext_x_start() {
    let s = render_m3u8(&sample_plan(), 0, None, None, offset(7.5));
    assert!(s.contains("#EXT-X-START:TIME-OFFSET=7.500,PRECISE=YES"));
}

#[test]
fn seconds_are_written_like_floats() {
    // Ties in binary go to the even digit; most decimal ties are none in binary.
    for (us, want) in [
        (62_500, "0.062"),
        (187_500, "0.188"),
        (4_500, "0.004"),
        (500, "0.001"),
        (1_500, "0.002"),
        (999_500, "1.000"),
        (7_341_000, "7.341"),
        (0, "0.000"),
    ] {
        assert_eq!(seconds_text(us), want, "{us}");
    }
    for k in 0..40_000u64 {
        let us = k * 500 + k % 3;
        assert_eq!(seconds_text(us), format!("{:.3}", float_secs(us)), "{us}");
    }
    for us in [u64::MAX, u64::MAX / 3, 1 << 53, (1 << 53) + 1, 86_400_000_500, 3_600_062_500] {
        assert_eq!(seconds_text(us), format!("{:.3}", float_secs(us)), "{us}");
    }
    let s = render_m3u8(&sample_plan(), 0, None, None, offset(0.0625));
    assert!(s.contains("#EXT-X-START:TIME-OFFSET=0.062,PRECISE=YES"));
    let mut plan = sample_plan();
    plan.segments[1].d = 4_500;
    assert!(render_m3u8(&plan, 0, None, None, None).contains("#EXTINF:0.004,\n"));
}

#[test]
fn zero_or_negative_time_offset_is_omitted() {
    let s_zero = render_m3u8(&sample_plan(), 0, None, None, offset(0.0));
    let s_neg = render_m3u8(&sample_plan(), 0, None, None, offset(-1.0));
    assert!(!s_zero.contains("EXT-X-START"));
    assert!(!s_neg.contains("EXT-X-START"));
}
