use binkflix::decimal::parse_seconds;
use binkflix::hls::cache::{
    id_is_safe, is_allowed_name, keeps_dir, media_dir, mime_for, plan_dir, plan_dir_name,
    plan_dir_prefix, segment_filename, segment_index,
};
use binkflix::hls::command::{ffmpeg_args, format_argv};
use binkflix::hls::hwenc::{
    auto_pick, detect, is_render_node, listed_encoders, needs_listing, validate_explicit,
    EncoderSet, HwEncoder, Machine,
};
use binkflix::hls::package::{cache_header, check_video, done_path, is_segment, join_run, run_ffmpeg, Join};
use binkflix::hls::plan::{
    build_remux_plan, build_transcode_plan, collect_keyframes, derive_audio_plan,
    height_for_bitrate, is_copy_remux_viable, is_fresh, mode_str, parse_packet_line, AudioPlan,
    Mode, PLAN_VERSION,
};
use binkflix::hls::playlist::clamp_offset;
use binkflix::hls::producer::{
    advance_head, after_wait, before_wait, current_encoder_name, effective_hw, falls_back,
    fresh_warnings, launch_window, lead_producer, nudged_target, pick_covering, plan_tick,
    promotes_init, reaper_action, reports_failure, sample, segment_is_complete, segment_step,
    FollowOutcome, FollowState, ProducerView, ReaperAction, ScratchAction, ScratchFile,
    SegmentStep,
};
use binkflix::hls::request::{
    cache_control, cached_segments, mode_dir, requested_audio, requested_mode, resolve_bitrate,
    tag_of, validate_audio_idx, RequestedMode,
};
use binkflix::media_info::{read_probe, ProbeFormat, ProbeOutput, ProbeStream};
use binkflix::types::{BrowserCompat, MediaTechInfo};

fn strings(v: &[&str]) -> Vec<String> {
    v.iter().map(|s| s.to_string()).collect()
}

fn stream(kind: &str, codec: &str, channels: Option<u32>) -> ProbeStream {
    ProbeStream {
        index: 0,
        codec_type: kind.to_string(),
        codec_name: codec.to_string(),
        profile: None,
        width: if kind == "video" { Some(1920) } else { None },
        height: if kind == "video" { Some(1080) } else { None },
        r_frame_rate: None,
        pix_fmt: None,
        channels,
        channel_layout: None,
        sample_rate: None,
        bit_rate: None,
        tags: vec![],
        disposition: vec![],
    }
}

fn probed(video: &str, audio: &str, channels: u32, duration: &str) -> MediaTechInfo {
    read_probe(&ProbeOutput {
        streams: vec![stream("video", video, None), stream("audio", audio, Some(channels))],
        format: ProbeFormat {
            format_name: Some("matroska,webm".to_string()),
            duration: Some(duration.to_string()),
            size: None,
            bit_rate: None,
        },
    })
    .0
}

#[test]
fn names_in_the_cache() {
    assert_eq!(segment_filename(7), "seg-00007.m4s");
    assert_eq!(segment_filename(123456), "seg-123456.m4s");
    assert_eq!(segment_index("seg-00007.m4s"), Some(7));
    assert_eq!(segment_index("seg-.m4s"), None);
    assert_eq!(segment_index("seg-99999999999.m4s"), None);
    assert_eq!(segment_index("seg-+5.m4s"), None);
    assert!(!is_allowed_name("seg-+5.m4s"));
    assert!(is_allowed_name("index.m3u8") && is_allowed_name("init.mp4") && is_allowed_name("seg-00001.m4s"));
    assert!(!is_allowed_name("../init.mp4") && !is_allowed_name("seg-x.m4s") && !is_allowed_name("seg-.m4s"));
    assert_eq!(mime_for("index.m3u8"), "application/vnd.apple.mpegurl");
    assert_eq!(mime_for("seg-00001.m4s"), "video/mp4");
    assert_eq!(mime_for("x"), "application/octet-stream");
    assert!(id_is_safe("abc-123") && !id_is_safe("a/b") && !id_is_safe(""));
}

#[test]
fn directories_in_the_cache() {
    let name = plan_dir_name(11, 1700000000, 42, 1);
    let prefix = plan_dir_prefix(11, 1700000000, 42);
    assert!(keeps_dir(&name, &prefix));
    assert!(!keeps_dir(&plan_dir_name(11, 1700000001, 42, 1), &prefix));
    assert!(!keeps_dir(&plan_dir_name(10, 1700000000, 42, 1), &prefix));
    assert!(plan_dir("/c", "id", 11, 1700000000, 42, 1).ends_with(&name));
    assert_ne!(name, plan_dir_name(11, 1700000000, 42, 2));
}

#[test]
fn arguments_for_a_copy() {
    let audio = Some(AudioPlan {
        src_codec: Some("aac".to_string()),
        out_codec: "copy".to_string(),
        channels: 2,
        bitrate_kbps: 192,
    });
    let args = ffmpeg_args(&Mode::Remux, HwEncoder::Software, &audio, 6_500_000, "/m/a.mkv", 1, 4);
    let text = args.join(" ");
    assert!(text.contains("-ss 6.500000 -copyts -i /m/a.mkv"));
    assert!(text.contains("-map 0:a:1?"));
    assert!(text.contains("-c:v copy"));
    assert!(text.contains("-c:a copy"));
    assert!(text.contains("-start_number 4"));
    assert!(!text.contains("-vf"));
}

#[test]
fn arguments_for_an_encode() {
    let audio = Some(AudioPlan {
        src_codec: Some("aac".to_string()),
        out_codec: "copy".to_string(),
        channels: 2,
        bitrate_kbps: 192,
    });
    let mode = Mode::Transcode { bitrate_kbps: 3001, max_height: 720 };
    let args = ffmpeg_args(&mode, HwEncoder::Vaapi, &audio, 0, "/m/a.mkv", 0, 1);
    let text = args.join(" ");
    assert!(text.contains("-init_hw_device vaapi=va:/dev/dri/renderD128"));
    assert!(text.contains("-c:v h264_vaapi"));
    assert!(text.contains("-b:v 3001k -maxrate 4501k -bufsize 6002k"));
    assert!(text.contains("-c:a aac -ac 2 -b:a 192k"));
    let soft = ffmpeg_args(&mode, HwEncoder::Software, &None, 0, "/m/a.mkv", 0, 1).join(" ");
    assert!(soft.contains("-c:v libx264 -preset veryfast"));
    assert!(!soft.contains("-c:a"));
}

#[test]
fn command_lines_are_quoted() {
    assert_eq!(format_argv(&strings(&["ffmpeg", "-i", "/a b.mkv", ""])), "ffmpeg -i '/a b.mkv' ''\n");
    assert_eq!(format_argv(&strings(&["it's"])), "'it'\\''s'\n");
}

fn machine(linux: bool, render_device: bool) -> Machine {
    Machine { linux, macos: !linux, render_device }
}

#[test]
fn directories_of_media() {
    assert_eq!(media_dir("/cache/hls", "abc"), "/cache/hls/abc");
}

#[test]
fn names_of_encoders() {
    assert_eq!(HwEncoder::Software.ffmpeg_name(), "libx264");
    assert_eq!(HwEncoder::Vaapi.ffmpeg_name(), "h264_vaapi");
    assert_eq!(HwEncoder::Qsv.ffmpeg_name(), "h264_qsv");
    assert_eq!(HwEncoder::VideoToolbox.ffmpeg_name(), "h264_videotoolbox");
}

#[test]
fn encoders_are_picked() {
    let listed = listed_encoders(" V..... h264_vaapi  x\n V..... h264_qsv y\n");
    assert!(listed.vaapi && listed.qsv && !listed.videotoolbox);
    assert_eq!(auto_pick(&listed, &machine(true, true)), HwEncoder::Vaapi);
    assert_eq!(auto_pick(&listed, &machine(true, false)), HwEncoder::Software);
    assert_eq!(auto_pick(&listed, &machine(false, false)), HwEncoder::Software);
    let mac = EncoderSet { vaapi: false, qsv: false, videotoolbox: true };
    assert_eq!(auto_pick(&mac, &machine(false, false)), HwEncoder::VideoToolbox);
    assert_eq!(validate_explicit(HwEncoder::Qsv, &listed, &machine(true, true)), HwEncoder::Qsv);
    assert_eq!(validate_explicit(HwEncoder::Qsv, &listed, &machine(true, false)), HwEncoder::Software);
    assert_eq!(validate_explicit(HwEncoder::VideoToolbox, &listed, &machine(true, true)), HwEncoder::Software);
    assert!(is_render_node("renderD128") && !is_render_node("card0"));
}

#[test]
fn encoders_by_setting() {
    let listed = || Some(EncoderSet { vaapi: true, qsv: true, videotoolbox: false });
    let m = machine(true, true);
    assert!(!needs_listing(Some("none")));
    assert!(needs_listing(None));
    assert_eq!(detect(Some("none"), listed(), &m), HwEncoder::Software);
    assert_eq!(detect(Some("qsv"), listed(), &m), HwEncoder::Qsv);
    assert_eq!(detect(None, listed(), &m), HwEncoder::Vaapi);
    assert_eq!(detect(Some("nvenc"), listed(), &m), HwEncoder::Software);
    assert_eq!(detect(None, None, &m), HwEncoder::Software);
}

#[test]
fn encoders_fall_back_once() {
    assert_eq!(effective_hw(true, HwEncoder::Qsv), HwEncoder::Software);
    assert_eq!(effective_hw(false, HwEncoder::Qsv), HwEncoder::Qsv);
    assert_eq!(current_encoder_name(false, HwEncoder::Qsv), "h264_qsv");
    assert_eq!(current_encoder_name(true, HwEncoder::Qsv), "libx264");
    assert!(falls_back(HwEncoder::Qsv, true));
    assert!(!falls_back(HwEncoder::Qsv, false));
    assert!(!falls_back(HwEncoder::Software, true));
}

#[test]
fn packaged_whole() {
    assert_eq!(done_path("/c/x"), "/c/x/.done");
    assert_eq!(join_run(true, true), Join::Serve);
    assert_eq!(join_run(false, true), Join::Wait);
    assert_eq!(join_run(false, false), Join::Lead);
    assert_eq!(check_video(Some("h264")), Ok(()));
    assert_eq!(check_video(Some("vp9")), Err("HLS transcode from vp9 not implemented yet".to_string()));
    let copied = run_ffmpeg("/m/a.mkv", "/c/x", Some("aac")).join(" ");
    assert!(copied.contains("-c:a copy"));
    let encoded = run_ffmpeg("/m/a.mkv", "/c/x", Some("ac3")).join(" ");
    assert!(encoded.contains("-c:a aac -ac 2 -b:a 192k"));
    assert!(is_segment("seg-00001.m4s") && !is_segment("init.mp4"));
    assert_eq!(cache_header("index.m3u8"), "no-store");
    assert_eq!(cache_header("seg-00001.m4s"), "public, max-age=31536000, immutable");
}

#[test]
fn seconds_are_read() {
    assert_eq!(parse_seconds("12.345678"), Some(12_345_678));
    assert_eq!(parse_seconds("0"), Some(0));
    assert_eq!(parse_seconds("N/A"), None);
    assert_eq!(parse_seconds("-1.0"), Some(-1_000_000));
    assert_eq!(parse_seconds("+1.5"), Some(1_500_000));
    assert_eq!(parse_seconds("5."), Some(5_000_000));
    assert_eq!(parse_seconds(".5"), Some(500_000));
    assert_eq!(parse_seconds("1.5e2"), Some(150_000_000));
    assert_eq!(parse_seconds("15E-1"), Some(1_500_000));
    assert_eq!(parse_seconds("1e+1"), Some(10_000_000));
    for s in ["", ".", "-", "e5", "1e", "1e+", "1.2.3", "1 ", "++1", "1e1.5", "inf", "nan"] {
        assert_eq!(parse_seconds(s), None, "{}", s);
    }
    assert_eq!(parse_packet_line("6.006000,K__"), Some(6_006_000));
    assert_eq!(parse_packet_line("6.006000,___"), None);
    assert_eq!(parse_packet_line("N/A,K__"), None);
    // A zero with a sign is a zero; what lies before it is no keyframe.
    assert_eq!(parse_packet_line("-0.000000,K__"), Some(0));
    assert_eq!(parse_packet_line("-0.080000,K__"), None);
    assert_eq!(parse_packet_line("-1e-9,K__"), None);
    assert_eq!(parse_packet_line("+2.5,K__"), Some(2_500_000));
}

#[test]
fn seconds_are_rounded_once() {
    assert_eq!(parse_seconds("0.0000004"), Some(0));
    assert_eq!(parse_seconds("0.0000005"), Some(1));
    assert_eq!(parse_seconds("1.2345678"), Some(1_234_568));
    assert_eq!(parse_seconds("1.23456749999"), Some(1_234_567));
    assert_eq!(parse_seconds("-0.0000001"), Some(-1));
    assert_eq!(parse_seconds("-0.5000000"), Some(-500_000));
    assert_eq!(parse_seconds("12345678e-13"), Some(1));
    assert_eq!(parse_seconds("1e-99999999999999999999999"), Some(0));
    assert_eq!(parse_seconds("-1e-99999999999999999999999"), Some(-1));
    assert_eq!(parse_seconds("0e99999999999999999999999"), Some(0));
    assert_eq!(parse_seconds("1e99999999999999999999999"), None);
    assert_eq!(parse_seconds("9223372036854.775807"), Some(i64::MAX));
    assert_eq!(parse_seconds("9223372036854.775808"), None);
    assert_eq!(parse_seconds("9223372036854.7758075"), None);
    assert_eq!(parse_seconds("-9223372036854.775807"), Some(-i64::MAX));
    assert_eq!(parse_seconds("0.000000000001e13"), Some(10_000_000));
    assert_eq!(parse_seconds("1e12"), Some(1_000_000_000_000_000_000));
    assert_eq!(parse_seconds("1e13"), None);
}

#[test]
fn heights_go_with_bitrates() {
    assert_eq!(height_for_bitrate(200), 360);
    assert_eq!(height_for_bitrate(999), 360);
    assert_eq!(height_for_bitrate(1000), 480);
    assert_eq!(height_for_bitrate(2500), 720);
    assert_eq!(height_for_bitrate(4000), 720);
    assert_eq!(height_for_bitrate(6000), 1080);
    assert_eq!(height_for_bitrate(20_000), 1080);
}

#[test]
fn keyframes_in_order_once() {
    let lines = strings(&["4.0,K__", "0.0,K__", "4.0,K__", "5.0,__", "2.0,K__"]);
    assert_eq!(collect_keyframes(&lines), vec![0, 2_000_000, 4_000_000]);
}

#[test]
fn plans_for_copies() {
    let info = probed("h264", "aac", 2, "20.0");
    let lines = strings(&["0.0,K__", "6.0,K__", "12.0,K__", "18.0,K__"]);
    let plan = build_remux_plan(&info, &lines).unwrap();
    assert_eq!(plan.version, PLAN_VERSION);
    assert!(matches!(plan.mode, Mode::Remux));
    assert_eq!(plan.duration, 20_000_000);
    assert_eq!(plan.segments[0].i, 1);
    assert_eq!(plan.segments.iter().map(|s| s.d).sum::<u64>(), 20_000_000);
    assert_eq!(mode_str(&plan.mode), "remux");
    assert!(build_remux_plan(&probed("h264", "aac", 2, "0.1"), &lines).is_err());
    assert!(build_remux_plan(&info, &strings(&[])).is_err());
}

#[test]
fn what_can_be_copied() {
    assert_eq!(is_copy_remux_viable(&probed("h264", "ac3", 6, "20.0")), Ok(()));
    assert!(is_copy_remux_viable(&probed("vp9", "opus", 2, "20.0")).is_err());
    let none = read_probe(&ProbeOutput {
        streams: vec![],
        format: ProbeFormat { format_name: None, duration: None, size: None, bit_rate: None },
    });
    assert!(is_copy_remux_viable(&none.0).is_err());
}

#[test]
fn plans_for_audio() {
    let copied = derive_audio_plan(&probed("h264", "aac", 2, "20.0"), 0).unwrap();
    assert_eq!(copied.out_codec, "copy");
    let encoded = derive_audio_plan(&probed("h264", "dts", 6, "20.0"), 0).unwrap();
    assert_eq!(encoded.out_codec, "aac");
    assert_eq!(encoded.src_codec.as_deref(), Some("dts"));
    assert!(derive_audio_plan(&probed("h264", "dts", 6, "20.0"), 1).is_none());
}

#[test]
fn plans_grow_stale() {
    assert!(is_fresh(PLAN_VERSION, (1, 2), Some((1, 2))));
    assert!(!is_fresh(PLAN_VERSION, (1, 2), Some((1, 3))));
    assert!(!is_fresh(PLAN_VERSION - 1, (1, 2), Some((1, 2))));
    assert!(!is_fresh(PLAN_VERSION, (1, 2), None));
}

#[test]
fn offsets_stay_within() {
    assert_eq!(clamp_offset(None, 10_000_000), None);
    assert_eq!(clamp_offset(Some(3_000_000), 10_000_000), Some(3_000_000));
    assert_eq!(clamp_offset(Some(30_000_000), 10_000_000), Some(9_500_000));
    assert_eq!(clamp_offset(Some(0), 10_000_000), None);
    assert_eq!(clamp_offset(Some(-1), 10_000_000), None);
    assert_eq!(clamp_offset(Some(3), 400_000), Some(0));
}

#[test]
fn requests_are_checked() {
    assert_eq!(requested_audio(None), 0);
    assert_eq!(requested_audio(Some(3)), 3);
    assert_eq!(validate_audio_idx(64), Ok(64));
    assert_eq!(validate_audio_idx(65), Err("audio index 65 out of range (max 64)".to_string()));
    assert_eq!(resolve_bitrate(Some(10), None), 200);
    assert_eq!(resolve_bitrate(Some(50_000), None), 20_000);
    assert_eq!(resolve_bitrate(None, None), 4000);
    assert_eq!(resolve_bitrate(None, Some(9000)), 6000);
    assert_eq!(resolve_bitrate(None, Some(2500)), 2500);
    assert_eq!(requested_mode(None, BrowserCompat::Transcode), Ok(RequestedMode::Transcode));
    assert_eq!(requested_mode(None, BrowserCompat::Direct), Ok(RequestedMode::Remux));
    assert_eq!(requested_mode(Some("transcode"), BrowserCompat::Direct), Ok(RequestedMode::Transcode));
    assert_eq!(requested_mode(Some("x"), BrowserCompat::Direct), Err("unknown hls mode: x".to_string()));
    assert_eq!(tag_of(&Mode::Remux), "remux");
    assert_eq!(tag_of(&Mode::Transcode { bitrate_kbps: 12, max_height: 3 }), "tx12h3");
    assert_eq!(cache_control(false), "no-store");
    assert_eq!(cache_control(true), "public, max-age=31536000, immutable");
}

#[test]
fn cached_segments_are_listed() {
    let names = strings(&["seg-00003.m4s", "init.mp4", "seg-00001.m4s", "seg-00009.m4s", "seg-00000.m4s"]);
    assert_eq!(cached_segments(&names, 5), vec![1, 3]);
}

fn view(id: u64, start_idx: u32, head: u32) -> ProducerView {
    ProducerView { id, start_idx, head }
}

#[test]
fn requests_find_their_producer() {
    let pool = vec![view(1, 1, 5), view(2, 10, 12)];
    assert_eq!(pick_covering(&pool, 6, &vec![]), Some(0));
    assert_eq!(pick_covering(&pool, 14, &vec![]), Some(1));
    assert_eq!(pick_covering(&pool, 14, &vec![2]), None);
    assert_eq!(pick_covering(&pool, 90, &vec![]), None);
    assert_eq!(segment_step(0, 20, false, &pool, &vec![]), SegmentStep::OutOfRange);
    assert_eq!(segment_step(21, 20, true, &pool, &vec![]), SegmentStep::OutOfRange);
    assert_eq!(segment_step(6, 20, true, &pool, &vec![]), SegmentStep::Serve { nudge: Some(0) });
    assert_eq!(segment_step(6, 20, false, &pool, &vec![]), SegmentStep::Follow { leader: 0 });
    assert_eq!(segment_step(6, 20, false, &pool, &vec![1]), SegmentStep::Spawn);
    assert_eq!(lead_producer(&pool), Some(1));
    assert_eq!(lead_producer(&vec![]), None);
}

#[test]
fn followers_wait_and_give_up() {
    assert_eq!(before_wait(true, 9, 5), Some(FollowOutcome::Ready));
    assert_eq!(before_wait(false, 9, 5), Some(FollowOutcome::Timeout));
    assert_eq!(before_wait(false, 1, 5), None);
    let mut st = FollowState { last_head: 3, last_progress_ms: 0 };
    assert_eq!(after_wait(&mut st, false, true, 4, 9, 2_000), None);
    assert_eq!((st.last_head, st.last_progress_ms), (4, 2_000));
    assert_eq!(after_wait(&mut st, false, true, 4, 9, 3_499), None);
    assert_eq!(after_wait(&mut st, false, true, 4, 9, 3_500), Some(FollowOutcome::Respawn));
    assert_eq!(after_wait(&mut st, false, false, 4, 9, 2_001), Some(FollowOutcome::Respawn));
    assert_eq!(after_wait(&mut st, true, false, 4, 9, 2_001), Some(FollowOutcome::Ready));
}

#[test]
fn producers_start_with_a_preroll() {
    let w = launch_window(5, 20);
    assert_eq!((w.ff_start_idx, w.head, w.target_head), (4, 4, 8));
    let first = launch_window(1, 2);
    assert_eq!((first.ff_start_idx, first.head, first.target_head), (1, 0, 2));
    assert_eq!(nudged_target(8, 7, 20), 10);
    assert_eq!(nudged_target(12, 7, 20), 12);
}

#[test]
fn finished_files_are_delivered() {
    let file = |idx: u32, size: u64| ScratchFile { idx, size };
    let scratch = vec![file(3, 10), file(4, 10), file(5, 10), file(6, 7)];
    let seen = vec![file(6, 7)];
    assert_eq!(
        plan_tick(&scratch, &seen, &vec![4], 9, 4),
        vec![ScratchAction::Delete, ScratchAction::Delete, ScratchAction::Promote, ScratchAction::PromoteIfComplete]
    );
    assert_eq!(plan_tick(&scratch, &vec![file(6, 6)], &vec![], 9, 1)[3], ScratchAction::Wait);
    assert!(promotes_init(false, true, true));
    assert!(!promotes_init(true, true, true) && !promotes_init(false, true, false));
    assert_eq!(advance_head(4, 5, &vec![5, 6, 8]), 6);
    assert_eq!(advance_head(9, 5, &vec![5, 6, 8]), 9);
}

#[test]
fn segments_cut_off_are_not_complete() {
    let mut b = vec![0, 0, 0, 8, b'm', b'o', b'o', b'f', 0, 0, 0, 10, b'm', b'd', b'a', b't', 1, 2];
    assert!(segment_is_complete(&b));
    b.pop();
    assert!(!segment_is_complete(&b));
    assert!(!segment_is_complete(&vec![0, 0, 0, 4, 0, 0, 0, 0]));
}

#[test]
fn producers_are_throttled() {
    assert_eq!(reaper_action(30_000, 1, 9, false), ReaperAction::Reap);
    assert_eq!(reaper_action(0, 9, 9, false), ReaperAction::Pause);
    assert_eq!(reaper_action(0, 8, 9, true), ReaperAction::Resume);
    assert_eq!(reaper_action(0, 9, 9, true), ReaperAction::Nothing);
    assert!(reports_failure(0) && reports_failure(50) && !reports_failure(1));
}

#[test]
fn warnings_come_once() {
    let mut warned = vec![false; 4];
    let line = "Non-monotonous DTS in output, corrupt";
    assert_eq!(fresh_warnings(line, &mut warned), vec![false, false, true, true]);
    assert_eq!(fresh_warnings(line, &mut warned), vec![false; 4]);
    assert_eq!(sample(&"x".repeat(300)).len(), 200);
}

#[test]
fn encodes_are_cut_evenly() {
    let info = probed("hevc", "ac3", 6, "20.500000");
    let plan = build_transcode_plan(&info, 4000).unwrap();
    assert_eq!(plan.version, PLAN_VERSION);
    assert_eq!(plan.mode, Mode::Transcode { bitrate_kbps: 4000, max_height: 720 });
    assert_eq!((plan.duration, plan.video_codec.as_str()), (20_500_000, "h264"));
    let cut: Vec<(u32, u64, u64)> = plan.segments.iter().map(|s| (s.i, s.t, s.d)).collect();
    assert_eq!(
        cut,
        vec![
            (1, 0, 6_000_000),
            (2, 6_000_000, 6_000_000),
            (3, 12_000_000, 6_000_000),
            (4, 18_000_000, 2_500_000),
        ]
    );
    let whole = build_transcode_plan(&probed("hevc", "ac3", 6, "12.000000"), 4000).unwrap();
    assert_eq!(whole.segments.len(), 2);
    let unknown = build_transcode_plan(&probed("hevc", "ac3", 6, "x"), 4000);
    assert_eq!(unknown.err().as_deref(), Some("unknown duration"));
}

#[test]
fn modes_have_directories_of_their_own() {
    let tx = Mode::Transcode { bitrate_kbps: 4000, max_height: 720 };
    assert_eq!(mode_dir("/c/m/v11-m1-s2-a0", &Mode::Remux), "/c/m/v11-m1-s2-a0");
    assert_eq!(mode_dir("/c/m/v11-m1-s2-a0", &tx), "/c/m/v11-m1-s2-a0-tx4000h720");
}
