use binkflix::mp4::{
    find_top_level_box, patch_mp4_moov_durations, HeaderFilter, BUFFER_LIMIT, MOOV,
};
use binkflix::remux::{
    chosen_reason, delivery, delivery_mode_str, open_playback_session, output_family,
    remux_headers, remux_plan, requested_delivery, transcode_target, OutputFamily, StreamQuery,
};
use binkflix::types::{AudioTrackInfo, BrowserCompat, MediaTechInfo, VideoTrackInfo};

fn info(video: &str, audio: &str, duration_us: Option<i64>) -> Option<MediaTechInfo> {
    Some(MediaTechInfo {
        container: Some("matroska".into()),
        duration_us,
        bitrate_kbps: None,
        file_size: None,
        video: Some(VideoTrackInfo {
            codec: video.into(),
            profile: None,
            width: None,
            height: None,
            fps: None,
            bitrate_kbps: None,
            pix_fmt: None,
        }),
        audio: vec![AudioTrackInfo {
            codec: audio.into(),
            channels: None,
            channel_layout: None,
            sample_rate_hz: None,
            bitrate_kbps: None,
            language: None,
            title: None,
            default: true,
        }],
        browser_compat: BrowserCompat::Remux,
        compat_reason: Some("because".into()),
    })
}

#[test]
fn ways_of_delivery() {
    let q = |m: Option<&str>| StreamQuery { mode: m.map(|s| s.to_string()) };
    assert_eq!(requested_delivery(&q(None)), Ok(None));
    assert_eq!(requested_delivery(&q(Some("remux"))), Ok(Some(BrowserCompat::Remux)));
    assert_eq!(requested_delivery(&q(Some("x"))), Err("unknown stream mode: x".to_string()));
    assert_eq!(delivery(Some(BrowserCompat::Transcode), Some(BrowserCompat::Remux), None), BrowserCompat::Transcode);
    assert_eq!(delivery(None, Some(BrowserCompat::Remux), Some(BrowserCompat::Direct)), BrowserCompat::Remux);
    assert_eq!(delivery(None, None, Some(BrowserCompat::Transcode)), BrowserCompat::Transcode);
    assert_eq!(delivery(None, None, None), BrowserCompat::Direct);
    assert_eq!(delivery_mode_str(BrowserCompat::Direct), "direct");
    assert_eq!(transcode_target("m"), "/api/media/m/hls/index.m3u8?a=0&mode=transcode");
}

#[test]
fn sessions_are_recorded() {
    assert_eq!(chosen_reason(BrowserCompat::Remux, true, &None).as_deref(), Some("forced_via_query:remux"));
    let i = info("h264", "ac3", None);
    assert_eq!(chosen_reason(BrowserCompat::Remux, false, &i).as_deref(), Some("because"));
    let s = open_playback_session("m", BrowserCompat::Remux, false, &i, Some("u".into()), None);
    let t = s.start();
    assert_eq!((t.id.len(), t.media_id, t.delivery_mode), (32, "m", "remux"));
    assert_eq!((t.src_video_codec, t.src_audio_codec, t.src_container), (Some("h264"), Some("ac3"), Some("matroska")));
    assert_eq!((t.user_sub, t.browser, t.out_container, t.forced_via_query), (Some("u"), None, None, false));
    let other = open_playback_session("m", BrowserCompat::Remux, false, &i, None, None);
    assert_ne!(other.id, s.id);
}

#[test]
fn a_file_is_repackaged() {
    assert_eq!(output_family(Some("av1")), OutputFamily::WebM);
    assert_eq!(output_family(None), OutputFamily::Mp4);
    let p = remux_plan("/m/a.mkv", &info("h264", "ac3", Some(1_500_000)));
    assert_eq!(
        p.args.join(" "),
        "-hide_banner -loglevel warning -nostdin -i /m/a.mkv -t 1.500 -c:v copy -c:a aac -ac 2 \
         -b:a 192k -sn -dn -map 0:v:0 -map 0:a:0? -movflags \
         frag_keyframe+empty_moov+default_base_moof -f mp4 pipe:1"
    );
    assert_eq!((p.audio_action.as_str(), p.out_audio_codec.as_str()), ("aac", "aac"));
    assert!(p.patch_moov);
    let p = remux_plan("/m/a.mkv", &info("vp9", "opus", None));
    assert_eq!(
        p.args.join(" "),
        "-hide_banner -loglevel warning -nostdin -i /m/a.mkv -c:v copy -c:a copy -sn -dn \
         -map 0:v:0 -map 0:a:0? -f webm pipe:1"
    );
    assert_eq!((p.audio_action.as_str(), p.out_audio_codec.as_str()), ("copy", "opus"));
    assert!(!p.patch_moov);
    let h = remux_headers(&p);
    assert!(h.contains(&("x-stream-audio".to_string(), "copy".to_string())));
    assert!(h.contains(&("content-type".to_string(), "video/webm".to_string())));
}

fn boxed(name: &[u8], payload: &[u8]) -> Vec<u8> {
    let mut v = ((payload.len() + 8) as u32).to_be_bytes().to_vec();
    v.extend_from_slice(name);
    v.extend_from_slice(payload);
    v
}

fn header(timescale: u32) -> Vec<u8> {
    // Version and flags, creation, modification, timescale, duration.
    let mut v = vec![0u8; 12];
    v.extend_from_slice(&timescale.to_be_bytes());
    v.extend_from_slice(&[0u8; 8]);
    v
}

fn moov() -> Vec<u8> {
    let mdia = boxed(b"mdia", &boxed(b"mdhd", &header(48_000)));
    let trak = boxed(b"trak", &mdia);
    let mut inner = boxed(b"mvhd", &header(1000));
    inner.extend(trak);
    boxed(b"moov", &inner)
}

fn number(b: &[u8], at: usize) -> u32 {
    u32::from_be_bytes(b[at..at + 4].try_into().unwrap())
}

#[test]
fn durations_are_patched() {
    let mut b = boxed(b"ftyp", b"isom");
    b.extend(moov());
    let n = b.len();
    assert_eq!(find_top_level_box(&b, MOOV), Some((12, n)));
    assert_eq!(find_top_level_box(&b[..n - 1].to_vec(), MOOV), None);
    let before = b.clone();
    patch_mp4_moov_durations(&mut b, 12, n, 2_500_000);
    // The movie's duration, in its own unit, and the track's in that of the track.
    let mvhd = 12 + 8 + 8;
    assert_eq!(number(&b, mvhd + 12), 1000);
    assert_eq!(number(&b, mvhd + 16), 2500);
    let mdhd = 12 + 8 + 32 + 8 + 8 + 8;
    assert_eq!(number(&b, mdhd + 12), 48_000);
    assert_eq!(number(&b, mdhd + 16), 120_000);
    let changed: Vec<usize> = (0..n).filter(|k| b[*k] != before[*k]).collect();
    assert!(changed.iter().all(|k| (mvhd + 16..mvhd + 20).contains(k) || (mdhd + 16..mdhd + 20).contains(k)));
}

#[test]
fn durations_are_rounded_like_floats() {
    let patched = |us: u64| {
        let mut b = boxed(b"moov", &boxed(b"mvhd", &header(1000)));
        let n = b.len();
        patch_mp4_moov_durations(&mut b, 0, n, us);
        number(&b, 8 + 8 + 16)
    };
    assert_eq!(patched(2_500), 3);
    assert_eq!(patched(2_499), 2);
    assert_eq!(patched(8_308_630_499), 8_308_630);
    // Half a unit in decimal, but a little less in binary.
    assert_eq!(patched(8_308_630_500), 8_308_630);
    assert_eq!(patched(8_308_630_501), 8_308_631);
}

#[test]
fn long_headers_hold_long_durations() {
    // Version 1 has 64 bits for times.
    let mut v1 = vec![1u8, 0, 0, 0];
    v1.extend_from_slice(&[0u8; 16]);
    v1.extend_from_slice(&90_000u32.to_be_bytes());
    v1.extend_from_slice(&[0u8; 8]);
    let mut b = boxed(b"moov", &boxed(b"mvhd", &v1));
    let n = b.len();
    let before = b.clone();
    // A hundred hours are more units than 32 bits hold.
    patch_mp4_moov_durations(&mut b, 0, n, 360_000_000_000);
    let at = 8 + 8 + 24;
    assert_eq!(u64::from_be_bytes(b[at..at + 8].try_into().unwrap()), 32_400_000_000);
    assert_eq!(b[..at], before[..at]);
    // In version 0 the duration is the longest there is.
    let mut c = boxed(b"moov", &boxed(b"mvhd", &header(90_000)));
    let m = c.len();
    patch_mp4_moov_durations(&mut c, 0, m, 360_000_000_000);
    assert_eq!(number(&c, 8 + 8 + 16), u32::MAX);
}

#[test]
fn the_header_is_held_back_until_it_is_whole() {
    let mut f = HeaderFilter::new(true, Some(2_500_000));
    let m = moov();
    assert_eq!(f.feed(m[..20].to_vec()), None);
    let out = f.feed(m[20..].to_vec()).unwrap();
    assert_eq!(out.len(), m.len());
    assert_eq!(number(&out, 8 + 8 + 16), 2500);
    assert_eq!(f.feed(vec![1, 2, 3]), Some(vec![1, 2, 3]));
    assert_eq!(f.finish(), None);
    let mut f = HeaderFilter::new(true, None);
    assert_eq!(f.feed(vec![0, 0]), None);
    assert_eq!(f.finish(), Some(vec![0, 0]));
    let mut f = HeaderFilter::new(false, None);
    assert_eq!(f.feed(vec![9]), Some(vec![9]));
    // Something that is no header is not held back for ever.
    let mut f = HeaderFilter::new(true, None);
    let mut big = boxed(b"free", &[]);
    big[0] = 0x7f;
    big.resize(BUFFER_LIMIT + 1, 0);
    assert!(f.feed(big).is_some());
}
