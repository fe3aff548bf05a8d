use binkflix::nfo::{EpisodeNfo, MovieNfo, TvShowNfo};
use binkflix::scanner::files::{
    classify, find_episode_thumb, find_movie_fanart, find_movie_image, find_show_banner,
    find_show_clearlogo, find_show_fanart, find_show_folder, find_show_poster, is_video,
    matching_nfo, Classification,
};
use binkflix::scanner::index::{
    first_int, infer_season_episode, upsert_episode, upsert_movie, upsert_show, FileFacts,
};
use binkflix::scanner::progress::{Pass, ScanProgress};
use binkflix::scanner::run::{
    asset_job, concurrency, display_name, essential_timing, inactive_libraries, library_name,
    library_paths, max_videos, pass_total, refresh_timing, season_label, summary,
    thumbnail_timing, trickplay_timing, unanalyzed, Asset, CancelToken, Counted, EssentialOutcome,
    ScanStats, Step, Walk,
};
use binkflix::scanner::stale::{
    current_show, needs_analysis, needs_refresh, staleness, MediaRow, SeasonRow, ShowStamp, AUDIO_MARKERS_VERSION,
    MARKERS_VERSION, MEDIA_SCAN_VERSION, SHOW_SCAN_VERSION, SUBTITLES_VERSION, THUMBNAILS_VERSION,
    TRICKPLAY_VERSION,
};
use binkflix::types::{AudioTrackInfo, BrowserCompat, MediaTechInfo, VideoTrackInfo};
use std::sync::atomic::{AtomicU64, Ordering};
use std::sync::Arc;

fn strings(v: &[&str]) -> Vec<String> {
    v.iter().map(|s| s.to_string()).collect()
}

fn is_episode_of(c: &Classification, dir: &str) -> bool {
    matches!(c, Classification::Episode(d) if d == dir)
}

fn row() -> MediaRow {
    MediaRow {
        id: "m1".to_string(),
        scanned_at: "2024-01-02 03:04:05".to_string(),
        scan_version: MEDIA_SCAN_VERSION,
        deleted: false,
        subtitles_version: SUBTITLES_VERSION,
        markers_version: MARKERS_VERSION,
        thumbnails_version: THUMBNAILS_VERSION,
        trickplay_version: TRICKPLAY_VERSION,
        content_mtime: Some(1_000),
        content_size: Some(2_000),
    }
}

/// 2024-01-02 03:04:05 in seconds.
const SCANNED: i64 = 1_704_164_645;

#[test]
fn videos_by_extension() {
    assert!(is_video("/m/a.mkv"));
    assert!(is_video("/m/a.MKV"));
    assert!(is_video("a.m2ts"));
    assert!(!is_video("/m/a.srt"));
    assert!(!is_video("/m/.mkv"));
    assert!(!is_video("/m/mkv"));
}

#[test]
fn images_beside_a_movie() {
    let files = strings(&["/m/Film.png", "/m/poster.jpg", "/m/fanart.webp", "/m/Film-fanart.jpeg"]);
    assert_eq!(find_movie_image("/m/Film.mkv", &files), Some("/m/Film.png".to_string()));
    assert_eq!(find_movie_image("/m/Other.mkv", &files), Some("/m/poster.jpg".to_string()));
    assert_eq!(find_movie_fanart("/m/Film.mkv", &files), Some("/m/Film-fanart.jpeg".to_string()));
    assert_eq!(find_movie_fanart("/m/Other.mkv", &files), Some("/m/fanart.webp".to_string()));
    assert_eq!(find_movie_image("/n/Film.mkv", &files), None);
    assert_eq!(find_episode_thumb("/m/Film.mkv", &files), None);
    let thumb = strings(&["/s/E01-thumb.jpg"]);
    assert_eq!(find_episode_thumb("/s/E01.mkv", &thumb), Some("/s/E01-thumb.jpg".to_string()));
}

#[test]
fn images_of_a_show() {
    let files = strings(&["/s/poster.png", "/s/poster.jpg", "/s/banner.jpg", "/s/fanart.jpg", "/s/clearlogo.png"]);
    assert_eq!(find_show_poster("/s", &files), Some("/s/poster.jpg".to_string()));
    assert_eq!(find_show_banner("/s", &files), Some("/s/banner.jpg".to_string()));
    assert_eq!(find_show_fanart("/s", &files), Some("/s/fanart.jpg".to_string()));
    assert_eq!(find_show_clearlogo("/s", &files), Some("/s/clearlogo.png".to_string()));
    assert_eq!(find_show_poster("/t", &files), None);
}

#[test]
fn metadata_of_a_movie() {
    let both = strings(&["/m/Film.nfo", "/m/movie.nfo"]);
    assert_eq!(matching_nfo("/m/Film.mkv", &both), Some("/m/Film.nfo".to_string()));
    assert_eq!(matching_nfo("/m/Other.mkv", &both), Some("/m/movie.nfo".to_string()));
    assert_eq!(matching_nfo("/n/Other.mkv", &both), None);
}

#[test]
fn folder_of_a_show() {
    let files = strings(&["/lib/Show/tvshow.nfo"]);
    let found = Some("/lib/Show".to_string());
    assert_eq!(find_show_folder("/lib/Show/Season 1/E1.mkv", "/lib", &files), found);
    assert_eq!(find_show_folder("/lib/Show/E1.mkv", "/lib", &files), found);
    assert_eq!(find_show_folder("/lib/Film/F.mkv", "/lib", &files), None);
    let above = strings(&["/tvshow.nfo"]);
    assert_eq!(find_show_folder("/lib/Show/E1.mkv", "/lib", &above), None);
}

#[test]
fn videos_are_classified() {
    let none: Vec<String> = Vec::new();
    let show = strings(&["/lib/Show/tvshow.nfo"]);
    let movie = Some("<?xml version=\"1.0\"?>\n<movie></movie>");
    let episode = Some("<episodedetails></episodedetails>");
    let path = "/lib/Show/Season 2/Show S02E03.mkv";
    assert!(matches!(classify(path, "/lib", &show, movie), Classification::Movie));
    assert!(is_episode_of(&classify(path, "/lib", &show, episode), "/lib/Show"));
    assert!(is_episode_of(&classify(path, "/lib", &show, None), "/lib/Show"));
    assert!(is_episode_of(&classify("/lib/X/y.mkv", "/lib", &none, episode), "/lib/X"));
    assert!(matches!(classify("/lib/Film/Film.mkv", "/lib", &none, None), Classification::Movie));
    assert!(matches!(classify("/lib/Film S01E01.mkv", "/lib", &none, None), Classification::Movie));
}

#[test]
fn numbers_in_names() {
    assert_eq!(first_int("Season 02"), Some(2));
    assert_eq!(first_int("a12b34"), Some(12));
    assert_eq!(first_int("none"), None);
    assert_eq!(first_int("99999999999999999999"), None);
    assert_eq!(infer_season_episode("/s/Season 3/07 - Title.mkv", "/s"), (3, 7));
    assert_eq!(infer_season_episode("/s/07.mkv", "/s"), (1, 7));
    assert_eq!(infer_season_episode("/s/Extras/07.mkv", "/s"), (1, 7));
    let mut h: u64 = 1469598103934665603;
    for byte in "Pilot".bytes() {
        h ^= byte as u64;
        h = h.wrapping_mul(1099511628211);
    }
    assert_eq!(infer_season_episode("/s/Pilot.mkv", "/s"), (1, 1000 + (h % 9000) as i64));
}

#[test]
fn current_rows_stay() {
    let r = staleness(&Some(row()), (1_000, 2_000), &vec![SCANNED - 1]);
    assert!(r.is_current());
    assert!(!r.needs_assets());
}

#[test]
fn sidecars_bring_metadata_only() {
    let r = staleness(&Some(row()), (1_000, 2_000), &vec![SCANNED + 10]);
    assert!(r.file_changed && !r.metadata_stale && !r.needs_assets());
}

#[test]
fn older_files_count_as_changed() {
    let r = staleness(&Some(row()), (999, 2_000), &vec![]);
    assert!(r.file_changed && r.needs_essential && r.needs_thumbnails && r.needs_trickplay);
}

#[test]
fn unknown_signatures_spare_images() {
    let mut old = row();
    old.content_mtime = None;
    let r = staleness(&Some(old), (999, 2_000), &vec![]);
    assert!(!r.file_changed && r.needs_essential && !r.needs_thumbnails && !r.needs_trickplay);
}

#[test]
fn deleted_and_new_files_are_all_stale() {
    let mut gone = row();
    gone.deleted = true;
    let r = staleness(&Some(gone), (1_000, 2_000), &vec![]);
    assert!(r.file_changed && r.needs_essential && r.needs_thumbnails && r.needs_trickplay);
    let n = staleness(&None, (1_000, 2_000), &vec![]);
    assert!(n.file_changed && n.metadata_stale && n.needs_essential);
}

#[test]
fn one_asset_can_be_stale() {
    let mut r = row();
    r.trickplay_version = TRICKPLAY_VERSION - 1;
    let s = staleness(&Some(r), (1_000, 2_000), &vec![]);
    assert!(!s.file_changed && !s.needs_essential && !s.needs_thumbnails && s.needs_trickplay);
}

fn stamp(scanned_at: &str) -> ShowStamp {
    ShowStamp {
        id: "s1".to_string(),
        scanned_at: scanned_at.to_string(),
        scan_version: SHOW_SCAN_VERSION,
        deleted: false,
    }
}

#[test]
fn shows_are_current_until_touched() {
    let at = "2024-01-02 03:04:05";
    assert_eq!(current_show(&Some(stamp(at)), &vec![SCANNED]), Some("s1".to_string()));
    assert_eq!(current_show(&Some(stamp(at)), &vec![SCANNED + 5]), None);
    assert_eq!(current_show(&None, &vec![]), None);
    let mut gone = stamp(at);
    gone.deleted = true;
    assert_eq!(current_show(&Some(gone), &vec![]), None);
}

fn season_row(id: &str, fp: bool, audio: i64) -> SeasonRow {
    SeasonRow {
        id: id.to_string(),
        content_mtime: Some(1),
        content_size: Some(2),
        audio_markers_version: audio,
        fp_mtime: if fp { Some(1) } else { None },
        fp_size: if fp { Some(2) } else { None },
        fp_version: if fp { Some(binkflix::markers::FP_ALGO_VERSION) } else { None },
    }
}

#[test]
fn seasons_that_are_due() {
    let v = AUDIO_MARKERS_VERSION;
    assert!(!needs_analysis(&vec![season_row("a", false, 0)]));
    assert!(!needs_analysis(&vec![season_row("a", true, v), season_row("b", true, v)]));
    assert!(needs_analysis(&vec![season_row("a", true, v), season_row("b", false, v)]));
    assert!(needs_analysis(&vec![season_row("a", true, v), season_row("b", true, v - 1)]));
}

fn facts(path: &str) -> FileFacts {
    FileFacts {
        path: path.to_string(),
        size: 2_000,
        mtime: 1_000,
        known_mtime: Some(1_704_164_645),
        sidecar_mtimes: vec![],
    }
}

#[test]
fn new_movies_are_written() {
    let nfo = MovieNfo { title: Some("The Film".to_string()), year: Some(1999), ..MovieNfo::default() };
    let files = strings(&["/m/Film-poster.jpg"]);
    let (out, written) = upsert_movie(&None, &facts("/m/Film.mkv"), &nfo, &files, 5);
    let r = written.unwrap();
    assert!(out.re_indexed && out.has_sidecar_image && out.needs_essential);
    assert_eq!(out.id, r.id);
    assert_eq!(r.title, "The Film");
    assert_eq!(r.sort_title, "film");
    assert_eq!(r.year, Some(1999));
    assert_eq!(r.image_path.as_deref(), Some("/m/Film-poster.jpg"));
    assert_eq!(r.added_at, "2024-01-02 03:04:05");
    assert_eq!(r.file_size, 2_000);
}

#[test]
fn current_movies_are_left_alone() {
    let (out, written) = upsert_movie(&Some(row()), &facts("/m/Film.mkv"), &MovieNfo::default(), &vec![], 5);
    assert!(written.is_none());
    assert_eq!(out.id, "m1");
    assert!(!out.re_indexed && !out.needs_essential);
}

#[test]
fn episodes_take_numbers_from_their_names() {
    let (out, written) = upsert_episode(
        &None,
        "s1",
        "/s",
        &facts("/s/Season 1/Show S02E05.mkv"),
        &EpisodeNfo::default(),
        &vec![],
        5,
    );
    let r = written.unwrap();
    assert_eq!((r.season_number, r.episode_number), (2, 5));
    assert_eq!(r.show_id, "s1");
    assert!(!out.has_sidecar_image);
    let nfo = EpisodeNfo { season: Some(7), episode: Some(8), ..EpisodeNfo::default() };
    let (_, w2) = upsert_episode(&None, "s1", "/s", &facts("/s/Show S02E05.mkv"), &nfo, &vec![], 5);
    let r2 = w2.unwrap();
    assert_eq!((r2.season_number, r2.episode_number), (7, 8));
}

#[test]
fn shows_are_written_once() {
    let nfo = TvShowNfo { title: Some("A Show".to_string()), ..TvShowNfo::default() };
    let (id, written) = upsert_show(&None, "/s/A Show", &vec![], Some(0), &nfo, &vec![], 5);
    let r = written.unwrap();
    assert_eq!(id, r.id);
    assert_eq!(r.title, "A Show");
    assert_eq!(r.sort_title, "show");
    assert_eq!(r.added_at, "1970-01-01 00:00:00");
    let at = "2024-01-02 03:04:05";
    let (id2, none) = upsert_show(&Some(stamp(at)), "/s/A Show", &vec![1], None, &nfo, &vec![], 5);
    assert_eq!(id2, "s1");
    assert!(none.is_none());
}

#[test]
fn newer_generations_cancel() {
    let counter = Arc::new(AtomicU64::new(1));
    let token = CancelToken::new(counter.clone());
    assert!(!token.is_cancelled());
    assert!(!token.is_cancelled_at(1));
    counter.fetch_add(1, Ordering::AcqRel);
    assert!(token.is_cancelled());
    assert!(token.is_cancelled_at(2));
    let second = CancelToken::of_generation(counter.clone(), 2);
    assert!(!second.is_cancelled());
    assert!(second.is_cancelled_at(1));
    let copy = second.clone();
    counter.fetch_add(1, Ordering::AcqRel);
    assert!(copy.is_cancelled() && second.is_cancelled());
    assert!(!copy.is_cancelled_at(2));
    assert!(!CancelToken::new(counter).is_cancelled());
}

#[test]
fn settings_of_a_scan() {
    assert_eq!(max_videos(None), None);
    assert_eq!(max_videos(Some("0")), None);
    assert_eq!(max_videos(Some("12")), Some(12));
    assert_eq!(max_videos(Some("x")), None);
    assert_eq!(concurrency(None), 4);
    assert_eq!(concurrency(Some("2")), 2);
    assert_eq!(concurrency(Some("-1")), 4);
    assert_eq!(library_paths("/a: /b :"), strings(&["/a", "/b"]));
    assert_eq!(library_paths(""), strings(&[]));
    assert_eq!(library_name("/media/Movies"), "Movies");
}

#[test]
fn complete_walks_find_what_is_gone() {
    let mut w = Walk::new(None);
    assert_eq!(w.step(false, true, "/a/x.mkv"), Step::Take);
    w.saw("/a/x.mkv");
    assert_eq!(w.step(false, true, "/a/x.srt"), Step::Skip);
    assert_eq!(w.step(false, false, "/a/d.mkv"), Step::Skip);
    assert_eq!(w.seen(), 1);
    let stored = vec![
        ("1".to_string(), "/a/x.mkv".to_string()),
        ("2".to_string(), "/a/y.mkv".to_string()),
    ];
    assert_eq!(w.missing(&stored), strings(&["2"]));
}

#[test]
fn stopped_walks_find_nothing() {
    let stored = vec![("2".to_string(), "/a/y.mkv".to_string())];
    let mut w = Walk::new(Some(1));
    assert_eq!(w.step(false, true, "/a/x.mkv"), Step::Take);
    assert_eq!(w.step(false, true, "/a/z.mkv"), Step::Stop);
    assert!(!w.completed());
    assert_eq!(w.missing(&stored), strings(&[]));
    let mut c = Walk::new(None);
    assert_eq!(c.step(true, true, "/a/x.mkv"), Step::Stop);
    assert_eq!(c.missing(&stored), strings(&[]));
}

#[test]
fn libraries_that_are_gone() {
    assert_eq!(inactive_libraries(&vec![1, 2, 3], &vec![2]), vec![1, 3]);
    assert_eq!(inactive_libraries(&vec![1, 2, 3], &vec![]), Vec::<i64>::new());
}

#[test]
fn scans_are_summed_up() {
    let mut s = ScanStats::default();
    assert_eq!(summary(&s), "nothing to scan");
    s.count(Counted::Show, false);
    s.count(Counted::Movie, false);
    assert_eq!(summary(&s), "everything up to date (2 unchanged)");
    let mut t = ScanStats::default();
    t.count(Counted::Episode, true);
    s.merge(t);
    assert_eq!(summary(&s), "1 indexed · 2 unchanged");
}

#[test]
fn jobs_for_assets() {
    let (out, _) = upsert_movie(&None, &facts("/m/Film.mkv"), &MovieNfo::default(), &vec![], 5);
    let job = asset_job(out, "/m/Film.mkv").unwrap();
    assert_eq!(job.title, display_name("/m/Film.mkv"));
    assert!(job.runs(Asset::Essential, false));
    assert!(!job.runs(Asset::Essential, true));
    assert!(job.takes_thumbnail());
    let jobs = vec![job];
    assert_eq!(pass_total(&jobs, Asset::Trickplay), 1);
    let (idle, _) = upsert_movie(&Some(row()), &facts("/m/Film.mkv"), &MovieNfo::default(), &vec![], 5);
    assert!(asset_job(idle, "/m/Film.mkv").is_none());
}

#[test]
fn seasons_in_progress() {
    assert_eq!(season_label("Show", 3), "Show — Season 3");
    assert_eq!(unanalyzed(&strings(&["a", "b", "c"]), &strings(&["b"])), strings(&["a", "c"]));
}

#[test]
fn progress_of_a_scan() {
    let mut p = ScanProgress::default();
    let first = p.request(false);
    assert!(first.start && !first.cancel);
    p.start();
    assert!(p.running);
    let second = p.request(false);
    assert!(!second.start && !second.cancel);
    p.start_indexing("/lib");
    p.found(3, "x.mkv");
    assert_eq!(p.done, 3);
    p.start_pass(Pass::Trickplay, 9);
    assert_eq!((p.phase.as_str(), p.done, p.total), (Pass::Trickplay.as_str(), 0, 9));
    p.add_active("m1", "Film", "trickplay");
    assert_eq!(p.active.len(), 1);
    p.finish_job(1, "m1", Some("Film"));
    assert_eq!((p.active.len(), p.done), (0, 1));
    p.add_active("m2", "Other", "trickplay");
    p.drop_active("m2");
    assert_eq!((p.active.len(), p.done), (0, 1));
    p.finish(None, 77, "1 indexed".to_string(), 1200);
    assert!(!p.running);
    assert_eq!(p.last_finished_at, Some(77));
    assert_eq!(p.last_elapsed_ms, Some(1200));
    assert_eq!(p.last_summary.as_deref(), Some("1 indexed"));
}

fn tech() -> MediaTechInfo {
    MediaTechInfo {
        container: Some("matroska".into()),
        duration_us: Some(61_500_999),
        bitrate_kbps: Some(4000),
        file_size: None,
        video: Some(VideoTrackInfo {
            codec: "h264".into(),
            profile: None,
            width: Some(1920),
            height: Some(1080),
            fps: None,
            bitrate_kbps: None,
            pix_fmt: Some("yuv420p".into()),
        }),
        audio: vec![AudioTrackInfo {
            codec: "ac3".into(),
            channels: None,
            channel_layout: None,
            sample_rate_hz: None,
            bitrate_kbps: None,
            language: None,
            title: None,
            default: true,
        }],
        browser_compat: BrowserCompat::Remux,
        compat_reason: None,
    }
}

#[test]
fn work_is_timed() {
    let o = EssentialOutcome {
        tech_info: Some(tech()),
        sub_tracks: 2,
        probe_ms: 30,
        subtitles_ms: 40,
        signature: (1, 2),
    };
    let t = essential_timing(&o, 75);
    assert_eq!((t.probe_ms, t.subtitles_ms, t.subtitle_tracks, t.total_ms), (30, 40, 2, 75));
    assert_eq!((t.thumbnail_ms, t.trickplay_ms, t.save_ms), (0, 0, 0));
    assert_eq!((t.width, t.height, t.bitrate_kbps), (Some(1920), Some(1080), Some(4000)));
    assert_eq!(t.duration_ms, Some(61_500));
    assert_eq!(t.video_codec.as_deref(), Some("h264"));
    assert_eq!(t.audio_codec.as_deref(), Some("ac3"));
    assert_eq!(t.container.as_deref(), Some("matroska"));
    assert_eq!(t.pixel_format.as_deref(), Some("yuv420p"));
    assert_eq!(t.trigger, "scan_essential");
    assert_eq!(refresh_timing(&o, 75).trigger, "stale_read");
    let thumb = thumbnail_timing(&None, 12);
    assert_eq!((thumb.thumbnail_ms, thumb.total_ms, thumb.duration_ms), (12, 12, None));
    assert_eq!(thumb.trigger, "scan_thumbnail");
    let sprite = trickplay_timing(&Some(tech()), 900, Some(48));
    assert_eq!((sprite.trickplay_ms, sprite.total_ms, sprite.keyframe_count), (900, 900, Some(48)));
    assert_eq!(sprite.trigger, "scan_trickplay");
}

#[test]
fn replaced_files_are_looked_at_again() {
    assert!(!needs_refresh(Some(7), Some(9), (7, 9)));
    assert!(needs_refresh(Some(6), Some(9), (7, 9)));
    assert!(needs_refresh(Some(7), Some(8), (7, 9)));
    assert!(needs_refresh(None, Some(9), (7, 9)));
}
