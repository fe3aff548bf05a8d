use binkflix::media_info::{
    compute_compat, find_tag, flag_set, keep_non_empty, main_audio_codec, parse_bitrate_kbps,
    read_chapters, read_probe, split_fps, EmbeddedSubtitleStream, Flag, ProbeChapter, ProbeFormat,
    ProbeOutput, ProbeStream, Tag,
};
use binkflix::nfo::{
    clean_strings, detect_nfo_kind, find_id, nilify, primary_rating, EpisodeNfo, MovieNfo, NfoKind,
    RatingItem, Ratings, TvShowNfo, UniqueId,
};
use binkflix::subtitles::{
    classify_embedded, content_type, embedded_track_id, extract_args, file_track_id, find_sidecars,
    is_text_codec, sidecar_format, sidecar_label, sidecar_language, srt_to_vtt,
};
use binkflix::trickplay::{
    layout, parse_showinfo_count, sprite_args, stored_manifest, thumbnail_args, MAX_TILES,
};
use binkflix::types::{AudioTrackInfo, BrowserCompat};

fn stream(codec_type: &str, codec_name: &str) -> ProbeStream {
    ProbeStream {
        index: 0,
        codec_type: codec_type.into(),
        codec_name: codec_name.into(),
        profile: None,
        width: None,
        height: None,
        r_frame_rate: None,
        pix_fmt: None,
        channels: None,
        channel_layout: None,
        sample_rate: None,
        bit_rate: None,
        tags: vec![],
        disposition: vec![],
    }
}

fn track(codec: &str, default: bool) -> AudioTrackInfo {
    AudioTrackInfo {
        codec: codec.into(),
        channels: None,
        channel_layout: None,
        sample_rate_hz: None,
        bitrate_kbps: None,
        language: None,
        title: None,
        default,
    }
}

#[test]
fn what_browsers_play() {
    let c = |v, a, k| compute_compat(v, a, k);
    assert_eq!(c(None, None, None), (BrowserCompat::Direct, None));
    assert_eq!(c(Some("h264"), Some("aac"), Some("mov,mp4,m4a")), (BrowserCompat::Direct, None));
    assert_eq!(c(Some("h264"), None, Some("mp4")), (BrowserCompat::Direct, None));
    assert_eq!(c(Some("vp9"), Some("opus"), Some("matroska, webm")), (BrowserCompat::Direct, None));
    let (m, why) = c(Some("h264"), Some("aac"), Some("matroska"));
    assert_eq!(m, BrowserCompat::Remux);
    assert_eq!(why.as_deref(), Some("container matroska needs repackaging to MP4"));
    let (m, why) = c(Some("h264"), Some("ac3"), Some("mp4"));
    assert_eq!(m, BrowserCompat::Remux);
    assert_eq!(why.as_deref(), Some("audio codec ac3 isn't supported in MP4 — needs AAC/MP3"));
    let (m, why) = c(Some("av1"), Some("aac"), None);
    assert_eq!(m, BrowserCompat::Remux);
    assert_eq!(why.as_deref(), Some("container unknown needs repackaging to WebM"));
    let (m, why) = c(Some("hevc"), Some("aac"), Some("mp4"));
    assert_eq!(m, BrowserCompat::Transcode);
    assert_eq!(
        why.as_deref(),
        Some("video codec hevc isn't supported by browsers — needs full transcode")
    );
}

#[test]
fn a_probe_is_read() {
    let mut cover = stream("video", "mjpeg");
    cover.disposition.push(Flag { key: "attached_pic".into(), value: 1 });
    let mut video = stream("video", "h264");
    video.width = Some(1920);
    video.profile = Some("".into());
    video.bit_rate = Some("4500000".into());
    video.r_frame_rate = Some("24000/1001".into());
    let mut audio = stream("audio", "aac");
    audio.sample_rate = Some("48000".into());
    audio.tags.push(Tag { key: "language".into(), value: "eng".into() });
    audio.disposition.push(Flag { key: "default".into(), value: 1 });
    let mut subs = stream("subtitle", "subrip");
    subs.index = 3;
    let p = ProbeOutput {
        streams: vec![cover, video, audio, subs, stream("data", "bin")],
        format: ProbeFormat {
            format_name: Some("mov,mp4".into()),
            duration: Some("12.5".into()),
            size: Some("1000".into()),
            bit_rate: Some("x".into()),
        },
    };
    let (info, subs) = read_probe(&p);
    let v = info.video.unwrap();
    assert_eq!((v.codec.as_str(), v.width, v.profile, v.bitrate_kbps), ("h264", Some(1920), None, Some(4500)));
    assert_eq!(v.fps, Some(("24000".to_string(), "1001".to_string())));
    assert_eq!(info.audio.len(), 1);
    assert_eq!(info.audio[0].sample_rate_hz, Some(48000));
    assert_eq!(info.audio[0].language.as_deref(), Some("eng"));
    assert!(info.audio[0].default);
    assert_eq!(info.duration_us, Some(12_500_000));
    assert_eq!((info.file_size, info.bitrate_kbps), (Some(1000), None));
    assert_eq!(info.browser_compat, BrowserCompat::Direct);
    assert_eq!((subs.len(), subs[0].index), (1, 3));
}

#[test]
fn parts_of_a_probe() {
    assert_eq!(parse_bitrate_kbps(Some("1999")), Some(1));
    assert_eq!(parse_bitrate_kbps(Some("-1")), None);
    assert_eq!(parse_bitrate_kbps(None), None);
    assert_eq!(split_fps(Some("25/1")), Some(("25".to_string(), "1".to_string())));
    assert_eq!(split_fps(Some("25")), None);
    assert_eq!(keep_non_empty(Some("".into())), None);
    assert_eq!(keep_non_empty(Some("a".into())).as_deref(), Some("a"));
    let tags = vec![Tag { key: "title".into(), value: "T".into() }];
    assert_eq!(find_tag(&tags, "title").as_deref(), Some("T"));
    assert_eq!(find_tag(&tags, "x"), None);
    assert!(!flag_set(&vec![Flag { key: "default".into(), value: 0 }], "default"));
    assert_eq!(main_audio_codec(&vec![track("ac3", false), track("aac", true)]).as_deref(), Some("aac"));
    assert_eq!(main_audio_codec(&vec![track("ac3", false), track("aac", false)]).as_deref(), Some("ac3"));
    assert_eq!(main_audio_codec(&vec![]), None);
}

#[test]
fn kinds_of_documents() {
    assert_eq!(detect_nfo_kind("<movie><title/></movie>"), Some(NfoKind::Movie));
    assert_eq!(
        detect_nfo_kind("\n<?xml version=\"1.0\"?>\n<!-- c -->\n<TVShow attr=\"1\">"),
        Some(NfoKind::TvShow)
    );
    assert_eq!(detect_nfo_kind("<episodedetails/>"), Some(NfoKind::Episode));
    assert_eq!(detect_nfo_kind("<!-- a > b --><movie>"), Some(NfoKind::Movie));
    assert_eq!(detect_nfo_kind("<!-- <tvshow> --><movie>"), Some(NfoKind::Movie));
    assert_eq!(detect_nfo_kind("<!-- <movie>"), None);
    assert_eq!(detect_nfo_kind("<!----><movie>"), Some(NfoKind::Movie));
    assert_eq!(detect_nfo_kind("<artist>"), None);
    assert_eq!(detect_nfo_kind("text"), None);
    assert_eq!(detect_nfo_kind("<?xml"), None);
    assert_eq!(detect_nfo_kind(""), None);
}

#[test]
fn ids_and_ratings_of_documents() {
    let ids = vec![
        UniqueId { kind: "IMDB".into(), value: "tt1".into() },
        UniqueId { kind: "tmdb".into(), value: "7".into() },
    ];
    assert_eq!(find_id(&ids, "imdb"), Some("tt1"));
    assert_eq!(find_id(&ids, "tvdb"), None);
    let item = |name: Option<&str>, default: Option<bool>, value: Option<i64>| RatingItem {
        name: name.map(|s| s.to_string()),
        default,
        value,
        votes: Some(3),
    };
    let r = |items| Some(Ratings { items });
    let some = primary_rating(&r(vec![item(Some("a"), None, Some(5)), item(Some("b"), Some(true), Some(6))]), None);
    assert_eq!(some, Some((6, Some(3), "b".to_string())));
    let some = primary_rating(&r(vec![item(Some("a"), None, Some(0)), item(None, None, Some(5))]), None);
    assert_eq!(some, Some((5, Some(3), "nfo".to_string())));
    let some = primary_rating(&r(vec![item(Some("a"), None, Some(-1)), item(None, None, Some(5))]), None);
    assert_eq!(some, Some((-1, Some(3), "a".to_string())));
    let some = primary_rating(&r(vec![item(Some("a"), None, None)]), Some(9));
    assert_eq!(some, Some((9, None, "nfo".to_string())));
    assert_eq!(primary_rating(&None, None), None);
    let mut show = TvShowNfo::default();
    assert_eq!(show.year_or_premiered(), None);
    show.premiered = Some("2008-01-20".into());
    assert_eq!(show.year_or_premiered(), Some(2008));
    show.year = Some(2007);
    assert_eq!(show.year_or_premiered(), Some(2007));
}

#[test]
fn documents_are_tidied() {
    let mut s = Some("  ".to_string());
    nilify(&mut s);
    assert_eq!(s, None);
    let mut v = vec!["a".to_string(), " ".to_string(), "b".to_string()];
    clean_strings(&mut v);
    assert_eq!(v, vec!["a", "b"]);
    let mut m = MovieNfo::default();
    m.title = Some(" ".into());
    m.mpaa = Some("".into());
    m.genre = vec!["".into(), "Drama".into()];
    m.tidy();
    assert_eq!((m.title, m.mpaa, m.genre), (None, None, vec!["Drama".to_string()]));
    let mut e = EpisodeNfo::default();
    e.plot = Some("\n".into());
    e.title = Some("T".into());
    e.tidy();
    assert_eq!((e.plot, e.title.as_deref()), (None, Some("T")));
}

#[test]
fn subtitles_beside_a_video() {
    let files: Vec<String> = [
        "/m/Film.en.srt", "/m/film.ASS", "/m/Film.srt", "/m/Filmography.srt", "/m/Film.txt",
        "/m/Film.mkv",
    ]
    .iter()
    .map(|s| s.to_string())
    .collect();
    assert_eq!(
        find_sidecars("/m/Film.mkv", &files),
        vec!["/m/Film.en.srt", "/m/Film.srt", "/m/film.ASS"]
    );
    assert_eq!(sidecar_language("/m/Film.EN.srt").as_deref(), Some("en"));
    assert_eq!(sidecar_language("/m/Film.forced.srt"), None);
    assert_eq!(sidecar_format("/m/a.ssa"), ("ass", false));
    assert_eq!(sidecar_format("/m/a.SRT"), ("vtt", true));
    assert_eq!(sidecar_format("/m/a.vtt"), ("vtt", false));
    assert_eq!(sidecar_label("/m/a.vtt"), "a.vtt");
    assert_eq!(file_track_id(2), "file-2");
    assert_eq!(embedded_track_id(2), "embed-2");
}

#[test]
fn subtitles_in_a_video() {
    assert!(is_text_codec("mov_text") && !is_text_codec("hdmv_pgs_subtitle"));
    assert_eq!(content_type("ass"), "text/x-ssa; charset=utf-8");
    assert_eq!(content_type("vtt"), "text/vtt; charset=utf-8");
    let s = |index: u32, codec: &str, tags: Vec<Tag>| EmbeddedSubtitleStream {
        index,
        codec: codec.into(),
        tags,
        disposition: vec![Flag { key: "forced".into(), value: 1 }],
    };
    let title = vec![Tag { key: "title".into(), value: "Signs".into() }];
    let lang = vec![Tag { key: "language".into(), value: "eng".into() }];
    let v = classify_embedded(&vec![s(2, "ass", title), s(3, "dvd_subtitle", vec![]), s(4, "subrip", lang), s(5, "text", vec![])]);
    assert_eq!(v.len(), 3);
    assert_eq!((v[0].label.as_str(), v[0].target_format.as_str(), v[0].forced, v[0].default), ("Signs", "ass", true, false));
    assert_eq!((v[1].label.as_str(), v[1].target_format.as_str()), ("Track 4 (eng)", "vtt"));
    assert_eq!(v[2].label, "Track 5");
    let args = extract_args("/m/a.mkv", 4, "subrip", "vtt");
    assert_eq!(args.join(" "), "-v error -nostdin -y -analyzeduration 1000000 -probesize 1000000 -fflags +nobuffer -i /m/a.mkv -map 0:4 -f webvtt pipe:1");
    let args = extract_args("/m/a.mkv", 2, "ssa", "ass");
    assert!(args.join(" ").ends_with("-map 0:2 -c:s copy -f ass pipe:1"));
}

#[test]
fn srt_becomes_vtt() {
    assert_eq!(
        srt_to_vtt("1\r\n00:00:01,500 --> 00:00:02,000\r\nHello, you\r\n"),
        "WEBVTT\n\n1\n00:00:01.500 --> 00:00:02.000\nHello, you\n"
    );
    assert_eq!(srt_to_vtt(""), "WEBVTT\n\n");
}

#[test]
fn previews_cover_the_video() {
    assert_eq!(layout(None), None);
    assert_eq!(layout(Some(1)), None);
    for secs in [60u64, 61, 600, 3599, 7200, 14_400, 86_400] {
        let m = layout(Some(secs * 1_000_000)).unwrap();
        assert!(m.count <= MAX_TILES && m.cols * m.rows >= m.count, "{secs}");
        assert!(m.interval as u64 * m.count as u64 >= secs, "{secs}");
        assert!((m.cols - 1) * (m.cols - 1) < m.count, "{secs}");
    }
    let m = stored_manifest(10, 240, 135, 0, 3, 2, 6);
    assert_eq!((m.interval, m.tile_w, m.tile_h, m.padding, m.cols, m.rows, m.count), (10, 240, 135, 0, 3, 2, 6));
    let args = sprite_args("/m/a.mkv", &m);
    assert!(args.iter().any(|a| a.starts_with("showinfo=checksum=0,fps=1/10,scale=240:135,setsar=1,tile=3x2:padding=")));
    assert_eq!(args.last().unwrap(), "pipe:1");
}

#[test]
fn frames_are_counted() {
    assert_eq!(parse_showinfo_count("nothing"), None);
    assert_eq!(parse_showinfo_count("Parsed_showinfo_0 Parsed_showinfo_0\nrest\n"), Some(1));
    assert_eq!(parse_showinfo_count("[Parsed_showinfo_0 @ 0x1] n:0\n[Parsed_showinfo_0 @ 0x1] n:1"), Some(2));
    let args = thumbnail_args("/m/a.mkv");
    assert_eq!(args[0], "-v");
    assert_eq!(args.last().unwrap(), "pipe:1");
    assert!(args.contains(&"/m/a.mkv".to_string()));
}

#[test]
fn chapters_are_read() {
    let chapter = |start: &str, end: &str, title: Option<&str>| ProbeChapter {
        start_time: start.into(),
        end_time: end.into(),
        tags: title
            .map(|t| Tag { key: "title".into(), value: t.into() })
            .into_iter()
            .collect(),
    };
    let chapters = vec![
        chapter("0.000000", "80.500000", Some("Opening")),
        chapter("", "90.000000", Some("no start")),
        chapter("80.500000", "1500.000000", None),
        chapter("-0.021000", "1e2", None),
    ];
    let read = read_chapters(&chapters);
    assert_eq!(read.len(), 3);
    assert_eq!((read[2].start_us, read[2].end_us), (-21_000, 100_000_000));
    assert_eq!((read[0].start_us, read[0].end_us), (0, 80_500_000));
    assert_eq!(read[0].title.as_deref(), Some("Opening"));
    assert_eq!((read[1].start_us, read[1].end_us), (80_500_000, 1_500_000_000));
    assert_eq!(read[1].title, None);
}
