use binkflix::fingerprint::{analyze_season, SeasonEpisode};
use binkflix::markers::{
    chapters_to_markers, classify_by_position, classify_chapter_title, decode_fp, detect_fpcalc,
    encode_fp, fingerprint_fresh, fpcalc_args, kind_from_str, FpcalcStatus, Marker, MarkerKind,
    RawChapter, FP_ALGO_VERSION, MIN_SEGMENT_US,
};
use std::collections::HashMap;

fn us(secs: f64) -> i64 {
    (secs * 1_000_000.0).round() as i64
}

/// Deterministic pseudo-random sub-fingerprint stream (a simple LCG) so
/// tests don't need real audio.
fn lcg_stream(seed: u32, n: usize) -> Vec<u32> {
    let mut x = seed;
    (0..n)
        .map(|_| {
            x = x.wrapping_mul(1664525).wrapping_add(1013904223);
            x
        })
        .collect()
}

#[test]
fn detects_shared_intro_and_ignores_unique_episode() {
    // ~27 s of identical "intro", then per-episode-distinct bodies.
    let intro = lcg_stream(42, 220);
    let with_intro = |body_seed: u32| {
        let mut fp = intro.clone();
        fp.extend(lcg_stream(body_seed, 2000));
        fp
    };
    let eps = vec![
        SeasonEpisode { media_id: "a".into(), duration_us: us(1500.0), fp: with_intro(7) },
        SeasonEpisode { media_id: "b".into(), duration_us: us(1500.0), fp: with_intro(99) },
        // No shared content with anyone.
        SeasonEpisode { media_id: "c".into(), duration_us: us(1500.0), fp: lcg_stream(500, 2200) },
    ];
    let by_id: HashMap<String, Vec<Marker>> = analyze_season(&eps).into_iter().collect();

    for id in ["a", "b"] {
        let ms = &by_id[id];
        assert_eq!(ms.len(), 1, "episode {id} should get exactly the shared intro");
        assert_eq!(ms[0].kind, MarkerKind::Intro, "near-start shared segment → Intro");
        assert!(ms[0].start_us < us(2.0), "intro starts near 0, got {}", ms[0].start_us);
        assert!(ms[0].end_us > MIN_SEGMENT_US as i64, "intro ≥ min length, got {}", ms[0].end_us);
        assert_eq!(ms[0].source, "audio");
        assert_eq!((ms[0].confidence.agreeing, ms[0].confidence.of), (1, 2));
    }
    assert!(by_id["c"].is_empty(), "a unique episode must get no shared markers");
}

#[test]
fn chapter_classifier_keywords_positions_and_artifacts() {
    let dur = us(1800.0);
    let chapters = vec![
        RawChapter { start_us: us(0.0), end_us: us(80.0), title: Some("Opening Credits".into()) },
        RawChapter { start_us: us(80.0), end_us: us(1500.0), title: Some("Chapter 2".into()) },
        RawChapter { start_us: us(1700.0), end_us: us(1800.0), title: Some("End Credits".into()) },
        RawChapter { start_us: us(200.0), end_us: us(203.0), title: Some("blip".into()) },
    ];
    let ms = chapters_to_markers(&chapters, dur);
    assert_eq!(ms.len(), 3, "the <5 s 'blip' chapter is dropped");
    assert_eq!(ms[0].kind, MarkerKind::Intro, "'Opening …' keyword → Intro");
    // Untitled/generic chapters are navigational ticks, never position-guessed
    // into a skippable kind.
    assert_eq!(ms[1].kind, MarkerKind::Chapter, "'Chapter 2' stays a generic tick");
    assert_eq!(ms[2].kind, MarkerKind::Credits, "'End Credits' → Credits");
}

#[test]
fn whole_file_chapter_is_dropped_as_artifact() {
    let ms = chapters_to_markers(
        &vec![RawChapter { start_us: us(0.0), end_us: us(1799.0), title: None }],
        us(1800.0),
    );
    assert!(ms.is_empty(), "a single whole-file chapter is a container artifact");
}

#[test]
fn fingerprints_are_stored_and_read_back() {
    let fp = vec![1, 0xdead_beef, u32::MAX];
    let bytes = encode_fp(&fp);
    assert_eq!(bytes, vec![1, 0, 0, 0, 0xef, 0xbe, 0xad, 0xde, 255, 255, 255, 255]);
    assert_eq!(decode_fp(&bytes), fp);
    // Bytes at the end that make no item are left out.
    assert_eq!(decode_fp(&vec![1, 0, 0, 0, 9]), vec![1]);
}

#[test]
fn kinds_are_stored_and_read_back() {
    for k in [
        MarkerKind::Intro,
        MarkerKind::Recap,
        MarkerKind::Outro,
        MarkerKind::Credits,
        MarkerKind::Chapter,
    ] {
        assert_eq!(kind_from_str(k.as_str()), Some(k));
    }
    assert_eq!(kind_from_str("prologue"), None);
}

#[test]
fn fingerprinting_can_be_turned_off() {
    assert_eq!(detect_fpcalc(None, true), FpcalcStatus::Available);
    assert_eq!(detect_fpcalc(Some("1"), true), FpcalcStatus::Available);
    assert_eq!(detect_fpcalc(Some("0"), true), FpcalcStatus::Missing);
    assert_eq!(detect_fpcalc(None, false), FpcalcStatus::Missing);
    assert_eq!(fpcalc_args("/m/a.mkv"), vec!["-raw", "-json", "-length", "3600", "/m/a.mkv"]);
}

#[test]
fn chapters_by_title() {
    assert_eq!(classify_chapter_title(Some("PREVIOUSLY on")), MarkerKind::Recap);
    assert_eq!(classify_chapter_title(Some("Main Titles")), MarkerKind::Intro);
    assert_eq!(classify_chapter_title(Some("Ending")), MarkerKind::Credits);
    // The beginning wins over the end.
    assert_eq!(classify_chapter_title(Some("Opening Credits")), MarkerKind::Intro);
    assert_eq!(classify_chapter_title(Some("Chapter 7")), MarkerKind::Chapter);
    assert_eq!(classify_chapter_title(None), MarkerKind::Chapter);
}

#[test]
fn chapters_by_position() {
    let dur = us(3600.0);
    assert_eq!(classify_by_position(us(720.0), us(800.0), dur), MarkerKind::Intro);
    assert_eq!(classify_by_position(us(721.0), us(800.0), dur), MarkerKind::Chapter);
    assert_eq!(classify_by_position(us(3000.0), us(3060.0), dur), MarkerKind::Credits);
    assert_eq!(classify_by_position(us(3000.0), us(3059.0), dur), MarkerKind::Chapter);
    // The first five minutes count as the beginning however short the video is.
    assert_eq!(classify_by_position(us(300.0), us(400.0), us(400.0)), MarkerKind::Intro);
    assert_eq!(classify_by_position(0, us(10.0), 0), MarkerKind::Chapter);
}

#[test]
fn stored_fingerprints_age() {
    assert!(fingerprint_fresh(Some((7, 9)), FP_ALGO_VERSION, (7, 9)));
    assert!(!fingerprint_fresh(Some((8, 9)), FP_ALGO_VERSION, (7, 9)));
    assert!(!fingerprint_fresh(Some((7, 9)), FP_ALGO_VERSION - 1, (7, 9)));
    assert!(!fingerprint_fresh(None, FP_ALGO_VERSION, (7, 9)));
}

#[test]
fn confidence_counts_other_episodes() {
    let shared = lcg_stream(42, 400);
    let eps: Vec<SeasonEpisode> = (0..4u32)
        .map(|k| {
            let mut fp = shared.clone();
            fp.extend(lcg_stream(1000 + k, 1500));
            SeasonEpisode { media_id: format!("e{k}"), duration_us: us(1500.0), fp }
        })
        .collect();
    for (_, markers) in analyze_season(&eps) {
        assert_eq!(markers.len(), 1);
        assert_eq!((markers[0].confidence.agreeing, markers[0].confidence.of), (3, 3));
    }
}
