use binkflix::hls::plan::group_segments;

const SECOND: f64 = 1_000_000.0;

fn us(secs: &[f64]) -> Vec<u64> {
    secs.iter().map(|s| (s * SECOND).round() as u64).collect()
}

fn secs(us: u64) -> f64 {
    us as f64 / SECOND
}

#[test]
fn group_segments_short_gop_yields_six_second_segments() {
    // Keyframes every 1s for 30s.
    let kf: Vec<f64> = (0..30).map(|i| i as f64).collect();
    let segs = group_segments(&us(&kf), 30_000_000);
    // Expect ~5 segments at ~6s each (the rule cuts at the *next*
    // keyframe at or after target, so first cut is at t=6 → seg 0..6).
    assert!(segs.len() >= 4 && segs.len() <= 6, "got {} segments", segs.len());
    assert_eq!(secs(segs[0].t), 0.0);
    let total: f64 = segs.iter().map(|s| secs(s.d)).sum();
    assert!((total - 30.0).abs() < 0.01);
}

#[test]
fn group_segments_long_gop_accepts_long_segments() {
    // Keyframe every 20s, total 60s. We can't cut more often than the source.
    let kf = vec![0.0, 20.0, 40.0];
    let segs = group_segments(&us(&kf), 60_000_000);
    // 3 segments at ~20s each.
    assert_eq!(segs.len(), 3);
    for s in &segs {
        assert!((secs(s.d) - 20.0).abs() < 0.01);
    }
}

#[test]
fn group_segments_single_keyframe_one_segment() {
    let kf = vec![0.0];
    let segs = group_segments(&us(&kf), 12_000_000);
    assert_eq!(segs.len(), 1);
    assert_eq!(secs(segs[0].t), 0.0);
    assert!((secs(segs[0].d) - 12.0).abs() < 0.01);
}

#[test]
fn group_segments_indices_are_one_based_and_contiguous() {
    let kf: Vec<f64> = (0..20).map(|i| i as f64 * 3.0).collect();
    let segs = group_segments(&us(&kf), 60_000_000);
    for (n, s) in segs.iter().enumerate() {
        assert_eq!(s.i, (n + 1) as u32);
    }
}

// Keyframes of a real HEVC file, and the boundaries that ffmpeg's own
// `-hls_time 6 -c:v copy` playlist has for them.
#[test]
fn group_segments_matches_ffmpeg_hls_muxer_on_hevc_sample() {
    let kf: Vec<f64> = vec![
        0.0, 1.001, 2.769, 5.572, 7.341, 10.444, 12.079, 13.413, 14.515, 16.583, 18.652, 19.653,
        20.988, 23.857, 24.958, 32.032, 38.972, 40.040, 42.609, 46.980, 52.886, 54.388, 62.462,
        65.899, 72.573,
    ];
    let segs = group_segments(&us(&kf), 80_000_000);
    let boundaries: Vec<f64> = std::iter::once(0.0)
        .chain(segs.iter().scan(0.0, |acc, s| {
            *acc += secs(s.d);
            Some(*acc)
        }))
        .collect();
    // The playlist starts at 0 and holds the duration tail (80.0).
    // 65.899 is *not* a boundary because at that point the target
    // was n=11 → 66.0s and 65.899 < 66; the next eligible cut is
    // 72.573 at n=12.
    let expected = [
        0.0, 7.341, 12.079, 18.652, 24.958, 32.032, 38.972, 42.609, 52.886, 54.388, 62.462, 72.573,
        80.0,
    ];
    assert_eq!(boundaries.len(), expected.len(), "boundary count mismatch: got {boundaries:?}");
    for (got, want) in boundaries.iter().zip(expected.iter()) {
        assert!(
            (got - want).abs() < 0.001,
            "boundary mismatch: got {got}, want {want} (full: {boundaries:?})"
        );
    }
}

#[test]
fn group_segments_first_segment_starts_with_the_file() {
    let segs = group_segments(&us(&[0.5]), 12_000_000);
    assert_eq!(segs.len(), 1);
    assert_eq!((segs[0].i, segs[0].t, segs[0].d), (1, 0, 12_000_000));
    let segs = group_segments(&us(&[0.5, 7.0, 12.5]), 20_000_000);
    let cut: Vec<(u64, u64)> = segs.iter().map(|s| (s.t, s.d)).collect();
    assert_eq!(cut, vec![(0, 7_000_000), (7_000_000, 5_500_000), (12_500_000, 7_500_000)]);
    assert_eq!(segs.iter().map(|s| s.d).sum::<u64>(), 20_000_000);
}
