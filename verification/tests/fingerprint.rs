use binkflix::fingerprint::{
    analyze_season, find_pair_segments, merge_runs, min_segment_items, overlap_range, SeasonEpisode,
};

/// Items that do not resemble one another.
fn noise(seed: u32, n: usize) -> Vec<u32> {
    let mut x = seed.wrapping_mul(2654435761).wrapping_add(12345);
    (0..n)
        .map(|_| {
            x ^= x << 13;
            x ^= x >> 17;
            x ^= x << 5;
            x
        })
        .collect()
}

fn with_intro(seed: u32, before: usize, intro: &[u32], after: usize) -> Vec<u32> {
    let mut v = noise(seed, before);
    v.extend_from_slice(intro);
    v.extend(noise(seed + 1000, after));
    v
}

#[test]
fn overlap_of_shifted_lists() {
    assert_eq!(overlap_range(10, 10, 0), (0, 10));
    assert_eq!(overlap_range(10, 10, 3), (0, 7));
    assert_eq!(overlap_range(10, 10, -3), (3, 10));
    let (from, to) = overlap_range(10, 10, 50);
    assert!(from >= to);
}

#[test]
fn shared_runs_are_found() {
    let intro = noise(7, min_segment_items() + 60);
    let a = with_intro(1, 40, &intro, 300);
    let b = with_intro(2, 90, &intro, 300);
    let runs = find_pair_segments(&a, &b);
    assert_eq!(runs.len(), 1);
    let r = &runs[0];
    assert!(r.a_from.abs_diff(40) <= 8 && r.b_from.abs_diff(90) <= 8);
    assert!(r.a_to - r.a_from >= min_segment_items());
    assert_eq!(r.a_to - r.a_from, r.b_to - r.b_from);
    assert!(r.a_to <= a.len() && r.b_to <= b.len());
    assert!(find_pair_segments(&noise(3, 400), &noise(4, 400)).is_empty());
}

#[test]
fn runs_of_one_place_are_merged() {
    let merged = merge_runs(&vec![(10, 200, 1), (12, 198, 2), (900, 1100, 1)]);
    assert_eq!(merged.len(), 2);
    assert_eq!(merged[0].partners.len(), 2);
    assert_eq!((merged[1].from, merged[1].to), (900, 1100));
}

#[test]
fn runs_are_merged_across_less_than_the_gap() {
    let near = merge_runs(&vec![(0, 100, 1), (139, 200, 1)]);
    assert_eq!((near.len(), near[0].from, near[0].to), (1, 0, 200));
    let apart = merge_runs(&vec![(0, 100, 1), (140, 200, 1)]);
    assert_eq!(apart.len(), 2);
    assert_eq!((apart[0].to, apart[1].from), (100, 140));
    let listed = merge_runs(&vec![(500, 600, 2), (0, 100, 1), (50, 120, 3)]);
    assert_eq!(listed.iter().map(|s| (s.from, s.to)).collect::<Vec<_>>(), vec![(0, 120), (500, 600)]);
    assert_eq!(listed[0].partners, vec![1, 3]);
    let far = merge_runs(&vec![(0x8000_0000, 0x8000_0100, 1)]);
    assert_eq!((far[0].from, far[0].to), (0x8000_0000, 0x8000_0100));
}

#[test]
fn intros_of_a_season() {
    let intro = noise(7, min_segment_items() + 200);
    let eps: Vec<SeasonEpisode> = (0..3)
        .map(|k| SeasonEpisode {
            media_id: format!("e{}", k),
            duration_us: 1_500_000_000,
            fp: with_intro(10 + k, 30 + 25 * k as usize, &intro, 9000),
        })
        .collect();
    let found = analyze_season(&eps);
    assert_eq!(found.len(), 3);
    for (_, markers) in &found {
        assert_eq!(markers.len(), 1);
    }
    assert!(analyze_season(&vec![]).is_empty());
}
