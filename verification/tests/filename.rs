use binkflix::filename::{clean_episode_title, clean_title, parse_episode, parse_movie, sort_title};

#[test]
fn sxxeyy_basic() {
    assert_eq!(parse_episode("Show.Name.S01E02.1080p.WEB-DL.x265-GROUP"), Some((1, 2)));
    assert_eq!(parse_episode("show s01e02"), Some((1, 2)));
    assert_eq!(parse_episode("Show S1E2"), Some((1, 2)));
    assert_eq!(parse_episode("Show.S10E15"), Some((10, 15)));
}

#[test]
fn sxxeyy_with_separators() {
    assert_eq!(parse_episode("Show.Name.S01.E02.mkv"), Some((1, 2)));
    assert_eq!(parse_episode("Show Name S01 E02"), Some((1, 2)));
    assert_eq!(parse_episode("Show-S01-E02"), Some((1, 2)));
    assert_eq!(parse_episode("Show_S01_E02"), Some((1, 2)));
}

#[test]
fn sxxeyy_multi_episode() {
    // First episode wins, span includes the full multi-ep tag.
    assert_eq!(parse_episode("Show.S01E01E02"), Some((1, 1)));
    assert_eq!(parse_episode("Show.S01E01-E03"), Some((1, 1)));
}

#[test]
fn nxmm_basic() {
    assert_eq!(parse_episode("Show Name 1x02"), Some((1, 2)));
    assert_eq!(parse_episode("Show.Name.01x02.mkv"), Some((1, 2)));
}

#[test]
fn nxmm_rejects_resolution() {
    assert_eq!(parse_episode("Movie.1920x1080.mkv"), None);
    assert_eq!(parse_episode("Movie.1280x720.mkv"), None);
}

#[test]
fn date_based() {
    assert_eq!(parse_episode("Daily Show 2024-01-15"), Some((2024, 115)));
    assert_eq!(parse_episode("Daily.Show.2024.01.15.mkv"), Some((2024, 115)));
}

#[test]
fn movie_release_dump() {
    let p = parse_movie("The.Matrix.1999.1080p.BluRay.x264-RARBG");
    assert_eq!(p.title, "The Matrix");
    assert_eq!(p.year, Some(1999));
}

#[test]
fn movie_with_brackets() {
    let p = parse_movie("Avatar (2009) [1080p]");
    assert_eq!(p.title, "Avatar");
    assert_eq!(p.year, Some(2009));
}

#[test]
fn movie_year_in_title() {
    let p = parse_movie("2001 A Space Odyssey (1968)");
    assert_eq!(p.title, "2001 A Space Odyssey");
    assert_eq!(p.year, Some(1968));
}

#[test]
fn movie_no_year() {
    let p = parse_movie("Movie Name");
    assert_eq!(p.title, "Movie Name");
    assert_eq!(p.year, None);
}

#[test]
fn movie_dotted_no_year() {
    let p = parse_movie("Some.Indie.Movie");
    assert_eq!(p.title, "Some Indie Movie");
    assert_eq!(p.year, None);
}

#[test]
fn movie_titlecase_lowercase_input() {
    let p = parse_movie("the.matrix.1999.1080p");
    assert_eq!(p.title, "The Matrix");
    assert_eq!(p.year, Some(1999));
}

#[test]
fn movie_preserves_existing_case() {
    let p = parse_movie("iPhone Story (2015)");
    assert_eq!(p.title, "iPhone Story");
}

#[test]
fn episode_title_stripping() {
    assert_eq!(
        clean_episode_title("Show.Name.S01E02.The.Pilot.1080p.WEB-DL.x265-GROUP", 2),
        "The Pilot"
    );
}

#[test]
fn episode_title_fallback_when_empty() {
    assert_eq!(clean_episode_title("Show.Name.S01E02.1080p.WEB-DL", 2), "Episode 2");
}

#[test]
fn episode_title_no_tag() {
    // No SxxEyy → whole thing is the title.
    assert_eq!(clean_episode_title("Just A Title", 1), "Just A Title");
}

#[test]
fn show_title_clean() {
    assert_eq!(clean_title("Breaking.Bad.(2008)"), "Breaking Bad");
    assert_eq!(clean_title("breaking_bad"), "Breaking Bad");
}

#[test]
fn sort_title_articles() {
    assert_eq!(sort_title("The Matrix"), "matrix");
    assert_eq!(sort_title("A Bug's Life"), "bug's life");
    assert_eq!(sort_title("An American Tail"), "american tail");
    assert_eq!(sort_title("Anaconda"), "anaconda");
}

#[test]
fn sort_title_brackets() {
    assert_eq!(sort_title("[REPACK] Avatar"), "avatar");
    assert_eq!(sort_title("(2009) The Matrix"), "matrix");
}

#[test]
fn titles_beyond_ascii_change_their_case() {
    assert_eq!(clean_title("été.indien"), "Été Indien");
    assert_eq!(sort_title("ÉTÉ"), "été");
}
