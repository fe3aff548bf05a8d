use binkflix::search::{
    bind_movie_search, bind_show_search, build_movie_search_sql, build_show_search_sql,
    escape_like, search, Bound, SearchParams,
};

fn params() -> SearchParams {
    SearchParams {
        q: None,
        kind: None,
        year_min: None,
        year_max: None,
        genres: vec![],
        watched: None,
        sort: None,
        limit: None,
        offset: None,
    }
}

fn marks(s: &str) -> usize {
    s.chars().filter(|c| *c == '?').count()
}

fn words(v: &[Bound]) -> Vec<String> {
    v.iter()
        .map(|b| match b {
            Bound::Text(s) => s.clone(),
            Bound::Number(n) => n.to_string(),
        })
        .collect()
}

#[test]
fn wildcards_are_escaped() {
    assert_eq!(escape_like("10%"), "10\\%");
    assert_eq!(escape_like("a_b\\c"), "a\\_b\\\\c");
    assert_eq!(escape_like("plain"), "plain");
}

#[test]
fn a_search_without_words() {
    let s = search(&params());
    assert_eq!(s.like, None);
    assert!(s.movies && s.shows);
    assert_eq!((s.watched.as_str(), s.sort.as_str()), ("any", "title"));
    assert_eq!((s.limit, s.offset), (60, 0));
}

#[test]
fn a_search_with_words() {
    let mut p = params();
    p.q = Some("  10% ".into());
    p.kind = Some("show".into());
    p.limit = Some(9999);
    p.offset = Some(-4);
    let s = search(&p);
    assert_eq!(s.like.as_deref(), Some("%10\\%%"));
    assert!(!s.movies && s.shows);
    assert_eq!(s.sort, "relevance");
    assert_eq!((s.limit, s.offset), (500, 0));
    p.q = Some("   ".into());
    p.limit = Some(0);
    p.kind = Some("movie".into());
    let s = search(&p);
    assert_eq!(s.like, None);
    assert!(s.movies && !s.shows);
    assert_eq!(s.limit, 1);
}

#[test]
fn the_plain_queries() {
    let none: Vec<String> = vec![];
    let (rows, count) = build_movie_search_sql(None, None, None, &none, "any", "title");
    assert_eq!(
        rows,
        "SELECT m.id, m.title, m.year FROM media m WHERE m.kind = 'movie' AND m.deleted_at IS NULL \
         ORDER BY m.sort_title ASC LIMIT ? OFFSET ?"
    );
    assert_eq!(
        count,
        "SELECT COUNT(*) FROM media m WHERE m.kind = 'movie' AND m.deleted_at IS NULL"
    );
    let (rows, count) = build_show_search_sql(None, None, None, &none, "any", "year_desc");
    assert!(rows.ends_with(
        "FROM shows s WHERE s.deleted_at IS NULL \
         ORDER BY s.year IS NULL, s.year DESC, s.sort_title LIMIT ? OFFSET ?"
    ));
    assert_eq!(count, "SELECT COUNT(*) FROM shows s WHERE s.deleted_at IS NULL");
}

#[test]
fn a_query_with_everything() {
    let genres = vec!["Drama".to_string(), "Crime".to_string()];
    let (_, count) =
        build_movie_search_sql(Some("%x%"), Some(1990), Some(2000), &genres, "watched", "title");
    assert_eq!(
        count,
        "SELECT COUNT(*) FROM media m WHERE m.kind = 'movie' AND m.deleted_at IS NULL AND \
         (m.sort_title LIKE ? ESCAPE '\\' OR m.title LIKE ? ESCAPE '\\') AND m.year >= ? AND \
         m.year <= ? AND (SELECT COUNT(DISTINCT genre) FROM media_genres WHERE media_id = m.id \
         AND genre IN (?, ?)) = ? AND EXISTS (SELECT 1 FROM watch_progress wp WHERE \
         wp.media_id = m.id AND wp.user_sub = ? AND wp.completed = 1)"
    );
    let values =
        bind_movie_search(Some("%x%"), Some(1990), Some(2000), &genres, "watched", "alice");
    assert_eq!(
        words(&values),
        vec!["%x%", "%x%", "1990", "2000", "Drama", "Crime", "2", "alice"]
    );
}

#[test]
fn every_question_mark_has_a_value() {
    let none: Vec<String> = vec![];
    let some = vec!["a".to_string(), "b".to_string(), "c".to_string()];
    for like in [None, Some("%x%")] {
        for year in [None, Some(2000)] {
            for genres in [&none, &some] {
                for watched in ["any", "watched", "unwatched", "in_progress", "maybe"] {
                    for sort in ["title", "year_desc", "year_asc", "recently_added", "?"] {
                        let (r, c) = build_movie_search_sql(like, year, None, genres, watched, sort);
                        let n = bind_movie_search(like, year, None, genres, watched, "u").len();
                        assert_eq!((marks(&r), marks(&c)), (n + 2, n));
                        let (r, c) = build_show_search_sql(like, None, year, genres, watched, sort);
                        let n = bind_show_search(like, None, year, genres, watched, "u").len();
                        assert_eq!((marks(&r), marks(&c)), (n + 2, n));
                    }
                }
            }
        }
    }
}
