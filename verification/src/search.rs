//! Searching the library: what is asked, the queries that answer it and the values that
//! go with them.

use crate::text;
use crate::types;
use vstd::prelude::*;

verus! {

/// The most results that one answer holds.
pub const SEARCH_MAX_LIMIT: i64 = 500;

/// How many results an answer holds where nothing is said.
pub const DEFAULT_LIMIT: i64 = 60;

// ---- the text that is looked for ----

/// A character that means something else than itself in a pattern.
pub open spec fn is_wildcard(c: char) -> bool {
    c == '%' || c == '_' || c == '\\'
}

/// A text as a pattern for itself.
pub open spec fn escaped(s: Seq<char>) -> Seq<char>
    decreases s.len(),
{
    if s.len() == 0 {
        Seq::empty()
    } else if is_wildcard(s.last()) {
        escaped(s.drop_last()).push('\\').push(s.last())
    } else {
        escaped(s.drop_last()).push(s.last())
    }
}

/// The one text that a pattern stands for, or nothing where it stands for several.
pub open spec fn literal(p: Seq<char>) -> Option<Seq<char>>
    decreases p.len(),
{
    if p.len() == 0 {
        Some(Seq::empty())
    } else if p[0] == '\\' {
        if p.len() == 1 {
            None
        } else {
            match literal(p.skip(2)) {
                Some(rest) => Some(seq![p[1]] + rest),
                None => None,
            }
        }
    } else if p[0] == '%' || p[0] == '_' {
        None
    } else {
        match literal(p.skip(1)) {
            Some(rest) => Some(seq![p[0]] + rest),
            None => None,
        }
    }
}

/// A text as a pattern for itself.
pub fn escape_like(s: &str) -> (r: String)
    ensures
        r@ == escaped(s@),
{
    let v = text::chars_of(s);
    let mut out = String::new();
    let mut i: usize = 0;
    assert(s@.take(0) =~= Seq::<char>::empty());
    while i < v.len()
        invariant
            i <= v@.len(),
            v@ == s@,
            out@ == escaped(s@.take(i as int)),
        decreases v@.len() - i,
    {
        let c = v[i];
        assert(s@.take(i + 1).drop_last() =~= s@.take(i as int));
        if c == '%' || c == '_' || c == '\\' {
            out.push('\\');
        }
        out.push(c);
        i += 1;
    }
    assert(s@.take(i as int) =~= s@);
    out
}

proof fn escaped_char(c: char)
    ensures
        escaped(seq![c]) == if is_wildcard(c) {
            seq!['\\', c]
        } else {
            seq![c]
        },
{
    assert(seq![c].drop_last() =~= Seq::<char>::empty());
    assert(escaped(seq![c].drop_last()) =~= Seq::<char>::empty());
    assert(escaped(seq![c]) =~= if is_wildcard(c) {
        seq!['\\', c]
    } else {
        seq![c]
    });
}

proof fn literal_step(p: Seq<char>, a: Seq<char>, c: char)
    requires
        literal(p) == Some(a),
    ensures
        literal(p + escaped(seq![c])) == Some(a.push(c)),
    decreases p.len(),
{
    let e = escaped(seq![c]);
    escaped_char(c);
    if p.len() == 0 {
        assert(p + e =~= e);
        assert(e.skip(e.len() as int) =~= Seq::<char>::empty());
        assert(literal(e.skip(e.len() as int)) == Some(Seq::<char>::empty()));
        assert(a.push(c) =~= seq![c] + Seq::<char>::empty());
    } else if p[0] == '\\' {
        let b = literal(p.skip(2))->0;
        literal_step(p.skip(2), b, c);
        assert((p + e).skip(2) =~= p.skip(2) + e);
        assert(seq![p[1]] + b.push(c) =~= a.push(c));
    } else {
        let b = literal(p.skip(1))->0;
        literal_step(p.skip(1), b, c);
        assert((p + e).skip(1) =~= p.skip(1) + e);
        assert(seq![p[0]] + b.push(c) =~= a.push(c));
    }
}

/// An escaped text is the pattern of that text and of no other.
pub proof fn escaped_is_literal(s: Seq<char>)
    ensures
        literal(escaped(s)) == Some(s),
    decreases s.len(),
{
    if s.len() > 0 {
        let c = s.last();
        escaped_is_literal(s.drop_last());
        literal_step(escaped(s.drop_last()), s.drop_last(), c);
        escaped_char(c);
        assert(escaped(s) =~= escaped(s.drop_last()) + escaped(seq![c]));
        assert(s.drop_last().push(c) =~= s);
    } else {
        assert(s =~= Seq::<char>::empty());
    }
}

// ---- what is asked ----

/// What is asked for. Words that are not known count as not said.
#[derive(Debug)]
pub struct SearchParams {
    pub q: Option<String>,
    pub kind: Option<String>,
    pub year_min: Option<i64>,
    pub year_max: Option<i64>,
    pub genres: Vec<String>,
    pub watched: Option<String>,
    pub sort: Option<String>,
    pub limit: Option<i64>,
    pub offset: Option<i64>,
}

/// What is looked for.
#[derive(Debug)]
pub struct Search {
    /// The pattern that a title has to fit.
    pub like: Option<String>,
    pub movies: bool,
    pub shows: bool,
    pub watched: String,
    pub sort: String,
    pub limit: i64,
    pub offset: i64,
}

#[verifier::ext_equal]
pub struct SearchView {
    pub like: Option<Seq<char>>,
    pub movies: bool,
    pub shows: bool,
    pub watched: Seq<char>,
    pub sort: Seq<char>,
    pub limit: int,
    pub offset: int,
}

impl View for Search {
    type V = SearchView;

    open spec fn view(&self) -> SearchView {
        SearchView {
            like: types::opt_text(self.like),
            movies: self.movies,
            shows: self.shows,
            watched: self.watched@,
            sort: self.sort@,
            limit: self.limit as int,
            offset: self.offset as int,
        }
    }
}

/// The text that is looked for, without the white space around it, if any is left.
pub open spec fn words_of(q: Option<Seq<char>>) -> Option<Seq<char>> {
    match q {
        Some(s) => if text::trimmed(s).len() == 0 {
            None
        } else {
            Some(text::trimmed(s))
        },
        None => None,
    }
}

/// What is looked for where `p` is asked.
pub open spec fn search_for(p: SearchParams) -> SearchView {
    let words = words_of(types::opt_text(p.q));
    SearchView {
        like: match words {
            Some(w) => Some("%"@ + escaped(w) + "%"@),
            None => None,
        },
        movies: types::opt_text(p.kind) != Some("show"@),
        shows: types::opt_text(p.kind) != Some("movie"@),
        watched: match p.watched {
            Some(w) => w@,
            None => "any"@,
        },
        sort: match p.sort {
            Some(s) => s@,
            None => if words is Some {
                "relevance"@
            } else {
                "title"@
            },
        },
        limit: match p.limit {
            Some(n) => if n < 1 {
                1
            } else if n > SEARCH_MAX_LIMIT {
                SEARCH_MAX_LIMIT as int
            } else {
                n as int
            },
            None => DEFAULT_LIMIT as int,
        },
        offset: match p.offset {
            Some(n) => if n < 0 {
                0
            } else {
                n as int
            },
            None => 0,
        },
    }
}

fn says(s: &Option<String>, word: &str) -> (r: bool)
    ensures
        r == (types::opt_text(*s) == Some(word@)),
{
    match s {
        Some(t) => *t.as_str() == *word,
        None => false,
    }
}

/// What is looked for where `p` is asked.
pub fn search(p: &SearchParams) -> (r: Search)
    ensures
        r@ == search_for(*p),
{
    let mut like: Option<String> = None;
    if let Some(q) = &p.q {
        let words = text::trim(q.as_str());
        let chars = text::chars_of(words.as_str());
        if chars.len() > 0 {
            let mut pattern = text::own("%");
            pattern.push_str(escape_like(words.as_str()).as_str());
            pattern.push_str("%");
            like = Some(pattern);
        }
    }
    let watched = match &p.watched {
        Some(w) => text::own(w.as_str()),
        None => text::own("any"),
    };
    let sort = match &p.sort {
        Some(s) => text::own(s.as_str()),
        None => if like.is_some() {
            text::own("relevance")
        } else {
            text::own("title")
        },
    };
    let limit: i64 = match p.limit {
        Some(n) => if n < 1 {
            1
        } else if n > SEARCH_MAX_LIMIT {
            SEARCH_MAX_LIMIT
        } else {
            n
        },
        None => DEFAULT_LIMIT,
    };
    let offset: i64 = match p.offset {
        Some(n) => if n < 0 {
            0
        } else {
            n
        },
        None => 0,
    };
    Search {
        like,
        movies: !says(&p.kind, "show"),
        shows: !says(&p.kind, "movie"),
        watched,
        sort,
        limit,
        offset,
    }
}

// ---- the queries ----

/// The user has watched the movie.
pub const MOVIE_WATCHED: &'static str =
    "EXISTS (SELECT 1 FROM watch_progress wp WHERE wp.media_id = m.id AND wp.user_sub = ? AND wp.completed = 1)";

/// The user has not begun the movie.
pub const MOVIE_UNWATCHED: &'static str =
    "NOT EXISTS (SELECT 1 FROM watch_progress wp WHERE wp.media_id = m.id AND wp.user_sub = ? AND (wp.completed = 1 OR wp.position_secs > 0))";

/// The user has begun the movie and not finished it.
pub const MOVIE_IN_PROGRESS: &'static str =
    "EXISTS (SELECT 1 FROM watch_progress wp WHERE wp.media_id = m.id AND wp.user_sub = ? AND wp.completed = 0 AND wp.position_secs > 0)";

/// The show has something to watch, and the user has watched every episode.
pub const SHOW_WATCHED: &'static str =
    "EXISTS (SELECT 1 FROM media m WHERE m.show_id = s.id AND m.deleted_at IS NULL) AND NOT EXISTS ( SELECT 1 FROM media m LEFT JOIN watch_progress wp ON wp.media_id = m.id AND wp.user_sub = ? WHERE m.show_id = s.id AND m.kind = 'episode' AND m.deleted_at IS NULL AND COALESCE(wp.completed, 0) = 0)";

/// The user has begun nothing of the show.
pub const SHOW_UNWATCHED: &'static str =
    "NOT EXISTS ( SELECT 1 FROM media m JOIN watch_progress wp ON wp.media_id = m.id WHERE m.show_id = s.id AND wp.user_sub = ? AND m.deleted_at IS NULL AND (wp.completed = 1 OR wp.position_secs > 0))";

/// The user has begun something of the show and not watched all of it.
pub const SHOW_IN_PROGRESS: &'static str =
    "EXISTS ( SELECT 1 FROM media m JOIN watch_progress wp ON wp.media_id = m.id WHERE m.show_id = s.id AND wp.user_sub = ? AND m.deleted_at IS NULL AND (wp.completed = 1 OR wp.position_secs > 0)) AND EXISTS ( SELECT 1 FROM media m LEFT JOIN watch_progress wp ON wp.media_id = m.id AND wp.user_sub = ? WHERE m.show_id = s.id AND m.kind = 'episode' AND m.deleted_at IS NULL AND COALESCE(wp.completed, 0) = 0)";

/// What is read of a show.
pub const SHOW_ROWS: &'static str =
    "SELECT s.id, s.title, s.year, (SELECT COUNT(*) FROM media m WHERE m.show_id = s.id AND m.deleted_at IS NULL) AS episode_count, (s.banner_path IS NOT NULL) AS has_banner FROM shows s WHERE ";

/// `n` question marks with commas between them.
pub open spec fn places(n: nat) -> Seq<char> {
    types::join_texts(Seq::new(n, |i: int| "?"@), ", "@)
}

/// The condition on whether a movie was watched.
pub open spec fn movie_watched(watched: Seq<char>) -> Seq<Seq<char>> {
    if watched == "watched"@ {
        seq![MOVIE_WATCHED@]
    } else if watched == "unwatched"@ {
        seq![MOVIE_UNWATCHED@]
    } else if watched == "in_progress"@ {
        seq![MOVIE_IN_PROGRESS@]
    } else {
        Seq::empty()
    }
}

/// The condition on whether a show was watched: all of it, none of it, or some but not
/// all.
pub open spec fn show_watched(watched: Seq<char>) -> Seq<Seq<char>> {
    if watched == "watched"@ {
        seq![SHOW_WATCHED@]
    } else if watched == "unwatched"@ {
        seq![SHOW_UNWATCHED@]
    } else if watched == "in_progress"@ {
        seq![SHOW_IN_PROGRESS@]
    } else {
        Seq::empty()
    }
}

/// One condition where `asked`, else none.
pub open spec fn only_if(asked: bool, condition: Seq<char>) -> Seq<Seq<char>> {
    if asked {
        seq![condition]
    } else {
        Seq::empty()
    }
}

/// The conditions that a movie has to meet.
pub open spec fn movie_conditions(
    like: bool,
    year_min: bool,
    year_max: bool,
    genres: nat,
    watched: Seq<char>,
) -> Seq<Seq<char>> {
    seq!["m.kind = 'movie'"@, "m.deleted_at IS NULL"@] + only_if(
        like,
        "(m.sort_title LIKE ? ESCAPE '\\' OR m.title LIKE ? ESCAPE '\\')"@,
    ) + only_if(year_min, "m.year >= ?"@) + only_if(year_max, "m.year <= ?"@) + only_if(
        genres > 0,
        "(SELECT COUNT(DISTINCT genre) FROM media_genres WHERE media_id = m.id AND genre IN ("@
            + places(genres) + ")) = ?"@,
    ) + movie_watched(watched)
}

/// The conditions that a show has to meet.
pub open spec fn show_conditions(
    like: bool,
    year_min: bool,
    year_max: bool,
    genres: nat,
    watched: Seq<char>,
) -> Seq<Seq<char>> {
    seq!["s.deleted_at IS NULL"@] + only_if(
        like,
        "(s.sort_title LIKE ? ESCAPE '\\' OR s.title LIKE ? ESCAPE '\\')"@,
    ) + only_if(year_min, "s.year >= ?"@) + only_if(year_max, "s.year <= ?"@) + only_if(
        genres > 0,
        "(SELECT COUNT(DISTINCT genre) FROM show_genres WHERE show_id = s.id AND genre IN ("@
            + places(genres) + ")) = ?"@,
    ) + show_watched(watched)
}

/// The order of movies.
pub open spec fn movie_order(sort: Seq<char>) -> Seq<char> {
    if sort == "year_desc"@ {
        "m.year IS NULL, m.year DESC, m.sort_title"@
    } else if sort == "year_asc"@ {
        "m.year IS NULL, m.year ASC, m.sort_title"@
    } else if sort == "recently_added"@ {
        "COALESCE(m.added_at, m.scanned_at) DESC, m.id DESC"@
    } else {
        "m.sort_title ASC"@
    }
}

/// The order of shows.
pub open spec fn show_order(sort: Seq<char>) -> Seq<char> {
    if sort == "year_desc"@ {
        "s.year IS NULL, s.year DESC, s.sort_title"@
    } else if sort == "year_asc"@ {
        "s.year IS NULL, s.year ASC, s.sort_title"@
    } else if sort == "recently_added"@ {
        "COALESCE(s.added_at, s.scanned_at) DESC, s.id DESC"@
    } else {
        "s.sort_title ASC"@
    }
}

/// The query for one page of movies.
pub open spec fn movie_rows(conditions: Seq<Seq<char>>, order: Seq<char>) -> Seq<char> {
    "SELECT m.id, m.title, m.year FROM media m WHERE "@ + types::join_texts(conditions, " AND "@)
        + " ORDER BY "@ + order + " LIMIT ? OFFSET ?"@
}

/// The query for the number of movies.
pub open spec fn movie_count(conditions: Seq<Seq<char>>) -> Seq<char> {
    "SELECT COUNT(*) FROM media m WHERE "@ + types::join_texts(conditions, " AND "@)
}

/// The query for one page of shows.
pub open spec fn show_rows(conditions: Seq<Seq<char>>, order: Seq<char>) -> Seq<char> {
    SHOW_ROWS@
        + types::join_texts(conditions, " AND "@) + " ORDER BY "@ + order + " LIMIT ? OFFSET ?"@
}

/// The query for the number of shows.
pub open spec fn show_count(conditions: Seq<Seq<char>>) -> Seq<char> {
    "SELECT COUNT(*) FROM shows s WHERE "@ + types::join_texts(conditions, " AND "@)
}

fn place_text(n: usize) -> (r: String)
    ensures
        r@ == places(n as nat),
{
    let ghost want = Seq::new(n as nat, |i: int| "?"@);
    let mut v: Vec<String> = Vec::new();
    let mut i: usize = 0;
    while i < n
        invariant
            i <= n,
            want == Seq::new(n as nat, |i: int| "?"@),
            types::texts(v@) == want.take(i as int),
        decreases n - i,
    {
        types::push_text(&mut v, "?");
        assert(want.take(i + 1) =~= want.take(i as int).push("?"@));
        i += 1;
    }
    assert(want.take(i as int) =~= want);
    types::join(&v, ", ")
}

fn push_if(v: &mut Vec<String>, asked: bool, condition: &str)
    ensures
        types::texts(final(v)@) == types::texts(old(v)@) + only_if(asked, condition@),
{
    let ghost start = types::texts(v@);
    if asked {
        types::push_text(v, condition);
    }
    assert(types::texts(v@) =~= start + only_if(asked, condition@));
}

fn push_movie_watched(v: &mut Vec<String>, watched: &str)
    ensures
        types::texts(final(v)@) == types::texts(old(v)@) + movie_watched(watched@),
{
    let ghost start = types::texts(v@);
    if *watched == *"watched" {
        types::push_text(v, MOVIE_WATCHED);
    } else if *watched == *"unwatched" {
        types::push_text(v, MOVIE_UNWATCHED);
    } else if *watched == *"in_progress" {
        types::push_text(v, MOVIE_IN_PROGRESS);
    }
    assert(types::texts(v@) =~= start + movie_watched(watched@));
}

fn push_show_watched(v: &mut Vec<String>, watched: &str)
    ensures
        types::texts(final(v)@) == types::texts(old(v)@) + show_watched(watched@),
{
    let ghost start = types::texts(v@);
    if *watched == *"watched" {
        types::push_text(v, SHOW_WATCHED);
    } else if *watched == *"unwatched" {
        types::push_text(v, SHOW_UNWATCHED);
    } else if *watched == *"in_progress" {
        types::push_text(v, SHOW_IN_PROGRESS);
    }
    assert(types::texts(v@) =~= start + show_watched(watched@));
}

/// The queries for one page of the movies that are looked for, and for their number.
pub fn build_movie_search_sql(
    like: Option<&str>,
    year_min: Option<i64>,
    year_max: Option<i64>,
    genres: &Vec<String>,
    watched: &str,
    sort: &str,
) -> (r: (String, String))
    ensures
        ({
            let conditions = movie_conditions(
                like is Some,
                year_min is Some,
                year_max is Some,
                genres@.len(),
                watched@,
            );
            &&& r.0@ == movie_rows(conditions, movie_order(sort@))
            &&& r.1@ == movie_count(conditions)
        }),
{
    let mut wheres: Vec<String> = Vec::new();
    types::push_text(&mut wheres, "m.kind = 'movie'");
    types::push_text(&mut wheres, "m.deleted_at IS NULL");
    assert(types::texts(wheres@) =~= seq!["m.kind = 'movie'"@, "m.deleted_at IS NULL"@]);
    push_if(
        &mut wheres,
        like.is_some(),
        "(m.sort_title LIKE ? ESCAPE '\\' OR m.title LIKE ? ESCAPE '\\')",
    );
    push_if(&mut wheres, year_min.is_some(), "m.year >= ?");
    push_if(&mut wheres, year_max.is_some(), "m.year <= ?");
    let mut of_genres = text::own(
        "(SELECT COUNT(DISTINCT genre) FROM media_genres WHERE media_id = m.id AND genre IN (",
    );
    of_genres.push_str(place_text(genres.len()).as_str());
    of_genres.push_str(")) = ?");
    push_if(&mut wheres, genres.len() > 0, of_genres.as_str());
    push_movie_watched(&mut wheres, watched);
    let where_sql = types::join(&wheres, " AND ");
    let order = if *sort == *"year_desc" {
        "m.year IS NULL, m.year DESC, m.sort_title"
    } else if *sort == *"year_asc" {
        "m.year IS NULL, m.year ASC, m.sort_title"
    } else if *sort == *"recently_added" {
        "COALESCE(m.added_at, m.scanned_at) DESC, m.id DESC"
    } else {
        "m.sort_title ASC"
    };
    let mut rows = text::own("SELECT m.id, m.title, m.year FROM media m WHERE ");
    rows.push_str(where_sql.as_str());
    rows.push_str(" ORDER BY ");
    rows.push_str(order);
    rows.push_str(" LIMIT ? OFFSET ?");
    let mut count = text::own("SELECT COUNT(*) FROM media m WHERE ");
    count.push_str(where_sql.as_str());
    (rows, count)
}

/// The queries for one page of the shows that are looked for, and for their number.
pub fn build_show_search_sql(
    like: Option<&str>,
    year_min: Option<i64>,
    year_max: Option<i64>,
    genres: &Vec<String>,
    watched: &str,
    sort: &str,
) -> (r: (String, String))
    ensures
        ({
            let conditions = show_conditions(
                like is Some,
                year_min is Some,
                year_max is Some,
                genres@.len(),
                watched@,
            );
            &&& r.0@ == show_rows(conditions, show_order(sort@))
            &&& r.1@ == show_count(conditions)
        }),
{
    let mut wheres: Vec<String> = Vec::new();
    types::push_text(&mut wheres, "s.deleted_at IS NULL");
    assert(types::texts(wheres@) =~= seq!["s.deleted_at IS NULL"@]);
    push_if(
        &mut wheres,
        like.is_some(),
        "(s.sort_title LIKE ? ESCAPE '\\' OR s.title LIKE ? ESCAPE '\\')",
    );
    push_if(&mut wheres, year_min.is_some(), "s.year >= ?");
    push_if(&mut wheres, year_max.is_some(), "s.year <= ?");
    let mut of_genres = text::own(
        "(SELECT COUNT(DISTINCT genre) FROM show_genres WHERE show_id = s.id AND genre IN (",
    );
    of_genres.push_str(place_text(genres.len()).as_str());
    of_genres.push_str(")) = ?");
    push_if(&mut wheres, genres.len() > 0, of_genres.as_str());
    push_show_watched(&mut wheres, watched);
    let where_sql = types::join(&wheres, " AND ");
    let order = if *sort == *"year_desc" {
        "s.year IS NULL, s.year DESC, s.sort_title"
    } else if *sort == *"year_asc" {
        "s.year IS NULL, s.year ASC, s.sort_title"
    } else if *sort == *"recently_added" {
        "COALESCE(s.added_at, s.scanned_at) DESC, s.id DESC"
    } else {
        "s.sort_title ASC"
    };
    let mut rows = text::own(SHOW_ROWS);
    rows.push_str(where_sql.as_str());
    rows.push_str(" ORDER BY ");
    rows.push_str(order);
    rows.push_str(" LIMIT ? OFFSET ?");
    let mut count = text::own("SELECT COUNT(*) FROM shows s WHERE ");
    count.push_str(where_sql.as_str());
    (rows, count)
}

// ---- the values that go with them ----

/// A value for one question mark of a query.
#[derive(Debug)]
pub enum Bound {
    Text(String),
    Number(i64),
}

pub enum BoundView {
    Text(Seq<char>),
    Number(int),
}

impl View for Bound {
    type V = BoundView;

    open spec fn view(&self) -> BoundView {
        match *self {
            Bound::Text(s) => BoundView::Text(s@),
            Bound::Number(n) => BoundView::Number(n as int),
        }
    }
}

pub open spec fn bound_views(v: Seq<Bound>) -> Seq<BoundView> {
    v.map_values(|b: Bound| b@)
}

/// A number, where it is asked for.
pub open spec fn number_if(n: Option<i64>) -> Seq<BoundView> {
    match n {
        Some(y) => seq![BoundView::Number(y as int)],
        None => Seq::empty(),
    }
}

/// The genres and how many they are, where any are asked for.
pub open spec fn genre_values(genres: Seq<Seq<char>>) -> Seq<BoundView> {
    let each = genres.map_values(|g: Seq<char>| BoundView::Text(g));
    if genres.len() > 0 {
        each.push(BoundView::Number(genres.len() as int))
    } else {
        each
    }
}

/// How often the condition on what was watched asks who is watching.
pub open spec fn times_user(watched: Seq<char>, of_shows: bool) -> nat {
    if watched == "in_progress"@ {
        if of_shows {
            2
        } else {
            1
        }
    } else if watched == "watched"@ || watched == "unwatched"@ {
        1
    } else {
        0
    }
}

/// The values of the conditions, in their order.
pub open spec fn search_values(
    like: Option<Seq<char>>,
    year_min: Option<i64>,
    year_max: Option<i64>,
    genres: Seq<Seq<char>>,
    watched: Seq<char>,
    user_sub: Seq<char>,
    of_shows: bool,
) -> Seq<BoundView> {
    title_values(like) + number_if(year_min) + number_if(year_max) + genre_values(genres)
        + user_values(watched, user_sub, of_shows)
}

fn push_bound_text(v: &mut Vec<Bound>, s: &str)
    ensures
        bound_views(final(v)@) == bound_views(old(v)@).push(BoundView::Text(s@)),
{
    let ghost start = v@;
    let b = Bound::Text(text::own(s));
    v.push(b);
    assert(bound_views(v@) =~= bound_views(start).push(b@));
}

fn push_bound_number(v: &mut Vec<Bound>, n: i64)
    ensures
        bound_views(final(v)@) == bound_views(old(v)@).push(BoundView::Number(n as int)),
{
    let ghost start = v@;
    let b = Bound::Number(n);
    v.push(b);
    assert(bound_views(v@) =~= bound_views(start).push(b@));
}

/// The pattern, once for each of the two titles.
pub open spec fn title_values(like: Option<Seq<char>>) -> Seq<BoundView> {
    match like {
        Some(l) => seq![BoundView::Text(l), BoundView::Text(l)],
        None => Seq::empty(),
    }
}

fn push_titles(out: &mut Vec<Bound>, like: Option<&str>)
    ensures
        bound_views(final(out)@) == bound_views(old(out)@) + title_values(types::opt_str(like)),
{
    let ghost start = bound_views(out@);
    if let Some(l) = like {
        push_bound_text(out, l);
        push_bound_text(out, l);
    }
    assert(bound_views(out@) =~= start + title_values(types::opt_str(like)));
}

fn push_number_if(out: &mut Vec<Bound>, n: Option<i64>)
    ensures
        bound_views(final(out)@) == bound_views(old(out)@) + number_if(n),
{
    let ghost start = bound_views(out@);
    if let Some(y) = n {
        push_bound_number(out, y);
    }
    assert(bound_views(out@) =~= start + number_if(n));
}

fn push_genres(out: &mut Vec<Bound>, genres: &Vec<String>)
    requires
        genres@.len() <= i64::MAX,
    ensures
        bound_views(final(out)@) == bound_views(old(out)@) + genre_values(types::texts(genres@)),
{
    let ghost start = bound_views(out@);
    let ghost each = types::texts(genres@).map_values(|g: Seq<char>| BoundView::Text(g));
    let mut i: usize = 0;
    assert(start + each.take(0) =~= start);
    while i < genres.len()
        invariant
            i <= genres@.len(),
            each == types::texts(genres@).map_values(|g: Seq<char>| BoundView::Text(g)),
            bound_views(out@) == start + each.take(i as int),
        decreases genres@.len() - i,
    {
        push_bound_text(out, genres[i].as_str());
        assert(each.take(i + 1) =~= each.take(i as int).push(
            BoundView::Text(genres@[i as int]@),
        ));
        assert(bound_views(out@) =~= start + each.take(i + 1));
        i += 1;
    }
    assert(each.take(i as int) =~= each);
    if genres.len() > 0 {
        push_bound_number(out, genres.len() as i64);
    }
    assert(bound_views(out@) =~= start + genre_values(types::texts(genres@)));
}

/// Who is watching, as often as that is asked.
pub open spec fn user_values(watched: Seq<char>, user_sub: Seq<char>, of_shows: bool) -> Seq<
    BoundView,
> {
    Seq::new(times_user(watched, of_shows), |i: int| BoundView::Text(user_sub))
}

fn push_user(out: &mut Vec<Bound>, watched: &str, user_sub: &str, of_shows: bool)
    ensures
        bound_views(final(out)@) == bound_views(old(out)@) + user_values(
            watched@,
            user_sub@,
            of_shows,
        ),
{
    let ghost start = bound_views(out@);
    let half_way = *watched == *"in_progress";
    if half_way || *watched == *"watched" || *watched == *"unwatched" {
        push_bound_text(out, user_sub);
    }
    if half_way && of_shows {
        push_bound_text(out, user_sub);
    }
    assert(bound_views(out@) =~= start + user_values(watched@, user_sub@, of_shows));
}

fn bind_search(
    like: Option<&str>,
    year_min: Option<i64>,
    year_max: Option<i64>,
    genres: &Vec<String>,
    watched: &str,
    user_sub: &str,
    of_shows: bool,
) -> (r: Vec<Bound>)
    requires
        genres@.len() <= i64::MAX,
    ensures
        bound_views(r@) == search_values(
            types::opt_str(like),
            year_min,
            year_max,
            types::texts(genres@),
            watched@,
            user_sub@,
            of_shows,
        ),
{
    let mut out: Vec<Bound> = Vec::new();
    push_titles(&mut out, like);
    assert(bound_views(out@) =~= title_values(types::opt_str(like)));
    push_number_if(&mut out, year_min);
    push_number_if(&mut out, year_max);
    push_genres(&mut out, genres);
    push_user(&mut out, watched, user_sub, of_shows);
    out
}

/// The values of the conditions on movies.
pub fn bind_movie_search(
    like: Option<&str>,
    year_min: Option<i64>,
    year_max: Option<i64>,
    genres: &Vec<String>,
    watched: &str,
    user_sub: &str,
) -> (r: Vec<Bound>)
    requires
        genres@.len() <= i64::MAX,
    ensures
        bound_views(r@) == search_values(
            types::opt_str(like),
            year_min,
            year_max,
            types::texts(genres@),
            watched@,
            user_sub@,
            false,
        ),
{
    bind_search(like, year_min, year_max, genres, watched, user_sub, false)
}

/// The values of the conditions on shows.
pub fn bind_show_search(
    like: Option<&str>,
    year_min: Option<i64>,
    year_max: Option<i64>,
    genres: &Vec<String>,
    watched: &str,
    user_sub: &str,
) -> (r: Vec<Bound>)
    requires
        genres@.len() <= i64::MAX,
    ensures
        bound_views(r@) == search_values(
            types::opt_str(like),
            year_min,
            year_max,
            types::texts(genres@),
            watched@,
            user_sub@,
            true,
        ),
{
    bind_search(like, year_min, year_max, genres, watched, user_sub, true)
}

// ---- a value for every question mark ----

/// How many question marks a text has.
pub open spec fn marks(s: Seq<char>) -> nat
    decreases s.len(),
{
    if s.len() == 0 {
        0
    } else {
        marks(s.drop_last()) + if s.last() == '?' {
            1nat
        } else {
            0
        }
    }
}

proof fn marks_concat(a: Seq<char>, b: Seq<char>)
    ensures
        marks(a + b) == marks(a) + marks(b),
    decreases b.len(),
{
    if b.len() == 0 {
        assert(a + b =~= a);
    } else {
        assert((a + b).drop_last() =~= a + b.drop_last());
        marks_concat(a, b.drop_last());
    }
}

proof fn no_marks(s: Seq<char>)
    requires
        forall|i: int| 0 <= i < s.len() ==> s[i] != '?',
    ensures
        marks(s) == 0,
    decreases s.len(),
{
    if s.len() > 0 {
        no_marks(s.drop_last());
    }
}

proof fn one_mark(s: Seq<char>, k: int)
    requires
        0 <= k < s.len(),
        s[k] == '?',
        forall|i: int| 0 <= i < s.len() && i != k ==> s[i] != '?',
    ensures
        marks(s) == 1,
{
    no_marks(s.take(k));
    no_marks(s.skip(k + 1));
    assert(s =~= s.take(k) + (seq!['?'] + s.skip(k + 1)));
    marks_concat(seq!['?'], s.skip(k + 1));
    marks_concat(s.take(k), seq!['?'] + s.skip(k + 1));
    assert(marks(seq!['?']) == 1) by {
        assert(seq!['?'].drop_last() =~= Seq::<char>::empty());
        assert(marks(seq!['?'].drop_last()) == 0);
    }
}

proof fn two_marks(s: Seq<char>, j: int, k: int)
    requires
        0 <= j < k < s.len(),
        s[j] == '?',
        s[k] == '?',
        forall|i: int| 0 <= i < s.len() && i != j && i != k ==> s[i] != '?',
    ensures
        marks(s) == 2,
{
    one_mark(s.take(k), j);
    one_mark(s.skip(k), 0);
    assert(s =~= s.take(k) + s.skip(k));
    marks_concat(s.take(k), s.skip(k));
}

proof fn places_marks(n: nat)
    ensures
        marks(places(n)) == n,
    decreases n,
{
    let all = Seq::new(n, |i: int| "?"@);
    reveal_strlit("?");
    reveal_strlit(", ");
    one_mark("?"@, 0);
    no_marks(", "@);
    if n >= 2 {
        places_marks((n - 1) as nat);
        assert(all.drop_last() =~= Seq::new((n - 1) as nat, |i: int| "?"@));
        marks_concat(places((n - 1) as nat), ", "@);
        marks_concat(places((n - 1) as nat) + ", "@, "?"@);
    }
}

/// How many question marks several texts have.
pub open spec fn total_marks(v: Seq<Seq<char>>) -> nat
    decreases v.len(),
{
    if v.len() == 0 {
        0
    } else {
        total_marks(v.drop_last()) + marks(v.last())
    }
}

proof fn total_concat(a: Seq<Seq<char>>, b: Seq<Seq<char>>)
    ensures
        total_marks(a + b) == total_marks(a) + total_marks(b),
    decreases b.len(),
{
    if b.len() == 0 {
        assert(a + b =~= a);
    } else {
        assert((a + b).drop_last() =~= a + b.drop_last());
        total_concat(a, b.drop_last());
    }
}

proof fn joined_marks(v: Seq<Seq<char>>)
    ensures
        marks(types::join_texts(v, " AND "@)) == total_marks(v),
    decreases v.len(),
{
    reveal_strlit(" AND ");
    no_marks(" AND "@);
    if v.len() == 1 {
        assert(v.drop_last() =~= Seq::<Seq<char>>::empty());
        assert(total_marks(v.drop_last()) == 0);
    } else if v.len() > 1 {
        joined_marks(v.drop_last());
        let front = types::join_texts(v.drop_last(), " AND "@);
        marks_concat(front, " AND "@);
        marks_concat(front + " AND "@, v.last());
    }
}

proof fn only_marks(asked: bool, condition: Seq<char>)
    ensures
        total_marks(only_if(asked, condition)) == if asked {
            marks(condition)
        } else {
            0
        },
{
    assert(seq![condition].drop_last() =~= Seq::<Seq<char>>::empty());
    assert(total_marks(seq![condition].drop_last()) == 0);
}

proof fn movie_watched_marks(watched: Seq<char>)
    ensures
        total_marks(movie_watched(watched)) == times_user(watched, false),
{
    reveal_strlit("watched");
    reveal_strlit("unwatched");
    reveal_strlit("in_progress");
    assert("watched"@.len() == 7);
    assert("unwatched"@.len() == 9);
    assert("in_progress"@.len() == 11);
    if watched == "watched"@ {
        let s = MOVIE_WATCHED@;
        reveal_strlit(
            "EXISTS (SELECT 1 FROM watch_progress wp WHERE wp.media_id = m.id AND wp.user_sub = ? AND wp.completed = 1)",
        );
        one_mark(s, 83);
        only_marks(true, s);
    } else if watched == "unwatched"@ {
        let s = MOVIE_UNWATCHED@;
        reveal_strlit(
            "NOT EXISTS (SELECT 1 FROM watch_progress wp WHERE wp.media_id = m.id AND wp.user_sub = ? AND (wp.completed = 1 OR wp.position_secs > 0))",
        );
        one_mark(s, 87);
        only_marks(true, s);
    } else if watched == "in_progress"@ {
        let s = MOVIE_IN_PROGRESS@;
        reveal_strlit(
            "EXISTS (SELECT 1 FROM watch_progress wp WHERE wp.media_id = m.id AND wp.user_sub = ? AND wp.completed = 0 AND wp.position_secs > 0)",
        );
        one_mark(s, 83);
        only_marks(true, s);
    }
}

proof fn show_watched_mark()
    ensures
        marks(SHOW_WATCHED@) == 1,
{
    let s = SHOW_WATCHED@;
    reveal_strlit(
        "EXISTS (SELECT 1 FROM media m WHERE m.show_id = s.id AND m.deleted_at IS NULL) AND NOT EXISTS ( SELECT 1 FROM media m LEFT JOIN watch_progress wp ON wp.media_id = m.id AND wp.user_sub = ? WHERE m.show_id = s.id AND m.kind = 'episode' AND m.deleted_at IS NULL AND COALESCE(wp.completed, 0) = 0)",
    );
    one_mark(s, 186);
}

proof fn show_unwatched_mark()
    ensures
        marks(SHOW_UNWATCHED@) == 1,
{
    let s = SHOW_UNWATCHED@;
    reveal_strlit(
        "NOT EXISTS ( SELECT 1 FROM media m JOIN watch_progress wp ON wp.media_id = m.id WHERE m.show_id = s.id AND wp.user_sub = ? AND m.deleted_at IS NULL AND (wp.completed = 1 OR wp.position_secs > 0))",
    );
    one_mark(s, 121);
}

proof fn show_in_progress_marks()
    ensures
        marks(SHOW_IN_PROGRESS@) == 2,
{
    let s = SHOW_IN_PROGRESS@;
    reveal_strlit(
        "EXISTS ( SELECT 1 FROM media m JOIN watch_progress wp ON wp.media_id = m.id WHERE m.show_id = s.id AND wp.user_sub = ? AND m.deleted_at IS NULL AND (wp.completed = 1 OR wp.position_secs > 0)) AND EXISTS ( SELECT 1 FROM media m LEFT JOIN watch_progress wp ON wp.media_id = m.id AND wp.user_sub = ? WHERE m.show_id = s.id AND m.kind = 'episode' AND m.deleted_at IS NULL AND COALESCE(wp.completed, 0) = 0)",
    );
    two_marks(s, 117, 295);
}

proof fn show_watched_marks(watched: Seq<char>)
    ensures
        total_marks(show_watched(watched)) == times_user(watched, true),
{
    reveal_strlit("watched");
    reveal_strlit("unwatched");
    reveal_strlit("in_progress");
    assert("watched"@.len() == 7);
    assert("unwatched"@.len() == 9);
    assert("in_progress"@.len() == 11);
    if watched == "watched"@ {
        show_watched_mark();
        only_marks(true, SHOW_WATCHED@);
    } else if watched == "unwatched"@ {
        show_unwatched_mark();
        only_marks(true, SHOW_UNWATCHED@);
    } else if watched == "in_progress"@ {
        show_in_progress_marks();
        only_marks(true, SHOW_IN_PROGRESS@);
    }
}

proof fn condition_marks(prefix: Seq<char>, n: nat)
    requires
        marks(prefix) == 0,
    ensures
        marks(prefix + places(n) + ")) = ?"@) == n + 1,
{
    reveal_strlit(")) = ?");
    one_mark(")) = ?"@, 5);
    places_marks(n);
    marks_concat(prefix, places(n));
    marks_concat(prefix + places(n), ")) = ?"@);
}

proof fn movie_condition_marks(
    like: bool,
    year_min: bool,
    year_max: bool,
    genres: nat,
    watched: Seq<char>,
)
    ensures
        total_marks(movie_conditions(like, year_min, year_max, genres, watched)) == (if like {
            2nat
        } else {
            0
        }) + (if year_min {
            1nat
        } else {
            0
        }) + (if year_max {
            1nat
        } else {
            0
        }) + (if genres > 0 {
            genres + 1
        } else {
            0
        }) + times_user(watched, false),
{
    let first = seq!["m.kind = 'movie'"@, "m.deleted_at IS NULL"@];
    let titles = "(m.sort_title LIKE ? ESCAPE '\\' OR m.title LIKE ? ESCAPE '\\')"@;
    let prefix =
        "(SELECT COUNT(DISTINCT genre) FROM media_genres WHERE media_id = m.id AND genre IN ("@;
    let of_genres = prefix + places(genres) + ")) = ?"@;
    assert(total_marks(first) == 0) by {
        reveal_strlit("m.kind = 'movie'");
        reveal_strlit("m.deleted_at IS NULL");
        no_marks("m.kind = 'movie'"@);
        no_marks("m.deleted_at IS NULL"@);
        assert(first.drop_last() =~= seq!["m.kind = 'movie'"@]);
        only_marks(true, "m.kind = 'movie'"@);
    }
    assert(marks(titles) == 2) by {
        reveal_strlit("(m.sort_title LIKE ? ESCAPE '\\' OR m.title LIKE ? ESCAPE '\\')");
        two_marks(titles, 19, 48);
    }
    assert(marks("m.year >= ?"@) == 1) by {
        reveal_strlit("m.year >= ?");
        one_mark("m.year >= ?"@, 10);
    }
    assert(marks("m.year <= ?"@) == 1) by {
        reveal_strlit("m.year <= ?");
        one_mark("m.year <= ?"@, 10);
    }
    assert(marks(prefix) == 0) by {
        reveal_strlit(
            "(SELECT COUNT(DISTINCT genre) FROM media_genres WHERE media_id = m.id AND genre IN (",
        );
        no_marks(prefix);
    }
    condition_marks(prefix, genres);
    only_marks(like, titles);
    only_marks(year_min, "m.year >= ?"@);
    only_marks(year_max, "m.year <= ?"@);
    only_marks(genres > 0, of_genres);
    movie_watched_marks(watched);
    let a = first + only_if(like, titles);
    let b = a + only_if(year_min, "m.year >= ?"@);
    let c = b + only_if(year_max, "m.year <= ?"@);
    let d = c + only_if(genres > 0, of_genres);
    total_concat(first, only_if(like, titles));
    total_concat(a, only_if(year_min, "m.year >= ?"@));
    total_concat(b, only_if(year_max, "m.year <= ?"@));
    total_concat(c, only_if(genres > 0, of_genres));
    total_concat(d, movie_watched(watched));
}

proof fn show_condition_marks(
    like: bool,
    year_min: bool,
    year_max: bool,
    genres: nat,
    watched: Seq<char>,
)
    ensures
        total_marks(show_conditions(like, year_min, year_max, genres, watched)) == (if like {
            2nat
        } else {
            0
        }) + (if year_min {
            1nat
        } else {
            0
        }) + (if year_max {
            1nat
        } else {
            0
        }) + (if genres > 0 {
            genres + 1
        } else {
            0
        }) + times_user(watched, true),
{
    let first = seq!["s.deleted_at IS NULL"@];
    let titles = "(s.sort_title LIKE ? ESCAPE '\\' OR s.title LIKE ? ESCAPE '\\')"@;
    let prefix =
        "(SELECT COUNT(DISTINCT genre) FROM show_genres WHERE show_id = s.id AND genre IN ("@;
    let of_genres = prefix + places(genres) + ")) = ?"@;
    assert(total_marks(first) == 0) by {
        reveal_strlit("s.deleted_at IS NULL");
        no_marks("s.deleted_at IS NULL"@);
        only_marks(true, "s.deleted_at IS NULL"@);
    }
    assert(marks(titles) == 2) by {
        reveal_strlit("(s.sort_title LIKE ? ESCAPE '\\' OR s.title LIKE ? ESCAPE '\\')");
        two_marks(titles, 19, 48);
    }
    assert(marks("s.year >= ?"@) == 1) by {
        reveal_strlit("s.year >= ?");
        one_mark("s.year >= ?"@, 10);
    }
    assert(marks("s.year <= ?"@) == 1) by {
        reveal_strlit("s.year <= ?");
        one_mark("s.year <= ?"@, 10);
    }
    assert(marks(prefix) == 0) by {
        reveal_strlit(
            "(SELECT COUNT(DISTINCT genre) FROM show_genres WHERE show_id = s.id AND genre IN (",
        );
        no_marks(prefix);
    }
    condition_marks(prefix, genres);
    only_marks(like, titles);
    only_marks(year_min, "s.year >= ?"@);
    only_marks(year_max, "s.year <= ?"@);
    only_marks(genres > 0, of_genres);
    show_watched_marks(watched);
    let a = first + only_if(like, titles);
    let b = a + only_if(year_min, "s.year >= ?"@);
    let c = b + only_if(year_max, "s.year <= ?"@);
    let d = c + only_if(genres > 0, of_genres);
    total_concat(first, only_if(like, titles));
    total_concat(a, only_if(year_min, "s.year >= ?"@));
    total_concat(b, only_if(year_max, "s.year <= ?"@));
    total_concat(c, only_if(genres > 0, of_genres));
    total_concat(d, show_watched(watched));
}

proof fn page_marks(head: Seq<char>, joined: Seq<char>, order: Seq<char>)
    requires
        marks(head) == 0,
        marks(order) == 0,
    ensures
        marks(head + joined + " ORDER BY "@ + order + " LIMIT ? OFFSET ?"@) == marks(joined) + 2,
{
    reveal_strlit(" ORDER BY ");
    reveal_strlit(" LIMIT ? OFFSET ?");
    no_marks(" ORDER BY "@);
    two_marks(" LIMIT ? OFFSET ?"@, 7, 16);
    marks_concat(head, joined);
    marks_concat(head + joined, " ORDER BY "@);
    marks_concat(head + joined + " ORDER BY "@, order);
    marks_concat(head + joined + " ORDER BY "@ + order, " LIMIT ? OFFSET ?"@);
}

proof fn order_marks(sort: Seq<char>)
    ensures
        marks(movie_order(sort)) == 0,
        marks(show_order(sort)) == 0,
{
    reveal_strlit("m.year IS NULL, m.year DESC, m.sort_title");
    reveal_strlit("m.year IS NULL, m.year ASC, m.sort_title");
    reveal_strlit("COALESCE(m.added_at, m.scanned_at) DESC, m.id DESC");
    reveal_strlit("m.sort_title ASC");
    reveal_strlit("s.year IS NULL, s.year DESC, s.sort_title");
    reveal_strlit("s.year IS NULL, s.year ASC, s.sort_title");
    reveal_strlit("COALESCE(s.added_at, s.scanned_at) DESC, s.id DESC");
    reveal_strlit("s.sort_title ASC");
    no_marks(movie_order(sort));
    no_marks(show_order(sort));
}

/// The queries for movies have a value for every question mark: those of the conditions,
/// and behind them the size of a page and where it begins.
pub proof fn movie_values_fit(
    like: Option<Seq<char>>,
    year_min: Option<i64>,
    year_max: Option<i64>,
    genres: Seq<Seq<char>>,
    watched: Seq<char>,
    sort: Seq<char>,
    user_sub: Seq<char>,
)
    ensures
        ({
            let conditions = movie_conditions(
                like is Some,
                year_min is Some,
                year_max is Some,
                genres.len(),
                watched,
            );
            let values = search_values(
                like,
                year_min,
                year_max,
                genres,
                watched,
                user_sub,
                false,
            );
            &&& marks(movie_count(conditions)) == values.len()
            &&& marks(movie_rows(conditions, movie_order(sort))) == values.len() + 2
        }),
{
    let conditions = movie_conditions(
        like is Some,
        year_min is Some,
        year_max is Some,
        genres.len(),
        watched,
    );
    let joined = types::join_texts(conditions, " AND "@);
    movie_condition_marks(like is Some, year_min is Some, year_max is Some, genres.len(), watched);
    joined_marks(conditions);
    reveal_strlit("SELECT m.id, m.title, m.year FROM media m WHERE ");
    reveal_strlit("SELECT COUNT(*) FROM media m WHERE ");
    no_marks("SELECT m.id, m.title, m.year FROM media m WHERE "@);
    no_marks("SELECT COUNT(*) FROM media m WHERE "@);
    marks_concat("SELECT COUNT(*) FROM media m WHERE "@, joined);
    order_marks(sort);
    page_marks("SELECT m.id, m.title, m.year FROM media m WHERE "@, joined, movie_order(sort));
}

/// The queries for shows have a value for every question mark: those of the conditions,
/// and behind them the size of a page and where it begins.
pub proof fn show_values_fit(
    like: Option<Seq<char>>,
    year_min: Option<i64>,
    year_max: Option<i64>,
    genres: Seq<Seq<char>>,
    watched: Seq<char>,
    sort: Seq<char>,
    user_sub: Seq<char>,
)
    ensures
        ({
            let conditions = show_conditions(
                like is Some,
                year_min is Some,
                year_max is Some,
                genres.len(),
                watched,
            );
            let values = search_values(
                like,
                year_min,
                year_max,
                genres,
                watched,
                user_sub,
                true,
            );
            &&& marks(show_count(conditions)) == values.len()
            &&& marks(show_rows(conditions, show_order(sort))) == values.len() + 2
        }),
{
    let conditions = show_conditions(
        like is Some,
        year_min is Some,
        year_max is Some,
        genres.len(),
        watched,
    );
    let joined = types::join_texts(conditions, " AND "@);
    show_condition_marks(like is Some, year_min is Some, year_max is Some, genres.len(), watched);
    joined_marks(conditions);
    reveal_strlit(
        "SELECT s.id, s.title, s.year, (SELECT COUNT(*) FROM media m WHERE m.show_id = s.id AND m.deleted_at IS NULL) AS episode_count, (s.banner_path IS NOT NULL) AS has_banner FROM shows s WHERE ",
    );
    reveal_strlit("SELECT COUNT(*) FROM shows s WHERE ");
    no_marks(SHOW_ROWS@);
    no_marks("SELECT COUNT(*) FROM shows s WHERE "@);
    marks_concat("SELECT COUNT(*) FROM shows s WHERE "@, joined);
    order_marks(sort);
    page_marks(SHOW_ROWS@, joined, show_order(sort));
}

// ---- further laws ----

/// What is asked is kept within bounds: one to five hundred results, sixty where nothing is
/// said, and never from before the first.
pub proof fn pages_are_bounded(p: SearchParams)
    ensures
        p.limit matches Some(n) ==> {
            &&& 1 <= n <= 500 ==> search_for(p).limit == n
            &&& n < 1 ==> search_for(p).limit == 1
            &&& n > 500 ==> search_for(p).limit == 500
        },
        p.limit is None ==> search_for(p).limit == 60,
        p.offset matches Some(n) ==> {
            &&& n >= 0 ==> search_for(p).offset == n
            &&& n < 0 ==> search_for(p).offset == 0
        },
        p.offset is None ==> search_for(p).offset == 0,
{
}

/// One kind is looked for where it is asked for by name; both are where nothing else is said.
pub proof fn kinds_are_looked_for_as_asked(p: SearchParams)
    ensures
        types::opt_text(p.kind) == Some("movie"@) ==> search_for(p).movies && !search_for(p).shows,
        types::opt_text(p.kind) == Some("show"@) ==> !search_for(p).movies && search_for(p).shows,
        types::opt_text(p.kind) != Some("movie"@) && types::opt_text(p.kind) != Some("show"@)
            ==> search_for(p).movies && search_for(p).shows,
{
    reveal_strlit("movie");
    reveal_strlit("show");
    assert("movie"@.len() != "show"@.len());
}

/// The words that are looked for may stand anywhere in a title, and stand for nothing but
/// themselves; white space around them does not count, and nothing else asks for nothing.
pub proof fn words_may_stand_anywhere(p: SearchParams, q: String)
    requires
        p.q == Some(q),
    ensures
        search_for(p).like is None <==> text::is_blank(q@),
        search_for(p).like matches Some(l) ==> {
            &&& l.len() >= 2
            &&& l[0] == '%'
            &&& l.last() == '%'
            &&& literal(l.subrange(1, l.len() - 1)) == Some(text::trimmed(q@))
        },
{
    reveal_strlit("%");
    text::blank_iff_trimmed_empty(q@);
    let w = text::trimmed(q@);
    escaped_is_literal(w);
    let l = "%"@ + escaped(w) + "%"@;
    assert(l.subrange(1, l.len() - 1) =~= escaped(w));
}

/// The values stand in the order of the conditions: the pattern for each of the two titles,
/// the years, the genres and their number, and whoever is watching.
pub proof fn values_stand_in_order(
    like: Seq<char>,
    year_min: i64,
    year_max: i64,
    genres: Seq<Seq<char>>,
    watched: Seq<char>,
    user_sub: Seq<char>,
    of_shows: bool,
)
    ensures
        ({
            let v = search_values(
                Some(like),
                Some(year_min),
                Some(year_max),
                genres,
                watched,
                user_sub,
                of_shows,
            );
            let n = genres.len() as int;
            let users = if n > 0 {
                5 + n
            } else {
                4
            };
            &&& v.len() >= users
            &&& v[0] == BoundView::Text(like) && v[1] == BoundView::Text(like)
            &&& v[2] == BoundView::Number(year_min as int)
            &&& v[3] == BoundView::Number(year_max as int)
            &&& forall|i: int| 0 <= i < n ==> v[4 + i] == BoundView::Text(#[trigger] genres[i])
            &&& n > 0 ==> v[4 + n] == BoundView::Number(n)
            &&& forall|i: int| users <= i < v.len() ==> #[trigger] v[i] == BoundView::Text(user_sub)
            &&& v.len() - users == if watched == "in_progress"@ && of_shows {
                2int
            } else if watched == "in_progress"@ || watched == "watched"@ || watched
                == "unwatched"@ {
                1
            } else {
                0
            }
        }),
{
    let v = search_values(
        Some(like),
        Some(year_min),
        Some(year_max),
        genres,
        watched,
        user_sub,
        of_shows,
    );
    let head = title_values(Some(like)) + number_if(Some(year_min)) + number_if(Some(year_max));
    let g = genre_values(genres);
    let u = user_values(watched, user_sub, of_shows);
    assert(v == head + g + u);
    assert(head.len() == 4);
    assert forall|i: int| 0 <= i < genres.len() implies v[4 + i] == BoundView::Text(
        #[trigger] genres[i],
    ) by {
        assert(v[4 + i] == g[i]);
    }
    assert forall|i: int| 4 + g.len() <= i < v.len() implies #[trigger] v[i] == BoundView::Text(
        user_sub,
    ) by {
        assert(v[i] == u[i - 4 - g.len()]);
    }
}

/// Films are listed by title unless another order is asked for; of the years the latest or the
/// earliest comes first.
pub proof fn films_are_listed_as_asked(sort: Seq<char>)
    ensures
        movie_order("year_desc"@) == "m.year IS NULL, m.year DESC, m.sort_title"@,
        movie_order("year_asc"@) == "m.year IS NULL, m.year ASC, m.sort_title"@,
        movie_order("recently_added"@) == "COALESCE(m.added_at, m.scanned_at) DESC, m.id DESC"@,
        sort != "year_desc"@ && sort != "year_asc"@ && sort != "recently_added"@ ==> movie_order(
            sort,
        ) == "m.sort_title ASC"@,
{
    reveal_strlit("year_desc");
    reveal_strlit("year_asc");
    reveal_strlit("recently_added");
    assert("year_desc"@.len() == 9 && "year_asc"@.len() == 8 && "recently_added"@.len() == 14);
}

/// Only films that are still there are found, and a year is looked for only where one is
/// asked for.
pub proof fn only_films_are_found(
    like: bool,
    year_min: bool,
    year_max: bool,
    genres: nat,
    watched: Seq<char>,
)
    ensures
        ({
            let c = movie_conditions(like, year_min, year_max, genres, watched);
            let n = if like {
                3int
            } else {
                2
            };
            &&& c.len() >= 2
            &&& c[0] == "m.kind = 'movie'"@
            &&& c[1] == "m.deleted_at IS NULL"@
            &&& year_min ==> c[n] == "m.year >= ?"@
            &&& year_max ==> c[n + if year_min {
                1int
            } else {
                0
            }] == "m.year <= ?"@
        }),
{
}

} // verus!
