//! Metadata files that stand beside the media: what kind they are, and what is taken
//! from them.

use crate::text;
use crate::types;
use vstd::prelude::*;

verus! {

/// One entry of a title's ids in other catalogues.
#[derive(Debug)]
pub struct UniqueId {
    pub kind: String,
    pub value: String,
}

/// One rating of a title. Its value is in millionths.
#[derive(Debug)]
pub struct RatingItem {
    pub name: Option<String>,
    pub default: Option<bool>,
    pub value: Option<i64>,
    pub votes: Option<i64>,
}

/// All ratings of a title.
#[derive(Debug)]
pub struct Ratings {
    pub items: Vec<RatingItem>,
}

#[derive(Debug)]
pub struct MovieNfo {
    pub title: Option<String>,
    pub original_title: Option<String>,
    pub year: Option<i64>,
    pub plot: Option<String>,
    pub runtime: Option<i64>,
    pub genre: Vec<String>,
    pub uniqueid: Vec<UniqueId>,
    pub mpaa: Option<String>,
    pub tagline: Option<String>,
    pub premiered: Option<String>,
    pub studio: Vec<String>,
    pub director: Vec<String>,
    /// The writers.
    pub credits: Vec<String>,
    pub rating: Option<i64>,
    pub ratings: Option<Ratings>,
}

#[derive(Debug)]
pub struct TvShowNfo {
    pub title: Option<String>,
    pub original_title: Option<String>,
    pub year: Option<i64>,
    pub premiered: Option<String>,
    pub plot: Option<String>,
    pub genre: Vec<String>,
    pub uniqueid: Vec<UniqueId>,
    pub mpaa: Option<String>,
    pub status: Option<String>,
    pub enddate: Option<String>,
    pub studio: Vec<String>,
    pub rating: Option<i64>,
    pub ratings: Option<Ratings>,
}

#[derive(Debug)]
pub struct EpisodeNfo {
    pub title: Option<String>,
    pub season: Option<i64>,
    pub episode: Option<i64>,
    pub plot: Option<String>,
    pub runtime: Option<i64>,
    pub aired: Option<String>,
}

impl Default for EpisodeNfo {
    fn default() -> (r: Self)
        ensures
            r.title is None,
            r.season is None,
            r.episode is None,
            r.plot is None,
            r.runtime is None,
            r.aired is None,
    {
        EpisodeNfo {
            title: None,
            season: None,
            episode: None,
            plot: None,
            runtime: None,
            aired: None,
        }
    }
}

impl Default for MovieNfo {
    fn default() -> (r: Self)
        ensures
            r.title is None,
            r.original_title is None,
            r.year is None,
            r.plot is None,
            r.runtime is None,
            r.genre@.len() == 0,
            r.uniqueid@.len() == 0,
            r.mpaa is None,
            r.tagline is None,
            r.premiered is None,
            r.studio@.len() == 0,
            r.director@.len() == 0,
            r.credits@.len() == 0,
            r.rating is None,
            r.ratings is None,
    {
        MovieNfo {
            title: None,
            original_title: None,
            year: None,
            plot: None,
            runtime: None,
            genre: Vec::new(),
            uniqueid: Vec::new(),
            mpaa: None,
            tagline: None,
            premiered: None,
            studio: Vec::new(),
            director: Vec::new(),
            credits: Vec::new(),
            rating: None,
            ratings: None,
        }
    }
}

impl Default for TvShowNfo {
    fn default() -> (r: Self)
        ensures
            r.title is None,
            r.original_title is None,
            r.year is None,
            r.premiered is None,
            r.plot is None,
            r.genre@.len() == 0,
            r.uniqueid@.len() == 0,
            r.mpaa is None,
            r.status is None,
            r.enddate is None,
            r.studio@.len() == 0,
            r.rating is None,
            r.ratings is None,
    {
        TvShowNfo {
            title: None,
            original_title: None,
            year: None,
            premiered: None,
            plot: None,
            genre: Vec::new(),
            uniqueid: Vec::new(),
            mpaa: None,
            status: None,
            enddate: None,
            studio: Vec::new(),
            rating: None,
            ratings: None,
        }
    }
}

// ---- ids ----

/// The value of the first id of the given kind, letter case aside.
pub open spec fn id_of(ids: Seq<UniqueId>, kind: Seq<char>) -> Option<Seq<char>>
    decreases ids.len(),
{
    if ids.len() == 0 {
        None
    } else if text::ascii_lower_text(ids[0].kind@) == text::ascii_lower_text(kind) {
        Some(ids[0].value@)
    } else {
        id_of(ids.skip(1), kind)
    }
}

/// The first id of the given kind.
pub fn find_id<'a>(ids: &'a Vec<UniqueId>, kind: &str) -> (r: Option<&'a str>)
    ensures
        types::opt_str(r) == id_of(ids@, kind@),
{
    let mut i: usize = 0;
    assert(ids@.skip(0) =~= ids@);
    while i < ids.len()
        invariant
            i <= ids@.len(),
            id_of(ids@, kind@) == id_of(ids@.skip(i as int), kind@),
        decreases ids@.len() - i,
    {
        if text::eq_ignore_ascii_case(ids[i].kind.as_str(), kind) {
            return Some(ids[i].value.as_str());
        }
        assert(ids@.skip(i as int).skip(1) =~= ids@.skip(i + 1));
        i += 1;
    }
    None
}

// ---- ratings ----

/// A rating that its file marks as the default, with a value.
pub open spec fn is_default_rating(it: RatingItem) -> bool {
    it.default == Some(true) && it.value is Some
}

/// A rating with a value other than zero.
pub open spec fn is_real_rating(it: RatingItem) -> bool {
    it.value matches Some(v) && v != 0
}

/// The index of the first default rating from `i` on, or the number of ratings.
pub open spec fn first_default(v: Seq<RatingItem>, i: int) -> int
    decreases v.len() - i,
{
    if i < 0 || i >= v.len() || is_default_rating(v[i]) {
        i
    } else {
        first_default(v, i + 1)
    }
}

/// The index of the first rating with a value from `i` on, or the number of ratings.
pub open spec fn first_real(v: Seq<RatingItem>, i: int) -> int
    decreases v.len() - i,
{
    if i < 0 || i >= v.len() || is_real_rating(v[i]) {
        i
    } else {
        first_real(v, i + 1)
    }
}

/// The rating that is chosen of a list: the default one, else the first with a value.
pub open spec fn chosen_rating(v: Seq<RatingItem>) -> Option<RatingItem> {
    if first_default(v, 0) < v.len() {
        Some(v[first_default(v, 0)])
    } else if first_real(v, 0) < v.len() {
        Some(v[first_real(v, 0)])
    } else {
        None
    }
}

/// The value, the votes and the source of the rating that stands for a title.
pub open spec fn rating_of(ratings: Option<Ratings>, flat: Option<i64>) -> Option<
    (i64, Option<i64>, Seq<char>),
> {
    let picked = match ratings {
        Some(r) => chosen_rating(r.items@),
        None => None,
    };
    match picked {
        Some(it) => Some(
            (
                it.value->0,
                it.votes,
                match it.name {
                    Some(n) => n@,
                    None => "nfo"@,
                },
            ),
        ),
        None => match flat {
            Some(v) => Some((v, None, "nfo"@)),
            None => None,
        },
    }
}

fn find_rating(v: &Vec<RatingItem>) -> (r: Option<usize>)
    ensures
        match r {
            Some(i) => i < v@.len() && chosen_rating(v@) == Some(v@[i as int]) && v@[i as int].value
                is Some,
            None => chosen_rating(v@) is None,
        },
{
    let mut i: usize = 0;
    while i < v.len()
        invariant
            i <= v@.len(),
            first_default(v@, 0) == first_default(v@, i as int),
        decreases v@.len() - i,
    {
        let is_default = match v[i].default {
            Some(d) => d,
            None => false,
        };
        if is_default && v[i].value.is_some() {
            return Some(i);
        }
        i += 1;
    }
    let mut j: usize = 0;
    while j < v.len()
        invariant
            j <= v@.len(),
            i == v@.len(),
            first_default(v@, 0) == i,
            first_real(v@, 0) == first_real(v@, j as int),
        decreases v@.len() - j,
    {
        if let Some(x) = v[j].value {
            if x != 0 {
                return Some(j);
            }
        }
        j += 1;
    }
    None
}

/// The rating that stands for a title: the one marked as the default, else the first with
/// a value that is not zero, else the plain one.
pub fn primary_rating(ratings: &Option<Ratings>, flat: Option<i64>) -> (r: Option<
    (i64, Option<i64>, String),
>)
    ensures
        match r {
            Some(x) => rating_of(*ratings, flat) == Some((x.0, x.1, x.2@)),
            None => rating_of(*ratings, flat) is None,
        },
{
    if let Some(rs) = ratings {
        if let Some(i) = find_rating(&rs.items) {
            let it = &rs.items[i];
            let source = match &it.name {
                Some(n) => text::own(n.as_str()),
                None => text::own("nfo"),
            };
            if let Some(v) = it.value {
                return Some((v, it.votes, source));
            }
        }
    }
    match flat {
        Some(v) => Some((v, None, text::own("nfo"))),
        None => None,
    }
}

impl MovieNfo {
    /// Its id at IMDb.
    pub fn imdb_id(&self) -> (r: Option<&str>)
        ensures
            types::opt_str(r) == id_of(self.uniqueid@, "imdb"@),
    {
        find_id(&self.uniqueid, "imdb")
    }

    /// Its id at TMDB.
    pub fn tmdb_id(&self) -> (r: Option<&str>)
        ensures
            types::opt_str(r) == id_of(self.uniqueid@, "tmdb"@),
    {
        find_id(&self.uniqueid, "tmdb")
    }

    /// Its rating in millionths, the number of votes and who gives it.
    pub fn primary_rating(&self) -> (r: Option<(i64, Option<i64>, String)>)
        ensures
            match r {
                Some(x) => rating_of(self.ratings, self.rating) == Some((x.0, x.1, x.2@)),
                None => rating_of(self.ratings, self.rating) is None,
            },
    {
        primary_rating(&self.ratings, self.rating)
    }
}

/// The year at the start of a date.
pub open spec fn year_at_start(s: Seq<char>) -> Option<int> {
    if s.len() < 4 {
        None
    } else {
        text::signed_value(s.take(4))
    }
}

/// The year of a show: the one that is given, else that of its first broadcast.
pub open spec fn show_year(year: Option<i64>, premiered: Option<Seq<char>>) -> Option<int> {
    match year {
        Some(y) => Some(y as int),
        None => match premiered {
            Some(d) => year_at_start(d),
            None => None,
        },
    }
}

impl TvShowNfo {
    /// Its id at IMDb.
    pub fn imdb_id(&self) -> (r: Option<&str>)
        ensures
            types::opt_str(r) == id_of(self.uniqueid@, "imdb"@),
    {
        find_id(&self.uniqueid, "imdb")
    }

    /// Its id at TMDB.
    pub fn tmdb_id(&self) -> (r: Option<&str>)
        ensures
            types::opt_str(r) == id_of(self.uniqueid@, "tmdb"@),
    {
        find_id(&self.uniqueid, "tmdb")
    }

    /// Its year, or that of its first day on air.
    pub fn year_or_premiered(&self) -> (r: Option<i64>)
        ensures
            match r {
                Some(y) => show_year(self.year, types::opt_text(self.premiered)) == Some(y as int),
                None => show_year(self.year, types::opt_text(self.premiered)) is None,
            },
    {
        if let Some(y) = self.year {
            return Some(y);
        }
        match &self.premiered {
            None => None,
            Some(d) => {
                let v = text::chars_of(d.as_str());
                if v.len() < 4 {
                    return None;
                }
                let head = text::string_of(&v, 0, 4);
                assert(head@ =~= d@.take(4));
                text::parse_i64(head.as_str())
            },
        }
    }

    /// Its rating in millionths, the number of votes and who gives it.
    pub fn primary_rating(&self) -> (r: Option<(i64, Option<i64>, String)>)
        ensures
            match r {
                Some(x) => rating_of(self.ratings, self.rating) == Some((x.0, x.1, x.2@)),
                None => rating_of(self.ratings, self.rating) is None,
            },
    {
        primary_rating(&self.ratings, self.rating)
    }
}

// ---- tidying up ----

/// A text that says something.
pub open spec fn said(s: Option<Seq<char>>) -> Option<Seq<char>> {
    match s {
        Some(t) => if text::is_blank(t) {
            None
        } else {
            Some(t)
        },
        None => None,
    }
}

/// The texts of a list that say something.
pub open spec fn all_said(v: Seq<Seq<char>>) -> Seq<Seq<char>>
    decreases v.len(),
{
    if v.len() == 0 {
        v
    } else if text::is_blank(v.last()) {
        all_said(v.drop_last())
    } else {
        all_said(v.drop_last()).push(v.last())
    }
}

/// Drops a text that is empty but for white space.
pub fn nilify(s: &mut Option<String>)
    ensures
        types::opt_text(*final(s)) == said(types::opt_text(*old(s))),
{
    let empty = match s.as_ref() {
        Some(t) => text::blank(t.as_str()),
        None => false,
    };
    if empty {
        *s = None;
    }
}

/// Drops the texts that are empty but for white space.
pub fn clean_strings(v: &mut Vec<String>)
    ensures
        types::texts(final(v)@) == all_said(types::texts(old(v)@)),
{
    let ghost all = types::texts(v@);
    let mut out: Vec<String> = Vec::new();
    let mut i: usize = 0;
    assert(all.take(0) =~= Seq::<Seq<char>>::empty());
    assert(types::texts(out@) =~= all_said(all.take(0)));
    while i < v.len()
        invariant
            i <= v@.len(),
            all == types::texts(v@),
            types::texts(out@) == all_said(all.take(i as int)),
            *v == *old(v),
        decreases v@.len() - i,
    {
        proof {
            assert(all.take(i + 1).drop_last() =~= all.take(i as int));
            assert(all.take(i + 1).last() == v@[i as int]@);
        }
        if !text::blank(v[i].as_str()) {
            types::push_text(&mut out, v[i].as_str());
        }
        i += 1;
    }
    assert(all.take(i as int) =~= all);
    *v = out;
}

impl MovieNfo {
    /// Drops what says nothing.
    pub fn tidy(&mut self)
        ensures
            types::opt_text(final(self).title) == said(types::opt_text(old(self).title)),
            types::opt_text(final(self).original_title) == said(
                types::opt_text(old(self).original_title),
            ),
            types::opt_text(final(self).plot) == said(types::opt_text(old(self).plot)),
            types::opt_text(final(self).mpaa) == said(types::opt_text(old(self).mpaa)),
            types::opt_text(final(self).tagline) == said(types::opt_text(old(self).tagline)),
            types::opt_text(final(self).premiered) == said(types::opt_text(old(self).premiered)),
            types::texts(final(self).genre@) == all_said(types::texts(old(self).genre@)),
            types::texts(final(self).studio@) == all_said(types::texts(old(self).studio@)),
            types::texts(final(self).director@) == all_said(types::texts(old(self).director@)),
            types::texts(final(self).credits@) == all_said(types::texts(old(self).credits@)),
            final(self).year == old(self).year,
            final(self).runtime == old(self).runtime,
            final(self).uniqueid == old(self).uniqueid,
            final(self).rating == old(self).rating,
            final(self).ratings == old(self).ratings,
    {
        nilify(&mut self.title);
        nilify(&mut self.original_title);
        nilify(&mut self.plot);
        nilify(&mut self.mpaa);
        nilify(&mut self.tagline);
        nilify(&mut self.premiered);
        clean_strings(&mut self.genre);
        clean_strings(&mut self.studio);
        clean_strings(&mut self.director);
        clean_strings(&mut self.credits);
    }
}

impl TvShowNfo {
    /// Drops what says nothing.
    pub fn tidy(&mut self)
        ensures
            types::opt_text(final(self).title) == said(types::opt_text(old(self).title)),
            types::opt_text(final(self).original_title) == said(
                types::opt_text(old(self).original_title),
            ),
            types::opt_text(final(self).plot) == said(types::opt_text(old(self).plot)),
            types::opt_text(final(self).premiered) == said(types::opt_text(old(self).premiered)),
            types::opt_text(final(self).mpaa) == said(types::opt_text(old(self).mpaa)),
            types::opt_text(final(self).status) == said(types::opt_text(old(self).status)),
            types::opt_text(final(self).enddate) == said(types::opt_text(old(self).enddate)),
            types::texts(final(self).genre@) == all_said(types::texts(old(self).genre@)),
            types::texts(final(self).studio@) == all_said(types::texts(old(self).studio@)),
            final(self).year == old(self).year,
            final(self).uniqueid == old(self).uniqueid,
            final(self).rating == old(self).rating,
            final(self).ratings == old(self).ratings,
    {
        nilify(&mut self.title);
        nilify(&mut self.original_title);
        nilify(&mut self.plot);
        nilify(&mut self.premiered);
        nilify(&mut self.mpaa);
        nilify(&mut self.status);
        nilify(&mut self.enddate);
        clean_strings(&mut self.genre);
        clean_strings(&mut self.studio);
    }
}

impl EpisodeNfo {
    /// Drops what says nothing.
    pub fn tidy(&mut self)
        ensures
            types::opt_text(final(self).title) == said(types::opt_text(old(self).title)),
            types::opt_text(final(self).plot) == said(types::opt_text(old(self).plot)),
            types::opt_text(final(self).aired) == said(types::opt_text(old(self).aired)),
            final(self).season == old(self).season,
            final(self).episode == old(self).episode,
            final(self).runtime == old(self).runtime,
    {
        nilify(&mut self.title);
        nilify(&mut self.plot);
        nilify(&mut self.aired);
    }
}

/// Tidying up twice is the same as tidying up once.
pub proof fn all_said_twice(v: Seq<Seq<char>>)
    ensures
        all_said(all_said(v)) == all_said(v),
    decreases v.len(),
{
    if v.len() > 0 {
        let rest = all_said(v.drop_last());
        all_said_twice(v.drop_last());
        if !text::is_blank(v.last()) {
            assert(rest.push(v.last()).drop_last() =~= rest);
        }
    }
}

// ---- what kind of file it is ----

#[derive(Debug, Copy, Clone, PartialEq, Eq, Structural)]
pub enum NfoKind {
    Movie,
    TvShow,
    Episode,
}

/// White space between the parts of a document.
pub open spec fn is_space(c: char) -> bool {
    c == ' ' || c == '\t' || c == '\n' || c == '\x0c' || c == '\r'
}

/// `s` from its first character on that is no white space.
pub open spec fn skip_space(s: Seq<char>) -> Seq<char>
    decreases s.len(),
{
    if s.len() > 0 && is_space(s[0]) {
        skip_space(s.skip(1))
    } else {
        s
    }
}

/// `s` behind its first `>`.
pub open spec fn behind_bracket(s: Seq<char>) -> Seq<char>
    decreases s.len(),
{
    if s.len() == 0 {
        s
    } else if s[0] == '>' {
        s.skip(1)
    } else {
        behind_bracket(s.skip(1))
    }
}

/// `-->` stands in `s` at `i`.
pub open spec fn ends_comment(s: Seq<char>, i: int) -> bool {
    0 <= i && i + 3 <= s.len() && s[i] == '-' && s[i + 1] == '-' && s[i + 2] == '>'
}

/// `s` behind its first `-->`.
pub open spec fn behind_comment(s: Seq<char>) -> Seq<char>
    decreases s.len(),
{
    if s.len() == 0 {
        s
    } else if ends_comment(s, 0) {
        s.skip(3)
    } else {
        behind_comment(s.skip(1))
    }
}

/// `s` starts with `<!--`.
pub open spec fn starts_comment(s: Seq<char>) -> bool {
    s.len() >= 4 && s[0] == '<' && s[1] == '!' && s[2] == '-' && s[3] == '-'
}

/// How many characters an element's name has that starts `s`.
pub open spec fn name_len(s: Seq<char>) -> nat
    decreases s.len(),
{
    if s.len() == 0 || is_space(s[0]) || s[0] == '>' || s[0] == '/' {
        0
    } else {
        1 + name_len(s.skip(1))
    }
}

/// Without the white space before it a text is not longer.
pub proof fn skip_space_len(s: Seq<char>)
    ensures
        skip_space(s).len() <= s.len(),
    decreases s.len(),
{
    if s.len() > 0 && is_space(s[0]) {
        skip_space_len(s.skip(1));
    }
}

/// What stands behind a bracket is shorter than the whole.
pub proof fn behind_bracket_len(s: Seq<char>)
    ensures
        behind_bracket(s).len() <= s.len(),
        s.len() > 0 ==> behind_bracket(s).len() < s.len(),
    decreases s.len(),
{
    if s.len() > 0 && s[0] != '>' {
        behind_bracket_len(s.skip(1));
    }
}

/// What stands behind a comment is not longer than the whole.
pub proof fn behind_comment_len(s: Seq<char>)
    ensures
        behind_comment(s).len() <= s.len(),
    decreases s.len(),
{
    if s.len() > 0 && !ends_comment(s, 0) {
        behind_comment_len(s.skip(1));
    }
}

/// The name of a document's first element: declarations and comments before it are
/// passed over. A comment goes as far as `-->`, whatever stands in it.
pub open spec fn root_name(s: Seq<char>) -> Option<Seq<char>>
    decreases s.len(),
{
    let t = skip_space(s);
    if t.len() == 0 || t[0] != '<' {
        None
    } else if starts_comment(t) {
        proof {
            skip_space_len(s);
            behind_comment_len(t.skip(4));
        }
        root_name(behind_comment(t.skip(4)))
    } else if t.len() > 1 && (t[1] == '?' || t[1] == '!') {
        proof {
            skip_space_len(s);
            behind_bracket_len(t);
        }
        root_name(behind_bracket(t))
    } else {
        Some(t.skip(1).take(name_len(t.skip(1)) as int))
    }
}

/// The kind of metadata whose document starts with the element `name`.
pub open spec fn kind_named(name: Seq<char>) -> Option<NfoKind> {
    let n = text::ascii_lower_text(name);
    if n == "movie"@ {
        Some(NfoKind::Movie)
    } else if n == "tvshow"@ {
        Some(NfoKind::TvShow)
    } else if n == "episodedetails"@ {
        Some(NfoKind::Episode)
    } else {
        None
    }
}

fn space(c: char) -> (r: bool)
    ensures
        r == is_space(c),
{
    c == ' ' || c == '\t' || c == '\n' || c == '\x0c' || c == '\r'
}

/// Where the text goes on behind the comment that `v[from]` stands in.
fn comment_end(v: &Vec<char>, from: usize) -> (r: usize)
    requires
        from <= v@.len(),
    ensures
        from <= r <= v@.len(),
        v@.skip(r as int) == behind_comment(v@.skip(from as int)),
{
    let total: usize = v.len();
    let mut i: usize = from;
    while i < total
        invariant
            from <= i <= total,
            total == v@.len(),
            behind_comment(v@.skip(from as int)) == behind_comment(v@.skip(i as int)),
        decreases total - i,
    {
        let ghost here = v@.skip(i as int);
        if total - i >= 3 && v[i] == '-' && v[i + 1] == '-' && v[i + 2] == '>' {
            assert(ends_comment(here, 0));
            assert(here.skip(3) =~= v@.skip(i + 3));
            return i + 3;
        }
        assert(!ends_comment(here, 0));
        assert(here.skip(1) =~= v@.skip(i + 1));
        i += 1;
    }
    i
}

/// A comment that stands before a document's first element, whatever it says but its own
/// end, does not change which one that is.
pub proof fn comment_is_skipped(comment: Seq<char>, rest: Seq<char>)
    requires
        forall|k: int| 0 <= k < comment.len() ==> !#[trigger] ends_comment(comment + "-->"@, k),
    ensures
        root_name("<!--"@ + comment + "-->"@ + rest) == root_name(rest),
{
    reveal_strlit("<!--");
    reveal_strlit("-->");
    let s = "<!--"@ + comment + "-->"@ + rest;
    assert(s[0] == '<' && s[1] == '!' && s[2] == '-' && s[3] == '-');
    assert(skip_space(s) == s);
    assert(s.skip(4) =~= comment + "-->"@ + rest);
    comment_ends(comment, rest, 0);
    assert((comment + "-->"@ + rest).skip(0) =~= comment + "-->"@ + rest);
}

proof fn comment_ends(comment: Seq<char>, rest: Seq<char>, i: int)
    requires
        0 <= i <= comment.len(),
        forall|k: int| 0 <= k < comment.len() ==> !#[trigger] ends_comment(comment + "-->"@, k),
    ensures
        behind_comment((comment + "-->"@ + rest).skip(i)) == rest,
    decreases comment.len() - i,
{
    reveal_strlit("-->");
    let all = comment + "-->"@ + rest;
    let here = all.skip(i);
    if i == comment.len() {
        assert(here[0] == '-' && here[1] == '-' && here[2] == '>');
        assert(here.skip(3) =~= rest);
    } else {
        assert(!ends_comment(comment + "-->"@, i));
        assert(here[0] == (comment + "-->"@)[i] && here[1] == (comment + "-->"@)[i + 1] && here[2]
            == (comment + "-->"@)[i + 2]);
        comment_ends(comment, rest, i + 1);
        assert(here.skip(1) =~= all.skip(i + 1));
    }
}

/// Decides by a document's first element what kind of metadata it holds.
pub fn detect_nfo_kind(document: &str) -> (r: Option<NfoKind>)
    ensures
        r == match root_name(document@) {
            Some(n) => kind_named(n),
            None => None,
        },
{
    let v = text::chars_of(document);
    let total: usize = v.len();
    let mut i: usize = 0;
    assert(v@.skip(0) =~= v@);
    loop
        invariant
            i <= total,
            total == v@.len(),
            v@ == document@,
            root_name(document@) == root_name(v@.skip(i as int)),
        decreases total - i,
    {
        let ghost start = v@.skip(i as int);
        while i < total && space(v[i])
            invariant
                i <= total,
                total == v@.len(),
                skip_space(start) == skip_space(v@.skip(i as int)),
                start.len() >= total - i,
            decreases total - i,
        {
            assert(v@.skip(i as int).skip(1) =~= v@.skip(i + 1));
            i += 1;
        }
        let ghost t = v@.skip(i as int);
        assert(skip_space(start) == t);
        if i >= total || v[i] != '<' {
            return None;
        }
        if total - i >= 4 && v[i + 1] == '!' && v[i + 2] == '-' && v[i + 3] == '-' {
            assert(t[1] == v@[i + 1] && t[2] == v@[i + 2] && t[3] == v@[i + 3]);
            assert(t.skip(4) =~= v@.skip(i + 4));
            i = comment_end(&v, i + 4);
            continue;
        }
        assert(!starts_comment(t)) by {
            if t.len() >= 4 {
                assert(t[1] == v@[i + 1] && t[2] == v@[i + 2] && t[3] == v@[i + 3]);
            }
        }
        if i + 1 < total && (v[i + 1] == '?' || v[i + 1] == '!') {
            assert(t[1] == v@[i + 1]);
            while i < total && v[i] != '>'
                invariant
                    i <= total,
                    total == v@.len(),
                    behind_bracket(t) == behind_bracket(v@.skip(i as int)),
                    t.len() >= total - i,
                decreases total - i,
            {
                assert(v@.skip(i as int).skip(1) =~= v@.skip(i + 1));
                i += 1;
            }
            proof {
                behind_bracket_len(t);
                if i == total {
                    assert(v@.skip(i as int) =~= Seq::empty());
                    assert(skip_space(v@.skip(i as int)).len() == 0);
                    assert(root_name(behind_bracket(t)) is None);
                } else {
                    assert(v@.skip(i as int).skip(1) =~= v@.skip(i + 1));
                }
            }
            if i >= total {
                return None;
            }
            i += 1;
            continue;
        }
        let from: usize = i + 1;
        let ghost rest = v@.skip(from as int);
        assert(t.skip(1) =~= rest);
        let mut end: usize = from;
        while end < total && !space(v[end]) && v[end] != '>' && v[end] != '/'
            invariant
                from <= end <= total,
                total == v@.len(),
                name_len(rest) == (end - from) + name_len(v@.skip(end as int)),
            decreases total - end,
        {
            assert(v@.skip(end as int).skip(1) =~= v@.skip(end + 1));
            end += 1;
        }
        let name = text::string_of(&v, from, end);
        assert(name@ =~= rest.take(name_len(rest) as int));
        let lower = text::to_ascii_lower(name.as_str());
        let n = lower.as_str();
        return if *n == *"movie" {
            Some(NfoKind::Movie)
        } else if *n == *"tvshow" {
            Some(NfoKind::TvShow)
        } else if *n == *"episodedetails" {
            Some(NfoKind::Episode)
        } else {
            None
        };
    }
}

// ---- further laws ----

/// The id that is taken is that of the first entry of its kind, letter case aside; none is
/// where no entry is of the kind.
pub proof fn first_id_of_its_kind(ids: Seq<UniqueId>, kind: Seq<char>)
    ensures
        match id_of(ids, kind) {
            Some(v) => exists|i: int|
                0 <= i < ids.len() && (#[trigger] ids[i]).value@ == v && text::ascii_lower_text(
                    ids[i].kind@,
                ) == text::ascii_lower_text(kind) && forall|j: int|
                    0 <= j < i ==> text::ascii_lower_text((#[trigger] ids[j]).kind@)
                        != text::ascii_lower_text(kind),
            None => forall|j: int|
                0 <= j < ids.len() ==> text::ascii_lower_text((#[trigger] ids[j]).kind@)
                    != text::ascii_lower_text(kind),
        },
    decreases ids.len(),
{
    if ids.len() > 0 && text::ascii_lower_text(ids[0].kind@) != text::ascii_lower_text(kind) {
        let rest = ids.skip(1);
        first_id_of_its_kind(rest, kind);
        match id_of(rest, kind) {
            Some(v) => {
                let i = choose|i: int|
                    0 <= i < rest.len() && (#[trigger] rest[i]).value@ == v
                        && text::ascii_lower_text(rest[i].kind@) == text::ascii_lower_text(kind)
                        && forall|j: int|
                        0 <= j < i ==> text::ascii_lower_text((#[trigger] rest[j]).kind@)
                            != text::ascii_lower_text(kind);
                assert(ids[i + 1] == rest[i]);
                assert forall|j: int| 0 <= j < i + 1 implies text::ascii_lower_text(
                    (#[trigger] ids[j]).kind@,
                ) != text::ascii_lower_text(kind) by {
                    if j > 0 {
                        assert(ids[j] == rest[j - 1]);
                    }
                }
            },
            None => {
                assert forall|j: int| 0 <= j < ids.len() implies text::ascii_lower_text(
                    (#[trigger] ids[j]).kind@,
                ) != text::ascii_lower_text(kind) by {
                    if j > 0 {
                        assert(ids[j] == rest[j - 1]);
                    }
                }
            },
        }
    }
}

proof fn first_default_is_first(v: Seq<RatingItem>, from: int)
    requires
        0 <= from <= v.len(),
    ensures
        from <= first_default(v, from) <= v.len(),
        first_default(v, from) < v.len() ==> is_default_rating(v[first_default(v, from)]),
        forall|j: int| from <= j < first_default(v, from) ==> !is_default_rating(#[trigger] v[j]),
    decreases v.len() - from,
{
    if from < v.len() && !is_default_rating(v[from]) {
        first_default_is_first(v, from + 1);
    }
}

proof fn first_real_is_first(v: Seq<RatingItem>, from: int)
    requires
        0 <= from <= v.len(),
    ensures
        from <= first_real(v, from) <= v.len(),
        first_real(v, from) < v.len() ==> is_real_rating(v[first_real(v, from)]),
        forall|j: int| from <= j < first_real(v, from) ==> !is_real_rating(#[trigger] v[j]),
    decreases v.len() - from,
{
    if from < v.len() && !is_real_rating(v[from]) {
        first_real_is_first(v, from + 1);
    }
}

/// The rating that is chosen: the first that is marked as the default and has a value; where
/// none is, the first whose value is not zero; none where there is none of these.
pub proof fn marked_rating_comes_first(v: Seq<RatingItem>, i: int)
    requires
        0 <= i < v.len(),
    ensures
        v[i].default == Some(true) && v[i].value is Some && (forall|j: int|
            0 <= j < i ==> (#[trigger] v[j]).default != Some(true) || v[j].value is None)
            ==> chosen_rating(v) == Some(v[i]),
        v[i].value is Some && v[i].value->0 != 0 && (forall|j: int|
            0 <= j < v.len() ==> (#[trigger] v[j]).default != Some(true) || v[j].value is None) && (
        forall|j: int|
            0 <= j < i ==> (#[trigger] v[j]).value is None || v[j].value == Some(0i64))
            ==> chosen_rating(v) == Some(v[i]),
        chosen_rating(v) matches Some(it) ==> it.value is Some,
        chosen_rating(v) is None ==> v[i].value is None || v[i].value == Some(0i64),
{
    first_default_is_first(v, 0);
    first_real_is_first(v, 0);
    let d = first_default(v, 0);
    let r = first_real(v, 0);
    if is_default_rating(v[i]) && d != i {
        if d > i {
            assert(!is_default_rating(v[i]));
        } else {
            assert(is_default_rating(v[d]));
        }
    }
    if is_real_rating(v[i]) && r > i {
        assert(!is_real_rating(v[i]));
    }
}

/// What stands for a title has the value, the votes and the name of the rating that is
/// chosen; without one, it is the plain rating, from the file itself.
pub proof fn rating_is_the_chosen_or_the_plain_one(ratings: Ratings, flat: Option<i64>)
    ensures
        chosen_rating(ratings.items@) matches Some(it) ==> {
            let r = rating_of(Some(ratings), flat);
            &&& r is Some
            &&& Some((r->0).0) == it.value || it.value is None
            &&& (r->0).1 == it.votes
            &&& it.name matches Some(n) ==> (r->0).2 == n@
            &&& it.name is None ==> (r->0).2 == "nfo"@
        },
        chosen_rating(ratings.items@) is None ==> rating_of(Some(ratings), flat) == rating_of(
            None,
            flat,
        ),
        flat matches Some(v) ==> rating_of(None, flat) == Some((v, None::<i64>, "nfo"@)),
        flat is None ==> rating_of(None, flat) is None,
{
}

/// The year at the start of a date is the one that its first four digits say.
pub proof fn date_starts_with_its_year(digits: Seq<char>, rest: Seq<char>, year: Option<i64>)
    requires
        digits.len() == 4,
        text::all_digits(digits),
    ensures
        year_at_start(digits + rest) == Some(text::digits_value(digits) as int),
        year matches Some(y) ==> show_year(year, Some(digits + rest)) == Some(y as int),
        show_year(None, Some(digits + rest)) == Some(text::digits_value(digits) as int),
        show_year(None, None) is None,
{
    assert((digits + rest).take(4) =~= digits);
    assert(text::is_digit(digits[0]));
    four_digits_are_small(digits);
}

proof fn four_digits_are_small(digits: Seq<char>)
    requires
        digits.len() == 4,
        text::all_digits(digits),
    ensures
        text::digits_value(digits) <= 9999,
{
    reveal_with_fuel(text::digits_value, 5);
    let a = digits.drop_last();
    let b = a.drop_last();
    let c = b.drop_last();
    assert(text::is_digit(digits[0]) && text::is_digit(digits[1]) && text::is_digit(digits[2])
        && text::is_digit(digits[3]));
    assert(c.drop_last().len() == 0);
}

/// Of a list, exactly the texts stay that say something, in their order.
pub proof fn blank_texts_are_dropped(v: Seq<Seq<char>>)
    ensures
        all_said(v) == v.filter(|s: Seq<char>| !text::is_blank(s)),
    decreases v.len(),
{
    reveal(Seq::filter);
    if v.len() > 0 {
        blank_texts_are_dropped(v.drop_last());
    } else {
        assert(v =~= Seq::empty());
    }
}

proof fn name_len_is(s: Seq<char>, k: nat)
    requires
        k < s.len(),
        forall|i: int|
            0 <= i < k ==> !is_space(#[trigger] s[i]) && s[i] != '>' && s[i] != '/',
        is_space(s[k as int]) || s[k as int] == '>' || s[k as int] == '/',
    ensures
        name_len(s) == k,
    decreases k,
{
    if k > 0 {
        assert(!is_space(s[0]));
        assert forall|i: int| 0 <= i < k - 1 implies !is_space(#[trigger] s.skip(1)[i]) && s.skip(
            1,
        )[i] != '>' && s.skip(1)[i] != '/' by {
            assert(s.skip(1)[i] == s[i + 1]);
        }
        name_len_is(s.skip(1), (k - 1) as nat);
    }
}

proof fn space_is_skipped(space: Seq<char>, rest: Seq<char>)
    requires
        forall|i: int| 0 <= i < space.len() ==> is_space(#[trigger] space[i]),
        rest.len() > 0,
        !is_space(rest[0]),
    ensures
        skip_space(space + rest) == rest,
    decreases space.len(),
{
    let s = space + rest;
    if space.len() > 0 {
        assert(s[0] == space[0]);
        assert(s.skip(1) =~= space.skip(1) + rest);
        space_is_skipped(space.skip(1), rest);
    } else {
        assert(s =~= rest);
    }
}

/// The first element's name is what stands between its bracket and the white space, the
/// slash or the bracket behind it.
pub proof fn element_name_is_read(space: Seq<char>, name: Seq<char>, end: char, rest: Seq<char>)
    requires
        forall|i: int| 0 <= i < space.len() ==> is_space(#[trigger] space[i]),
        name.len() > 0,
        name[0] != '!' && name[0] != '?',
        forall|i: int|
            0 <= i < name.len() ==> !is_space(#[trigger] name[i]) && name[i] != '>' && name[i] != '/',
        end == ' ' || end == '\t' || end == '\n' || end == '\r' || end == '>' || end == '/',
    ensures
        root_name(space + seq!['<'] + name + seq![end] + rest) == Some(name),
{
    let t = seq!['<'] + name + seq![end] + rest;
    let s = space + seq!['<'] + name + seq![end] + rest;
    assert(s =~= space + t);
    assert(t[0] == '<');
    space_is_skipped(space, t);
    assert(t[1] == name[0]);
    let u = t.skip(1);
    assert forall|i: int| 0 <= i < name.len() implies !is_space(#[trigger] u[i]) && u[i] != '>'
        && u[i] != '/' by {
        assert(u[i] == name[i]);
    }
    assert(u[name.len() as int] == end);
    name_len_is(u, name.len());
    assert(u.take(name.len() as int) =~= name);
}

proof fn bracket_ends(body: Seq<char>, rest: Seq<char>)
    requires
        !body.contains('>'),
    ensures
        behind_bracket(body + seq!['>'] + rest) == rest,
    decreases body.len(),
{
    let s = body + seq!['>'] + rest;
    if body.len() > 0 {
        assert(body.contains(body[0]));
        assert(s[0] == body[0]);
        let c = body.skip(1);
        assert(!c.contains('>')) by {
            if c.contains('>') {
                let i = choose|i: int| 0 <= i < c.len() && c[i] == '>';
                assert(body[i + 1] == '>');
            }
        }
        bracket_ends(c, rest);
        assert(s.skip(1) =~= c + seq!['>'] + rest);
    } else {
        assert(s[0] == '>');
        assert(s.skip(1) =~= rest);
    }
}

/// A declaration in front of a document does not change which its first element is.
pub proof fn declaration_is_skipped(body: Seq<char>, rest: Seq<char>)
    requires
        !body.contains('>'),
    ensures
        root_name(seq!['<', '?'] + body + seq!['>'] + rest) == root_name(rest),
{
    let s = seq!['<', '?'] + body + seq!['>'] + rest;
    let inner = seq!['<', '?'] + body;
    assert(!inner.contains('>')) by {
        if inner.contains('>') {
            let i = choose|i: int| 0 <= i < inner.len() && inner[i] == '>';
            if i >= 2 {
                assert(body[i - 2] == '>');
            }
        }
    }
    bracket_ends(inner, rest);
    assert(s =~= inner + seq!['>'] + rest);
    assert(s[0] == '<' && s[1] == '?');
    assert(skip_space(s) == s);
    behind_bracket_len(s);
}

/// Each kind has one name, in any letter case, and no other name stands for one.
pub proof fn kinds_go_by_their_names(name: Seq<char>)
    ensures
        kind_named(name) == Some(NfoKind::Movie) <==> text::ascii_lower_text(name) == "movie"@,
        kind_named(name) == Some(NfoKind::TvShow) <==> text::ascii_lower_text(name) == "tvshow"@,
        kind_named(name) == Some(NfoKind::Episode) <==> text::ascii_lower_text(name)
            == "episodedetails"@,
{
    reveal_strlit("movie");
    reveal_strlit("tvshow");
    reveal_strlit("episodedetails");
    assert("movie"@.len() == 5 && "tvshow"@.len() == 6 && "episodedetails"@.len() == 14);
}

/// What does not begin with an opening bracket, but for white space, names no kind.
pub proof fn only_tags_name_a_kind(s: Seq<char>)
    requires
        s.len() > 0,
        s[0] != '<',
        !is_space(s[0]),
    ensures
        root_name(s) is None,
        root_name(Seq::empty()) is None,
{
}

} // verus!
