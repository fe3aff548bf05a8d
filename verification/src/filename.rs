//! Heuristic reading of media file names, for files without metadata.
//!
//! The common shapes are covered: release dumps, tidy `Title (Year)` names,
//! `SxxEyy`, `1x02` and daily dates.
//!
//! A name is modelled by its characters. Every pattern looked for is ASCII, so
//! a span of characters and the span of bytes it occupies say the same thing;
//! [`find_episode_span`] reports bytes.

use crate::text;
use vstd::prelude::*;
use vstd::utf8::encode_utf8;

verus! {

pub const YEAR_MIN: i64 = 1900;

pub const YEAR_MAX: i64 = 2099;

/// Lower-case tokens that mark the boundary between the title and the release
/// metadata.
pub open spec fn junk_tokens() -> Seq<Seq<char>> {
    seq![
        "2160p"@, "1080p"@, "720p"@, "480p"@, "360p"@, "4k"@, "uhd"@,
        "bluray"@, "blu-ray"@, "bdrip"@, "brrip"@, "bdremux"@, "remux"@,
        "webrip"@, "web-dl"@, "webdl"@, "web"@, "hdtv"@, "pdtv"@, "dvdrip"@, "dvd"@,
        "hdrip"@, "hddvd"@, "vhsrip"@, "tvrip"@, "cam"@, "ts"@, "telesync"@,
        "x264"@, "x265"@, "h264"@, "h265"@, "h.264"@, "h.265"@, "hevc"@, "avc"@,
        "xvid"@, "divx"@, "vp9"@, "av1"@,
        "aac"@, "ac3"@, "eac3"@, "ddp"@, "dd5"@, "dd2"@, "dts"@, "dts-hd"@, "truehd"@,
        "atmos"@, "flac"@, "mp3"@, "opus"@,
        "10bit"@, "8bit"@, "hdr"@, "hdr10"@, "hdr10+"@, "dolby"@, "dovi"@, "dv"@,
        "proper"@, "repack"@, "extended"@, "unrated"@, "remastered"@, "imax"@,
        "internal"@, "limited"@, "directors"@, "director's"@, "uncut"@, "theatrical"@,
        "multi"@, "dual"@, "subbed"@, "dubbed"@,
    ]
}

fn junk_token_list() -> (r: Vec<&'static str>)
    ensures
        r@.len() == junk_tokens().len(),
        forall|k: int| 0 <= k < r@.len() ==> (#[trigger] r@[k])@ == junk_tokens()[k],
{
    vec![
        "2160p", "1080p", "720p", "480p", "360p", "4k", "uhd",
        "bluray", "blu-ray", "bdrip", "brrip", "bdremux", "remux",
        "webrip", "web-dl", "webdl", "web", "hdtv", "pdtv", "dvdrip", "dvd",
        "hdrip", "hddvd", "vhsrip", "tvrip", "cam", "ts", "telesync",
        "x264", "x265", "h264", "h265", "h.264", "h.265", "hevc", "avc",
        "xvid", "divx", "vp9", "av1",
        "aac", "ac3", "eac3", "ddp", "dd5", "dd2", "dts", "dts-hd", "truehd",
        "atmos", "flac", "mp3", "opus",
        "10bit", "8bit", "hdr", "hdr10", "hdr10+", "dolby", "dovi", "dv",
        "proper", "repack", "extended", "unrated", "remastered", "imax",
        "internal", "limited", "directors", "director's", "uncut", "theatrical",
        "multi", "dual", "subbed", "dubbed",
    ]
}

#[derive(Debug, PartialEq, Eq)]
pub struct ParsedMovie {
    pub title: String,
    pub year: Option<i64>,
}

impl Default for ParsedMovie {
    fn default() -> (r: Self)
        ensures
            r.title@ == Seq::<char>::empty(),
            r.year is None,
    {
        ParsedMovie { title: String::new(), year: None }
    }
}

/// A season and episode tag found in a name, with the characters it spans.
#[derive(Clone, Copy)]
pub struct Tag {
    pub season: i64,
    pub episode: i64,
    pub start: usize,
    pub end: usize,
}

/// The season, the episode and the end of a tag.
pub type TagModel = (int, int, int);

/// Where the run of digits that starts at `i` ends.
pub open spec fn digits_end(s: Seq<char>, i: int) -> int
    decreases s.len() - i,
{
    if 0 <= i < s.len() && text::is_digit(s[i]) {
        digits_end(s, i + 1)
    } else {
        i
    }
}

/// No letter or digit stands just before `i`.
pub open spec fn word_starts(s: Seq<char>, i: int) -> bool {
    i == 0 || !text::is_ascii_alnum(s[i - 1])
}

/// No letter or digit stands at `i`.
pub open spec fn word_ended(s: Seq<char>, i: int) -> bool {
    i == s.len() || !text::is_ascii_alnum(s[i])
}

/// The `i64` that the digits `s[a..b]` spell, if they fit.
pub open spec fn number_in(s: Seq<char>, a: int, b: int) -> Option<int> {
    text::digits_upto(s.subrange(a, b), i64::MAX as int)
}

proof fn digits_end_bounds(s: Seq<char>, i: int)
    requires
        0 <= i <= s.len(),
    ensures
        i <= digits_end(s, i) <= s.len(),
        i < s.len() && text::is_digit(s[i]) ==> i < digits_end(s, i),
        forall|j: int| i <= j < digits_end(s, i) ==> text::is_digit(#[trigger] s[j]),
        digits_end(s, i) < s.len() ==> !text::is_digit(s[digits_end(s, i)]),
    decreases s.len() - i,
{
    if i < s.len() && text::is_digit(s[i]) {
        digits_end_bounds(s, i + 1);
    }
}

fn skip_digits(v: &Vec<char>, from: usize) -> (r: usize)
    requires
        from <= v@.len(),
    ensures
        r == digits_end(v@, from as int),
        from <= r <= v@.len(),
        from < v@.len() && text::is_digit(v@[from as int]) ==> from < r,
{
    let mut i: usize = from;
    while i < v.len() && text::digit(v[i])
        invariant
            from <= i <= v@.len(),
            digits_end(v@, from as int) == digits_end(v@, i as int),
        decreases v@.len() - i,
    {
        i += 1;
    }
    proof {
        digits_end_bounds(v@, from as int);
    }
    i
}

fn number_at(v: &Vec<char>, a: usize, b: usize) -> (r: Option<i64>)
    requires
        a <= b <= v@.len(),
    ensures
        match r {
            Some(n) => number_in(v@, a as int, b as int) == Some(n as int),
            None => number_in(v@, a as int, b as int) is None,
        },
        r matches Some(n) ==> n >= 0,
{
    match text::parse_digits(v, a, b, i64::MAX as u64) {
        Some(n) => Some(n as i64),
        None => None,
    }
}

fn starts_word(v: &Vec<char>, i: usize) -> (r: bool)
    requires
        i <= v@.len(),
    ensures
        r == word_starts(v@, i as int),
{
    i == 0 || !text::ascii_alnum(v[i - 1])
}

fn ends_word(v: &Vec<char>, i: usize) -> (r: bool)
    requires
        i <= v@.len(),
    ensures
        r == word_ended(v@, i as int),
{
    i == v.len() || !text::ascii_alnum(v[i])
}

// ---- SxxEyy ----

pub open spec fn is_tag_separator(c: char) -> bool {
    c == '.' || c == '_' || c == ' ' || c == '-'
}

/// Where the episode letter of a tag stands whose season digits end at `k`:
/// one separator may come first.
pub open spec fn after_separator(s: Seq<char>, k: int) -> int {
    if k < s.len() && is_tag_separator(s[k]) {
        k + 1
    } else {
        k
    }
}

/// At `k` stands `c`, in either case, and a digit behind it.
pub open spec fn letter_then_digit(s: Seq<char>, k: int, c: char) -> bool {
    &&& 0 <= k
    &&& k + 1 < s.len()
    &&& text::ascii_lower(s[k]) == c
    &&& text::is_digit(s[k + 1])
}

/// The end of one further episode tag (`E02` or `-E02`) at `k`, if one stands there.
pub open spec fn extra_episode(s: Seq<char>, k: int) -> Option<int> {
    let e = if k < s.len() && s[k] == '-' {
        k + 1
    } else {
        k
    };
    if letter_then_digit(s, e, 'e') {
        Some(digits_end(s, e + 1))
    } else {
        None
    }
}

/// Where the further episode tags that follow `k` end.
pub open spec fn extra_episodes_end(s: Seq<char>, k: int) -> int
    decreases s.len() - k,
{
    match extra_episode(s, k) {
        Some(e) => if k < e <= s.len() {
            extra_episodes_end(s, e)
        } else {
            k
        },
        None => k,
    }
}

/// The tag `SxxEyy` that starts at `i`, if one does.
pub open spec fn sxxeyy_at(s: Seq<char>, i: int) -> Option<TagModel> {
    if word_starts(s, i) && letter_then_digit(s, i, 's') {
        let s_end = digits_end(s, i + 1);
        let e = after_separator(s, s_end);
        if letter_then_digit(s, e, 'e') {
            let e_end = digits_end(s, e + 1);
            match (number_in(s, i + 1, s_end), number_in(s, e + 1, e_end)) {
                (Some(season), Some(episode)) => Some(
                    (season, episode, extra_episodes_end(s, e_end)),
                ),
                _ => None,
            }
        } else {
            None
        }
    } else {
        None
    }
}

/// `tag` is what the pattern `at` finds first in `s`.
pub open spec fn is_first_tag(s: Seq<char>, at: spec_fn(int) -> Option<TagModel>, tag: Tag) -> bool {
    &&& tag.start < tag.end <= s.len()
    &&& at(tag.start as int) == Some((tag.season as int, tag.episode as int, tag.end as int))
    &&& forall|j: int| 0 <= j < tag.start ==> (#[trigger] at(j)) is None
}

/// The pattern `at` finds nothing in `s`.
pub open spec fn no_tag(s: Seq<char>, at: spec_fn(int) -> Option<TagModel>) -> bool {
    forall|j: int| 0 <= j < s.len() ==> (#[trigger] at(j)) is None
}

fn skip_extra_episodes(v: &Vec<char>, from: usize) -> (r: usize)
    requires
        from <= v@.len(),
    ensures
        r == extra_episodes_end(v@, from as int),
        from <= r <= v@.len(),
{
    let mut k: usize = from;
    loop
        invariant
            from <= k <= v@.len(),
            extra_episodes_end(v@, from as int) == extra_episodes_end(v@, k as int),
        decreases v@.len() - k,
    {
        let mut e: usize = k;
        if k < v.len() && v[k] == '-' {
            e = k + 1;
        }
        if e < v.len() && v.len() - e > 1 && text::lower_char(v[e]) == 'e' && text::digit(v[e + 1]) {
            let next: usize = skip_digits(v, e + 1);
            k = next;
        } else {
            return k;
        }
    }
}

/// Finds the first `SxxEyy` tag (also `S01.E02`, `S01 E02`, `S01-E02`, `S01_E02`),
/// with the further episodes of a multi-episode tag in its span.
pub fn find_sxxeyy(v: &Vec<char>) -> (r: Option<Tag>)
    ensures
        match r {
            Some(t) => is_first_tag(v@, |j: int| sxxeyy_at(v@, j), t),
            None => no_tag(v@, |j: int| sxxeyy_at(v@, j)),
        },
{
    let ghost at = |j: int| sxxeyy_at(v@, j);
    let mut i: usize = 0;
    while i < v.len()
        invariant
            i <= v@.len(),
            at == (|j: int| sxxeyy_at(v@, j)),
            forall|j: int| 0 <= j < i ==> (#[trigger] at(j)) is None,
        decreases v@.len() - i,
    {
        if text::lower_char(v[i]) == 's' && starts_word(v, i) && v.len() - i > 1 && text::digit(v[i + 1]) {
            let s_end: usize = skip_digits(v, i + 1);
            let mut e: usize = s_end;
            if e < v.len() {
                let c = v[e];
                if c == '.' || c == '_' || c == ' ' || c == '-' {
                    e += 1;
                }
            }
            if e < v.len() && text::lower_char(v[e]) == 'e' && v.len() - e > 1 && text::digit(v[e + 1]) {
                let e_end: usize = skip_digits(v, e + 1);
                match (number_at(v, i + 1, s_end), number_at(v, e + 1, e_end)) {
                    (Some(season), Some(episode)) => {
                        let end: usize = skip_extra_episodes(v, e_end);
                        let t = Tag { season, episode, start: i, end };
                        assert(at(i as int) == Some((season as int, episode as int, end as int)));
                        return Some(t);
                    },
                    _ => {},
                }
            }
        }
        assert(at(i as int) is None);
        i += 1;
    }
    None
}

// ---- 1x02 ----

/// Both numbers are too large for a season and an episode: `1920x1080`.
pub open spec fn looks_like_resolution(a: int, b: int) -> bool {
    (a >= 480 && b >= 240) || a > 100 || b >= 1000
}

/// The tag `1x02` that starts at `i`, if one does.
pub open spec fn nxmm_at(s: Seq<char>, i: int) -> Option<TagModel> {
    if 0 <= i < s.len() && text::is_digit(s[i]) && word_starts(s, i) {
        let x = digits_end(s, i);
        if letter_then_digit(s, x, 'x') {
            let end = digits_end(s, x + 1);
            match (number_in(s, i, x), number_in(s, x + 1, end)) {
                (Some(a), Some(b)) => if word_ended(s, end) && !looks_like_resolution(a, b) && a > 0
                    && b > 0 {
                    Some((a, b, end))
                } else {
                    None
                },
                _ => None,
            }
        } else {
            None
        }
    } else {
        None
    }
}

/// Finds the first `1x02` tag. Resolutions such as `1920x1080` do not count.
pub fn find_nxmm(v: &Vec<char>) -> (r: Option<Tag>)
    ensures
        match r {
            Some(t) => is_first_tag(v@, |j: int| nxmm_at(v@, j), t),
            None => no_tag(v@, |j: int| nxmm_at(v@, j)),
        },
{
    let ghost at = |j: int| nxmm_at(v@, j);
    let mut i: usize = 0;
    while i < v.len()
        invariant
            i <= v@.len(),
            at == (|j: int| nxmm_at(v@, j)),
            forall|j: int| 0 <= j < i ==> (#[trigger] at(j)) is None,
        decreases v@.len() - i,
    {
        if text::digit(v[i]) {
            let x: usize = skip_digits(v, i);
            proof {
                digits_end_bounds(v@, i as int);
            }
            if x < v.len() && text::lower_char(v[x]) == 'x' && v.len() - x > 1 && text::digit(v[x + 1]) {
                let end: usize = skip_digits(v, x + 1);
                if starts_word(v, i) && ends_word(v, end) {
                    match (number_at(v, i, x), number_at(v, x + 1, end)) {
                        (Some(a), Some(b)) => {
                            let resolution = (a >= 480 && b >= 240) || a > 100 || b >= 1000;
                            if !resolution && a > 0 && b > 0 {
                                let t = Tag { season: a, episode: b, start: i, end };
                                assert(at(i as int) == Some((a as int, b as int, end as int)));
                                return Some(t);
                            }
                        },
                        _ => {},
                    }
                }
            }
            assert(at(i as int) is None);
            assert forall|j: int| 0 <= j < x implies (#[trigger] at(j)) is None by {
                if i < j {
                    assert(text::is_digit(v@[j - 1]));
                }
            }
            i = x;
        } else {
            assert(at(i as int) is None);
            i += 1;
        }
    }
    None
}

// ---- dates ----

/// `s[a..b]` is all digits.
pub open spec fn digits_between(s: Seq<char>, a: int, b: int) -> bool {
    forall|k: int| a <= k < b ==> text::is_digit(#[trigger] s[k])
}

/// The date `YYYY-MM-DD` or `YYYY.MM.DD` that starts at `i`, if one does: the
/// year is the season, and month and day make the episode `MMDD`.
pub open spec fn date_at(s: Seq<char>, i: int) -> Option<TagModel> {
    if 0 <= i && i + 10 <= s.len() && word_starts(s, i) && word_ended(s, i + 10) && digits_between(
        s,
        i,
        i + 4,
    ) && (s[i + 4] == '-' || s[i + 4] == '.') && digits_between(s, i + 5, i + 7) && s[i + 7] == s[i
        + 4] && digits_between(s, i + 8, i + 10) {
        let y = text::digits_value(s.subrange(i, i + 4));
        let m = text::digits_value(s.subrange(i + 5, i + 7));
        let d = text::digits_value(s.subrange(i + 8, i + 10));
        if YEAR_MIN <= y <= YEAR_MAX && 1 <= m <= 12 && 1 <= d <= 31 {
            Some((y as int, (m * 100 + d) as int, i + 10))
        } else {
            None
        }
    } else {
        None
    }
}

fn all_digits_between(v: &Vec<char>, a: usize, b: usize) -> (r: bool)
    requires
        a <= b <= v@.len(),
    ensures
        r == digits_between(v@, a as int, b as int),
{
    let mut k: usize = a;
    while k < b
        invariant
            a <= k <= b <= v@.len(),
            forall|j: int| a <= j < k ==> text::is_digit(#[trigger] v@[j]),
        decreases b - k,
    {
        if !text::digit(v[k]) {
            assert(!text::is_digit(v@[k as int]));
            return false;
        }
        k += 1;
    }
    true
}

proof fn digits_value_bound(s: Seq<char>)
    requires
        text::all_digits(s),
        s.len() <= 4,
    ensures
        text::digits_value(s) <= 9999,
{
    reveal_with_fuel(text::digits_value, 6);
    if s.len() > 0 {
        assert(text::is_digit(s.last()));
        let t = s.drop_last();
        if t.len() > 0 {
            assert(text::is_digit(s[s.len() - 2]));
            let u = t.drop_last();
            if u.len() > 0 {
                assert(text::is_digit(s[s.len() - 3]));
                let w = u.drop_last();
                if w.len() > 0 {
                    assert(text::is_digit(s[s.len() - 4]));
                    assert(w.drop_last().len() == 0);
                }
            }
        }
    }
}

fn small_number(v: &Vec<char>, a: usize, b: usize) -> (r: i64)
    requires
        a < b <= v@.len(),
        b - a <= 4,
        digits_between(v@, a as int, b as int),
    ensures
        r == text::digits_value(v@.subrange(a as int, b as int)),
        0 <= r <= 9999,
{
    let ghost s = v@.subrange(a as int, b as int);
    proof {
        assert forall|i: int| 0 <= i < s.len() implies text::is_digit(#[trigger] s[i]) by {
            assert(text::is_digit(v@[a + i]));
        }
        digits_value_bound(s);
    }
    match text::parse_digits(v, a, b, 9999) {
        Some(n) => n as i64,
        None => 0,
    }
}

/// Finds the first date.
pub fn find_date(v: &Vec<char>) -> (r: Option<Tag>)
    ensures
        match r {
            Some(t) => is_first_tag(v@, |j: int| date_at(v@, j), t),
            None => no_tag(v@, |j: int| date_at(v@, j)),
        },
{
    let ghost at = |j: int| date_at(v@, j);
    if v.len() < 10 {
        assert(no_tag(v@, at));
        return None;
    }
    let total: usize = v.len();
    let mut i: usize = 0;
    while i <= total - 10
        invariant
            10 <= total == v@.len(),
            i <= total - 9,
            at == (|j: int| date_at(v@, j)),
            forall|j: int| 0 <= j < i ==> (#[trigger] at(j)) is None,
        decreases total - i,
    {
        if starts_word(v, i) && ends_word(v, i + 10) && all_digits_between(v, i, i + 4) && (v[i + 4]
            == '-' || v[i + 4] == '.') && all_digits_between(v, i + 5, i + 7) && v[i + 7] == v[i + 4]
            && all_digits_between(v, i + 8, i + 10) {
            let y: i64 = small_number(v, i, i + 4);
            let m: i64 = small_number(v, i + 5, i + 7);
            let d: i64 = small_number(v, i + 8, i + 10);
            if YEAR_MIN <= y && y <= YEAR_MAX && 1 <= m && m <= 12 && 1 <= d && d <= 31 {
                let t = Tag { season: y, episode: m * 100 + d, start: i, end: i + 10 };
                assert(at(i as int) == Some((y as int, m * 100 + d, i + 10)));
                return Some(t);
            }
        }
        assert(at(i as int) is None);
        i += 1;
    }
    None
}

// ---- any tag ----

/// The tag that a name carries: the first `SxxEyy`, else the first `1x02`, else
/// the first date.
pub open spec fn is_episode_tag(s: Seq<char>, t: Tag) -> bool {
    let se = |j: int| sxxeyy_at(s, j);
    let nm = |j: int| nxmm_at(s, j);
    let da = |j: int| date_at(s, j);
    ||| is_first_tag(s, se, t)
    ||| no_tag(s, se) && is_first_tag(s, nm, t)
    ||| no_tag(s, se) && no_tag(s, nm) && is_first_tag(s, da, t)
}

/// A name that carries no tag of any kind.
pub open spec fn has_no_episode_tag(s: Seq<char>) -> bool {
    &&& no_tag(s, |j: int| sxxeyy_at(s, j))
    &&& no_tag(s, |j: int| nxmm_at(s, j))
    &&& no_tag(s, |j: int| date_at(s, j))
}

/// A name carries at most one tag, and one that carries a tag is not untagged.
pub proof fn episode_tag_unique(s: Seq<char>, a: Tag, b: Tag)
    requires
        is_episode_tag(s, a),
        is_episode_tag(s, b),
    ensures
        a == b,
        !has_no_episode_tag(s),
{
    let se = |j: int| sxxeyy_at(s, j);
    let nm = |j: int| nxmm_at(s, j);
    let da = |j: int| date_at(s, j);
    first_tag_unique(s, se, a, b);
    first_tag_unique(s, nm, a, b);
    first_tag_unique(s, da, a, b);
}

proof fn first_tag_unique(s: Seq<char>, at: spec_fn(int) -> Option<TagModel>, a: Tag, b: Tag)
    ensures
        is_first_tag(s, at, a) && is_first_tag(s, at, b) ==> a == b,
        is_first_tag(s, at, a) ==> !no_tag(s, at),
        is_first_tag(s, at, b) ==> !no_tag(s, at),
{
    if is_first_tag(s, at, a) {
        assert(at(a.start as int) is Some);
    }
    if is_first_tag(s, at, b) {
        assert(at(b.start as int) is Some);
    }
}

/// Tries every supported episode pattern.
pub fn find_tag(v: &Vec<char>) -> (r: Option<Tag>)
    ensures
        match r {
            Some(t) => is_episode_tag(v@, t),
            None => has_no_episode_tag(v@),
        },
{
    match find_sxxeyy(v) {
        Some(t) => Some(t),
        None => match find_nxmm(v) {
            Some(t) => Some(t),
            None => find_date(v),
        },
    }
}

/// The tag that a name carries.
pub open spec fn tag_of(s: Seq<char>) -> Tag {
    choose|t: Tag| #[trigger] is_episode_tag(s, t)
}

/// The season and the episode that a name's tag says.
pub open spec fn tag_numbers(s: Seq<char>) -> Option<(i64, i64)> {
    if has_no_episode_tag(s) {
        None
    } else {
        Some((tag_of(s).season, tag_of(s).episode))
    }
}

proof fn tag_of_is(s: Seq<char>, t: Tag)
    requires
        is_episode_tag(s, t),
    ensures
        tag_of(s) == t,
        !has_no_episode_tag(s),
{
    episode_tag_unique(s, t, tag_of(s));
}

/// The season and episode that the name carries.
pub fn parse_episode(stem: &str) -> (r: Option<(i64, i64)>)
    ensures
        match r {
            Some(p) => exists|t: Tag|
                #[trigger] is_episode_tag(stem@, t) && p.0 == t.season && p.1 == t.episode,
            None => has_no_episode_tag(stem@),
        },
        r == tag_numbers(stem@),
{
    let v = text::chars_of(stem);
    match find_tag(&v) {
        Some(t) => {
            assert(is_episode_tag(stem@, t));
            proof {
                tag_of_is(stem@, t);
            }
            Some((t.season, t.episode))
        },
        None => None,
    }
}

// ---- laws of tags ----

proof fn digits_end_is(s: Seq<char>, i: int, e: int)
    requires
        0 <= i <= e <= s.len(),
        forall|j: int| i <= j < e ==> text::is_digit(#[trigger] s[j]),
        e == s.len() || !text::is_digit(s[e]),
    ensures
        digits_end(s, i) == e,
    decreases e - i,
{
    if i < e {
        assert(text::is_digit(s[i]));
        digits_end_is(s, i + 1, e);
    }
}

proof fn extra_end_bounds(s: Seq<char>, k: int)
    requires
        0 <= k <= s.len(),
    ensures
        k <= extra_episodes_end(s, k) <= s.len(),
        k == s.len() || (s[k] != 'e' && s[k] != 'E' && s[k] != '-') ==> extra_episodes_end(s, k) == k,
    decreases s.len() - k,
{
    match extra_episode(s, k) {
        Some(e) => if k < e <= s.len() {
            extra_end_bounds(s, e);
        },
        None => {},
    }
}

/// No `s` with a digit behind it.
pub open spec fn without_season_letter(s: Seq<char>) -> bool {
    forall|j: int|
        0 <= j < s.len() - 1 && ((#[trigger] s[j]) == 's' || s[j] == 'S') ==> !text::is_digit(
            s[j + 1],
        )
}

proof fn no_sxxeyy_in(s: Seq<char>)
    requires
        without_season_letter(s),
    ensures
        no_tag(s, |j: int| sxxeyy_at(s, j)),
{
    let at = |j: int| sxxeyy_at(s, j);
    assert forall|j: int| 0 <= j < s.len() implies (#[trigger] at(j)) is None by {
        if letter_then_digit(s, j, 's') {
            assert(s[j] == 's' || s[j] == 'S');
        }
    }
}

/// What a name has between its season letter and the end of its episode digits: the season
/// is what the digits behind the `S` say, the episode what those behind the `E` say. The tag
/// is a word of its own, in either case, with at most one separator within; in front of it no
/// `s` has a digit behind it.
pub proof fn tag_is_read(
    before: Seq<char>,
    s_letter: char,
    season: Seq<char>,
    separator: Seq<char>,
    e_letter: char,
    episode: Seq<char>,
    after: Seq<char>,
)
    requires
        s_letter == 'S' || s_letter == 's',
        e_letter == 'E' || e_letter == 'e',
        separator.len() <= 1,
        separator.len() == 1 ==> separator[0] == '.' || separator[0] == '_' || separator[0] == ' '
            || separator[0] == '-',
        season.len() > 0 && text::all_digits(season),
        episode.len() > 0 && text::all_digits(episode),
        text::digits_value(season) <= i64::MAX,
        text::digits_value(episode) <= i64::MAX,
        before.len() > 0 ==> !text::is_ascii_alnum(before.last()),
        without_season_letter(before),
        after.len() > 0 ==> !text::is_digit(after[0]),
        before.len() + season.len() + separator.len() + episode.len() + after.len() + 2
            <= usize::MAX,
    ensures
        ({
            let name = before + seq![s_letter] + season + separator + seq![e_letter] + episode
                + after;
            let end = before.len() + 2 + season.len() + separator.len() + episode.len();
            &&& tag_numbers(name) == Some(
                (text::digits_value(season) as i64, text::digits_value(episode) as i64),
            )
            &&& tag_of(name).start == before.len()
            &&& tag_of(name).end >= end
            &&& (after.len() == 0 || (after[0] != 'e' && after[0] != 'E' && after[0] != '-'))
                ==> tag_of(name).end == end
        }),
{
    let name = before + seq![s_letter] + season + separator + seq![e_letter] + episode + after;
    let i = before.len() as int;
    let s_end = i + 1 + season.len();
    let e = s_end + separator.len();
    let e_end = e + 1 + episode.len();
    assert(name.len() == e_end + after.len());
    assert(name[i] == s_letter);
    assert(name[e] == e_letter);
    assert(name.subrange(i + 1, s_end) =~= season);
    assert(name.subrange(e + 1, e_end) =~= episode);
    assert forall|j: int| i + 1 <= j < s_end implies text::is_digit(#[trigger] name[j]) by {
        assert(name[j] == season[j - i - 1]);
    }
    assert forall|j: int| e + 1 <= j < e_end implies text::is_digit(#[trigger] name[j]) by {
        assert(name[j] == episode[j - e - 1]);
    }
    assert(separator.len() == 1 ==> name[s_end] == separator[0]);
    if e_end < name.len() {
        assert(name[e_end] == after[0]);
    }
    if i > 0 {
        assert(name[i - 1] == before.last());
    }
    assert forall|j: int| 0 <= j < i && (#[trigger] name[j] == 's' || name[j] == 'S') implies !(
    text::is_digit(name[j + 1])) by {
        assert(name[j] == before[j]);
        if j + 1 < i {
            assert(name[j + 1] == before[j + 1]);
        }
    }
    tag_is_found(name, i, s_end, e, e_end);
}

proof fn tag_is_found(s: Seq<char>, i: int, s_end: int, e: int, e_end: int)
    requires
        0 <= i,
        i + 1 < s_end <= e <= s_end + 1,
        e + 1 < e_end <= s.len() <= usize::MAX,
        s[i] == 's' || s[i] == 'S',
        s[e] == 'e' || s[e] == 'E',
        e > s_end ==> s[s_end] == '.' || s[s_end] == '_' || s[s_end] == ' ' || s[s_end] == '-',
        forall|j: int| i + 1 <= j < s_end ==> text::is_digit(#[trigger] s[j]),
        forall|j: int| e + 1 <= j < e_end ==> text::is_digit(#[trigger] s[j]),
        e_end == s.len() || !text::is_digit(s[e_end]),
        i > 0 ==> !text::is_ascii_alnum(s[i - 1]),
        text::digits_value(s.subrange(i + 1, s_end)) <= i64::MAX,
        text::digits_value(s.subrange(e + 1, e_end)) <= i64::MAX,
        forall|j: int|
            0 <= j < i && (#[trigger] s[j] == 's' || s[j] == 'S') ==> !text::is_digit(s[j + 1]),
    ensures
        tag_numbers(s) == Some(
            (
                text::digits_value(s.subrange(i + 1, s_end)) as i64,
                text::digits_value(s.subrange(e + 1, e_end)) as i64,
            ),
        ),
        tag_of(s).start == i,
        tag_of(s).end >= e_end,
        e_end == s.len() || (s[e_end] != 'e' && s[e_end] != 'E' && s[e_end] != '-') ==> tag_of(
            s,
        ).end == e_end,
{
    tag_at(s, i, s_end, e, e_end);
    no_tag_in_front(s, i);
    extra_end_bounds(s, e_end);
    let at = |j: int| sxxeyy_at(s, j);
    let t = Tag {
        season: text::digits_value(s.subrange(i + 1, s_end)) as i64,
        episode: text::digits_value(s.subrange(e + 1, e_end)) as i64,
        start: i as usize,
        end: extra_episodes_end(s, e_end) as usize,
    };
    assert(at(i) == Some((t.season as int, t.episode as int, t.end as int)));
    assert forall|j: int| 0 <= j < i implies (#[trigger] at(j)) is None by {
        assert(sxxeyy_at(s, j) is None);
    }
    assert(is_first_tag(s, at, t));
    tag_of_is(s, t);
}

proof fn tag_at(s: Seq<char>, i: int, s_end: int, e: int, e_end: int)
    requires
        0 <= i,
        i + 1 < s_end <= e <= s_end + 1,
        e + 1 < e_end <= s.len(),
        s[i] == 's' || s[i] == 'S',
        s[e] == 'e' || s[e] == 'E',
        e > s_end ==> s[s_end] == '.' || s[s_end] == '_' || s[s_end] == ' ' || s[s_end] == '-',
        forall|j: int| i + 1 <= j < s_end ==> text::is_digit(#[trigger] s[j]),
        forall|j: int| e + 1 <= j < e_end ==> text::is_digit(#[trigger] s[j]),
        e_end == s.len() || !text::is_digit(s[e_end]),
        i > 0 ==> !text::is_ascii_alnum(s[i - 1]),
        text::digits_value(s.subrange(i + 1, s_end)) <= i64::MAX,
        text::digits_value(s.subrange(e + 1, e_end)) <= i64::MAX,
    ensures
        sxxeyy_at(s, i) == Some(
            (
                text::digits_value(s.subrange(i + 1, s_end)) as int,
                text::digits_value(s.subrange(e + 1, e_end)) as int,
                extra_episodes_end(s, e_end),
            ),
        ),
{
    digits_end_is(s, i + 1, s_end);
    digits_end_is(s, e + 1, e_end);
    assert(text::is_digit(s[i + 1]) && text::is_digit(s[e + 1]));
    assert(text::ascii_lower('S') == 's' && text::ascii_lower('E') == 'e');
    assert(letter_then_digit(s, i, 's'));
    assert(after_separator(s, s_end) == e);
    assert(letter_then_digit(s, e, 'e'));
    assert(text::all_digits(s.subrange(i + 1, s_end)));
    assert(text::all_digits(s.subrange(e + 1, e_end)));
}

proof fn no_tag_in_front(s: Seq<char>, i: int)
    requires
        0 <= i < s.len(),
        forall|j: int|
            0 <= j < i && (#[trigger] s[j] == 's' || s[j] == 'S') ==> !text::is_digit(s[j + 1]),
    ensures
        forall|j: int| 0 <= j < i ==> (#[trigger] sxxeyy_at(s, j)) is None,
{
    assert forall|j: int| 0 <= j < i implies (#[trigger] sxxeyy_at(s, j)) is None by {
        if letter_then_digit(s, j, 's') {
            assert(s[j] == 's' || s[j] == 'S');
        }
    }
}

proof fn padded_digits(n: nat, w: nat)
    ensures
        text::all_digits(text::zero_padded(text::decimal(n), w)),
        text::zero_padded(text::decimal(n), w).len() > 0,
        text::digits_value(text::zero_padded(text::decimal(n), w)) == n,
{
    text::decimal_roundtrip(n);
    let s = text::decimal(n);
    if s.len() < w {
        text::zeros_keep_value((w - s.len()) as nat, s);
    }
}

/// A printed tag is read back: `S`, the season, `E` and the episode, each with leading zeros
/// up to any width, are read as that season and that episode.
pub proof fn printed_tag_is_read(
    before: Seq<char>,
    season: nat,
    episode: nat,
    width: nat,
    after: Seq<char>,
)
    requires
        season <= i64::MAX,
        episode <= i64::MAX,
        before.len() > 0 ==> !text::is_ascii_alnum(before.last()),
        without_season_letter(before),
        after.len() > 0 ==> !text::is_digit(after[0]),
        before.len() + after.len() + 2 + text::zero_padded(text::decimal(season), width).len()
            + text::zero_padded(text::decimal(episode), width).len() <= usize::MAX,
    ensures
        tag_numbers(
            before + seq!['S'] + text::zero_padded(text::decimal(season), width) + seq!['E']
                + text::zero_padded(text::decimal(episode), width) + after,
        ) == Some((season as i64, episode as i64)),
{
    let a = text::zero_padded(text::decimal(season), width);
    let b = text::zero_padded(text::decimal(episode), width);
    padded_digits(season, width);
    padded_digits(episode, width);
    tag_is_read(before, 'S', a, Seq::empty(), 'E', b, after);
    assert(before + seq!['S'] + a + Seq::<char>::empty() + seq!['E'] + b + after =~= before
        + seq!['S'] + a + seq!['E'] + b + after);
}

/// No digit with an `x` behind it.
pub open spec fn without_cross(s: Seq<char>) -> bool {
    forall|j: int|
        0 <= j < s.len() - 1 && text::is_digit(#[trigger] s[j]) ==> s[j + 1] != 'x' && s[j + 1]
            != 'X'
}

proof fn no_nxmm_before(s: Seq<char>, i: int)
    requires
        0 <= i <= s.len(),
        without_cross(s.take(i)),
        i == 0 || !text::is_digit(s[i - 1]),
    ensures
        forall|j: int| 0 <= j < i ==> (#[trigger] nxmm_at(s, j)) is None,
{
    assert forall|j: int| 0 <= j < i implies (#[trigger] nxmm_at(s, j)) is None by {
        if text::is_digit(s[j]) {
            digits_end_bounds(s, j);
            let x = digits_end(s, j);
            if x >= i {
                assert(text::is_digit(s[i - 1]));
            }
            if letter_then_digit(s, x, 'x') {
                assert(s[x] == 'x' || s[x] == 'X');
                assert(s.take(i)[x - 1] == s[x - 1]);
                assert(s.take(i)[x] == s[x]);
            }
        }
    }
}

/// `1x02` says a season and an episode in that order. The tag is a word of its own, and in
/// front of it no digit has an `x` behind it; the name has no `SxxEyy` tag. A pair of numbers
/// in the size of a resolution is none.
pub proof fn crossed_numbers_are_read(
    before: Seq<char>,
    season: Seq<char>,
    x: char,
    episode: Seq<char>,
    after: Seq<char>,
)
    requires
        x == 'x' || x == 'X',
        season.len() > 0 && text::all_digits(season),
        episode.len() > 0 && text::all_digits(episode),
        1 <= text::digits_value(season) <= 100,
        1 <= text::digits_value(episode) < 1000,
        before.len() > 0 ==> !text::is_ascii_alnum(before.last()),
        after.len() > 0 ==> !text::is_ascii_alnum(after[0]),
        without_cross(before),
        without_season_letter(before + season + seq![x] + episode + after),
        before.len() + season.len() + episode.len() + after.len() + 1 <= usize::MAX,
    ensures
        ({
            let name = before + season + seq![x] + episode + after;
            &&& tag_numbers(name) == Some(
                (text::digits_value(season) as i64, text::digits_value(episode) as i64),
            )
            &&& tag_of(name).start == before.len()
            &&& tag_of(name).end == before.len() + season.len() + 1 + episode.len()
        }),
{
    let name = before + season + seq![x] + episode + after;
    let i = before.len() as int;
    let m = i + season.len();
    let end = m + 1 + episode.len();
    let at = |j: int| nxmm_at(name, j);
    no_sxxeyy_in(name);
    assert(name.take(i) =~= before);
    if i > 0 {
        assert(name[i - 1] == before.last());
    }
    no_nxmm_before(name, i);
    assert(name[m] == x);
    assert(name.subrange(i, m) =~= season);
    assert(name.subrange(m + 1, end) =~= episode);
    assert forall|j: int| i <= j < m implies text::is_digit(#[trigger] name[j]) by {
        assert(name[j] == season[j - i]);
    }
    assert forall|j: int| m + 1 <= j < end implies text::is_digit(#[trigger] name[j]) by {
        assert(name[j] == episode[j - m - 1]);
    }
    digits_end_is(name, i, m);
    if end < name.len() {
        assert(name[end] == after[0]);
    }
    digits_end_is(name, m + 1, end);
    assert(text::is_digit(name[i]) && text::is_digit(name[m + 1]));
    assert(text::ascii_lower('X') == 'x');
    assert(letter_then_digit(name, m, 'x'));
    let t = Tag {
        season: text::digits_value(season) as i64,
        episode: text::digits_value(episode) as i64,
        start: i as usize,
        end: end as usize,
    };
    assert(at(i) == Some((t.season as int, t.episode as int, t.end as int)));
    assert forall|j: int| 0 <= j < i implies (#[trigger] at(j)) is None by {
        assert(nxmm_at(name, j) is None);
    }
    assert(is_first_tag(name, at, t));
    assert(is_episode_tag(name, t));
    tag_of_is(name, t);
}

/// Whatever `1x02` tag is found has a season from 1 to 100 and an episode from 1 to 999, so a
/// resolution never is one.
pub proof fn resolutions_are_no_tags(s: Seq<char>, i: int)
    requires
        nxmm_at(s, i) is Some,
    ensures
        1 <= (nxmm_at(s, i)->0).0 <= 100,
        1 <= (nxmm_at(s, i)->0).1 <= 999,
{
}

/// A date says the year as the season, and month and day as the episode. The date is a word
/// of its own, no digit stands in front of it, and the name has neither an `SxxEyy` nor a
/// `1x02` tag.
pub proof fn date_is_read(
    before: Seq<char>,
    year: Seq<char>,
    month: Seq<char>,
    day: Seq<char>,
    separator: char,
    after: Seq<char>,
)
    requires
        separator == '-' || separator == '.',
        year.len() == 4 && text::all_digits(year),
        month.len() == 2 && text::all_digits(month),
        day.len() == 2 && text::all_digits(day),
        1900 <= text::digits_value(year) <= 2099,
        1 <= text::digits_value(month) <= 12,
        1 <= text::digits_value(day) <= 31,
        before.len() > 0 ==> !text::is_ascii_alnum(before.last()),
        after.len() > 0 ==> !text::is_ascii_alnum(after[0]),
        forall|j: int| 0 <= j < before.len() ==> !text::is_digit(#[trigger] before[j]),
        without_season_letter(
            before + year + seq![separator] + month + seq![separator] + day + after,
        ),
        without_cross(before + year + seq![separator] + month + seq![separator] + day + after),
        before.len() + after.len() + 10 <= usize::MAX,
    ensures
        ({
            let name = before + year + seq![separator] + month + seq![separator] + day + after;
            &&& tag_numbers(name) == Some(
                (
                    text::digits_value(year) as i64,
                    (text::digits_value(month) * 100 + text::digits_value(day)) as i64,
                ),
            )
            &&& tag_of(name).start == before.len()
            &&& tag_of(name).end == before.len() + 10
        }),
{
    let name = before + year + seq![separator] + month + seq![separator] + day + after;
    let i = before.len() as int;
    let at = |j: int| date_at(name, j);
    no_sxxeyy_in(name);
    assert(no_tag(name, |j: int| nxmm_at(name, j))) by {
        let nm = |j: int| nxmm_at(name, j);
        assert forall|j: int| 0 <= j < name.len() implies (#[trigger] nm(j)) is None by {
            if text::is_digit(name[j]) {
                digits_end_bounds(name, j);
                let x = digits_end(name, j);
                if letter_then_digit(name, x, 'x') {
                    assert(name[x] == 'x' || name[x] == 'X');
                    assert(text::is_digit(name[x - 1]));
                }
            }
        }
    }
    assert(name.subrange(i, i + 4) =~= year);
    assert(name.subrange(i + 5, i + 7) =~= month);
    assert(name.subrange(i + 8, i + 10) =~= day);
    assert(name[i + 4] == separator && name[i + 7] == separator);
    assert(digits_between(name, i, i + 4)) by {
        assert forall|k: int| i <= k < i + 4 implies text::is_digit(#[trigger] name[k]) by {
            assert(name[k] == year[k - i]);
        }
    }
    assert(digits_between(name, i + 5, i + 7)) by {
        assert forall|k: int| i + 5 <= k < i + 7 implies text::is_digit(#[trigger] name[k]) by {
            assert(name[k] == month[k - i - 5]);
        }
    }
    assert(digits_between(name, i + 8, i + 10)) by {
        assert forall|k: int| i + 8 <= k < i + 10 implies text::is_digit(#[trigger] name[k]) by {
            assert(name[k] == day[k - i - 8]);
        }
    }
    if i > 0 {
        assert(name[i - 1] == before.last());
    }
    if i + 10 < name.len() {
        assert(name[i + 10] == after[0]);
    }
    let t = Tag {
        season: text::digits_value(year) as i64,
        episode: (text::digits_value(month) * 100 + text::digits_value(day)) as i64,
        start: i as usize,
        end: (i + 10) as usize,
    };
    assert(at(i) == Some((t.season as int, t.episode as int, t.end as int)));
    assert forall|j: int| 0 <= j < i implies (#[trigger] at(j)) is None by {
        assert(name[j] == before[j]);
        if digits_between(name, j, j + 4) {
            assert(text::is_digit(name[j]));
        }
    }
    assert(is_first_tag(name, at, t));
    assert(is_episode_tag(name, t));
    tag_of_is(name, t);
}

/// A name without digits carries no tag.
pub proof fn no_digits_no_tag(s: Seq<char>)
    requires
        forall|j: int| 0 <= j < s.len() ==> !text::is_digit(#[trigger] s[j]),
    ensures
        has_no_episode_tag(s),
        tag_numbers(s) is None,
{
    assert forall|j: int| 0 <= j < s.len() implies sxxeyy_at(s, j) is None && nxmm_at(s, j) is None
        && date_at(s, j) is None by {
        if letter_then_digit(s, j, 's') {
            assert(text::is_digit(s[j + 1]));
        }
        if digits_between(s, j, j + 4) {
            assert(text::is_digit(s[j]));
        }
    }
    assert(no_tag(s, |j: int| sxxeyy_at(s, j)));
    assert(no_tag(s, |j: int| nxmm_at(s, j)));
    assert(no_tag(s, |j: int| date_at(s, j)));
}

/// How many bytes the characters before index `k` take.
pub open spec fn byte_offset(s: Seq<char>, k: int) -> nat {
    encode_utf8(s.take(k)).len()
}

fn byte_offset_of(v: &Vec<char>, k: usize) -> (r: usize)
    requires
        k <= v@.len(),
    ensures
        r == byte_offset(v@, k as int),
{
    let head = text::string_of(v, 0, k);
    assert(v@.subrange(0, k as int) =~= v@.take(k as int));
    let bytes = head.as_str().as_bytes();
    bytes.len()
}

/// As [`parse_episode`], with the span of bytes in `stem` that the tag takes.
pub fn find_episode_span(stem: &str) -> (r: Option<(i64, i64, usize, usize)>)
    ensures
        match r {
            Some(p) => exists|t: Tag|
                #[trigger] is_episode_tag(stem@, t) && p.0 == t.season && p.1 == t.episode && p.2
                    == byte_offset(stem@, t.start as int) && p.3 == byte_offset(
                    stem@,
                    t.end as int,
                ),
            None => has_no_episode_tag(stem@),
        },
{
    let v = text::chars_of(stem);
    match find_tag(&v) {
        Some(t) => {
            assert(is_episode_tag(stem@, t));
            let from: usize = byte_offset_of(&v, t.start);
            let to: usize = byte_offset_of(&v, t.end);
            Some((t.season, t.episode, from, to))
        },
        None => None,
    }
}

// ---- titles ----

/// How often `c` stands in `s`.
pub open spec fn count_of(s: Seq<char>, c: char) -> nat
    decreases s.len(),
{
    if s.len() == 0 {
        0
    } else {
        count_of(s.drop_last(), c) + if s.last() == c {
            1nat
        } else {
            0
        }
    }
}

fn count_char(v: &Vec<char>, c: char) -> (r: usize)
    ensures
        r == count_of(v@, c),
        r <= v@.len(),
{
    let mut n: usize = 0;
    let mut i: usize = 0;
    while i < v.len()
        invariant
            i <= v@.len(),
            n <= i,
            n == count_of(v@.take(i as int), c),
        decreases v@.len() - i,
    {
        assert(v@.take(i + 1).drop_last() =~= v@.take(i as int));
        assert(v@.take(i + 1).last() == v@[i as int]);
        if v[i] == c {
            n += 1;
        }
        i += 1;
    }
    assert(v@.take(i as int) =~= v@);
    n
}

/// The name is in release style: dots and underscores outnumber blanks.
pub open spec fn is_release_style(s: Seq<char>) -> bool {
    count_of(s, '.') + count_of(s, '_') > count_of(s, ' ')
}

/// Underscores, and in a release-style name dots too, become blanks.
pub open spec fn normalized(s: Seq<char>) -> Seq<char> {
    if is_release_style(s) {
        text::replaced(text::replaced(s, '.', ' '), '_', ' ')
    } else {
        text::replaced(s, '_', ' ')
    }
}

/// Replaces dots and underscores with blanks, dots only in a release-style name.
pub fn normalize_separators(s: &str) -> (r: String)
    ensures
        r@ == normalized(s@),
{
    let v = text::chars_of(s);
    let dots: usize = count_char(&v, '.');
    let unders: usize = count_char(&v, '_');
    let spaces: usize = count_char(&v, ' ');
    let release = if dots > spaces {
        true
    } else {
        unders > spaces - dots
    };
    if release {
        let t = text::replace_char(s, '.', ' ');
        text::replace_char(t.as_str(), '_', ' ')
    } else {
        text::replace_char(s, '_', ' ')
    }
}

/// The token `t` stands at `i`, as a word of its own, in any case.
pub open spec fn token_at(s: Seq<char>, t: Seq<char>, i: int) -> bool {
    &&& word_starts(s, i)
    &&& text::occurs_at(text::ascii_lower_text(s), t, i)
    &&& word_ended(s, i + t.len())
}

/// Some junk token stands at `i`.
pub open spec fn junk_at(s: Seq<char>, i: int) -> bool {
    exists|k: int| 0 <= k < junk_tokens().len() && token_at(s, #[trigger] junk_tokens()[k], i)
}

/// The first index from `i` on where a junk token stands; the length of `s` if none does.
pub open spec fn junk_from(s: Seq<char>, i: int) -> int
    decreases s.len() - i,
{
    if i >= s.len() {
        s.len() as int
    } else if junk_at(s, i) {
        i
    } else {
        junk_from(s, i + 1)
    }
}

/// Where the release metadata of a name starts.
pub open spec fn junk_start(s: Seq<char>) -> int {
    junk_from(s, 0)
}

/// The index of the first junk token; the length if there is none.
pub fn first_junk_index(v: &Vec<char>) -> (r: usize)
    ensures
        r == junk_start(v@),
        r <= v@.len(),
{
    let whole = text::string_of_all(v);
    let lower = text::to_ascii_lower(whole.as_str());
    let low = text::chars_of(lower.as_str());
    let tokens = junk_token_list();
    let total: usize = low.len();
    let mut i: usize = 0;
    while i < v.len()
        invariant
            i <= v@.len(),
            total == low@.len(),
            low@ == text::ascii_lower_text(v@),
            tokens@.len() == junk_tokens().len(),
            forall|k: int| 0 <= k < tokens@.len() ==> (#[trigger] tokens@[k])@ == junk_tokens()[k],
            junk_start(v@) == junk_from(v@, i as int),
        decreases v@.len() - i,
    {
        if starts_word(v, i) {
            let mut k: usize = 0;
            while k < tokens.len()
                invariant
                    i < v@.len(),
                    total == low@.len(),
                    k <= tokens@.len(),
                    word_starts(v@, i as int),
                    low@ == text::ascii_lower_text(v@),
                    tokens@.len() == junk_tokens().len(),
                    forall|j: int|
                        0 <= j < tokens@.len() ==> (#[trigger] tokens@[j])@ == junk_tokens()[j],
                    forall|j: int|
                        0 <= j < k ==> !token_at(v@, #[trigger] junk_tokens()[j], i as int),
                    junk_start(v@) == junk_from(v@, i as int),
                decreases tokens@.len() - k,
            {
                let token = text::chars_of(tokens[k]);
                assert(token@ == junk_tokens()[k as int]);
                if text::matches_at(&low, &token, i) && ends_word(v, i + token.len()) {
                    assert(token_at(v@, junk_tokens()[k as int], i as int));
                    assert(junk_at(v@, i as int));
                    return i;
                }
                k += 1;
            }
            assert(!junk_at(v@, i as int));
        }
        i += 1;
    }
    i
}

/// A year may follow this character.
pub open spec fn opens_year(c: char) -> bool {
    c == '(' || c == '[' || c == '{' || c == ' ' || c == '.' || c == '-' || c == '_'
}

/// A year may be followed by this character.
pub open spec fn closes_year(c: char) -> bool {
    c == ')' || c == ']' || c == '}' || c == ' ' || c == '.' || c == '-' || c == '_'
}

/// The year of four digits that starts at `i`, between separators or brackets,
/// if one does.
pub open spec fn year_at(s: Seq<char>, i: int) -> Option<int> {
    if 0 <= i && i + 4 <= s.len() && digits_between(s, i, i + 4) && (i == 0 || opens_year(s[i - 1]))
        && (i + 4 == s.len() || closes_year(s[i + 4])) {
        let y = text::digits_value(s.subrange(i, i + 4)) as int;
        if YEAR_MIN <= y <= YEAR_MAX {
            Some(y)
        } else {
            None
        }
    } else {
        None
    }
}

/// The last year that starts at or before `i`, with its start.
pub open spec fn last_year_upto(s: Seq<char>, i: int) -> Option<(int, int)>
    decreases i + 1,
{
    if i < 0 {
        None
    } else {
        match year_at(s, i) {
            Some(y) => Some((y, i)),
            None => last_year_upto(s, i - 1),
        }
    }
}

/// The last year of a name that ends before its release metadata.
pub open spec fn title_year(s: Seq<char>) -> Option<(int, int)> {
    last_year_upto(s, junk_start(s) - 4)
}

fn year_opener(c: char) -> (r: bool)
    ensures
        r == opens_year(c),
{
    c == '(' || c == '[' || c == '{' || c == ' ' || c == '.' || c == '-' || c == '_'
}

fn year_closer(c: char) -> (r: bool)
    ensures
        r == closes_year(c),
{
    c == ')' || c == ']' || c == '}' || c == ' ' || c == '.' || c == '-' || c == '_'
}

/// The last year before the release metadata, with the index where it starts.
pub fn find_year(v: &Vec<char>) -> (r: Option<(i64, usize)>)
    ensures
        match r {
            Some(p) => title_year(v@) == Some((p.0 as int, p.1 as int)) && p.1 <= v@.len(),
            None => title_year(v@) is None,
        },
{
    let cutoff: usize = first_junk_index(v);
    if cutoff < 4 {
        return None;
    }
    let mut i: usize = cutoff - 4;
    loop
        invariant
            i + 4 <= cutoff <= v@.len(),
            title_year(v@) == last_year_upto(v@, i as int),
        decreases i,
    {
        if (i == 0 || year_opener(v[i - 1])) && (v.len() - i == 4 || year_closer(v[i + 4]))
            && all_digits_between(v, i, i + 4) {
            let y: i64 = small_number(v, i, i + 4);
            if YEAR_MIN <= y && y <= YEAR_MAX {
                assert(year_at(v@, i as int) == Some(y as int));
                return Some((y, i));
            }
        }
        assert(year_at(v@, i as int) is None);
        if i == 0 {
            assert(last_year_upto(v@, -1) is None);
            return None;
        }
        i -= 1;
    }
}

pub open spec fn is_open_bracket(c: char) -> bool {
    c == '[' || c == '(' || c == '{'
}

pub open spec fn is_close_bracket(c: char) -> bool {
    c == ']' || c == ')' || c == '}'
}

/// What stands in `s` outside all brackets, when `depth` brackets are open before it.
pub open spec fn outside_brackets(s: Seq<char>, depth: nat) -> Seq<char>
    decreases s.len(),
{
    if s.len() == 0 {
        s
    } else if is_open_bracket(s[0]) {
        outside_brackets(s.skip(1), depth + 1)
    } else if is_close_bracket(s[0]) {
        outside_brackets(
            s.skip(1),
            if depth > 0 {
                (depth - 1) as nat
            } else {
                0
            },
        )
    } else if depth == 0 {
        seq![s[0]] + outside_brackets(s.skip(1), depth)
    } else {
        outside_brackets(s.skip(1), depth)
    }
}

/// Drops the bracketed runs `[...]`, `(...)`, `{...}`, and the brackets.
pub fn strip_brackets(s: &str) -> (r: String)
    ensures
        r@ == outside_brackets(s@, 0),
{
    let v = text::chars_of(s);
    let mut out = String::new();
    let mut depth: usize = 0;
    let mut i: usize = 0;
    assert(s@.skip(0) =~= s@);
    while i < v.len()
        invariant
            v@ == s@,
            i <= v@.len(),
            depth <= i,
            out@ + outside_brackets(s@.skip(i as int), depth as nat) =~= outside_brackets(s@, 0),
        decreases v@.len() - i,
    {
        let c = v[i];
        assert(s@.skip(i as int).skip(1) =~= s@.skip(i + 1));
        assert(s@.skip(i as int)[0] == c);
        if c == '[' || c == '(' || c == '{' {
            depth += 1;
        } else if c == ']' || c == ')' || c == '}' {
            if depth > 0 {
                depth -= 1;
            }
        } else if depth == 0 {
            out.push(c);
        }
        i += 1;
    }
    assert(s@.skip(i as int) =~= Seq::<char>::empty());
    assert(out@ =~= outside_brackets(s@, 0));
    out
}

/// `s` with each run of white space made one blank, and none where `after_blank`
/// says that one came just before.
pub open spec fn squeezed(s: Seq<char>, after_blank: bool) -> Seq<char>
    decreases s.len(),
{
    if s.len() == 0 {
        s
    } else if text::is_white(s[0]) {
        if after_blank {
            squeezed(s.skip(1), true)
        } else {
            seq![' '] + squeezed(s.skip(1), true)
        }
    } else {
        seq![s[0]] + squeezed(s.skip(1), false)
    }
}

/// The words of `s`, separated by single blanks.
pub open spec fn tidied(s: Seq<char>) -> Seq<char> {
    text::trimmed(squeezed(s, true))
}

/// Collapses white space: single blanks between words, none at either end.
pub fn collapse_ws(s: &str) -> (r: String)
    ensures
        r@ == tidied(s@),
{
    let v = text::chars_of(s);
    let mut out = String::new();
    let mut after_blank = true;
    let mut i: usize = 0;
    assert(s@.skip(0) =~= s@);
    while i < v.len()
        invariant
            v@ == s@,
            i <= v@.len(),
            out@ + squeezed(s@.skip(i as int), after_blank) =~= squeezed(s@, true),
        decreases v@.len() - i,
    {
        let c = v[i];
        assert(s@.skip(i as int).skip(1) =~= s@.skip(i + 1));
        assert(s@.skip(i as int)[0] == c);
        if text::white(c) {
            if !after_blank {
                out.push(' ');
                after_blank = true;
            }
        } else {
            out.push(c);
            after_blank = false;
        }
        i += 1;
    }
    assert(s@.skip(i as int) =~= Seq::<char>::empty());
    assert(out@ =~= squeezed(s@, true));
    text::trim(out.as_str())
}

/// The index of the last `c` in `s`.
pub open spec fn last_index(s: Seq<char>, c: char) -> Option<int>
    decreases s.len(),
{
    if s.len() == 0 {
        None
    } else if s.last() == c {
        Some(s.len() - 1)
    } else {
        last_index(s.drop_last(), c)
    }
}

fn rfind(v: &Vec<char>, c: char) -> (r: Option<usize>)
    ensures
        match r {
            Some(i) => last_index(v@, c) == Some(i as int) && i < v@.len(),
            None => last_index(v@, c) is None,
        },
{
    let mut n: usize = v.len();
    assert(v@.take(n as int) =~= v@);
    while n > 0
        invariant
            n <= v@.len(),
            last_index(v@, c) == last_index(v@.take(n as int), c),
        decreases n,
    {
        assert(v@.take(n as int).last() == v@[n - 1]);
        assert(v@.take(n as int).drop_last() =~= v@.take(n - 1));
        if v[n - 1] == c {
            return Some(n - 1);
        }
        n -= 1;
    }
    None
}

/// A release group's name: up to twelve letters, digits and dots.
pub open spec fn is_group_tag(s: Seq<char>) -> bool {
    &&& 0 < s.len() <= 12
    &&& forall|i: int| 0 <= i < s.len() ==> text::is_ascii_alnum(#[trigger] s[i]) || s[i] == '.'
}

/// `s` trimmed, and without a trailing `-GROUP`.
pub open spec fn without_group(s: Seq<char>) -> Seq<char> {
    let t = text::trimmed(s);
    match last_index(t, '-') {
        Some(i) => if is_group_tag(t.skip(i + 1)) {
            t.take(i)
        } else {
            t
        },
        None => t,
    }
}

/// Drops a trailing release group such as `-RARBG`.
pub fn strip_release_group(s: &str) -> (r: String)
    ensures
        r@ == without_group(s@),
{
    let t = text::trim(s);
    let v = text::chars_of(t.as_str());
    match rfind(&v, '-') {
        Some(i) => {
            let ghost tag = v@.skip(i + 1);
            let n: usize = v.len() - i - 1;
            if n == 0 || n > 12 {
                return t;
            }
            let mut k: usize = i + 1;
            while k < v.len()
                invariant
                    i < k <= v@.len(),
                    v@ == t@,
                    t@ == text::trimmed(s@),
                    last_index(v@, '-') == Some(i as int),
                    tag == v@.skip(i + 1),
                    forall|j: int|
                        0 <= j < k - i - 1 ==> text::is_ascii_alnum(#[trigger] tag[j]) || tag[j]
                            == '.',
                decreases v@.len() - k,
            {
                let c = v[k];
                assert(tag[k - i - 1] == c);
                if !(text::ascii_alnum(c) || c == '.') {
                    assert(!is_group_tag(tag));
                    return t;
                }
                k += 1;
            }
            assert(is_group_tag(tag));
            let head = text::string_of(&v, 0, i);
            assert(head@ =~= v@.take(i as int));
            head
        },
        None => t,
    }
}

/// `s` with the first character of each blank-separated word in upper case.
pub open spec fn capitalized(s: Seq<char>, at_start: bool) -> Seq<char>
    decreases s.len(),
{
    if s.len() == 0 {
        s
    } else if s[0] == ' ' {
        seq![' '] + capitalized(s.skip(1), true)
    } else if at_start {
        text::upper_of(s[0]) + capitalized(s.skip(1), false)
    } else {
        seq![s[0]] + capitalized(s.skip(1), false)
    }
}

/// Some character of `s` is an upper-case letter.
pub open spec fn has_upper(s: Seq<char>) -> bool {
    exists|i: int| 0 <= i < s.len() && text::is_upper(#[trigger] s[i])
}

/// `s` as it is if it has an upper-case letter, else with its words capitalized.
pub open spec fn titlecased(s: Seq<char>) -> Seq<char> {
    if has_upper(s) {
        s
    } else {
        capitalized(s, true)
    }
}

/// Capitalizes each word, only in a text without upper-case letters.
pub fn maybe_titlecase(s: &str) -> (r: String)
    ensures
        r@ == titlecased(s@),
{
    let v = text::chars_of(s);
    let mut k: usize = 0;
    while k < v.len()
        invariant
            v@ == s@,
            k <= v@.len(),
            forall|j: int| 0 <= j < k ==> !text::is_upper(#[trigger] s@[j]),
        decreases v@.len() - k,
    {
        if text::upper(v[k]) {
            assert(text::is_upper(s@[k as int]));
            return text::own(s);
        }
        k += 1;
    }
    let mut out = String::new();
    let mut at_start = true;
    let mut i: usize = 0;
    assert(s@.skip(0) =~= s@);
    while i < v.len()
        invariant
            v@ == s@,
            i <= v@.len(),
            out@ + capitalized(s@.skip(i as int), at_start) =~= capitalized(s@, true),
        decreases v@.len() - i,
    {
        let c = v[i];
        assert(s@.skip(i as int).skip(1) =~= s@.skip(i + 1));
        assert(s@.skip(i as int)[0] == c);
        if c == ' ' {
            out.push(' ');
            at_start = true;
        } else if at_start {
            let u = text::to_upper(c);
            out.push_str(u.as_str());
            at_start = false;
        } else {
            out.push(c);
        }
        i += 1;
    }
    assert(s@.skip(i as int) =~= Seq::<char>::empty());
    assert(out@ =~= capitalized(s@, true));
    out
}

/// The clean form of the characters of a title: no brackets, no release group,
/// single blanks, capitalized words.
pub open spec fn polished(s: Seq<char>) -> Seq<char> {
    titlecased(tidied(without_group(outside_brackets(s, 0))))
}

fn polish(s: &str) -> (r: String)
    ensures
        r@ == polished(s@),
{
    let a = strip_brackets(s);
    let b = strip_release_group(a.as_str());
    let c = collapse_ws(b.as_str());
    maybe_titlecase(c.as_str())
}

/// The clean title of a name: what stands before its release metadata, polished.
pub open spec fn title_of(s: Seq<char>) -> Seq<char> {
    let n = normalized(s);
    polished(n.take(junk_start(n)))
}

/// General cleanup: separators become blanks, everything from the first junk
/// token on is cut, and brackets, release group and superfluous white space go.
/// A year is kept; [`parse_movie`] takes it out.
pub fn clean_title(s: &str) -> (r: String)
    ensures
        r@ == title_of(s@),
{
    let n = normalize_separators(s);
    let v = text::chars_of(n.as_str());
    let cut: usize = first_junk_index(&v);
    let head = text::string_of(&v, 0, cut);
    assert(head@ =~= n@.take(cut as int));
    polish(head.as_str())
}

/// Where the title of a movie's name ends: at its year, or at its release
/// metadata, whichever comes first.
pub open spec fn movie_title_end(n: Seq<char>) -> int {
    match title_year(n) {
        Some(y) => if y.1 < junk_start(n) {
            y.1
        } else {
            junk_start(n)
        },
        None => junk_start(n),
    }
}

/// Reads a movie's name: its clean title and, if it carries one, its year.
pub fn parse_movie(stem: &str) -> (r: ParsedMovie)
    ensures
        r.title@ == polished(normalized(stem@).take(movie_title_end(normalized(stem@)))),
        match r.year {
            Some(y) => title_year(normalized(stem@)) matches Some(p) && p.0 == y,
            None => title_year(normalized(stem@)) is None,
        },
{
    let n = normalize_separators(stem);
    let v = text::chars_of(n.as_str());
    let junk: usize = first_junk_index(&v);
    let mut cut: usize = junk;
    let mut year: Option<i64> = None;
    if let Some((y, start)) = find_year(&v) {
        year = Some(y);
        if start < cut {
            cut = start;
        }
    }
    let head = text::string_of(&v, 0, cut);
    assert(head@ =~= n@.take(cut as int));
    let title = polish(head.as_str());
    ParsedMovie { title, year }
}

/// `s` from its first letter or number on.
pub open spec fn from_first_alnum(s: Seq<char>) -> Seq<char>
    decreases s.len(),
{
    if s.len() > 0 && !text::is_alnum(s[0]) {
        from_first_alnum(s.skip(1))
    } else {
        s
    }
}

fn drop_leading_marks(s: &str) -> (r: String)
    ensures
        r@ == from_first_alnum(s@),
{
    let v = text::chars_of(s);
    let mut i: usize = 0;
    assert(s@.skip(0) =~= s@);
    while i < v.len() && !text::alnum(v[i])
        invariant
            v@ == s@,
            i <= v@.len(),
            from_first_alnum(s@) == from_first_alnum(s@.skip(i as int)),
        decreases v@.len() - i,
    {
        assert(s@.skip(i as int).skip(1) =~= s@.skip(i + 1));
        i += 1;
    }
    let r = text::string_of(&v, i, v.len());
    assert(r@ =~= s@.skip(i as int));
    r
}

/// Some character of `s` is a letter.
pub open spec fn has_letter(s: Seq<char>) -> bool {
    exists|i: int| 0 <= i < s.len() && text::is_letter(#[trigger] s[i])
}

fn holds_letter(s: &str) -> (r: bool)
    ensures
        r == has_letter(s@),
{
    let v = text::chars_of(s);
    let mut i: usize = 0;
    while i < v.len()
        invariant
            v@ == s@,
            i <= v@.len(),
            forall|j: int| 0 <= j < i ==> !text::is_letter(#[trigger] s@[j]),
        decreases v@.len() - i,
    {
        if text::letter(v[i]) {
            assert(text::is_letter(s@[i as int]));
            return true;
        }
        i += 1;
    }
    false
}

/// The episode title that the text behind the tag gives: its clean title without
/// leading marks, or `Episode n` if no letter is left.
pub open spec fn episode_title(after: Seq<char>, episode: int) -> Seq<char> {
    let t = tidied(from_first_alnum(title_of(after)));
    if has_letter(t) {
        t
    } else {
        "Episode "@ + text::decimal_int(episode)
    }
}

/// `Episode n`.
pub fn numbered_episode(episode: i64) -> (r: String)
    ensures
        r@ == "Episode "@ + text::decimal_int(episode as int),
{
    let mut out = text::own("Episode ");
    text::push_i64(&mut out, episode);
    out
}

/// The title of an episode with the given name and number.
pub open spec fn title_behind_tag(stem: Seq<char>, episode: int) -> Seq<char> {
    if has_no_episode_tag(stem) {
        episode_title(stem, episode)
    } else {
        episode_title(stem.skip(tag_of(stem).end as int), episode)
    }
}

/// The title of an episode from its name: everything up to the end of the tag is
/// cut, the rest is cleaned. If nothing meaningful is left, it is `Episode n`.
pub fn clean_episode_title(stem: &str, episode: i64) -> (r: String)
    ensures
        r@ == title_behind_tag(stem@, episode as int),
{
    let v = text::chars_of(stem);
    let mut from: usize = 0;
    let tag = find_tag(&v);
    if let Some(t) = tag {
        from = t.end;
        proof {
            tag_of_is(stem@, t);
        }
    }
    let after = text::string_of(&v, from, v.len());
    let cleaned = clean_title(after.as_str());
    let marks = drop_leading_marks(cleaned.as_str());
    let title = collapse_ws(marks.as_str());
    proof {
        assert(after@ =~= stem@.skip(from as int));
        assert(stem@.skip(0) =~= stem@);
    }
    if holds_letter(title.as_str()) {
        title
    } else {
        numbered_episode(episode)
    }
}

/// `s` without a leading article and its blank.
pub open spec fn without_article(s: Seq<char>) -> Seq<char> {
    if text::begins_with(s, "the "@) {
        text::trimmed(s.skip(4))
    } else if text::begins_with(s, "a "@) {
        text::trimmed(s.skip(2))
    } else if text::begins_with(s, "an "@) {
        text::trimmed(s.skip(3))
    } else {
        s
    }
}

/// The form of a title by which it is sorted.
pub open spec fn sort_key(s: Seq<char>) -> Seq<char> {
    without_article(from_first_alnum(text::lower_text(tidied(outside_brackets(s, 0)))))
}

/// Sort-friendly form: bracketed parts go, the rest is lower case, without
/// leading marks and without a leading article.
pub fn sort_title(s: &str) -> (r: String)
    ensures
        r@ == sort_key(s@),
{
    let stripped = strip_brackets(s);
    let tidy = collapse_ws(stripped.as_str());
    let lower = text::to_lower(tidy.as_str());
    let plain = drop_leading_marks(lower.as_str());
    proof {
        reveal_strlit("the ");
        reveal_strlit("a ");
        reveal_strlit("an ");
    }
    if let Some(rest) = text::strip_prefix(plain.as_str(), "the ") {
        return text::trim(rest.as_str());
    }
    if let Some(rest) = text::strip_prefix(plain.as_str(), "a ") {
        return text::trim(rest.as_str());
    }
    if let Some(rest) = text::strip_prefix(plain.as_str(), "an ") {
        return text::trim(rest.as_str());
    }
    plain
}

// ---- laws of titles ----

/// A text without brackets.
pub open spec fn is_unbracketed(s: Seq<char>) -> bool {
    forall|i: int|
        0 <= i < s.len() ==> (#[trigger] s[i]) != '(' && s[i] != ')' && s[i] != '[' && s[i] != ']'
            && s[i] != '{' && s[i] != '}'
}

/// No bracket is left of a text.
pub proof fn no_bracket_is_left(s: Seq<char>, depth: nat)
    ensures
        is_unbracketed(outside_brackets(s, depth)),
    decreases s.len(),
{
    if s.len() > 0 {
        let t = s.skip(1);
        if is_open_bracket(s[0]) {
            no_bracket_is_left(t, depth + 1);
        } else if is_close_bracket(s[0]) {
            no_bracket_is_left(
                t,
                if depth > 0 {
                    (depth - 1) as nat
                } else {
                    0
                },
            );
        } else {
            no_bracket_is_left(t, depth);
            if depth == 0 {
                let rest = outside_brackets(t, depth);
                let all = outside_brackets(s, depth);
                assert(all == seq![s[0]] + rest);
                assert forall|i: int| 0 <= i < all.len() implies (#[trigger] all[i]) != '(' && all[i]
                    != ')' && all[i] != '[' && all[i] != ']' && all[i] != '{' && all[i] != '}' by {
                    if i > 0 {
                        assert(all[i] == rest[i - 1]);
                    }
                }
            }
        }
    }
}

proof fn inner_text_goes(inner: Seq<char>, rest: Seq<char>, depth: nat)
    requires
        is_unbracketed(inner),
        depth > 0,
    ensures
        outside_brackets(inner + rest, depth) == outside_brackets(rest, depth),
    decreases inner.len(),
{
    let s = inner + rest;
    if inner.len() > 0 {
        assert(s[0] == inner[0]);
        assert(s.skip(1) =~= inner.skip(1) + rest);
        inner_text_goes(inner.skip(1), rest, depth);
    } else {
        assert(s =~= rest);
    }
}

/// What stands outside of brackets stays as it is, and a bracketed part goes with its
/// brackets.
pub proof fn bracketed_part_goes(plain: Seq<char>, open: char, inner: Seq<char>, close: char, rest: Seq<char>)
    requires
        is_unbracketed(plain),
        is_unbracketed(inner),
        open == '(' || open == '[' || open == '{',
        close == ')' || close == ']' || close == '}',
    ensures
        outside_brackets(plain + rest, 0) == plain + outside_brackets(rest, 0),
        outside_brackets(seq![open] + inner + seq![close] + rest, 0) == outside_brackets(rest, 0),
    decreases plain.len(),
{
    let s = seq![open] + inner + seq![close] + rest;
    let t = seq![close] + rest;
    assert(s[0] == open);
    assert(s.skip(1) =~= inner + t);
    inner_text_goes(inner, t, 1);
    assert(t[0] == close);
    assert(t.skip(1) =~= rest);
    assert(outside_brackets(t, 1) == outside_brackets(rest, 0));
    if plain.len() > 0 {
        bracketed_part_goes(plain.skip(1), open, inner, close, rest);
        let p = plain + rest;
        assert(p[0] == plain[0]);
        assert(p.skip(1) =~= plain.skip(1) + rest);
        assert(plain =~= seq![plain[0]] + plain.skip(1));
        assert(outside_brackets(p, 0) =~= plain + outside_brackets(rest, 0));
    } else {
        assert(plain + rest =~= rest);
        assert(plain + outside_brackets(rest, 0) =~= outside_brackets(rest, 0));
    }
}

/// No two white characters follow one another, and each is a blank.
pub open spec fn has_single_blanks(s: Seq<char>) -> bool {
    &&& forall|i: int| 0 <= i < s.len() && text::is_white(#[trigger] s[i]) ==> s[i] == ' '
    &&& forall|i: int, j: int|
        0 <= i && j == i + 1 && j < s.len() && text::is_white(#[trigger] s[i]) ==> !text::is_white(
            #[trigger] s[j],
        )
}

proof fn squeezed_blanks(s: Seq<char>, after_blank: bool)
    ensures
        has_single_blanks(squeezed(s, after_blank)),
        after_blank && squeezed(s, after_blank).len() > 0 ==> !text::is_white(
            squeezed(s, after_blank)[0],
        ),
        squeezed(s, after_blank).filter(|c: char| !text::is_white(c)) == s.filter(
            |c: char| !text::is_white(c),
        ),
    decreases s.len(),
{
    let f = |c: char| !text::is_white(c);
    if s.len() > 0 {
        let rest = s.skip(1);
        squeezed_blanks(rest, true);
        squeezed_blanks(rest, false);
        assert(s =~= seq![s[0]] + rest);
        Seq::filter_distributes_over_add(seq![s[0]], rest, f);
        Seq::filter_distributes_over_add(seq![' '], squeezed(rest, true), f);
        Seq::filter_distributes_over_add(seq![s[0]], squeezed(rest, false), f);
        one_char_filtered(s[0]);
        one_char_filtered(' ');
        let all = squeezed(s, after_blank);
        if text::is_white(s[0]) {
            if after_blank {
                assert(all.filter(f) =~= s.filter(f));
            } else {
                let t = squeezed(rest, true);
                assert forall|i: int| 0 <= i < all.len() && text::is_white(
                    #[trigger] all[i],
                ) implies all[i] == ' ' by {
                    if i > 0 {
                        assert(all[i] == t[i - 1]);
                    }
                }
                assert forall|i: int, j: int|
                    0 <= i && j == i + 1 && j < all.len() && text::is_white(
                        #[trigger] all[i],
                    ) implies !text::is_white(#[trigger] all[j]) by {
                    assert(all[j] == t[j - 1]);
                    if i > 0 {
                        assert(all[i] == t[i - 1]);
                    }
                }
                assert(all.filter(f) =~= s.filter(f));
            }
        } else {
            let t = squeezed(rest, false);
            assert forall|i: int| 0 <= i < all.len() && text::is_white(#[trigger] all[i]) implies all[i]
                == ' ' by {
                if i > 0 {
                    assert(all[i] == t[i - 1]);
                }
            }
            assert forall|i: int, j: int|
                0 <= i && j == i + 1 && j < all.len() && text::is_white(
                    #[trigger] all[i],
                ) implies !text::is_white(#[trigger] all[j]) by {
                assert(all[j] == t[j - 1]);
                if i > 0 {
                    assert(all[i] == t[i - 1]);
                }
            }
            assert(all.filter(f) =~= s.filter(f));
        }
    }
}

proof fn one_char_filtered(c: char)
    ensures
        seq![c].filter(|x: char| !text::is_white(x)) == if text::is_white(c) {
            Seq::<char>::empty()
        } else {
            seq![c]
        },
{
    reveal(Seq::filter);
    let f = |x: char| !text::is_white(x);
    assert(seq![c].drop_last() =~= Seq::empty());
    assert(seq![c].drop_last().filter(f) =~= Seq::empty());
    assert(seq![c].filter(f) =~= if text::is_white(c) {
        Seq::<char>::empty()
    } else {
        seq![c]
    });
}

proof fn white_filtered(s: Seq<char>)
    requires
        forall|i: int| 0 <= i < s.len() ==> text::is_white(#[trigger] s[i]),
    ensures
        s.filter(|x: char| !text::is_white(x)) == Seq::<char>::empty(),
    decreases s.len(),
{
    reveal(Seq::filter);
    if s.len() > 0 {
        assert(text::is_white(s[s.len() - 1]));
        white_filtered(s.drop_last());
    }
}

/// A tidied text has single blanks, none at either end, and all the other characters that it
/// had, in their order.
pub proof fn tidied_texts_have_single_blanks(s: Seq<char>)
    ensures
        has_single_blanks(tidied(s)),
        tidied(s).len() > 0 ==> !text::is_white(tidied(s)[0]) && !text::is_white(tidied(s).last()),
        tidied(s).filter(|c: char| !text::is_white(c)) == s.filter(|c: char| !text::is_white(c)),
{
    let q = squeezed(s, true);
    squeezed_blanks(s, true);
    trimming_keeps_words(q);
    text::trimming_strips_white_space(q);
}

proof fn part_has_single_blanks(s: Seq<char>, from: int, to: int)
    requires
        has_single_blanks(s),
        0 <= from <= to <= s.len(),
    ensures
        has_single_blanks(s.subrange(from, to)),
{
    let t = s.subrange(from, to);
    assert forall|i: int| 0 <= i < t.len() && text::is_white(#[trigger] t[i]) implies t[i]
        == ' ' by {
        assert(t[i] == s[from + i]);
    }
    assert forall|i: int, j: int|
        0 <= i && j == i + 1 && j < t.len() && text::is_white(#[trigger] t[i]) implies !text::is_white(
        #[trigger] t[j],
    ) by {
        assert(t[i] == s[from + i]);
        assert(t[j] == s[from + j]);
    }
}

proof fn trimming_keeps_words(q: Seq<char>)
    requires
        has_single_blanks(q),
    ensures
        has_single_blanks(text::trimmed(q)),
        text::trimmed(q).filter(|c: char| !text::is_white(c)) == q.filter(
            |c: char| !text::is_white(c),
        ),
{
    text::trimming_strips_white_space(q);
    let t = text::trimmed(q);
    let k = choose|k: int|
        0 <= k && k + t.len() <= q.len() && t == #[trigger] q.subrange(k, k + t.len() as int) && (
        forall|i: int| 0 <= i < k ==> text::is_white(#[trigger] q[i])) && forall|i: int|
            k + t.len() <= i < q.len() ==> text::is_white(#[trigger] q[i]);
    part_has_single_blanks(q, k, k + t.len() as int);
    white_ends_filtered(q, k, k + t.len() as int);
}

proof fn white_ends_filtered(q: Seq<char>, from: int, to: int)
    requires
        0 <= from <= to <= q.len(),
        forall|i: int| 0 <= i < from ==> text::is_white(#[trigger] q[i]),
        forall|i: int| to <= i < q.len() ==> text::is_white(#[trigger] q[i]),
    ensures
        q.subrange(from, to).filter(|c: char| !text::is_white(c)) == q.filter(
            |c: char| !text::is_white(c),
        ),
{
    let f = |c: char| !text::is_white(c);
    let a = q.take(from);
    let t = q.subrange(from, to);
    let b = q.skip(to);
    assert(q =~= a + t + b);
    assert forall|i: int| 0 <= i < b.len() implies text::is_white(#[trigger] b[i]) by {
        assert(b[i] == q[to + i]);
    }
    white_filtered(a);
    white_filtered(b);
    Seq::filter_distributes_over_add(a + t, b, f);
    Seq::filter_distributes_over_add(a, t, f);
    assert(a.filter(f) + t.filter(f) + b.filter(f) =~= t.filter(f));
}

/// The release metadata starts where its first token stands; nowhere where none does.
pub proof fn metadata_starts_at_its_first_token(s: Seq<char>, from: int)
    requires
        0 <= from <= s.len(),
    ensures
        from <= junk_from(s, from) <= s.len(),
        junk_from(s, from) < s.len() ==> junk_at(s, junk_from(s, from)),
        forall|i: int| from <= i < junk_from(s, from) ==> !#[trigger] junk_at(s, i),
    decreases s.len() - from,
{
    if from < s.len() && !junk_at(s, from) {
        metadata_starts_at_its_first_token(s, from + 1);
    }
}

proof fn last_year_is(s: Seq<char>, upto: int, i: int)
    requires
        0 <= i <= upto,
        year_at(s, i) is Some,
        forall|j: int| i < j <= upto ==> (#[trigger] year_at(s, j)) is None,
    ensures
        last_year_upto(s, upto) == Some((year_at(s, i)->0, i)),
    decreases upto - i,
{
    if upto > i {
        assert(year_at(s, upto) is None);
        last_year_is(s, upto - 1, i);
    }
}

proof fn last_year_bounds(s: Seq<char>, upto: int)
    ensures
        match last_year_upto(s, upto) {
            Some(y) => 0 <= y.1 <= upto && year_at(s, y.1) == Some(y.0) && forall|j: int|
                y.1 < j <= upto ==> (#[trigger] year_at(s, j)) is None,
            None => forall|j: int| 0 <= j <= upto ==> (#[trigger] year_at(s, j)) is None,
        },
    decreases upto + 1,
{
    if upto >= 0 {
        last_year_bounds(s, upto - 1);
    }
}

/// The year of a name is four digits from 1900 to 2099 between separators or brackets, whole
/// before the release metadata, and the last such; the title ends before both.
pub proof fn year_is_the_last_before_the_metadata(s: Seq<char>)
    ensures
        0 <= movie_title_end(s) <= junk_start(s),
        match title_year(s) {
            Some(y) => {
                &&& 1900 <= y.0 <= 2099
                &&& 0 <= y.1 && y.1 + 4 <= junk_start(s)
                &&& text::all_digits(s.subrange(y.1, y.1 + 4))
                &&& text::digits_value(s.subrange(y.1, y.1 + 4)) == y.0
                &&& movie_title_end(s) == y.1
                &&& forall|j: int|
                    y.1 < j <= junk_start(s) - 4 ==> (#[trigger] year_at(s, j)) is None
            },
            None => movie_title_end(s) == junk_start(s) && forall|j: int|
                0 <= j <= junk_start(s) - 4 ==> (#[trigger] year_at(s, j)) is None,
        },
{
    metadata_starts_at_its_first_token(s, 0);
    last_year_bounds(s, junk_start(s) - 4);
    if let Some(y) = title_year(s) {
        let d = s.subrange(y.1, y.1 + 4);
        assert forall|i: int| 0 <= i < d.len() implies text::is_digit(#[trigger] d[i]) by {
            assert(d[i] == s[y.1 + i]);
        }
    }
}

/// A year in brackets behind a title is the year of the name, where nothing else in it could
/// be: no release metadata, and no year behind it.
pub proof fn year_in_brackets_is_read(title: Seq<char>, year: Seq<char>, rest: Seq<char>)
    requires
        year.len() == 4 && text::all_digits(year),
        1900 <= text::digits_value(year) <= 2099,
        forall|i: int|
            0 <= i < title.len() + 6 + rest.len() ==> !#[trigger] junk_at(
                title + seq!['('] + year + seq![')'] + rest,
                i,
            ),
        forall|i: int| 0 <= i < rest.len() ==> !text::is_digit(#[trigger] rest[i]),
    ensures
        ({
            let s = title + seq!['('] + year + seq![')'] + rest;
            &&& title_year(s) == Some((text::digits_value(year) as int, title.len() + 1int))
            &&& s.take(movie_title_end(s)) == title + seq!['(']
        }),
{
    let s = title + seq!['('] + year + seq![')'] + rest;
    let i: int = title.len() + 1int;
    metadata_starts_at_its_first_token(s, 0);
    assert(junk_start(s) == s.len());
    assert(s.subrange(i, i + 4) =~= year);
    assert(digits_between(s, i, i + 4)) by {
        assert forall|k: int| i <= k < i + 4 implies text::is_digit(#[trigger] s[k]) by {
            assert(s[k] == year[k - i]);
        }
    }
    assert(s[i - 1] == '(' && s[i + 4] == ')');
    assert(year_at(s, i) == Some(text::digits_value(year) as int));
    assert forall|j: int| i < j <= s.len() - 4 implies (#[trigger] year_at(s, j)) is None by {
        if j <= i + 4 {
            if digits_between(s, j, j + 4) {
                assert(text::is_digit(s[i + 4]));
            }
        } else {
            assert(s[j] == rest[j - i - 5]);
            if digits_between(s, j, j + 4) {
                assert(text::is_digit(s[j]));
            }
        }
    }
    last_year_is(s, s.len() - 4, i);
    assert(s.take(i) =~= title + seq!['(']);
}

proof fn last_index_is(s: Seq<char>, c: char, i: int)
    requires
        0 <= i < s.len(),
        s[i] == c,
        forall|j: int| i < j < s.len() ==> #[trigger] s[j] != c,
    ensures
        last_index(s, c) == Some(i),
    decreases s.len(),
{
    if i < s.len() - 1 {
        assert(s[s.len() - 1] != c);
        assert(s.drop_last()[i] == c);
        last_index_is(s.drop_last(), c, i);
    }
}

/// A release group at the end goes, with the dash before it: up to twelve letters, digits and
/// dots. Anything else behind the last dash stays.
pub proof fn release_group_goes(name: Seq<char>, group: Seq<char>)
    requires
        name.len() > 0,
        !text::is_white(name[0]),
        group.len() > 0,
        !group.contains('-'),
        !text::is_white(group.last()),
    ensures
        ({
            let plain = group.len() <= 12 && forall|i: int|
                0 <= i < group.len() ==> text::is_ascii_alnum(#[trigger] group[i]) || group[i]
                    == '.';
            let s = name + seq!['-'] + group;
            without_group(s) == if plain {
                name
            } else {
                s
            }
        }),
{
    let s = name + seq!['-'] + group;
    assert(s[0] == name[0]);
    assert(s.last() == group.last());
    assert(text::trim_left(s) == s);
    assert(text::trim_right(s) == s);
    let k = name.len() as int;
    assert forall|j: int| k < j < s.len() implies #[trigger] s[j] != '-' by {
        assert(s[j] == group[j - k - 1]);
        assert(group.contains(group[j - k - 1]));
    }
    last_index_is(s, '-', k);
    assert(s.skip(k + 1) =~= group);
    assert(s.take(k) =~= name);
}

/// Words are capitalized one by one, and only in a text that has no capital: of each word the
/// first character changes, and nothing else.
pub proof fn words_are_capitalized_one_by_one(word: Seq<char>, rest: Seq<char>)
    requires
        word.len() > 0,
        !word.contains(' '),
    ensures
        capitalized(word + seq![' '] + rest, true) == text::upper_of(word[0]) + word.skip(1) + seq![
            ' ',
        ] + capitalized(rest, true),
        capitalized(word, true) == text::upper_of(word[0]) + word.skip(1),
        has_upper(word) ==> titlecased(word) == word,
        !has_upper(word) ==> titlecased(word) == text::upper_of(word[0]) + word.skip(1),
{
    assert(word.contains(word[0]));
    let tail = word.skip(1);
    assert(!tail.contains(' ')) by {
        if tail.contains(' ') {
            let i = choose|i: int| 0 <= i < tail.len() && tail[i] == ' ';
            assert(word[i + 1] == ' ');
        }
    }
    let s = word + seq![' '] + rest;
    let behind = seq![' '] + rest;
    assert(s[0] == word[0]);
    assert(s.skip(1) =~= tail + behind);
    rest_of_word_stays(tail, behind);
    assert(behind.skip(1) =~= rest);
    assert(capitalized(s, true) =~= text::upper_of(word[0]) + word.skip(1) + seq![' ']
        + capitalized(rest, true));
    rest_of_word_stays(tail, Seq::empty());
    assert(tail + Seq::<char>::empty() =~= tail);
    assert(tail + capitalized(Seq::<char>::empty(), false) =~= tail);
}

proof fn rest_of_word_stays(tail: Seq<char>, behind: Seq<char>)
    requires
        !tail.contains(' '),
    ensures
        capitalized(tail + behind, false) == tail + capitalized(behind, false),
    decreases tail.len(),
{
    let s = tail + behind;
    if tail.len() > 0 {
        assert(tail.contains(tail[0]));
        let t = tail.skip(1);
        assert(!t.contains(' ')) by {
            if t.contains(' ') {
                let i = choose|i: int| 0 <= i < t.len() && t[i] == ' ';
                assert(tail[i + 1] == ' ');
            }
        }
        rest_of_word_stays(t, behind);
        assert(s[0] == tail[0]);
        assert(s.skip(1) =~= t + behind);
        assert(capitalized(s, false) =~= tail + capitalized(behind, false));
    } else {
        assert(s =~= behind);
        assert(capitalized(s, false) =~= tail + capitalized(behind, false));
    }
}

/// Underscores become blanks, and so do dots where dots and underscores outnumber the blanks;
/// nothing else changes.
pub proof fn separators_become_blanks(s: Seq<char>, i: int)
    requires
        0 <= i < s.len(),
    ensures
        normalized(s).len() == s.len(),
        normalized(s)[i] == if s[i] == '_' || (s[i] == '.' && is_release_style(s)) {
            ' '
        } else {
            s[i]
        },
        is_release_style(s) <==> s.filter(|c: char| c == '.').len() + s.filter(
            |c: char| c == '_',
        ).len() > s.filter(|c: char| c == ' ').len(),
{
    counted(s, '.');
    counted(s, '_');
    counted(s, ' ');
}

proof fn counted(s: Seq<char>, x: char)
    ensures
        count_of(s, x) == s.filter(|c: char| c == x).len(),
    decreases s.len(),
{
    reveal(Seq::filter);
    if s.len() > 0 {
        counted(s.drop_last(), x);
    }
}

/// Marks in front of a title go, up to its first letter or number.
pub proof fn leading_marks_go(s: Seq<char>)
    ensures
        from_first_alnum(s).len() <= s.len(),
        from_first_alnum(s) == s.skip(s.len() - from_first_alnum(s).len()),
        from_first_alnum(s).len() > 0 ==> text::is_alnum(from_first_alnum(s)[0]),
        forall|i: int|
            0 <= i < s.len() - from_first_alnum(s).len() ==> !text::is_alnum(#[trigger] s[i]),
    decreases s.len(),
{
    if s.len() > 0 && !text::is_alnum(s[0]) {
        let t = s.skip(1);
        leading_marks_go(t);
        let k = t.len() - from_first_alnum(t).len();
        assert(t.skip(k) =~= s.skip(k + 1));
        assert forall|i: int| 0 <= i < k + 1 implies !text::is_alnum(#[trigger] s[i]) by {
            if i > 0 {
                assert(s[i] == t[i - 1]);
            }
        }
    } else {
        assert(s.skip(0) =~= s);
    }
}

/// A leading article does not count where titles are sorted; a word that only begins like one
/// does.
pub proof fn articles_do_not_count(title: Seq<char>, c: char)
    requires
        c != ' ',
    ensures
        without_article("the "@ + title) == text::trimmed(title),
        without_article("a "@ + title) == text::trimmed(title),
        without_article("an "@ + title) == text::trimmed(title),
        without_article("the"@ + seq![c] + title) == "the"@ + seq![c] + title,
        c != 'n' ==> without_article("a"@ + seq![c] + title) == "a"@ + seq![c] + title,
        without_article("an"@ + seq![c] + title) == "an"@ + seq![c] + title,
{
    reveal_strlit("the ");
    reveal_strlit("a ");
    reveal_strlit("an ");
    reveal_strlit("the");
    reveal_strlit("a");
    reveal_strlit("an");
    let the = "the "@ + title;
    assert(the.subrange(0, 4) =~= "the "@);
    assert(the.skip(4) =~= title);
    let a = "a "@ + title;
    assert(a[0] == 'a' && a[1] == ' ');
    begins(a, "the "@, 0);
    assert(a.subrange(0, 2) =~= "a "@);
    assert(a.skip(2) =~= title);
    let an = "an "@ + title;
    assert(an[0] == 'a' && an[1] == 'n');
    begins(an, "the "@, 0);
    begins(an, "a "@, 1);
    assert(an.subrange(0, 3) =~= "an "@);
    assert(an.skip(3) =~= title);
    let x = "the"@ + seq![c] + title;
    assert(x[0] == 't' && x[3] == c);
    begins(x, "the "@, 3);
    begins(x, "a "@, 0);
    begins(x, "an "@, 0);
    let y = "a"@ + seq![c] + title;
    assert(y[0] == 'a' && y[1] == c);
    begins(y, "the "@, 0);
    begins(y, "a "@, 1);
    begins(y, "an "@, 1);
    let z = "an"@ + seq![c] + title;
    assert(z[0] == 'a' && z[1] == 'n' && z[2] == c);
    begins(z, "the "@, 0);
    begins(z, "a "@, 1);
    begins(z, "an "@, 2);
}

proof fn begins(s: Seq<char>, prefix: Seq<char>, i: int)
    requires
        0 <= i < prefix.len(),
    ensures
        text::begins_with(s, prefix) ==> s[i] == prefix[i],
{
    if text::begins_with(s, prefix) {
        assert(s.subrange(0, prefix.len() as int)[i] == s[i]);
    }
}

/// The title of an episode is what stands behind its tag, whatever stands before.
pub proof fn title_stands_behind_the_tag(
    before: Seq<char>,
    season: nat,
    episode: nat,
    after: Seq<char>,
    n: int,
)
    requires
        season <= i64::MAX,
        episode <= i64::MAX,
        before.len() > 0 ==> !text::is_ascii_alnum(before.last()),
        without_season_letter(before),
        after.len() > 0 ==> !text::is_digit(after[0]) && after[0] != 'e' && after[0] != 'E'
            && after[0] != '-',
        before.len() + after.len() + 2 + text::decimal(season).len() + text::decimal(episode).len()
            <= usize::MAX,
    ensures
        title_behind_tag(
            before + seq!['S'] + text::decimal(season) + seq!['E'] + text::decimal(episode) + after,
            n,
        ) == episode_title(after, n),
{
    let a = text::decimal(season);
    let b = text::decimal(episode);
    text::decimal_roundtrip(season);
    text::decimal_roundtrip(episode);
    tag_is_read(before, 'S', a, Seq::empty(), 'E', b, after);
    let s = before + seq!['S'] + a + seq!['E'] + b + after;
    assert(before + seq!['S'] + a + Seq::<char>::empty() + seq!['E'] + b + after =~= s);
    assert(s.skip(tag_of(s).end as int) =~= after);
}

/// An episode without a title of its own is called by its number.
pub proof fn untitled_episodes_are_numbered(after: Seq<char>, n: int)
    ensures
        episode_title(after, n) == "Episode "@ + text::decimal_int(n) || has_letter(
            episode_title(after, n),
        ),
        !has_letter(tidied(from_first_alnum(title_of(after)))) ==> episode_title(after, n)
            == "Episode "@ + text::decimal_int(n),
{
}

/// A year is told by what stands round it: an opening bracket, a blank, a dot, a hyphen or an
/// underscore before it, and the like of these behind it.
pub proof fn years_stand_apart(c: char)
    ensures
        opens_year(c) <==> seq!['(', '[', '{', ' ', '.', '-', '_'].contains(c),
        closes_year(c) <==> seq![')', ']', '}', ' ', '.', '-', '_'].contains(c),
{
    let a = seq!['(', '[', '{', ' ', '.', '-', '_'];
    let b = seq![')', ']', '}', ' ', '.', '-', '_'];
    assert(a[0] == '(' && a[1] == '[' && a[2] == '{' && a[3] == ' ' && a[4] == '.' && a[5] == '-'
        && a[6] == '_');
    assert(b[0] == ')' && b[1] == ']' && b[2] == '}' && b[3] == ' ' && b[4] == '.' && b[5] == '-'
        && b[6] == '_');
}

} // verus!
