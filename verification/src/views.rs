//! What the pages of the player say: dates, sizes, counts and the lines under a title.

use crate::library::{Season, ShowSummary};
use crate::numbers;
use crate::scanner::progress::ScanProgress;
use crate::text;
use crate::types;
use crate::watch::ContinueItem;
use vstd::prelude::*;

verus! {

// ---- numbers ----

/// How a span of time is shown.
pub open spec fn elapsed_text(ms: nat) -> Seq<char> {
    if ms < 1000 {
        text::decimal(ms) + "ms"@
    } else if ms < 60_000 {
        numbers::tenths_text(numbers::scaled(ms, 1000, 10)) + "s"@
    } else {
        let secs = ms / 1000;
        text::decimal(secs / 60) + "m "@ + text::decimal(secs % 60) + "s"@
    }
}

/// How long something took.
pub fn format_elapsed(ms: u64) -> (r: String)
    ensures
        r@ == elapsed_text(ms as nat),
{
    let mut out = String::new();
    if ms < 1000 {
        text::push_u64(&mut out, ms);
        out.push_str("ms");
    } else if ms < 60_000 {
        numbers::push_tenths(&mut out, numbers::scaled_div(ms, 1000, 10));
        out.push_str("s");
    } else {
        let secs: u64 = ms / 1000;
        text::push_u64(&mut out, secs / 60);
        out.push_str("m ");
        text::push_u64(&mut out, secs % 60);
        out.push_str("s");
    }
    assert(out@ =~= elapsed_text(ms as nat));
    out
}

/// How a number of votes is shown.
pub open spec fn votes_text(n: int) -> Seq<char> {
    if n < 1000 {
        text::decimal_int(n)
    } else if n < 10_000 {
        numbers::tenths_text(numbers::scaled(n as nat, 1000, 10)) + "k"@
    } else if n < 1_000_000 {
        text::decimal(numbers::scaled(n as nat, 1000, 1)) + "k"@
    } else {
        numbers::tenths_text(numbers::scaled(numbers::coarse(n as nat), 1_000_000, 10)) + "M"@
    }
}

/// A number of votes, in short.
pub fn format_votes(n: i64) -> (r: String)
    ensures
        r@ == votes_text(n as int),
{
    if n < 1000 {
        return text::i64_text(n);
    }
    let mut out = String::new();
    if n < 10_000 {
        numbers::push_tenths(&mut out, numbers::scaled_div(n as u64, 1000, 10));
        out.push_str("k");
    } else if n < 1_000_000 {
        numbers::push_whole(&mut out, numbers::scaled_div(n as u64, 1000, 1));
        out.push_str("k");
    } else {
        let near: u64 = numbers::coarse_number(n as u64);
        numbers::push_tenths(&mut out, numbers::scaled_div(near, 1_000_000, 10));
        out.push_str("M");
    }
    assert(out@ =~= votes_text(n as int));
    out
}

/// How the size of a file is shown.
pub open spec fn bytes_text(n: int) -> Seq<char> {
    let near = numbers::coarse(n as nat);
    if n < 0 {
        "0 B"@
    } else if n < 0x400 {
        text::decimal(n as nat) + " B"@
    } else if n < 0x10_0000 {
        numbers::tenths_text(numbers::nearest(10 * near, 0x400)) + " KB"@
    } else if n < 0x4000_0000 {
        numbers::tenths_text(numbers::nearest(10 * near, 0x10_0000)) + " MB"@
    } else {
        numbers::hundredths_text(numbers::nearest(100 * near, 0x4000_0000)) + " GB"@
    }
}

/// The size of a file, in short.
pub fn format_bytes(n: i64) -> (r: String)
    ensures
        r@ == bytes_text(n as int),
{
    if n < 0 {
        return text::own("0 B");
    }
    let near: u128 = numbers::coarse_number(n as u64) as u128;
    let mut out = String::new();
    if n < 0x400 {
        text::push_u64(&mut out, n as u64);
        out.push_str(" B");
    } else if n < 0x10_0000 {
        numbers::push_tenths(&mut out, numbers::round_div(10 * near, 0x400));
        out.push_str(" KB");
    } else if n < 0x4000_0000 {
        numbers::push_tenths(&mut out, numbers::round_div(10 * near, 0x10_0000));
        out.push_str(" MB");
    } else {
        numbers::push_hundredths(&mut out, numbers::round_div(100 * near, 0x4000_0000));
        out.push_str(" GB");
    }
    assert(out@ =~= bytes_text(n as int));
    out
}

/// How a rating in millionths is shown.
pub open spec fn rating_text(millionths: int) -> Seq<char> {
    if millionths < 0 {
        "-"@ + numbers::tenths_text(numbers::scaled((-millionths) as nat, 1_000_000, 10))
    } else {
        numbers::tenths_text(numbers::scaled(millionths as nat, 1_000_000, 10))
    }
}

/// A rating with one digit behind the point.
pub fn format_rating(millionths: i64) -> (r: String)
    ensures
        r@ == rating_text(millionths as int),
{
    let mut out = String::new();
    if millionths < 0 {
        out.push_str("-");
    }
    numbers::push_tenths(
        &mut out,
        numbers::scaled_div(text::magnitude(millionths), 1_000_000, 10),
    );
    assert(out@ =~= rating_text(millionths as int));
    out
}

// ---- dates ----

/// The short name of a month, from 1 on.
pub open spec fn month_name(m: int) -> Seq<char> {
    if m == 1 {
        "Jan"@
    } else if m == 2 {
        "Feb"@
    } else if m == 3 {
        "Mar"@
    } else if m == 4 {
        "Apr"@
    } else if m == 5 {
        "May"@
    } else if m == 6 {
        "Jun"@
    } else if m == 7 {
        "Jul"@
    } else if m == 8 {
        "Aug"@
    } else if m == 9 {
        "Sep"@
    } else if m == 10 {
        "Oct"@
    } else if m == 11 {
        "Nov"@
    } else {
        "Dec"@
    }
}

fn month(m: u64) -> (r: &'static str)
    requires
        1 <= m <= 12,
    ensures
        r@ == month_name(m as int),
{
    if m == 1 {
        "Jan"
    } else if m == 2 {
        "Feb"
    } else if m == 3 {
        "Mar"
    } else if m == 4 {
        "Apr"
    } else if m == 5 {
        "May"
    } else if m == 6 {
        "Jun"
    } else if m == 7 {
        "Jul"
    } else if m == 8 {
        "Aug"
    } else if m == 9 {
        "Sep"
    } else if m == 10 {
        "Oct"
    } else if m == 11 {
        "Nov"
    } else {
        "Dec"
    }
}

/// What `i32` reads in a text.
pub open spec fn i32_value(s: Seq<char>) -> Option<int> {
    match text::signed_value(s) {
        Some(n) => if i32::MIN <= n <= i32::MAX {
            Some(n)
        } else {
            None
        },
        None => None,
    }
}

fn parse_i32(s: &str) -> (r: Option<i32>)
    ensures
        match r {
            Some(n) => i32_value(s@) == Some(n as int),
            None => i32_value(s@) is None,
        },
{
    match text::parse_i64(s) {
        Some(n) => if i32::MIN as i64 <= n && n <= i32::MAX as i64 {
            Some(n as i32)
        } else {
            None
        },
        None => None,
    }
}

/// The three parts of a text at its first two hyphens.
pub open spec fn date_parts(s: Seq<char>) -> Option<(Seq<char>, Seq<char>, Seq<char>)> {
    let i = text::first_index(s, '-');
    if i >= s.len() {
        None
    } else {
        let rest = s.skip(i + 1);
        let j = text::first_index(rest, '-');
        if j >= rest.len() {
            None
        } else {
            Some((s.take(i), rest.take(j), rest.skip(j + 1)))
        }
    }
}

fn split_date(s: &str) -> (r: Option<(String, String, String)>)
    ensures
        match r {
            Some(p) => date_parts(s@) == Some((p.0@, p.1@, p.2@)),
            None => date_parts(s@) is None,
        },
{
    let v = text::chars_of(s);
    let i = text::find_char(&v, '-');
    if i >= v.len() {
        return None;
    }
    let rest = text::chars_of(text::string_of(&v, i + 1, v.len()).as_str());
    assert(rest@ =~= s@.skip(i + 1));
    let j = text::find_char(&rest, '-');
    if j >= rest.len() {
        return None;
    }
    let first = text::string_of(&v, 0, i);
    let second = text::string_of(&rest, 0, j);
    let third = text::string_of(&rest, j + 1, rest.len());
    assert(first@ =~= s@.take(i as int));
    assert(second@ =~= rest@.take(j as int));
    assert(third@ =~= rest@.skip(j + 1));
    Some((first, second, third))
}

/// A date with the name of its month, or the text as it is where it is no date.
pub open spec fn long_date(s: Seq<char>) -> Seq<char> {
    match date_parts(s) {
        Some((y, m, d)) => match (
            text::unsigned_value(m, u64::MAX as int),
            text::unsigned_value(d, u32::MAX as int),
            i32_value(y),
        ) {
            (Some(month), Some(day), Some(_)) => if 1 <= month <= 12 {
                month_name(month) + " "@ + text::decimal(day as nat) + ", "@ + y
            } else {
                s
            },
            _ => s,
        },
        None => s,
    }
}

/// A date in words, or what was given where it is none.
pub fn format_long_date(raw: &str) -> (r: String)
    ensures
        r@ == long_date(raw@),
{
    let (y, m, d) = match split_date(raw) {
        Some(p) => p,
        None => {
            return text::own(raw);
        },
    };
    let number: u64 = match text::parse_u64(m.as_str()) {
        Some(n) => n,
        None => {
            return text::own(raw);
        },
    };
    if number < 1 || number > 12 {
        return text::own(raw);
    }
    let day: u32 = match text::parse_u32(d.as_str()) {
        Some(n) => n,
        None => {
            return text::own(raw);
        },
    };
    if parse_i32(y.as_str()).is_none() {
        return text::own(raw);
    }
    let mut out = text::own(month(number));
    out.push_str(" ");
    text::push_u64(&mut out, day as u64);
    out.push_str(", ");
    out.push_str(y.as_str());
    out
}

/// The number in the first four bytes of a date.
pub open spec fn year_of(s: Seq<char>) -> Option<int> {
    if text::byte_size(text::byte_prefix(s, 4)) == 4 {
        i32_value(text::byte_prefix(s, 4))
    } else {
        None
    }
}

/// The year of a date.
pub fn year_from_date(raw: &str) -> (r: Option<i32>)
    ensures
        match r {
            Some(n) => year_of(raw@) == Some(n as int),
            None => year_of(raw@) is None,
        },
{
    let head = text::first_bytes(raw, 4);
    if text::is_wider(head.as_str(), 3) && !text::is_wider(head.as_str(), 4) {
        parse_i32(head.as_str())
    } else {
        None
    }
}

/// The year of a show, or from when to when it ran.
pub open spec fn show_years(
    premiered: Option<Seq<char>>,
    year: Option<i64>,
    ended: Option<Seq<char>>,
) -> Seq<char> {
    let start = match premiered {
        Some(p) => match year_of(p) {
            Some(y) => Some(y),
            None => match year {
                Some(y) => Some(y as int),
                None => None,
            },
        },
        None => match year {
            Some(y) => Some(y as int),
            None => None,
        },
    };
    let end = match ended {
        Some(e) => year_of(e),
        None => None,
    };
    match (start, end) {
        (Some(s), Some(e)) => if e > s {
            text::decimal_int(s) + " – "@ + text::decimal_int(e)
        } else {
            text::decimal_int(s)
        },
        (Some(s), None) => text::decimal_int(s),
        (None, _) => ""@,
    }
}

fn year_in(date: Option<&str>) -> (r: Option<i64>)
    ensures
        match types::opt_str(date) {
            Some(d) => match year_of(d) {
                Some(n) => r == Some(n as i64) && i64::MIN <= n <= i64::MAX,
                None => r is None,
            },
            None => r is None,
        },
{
    match date {
        Some(d) => match year_from_date(d) {
            Some(n) => Some(n as i64),
            None => None,
        },
        None => None,
    }
}

/// The years in which a show was on air.
pub fn year_text(premiered: Option<&str>, year: Option<i64>, ended: Option<&str>) -> (r: String)
    ensures
        r@ == show_years(types::opt_str(premiered), year, types::opt_str(ended)),
{
    let start: Option<i64> = match year_in(premiered) {
        Some(y) => Some(y),
        None => year,
    };
    let end: Option<i64> = year_in(ended);
    match start {
        None => text::own(""),
        Some(s) => {
            let mut out = text::i64_text(s);
            if let Some(e) = end {
                if e > s {
                    out.push_str(" – ");
                    text::push_i64(&mut out, e);
                }
            }
            out
        },
    }
}

// ---- addresses ----

/// The page of a title at IMDb.
pub fn imdb_url(id: &str) -> (r: String)
    ensures
        r@ == "https://www.imdb.com/title/"@ + id@ + "/"@,
{
    let mut out = text::own("https://www.imdb.com/title/");
    out.push_str(id);
    out.push_str("/");
    out
}

/// The page of a movie at TMDB.
pub fn tmdb_movie_url(id: &str) -> (r: String)
    ensures
        r@ == "https://www.themoviedb.org/movie/"@ + id@,
{
    let mut out = text::own("https://www.themoviedb.org/movie/");
    out.push_str(id);
    out
}

/// The page of a show at TMDB.
pub fn tmdb_tv_url(id: &str) -> (r: String)
    ensures
        r@ == "https://www.themoviedb.org/tv/"@ + id@,
{
    let mut out = text::own("https://www.themoviedb.org/tv/");
    out.push_str(id);
    out
}

/// The page of a show at TheTVDB.
pub fn tvdb_url(id: &str) -> (r: String)
    ensures
        r@ == "https://thetvdb.com/?id="@ + id@ + "&tab=series"@,
{
    let mut out = text::own("https://thetvdb.com/?id=");
    out.push_str(id);
    out.push_str("&tab=series");
    out
}

// ---- seasons ----

/// The name of a season.
pub open spec fn season_name(n: int) -> Seq<char> {
    if n == 0 {
        "Specials"@
    } else {
        "Season "@ + text::decimal_int(n)
    }
}

/// How a season is called.
pub fn season_label(n: i64) -> (r: String)
    ensures
        r@ == season_name(n as int),
{
    if n == 0 {
        text::own("Specials")
    } else {
        let mut out = text::own("Season ");
        text::push_i64(&mut out, n);
        out
    }
}

/// The least number of a season other than that of the specials.
pub open spec fn least_season(v: Seq<Season>) -> Option<i64>
    decreases v.len(),
{
    if v.len() == 0 {
        None
    } else {
        let n = v.last().number;
        match least_season(v.drop_last()) {
            Some(m) => if n != 0 && n < m {
                Some(n)
            } else {
                Some(m)
            },
            None => if n != 0 {
                Some(n)
            } else {
                None
            },
        }
    }
}

/// The season that a page opens on: the least one, or the specials where there is nothing
/// else, or 1.
pub open spec fn opening_season(v: Seq<Season>) -> i64 {
    match least_season(v) {
        Some(n) => n,
        None => if v.len() > 0 {
            v[0].number
        } else {
            1
        },
    }
}

/// The season that is shown first.
pub fn default_season(seasons: &Vec<Season>) -> (r: i64)
    ensures
        r == opening_season(seasons@),
{
    let mut least: Option<i64> = None;
    let mut i: usize = 0;
    assert(least_season(seasons@.take(0)) is None);
    while i < seasons.len()
        invariant
            i <= seasons@.len(),
            least == least_season(seasons@.take(i as int)),
        decreases seasons@.len() - i,
    {
        let n: i64 = seasons[i].number;
        assert(seasons@.take(i + 1).drop_last() =~= seasons@.take(i as int));
        least = match least {
            Some(m) => if n != 0 && n < m {
                Some(n)
            } else {
                Some(m)
            },
            None => if n != 0 {
                Some(n)
            } else {
                None
            },
        };
        i += 1;
    }
    assert(seasons@.take(i as int) =~= seasons@);
    match least {
        Some(n) => n,
        None => if seasons.len() > 0 {
            seasons[0].number
        } else {
            1
        },
    }
}

/// The page opens on a season that there is, on one that is no special where there is
/// one, and on none that comes before it.
pub proof fn opening_season_is_least(v: Seq<Season>)
    requires
        v.len() > 0,
    ensures
        exists|i: int| 0 <= i < v.len() && #[trigger] v[i].number == opening_season(v),
        forall|i: int|
            0 <= i < v.len() && (#[trigger] v[i]).number != 0 ==> opening_season(v) != 0
                && opening_season(v) <= v[i].number,
{
    least_is_there(v);
    if least_season(v) is None {
        assert(v[0].number == opening_season(v));
    }
}

proof fn least_is_there(v: Seq<Season>)
    ensures
        least_season(v) matches Some(n) ==> n != 0 && exists|i: int|
            0 <= i < v.len() && #[trigger] v[i].number == n,
        forall|i: int|
            0 <= i < v.len() && (#[trigger] v[i]).number != 0 ==> least_season(v) is Some && (
            least_season(v)->0) <= v[i].number,
    decreases v.len(),
{
    if v.len() > 0 {
        let w = v.drop_last();
        least_is_there(w);
        assert forall|i: int| 0 <= i < v.len() && (#[trigger] v[i]).number != 0 implies least_season(
            v,
        ) is Some && (least_season(v)->0) <= v[i].number by {
            if i < w.len() {
                assert(v[i] == w[i]);
            }
        }
        if let Some(n) = least_season(v) {
            if least_season(w) == Some(n) {
                let i = choose|i: int| 0 <= i < w.len() && #[trigger] w[i].number == n;
                assert(v[i].number == n);
            } else {
                assert(v[v.len() - 1].number == n);
            }
        }
    }
}

/// Whether some season has a number.
pub open spec fn has_season(v: Seq<Season>, n: i64) -> bool {
    exists|i: int| 0 <= i < v.len() && (#[trigger] v[i]).number == n
}

/// The season that is shown: the one that was picked where it is there.
pub fn shown_season(picked: Option<i64>, seasons: &Vec<Season>) -> (r: i64)
    ensures
        r == match picked {
            Some(n) => if has_season(seasons@, n) {
                n
            } else {
                opening_season(seasons@)
            },
            None => opening_season(seasons@),
        },
{
    if let Some(n) = picked {
        let mut i: usize = 0;
        while i < seasons.len()
            invariant
                i <= seasons@.len(),
                picked == Some(n),
                forall|j: int| 0 <= j < i ==> (#[trigger] seasons@[j]).number != n,
            decreases seasons@.len() - i,
        {
            if seasons[i].number == n {
                assert(seasons@[i as int].number == n);
                return n;
            }
            i += 1;
        }
    }
    default_season(seasons)
}

// ---- other shows ----

/// How many banners of other shows stand under a show.
pub const BANNER_COUNT: usize = 5;

/// The other shows that have a banner.
pub open spec fn with_banner(v: Seq<ShowSummary>, here: Seq<char>) -> Seq<Seq<char>>
    decreases v.len(),
{
    if v.len() == 0 {
        Seq::empty()
    } else {
        let rest = with_banner(v.drop_last(), here);
        if v.last().has_banner && v.last().id@ != here {
            rest.push(v.last().id@)
        } else {
            rest
        }
    }
}

/// The sum of the bytes of a text.
pub open spec fn byte_sum(b: Seq<u8>) -> nat
    decreases b.len(),
{
    if b.len() == 0 {
        0
    } else {
        byte_sum(b.drop_last()) + b.last() as nat
    }
}

/// The shows whose banners stand under a show: a few that follow one another, and the same
/// ones at every visit.
pub open spec fn companions(v: Seq<ShowSummary>, here: Seq<char>) -> Seq<Seq<char>> {
    let all = with_banner(v, here);
    let seed = byte_sum(vstd::utf8::encode_utf8(here));
    let n = if all.len() < BANNER_COUNT {
        all.len()
    } else {
        BANNER_COUNT as nat
    };
    Seq::new(n, |i: int| all[(seed + i) % all.len() as int])
}

fn candidates(shows: &Vec<ShowSummary>, here: &str) -> (r: Vec<String>)
    ensures
        types::texts(r@) == with_banner(shows@, here@),
{
    let mut out: Vec<String> = Vec::new();
    let mut i: usize = 0;
    assert(types::texts(out@) =~= with_banner(shows@.take(0), here@));
    while i < shows.len()
        invariant
            i <= shows@.len(),
            types::texts(out@) == with_banner(shows@.take(i as int), here@),
        decreases shows@.len() - i,
    {
        let s = &shows[i];
        assert(shows@.take(i + 1).drop_last() =~= shows@.take(i as int));
        if s.has_banner && !(*s.id.as_str() == *here) {
            types::push_text(&mut out, s.id.as_str());
        }
        i += 1;
    }
    assert(shows@.take(i as int) =~= shows@);
    out
}

fn sum_of_bytes(s: &str) -> (r: u128)
    ensures
        r == byte_sum(vstd::utf8::encode_utf8(s@)),
        r <= 255 * usize::MAX as u128,
{
    let bytes = s.as_bytes();
    let mut sum: u128 = 0;
    let mut i: usize = 0;
    let ghost all = bytes@;
    assert(byte_sum(all.take(0)) == 0);
    while i < bytes.len()
        invariant
            i <= bytes@.len(),
            all == bytes@,
            sum == byte_sum(all.take(i as int)),
            sum <= 255 * i,
        decreases bytes@.len() - i,
    {
        assert(all.take(i + 1).drop_last() =~= all.take(i as int));
        sum = sum + bytes[i] as u128;
        i += 1;
    }
    assert(all.take(i as int) =~= all);
    sum
}

/// Other shows that are offered on the page of a show.
pub fn banner_picks(shows: &Vec<ShowSummary>, here: &str) -> (r: Vec<String>)
    ensures
        types::texts(r@) == companions(shows@, here@),
{
    let all = candidates(shows, here);
    let seed: u128 = sum_of_bytes(here);
    let n: usize = if all.len() < BANNER_COUNT {
        all.len()
    } else {
        BANNER_COUNT
    };
    let ghost want = companions(shows@, here@);
    let mut out: Vec<String> = Vec::new();
    let mut i: usize = 0;
    while i < n
        invariant
            i <= n <= all@.len(),
            n <= 5,
            want.len() == n,
            types::texts(all@) == with_banner(shows@, here@),
            seed == byte_sum(vstd::utf8::encode_utf8(here@)),
            seed <= 255 * usize::MAX as u128,
            want == companions(shows@, here@),
            types::texts(out@) == want.take(i as int),
        decreases n - i,
    {
        let k: usize = ((seed + i as u128) % (all.len() as u128)) as usize;
        types::push_text(&mut out, all[k].as_str());
        assert(types::texts(all@)[k as int] == want[i as int]);
        assert(want.take(i + 1) =~= want.take(i as int).push(want[i as int]));
        i += 1;
    }
    assert(want.take(i as int) =~= want);
    out
}

proof fn banner_in(v: Seq<ShowSummary>, here: Seq<char>, k: int)
    requires
        0 <= k < with_banner(v, here).len(),
    ensures
        with_banner(v, here)[k] != here,
        exists|i: int|
            0 <= i < v.len() && (#[trigger] v[i]).has_banner && v[i].id@ == with_banner(v, here)[k],
    decreases v.len(),
{
    let w = v.drop_last();
    if k < with_banner(w, here).len() {
        banner_in(w, here, k);
        let i = choose|i: int|
            0 <= i < w.len() && (#[trigger] w[i]).has_banner && w[i].id@ == with_banner(w, here)[k];
        assert(v[i] == w[i]);
    } else {
        assert(v[v.len() - 1].id@ == with_banner(v, here)[k]);
    }
}

/// Under a show stand only other shows that have a banner.
pub proof fn companions_are_others(v: Seq<ShowSummary>, here: Seq<char>, k: int)
    requires
        0 <= k < companions(v, here).len(),
    ensures
        companions(v, here)[k] != here,
        exists|i: int|
            0 <= i < v.len() && (#[trigger] v[i]).has_banner && v[i].id@ == companions(v, here)[k],
{
    let all = with_banner(v, here);
    let seed = byte_sum(vstd::utf8::encode_utf8(here));
    assert(0 <= (seed + k) % all.len() as int);
    assert((seed + k) % (all.len() as int) < all.len());
    banner_in(v, here, (seed + k) % all.len() as int);
}

// ---- lines under a title ----

/// A season and an episode with two digits each.
pub open spec fn tag_text(season: int, episode: int) -> Seq<char> {
    "S"@ + text::padded_int(season, 2) + "E"@ + text::padded_int(episode, 2)
}

/// The season and the number of an episode, in short.
pub fn episode_tag(season: i64, episode: i64) -> (r: String)
    ensures
        r@ == tag_text(season as int, episode as int),
{
    let mut out = text::own("S");
    text::push_i64_padded(&mut out, season, 2);
    out.push_str("E");
    text::push_i64_padded(&mut out, episode, 2);
    out
}

/// How long something takes.
pub open spec fn runtime_bits(minutes: Option<i64>) -> Seq<Seq<char>> {
    match minutes {
        Some(m) => seq![text::decimal_int(m as int) + " min"@],
        None => Seq::empty(),
    }
}

/// A date, where there is one.
pub open spec fn date_bits(date: Option<Seq<char>>) -> Seq<Seq<char>> {
    match date {
        Some(d) => seq![long_date(d)],
        None => Seq::empty(),
    }
}

/// What is said of a movie or an episode.
pub open spec fn media_bits(
    kind: Seq<char>,
    season: Option<i64>,
    episode: Option<i64>,
    released: Option<Seq<char>>,
    year: Option<i64>,
    minutes: Option<i64>,
) -> Seq<Seq<char>> {
    (if kind == "episode"@ {
        (match (season, episode) {
            (Some(s), Some(e)) => seq![tag_text(s as int, e as int)],
            _ => Seq::empty(),
        }) + date_bits(released)
    } else if released is Some {
        date_bits(released)
    } else {
        match year {
            Some(y) => seq![text::decimal_int(y as int)],
            None => Seq::empty(),
        }
    }) + runtime_bits(minutes)
}

fn push_runtime(bits: &mut Vec<String>, minutes: Option<i64>)
    ensures
        types::texts(final(bits)@) == types::texts(old(bits)@) + runtime_bits(minutes),
{
    let ghost start = types::texts(bits@);
    if let Some(m) = minutes {
        let mut s = text::i64_text(m);
        s.push_str(" min");
        types::push_text(bits, s.as_str());
    }
    assert(types::texts(bits@) =~= start + runtime_bits(minutes));
}

fn push_date(bits: &mut Vec<String>, date: Option<&str>)
    ensures
        types::texts(final(bits)@) == types::texts(old(bits)@) + date_bits(types::opt_str(date)),
{
    let ghost start = types::texts(bits@);
    if let Some(d) = date {
        let s = format_long_date(d);
        types::push_text(bits, s.as_str());
    }
    assert(types::texts(bits@) =~= start + date_bits(types::opt_str(date)));
}

/// The line under the title of a movie or an episode.
pub fn media_line(
    kind: &str,
    season: Option<i64>,
    episode: Option<i64>,
    released: Option<&str>,
    year: Option<i64>,
    minutes: Option<i64>,
) -> (r: String)
    ensures
        r@ == types::join_texts(
            media_bits(kind@, season, episode, types::opt_str(released), year, minutes),
            " · "@,
        ),
{
    let mut bits: Vec<String> = Vec::new();
    assert(types::texts(bits@) =~= Seq::<Seq<char>>::empty());
    if *kind == *"episode" {
        if let (Some(s), Some(e)) = (season, episode) {
            types::push_text(&mut bits, episode_tag(s, e).as_str());
        }
        push_date(&mut bits, released);
    } else if released.is_some() {
        push_date(&mut bits, released);
    } else if let Some(y) = year {
        types::push_text(&mut bits, text::i64_text(y).as_str());
    }
    push_runtime(&mut bits, minutes);
    assert(types::texts(bits@) =~= media_bits(
        kind@,
        season,
        episode,
        types::opt_str(released),
        year,
        minutes,
    ));
    types::join(&bits, " · ")
}

/// The line under the title of an episode in a list.
pub fn episode_line(minutes: Option<i64>, released: Option<&str>) -> (r: String)
    ensures
        r@ == types::join_texts(
            runtime_bits(minutes) + date_bits(types::opt_str(released)),
            " · "@,
        ),
{
    let mut bits: Vec<String> = Vec::new();
    push_runtime(&mut bits, minutes);
    push_date(&mut bits, released);
    assert(types::texts(bits@) =~= runtime_bits(minutes) + date_bits(types::opt_str(released)));
    types::join(&bits, " · ")
}

// ---- how far something was watched ----

/// A bar that is full, in millionths of its length.
pub const FULL_BAR: u32 = 1_000_000;

/// The length of the bar that shows how far something was watched: there is none where it
/// was not begun, or where its running time is unknown.
pub open spec fn bar_length(position: int, duration: int, completed: bool) -> Option<int> {
    if completed {
        Some(FULL_BAR as int)
    } else if position > 0 && duration > 0 {
        Some(
            if position < duration {
                position * FULL_BAR / duration
            } else {
                FULL_BAR as int
            },
        )
    } else {
        None
    }
}

/// The bar that shows how far something was watched, in millionths of its length.
pub fn progress_bar(position_us: i64, duration_us: i64, completed: bool) -> (r: Option<u32>)
    ensures
        match r {
            Some(n) => bar_length(position_us as int, duration_us as int, completed) == Some(
                n as int,
            ),
            None => bar_length(position_us as int, duration_us as int, completed) is None,
        },
{
    if completed {
        return Some(FULL_BAR);
    }
    if position_us <= 0 || duration_us <= 0 {
        return None;
    }
    if position_us >= duration_us {
        return Some(FULL_BAR);
    }
    let position: u128 = position_us as u128;
    assert(position * 1_000_000 <= 0x7fff_ffff_ffff_ffff * 1_000_000) by (nonlinear_arith)
        requires
            position <= 0x7fff_ffff_ffff_ffff,
    ;
    let n: u128 = position * 1_000_000 / duration_us as u128;
    proof {
        let p = position_us as int;
        let d = duration_us as int;
        assert(p * FULL_BAR <= d * FULL_BAR) by (nonlinear_arith)
            requires
                p < d,
        ;
        vstd::arithmetic::div_mod::lemma_div_is_ordered(p * FULL_BAR, FULL_BAR * d, d);
        vstd::arithmetic::div_mod::lemma_div_by_multiple(FULL_BAR as int, d);
    }
    Some(n as u32)
}

/// The bar never grows beyond its length, and never shrinks while more is watched.
pub proof fn bar_grows(position: int, later: int, duration: int, completed: bool)
    requires
        position <= later,
    ensures
        bar_length(position, duration, completed) matches Some(n) ==> {
            &&& 0 <= n <= FULL_BAR
            &&& bar_length(later, duration, completed) matches Some(m) && n <= m
        },
{
    if !completed && 0 < position && 0 < duration {
        assert(0 <= position * FULL_BAR) by (nonlinear_arith)
            requires
                0 < position,
        ;
        vstd::arithmetic::div_mod::lemma_div_pos_is_pos(position * FULL_BAR, duration);
        if later < duration {
            assert(position * FULL_BAR <= later * FULL_BAR) by (nonlinear_arith)
                requires
                    position <= later,
            ;
            vstd::arithmetic::div_mod::lemma_div_is_ordered(
                position * FULL_BAR,
                later * FULL_BAR,
                duration,
            );
        }
        if position < duration {
            assert(position * FULL_BAR <= FULL_BAR * duration) by (nonlinear_arith)
                requires
                    position < duration,
            ;
            vstd::arithmetic::div_mod::lemma_div_is_ordered(
                position * FULL_BAR,
                FULL_BAR * duration,
                duration,
            );
            vstd::arithmetic::div_mod::lemma_div_by_multiple(FULL_BAR as int, duration);
        }
    }
}

/// The picture on a card of something that was begun.
#[derive(Debug, Clone, Copy, PartialEq, Eq, Structural)]
pub enum CardPicture {
    /// The episode's own.
    Still,
    /// The background of the show.
    Backdrop,
    /// The background of the movie, with bars where it does not fit.
    Letterbox,
}

/// Which picture a card of something that was begun has. Among other episodes of its show
/// an episode is told apart by its own.
pub fn card_picture(of_show: bool, on_show_page: bool) -> (r: CardPicture)
    ensures
        r == if !of_show {
            CardPicture::Letterbox
        } else if on_show_page {
            CardPicture::Still
        } else {
            CardPicture::Backdrop
        },
{
    if !of_show {
        CardPicture::Letterbox
    } else if on_show_page {
        CardPicture::Still
    } else {
        CardPicture::Backdrop
    }
}

// ---- lines on cards ----

/// The line under the title on a card: the name of the show, where it leads there, and
/// what follows it.
#[verifier::ext_equal]
pub struct CardLineView {
    pub show: Option<(Seq<char>, Seq<char>)>,
    pub rest: Seq<char>,
}

#[derive(Debug)]
pub struct CardLine {
    /// The id and the title of the show.
    pub show: Option<(String, String)>,
    pub rest: String,
}

impl View for CardLine {
    type V = CardLineView;

    open spec fn view(&self) -> CardLineView {
        CardLineView {
            show: match self.show {
                Some((id, title)) => Some((id@, title@)),
                None => None,
            },
            rest: self.rest@,
        }
    }
}

/// The number of an episode on a card.
pub open spec fn short_tag(season: Option<i64>, episode: Option<i64>) -> Seq<char> {
    "S"@ + text::decimal_int(
        match season {
            Some(s) => s as int,
            None => 0,
        },
    ) + "E"@ + text::decimal_int(
        match episode {
            Some(e) => e as int,
            None => 0,
        },
    )
}

/// The line of a card: the show and number of an episode, or the year of a movie.
pub open spec fn line_of_card(
    show_id: Option<Seq<char>>,
    show_title: Option<Seq<char>>,
    season: Option<i64>,
    episode: Option<i64>,
    year: Option<i64>,
) -> CardLineView {
    match show_id {
        Some(id) => {
            let tag = short_tag(season, episode);
            match show_title {
                Some(t) => if t.len() > 0 {
                    CardLineView { show: Some((id, t)), rest: " · "@ + tag }
                } else {
                    CardLineView { show: None, rest: tag }
                },
                None => CardLineView { show: None, rest: tag },
            }
        },
        None => CardLineView {
            show: None,
            rest: match year {
                Some(y) => text::decimal_int(y as int),
                None => ""@,
            },
        },
    }
}

/// The line under the title on a card.
pub fn card_line(
    show_id: Option<&str>,
    show_title: Option<&str>,
    season: Option<i64>,
    episode: Option<i64>,
    year: Option<i64>,
) -> (r: CardLine)
    ensures
        r@ == line_of_card(
            types::opt_str(show_id),
            types::opt_str(show_title),
            season,
            episode,
            year,
        ),
{
    match show_id {
        Some(id) => {
            let s: i64 = match season {
                Some(n) => n,
                None => 0,
            };
            let e: i64 = match episode {
                Some(n) => n,
                None => 0,
            };
            let mut tag = text::own("S");
            text::push_i64(&mut tag, s);
            tag.push_str("E");
            text::push_i64(&mut tag, e);
            if let Some(t) = show_title {
                let chars = text::chars_of(t);
                if chars.len() > 0 {
                    let mut rest = text::own(" · ");
                    rest.push_str(tag.as_str());
                    return CardLine { show: Some((text::own(id), text::own(t))), rest };
                }
            }
            CardLine { show: None, rest: tag }
        },
        None => CardLine {
            show: None,
            rest: match year {
                Some(y) => text::i64_text(y),
                None => text::own(""),
            },
        },
    }
}

/// The line of a show's card.
pub open spec fn show_card_text(year: Option<i64>, episodes: int) -> Seq<char> {
    (match year {
        Some(y) => text::decimal_int(y as int) + " · "@,
        None => ""@,
    }) + text::decimal_int(episodes) + " eps"@
}

/// The line under the title on the card of a show.
pub fn show_card_line(year: Option<i64>, episodes: i64) -> (r: String)
    ensures
        r@ == show_card_text(year, episodes as int),
{
    let mut out = text::own("");
    if let Some(y) = year {
        out = text::i64_text(y);
        out.push_str(" · ");
    }
    text::push_i64(&mut out, episodes);
    out.push_str(" eps");
    out
}

/// Who made a movie.
pub open spec fn credits_text(director: Option<Seq<char>>, writers: Option<Seq<char>>) -> Option<
    Seq<char>,
> {
    match (director, writers) {
        (Some(d), Some(w)) => Some("Directed by "@ + d + " · "@ + "Written by "@ + w),
        (Some(d), None) => Some("Directed by "@ + d),
        (None, Some(w)) => Some("Written by "@ + w),
        (None, None) => None,
    }
}

/// Who directed and wrote it.
pub fn credits_line(director: Option<&str>, writers: Option<&str>) -> (r: Option<String>)
    ensures
        types::opt_text(r) == credits_text(types::opt_str(director), types::opt_str(writers)),
{
    match (director, writers) {
        (Some(d), Some(w)) => {
            let mut out = text::own("Directed by ");
            out.push_str(d);
            out.push_str(" · ");
            out.push_str("Written by ");
            out.push_str(w);
            Some(out)
        },
        (Some(d), None) => {
            let mut out = text::own("Directed by ");
            out.push_str(d);
            Some(out)
        },
        (None, Some(w)) => {
            let mut out = text::own("Written by ");
            out.push_str(w);
            Some(out)
        },
        (None, None) => None,
    }
}

/// The original title, where it says something that the title does not.
pub fn other_title(title: &str, original: Option<&str>) -> (r: Option<String>)
    ensures
        types::opt_text(r) == match types::opt_str(original) {
            Some(o) => if o != title@ {
                Some(o)
            } else {
                None
            },
            None => None,
        },
{
    match original {
        Some(o) => if *o == *title {
            None
        } else {
            Some(text::own(o))
        },
        None => None,
    }
}

/// What is offered to go on with of a show: the first that belongs to it.
pub open spec fn next_of_show(v: Seq<ContinueItem>, show_id: Seq<char>) -> Option<int>
    decreases v.len(),
{
    if v.len() == 0 {
        None
    } else if types::opt_text(v[0].show_id) == Some(show_id) {
        Some(0)
    } else {
        match next_of_show(v.skip(1), show_id) {
            Some(i) => Some(i + 1),
            None => None,
        }
    }
}

/// What is offered next of a show.
pub fn find_next(items: &Vec<ContinueItem>, show_id: &str) -> (r: Option<usize>)
    ensures
        match r {
            Some(i) => i < items@.len() && next_of_show(items@, show_id@) == Some(i as int),
            None => next_of_show(items@, show_id@) is None,
        },
{
    let mut i: usize = 0;
    assert(items@.skip(0) =~= items@);
    while i < items.len()
        invariant
            i <= items@.len(),
            match next_of_show(items@.skip(i as int), show_id@) {
                Some(k) => next_of_show(items@, show_id@) == Some(i + k),
                None => next_of_show(items@, show_id@) is None,
            },
        decreases items@.len() - i,
    {
        let found = match &items[i].show_id {
            Some(s) => *s.as_str() == *show_id,
            None => false,
        };
        if found {
            return Some(i);
        }
        assert(items@.skip(i as int).skip(1) =~= items@.skip(i + 1));
        i += 1;
    }
    None
}

/// The title of the window.
pub fn page_title(title: Option<&str>) -> (r: String)
    ensures
        r@ == match title {
            Some(t) => t@ + " — Binkflix"@,
            None => "Binkflix"@,
        },
{
    match title {
        Some(t) => {
            let mut out = text::own(t);
            out.push_str(" — Binkflix");
            out
        },
        None => text::own("Binkflix"),
    }
}

/// Where the player leads back to.
#[derive(Debug)]
pub enum Back {
    Home,
    Show(String),
    Media(String),
}

/// From an episode back to its show, from all else to the page of the thing itself.
pub fn back_route(id: &str, kind: Option<&str>, show_id: Option<&str>) -> (r: Back)
    ensures
        match r {
            Back::Show(s) => types::opt_str(kind) == Some("episode"@) && types::opt_str(show_id)
                == Some(s@),
            Back::Home => types::opt_str(kind) == Some("episode"@) && show_id is None,
            Back::Media(m) => types::opt_str(kind) != Some("episode"@) && m@ == id@,
        },
{
    let is_episode = match kind {
        Some(k) => *k == *"episode",
        None => false,
    };
    if is_episode {
        match show_id {
            Some(s) => Back::Show(text::own(s)),
            None => Back::Home,
        }
    } else {
        Back::Media(text::own(id))
    }
}

// ---- the scan button ----

/// What the button says of a scan.
pub open spec fn button_label(running: bool, phase: Seq<char>, done: nat, total: nat) -> Seq<char> {
    if !running {
        "Rescan"@
    } else if total > 0 {
        "Scanning "@ + text::decimal(done) + "/"@ + text::decimal(total)
    } else {
        "Scanning — "@ + phase
    }
}

/// What the scan button says.
pub fn scan_label(p: &ScanProgress) -> (r: String)
    ensures
        r@ == button_label(p.running, p.phase@, p.done as nat, p.total as nat),
{
    if !p.running {
        return text::own("Rescan");
    }
    if p.total > 0 {
        let mut out = text::own("Scanning ");
        text::push_u64(&mut out, p.done as u64);
        out.push_str("/");
        text::push_u64(&mut out, p.total as u64);
        out
    } else {
        let mut out = text::own("Scanning — ");
        out.push_str(p.phase.as_str());
        out
    }
}

/// What a click on the scan button does: whether its menu is open afterwards, and whether a
/// scan starts. One starts with the menu, unless one is running.
pub fn rescan_clicked(running: bool, was_open: bool) -> (r: (bool, bool))
    ensures
        r.0 == !was_open,
        r.1 == (!running && !was_open),
{
    (!was_open, !running && !was_open)
}

/// The picture of a scan that was just asked for, until the server says more.
pub fn scan_asked(p: ScanProgress) -> (r: ScanProgress)
    ensures
        r.running && r.phase@ == "starting"@,
        r.done == 0 && r.total == 0,
        r.current is None && r.message is None,
        r.last_finished_at == p.last_finished_at && r.last_summary == p.last_summary,
        r.last_elapsed_ms == p.last_elapsed_ms && r.active == p.active,
{
    ScanProgress {
        running: true,
        phase: text::own("starting"),
        done: 0,
        total: 0,
        current: None,
        message: None,
        last_finished_at: p.last_finished_at,
        last_summary: p.last_summary,
        last_elapsed_ms: p.last_elapsed_ms,
        active: p.active,
    }
}

/// How many of a hundred parts are done, a hundred at most.
pub open spec fn percent_done(done: int, total: int) -> int {
    if done * 100 / total > 100 {
        100
    } else {
        done * 100 / total
    }
}

/// How much of a scan is done, in percent; unknown until the total is known.
pub fn scan_percent(done: u64, total: u64) -> (r: Option<u32>)
    ensures
        match r {
            Some(p) => total > 0 && p == percent_done(done as int, total as int),
            None => total == 0,
        },
{
    if total == 0 {
        return None;
    }
    let p: u128 = (done as u128 * 100) / total as u128;
    if p > 100 {
        Some(100)
    } else {
        Some(p as u32)
    }
}

/// The heading of the scan's menu.
pub open spec fn heading_of(running: bool, phase: Seq<char>) -> Seq<char> {
    if !running {
        "Library scan"@
    } else if phase == "indexing"@ {
        "Indexing library…"@
    } else if phase == "subtitles"@ {
        "Extracting subtitles…"@
    } else if phase == "thumbnails"@ {
        "Extracting thumbnails…"@
    } else if phase == "trickplay"@ {
        "Building trickplay…"@
    } else if phase == "saving"@ {
        "Saving metadata…"@
    } else if phase == "assets"@ {
        "Extracting assets…"@
    } else {
        "Scanning…"@
    }
}

/// The heading of the scan menu.
pub fn scan_heading(running: bool, phase: &str) -> (r: &'static str)
    ensures
        r@ == heading_of(running, phase@),
{
    if !running {
        "Library scan"
    } else if *phase == *"indexing" {
        "Indexing library…"
    } else if *phase == *"subtitles" {
        "Extracting subtitles…"
    } else if *phase == *"thumbnails" {
        "Extracting thumbnails…"
    } else if *phase == *"trickplay" {
        "Building trickplay…"
    } else if *phase == *"saving" {
        "Saving metadata…"
    } else if *phase == *"assets" {
        "Extracting assets…"
    } else {
        "Scanning…"
    }
}

/// How far a running scan has come.
pub open spec fn counter_text(done: nat, total: nat) -> Seq<char> {
    if total > 0 {
        text::decimal(done) + " / "@ + text::decimal(total)
    } else if done > 0 {
        "Discovering — "@ + text::decimal(done) + " files found"@
    } else {
        "Starting…"@
    }
}

/// How far a scan has come.
pub fn scan_counter(done: u64, total: u64) -> (r: String)
    ensures
        r@ == counter_text(done as nat, total as nat),
{
    if total > 0 {
        let mut out = text::u64_text(done);
        out.push_str(" / ");
        text::push_u64(&mut out, total);
        out
    } else if done > 0 {
        let mut out = text::own("Discovering — ");
        text::push_u64(&mut out, done);
        out.push_str(" files found");
        out
    } else {
        text::own("Starting…")
    }
}

/// For how many milliseconds the page waits, and whether it then asks how the scan goes:
/// often while one is running, now and then while the menu is open, else not at all.
pub fn scan_poll(running: bool, menu_open: bool) -> (r: (u32, bool))
    ensures
        r == if running {
            (500u32, true)
        } else if menu_open {
            (2000u32, true)
        } else {
            (1500u32, false)
        },
{
    if running {
        (500, true)
    } else if menu_open {
        (2000, true)
    } else {
        (1500, false)
    }
}

// ---- the search page ----

fn is_empty(s: &str) -> (r: bool)
    ensures
        r == (s@.len() == 0),
{
    let v = text::chars_of(s);
    v.len() == 0
}

/// How many of the search page's filters are set.
pub open spec fn set_filters(
    kind: Seq<char>,
    year_min: bool,
    year_max: bool,
    genres: nat,
    watched: Seq<char>,
    sort: Seq<char>,
) -> nat {
    (if kind.len() > 0 {
        1nat
    } else {
        0
    }) + (if year_min {
        1nat
    } else {
        0
    }) + (if year_max {
        1nat
    } else {
        0
    }) + (if genres > 0 {
        1nat
    } else {
        0
    }) + (if watched != "any"@ {
        1nat
    } else {
        0
    }) + (if sort != "title"@ {
        1nat
    } else {
        0
    })
}

/// How many filters are set.
pub fn active_filters(
    kind: &str,
    year_min: Option<i64>,
    year_max: Option<i64>,
    genres: &Vec<String>,
    watched: &str,
    sort: &str,
) -> (r: u32)
    ensures
        r == set_filters(
            kind@,
            year_min is Some,
            year_max is Some,
            genres@.len(),
            watched@,
            sort@,
        ),
{
    let mut n: u32 = 0;
    if !is_empty(kind) {
        n += 1;
    }
    if year_min.is_some() {
        n += 1;
    }
    if year_max.is_some() {
        n += 1;
    }
    if genres.len() > 0 {
        n += 1;
    }
    if !(*watched == *"any") {
        n += 1;
    }
    if !(*sort == *"title") {
        n += 1;
    }
    n
}

/// What a year's box holds.
pub fn year_box(typed: &str) -> (r: Option<i64>)
    ensures
        match r {
            Some(n) => text::signed_value(text::trimmed(typed@)) == Some(n as int),
            None => text::signed_value(text::trimmed(typed@)) is None,
        },
{
    text::parse_i64(text::trim(typed).as_str())
}

/// What is said where nothing was found.
pub fn nothing_found(query: &str, filters: u32) -> (r: &'static str)
    ensures
        r@ == if text::trimmed(query@).len() == 0 && filters == 0 {
            "Start typing or open Filters to browse the library."@
        } else {
            "No matches."@
        },
{
    if is_empty(text::trim(query).as_str()) && filters == 0 {
        "Start typing or open Filters to browse the library."
    } else {
        "No matches."
    }
}

/// The index of the first text that equals `s`; the length where there is none.
pub open spec fn index_of_text(v: Seq<Seq<char>>, s: Seq<char>) -> int
    decreases v.len(),
{
    if v.len() == 0 {
        0
    } else if v[0] == s {
        0
    } else {
        1 + index_of_text(v.skip(1), s)
    }
}

/// The chosen genres after one was clicked: it goes where it was chosen, else it comes
/// last.
pub open spec fn toggled(v: Seq<Seq<char>>, s: Seq<char>) -> Seq<Seq<char>> {
    let i = index_of_text(v, s);
    if i < v.len() {
        v.remove(i)
    } else {
        v.push(s)
    }
}

/// Adds a genre, or takes it out where it is there.
pub fn toggle_genre(genres: &mut Vec<String>, genre: &str)
    ensures
        types::texts(final(genres)@) == toggled(types::texts(old(genres)@), genre@),
{
    let ghost all = types::texts(genres@);
    let mut i: usize = 0;
    assert(all.skip(0) =~= all);
    while i < genres.len() && !(*genres[i].as_str() == *genre)
        invariant
            i <= genres@.len(),
            all == types::texts(genres@),
            index_of_text(all, genre@) == i + index_of_text(all.skip(i as int), genre@),
        decreases genres@.len() - i,
    {
        assert(all.skip(i as int).skip(1) =~= all.skip(i + 1));
        i += 1;
    }
    if i < genres.len() {
        assert(all.skip(i as int)[0] == genre@);
        let _gone = genres.remove(i);
        assert(types::texts(genres@) =~= all.remove(i as int));
    } else {
        types::push_text(genres, genre);
    }
}

proof fn index_bounds(v: Seq<Seq<char>>, s: Seq<char>)
    ensures
        0 <= index_of_text(v, s) <= v.len(),
        !v.contains(s) ==> index_of_text(v, s) == v.len(),
    decreases v.len(),
{
    if v.len() > 0 && v[0] != s {
        index_bounds(v.skip(1), s);
        if !v.contains(s) {
            assert forall|k: int| 0 <= k < v.skip(1).len() implies v.skip(1)[k] != s by {
                assert(v.skip(1)[k] == v[k + 1]);
            }
        }
    } else if v.len() > 0 {
        assert(v.contains(s));
    }
}

/// Clicking a genre that is not chosen twice changes nothing.
pub proof fn toggled_twice(v: Seq<Seq<char>>, s: Seq<char>)
    requires
        !v.contains(s),
    ensures
        toggled(toggled(v, s), s) == v,
{
    index_bounds(v, s);
    let w = toggled(v, s);
    assert(w == v.push(s));
    pushed_index(v, s);
    assert(w.remove(v.len() as int) =~= v);
}

proof fn pushed_index(v: Seq<Seq<char>>, s: Seq<char>)
    requires
        !v.contains(s),
    ensures
        index_of_text(v.push(s), s) == v.len(),
    decreases v.len(),
{
    if v.len() > 0 {
        assert(v.contains(v[0]));
        assert forall|k: int| 0 <= k < v.skip(1).len() implies v.skip(1)[k] != s by {
            assert(v.skip(1)[k] == v[k + 1]);
            assert(v.contains(v[k + 1]));
        }
        pushed_index(v.skip(1), s);
        assert(v.push(s).skip(1) =~= v.skip(1).push(s));
    }
}

// ---- menus and themes ----

/// The menu that is open after one was clicked: none where it was open already.
pub fn toggle_menu(open: Option<&'static str>, menu: &'static str) -> (r: Option<&'static str>)
    ensures
        types::opt_str(r) == if types::opt_str(open) == Some(menu@) {
            None
        } else {
            Some(menu@)
        },
{
    match open {
        Some(m) => if *m == *menu {
            None
        } else {
            Some(menu)
        },
        None => Some(menu),
    }
}

/// The themes and their names.
pub open spec fn theme_names() -> Seq<(Seq<char>, Seq<char>)> {
    seq![
        ("default"@, "Default (dark)"@),
        ("classic-light"@, "Classic light"@),
        ("terminal"@, "Terminal"@),
        ("material"@, "Material"@),
        ("elegantfin"@, "ElegantFin"@),
    ]
}

pub open spec fn pair_views(v: Seq<(&'static str, &'static str)>) -> Seq<(Seq<char>, Seq<char>)> {
    v.map_values(|p: (&'static str, &'static str)| (p.0@, p.1@))
}

/// The themes, each with the name that is shown.
pub fn themes() -> (r: Vec<(&'static str, &'static str)>)
    ensures
        pair_views(r@) == theme_names(),
{
    let mut v: Vec<(&'static str, &'static str)> = Vec::new();
    v.push(("default", "Default (dark)"));
    v.push(("classic-light", "Classic light"));
    v.push(("terminal", "Terminal"));
    v.push(("material", "Material"));
    v.push(("elegantfin", "ElegantFin"));
    assert(pair_views(v@) =~= theme_names());
    v
}

// ---- further laws ----

/// A span of a minute or more is shown in whole minutes and seconds; a shorter one of a second
/// or more in tenths of seconds, exactly where it has no more.
pub proof fn spans_are_shown_in_their_units(minutes: nat, secs: nat, ms: nat, tenths: nat)
    requires
        secs < 60,
        ms < 1000,
        10 <= tenths < 600,
    ensures
        minutes >= 1 ==> elapsed_text((minutes * 60 + secs) * 1000 + ms) == text::decimal(minutes)
            + "m "@ + text::decimal(secs) + "s"@,
        elapsed_text(tenths * 100) == numbers::tenths_text(tenths) + "s"@,
        elapsed_text(ms) == text::decimal(ms) + "ms"@,
{
    let total = minutes * 60 + secs;
    let t = total * 1000 + ms;
    assert(t / 1000 == total);
    assert(total / 60 == minutes);
    assert(total % 60 == secs);
    numbers::short_fractions_are_exact(tenths, 100, 10);
}

/// Votes are shown in full below a thousand, then in thousands and in millions, exactly where
/// they are round.
pub proof fn votes_are_shown_in_short(n: nat, hundreds: nat, thousands: nat)
    requires
        n < 1000,
        10 <= hundreds < 100,
        10 <= thousands < 1000,
    ensures
        votes_text(n as int) == text::decimal(n),
        votes_text((hundreds * 100) as int) == numbers::tenths_text(hundreds) + "k"@,
        votes_text((thousands * 1000) as int) == text::decimal(thousands) + "k"@,
        votes_text((hundreds * 100_000) as int) == numbers::tenths_text(hundreds) + "M"@,
{
    numbers::short_fractions_are_exact(hundreds, 100, 10);
    numbers::short_fractions_are_exact(thousands, 1000, 1);
    numbers::short_fractions_are_exact(hundreds, 100_000, 10);
    assert(numbers::coarse(hundreds * 100_000) == hundreds * 100_000);
}

/// Sizes are shown in units of 1024, with one decimal place, and two for the largest.
pub proof fn sizes_are_shown_in_their_units(n: nat)
    requires
        1 <= n < 1024,
    ensures
        bytes_text(n as int) == text::decimal(n) + " B"@,
        bytes_text((n * 0x400) as int) == numbers::tenths_text(10 * n) + " KB"@,
        bytes_text((n * 0x10_0000) as int) == numbers::tenths_text(10 * n) + " MB"@,
        bytes_text((n * 0x4000_0000) as int) == numbers::hundredths_text(100 * n) + " GB"@,
        bytes_text(-(n as int)) == "0 B"@,
{
    numbers::whole_quotients_stay(10 * n, 0x400);
    numbers::whole_quotients_stay(10 * n, 0x10_0000);
    numbers::whole_quotients_stay(100 * n, 0x4000_0000);
    assert(numbers::coarse(n * 0x400) == n * 0x400);
    assert(numbers::coarse(n * 0x10_0000) == n * 0x10_0000);
    assert(numbers::coarse(n * 0x4000_0000) == n * 0x4000_0000);
}

/// A rating is shown in tenths, exactly where it has no more.
pub proof fn ratings_are_shown_in_tenths(tenths: nat)
    requires
        1 <= tenths < 1000,
    ensures
        rating_text((tenths * 100_000) as int) == numbers::tenths_text(tenths),
        rating_text(-((tenths * 100_000) as int)) == "-"@ + numbers::tenths_text(tenths),
{
    numbers::short_fractions_are_exact(tenths, 100_000, 10);
}

/// A date of year, month and day is shown with the month's name; the year stays as it is
/// written.
pub proof fn dates_are_shown_in_words(year: Seq<char>, month: Seq<char>, day: Seq<char>)
    requires
        !year.contains('-'),
        i32_value(year) is Some,
        month.len() > 0 && text::all_digits(month),
        1 <= text::digits_value(month) <= 12,
        day.len() > 0 && text::all_digits(day),
        text::digits_value(day) <= u32::MAX,
    ensures
        date_parts(year + seq!['-'] + month + seq!['-'] + day) == Some((year, month, day)),
        long_date(year + seq!['-'] + month + seq!['-'] + day) == month_name(
            text::digits_value(month) as int,
        ) + " "@ + text::decimal(text::digits_value(day)) + ", "@ + year,
{
    let s = year + seq!['-'] + month + seq!['-'] + day;
    let rest = month + seq!['-'] + day;
    assert forall|i: int| 0 <= i < year.len() implies #[trigger] s[i] != '-' by {
        assert(year.contains(year[i]));
        assert(s[i] == year[i]);
    }
    text::first_index_is(s, '-', year.len() as int);
    assert(s.take(year.len() as int) =~= year);
    assert(s.skip(year.len() + 1int) =~= rest);
    assert forall|i: int| 0 <= i < month.len() implies #[trigger] rest[i] != '-' by {
        assert(text::is_digit(month[i]));
        assert(rest[i] == month[i]);
    }
    text::first_index_is(rest, '-', month.len() as int);
    assert(rest.take(month.len() as int) =~= month);
    assert(rest.skip(month.len() + 1int) =~= day);
    assert(text::is_digit(month[0]) && text::is_digit(day[0]));
}

/// The year of a date is what its first four digits say.
pub proof fn dates_start_with_their_year(digits: Seq<char>, rest: Seq<char>)
    requires
        digits.len() == 4,
        text::all_digits(digits),
    ensures
        year_of(digits + rest) == i32_value(digits),
{
    let s = digits + rest;
    assert forall|i: int| 0 <= i < 4 implies text::is_ascii_char(#[trigger] s[i]) by {
        assert(s[i] == digits[i]);
        assert(text::is_digit(digits[i]));
    }
    text::ascii_prefix_is_by_character(s, 4);
    assert(s.take(4) =~= digits);
}

/// A show that ended in a later year than it began is shown with both years; any other only
/// with the first.
pub proof fn years_of_a_show(premiered: Seq<char>, ended: Seq<char>, start: int, end: int, year: Option<i64>)
    requires
        year_of(premiered) == Some(start),
        year_of(ended) == Some(end),
    ensures
        end > start ==> show_years(Some(premiered), year, Some(ended)) == text::decimal_int(start)
            + " – "@ + text::decimal_int(end),
        end <= start ==> show_years(Some(premiered), year, Some(ended)) == text::decimal_int(start),
        show_years(Some(premiered), year, None) == text::decimal_int(start),
        year matches Some(y) ==> show_years(None, year, None) == text::decimal_int(y as int),
        show_years(None, None, Some(ended)) == ""@,
{
}

/// The other shows with a banner are all those, in their order.
pub proof fn banners_are_those_of_others(v: Seq<ShowSummary>, here: Seq<char>)
    ensures
        with_banner(v, here) == v.filter(
            |s: ShowSummary| s.has_banner && s.id@ != here,
        ).map_values(|s: ShowSummary| s.id@),
    decreases v.len(),
{
    reveal(Seq::filter);
    let f = |s: ShowSummary| s.has_banner && s.id@ != here;
    let g = |s: ShowSummary| s.id@;
    if v.len() > 0 {
        banners_are_those_of_others(v.drop_last(), here);
        assert(with_banner(v, here) =~= v.filter(f).map_values(g));
    } else {
        assert(with_banner(v, here) =~= v.filter(f).map_values(g));
    }
}

/// At most five banners are shown, and all where there are no more.
pub proof fn five_banners_at_most(v: Seq<ShowSummary>, here: Seq<char>)
    ensures
        companions(v, here).len() <= 5,
        with_banner(v, here).len() <= 5 ==> companions(v, here).len() == with_banner(v, here).len(),
        with_banner(v, here).len() > 5 ==> companions(v, here).len() == 5,
{
}

/// The bar is as long as the part that was watched, in millionths and rounded down; full where
/// all was watched, and none where nothing was.
pub proof fn bar_is_the_part_watched(position: int, duration: int)
    ensures
        bar_length(position, duration, true) == Some(1_000_000int),
        position <= 0 || duration <= 0 ==> bar_length(position, duration, false) is None,
        0 < position && duration > 0 && position >= duration ==> bar_length(
            position,
            duration,
            false,
        ) == Some(1_000_000int),
        0 < position < duration ==> {
            let n = bar_length(position, duration, false)->0;
            &&& bar_length(position, duration, false) is Some
            &&& n * duration <= position * 1_000_000
            &&& position * 1_000_000 < (n + 1) * duration
        },
{
    if 0 < position < duration {
        let x = position * 1_000_000;
        vstd::arithmetic::div_mod::lemma_fundamental_div_mod(x, duration);
        vstd::arithmetic::div_mod::lemma_mod_bound(x, duration);
        let n = x / duration;
        assert(duration * n == n * duration) by (nonlinear_arith);
        assert((n + 1) * duration == n * duration + duration) by (nonlinear_arith);
    }
}

/// What is offered of a show is the first that belongs to it.
pub proof fn first_of_the_show_is_offered(v: Seq<ContinueItem>, show_id: Seq<char>)
    ensures
        match next_of_show(v, show_id) {
            Some(i) => 0 <= i < v.len() && types::opt_text(v[i].show_id) == Some(show_id)
                && forall|j: int|
                0 <= j < i ==> types::opt_text((#[trigger] v[j]).show_id) != Some(show_id),
            None => forall|j: int|
                0 <= j < v.len() ==> types::opt_text((#[trigger] v[j]).show_id) != Some(show_id),
        },
    decreases v.len(),
{
    if v.len() > 0 && types::opt_text(v[0].show_id) != Some(show_id) {
        let w = v.skip(1);
        first_of_the_show_is_offered(w, show_id);
        match next_of_show(v, show_id) {
            Some(i) => {
                assert(v[i] == w[i - 1]);
                assert forall|j: int| 0 <= j < i implies types::opt_text((#[trigger] v[j]).show_id)
                    != Some(show_id) by {
                    if j > 0 {
                        assert(v[j] == w[j - 1]);
                    }
                }
            },
            None => {
                assert forall|j: int| 0 <= j < v.len() implies types::opt_text(
                    (#[trigger] v[j]).show_id,
                ) != Some(show_id) by {
                    if j > 0 {
                        assert(v[j] == w[j - 1]);
                    }
                }
            },
        }
    }
}

/// A click on a genre changes only whether that one is chosen.
pub proof fn clicks_change_one_genre(v: Seq<Seq<char>>, s: Seq<char>, other: Seq<char>)
    requires
        v.no_duplicates(),
        other != s,
    ensures
        toggled(v, s).contains(s) == !v.contains(s),
        toggled(v, s).contains(other) == v.contains(other),
{
    found_index(v, s);
    let i = index_of_text(v, s);
    let t = toggled(v, s);
    if i < v.len() {
        assert(v[i] == s);
        assert(v.contains(s));
        if t.contains(s) {
            let k = choose|k: int| 0 <= k < t.len() && t[k] == s;
            if k < i {
                assert(v[k] == s);
            } else {
                assert(v[k + 1] == s);
            }
        }
        if v.contains(other) {
            let k = choose|k: int| 0 <= k < v.len() && v[k] == other;
            if k < i {
                assert(t[k] == other);
            } else {
                assert(t[k - 1] == other);
            }
        }
        if t.contains(other) {
            let k = choose|k: int| 0 <= k < t.len() && t[k] == other;
            if k < i {
                assert(v[k] == other);
            } else {
                assert(v[k + 1] == other);
            }
        }
    } else {
        assert(t[v.len() as int] == s);
        if v.contains(other) {
            let k = choose|k: int| 0 <= k < v.len() && v[k] == other;
            assert(t[k] == other);
        }
        if t.contains(other) {
            let k = choose|k: int| 0 <= k < t.len() && t[k] == other;
            assert(v[k] == other);
        }
    }
}

proof fn found_index(v: Seq<Seq<char>>, s: Seq<char>)
    ensures
        0 <= index_of_text(v, s) <= v.len(),
        index_of_text(v, s) < v.len() ==> v[index_of_text(v, s)] == s,
        index_of_text(v, s) == v.len() ==> !v.contains(s),
    decreases v.len(),
{
    if v.len() > 0 && v[0] != s {
        let w = v.skip(1);
        found_index(w, s);
        if v.contains(s) {
            let k = choose|k: int| 0 <= k < v.len() && v[k] == s;
            assert(w[k - 1] == s);
            assert(w.contains(s));
        }
    }
}

/// What is done of a scan is shown in whole percent: it grows with what is done, is a hundred
/// where all is done, and never more.
pub proof fn percent_grow_to_a_hundred(a: int, b: int, total: int)
    requires
        0 <= a <= b,
        total > 0,
    ensures
        0 <= percent_done(a, total) <= percent_done(b, total) <= 100,
        a >= total ==> percent_done(a, total) == 100,
        a <= total ==> percent_done(a, total) * total <= a * 100 < (percent_done(a, total) + 1)
            * total,
{
    let x = a * 100;
    let y = b * 100;
    let p = x / total;
    let q = y / total;
    assert(p * total <= x < (p + 1) * total && q * total <= y < (q + 1) * total && 0 <= p <= q)
        by (nonlinear_arith)
        requires
            p == x / total,
            q == y / total,
            0 <= x <= y,
            total > 0,
    ;
    if a >= total {
        assert(p >= 100) by (nonlinear_arith)
            requires
                x >= total * 100,
                x < (p + 1) * total,
                total > 0,
        ;
    }
    if a <= total {
        assert(p <= 100) by (nonlinear_arith)
            requires
                x <= total * 100,
                p * total <= x,
                total > 0,
        ;
    }
}

/// A card of an episode names its show, where it is known, before its number in the show; a
/// card of anything else shows the year alone.
pub proof fn cards_name_the_show_first(
    id: Seq<char>,
    title: Seq<char>,
    season: i64,
    episode: i64,
    year: Option<i64>,
)
    ensures
        ({
            let tag = "S"@ + text::decimal_int(season as int) + "E"@ + text::decimal_int(
                episode as int,
            );
            let c = line_of_card(Some(id), Some(title), Some(season), Some(episode), year);
            let untitled = line_of_card(Some(id), None, Some(season), Some(episode), year);
            let single = line_of_card(None, Some(title), Some(season), Some(episode), year);
            &&& title.len() > 0 ==> c.show == Some((id, title)) && c.rest == " · "@ + tag
            &&& title.len() == 0 ==> c.show is None && c.rest == tag
            &&& untitled.show is None && untitled.rest == tag
            &&& single.show is None
            &&& year matches Some(y) ==> single.rest == text::decimal_int(y as int)
            &&& year is None ==> single.rest.len() == 0
        }),
{
    reveal_strlit("");
}

/// Season zero holds the specials; every other season is named by its number, so that no two
/// are named alike.
pub proof fn seasons_are_named_apart(a: nat, b: nat)
    ensures
        season_name(0) == "Specials"@,
        a > 0 ==> season_name(a as int) == "Season "@ + text::decimal(a),
        season_name(a as int) == season_name(b as int) ==> a == b,
{
    reveal_strlit("Season ");
    reveal_strlit("Specials");
    if a > 0 && b > 0 && season_name(a as int) == season_name(b as int) {
        let x = text::decimal(a);
        let y = text::decimal(b);
        assert(("Season "@ + x).skip(7) =~= x);
        assert(("Season "@ + y).skip(7) =~= y);
        text::decimal_roundtrip(a);
        text::decimal_roundtrip(b);
    }
    if a > 0 {
        assert(season_name(a as int)[1] == 'e');
    }
    if b > 0 {
        assert(season_name(b as int)[1] == 'e');
    }
    assert("Specials"@[1] == 'p');
}

/// The button offers a scan where none runs, and otherwise tells how far the scan has come, or
/// what it does where nothing is counted yet.
pub proof fn button_tells_how_far(phase: Seq<char>, done: nat, total: nat)
    ensures
        button_label(false, phase, done, total) == "Rescan"@,
        total > 0 ==> button_label(true, phase, done, total) == "Scanning "@ + text::decimal(done)
            + "/"@ + text::decimal(total),
        button_label(true, phase, done, 0) == "Scanning — "@ + phase,
{
}

/// Nothing is counted as set where nothing was chosen, and each choice counts once.
pub proof fn every_choice_counts_once(
    kind: Seq<char>,
    year_min: bool,
    year_max: bool,
    genres: nat,
    watched: Seq<char>,
    sort: Seq<char>,
)
    ensures
        set_filters(""@, false, false, 0, "any"@, "title"@) == 0,
        kind.len() > 0 ==> set_filters(kind, year_min, year_max, genres, watched, sort)
            == set_filters(""@, year_min, year_max, genres, watched, sort) + 1,
        set_filters(kind, true, year_max, genres, watched, sort) == set_filters(
            kind,
            false,
            year_max,
            genres,
            watched,
            sort,
        ) + 1,
        set_filters(kind, year_min, true, genres, watched, sort) == set_filters(
            kind,
            year_min,
            false,
            genres,
            watched,
            sort,
        ) + 1,
        genres > 0 ==> set_filters(kind, year_min, year_max, genres, watched, sort) == set_filters(
            kind,
            year_min,
            year_max,
            0,
            watched,
            sort,
        ) + 1,
        watched != "any"@ ==> set_filters(kind, year_min, year_max, genres, watched, sort)
            == set_filters(kind, year_min, year_max, genres, "any"@, sort) + 1,
        sort != "title"@ ==> set_filters(kind, year_min, year_max, genres, watched, sort)
            == set_filters(kind, year_min, year_max, genres, watched, "title"@) + 1,
{
    reveal_strlit("");
}

/// The facts about an episode start with its number; those about anything else with the day
/// on which it came out, or the year where that is all that is known.
pub proof fn facts_start_with_the_number(
    kind: Seq<char>,
    season: i64,
    episode: i64,
    released: Option<Seq<char>>,
    year: Option<i64>,
    minutes: Option<i64>,
)
    ensures
        media_bits("episode"@, Some(season), Some(episode), released, year, minutes)[0]
            == tag_text(season as int, episode as int),
        kind != "episode"@ ==> (released matches Some(d) ==> media_bits(
            kind,
            Some(season),
            Some(episode),
            released,
            year,
            minutes,
        )[0] == long_date(d)),
        kind != "episode"@ && released is None ==> (year matches Some(y) ==> media_bits(
            kind,
            Some(season),
            Some(episode),
            released,
            year,
            minutes,
        )[0] == text::decimal_int(y as int)),
        minutes matches Some(m) ==> media_bits(
            kind,
            Some(season),
            Some(episode),
            released,
            year,
            minutes,
        ).last() == text::decimal_int(m as int) + " min"@,
{
}

/// A scan shows what is done of what there is; before that is known, what was found.
pub proof fn counts_are_shown(done: nat, total: nat)
    ensures
        total > 0 ==> counter_text(done, total) == text::decimal(done) + " / "@ + text::decimal(
            total,
        ),
        done > 0 ==> counter_text(done, 0) == "Discovering — "@ + text::decimal(done)
            + " files found"@,
        counter_text(0, 0) == "Starting…"@,
{
}

/// A printed number is taken where it fits in thirty-two bits, and no other.
pub proof fn small_numbers_are_taken(n: nat)
    ensures
        n <= 2_147_483_647 ==> i32_value(text::decimal(n)) == Some(n as int),
        n > 2_147_483_647 && n <= u64::MAX ==> i32_value(text::decimal(n)) is None,
{
    text::decimal_roundtrip(n);
    assert(text::is_digit(text::decimal(n)[0]));
}

/// There are five themes to choose from, each under a word of its own, the dark one first.
pub proof fn themes_are_told_apart(i: int, j: int)
    requires
        0 <= i < theme_names().len(),
        0 <= j < theme_names().len(),
    ensures
        theme_names().len() == 5,
        theme_names()[0].0 == "default"@,
        i != j ==> theme_names()[i].0 != theme_names()[j].0,
{
    reveal_strlit("default");
    reveal_strlit("classic-light");
    reveal_strlit("terminal");
    reveal_strlit("material");
    reveal_strlit("elegantfin");
    assert("default"@[0] == 'd');
    assert("classic-light"@[0] == 'c');
    assert("terminal"@[0] == 't');
    assert("material"@[0] == 'm');
    assert("elegantfin"@[0] == 'e');
}

} // verus!
