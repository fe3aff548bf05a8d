//! Preview images: small frames of a video at even intervals, packed into one picture.

use crate::text;
use crate::types::{push_pair, push_text};
use crate::types;
use vstd::prelude::*;

verus! {

/// Seconds between two frames.
pub const INTERVAL_S: u32 = 10;

pub const TILE_W: u32 = 240;

pub const TILE_H: u32 = 135;

/// Blank pixels between two frames.
pub const TILE_PADDING: u32 = 4;

/// Videos that are shorter get no previews.
pub const MIN_DURATION_US: u64 = 30_000_000;

/// The most frames that a picture holds; for longer videos the interval grows.
pub const MAX_TILES: u32 = 720;

/// How the frames lie in the picture.
#[derive(Debug, Clone, Copy, PartialEq, Eq, Structural)]
pub struct TrickplayManifest {
    pub interval: u32,
    pub tile_w: u32,
    pub tile_h: u32,
    pub padding: u32,
    pub cols: u32,
    pub rows: u32,
    pub count: u32,
}

/// `a` divided by `b`, rounded up.
pub open spec fn ceil_div(a: int, b: int) -> int {
    (a + b - 1) / b
}

/// The longest video that has an interval in whole seconds that a number can hold.
pub const LONGEST_US: u64 = 3_000_000_000_000_000_000;

/// Seconds between two frames, and how many frames there are.
pub open spec fn sampling(us: int) -> (int, int) {
    let plain = ceil_div(us, INTERVAL_S * 1_000_000);
    if plain > MAX_TILES {
        let interval = ceil_div(us, MAX_TILES * 1_000_000);
        (interval, ceil_div(us, interval * 1_000_000))
    } else {
        (INTERVAL_S as int, plain)
    }
}

/// The least number whose square is `n` or more.
pub open spec fn is_root_up(c: int, n: int) -> bool {
    c >= 1 && c * c >= n && (c - 1) * (c - 1) < n
}

fn root_up(n: u32) -> (r: u32)
    requires
        1 <= n <= MAX_TILES,
    ensures
        is_root_up(r as int, n as int),
        r <= 27,
{
    let mut c: u32 = 1;
    let mut square: u32 = 1;
    while square < n
        invariant
            1 <= c <= 27,
            1 <= n <= MAX_TILES,
            square == c * c,
            (c - 1) * (c - 1) < n,
        decreases 27 - c,
    {
        assert(c < 27) by {
            if c == 27 {
                assert(c * c == 729) by (nonlinear_arith)
                    requires
                        c == 27,
                ;
            }
        }
        assert((c + 1) * (c + 1) == c * c + 2 * c + 1) by (nonlinear_arith);
        square = square + 2 * c + 1;
        c += 1;
    }
    c
}

proof fn ceil_div_bounds(a: int, b: int)
    requires
        a > 0,
        b > 0,
    ensures
        ceil_div(a, b) >= 1,
        b * (ceil_div(a, b) - 1) < a,
        a <= b * ceil_div(a, b),
{
    let q = ceil_div(a, b);
    vstd::arithmetic::div_mod::lemma_fundamental_div_mod(a + b - 1, b);
    vstd::arithmetic::div_mod::lemma_mod_bound(a + b - 1, b);
    assert(b * (q - 1) == b * q - b) by (nonlinear_arith);
    if q < 1 {
        assert(b * q <= 0) by (nonlinear_arith)
            requires
                b > 0,
                q <= 0,
        ;
    }
}

/// There are no more frames than the picture may hold, and together with the interval
/// they cover the whole video.
pub proof fn samples_cover_video(us: int)
    requires
        0 < us <= LONGEST_US,
    ensures
        1 <= sampling(us).1 <= MAX_TILES,
        sampling(us).0 >= INTERVAL_S,
        us <= sampling(us).0 * 1_000_000 * sampling(us).1,
        sampling(us).0 <= 0xffff_ffff,
{
    let ten = INTERVAL_S * 1_000_000;
    ceil_div_bounds(us, ten);
    let plain = ceil_div(us, ten);
    if plain > MAX_TILES {
        let all = MAX_TILES * 1_000_000;
        ceil_div_bounds(us, all);
        let interval = ceil_div(us, all);
        let step = interval * 1_000_000;
        ceil_div_bounds(us, step);
        let n = ceil_div(us, step);
        assert(us <= step * MAX_TILES) by (nonlinear_arith)
            requires
                us <= all * interval,
                all == MAX_TILES * 1_000_000,
                step == interval * 1_000_000,
        ;
        assert(n <= MAX_TILES) by (nonlinear_arith)
            requires
                step * (n - 1) < us,
                us <= step * MAX_TILES,
                step > 0,
        ;
        assert(interval >= INTERVAL_S) by (nonlinear_arith)
            requires
                us <= all * interval,
                all == MAX_TILES * 1_000_000,
                us > ten * (plain - 1),
                plain > MAX_TILES,
                ten == INTERVAL_S * 1_000_000,
        ;
        assert(interval <= 0xffff_ffff) by (nonlinear_arith)
            requires
                all * (interval - 1) < us,
                us <= LONGEST_US,
                all == MAX_TILES * 1_000_000,
        ;
    } else {
        assert(us <= 10 * 1_000_000 * plain);
    }
}

/// The layout of the previews of a video that lasts `us` microseconds.
pub open spec fn is_layout(m: TrickplayManifest, us: int) -> bool {
    &&& (m.interval as int, m.count as int) == sampling(us)
    &&& m.tile_w == TILE_W
    &&& m.tile_h == TILE_H
    &&& m.padding == TILE_PADDING
    &&& is_root_up(m.cols as int, m.count as int)
    &&& m.rows == ceil_div(m.count as int, m.cols as int)
}

/// Every frame has a place in the picture, and no row is empty.
pub proof fn layout_holds_all(m: TrickplayManifest, us: int)
    requires
        is_layout(m, us),
        0 < us <= LONGEST_US,
    ensures
        m.cols * m.rows >= m.count,
        m.cols * (m.rows - 1) < m.count,
{
    samples_cover_video(us);
    ceil_div_bounds(m.count as int, m.cols as int);
}

/// How the previews of a video lie in their picture. None for a video that is too short
/// or whose running time is unknown.
pub fn layout(duration_us: Option<u64>) -> (r: Option<TrickplayManifest>)
    requires
        duration_us matches Some(d) ==> d <= LONGEST_US,
    ensures
        match duration_us {
            Some(d) => if d < MIN_DURATION_US {
                r is None
            } else {
                r is Some && is_layout(r->0, d as int)
            },
            None => r is None,
        },
{
    let us: u64 = match duration_us {
        Some(d) => d,
        None => {
            return None;
        },
    };
    if us < MIN_DURATION_US {
        return None;
    }
    proof {
        samples_cover_video(us as int);
    }
    let ten: u64 = INTERVAL_S as u64 * 1_000_000;
    let plain: u64 = (us + (ten - 1)) / ten;
    let (interval, count): (u64, u64) = if plain > MAX_TILES as u64 {
        let all: u64 = MAX_TILES as u64 * 1_000_000;
        let interval: u64 = (us + (all - 1)) / all;
        proof {
            ceil_div_bounds(us as int, all as int);
            assert(interval == ceil_div(us as int, all as int));
        }
        let step: u64 = interval * 1_000_000;
        let n: u64 = (us + (step - 1)) / step;
        (interval, n)
    } else {
        (INTERVAL_S as u64, plain)
    };
    assert((interval as int, count as int) == sampling(us as int));
    let cols: u32 = root_up(count as u32);
    let rows: u32 = (count as u32 + (cols - 1)) / cols;
    Some(
        TrickplayManifest {
            interval: interval as u32,
            tile_w: TILE_W,
            tile_h: TILE_H,
            padding: TILE_PADDING,
            cols,
            rows,
            count: count as u32,
        },
    )
}

/// The layout that a row of the database holds.
pub fn stored_manifest(
    interval: i64,
    tile_w: i64,
    tile_h: i64,
    padding: i64,
    cols: i64,
    rows: i64,
    count: i64,
) -> (r: TrickplayManifest)
    ensures
        r == (TrickplayManifest {
            interval: interval as u32,
            tile_w: tile_w as u32,
            tile_h: tile_h as u32,
            padding: padding as u32,
            cols: cols as u32,
            rows: rows as u32,
            count: count as u32,
        }),
{
    TrickplayManifest {
        interval: interval as u32,
        tile_w: tile_w as u32,
        tile_h: tile_h as u32,
        padding: padding as u32,
        cols: cols as u32,
        rows: rows as u32,
        count: count as u32,
    }
}

/// The filter of ffmpeg that picks the frames, shrinks them and packs them.
pub open spec fn filter_text(interval: int, cols: int, rows: int) -> Seq<char> {
    "showinfo=checksum=0,fps=1/"@ + text::decimal(interval as nat) + ",scale="@ + text::decimal(
        TILE_W as nat,
    ) + ":"@ + text::decimal(TILE_H as nat) + ",setsar=1,tile="@ + text::decimal(cols as nat)
        + "x"@ + text::decimal(rows as nat) + ":padding="@ + text::decimal(TILE_PADDING as nat)
        + ":color=black"@
}

fn filter(interval: u32, cols: u32, rows: u32) -> (r: String)
    ensures
        r@ == filter_text(interval as int, cols as int, rows as int),
{
    let mut out = text::own("showinfo=checksum=0,fps=1/");
    text::push_u64(&mut out, interval as u64);
    out.push_str(",scale=");
    text::push_u64(&mut out, TILE_W as u64);
    out.push_str(":");
    text::push_u64(&mut out, TILE_H as u64);
    out.push_str(",setsar=1,tile=");
    text::push_u64(&mut out, cols as u64);
    out.push_str("x");
    text::push_u64(&mut out, rows as u64);
    out.push_str(":padding=");
    text::push_u64(&mut out, TILE_PADDING as u64);
    out.push_str(":color=black");
    out
}

/// The arguments of ffmpeg that make the picture of previews.
pub open spec fn sprite_command(video: Seq<char>, m: TrickplayManifest) -> Seq<Seq<char>> {
    seq![
        "-v"@,
        "info"@,
        "-nostdin"@,
        "-y"@,
        "-analyzeduration"@,
        "1000000"@,
        "-probesize"@,
        "1000000"@,
        "-skip_frame"@,
        "nokey"@,
        "-i"@,
        video,
        "-vf"@,
        filter_text(m.interval as int, m.cols as int, m.rows as int),
        "-frames:v"@,
        "1"@,
        "-f"@,
        "image2"@,
        "-c:v"@,
        "mjpeg"@,
        "-q:v"@,
        "5"@,
        "pipe:1"@,
    ]
}

/// What the tool is told that makes the sheets of previews.
pub fn sprite_args(video: &str, m: &TrickplayManifest) -> (r: Vec<String>)
    ensures
        types::texts(r@) == sprite_command(video@, *m),
{
    let mut args: Vec<String> = Vec::new();
    push_pair(&mut args, "-v", "info");
    push_pair(&mut args, "-nostdin", "-y");
    push_pair(&mut args, "-analyzeduration", "1000000");
    push_pair(&mut args, "-probesize", "1000000");
    push_pair(&mut args, "-skip_frame", "nokey");
    push_pair(&mut args, "-i", video);
    let vf = filter(m.interval, m.cols, m.rows);
    push_pair(&mut args, "-vf", vf.as_str());
    push_pair(&mut args, "-frames:v", "1");
    push_pair(&mut args, "-f", "image2");
    push_pair(&mut args, "-c:v", "mjpeg");
    push_pair(&mut args, "-q:v", "5");
    push_text(&mut args, "pipe:1");
    assert(types::texts(args@) =~= sprite_command(video@, *m));
    args
}

/// How many of the lines have `needle` in them.
pub open spec fn lines_with(lines: Seq<Seq<char>>, needle: Seq<char>) -> nat
    decreases lines.len(),
{
    if lines.len() == 0 {
        0
    } else {
        lines_with(lines.drop_last(), needle) + if text::has_text(lines.last(), needle) {
            1nat
        } else {
            0
        }
    }
}

/// How many keyframes ffmpeg said it saw, each on a line of its own. None where it said
/// nothing of them.
pub fn parse_showinfo_count(log: &str) -> (r: Option<u64>)
    ensures
        ({
            let n = lines_with(text::text_lines(log@), "Parsed_showinfo_0"@);
            match r {
                Some(k) => k == n && n > 0,
                None => n == 0,
            }
        }),
{
    let lines = text::lines(log);
    let ghost all = types::texts(lines@);
    let mut n: u64 = 0;
    let mut i: usize = 0;
    assert(all.take(0) =~= Seq::<Seq<char>>::empty());
    while i < lines.len()
        invariant
            i <= lines@.len(),
            all == types::texts(lines@),
            n <= i,
            n == lines_with(all.take(i as int), "Parsed_showinfo_0"@),
        decreases lines@.len() - i,
    {
        proof {
            assert(all.take(i + 1).drop_last() =~= all.take(i as int));
            assert(all.take(i + 1).last() == lines@[i as int]@);
        }
        if text::contains(lines[i].as_str(), "Parsed_showinfo_0") {
            n += 1;
        }
        i += 1;
    }
    assert(all.take(i as int) =~= all);
    if n == 0 {
        None
    } else {
        Some(n)
    }
}

// ---- thumbnails ----

/// Where in a video the frame for its thumbnail is taken.
pub const SEEK_SECONDS: u32 = 60;

pub const THUMB_WIDTH: u32 = 480;

/// The arguments of ffmpeg that take a thumbnail.
pub open spec fn thumbnail_command(video: Seq<char>) -> Seq<Seq<char>> {
    seq![
        "-v"@,
        "error"@,
        "-nostdin"@,
        "-y"@,
        "-ss"@,
        text::decimal(SEEK_SECONDS as nat),
        "-analyzeduration"@,
        "1000000"@,
        "-probesize"@,
        "1000000"@,
        "-fflags"@,
        "+nobuffer"@,
        "-i"@,
        video,
        "-frames:v"@,
        "1"@,
        "-vf"@,
        "scale="@ + text::decimal(THUMB_WIDTH as nat) + ":-1"@,
        "-f"@,
        "image2"@,
        "-c:v"@,
        "mjpeg"@,
        "-q:v"@,
        "4"@,
        "pipe:1"@,
    ]
}

/// What the tool is told that makes one picture of a video.
pub fn thumbnail_args(video: &str) -> (r: Vec<String>)
    ensures
        types::texts(r@) == thumbnail_command(video@),
{
    let mut args: Vec<String> = Vec::new();
    push_pair(&mut args, "-v", "error");
    push_pair(&mut args, "-nostdin", "-y");
    let seek = text::u64_text(SEEK_SECONDS as u64);
    push_pair(&mut args, "-ss", seek.as_str());
    push_pair(&mut args, "-analyzeduration", "1000000");
    push_pair(&mut args, "-probesize", "1000000");
    push_pair(&mut args, "-fflags", "+nobuffer");
    push_pair(&mut args, "-i", video);
    push_pair(&mut args, "-frames:v", "1");
    let mut scale = text::own("scale=");
    text::push_u64(&mut scale, THUMB_WIDTH as u64);
    scale.push_str(":-1");
    push_pair(&mut args, "-vf", scale.as_str());
    push_pair(&mut args, "-f", "image2");
    push_pair(&mut args, "-c:v", "mjpeg");
    push_pair(&mut args, "-q:v", "4");
    push_text(&mut args, "pipe:1");
    assert(types::texts(args@) =~= thumbnail_command(video@));
    args
}

// ---- further laws ----

/// No frame is too many, and the interval no longer than it has to be: ten seconds for
/// videos of up to two hours, else the least number of seconds with at most 720 frames.
pub proof fn samples_are_no_more_than_needed(us: int)
    requires
        0 < us <= LONGEST_US,
    ensures
        sampling(us).0 * 1_000_000 * (sampling(us).1 - 1) < us,
        us <= 7_200_000_000 ==> sampling(us).0 == 10,
        us > 7_200_000_000 ==> (sampling(us).0 - 1) * 1_000_000 * 720 < us,
{
    let plain = ceil_div(us, 10_000_000);
    ceil_div_bounds(us, 10_000_000);
    if plain > MAX_TILES {
        let interval = ceil_div(us, 720_000_000);
        ceil_div_bounds(us, 720_000_000);
        assert(interval * 1_000_000 > 0);
        ceil_div_bounds(us, interval * 1_000_000);
        assert(us > 7_200_000_000);
    }
}

/// The lines that are counted are those that have the text.
pub proof fn counted_lines_have_it(lines: Seq<Seq<char>>, needle: Seq<char>)
    ensures
        lines_with(lines, needle) == lines.filter(|l: Seq<char>| text::has_text(l, needle)).len(),
    decreases lines.len(),
{
    reveal(Seq::filter);
    if lines.len() > 0 {
        counted_lines_have_it(lines.drop_last(), needle);
    }
}

/// The filter takes a picture each so many seconds, makes it 240 by 135, and lays the pictures
/// out in columns and rows, four apart.
pub proof fn pictures_are_laid_out(interval: int, cols: int, rows: int)
    ensures
        filter_text(interval, cols, rows) == "showinfo=checksum=0,fps=1/"@ + text::decimal(
            interval as nat,
        ) + ",scale="@ + text::decimal(240) + ":"@ + text::decimal(135) + ",setsar=1,tile="@
            + text::decimal(cols as nat) + "x"@ + text::decimal(rows as nat) + ":padding="@
            + text::decimal(4) + ":color=black"@,
{
}

} // verus!
