//! What is recorded about scans and playback.

use crate::hls::plan::{self, Mode};
use crate::text;
use vstd::prelude::*;

verus! {

/// How long the stages of preparing one file took, and what the file is like.
#[derive(Debug, Clone)]
pub struct ScanTiming {
    pub probe_ms: u64,
    pub subtitles_ms: u64,
    pub subtitle_tracks: u32,
    pub thumbnail_ms: u64,
    pub trickplay_ms: u64,
    pub save_ms: u64,
    pub total_ms: u64,
    pub video_codec: Option<String>,
    pub audio_codec: Option<String>,
    pub container: Option<String>,
    pub width: Option<u32>,
    pub height: Option<u32>,
    pub duration_ms: Option<u64>,
    pub bitrate_kbps: Option<u64>,
    pub pixel_format: Option<String>,
    /// How many keyframes were seen while the preview sprite was built.
    pub keyframe_count: Option<u32>,
    /// What the file was prepared for.
    pub trigger: String,
}

/// What is known of a playback when it starts.
#[derive(Debug, Clone)]
pub struct PlaybackSessionStart<'a> {
    pub id: &'a str,
    pub user_sub: Option<&'a str>,
    pub media_id: &'a str,
    pub delivery_mode: &'a str,
    pub chosen_reason: Option<&'a str>,
    pub src_video_codec: Option<&'a str>,
    pub src_audio_codec: Option<&'a str>,
    pub src_container: Option<&'a str>,
    pub out_video_codec: Option<&'a str>,
    pub out_audio_codec: Option<&'a str>,
    pub out_container: Option<&'a str>,
    pub target_bitrate_kbps: Option<u32>,
    pub browser: Option<&'a str>,
    pub room_id: Option<&'a str>,
    pub forced_via_query: bool,
}

impl<'a> Default for PlaybackSessionStart<'a> {
    fn default() -> (r: Self)
        ensures
            r.id@ == ""@,
            r.media_id@ == ""@,
            r.delivery_mode@ == ""@,
            r.user_sub is None,
            r.chosen_reason is None,
            r.src_video_codec is None,
            r.src_audio_codec is None,
            r.src_container is None,
            r.out_video_codec is None,
            r.out_audio_codec is None,
            r.out_container is None,
            r.target_bitrate_kbps is None,
            r.browser is None,
            r.room_id is None,
            !r.forced_via_query,
    {
        PlaybackSessionStart {
            id: "",
            user_sub: None,
            media_id: "",
            delivery_mode: "",
            chosen_reason: None,
            src_video_codec: None,
            src_audio_codec: None,
            src_container: None,
            out_video_codec: None,
            out_audio_codec: None,
            out_container: None,
            target_bitrate_kbps: None,
            browser: None,
            room_id: None,
            forced_via_query: false,
        }
    }
}

/// One measurement of a running playback.
#[derive(Debug, Clone)]
pub struct PlaybackSample<'a> {
    pub session_id: &'a str,
    pub position_ms: i64,
    pub buffered_ahead_ms: Option<i64>,
    pub transcode_position_ms: Option<i64>,
    pub transcode_rate_x100: Option<i64>,
    pub observed_kbps: Option<i64>,
    pub network_state: Option<&'a str>,
}

// ---- measurements of a running playback ----

/// Whether a measurement is taken: its playback is known, and the one who sends it is the
/// one who plays. Playbacks that belong to nobody take none.
pub fn accepts_sample(session: Option<Option<&str>>, user_sub: &str) -> (r: bool)
    ensures
        r == match session {
            Some(Some(owner)) => owner@ == user_sub@,
            _ => false,
        },
{
    match session {
        Some(Some(owner)) => *owner == *user_sub,
        _ => false,
    }
}

/// How many milliseconds a segment counts for.
pub const SEGMENT_MS: i64 = 6000;

/// Which producer feeds a playback: its audio stream and what it does. Where `delivery`
/// needs none there is none, nor where a new encoding has no sensible bitrate.
pub open spec fn producer_of(
    delivery: Seq<char>,
    audio_idx: Option<i64>,
    bitrate: Option<i64>,
) -> Option<(u32, Mode)> {
    let audio = match audio_idx {
        Some(n) => if 0 <= n <= u32::MAX {
            n as u32
        } else {
            0
        },
        None => 0,
    };
    if delivery == "remux"@ {
        Some((audio, Mode::Remux))
    } else if delivery == "transcode"@ {
        match bitrate {
            Some(b) => if 0 <= b <= u32::MAX {
                Some(
                    (
                        audio,
                        Mode::Transcode {
                            bitrate_kbps: b as u32,
                            max_height: plan::ladder_height(b as int),
                        },
                    ),
                )
            } else {
                None
            },
            None => None,
        }
    } else {
        None
    }
}

fn small(n: Option<i64>) -> (r: Option<u32>)
    ensures
        r == match n {
            Some(k) => if 0 <= k <= u32::MAX {
                Some(k as u32)
            } else {
                None
            },
            None => None,
        },
{
    match n {
        Some(k) => if 0 <= k && k <= u32::MAX as i64 {
            Some(k as u32)
        } else {
            None
        },
        None => None,
    }
}

/// The run that a report of the player speaks of.
pub fn sample_producer(
    delivery: &str,
    audio_idx: Option<i64>,
    bitrate: Option<i64>,
) -> (r: Option<(u32, Mode)>)
    ensures
        r == producer_of(delivery@, audio_idx, bitrate),
{
    let audio: u32 = match small(audio_idx) {
        Some(n) => n,
        None => 0,
    };
    if *delivery == *"remux" {
        Some((audio, Mode::Remux))
    } else if *delivery == *"transcode" {
        match small(bitrate) {
            Some(b) => Some(
                (
                    audio,
                    Mode::Transcode { bitrate_kbps: b, max_height: plan::height_for_bitrate(b) },
                ),
            ),
            None => None,
        }
    } else {
        None
    }
}

/// How fast a run makes segments, in hundredths of the speed at which they are played:
/// `head` is its last finished segment and `start` its first.
pub open spec fn encode_rate(start: u32, head: u32, elapsed_ms: u64) -> int {
    if head < start || elapsed_ms == 0 {
        0
    } else {
        (head - start + 1) * SEGMENT_MS * 100 / (elapsed_ms as int)
    }
}

/// How fast a run makes segments, as far as 32 bits hold it.
pub fn encode_rate_x100(start: u32, head: u32, elapsed_ms: u64) -> (r: u32)
    ensures
        r == if encode_rate(start, head, elapsed_ms) > u32::MAX {
            u32::MAX as int
        } else {
            encode_rate(start, head, elapsed_ms)
        },
{
    if head < start || elapsed_ms == 0 {
        return 0;
    }
    let made: u64 = (head - start) as u64 + 1;
    let rate: u64 = made * 600_000 / elapsed_ms;
    if rate > u32::MAX as u64 {
        u32::MAX
    } else {
        rate as u32
    }
}

/// How far a producer has come, in milliseconds of the video, and how fast it is.
pub fn transcode_telemetry(head: u32, encode_rate_x100: u32) -> (r: (i64, i64))
    ensures
        r.0 == head * SEGMENT_MS,
        r.1 == encode_rate_x100,
{
    (head as i64 * SEGMENT_MS, encode_rate_x100 as i64)
}

// ---- the browser's name ----

/// A character of a version number.
pub open spec fn is_version_char(c: char) -> bool {
    text::is_digit(c) || c == '.'
}

/// How many characters of a version number `s` starts with.
pub open spec fn version_len(s: Seq<char>) -> nat
    decreases s.len(),
{
    if s.len() > 0 && is_version_char(s[0]) {
        1 + version_len(s.skip(1))
    } else {
        0
    }
}

/// `s` without the full stops at its end.
pub open spec fn without_dots(s: Seq<char>) -> Seq<char>
    decreases s.len(),
{
    if s.len() > 0 && s.last() == '.' {
        without_dots(s.drop_last())
    } else {
        s
    }
}

/// The version number behind the first `marker` in `s`.
pub open spec fn version_after(s: Seq<char>, marker: Seq<char>) -> Option<Seq<char>> {
    match text::find_text(s, marker, 0) {
        Some(i) => {
            let rest = s.skip(i + marker.len());
            if version_len(rest) == 0 {
                None
            } else {
                Some(without_dots(rest.take(version_len(rest) as int)))
            }
        },
        None => None,
    }
}

proof fn version_len_bound(s: Seq<char>)
    ensures
        version_len(s) <= s.len(),
    decreases s.len(),
{
    if s.len() > 0 && is_version_char(s[0]) {
        version_len_bound(s.skip(1));
    }
}

fn capture_after(s: &str, marker: &str) -> (r: Option<String>)
    ensures
        match r {
            Some(v) => version_after(s@, marker@) == Some(v@),
            None => version_after(s@, marker@) is None,
        },
{
    let v = text::chars_of(s);
    let m = text::chars_of(marker);
    let total: usize = v.len();
    let start: usize = match text::find(&v, &m, 0) {
        Some(i) => {
            assert(i + m@.len() <= total);
            i + m.len()
        },
        None => {
            return None;
        },
    };
    let ghost rest = v@.skip(start as int);
    let mut end: usize = start;
    while end < v.len() && (text::digit(v[end]) || v[end] == '.')
        invariant
            start <= end <= v@.len(),
            rest == v@.skip(start as int),
            version_len(rest) == (end - start) + version_len(v@.skip(end as int)),
        decreases v@.len() - end,
    {
        assert(v@.skip(end as int).skip(1) =~= v@.skip(end + 1));
        end += 1;
    }
    if end == start {
        return None;
    }
    let ghost token = rest.take(end - start);
    assert(v@.subrange(start as int, end as int) =~= token);
    let mut stop: usize = end;
    while stop > start && v[stop - 1] == '.'
        invariant
            start <= stop <= end <= v@.len(),
            without_dots(token) == without_dots(v@.subrange(start as int, stop as int)),
        decreases stop,
    {
        assert(v@.subrange(start as int, stop as int).drop_last() =~= v@.subrange(
            start as int,
            stop - 1,
        ));
        stop -= 1;
    }
    Some(text::string_of(&v, start, stop))
}

/// The system that a User-Agent header names.
pub open spec fn agent_os(ua: Seq<char>) -> Seq<char> {
    if text::has_text(ua, "iPhone"@) || text::has_text(ua, "iPad"@) || text::has_text(ua, "iPod"@) {
        "iOS"@
    } else if text::has_text(ua, "Android"@) {
        "Android"@
    } else if text::has_text(ua, "Mac OS X"@) || text::has_text(ua, "Macintosh"@) {
        "macOS"@
    } else if text::has_text(ua, "Windows"@) {
        "Windows"@
    } else if text::has_text(ua, "Linux"@) {
        "Linux"@
    } else {
        "Other"@
    }
}

/// The browser that a User-Agent header names. Those that also call themselves Chrome
/// come before it.
pub open spec fn agent_browser(ua: Seq<char>) -> Seq<char> {
    if version_after(ua, "Edg/"@) is Some {
        "Edge "@ + version_after(ua, "Edg/"@)->0
    } else if version_after(ua, "OPR/"@) is Some {
        "Opera "@ + version_after(ua, "OPR/"@)->0
    } else if version_after(ua, "Firefox/"@) is Some {
        "Firefox "@ + version_after(ua, "Firefox/"@)->0
    } else if version_after(ua, "Chrome/"@) is Some {
        "Chrome "@ + version_after(ua, "Chrome/"@)->0
    } else if text::has_text(ua, "Safari/"@) && text::has_text(ua, "Version/"@) {
        "Safari "@ + match version_after(ua, "Version/"@) {
            Some(v) => v,
            None => "?"@,
        }
    } else {
        "Other"@
    }
}

fn os_name(ua: &str) -> (r: &'static str)
    ensures
        r@ == agent_os(ua@),
{
    if text::contains(ua, "iPhone") || text::contains(ua, "iPad") || text::contains(ua, "iPod") {
        "iOS"
    } else if text::contains(ua, "Android") {
        "Android"
    } else if text::contains(ua, "Mac OS X") || text::contains(ua, "Macintosh") {
        "macOS"
    } else if text::contains(ua, "Windows") {
        "Windows"
    } else if text::contains(ua, "Linux") {
        "Linux"
    } else {
        "Other"
    }
}

fn named(name: &str, version: &str) -> (r: String)
    ensures
        r@ == name@ + version@,
{
    let mut out = text::own(name);
    out.push_str(version);
    out
}

fn browser_name(ua: &str) -> (r: String)
    ensures
        r@ == agent_browser(ua@),
{
    if let Some(v) = capture_after(ua, "Edg/") {
        return named("Edge ", v.as_str());
    }
    if let Some(v) = capture_after(ua, "OPR/") {
        return named("Opera ", v.as_str());
    }
    if let Some(v) = capture_after(ua, "Firefox/") {
        return named("Firefox ", v.as_str());
    }
    if let Some(v) = capture_after(ua, "Chrome/") {
        return named("Chrome ", v.as_str());
    }
    if text::contains(ua, "Safari/") && text::contains(ua, "Version/") {
        return match capture_after(ua, "Version/") {
            Some(v) => named("Safari ", v.as_str()),
            None => named("Safari ", "?"),
        };
    }
    text::own("Other")
}

/// Reads a User-Agent header: `Chrome 120.0.0.0 / macOS`.
pub fn parse_ua(ua: &str) -> (r: String)
    ensures
        r@ == agent_browser(ua@) + " / "@ + agent_os(ua@),
{
    let mut out = browser_name(ua);
    out.push_str(" / ");
    out.push_str(os_name(ua));
    out
}

// ---- laws ----

/// The rate is the number of segments made, each of six seconds, by the time it took, in
/// hundredths and rounded down.
pub proof fn rate_is_segments_by_time(start: u32, head: u32, elapsed_ms: u64)
    requires
        start <= head,
        elapsed_ms > 0,
    ensures
        ({
            let r = encode_rate(start, head, elapsed_ms);
            &&& r * elapsed_ms <= (head - start + 1) * 600_000
            &&& (head - start + 1) * 600_000 < (r + 1) * elapsed_ms
        }),
{
    let x = (head - start + 1) * SEGMENT_MS * 100;
    let e = elapsed_ms as int;
    vstd::arithmetic::div_mod::lemma_fundamental_div_mod(x, e);
    vstd::arithmetic::div_mod::lemma_mod_bound(x, e);
    let r = x / e;
    assert(e * r == r * e) by (nonlinear_arith);
    assert((r + 1) * e == r * e + e) by (nonlinear_arith);
}

proof fn version_len_is(s: Seq<char>, k: nat)
    requires
        k <= s.len(),
        forall|i: int| 0 <= i < k ==> is_version_char(#[trigger] s[i]),
        k == s.len() || !is_version_char(s[k as int]),
    ensures
        version_len(s) == k,
    decreases k,
{
    if k > 0 {
        assert(is_version_char(s[0]));
        assert forall|i: int| 0 <= i < k - 1 implies is_version_char(#[trigger] s.skip(1)[i]) by {
            assert(s.skip(1)[i] == s[i + 1]);
        }
        version_len_is(s.skip(1), (k - 1) as nat);
    }
}

proof fn dots_go(s: Seq<char>, dots: Seq<char>)
    requires
        s.len() > 0,
        s.last() != '.',
        forall|i: int| 0 <= i < dots.len() ==> #[trigger] dots[i] == '.',
    ensures
        without_dots(s + dots) == s,
    decreases dots.len(),
{
    if dots.len() > 0 {
        assert((s + dots).last() == dots[dots.len() - 1]);
        assert((s + dots).drop_last() =~= s + dots.drop_last());
        dots_go(s, dots.drop_last());
    } else {
        assert(s + dots =~= s);
    }
}

/// The version that is read is the digits and full stops right behind the first marker, but
/// for full stops at their end.
pub proof fn version_is_read(
    before: Seq<char>,
    marker: Seq<char>,
    version: Seq<char>,
    dots: Seq<char>,
    after: Seq<char>,
)
    requires
        version.len() > 0,
        version.last() != '.',
        forall|i: int|
            0 <= i < version.len() ==> text::is_digit(#[trigger] version[i]) || version[i] == '.',
        forall|i: int| 0 <= i < dots.len() ==> #[trigger] dots[i] == '.',
        after.len() > 0 ==> !text::is_digit(after[0]) && after[0] != '.',
        forall|j: int|
            0 <= j < before.len() ==> !#[trigger] text::occurs_at(
                before + marker + version + dots + after,
                marker,
                j,
            ),
    ensures
        version_after(before + marker + version + dots + after, marker) == Some(version),
{
    let s = before + marker + version + dots + after;
    let tail = version + dots + after;
    assert(s =~= before + marker + tail);
    text::text_is_within(before, marker, tail);
    text::find_text_is_first(s, marker, 0);
    assert(text::occurs_at(s, marker, before.len() as int));
    assert(text::find_text(s, marker, 0) == Some(before.len() as int));
    let rest = s.skip(before.len() + marker.len() as int);
    assert(rest =~= tail);
    let k = version.len() + dots.len();
    assert forall|i: int| 0 <= i < k implies is_version_char(#[trigger] tail[i]) by {
        if i < version.len() {
            assert(tail[i] == version[i]);
        } else {
            assert(tail[i] == dots[i - version.len()]);
        }
    }
    if k < tail.len() {
        assert(tail[k as int] == after[0]);
    }
    version_len_is(tail, k);
    assert(tail.take(k as int) =~= version + dots);
    dots_go(version, dots);
}

/// A browser is named by its own mark, even where it calls itself Chrome or Safari as well.
pub proof fn browser_is_named_by_its_mark(ua: Seq<char>)
    ensures
        version_after(ua, "Edg/"@) matches Some(v) ==> agent_browser(ua) == "Edge "@ + v,
        version_after(ua, "OPR/"@) matches Some(v) ==> !text::has_text(ua, "Edg/"@)
            ==> agent_browser(ua) == "Opera "@ + v,
        version_after(ua, "Firefox/"@) matches Some(v) ==> !text::has_text(ua, "Edg/"@)
            && !text::has_text(ua, "OPR/"@) ==> agent_browser(ua) == "Firefox "@ + v,
        version_after(ua, "Chrome/"@) matches Some(v) ==> !text::has_text(ua, "Edg/"@)
            && !text::has_text(ua, "OPR/"@) && !text::has_text(ua, "Firefox/"@) ==> agent_browser(
            ua,
        ) == "Chrome "@ + v,
        version_after(ua, "Version/"@) matches Some(v) ==> text::has_text(ua, "Safari/"@)
            && !text::has_text(ua, "Edg/"@) && !text::has_text(ua, "OPR/"@) && !text::has_text(
            ua,
            "Firefox/"@,
        ) && !text::has_text(ua, "Chrome/"@) ==> agent_browser(ua) == "Safari "@ + v,
        !text::has_text(ua, "/"@) ==> agent_browser(ua) == "Other"@,
{
    text::find_text_is_first(ua, "Edg/"@, 0);
    text::find_text_is_first(ua, "OPR/"@, 0);
    text::find_text_is_first(ua, "Firefox/"@, 0);
    text::find_text_is_first(ua, "Chrome/"@, 0);
    text::find_text_is_first(ua, "Version/"@, 0);
    reveal_strlit("/");
    reveal_strlit("Edg/");
    reveal_strlit("OPR/");
    reveal_strlit("Firefox/");
    reveal_strlit("Chrome/");
    reveal_strlit("Safari/");
    reveal_strlit("Version/");
    if !text::has_text(ua, "/"@) {
        slash_in(ua, "Edg/"@);
        slash_in(ua, "OPR/"@);
        slash_in(ua, "Firefox/"@);
        slash_in(ua, "Chrome/"@);
        slash_in(ua, "Safari/"@);
    }
}

proof fn slash_in(ua: Seq<char>, marker: Seq<char>)
    requires
        !text::has_text(ua, "/"@),
        marker.len() > 0,
        marker.last() == '/',
    ensures
        !text::has_text(ua, marker),
{
    reveal_strlit("/");
    if text::has_text(ua, marker) {
        let i = choose|i: int| text::occurs_at(ua, marker, i);
        let k = i + marker.len() - 1;
        assert(ua.subrange(i, i + marker.len() as int)[marker.len() - 1] == ua[k]);
        assert(ua.subrange(k, k + 1) =~= "/"@);
        assert(text::occurs_at(ua, "/"@, k));
    }
}

/// An iPhone is none of the Macs that it names, nor an Android phone a plain Linux.
pub proof fn system_is_named_by_its_mark(ua: Seq<char>)
    ensures
        agent_os(ua) == "iOS"@ <==> text::has_text(ua, "iPhone"@) || text::has_text(ua, "iPad"@)
            || text::has_text(ua, "iPod"@),
        agent_os(ua) == "Linux"@ ==> text::has_text(ua, "Linux"@) && !text::has_text(
            ua,
            "Android"@,
        ),
        agent_os(ua) == "Android"@ ==> text::has_text(ua, "Android"@),
        agent_os(ua) == "macOS"@ ==> text::has_text(ua, "Mac OS X"@) || text::has_text(
            ua,
            "Macintosh"@,
        ),
        agent_os(ua) == "Windows"@ ==> text::has_text(ua, "Windows"@),
        agent_os(ua) == "Other"@ ==> !text::has_text(ua, "Windows"@) && !text::has_text(
            ua,
            "Linux"@,
        ) && !text::has_text(ua, "Android"@) && !text::has_text(ua, "Mac OS X"@),
{
    reveal_strlit("iOS");
    reveal_strlit("Android");
    reveal_strlit("macOS");
    reveal_strlit("Windows");
    reveal_strlit("Linux");
    reveal_strlit("Other");
    assert("iOS"@[0] == 'i' && "Android"@[0] == 'A' && "macOS"@[0] == 'm' && "Windows"@[0] == 'W'
        && "Linux"@[0] == 'L' && "Other"@[0] == 'O');
}

/// A measured playback is traced to its own run: the sound it plays, copied or encoded at
/// its bit rate.
pub proof fn producer_is_that_of_the_playback(
    delivery: Seq<char>,
    audio_idx: Option<i64>,
    bitrate: Option<i64>,
)
    ensures
        producer_of(delivery, audio_idx, bitrate) matches Some(p) ==> {
            &&& audio_idx matches Some(n) ==> 0 <= n <= 0xffff_ffff ==> p.0 == n
            &&& audio_idx is None ==> p.0 == 0
            &&& p.1 is Remux <==> delivery == "remux"@
            &&& p.1 matches Mode::Transcode { bitrate_kbps, max_height } ==> delivery
                == "transcode"@ && bitrate == Some(bitrate_kbps as i64) && max_height
                == plan::ladder_height(bitrate_kbps as int)
        },
        producer_of(delivery, audio_idx, bitrate) is None <==> !(delivery == "remux"@ || (delivery
            == "transcode"@ && bitrate is Some && 0 <= bitrate->0 <= 0xffff_ffff)),
{
    reveal_strlit("remux");
    reveal_strlit("transcode");
    assert("remux"@.len() != "transcode"@.len());
}

} // verus!
