//! The timeline of a file's segments.
//!
//! A plan says which segments exist and where they start in the source. It is
//! built once, from the times of the source's keyframes, and the playlist is
//! rendered from it. All times are microseconds.

use crate::decimal;
use crate::text;
use crate::types::{AudioTrackInfo, MediaTechInfo};
use vstd::prelude::*;

verus! {

/// Raised whenever plans have to be built anew.
pub const PLAN_VERSION: u32 = 11;

/// Target length of a segment: six seconds.
pub const TARGET_SEGMENT_US: u64 = 6_000_000;

/// A segment longer than this is worth a warning.
pub const MAX_SEGMENT_WARN_US: u64 = 30_000_000;

/// The shortest source that is segmented: half a second.
pub const MIN_DURATION_US: i64 = 500_000;

#[derive(Debug, Clone, Copy, PartialEq, Eq, Structural)]
pub enum Mode {
    /// The video stream is copied.
    Remux,
    /// The video stream is encoded anew.
    Transcode { bitrate_kbps: u32, max_height: u32 },
}

#[derive(Debug)]
pub struct AudioPlan {
    pub src_codec: Option<String>,
    /// `copy` where the source is AAC or MP3, else `aac`.
    pub out_codec: String,
    pub channels: u32,
    pub bitrate_kbps: u32,
}

/// One segment: its number, its start and its length.
#[derive(Debug, Clone, Copy, PartialEq, Eq, Structural)]
pub struct Segment {
    pub i: u32,
    pub t: u64,
    pub d: u64,
}

#[derive(Debug)]
pub struct StreamPlan {
    pub version: u32,
    pub mode: Mode,
    pub duration: u64,
    pub video_codec: String,
    pub segments: Vec<Segment>,
}

// ---- viability ----

/// Codecs that do not fit into fragmented MP4.
pub open spec fn is_webm_codec(codec: Seq<char>) -> bool {
    codec == "vp9"@ || codec == "vp8"@ || codec == "av1"@
}

/// Whether a video codec goes into a WebM file.
pub fn webm_codec(codec: &str) -> (r: bool)
    ensures
        r == is_webm_codec(codec@),
{
    *codec == *"vp9" || *codec == *"vp8" || *codec == *"av1"
}

/// Why a source cannot be segmented by copying, if it cannot.
pub open spec fn copy_remux_obstacle(info: MediaTechInfo) -> Option<Seq<char>> {
    match info.video {
        None => Some("no video stream"@),
        Some(v) => if is_webm_codec(v.codec@) {
            Some(v.codec@ + " can't be muxed into HLS-fmp4 (needs WebM/DASH)"@)
        } else {
            match info.duration_us {
                Some(d) => if d <= 0 {
                    Some("missing or invalid duration"@)
                } else if d < MIN_DURATION_US {
                    Some("duration too short to segment"@)
                } else {
                    None
                },
                None => Some("missing or invalid duration"@),
            }
        },
    }
}

/// Whether the source may be segmented by copying its video, and if not, why.
pub fn is_copy_remux_viable(info: &MediaTechInfo) -> (r: Result<(), String>)
    ensures
        match r {
            Ok(_) => copy_remux_obstacle(*info) is None,
            Err(why) => copy_remux_obstacle(*info) == Some(why@),
        },
{
    match &info.video {
        None => Err(text::own("no video stream")),
        Some(v) => {
            if webm_codec(v.codec.as_str()) {
                let mut why = text::own(v.codec.as_str());
                why.push_str(" can't be muxed into HLS-fmp4 (needs WebM/DASH)");
                return Err(why);
            }
            match info.duration_us {
                Some(d) => {
                    if d <= 0 {
                        Err(text::own("missing or invalid duration"))
                    } else if d < MIN_DURATION_US {
                        Err(text::own("duration too short to segment"))
                    } else {
                        Ok(())
                    }
                },
                None => Err(text::own("missing or invalid duration")),
            }
        },
    }
}

/// Whether an audio track is passed through: browsers play it in MP4 as it is.
pub open spec fn copies_audio(codec: Seq<char>) -> bool {
    codec == "aac"@ || codec == "mp3"@
}

/// How the audio track with number `audio_idx` is delivered; `None` where the
/// source has no such track.
pub fn derive_audio_plan(info: &MediaTechInfo, audio_idx: u32) -> (r: Option<AudioPlan>)
    ensures
        r is Some == (audio_idx < info.audio@.len()),
        r matches Some(p) ==> {
            let codec = info.audio@[audio_idx as int].codec@;
            &&& p.src_codec matches Some(c) && c@ == codec
            &&& p.out_codec@ == if copies_audio(codec) {
                "copy"@
            } else {
                "aac"@
            }
            &&& p.channels == 2
            &&& p.bitrate_kbps == 192
        },
{
    let i: usize = audio_idx as usize;
    if i >= info.audio.len() {
        return None;
    }
    let track: &AudioTrackInfo = &info.audio[i];
    let codec = text::own(track.codec.as_str());
    let out = if *codec.as_str() == *"aac" || *codec.as_str() == *"mp3" {
        text::own("copy")
    } else {
        text::own("aac")
    };
    Some(AudioPlan { src_codec: Some(codec), out_codec: out, channels: 2, bitrate_kbps: 192 })
}

// ---- keyframes ----

/// The keyframe time that one line of the packet listing gives: lines read
/// `time,flags`, and a keyframe has a `K` among its flags. A time below zero is passed over.
pub open spec fn keyframe_time(line: Seq<char>) -> Option<int> {
    let comma = text::first_index(line, ',');
    let flags = if comma < line.len() {
        line.skip(comma + 1)
    } else {
        Seq::empty()
    };
    if flags.contains('K') {
        match decimal::seconds_us(line.take(comma)) {
            Some(t) => if t >= 0 {
                Some(t)
            } else {
                None
            },
            None => None,
        }
    } else {
        None
    }
}

/// Reads one line of the packet listing.
pub fn parse_packet_line(line: &str) -> (r: Option<u64>)
    ensures
        match r {
            Some(t) => keyframe_time(line@) == Some(t as int),
            None => keyframe_time(line@) is None,
        },
{
    let v = text::chars_of(line);
    let comma: usize = text::find_char(&v, ',');
    let from: usize = if comma < v.len() { comma + 1 } else { v.len() };
    let flags = text::string_of(&v, from, v.len());
    let time = text::string_of(&v, 0, comma);
    proof {
        let f = if comma < line@.len() {
            line@.skip(comma + 1)
        } else {
            Seq::empty()
        };
        assert(flags@ =~= f);
        assert(time@ =~= line@.take(comma as int));
    }
    if text::has_char(flags.as_str(), 'K') {
        match decimal::parse_seconds(time.as_str()) {
            Some(t) => if t >= 0 {
                Some(t as u64)
            } else {
                None
            },
            None => None,
        }
    } else {
        None
    }
}

pub open spec fn strictly_increasing(s: Seq<u64>) -> bool {
    forall|i: int, j: int| 0 <= i < j < s.len() ==> s[i] < s[j]
}

/// Puts `t` into an increasing list, unless it is there already.
pub fn insert_time(v: &mut Vec<u64>, t: u64)
    requires
        strictly_increasing(old(v)@),
    ensures
        strictly_increasing(final(v)@),
        final(v)@.to_set() == old(v)@.to_set().insert(t),
{
    let mut k: usize = v.len();
    while k > 0 && v[k - 1] > t
        invariant
            k <= v@.len(),
            v@ == old(v)@,
            forall|j: int| k <= j < v@.len() ==> v@[j] > t,
        decreases k,
    {
        k -= 1;
    }
    let ghost before = v@;
    if k > 0 && v[k - 1] == t {
        proof {
            assert(before.to_set().contains(t));
            assert(before.to_set() =~= before.to_set().insert(t));
        }
        return;
    }
    v.insert(k, t);
    proof {
        let after = v@;
        assert(after == before.insert(k as int, t));
        assert forall|x: u64| after.to_set().contains(x) <==> before.to_set().insert(t).contains(
            x,
        ) by {
            if after.contains(x) {
                let i = choose|i: int| 0 <= i < after.len() && after[i] == x;
                if i < k {
                    assert(before[i] == x);
                } else if i > k {
                    assert(before[i - 1] == x);
                }
            }
            if before.contains(x) {
                let i = choose|i: int| 0 <= i < before.len() && before[i] == x;
                if i < k {
                    assert(after[i] == x);
                } else {
                    assert(after[i + 1] == x);
                }
            }
            if x == t {
                assert(after[k as int] == x);
            }
        }
        assert(after.to_set() =~= before.to_set().insert(t));
    }
}

/// `t` is the time of a keyframe of the listing.
pub open spec fn is_keyframe_time(lines: Seq<Seq<char>>, t: u64) -> bool {
    exists|i: int| 0 <= i < lines.len() && keyframe_time(#[trigger] lines[i]) == Some(t as int)
}

/// The times of all keyframes of a packet listing, in order and without
/// repetition. Packets are listed in decode order, so the times need sorting.
pub fn collect_keyframes(lines: &Vec<String>) -> (r: Vec<u64>)
    ensures
        strictly_increasing(r@),
        forall|t: u64| r@.contains(t) <==> is_keyframe_time(crate::types::texts(lines@), t),
{
    let mut out: Vec<u64> = Vec::new();
    let ghost all = crate::types::texts(lines@);
    let mut i: usize = 0;
    while i < lines.len()
        invariant
            i <= lines@.len(),
            all == crate::types::texts(lines@),
            strictly_increasing(out@),
            forall|t: u64|
                #![trigger out@.to_set().contains(t)]
                out@.to_set().contains(t) <==> is_keyframe_time(all.take(i as int), t),
        decreases lines@.len() - i,
    {
        let ghost before = out@.to_set();
        assert(all[i as int] == lines@[i as int]@);
        if let Some(t) = parse_packet_line(lines[i].as_str()) {
            insert_time(&mut out, t);
        }
        proof {
            assert forall|t: u64|
                #![trigger out@.to_set().contains(t)]
                out@.to_set().contains(t) <==> is_keyframe_time(all.take(i + 1), t) by {
                assert(before.contains(t) <==> is_keyframe_time(all.take(i as int), t));
                let next = all.take(i + 1);
                if is_keyframe_time(all.take(i as int), t) {
                    let k = choose|k: int|
                        0 <= k < all.take(i as int).len() && keyframe_time(
                            #[trigger] all.take(i as int)[k],
                        ) == Some(t as int);
                    assert(next[k] == all.take(i as int)[k]);
                }
                if is_keyframe_time(next, t) {
                    let k = choose|k: int|
                        0 <= k < next.len() && keyframe_time(#[trigger] next[k]) == Some(t as int);
                    if k < i {
                        assert(all.take(i as int)[k] == next[k]);
                    }
                }
                assert(next[i as int] == all[i as int]);
            }
        }
        i += 1;
    }
    proof {
        assert(all.take(i as int) =~= all);
        assert forall|t: u64| out@.contains(t) <==> is_keyframe_time(all, t) by {
            assert(out@.to_set().contains(t) <==> out@.contains(t));
        }
    }
    out
}

// ---- segments ----

/// The first index from `j` on of a keyframe at or after `target`; the number of
/// keyframes if there is none.
pub open spec fn next_cut(kf: Seq<u64>, j: int, target: int) -> int
    decreases kf.len() - j,
{
    if j >= kf.len() {
        kf.len() as int
    } else if kf[j] >= target {
        j
    } else {
        next_cut(kf, j + 1, target)
    }
}

/// Where segment `n` ends that begins with keyframe `i`: at the first keyframe
/// behind `i` whose time is at least `n` times the target length; `kf.len()` is the end
/// of the file.
pub open spec fn segment_cut(kf: Seq<u64>, i: int, n: int) -> int {
    next_cut(kf, i + 1, n * TARGET_SEGMENT_US)
}

/// The time of keyframe `j`, or of the end of the file.
pub open spec fn boundary_time(kf: Seq<u64>, duration: u64, j: int) -> u64 {
    if j < kf.len() {
        kf[j]
    } else {
        duration
    }
}

pub open spec fn span(from: u64, to: u64) -> u64 {
    if to > from {
        (to - from) as u64
    } else {
        0
    }
}

/// Where the segment starts that begins with keyframe `i`: the first one starts with the
/// file, even where its keyframe comes a little later.
pub open spec fn segment_start(kf: Seq<u64>, i: int) -> u64 {
    if i == 0 {
        0
    } else {
        kf[i]
    }
}

/// The segments from number `n` on, the first of which begins with keyframe `i`.
pub open spec fn segments_from(kf: Seq<u64>, duration: u64, i: int, n: int) -> Seq<Segment>
    decreases kf.len() - i,
{
    if 0 <= i < kf.len() {
        let j = segment_cut(kf, i, n);
        let s = Segment {
            i: n as u32,
            t: segment_start(kf, i),
            d: span(segment_start(kf, i), boundary_time(kf, duration, j)),
        };
        if i < j < kf.len() {
            seq![s] + segments_from(kf, duration, j, n + 1)
        } else {
            seq![s]
        }
    } else {
        Seq::empty()
    }
}

/// The segments of a source: none where it has no keyframe or no length.
pub open spec fn segments_of(kf: Seq<u64>, duration: u64) -> Seq<Segment> {
    if kf.len() == 0 || duration == 0 {
        Seq::empty()
    } else {
        segments_from(kf, duration, 0, 1)
    }
}

proof fn next_cut_bounds(kf: Seq<u64>, j: int, target: int)
    requires
        0 <= j <= kf.len(),
    ensures
        j <= next_cut(kf, j, target) <= kf.len(),
        next_cut(kf, j, target) < kf.len() ==> kf[next_cut(kf, j, target)] >= target,
        forall|k: int| j <= k < next_cut(kf, j, target) ==> kf[k] < target,
    decreases kf.len() - j,
{
    if j < kf.len() && kf[j] < target {
        next_cut_bounds(kf, j + 1, target);
    }
}

/// Groups keyframe times into the segments that ffmpeg's HLS muxer cuts when it
/// copies: segment `n` ends at the first keyframe whose time is at least `n`
/// times the target length, however long the segments before it became. The first segment
/// starts at zero.
pub fn group_segments(keyframes: &Vec<u64>, duration: u64) -> (r: Vec<Segment>)
    requires
        keyframes@.len() < u32::MAX,
    ensures
        r@ == segments_of(keyframes@, duration),
{
    let mut out: Vec<Segment> = Vec::new();
    if keyframes.len() == 0 || duration == 0 {
        return out;
    }
    let mut i: usize = 0;
    let mut n: u32 = 1;
    loop
        invariant
            i < keyframes@.len() < u32::MAX,
            duration > 0,
            1 <= n <= i + 1,
            out@ + segments_from(keyframes@, duration, i as int, n as int) =~= segments_from(
                keyframes@,
                duration,
                0,
                1,
            ),
        decreases keyframes@.len() - i,
    {
        let target: u64 = n as u64 * TARGET_SEGMENT_US;
        let mut j: usize = i + 1;
        while j < keyframes.len() && keyframes[j] < target
            invariant
                i < j <= keyframes@.len(),
                target == n * TARGET_SEGMENT_US,
                segment_cut(keyframes@, i as int, n as int) == next_cut(
                    keyframes@,
                    j as int,
                    target as int,
                ),
            decreases keyframes@.len() - j,
        {
            j += 1;
        }
        assert(segment_cut(keyframes@, i as int, n as int) == j);
        let start: u64 = if i == 0 { 0 } else { keyframes[i] };
        let end: u64 = if j < keyframes.len() { keyframes[j] } else { duration };
        let d: u64 = if end > start { end - start } else { 0 };
        out.push(Segment { i: n, t: start, d });
        if j >= keyframes.len() {
            assert(out@ =~= segments_from(keyframes@, duration, 0, 1));
            return out;
        }
        i = j;
        n += 1;
    }
}

// ---- laws ----

/// Times that do not decrease.
pub open spec fn in_order(kf: Seq<u64>) -> bool {
    forall|i: int, j: int| 0 <= i <= j < kf.len() ==> kf[i] <= kf[j]
}

/// The segments of `s` follow one another: they are numbered from `n`, the first
/// starts at `from`, each starts where the one before ends, and the last ends at `to`.
pub open spec fn tiles(s: Seq<Segment>, n: int, from: int, to: int) -> bool
    decreases s.len(),
{
    if s.len() == 0 {
        from == to
    } else {
        s[0].i == n && s[0].t == from && tiles(s.skip(1), n + 1, from + s[0].d, to)
    }
}

proof fn segments_from_tile(kf: Seq<u64>, duration: u64, i: int, n: int)
    requires
        in_order(kf),
        0 <= i < kf.len() < u32::MAX,
        1 <= n <= i + 1,
        kf.last() <= duration,
    ensures
        tiles(
            segments_from(kf, duration, i, n),
            n,
            segment_start(kf, i) as int,
            duration as int,
        ),
        segments_from(kf, duration, i, n).len() <= kf.len() - i,
        segments_from(kf, duration, i, n).len() >= 1,
    decreases kf.len() - i,
{
    let j = segment_cut(kf, i, n);
    next_cut_bounds(kf, i + 1, n * TARGET_SEGMENT_US);
    let all = segments_from(kf, duration, i, n);
    if j < kf.len() {
        segments_from_tile(kf, duration, j, n + 1);
        assert(all.skip(1) =~= segments_from(kf, duration, j, n + 1));
        assert(kf[i] <= kf[j]);
    } else {
        assert(all.skip(1) =~= Seq::<Segment>::empty());
        assert(tiles(all.skip(1), n + 1, duration as int, duration as int));
    }
}

/// The segments of a source are numbered from one without gaps, and together they
/// cover the whole file, from zero to its end.
pub proof fn segments_tile(kf: Seq<u64>, duration: u64)
    requires
        in_order(kf),
        0 < kf.len() < u32::MAX,
        duration > 0,
        kf.last() <= duration,
    ensures
        tiles(segments_of(kf, duration), 1, 0, duration as int),
        1 <= segments_of(kf, duration).len() <= kf.len(),
{
    segments_from_tile(kf, duration, 0, 1);
}

/// Every segment but the first starts at a keyframe that is at least as many target
/// lengths into the file as there are segments before it.
pub proof fn segment_starts_at_keyframe(kf: Seq<u64>, duration: u64, k: int)
    requires
        in_order(kf),
        0 < kf.len() < u32::MAX,
        duration > 0,
        0 < k < segments_of(kf, duration).len(),
    ensures
        kf.contains(segments_of(kf, duration)[k].t),
        segments_of(kf, duration)[k].t >= k * TARGET_SEGMENT_US,
{
    start_at_keyframe_from(kf, duration, 0, 1, k);
}

proof fn start_at_keyframe_from(kf: Seq<u64>, duration: u64, i: int, n: int, k: int)
    requires
        0 <= i < kf.len() < u32::MAX,
        1 <= n <= i + 1,
        0 < k < segments_from(kf, duration, i, n).len(),
    ensures
        kf.contains(segments_from(kf, duration, i, n)[k].t),
        segments_from(kf, duration, i, n)[k].t >= (n + k - 1) * TARGET_SEGMENT_US,
    decreases kf.len() - i,
{
    let j = segment_cut(kf, i, n);
    next_cut_bounds(kf, i + 1, n * TARGET_SEGMENT_US);
    let all = segments_from(kf, duration, i, n);
    if i < j < kf.len() {
        let rest = segments_from(kf, duration, j, n + 1);
        assert(all[k] == rest[k - 1]);
        if k == 1 {
            assert(rest[0].t == kf[j]);
        } else {
            start_at_keyframe_from(kf, duration, j, n + 1, k - 1);
        }
    }
}

/// Segment `k` from one on ends exactly at the first keyframe behind its start whose time is
/// at least `k` times six seconds, or with the file where there is none: no keyframe that it
/// runs over would have done, and the one at which it ends does. The first segment begins
/// with the first keyframe, however late that one comes.
pub proof fn segment_ends_at_first_keyframe(kf: Seq<u64>, duration: u64, k: int)
    requires
        strictly_increasing(kf),
        0 < kf.len() < u32::MAX,
        duration > 0,
        kf.last() <= duration,
        0 <= k < segments_of(kf, duration).len(),
    ensures
        ({
            let s = segments_of(kf, duration)[k];
            let end = s.t + s.d;
            &&& forall|x: int|
                0 < x < kf.len() && s.t < #[trigger] kf[x] < end ==> kf[x] < (k + 1) * 6_000_000
            &&& end == duration || exists|x: int|
                0 < x < kf.len() && #[trigger] kf[x] == end && end >= (k + 1) * 6_000_000
            &&& k + 1 == segments_of(kf, duration).len() ==> end == duration
        }),
{
    ends_at_first_from(kf, duration, 0, 1, k);
}

proof fn ends_at_first_from(kf: Seq<u64>, duration: u64, i: int, n: int, k: int)
    requires
        strictly_increasing(kf),
        0 <= i < kf.len() < u32::MAX,
        kf.last() <= duration,
        1 <= n <= i + 1,
        0 <= k < segments_from(kf, duration, i, n).len(),
    ensures
        ({
            let s = segments_from(kf, duration, i, n)[k];
            let end = s.t + s.d;
            &&& forall|x: int|
                0 < x < kf.len() && s.t < #[trigger] kf[x] < end ==> kf[x] < (n + k) * 6_000_000
            &&& end == duration || exists|x: int|
                0 < x < kf.len() && #[trigger] kf[x] == end && end >= (n + k) * 6_000_000
            &&& k + 1 == segments_from(kf, duration, i, n).len() ==> end == duration
        }),
    decreases kf.len() - i,
{
    let j = segment_cut(kf, i, n);
    next_cut_bounds(kf, i + 1, n * TARGET_SEGMENT_US);
    let all = segments_from(kf, duration, i, n);
    let s = all[0];
    assert(kf[i] <= kf.last()) by {
        if i < kf.len() - 1 {
            assert(kf[i] < kf[kf.len() - 1]);
        }
    }
    if i < j < kf.len() {
        assert(kf[i] < kf[j]);
    }
    if k == 0 {
        let end = s.t + s.d;
        assert(end == boundary_time(kf, duration, j));
        assert forall|x: int| 0 < x < kf.len() && s.t < #[trigger] kf[x] < end implies kf[x] < n
            * 6_000_000 by {
            if x <= i {
                if i > 0 && x < i {
                    assert(kf[x] < kf[i]);
                }
            }
            if x >= j && j < kf.len() {
                if x > j {
                    assert(kf[j] < kf[x]);
                }
            }
        }
        if j < kf.len() {
            assert(kf[j] == end);
            assert(segments_from(kf, duration, j, n + 1).len() > 0);
            assert(all.len() == 1 + segments_from(kf, duration, j, n + 1).len());
        }
    } else {
        let rest = segments_from(kf, duration, j, n + 1);
        assert(all[k] == rest[k - 1]);
        ends_at_first_from(kf, duration, j, n + 1, k - 1);
    }
}

// ---- the whole plan ----

/// Builds the plan of a source from its probe and its packet listing.
pub fn build_remux_plan(info: &MediaTechInfo, lines: &Vec<String>) -> (r: Result<StreamPlan, String>)
    requires
        lines@.len() < u32::MAX,
    ensures
        match r {
            Ok(p) => {
                &&& copy_remux_obstacle(*info) is None
                &&& p.version == PLAN_VERSION
                &&& p.mode == Mode::Remux
                &&& info.duration_us matches Some(d) && p.duration == d
                &&& info.video matches Some(v) && p.video_codec@ == v.codec@
                &&& exists|kf: Seq<u64>| #[trigger]
                    strictly_increasing(kf) && kf.len() > 0 && p.segments@ == segments_of(
                        kf,
                        p.duration,
                    ) && forall|t: u64|
                        kf.contains(t) <==> is_keyframe_time(crate::types::texts(lines@), t)
            },
            Err(why) => match copy_remux_obstacle(*info) {
                Some(o) => why@ == "source not viable for copy-remux: "@ + o,
                None => {
                    &&& why@ == "no keyframes found in source"@
                    &&& forall|t: u64| !is_keyframe_time(crate::types::texts(lines@), t)
                },
            },
        },
{
    match is_copy_remux_viable(info) {
        Err(o) => {
            let mut why = text::own("source not viable for copy-remux: ");
            why.push_str(o.as_str());
            return Err(why);
        },
        Ok(_) => {},
    }
    let kf = collect_keyframes(lines);
    if kf.len() == 0 {
        assert forall|t: u64| !is_keyframe_time(crate::types::texts(lines@), t) by {
            assert(!kf@.contains(t));
        }
        return Err(text::own("no keyframes found in source"));
    }
    match (&info.video, info.duration_us) {
        (Some(v), Some(d)) => {
            let duration: u64 = d as u64;
            proof {
                keyframe_count_bound(kf@, crate::types::texts(lines@));
            }
            let segments = group_segments(&kf, duration);
            assert(strictly_increasing(kf@));
            Ok(
                StreamPlan {
                    version: PLAN_VERSION,
                    mode: Mode::Remux,
                    duration,
                    video_codec: text::own(v.codec.as_str()),
                    segments,
                },
            )
        },
        _ => {
            assert(false);
            Err(String::new())
        },
    }
}

/// A listing has at most as many keyframes as lines.
proof fn keyframe_count_bound(kf: Seq<u64>, lines: Seq<Seq<char>>)
    requires
        strictly_increasing(kf),
        forall|t: u64| kf.contains(t) ==> is_keyframe_time(lines, t),
    ensures
        kf.len() <= lines.len(),
{
    let line_of = |t: u64|
        choose|i: int|
            0 <= i < lines.len() && keyframe_time(#[trigger] lines[i]) == Some(t as int);
    let used = Seq::new(kf.len(), |k: int| line_of(kf[k]));
    assert forall|k: int| 0 <= k < kf.len() implies 0 <= #[trigger] used[k] < lines.len()
        && keyframe_time(lines[used[k]]) == Some(kf[k] as int) by {
        assert(kf.contains(kf[k]));
        assert(is_keyframe_time(lines, kf[k]));
    }
    assert(used.no_duplicates()) by {
        assert forall|a: int, b: int| 0 <= a < used.len() && 0 <= b < used.len() && a != b implies used[a]
            != used[b] by {
            if a < b {
                assert(kf[a] < kf[b]);
            } else {
                assert(kf[b] < kf[a]);
            }
        }
    }
    let range = vstd::set_lib::set_int_range(0, lines.len() as int);
    vstd::set_lib::lemma_int_range(0, lines.len() as int);
    used.unique_seq_to_set();
    assert(used.to_set().subset_of(range)) by {
        assert forall|x: int| used.to_set().contains(x) implies range.contains(x) by {
            let k = choose|k: int| 0 <= k < used.len() && used[k] == x;
        }
    }
    vstd::set_lib::lemma_len_subset(used.to_set(), range);
}

// ---- the plan of an encode ----

/// How many segments of the target length a source fills, the last one perhaps in part.
pub open spec fn even_count(duration: int) -> int {
    (duration + TARGET_SEGMENT_US - 1) / (TARGET_SEGMENT_US as int)
}

/// Segment number `k + 1` of an encode.
pub open spec fn even_segment(duration: int, k: int) -> Segment {
    let t = k * TARGET_SEGMENT_US;
    Segment {
        i: (k + 1) as u32,
        t: t as u64,
        d: if duration - t < TARGET_SEGMENT_US {
            (duration - t) as u64
        } else {
            TARGET_SEGMENT_US
        },
    }
}

/// The segments of an encode. A keyframe is forced at the start of each, so all but the
/// last have the target length.
pub open spec fn even_segments(duration: int) -> Seq<Segment> {
    Seq::new(even_count(duration) as nat, |k: int| even_segment(duration, k))
}

/// The greatest height that a bitrate is enough for.
pub open spec fn ladder_height(bitrate_kbps: int) -> u32 {
    if bitrate_kbps < 1000 {
        360
    } else if bitrate_kbps < 2500 {
        480
    } else if bitrate_kbps < 5000 {
        720
    } else {
        1080
    }
}

/// The length of a source, where it can be encoded: one that is known, and no more
/// segments than can be numbered.
pub open spec fn encode_length(duration_us: Option<i64>) -> Option<int> {
    match duration_us {
        Some(d) => if 0 < d && even_count(d as int) < u32::MAX {
            Some(d as int)
        } else {
            None
        },
        None => None,
    }
}

/// The height that an encode at a bitrate keeps to.
pub fn height_for_bitrate(bitrate_kbps: u32) -> (r: u32)
    ensures
        r == ladder_height(bitrate_kbps as int),
{
    if bitrate_kbps < 1000 {
        360
    } else if bitrate_kbps < 2500 {
        480
    } else if bitrate_kbps < 5000 {
        720
    } else {
        1080
    }
}

/// A greater bitrate never makes the picture smaller.
pub proof fn ladder_climbs(a: int, b: int)
    requires
        a <= b,
    ensures
        ladder_height(a) <= ladder_height(b),
{
}

/// Builds the plan of an encode of a source.
pub fn build_transcode_plan(info: &MediaTechInfo, bitrate_kbps: u32) -> (r: Result<
    StreamPlan,
    String,
>)
    ensures
        match r {
            Ok(p) => {
                &&& encode_length(info.duration_us) == Some(p.duration as int)
                &&& p.version == PLAN_VERSION
                &&& p.mode == (Mode::Transcode {
                    bitrate_kbps,
                    max_height: ladder_height(bitrate_kbps as int),
                })
                &&& p.video_codec@ == "h264"@
                &&& p.segments@ == even_segments(p.duration as int)
            },
            Err(why) => encode_length(info.duration_us) is None && why@ == "unknown duration"@,
        },
{
    let length: i64 = match info.duration_us {
        Some(d) => d,
        None => 0,
    };
    if length <= 0 {
        return Err(text::own("unknown duration"));
    }
    let duration: u64 = length as u64;
    let whole: u64 = duration / TARGET_SEGMENT_US;
    let count: u64 = if duration % TARGET_SEGMENT_US == 0 { whole } else { whole + 1 };
    assert(count == even_count(duration as int));
    if count >= u32::MAX as u64 {
        return Err(text::own("unknown duration"));
    }
    let mut segments: Vec<Segment> = Vec::new();
    let mut k: u64 = 0;
    while k < count
        invariant
            k <= count < u32::MAX,
            count == even_count(duration as int),
            segments@ =~= even_segments(duration as int).take(k as int),
        decreases count - k,
    {
        let t: u64 = k * TARGET_SEGMENT_US;
        let rest: u64 = duration - t;
        let d: u64 = if rest < TARGET_SEGMENT_US { rest } else { TARGET_SEGMENT_US };
        segments.push(Segment { i: k as u32 + 1, t, d });
        k += 1;
    }
    assert(segments@ =~= even_segments(duration as int));
    Ok(
        StreamPlan {
            version: PLAN_VERSION,
            mode: Mode::Transcode { bitrate_kbps, max_height: height_for_bitrate(bitrate_kbps) },
            duration,
            video_codec: text::own("h264"),
            segments,
        },
    )
}

proof fn even_tail_tiles(duration: int, k: int)
    requires
        0 < duration <= i64::MAX,
        0 <= k <= even_count(duration) < u32::MAX,
    ensures
        k < even_count(duration) ==> tiles(
            even_segments(duration).skip(k),
            k + 1,
            k * TARGET_SEGMENT_US,
            duration,
        ),
    decreases even_count(duration) - k,
{
    if k < even_count(duration) {
        even_tail_tiles(duration, k + 1);
        let s = even_segments(duration).skip(k);
        assert(s[0] == even_segment(duration, k));
        assert(s.skip(1) =~= even_segments(duration).skip(k + 1));
        let from = k * TARGET_SEGMENT_US;
        assert(0 <= from < duration);
        assert(s[0].i == k + 1 && s[0].t == from);
        if k + 1 == even_count(duration) {
            assert(s.skip(1).len() == 0);
            assert(from + s[0].d == duration);
            assert(tiles(s.skip(1), k + 2, duration, duration));
        } else {
            assert(from + s[0].d == (k + 1) * TARGET_SEGMENT_US);
            assert(tiles(s.skip(1), k + 2, from + s[0].d, duration));
        }
    }
}

/// The segments of an encode are numbered from one without gaps, cover the whole of the
/// source, and none is longer than the target length.
pub proof fn even_segments_tile(duration: int)
    requires
        encode_length(Some(duration as i64)) == Some(duration),
    ensures
        tiles(even_segments(duration), 1, 0, duration),
        forall|k: int|
            0 <= k < even_segments(duration).len() ==> 0 < (#[trigger] even_segments(duration)[k]).d
                <= TARGET_SEGMENT_US,
{
    even_tail_tiles(duration, 0);
    assert(even_segments(duration).skip(0) =~= even_segments(duration));
}

/// The mode's name in responses.
pub open spec fn mode_name(mode: Mode) -> Seq<char> {
    match mode {
        Mode::Remux => "remux"@,
        Mode::Transcode { .. } => "transcode"@,
    }
}

/// The name of a mode.
pub fn mode_str(mode: &Mode) -> (r: &'static str)
    ensures
        r@ == mode_name(*mode),
{
    match mode {
        Mode::Remux => "remux",
        Mode::Transcode { .. } => "transcode",
    }
}

/// Whether a stored plan still describes the source: it was built by the current
/// algorithm, from a file with the same modification time and size.
pub fn is_fresh(version: u32, stored: (i64, i64), current: Option<(i64, i64)>) -> (r: bool)
    ensures
        r == (version == PLAN_VERSION && current == Some(stored)),
{
    match current {
        Some(c) => version == PLAN_VERSION && c.0 == stored.0 && c.1 == stored.1,
        None => false,
    }
}

// ---- further laws ----

/// A source is segmented by copying exactly where it has video that is neither VP8, VP9 nor
/// AV1 and lasts half a second or more.
pub proof fn copied_where_it_fits(info: MediaTechInfo)
    ensures
        copy_remux_obstacle(info) is None <==> info.video is Some && (info.video->0).codec@ != "vp8"@
            && (info.video->0).codec@ != "vp9"@ && (info.video->0).codec@ != "av1"@
            && info.duration_us is Some && info.duration_us->0 >= 500_000,
        info.video is None ==> copy_remux_obstacle(info) == Some("no video stream"@),
        info.video is Some && info.duration_us is None && !is_webm_codec((info.video->0).codec@)
            ==> copy_remux_obstacle(info) == Some("missing or invalid duration"@),
{
}

/// A line of the packet listing tells a keyframe by a `K` among what stands behind its first
/// comma, and its time by what stands before it.
pub proof fn keyframes_are_told_by_their_flag(time: Seq<char>, flags: Seq<char>)
    requires
        !time.contains(','),
    ensures
        ({
            let line = time + seq![','] + flags;
            let t = decimal::seconds_us(time);
            &&& !flags.contains('K') ==> keyframe_time(line) is None
            &&& flags.contains('K') && t is Some && t->0 >= 0 ==> keyframe_time(line) == t
            &&& t is None || t->0 < 0 ==> keyframe_time(line) is None
        }),
{
    let line = time + seq![','] + flags;
    assert forall|i: int| 0 <= i < time.len() implies #[trigger] line[i] != ',' by {
        assert(time.contains(time[i]));
        assert(line[i] == time[i]);
    }
    text::first_index_is(line, ',', time.len() as int);
    assert(line.take(time.len() as int) =~= time);
    assert(line.skip(time.len() + 1int) =~= flags);
}

/// The steps of the ladder: 480 lines from a megabit on, 720 from two and a half, 1080 from
/// five, and 360 below.
pub proof fn ladder_has_four_steps(bitrate_kbps: int)
    ensures
        ladder_height(bitrate_kbps) == 360 <==> bitrate_kbps <= 999,
        ladder_height(bitrate_kbps) >= 480 <==> bitrate_kbps >= 1_000,
        ladder_height(bitrate_kbps) >= 720 <==> bitrate_kbps >= 2_500,
        ladder_height(bitrate_kbps) == 1080 <==> bitrate_kbps >= 5_000,
        ladder_height(bitrate_kbps) == 360 || ladder_height(bitrate_kbps) == 480 || ladder_height(
            bitrate_kbps,
        ) == 720 || ladder_height(bitrate_kbps) == 1080,
{
}

/// Every segment of an encode but the last takes six seconds, and starts where as many of
/// six seconds have passed as there are before it.
pub proof fn even_segments_take_six_seconds(duration: int, k: int)
    requires
        encode_length(Some(duration as i64)) == Some(duration),
        0 <= k < even_segments(duration).len(),
    ensures
        even_segments(duration)[k].i == k + 1,
        even_segments(duration)[k].t == 6_000_000 * k,
        k + 1 < even_segments(duration).len() ==> even_segments(duration)[k].d == 6_000_000,
        k + 1 == even_segments(duration).len() ==> even_segments(duration)[k].d == duration
            - 6_000_000 * k && 0 < duration - 6_000_000 * k <= 6_000_000,
{
    let n = even_count(duration);
    assert(n == (duration + 5_999_999) / 6_000_000);
    assert(6_000_000 * (n - 1) < duration <= 6_000_000 * n);
    assert(k * TARGET_SEGMENT_US == 6_000_000 * k);
}

/// A source without a keyframe or without a length has no segment; every other has one.
pub proof fn empty_sources_have_no_segment(kf: Seq<u64>, duration: u64)
    ensures
        kf.len() == 0 ==> segments_of(kf, duration).len() == 0,
        duration == 0 ==> segments_of(kf, duration).len() == 0,
        kf.len() > 0 && duration > 0 ==> segments_of(kf, duration).len() > 0,
{
}

/// Sound that is AAC or MP3 can be copied, and no other; the two ways are called `remux` and
/// `transcode`.
pub proof fn two_kinds_of_sound_are_copied(codec: Seq<char>, mode: Mode)
    ensures
        copies_audio("aac"@) && copies_audio("mp3"@),
        codec != "aac"@ && codec != "mp3"@ ==> !copies_audio(codec),
        mode is Remux ==> mode_name(mode) == "remux"@,
        mode is Transcode ==> mode_name(mode) == "transcode"@,
{
}

} // verus!
