//! The VOD playlist of a plan.

use crate::hls::cache;
use crate::hls::plan::{Segment, StreamPlan};
use crate::numbers;
use crate::text;
use crate::types;
use vstd::prelude::*;

verus! {

/// Microseconds as seconds with three decimals: the seconds in the precision of a 64-bit
/// float, rounded to the nearest, ties to the even digit.
pub open spec fn seconds3(us: int) -> Seq<char> {
    numbers::thousandths_text(numbers::scaled(us as nat, 1_000_000, 1000))
}

/// Appends microseconds as seconds with three decimals.
pub fn push_seconds3(out: &mut String, us: u64)
    ensures
        final(out)@ == old(out)@ + seconds3(us as int),
{
    numbers::push_thousandths(out, numbers::scaled_div(us, 1_000_000, 1000));
}

/// Whole milliseconds are written as they are.
pub proof fn whole_millis_are_exact(ms: nat)
    requires
        ms < 0x400_0000_0000 * 1000,
    ensures
        seconds3((ms * 1000) as int) == numbers::thousandths_text(ms),
{
    numbers::short_fractions_are_exact(ms, 1000, 1000);
}

/// Whole seconds, rounded up.
pub open spec fn ceil_seconds(us: int) -> int {
    (us + 999_999) / 1_000_000
}

/// The target duration of a playlist: its longest segment, rounded up to whole
/// seconds; six where it has none.
pub open spec fn target_duration(s: Seq<Segment>) -> int
    decreases s.len(),
{
    if s.len() == 0 {
        6
    } else if s.len() == 1 {
        ceil_seconds(s[0].d as int)
    } else {
        let rest = target_duration(s.drop_last());
        let own = ceil_seconds(s.last().d as int);
        if own > rest {
            own
        } else {
            rest
        }
    }
}

fn longest_segment(s: &Vec<Segment>) -> (r: u64)
    ensures
        r == target_duration(s@),
{
    if s.len() == 0 {
        return 6;
    }
    let mut best: u64 = 0;
    let mut i: usize = 0;
    while i < s.len()
        invariant
            i <= s@.len(),
            i == 0 ==> best == 0,
            i > 0 ==> best == target_duration(s@.take(i as int)),
        decreases s@.len() - i,
    {
        let d: u64 = s[i].d;
        let own: u64 = d / 1_000_000 + if d % 1_000_000 > 0 { 1u64 } else { 0u64 };
        assert(own == ceil_seconds(d as int));
        assert(s@.take(i + 1).drop_last() =~= s@.take(i as int));
        assert(s@.take(i + 1).last() == s@[i as int]);
        if own > best {
            best = own;
        }
        i += 1;
    }
    assert(s@.take(i as int) =~= s@);
    best
}

/// The query that every address in the playlist carries, so that the requests for
/// segments have the shape of the request for the playlist.
pub open spec fn query_of(audio_idx: int, mode: Option<Seq<char>>, bitrate: Option<u32>) -> Seq<char> {
    "a="@ + text::decimal(audio_idx as nat) + match mode {
        Some(m) => if m.len() > 0 {
            "&mode="@ + m
        } else {
            Seq::empty()
        },
        None => Seq::empty(),
    } + match bitrate {
        Some(b) => "&bitrate="@ + text::decimal(b as nat),
        None => Seq::empty(),
    }
}

fn build_query(audio_idx: u32, mode: Option<&str>, bitrate_kbps: Option<u32>) -> (r: String)
    ensures
        r@ == query_of(audio_idx as int, types::opt_str(mode), bitrate_kbps),
{
    let mut q = text::own("a=");
    text::push_u64(&mut q, audio_idx as u64);
    let ghost head = q@;
    assert(head + Seq::<char>::empty() =~= head);
    if let Some(m) = mode {
        if !m.is_empty() {
            q.push_str("&mode=");
            q.push_str(m);
            assert(q@ =~= head + ("&mode="@ + m@));
        }
    }
    let ghost mid = q@;
    assert(mid + Seq::<char>::empty() =~= mid);
    if let Some(b) = bitrate_kbps {
        q.push_str("&bitrate=");
        text::push_u64(&mut q, b as u64);
        assert(q@ =~= mid + ("&bitrate="@ + text::decimal(b as nat)));
    }
    q
}

/// The line that tells the player where to start; none for an offset of zero or below.
pub open spec fn start_line(offset: Option<i64>) -> Seq<char> {
    match offset {
        Some(t) => if t > 0 {
            "#EXT-X-START:TIME-OFFSET="@ + seconds3(t as int) + ",PRECISE=YES\n"@
        } else {
            Seq::empty()
        },
        None => Seq::empty(),
    }
}

/// The two lines of one segment.
pub open spec fn segment_lines(s: Segment, query: Seq<char>) -> Seq<char> {
    "#EXTINF:"@ + seconds3(s.d as int) + ",\n"@ + cache::segment_name(s.i as int) + "?"@ + query
        + "\n"@
}

/// The lines of all segments.
pub open spec fn all_segment_lines(s: Seq<Segment>, query: Seq<char>) -> Seq<char>
    decreases s.len(),
{
    if s.len() == 0 {
        Seq::empty()
    } else {
        all_segment_lines(s.drop_last(), query) + segment_lines(s.last(), query)
    }
}

/// A complete VOD playlist.
pub open spec fn playlist_text(s: Seq<Segment>, query: Seq<char>, offset: Option<i64>) -> Seq<char> {
    "#EXTM3U\n"@ + "#EXT-X-VERSION:7\n"@ + start_line(offset) + "#EXT-X-TARGETDURATION:"@
        + text::decimal(target_duration(s) as nat) + "\n"@ + "#EXT-X-MEDIA-SEQUENCE:1\n"@
        + "#EXT-X-PLAYLIST-TYPE:VOD\n"@ + "#EXT-X-INDEPENDENT-SEGMENTS\n"@
        + "#EXT-X-MAP:URI=\"init.mp4?"@ + query + "\"\n"@ + all_segment_lines(s, query)
        + "#EXT-X-ENDLIST\n"@
}

fn push_segment(out: &mut String, s: &Segment, query: &str)
    ensures
        final(out)@ == old(out)@ + segment_lines(*s, query@),
{
    let mut line = text::own("#EXTINF:");
    push_seconds3(&mut line, s.d);
    line.push_str(",\n");
    let name = cache::segment_filename(s.i);
    line.push_str(name.as_str());
    line.push_str("?");
    line.push_str(query);
    line.push_str("\n");
    out.push_str(line.as_str());
}

/// Renders the playlist of a plan. The audio track, the mode and the bitrate of the
/// request go into every address; a time offset tells the player where to start.
pub fn render_m3u8(
    plan: &StreamPlan,
    audio_idx: u32,
    mode: Option<&str>,
    bitrate_kbps: Option<u32>,
    time_offset: Option<i64>,
) -> (r: String)
    ensures
        r@ == playlist_text(
            plan.segments@,
            query_of(audio_idx as int, types::opt_str(mode), bitrate_kbps),
            time_offset,
        ),
{
    let target: u64 = longest_segment(&plan.segments);
    let query = build_query(audio_idx, mode, bitrate_kbps);
    let mut out = text::own("#EXTM3U\n");
    out.push_str("#EXT-X-VERSION:7\n");
    let mut start = String::new();
    if let Some(t) = time_offset {
        if t > 0 {
            start.push_str("#EXT-X-START:TIME-OFFSET=");
            push_seconds3(&mut start, t as u64);
            start.push_str(",PRECISE=YES\n");
        }
    }
    assert(start@ =~= start_line(time_offset));
    out.push_str(start.as_str());
    out.push_str("#EXT-X-TARGETDURATION:");
    text::push_u64(&mut out, target);
    out.push_str("\n");
    out.push_str("#EXT-X-MEDIA-SEQUENCE:1\n");
    out.push_str("#EXT-X-PLAYLIST-TYPE:VOD\n");
    out.push_str("#EXT-X-INDEPENDENT-SEGMENTS\n");
    out.push_str("#EXT-X-MAP:URI=\"init.mp4?");
    out.push_str(query.as_str());
    out.push_str("\"\n");
    let ghost head = out@;
    let mut i: usize = 0;
    assert(head + Seq::<char>::empty() =~= head);
    assert(plan.segments@.take(0) =~= Seq::<Segment>::empty());
    while i < plan.segments.len()
        invariant
            i <= plan.segments@.len(),
            out@ == head + all_segment_lines(plan.segments@.take(i as int), query@),
        decreases plan.segments@.len() - i,
    {
        push_segment(&mut out, &plan.segments[i], query.as_str());
        proof {
            let t = plan.segments@.take(i + 1);
            assert(t.drop_last() =~= plan.segments@.take(i as int));
            assert(out@ =~= head + all_segment_lines(t, query@));
        }
        i += 1;
    }
    assert(plan.segments@.take(i as int) =~= plan.segments@);
    out.push_str("#EXT-X-ENDLIST\n");
    out
}

/// No segment is longer than the target duration.
pub proof fn target_covers_segments(s: Seq<Segment>, k: int)
    requires
        0 <= k < s.len(),
    ensures
        s[k].d <= target_duration(s) * 1_000_000,
    decreases s.len(),
{
    if s.len() > 1 {
        if k < s.len() - 1 {
            target_covers_segments(s.drop_last(), k);
            assert(s.drop_last()[k] == s[k]);
        }
    }
}

/// Where the player is to start: the wish, but no later than half a second before
/// the end; none for no wish, or a wish for the very start or for before it.
pub open spec fn clamped_offset(wish: Option<i64>, duration: int) -> Option<int> {
    let last = if duration > 500_000 {
        duration - 500_000
    } else {
        0
    };
    match wish {
        Some(t) => if t > 0 {
            Some(
                if t < last {
                    t as int
                } else {
                    last
                },
            )
        } else {
            None
        },
        None => None,
    }
}

/// Where playing starts, kept within the video.
pub fn clamp_offset(wish: Option<i64>, duration: u64) -> (r: Option<i64>)
    ensures
        match r {
            Some(t) => clamped_offset(wish, duration as int) == Some(t as int),
            None => clamped_offset(wish, duration as int) is None,
        },
{
    let last: u64 = if duration > 500_000 { duration - 500_000 } else { 0 };
    match wish {
        Some(t) => {
            if t > 0 {
                Some(if (t as u64) < last { t } else { last as i64 })
            } else {
                None
            }
        },
        None => None,
    }
}

// ---- further laws ----

/// The target duration is no greater than it has to be: some segment would not fit into one
/// second less.
pub proof fn target_is_reached(s: Seq<Segment>)
    requires
        s.len() > 0,
    ensures
        exists|k: int|
            0 <= k < s.len() && (#[trigger] s[k]).d > (target_duration(s) - 1) * 1_000_000,
    decreases s.len(),
{
    if s.len() == 1 {
        assert(s[0].d > (target_duration(s) - 1) * 1_000_000);
    } else {
        let rest = s.drop_last();
        target_is_reached(rest);
        let k = choose|k: int|
            0 <= k < rest.len() && (#[trigger] rest[k]).d > (target_duration(rest) - 1) * 1_000_000;
        assert(s[k] == rest[k]);
        assert(s[s.len() - 1] == s.last());
    }
}

/// The lines of some segments are those of each of them, one behind another, and each has
/// its duration, its own name and the query of the playlist.
pub proof fn segments_are_listed_in_order(a: Seq<Segment>, b: Seq<Segment>, s: Segment, query: Seq<char>)
    ensures
        all_segment_lines(a + b, query) == all_segment_lines(a, query) + all_segment_lines(b, query),
        all_segment_lines(seq![s], query) == "#EXTINF:"@ + seconds3(s.d as int) + ",\n"@
            + cache::segment_name(s.i as int) + "?"@ + query + "\n"@,
    decreases b.len(),
{
    let one = seq![s];
    assert(one.drop_last() =~= Seq::empty());
    assert(all_segment_lines(one.drop_last(), query) =~= Seq::empty());
    assert(all_segment_lines(one, query) =~= segment_lines(s, query));
    if b.len() == 0 {
        assert(a + b =~= a);
        assert(all_segment_lines(a, query) + all_segment_lines(b, query) =~= all_segment_lines(
            a,
            query,
        ));
    } else {
        segments_are_listed_in_order(a, b.drop_last(), s, query);
        assert((a + b).drop_last() =~= a + b.drop_last());
        assert((a + b).last() == b.last());
        assert(all_segment_lines(a + b, query) =~= all_segment_lines(a, query) + all_segment_lines(
            b,
            query,
        ));
    }
}

/// Playing starts where it is wished, or half a second before the end where that is sooner;
/// never before the start.
pub proof fn start_is_within_the_video(wish: i64, duration: int)
    requires
        duration >= 0,
    ensures
        wish <= 0 ==> clamped_offset(Some(wish), duration) is None,
        wish > 0 && wish + 500_000 <= duration ==> clamped_offset(Some(wish), duration) == Some(
            wish as int,
        ),
        wish > 0 && wish + 500_000 > duration && duration >= 500_000 ==> clamped_offset(
            Some(wish),
            duration,
        ) == Some(duration - 500_000),
        wish > 0 && duration < 500_000 ==> clamped_offset(Some(wish), duration) == Some(0int),
        clamped_offset(None, duration) is None,
{
}

/// A playlist begins with its mark and ends with the mark of its end; between them the list
/// of the segments follows on the line that names the head of the stream.
pub proof fn playlists_are_framed(s: Seq<Segment>, query: Seq<char>, offset: Option<i64>)
    ensures
        ({
            let p = playlist_text(s, query, offset);
            let lines = all_segment_lines(s, query);
            let head = "#EXT-X-MAP:URI=\"init.mp4?"@ + query + "\"\n"@;
            let end = "#EXT-X-ENDLIST\n"@;
            let to = p.len() - end.len();
            let from = to - lines.len();
            &&& p.take("#EXTM3U\n"@.len() as int) == "#EXTM3U\n"@
            &&& p.skip(to) == end
            &&& p.subrange(from, to) == lines
            &&& p.subrange(from - head.len(), from) == head
        }),
{
    let p = playlist_text(s, query, offset);
    let lines = all_segment_lines(s, query);
    let end = "#EXT-X-ENDLIST\n"@;
    let mark = "#EXTM3U\n"@;
    let head = "#EXT-X-MAP:URI=\"init.mp4?"@ + query + "\"\n"@;
    let middle = "#EXT-X-VERSION:7\n"@ + start_line(offset) + "#EXT-X-TARGETDURATION:"@
        + text::decimal(target_duration(s) as nat) + "\n"@ + "#EXT-X-MEDIA-SEQUENCE:1\n"@
        + "#EXT-X-PLAYLIST-TYPE:VOD\n"@ + "#EXT-X-INDEPENDENT-SEGMENTS\n"@;
    assert(p =~= mark + middle + head + lines + end);
    five_parts(mark, middle, head, lines, end);
}

proof fn five_parts(a: Seq<char>, b: Seq<char>, c: Seq<char>, d: Seq<char>, e: Seq<char>)
    ensures
        ({
            let p = a + b + c + d + e;
            let to = p.len() - e.len();
            let from = to - d.len();
            &&& p.take(a.len() as int) == a
            &&& p.skip(to) == e
            &&& p.subrange(from, to) == d
            &&& p.subrange(from - c.len(), from) == c
        }),
{
    let p = a + b + c + d + e;
    let to = p.len() - e.len();
    let from = to - d.len();
    assert(p.take(a.len() as int) =~= a);
    assert(p.skip(to) =~= e);
    assert(p.subrange(from, to) =~= d);
    assert(p.subrange(from - c.len(), from) =~= c);
}

} // verus!
