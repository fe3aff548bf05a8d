//! What a request for a playlist or a segment asks for.

use crate::hls::plan::Mode;
use crate::text;
use crate::types::BrowserCompat;
use crate::types;
use vstd::prelude::*;

verus! {

/// The greatest audio track number that a request may ask for.
pub const MAX_AUDIO_IDX: u32 = 64;

pub const MIN_BITRATE_KBPS: u32 = 200;

pub const MAX_BITRATE_KBPS: u32 = 20_000;

/// The automatic bitrate where the source's is unknown.
pub const AUTO_BITRATE_FALLBACK_KBPS: u32 = 4000;

/// The automatic bitrate is never higher.
pub const AUTO_BITRATE_CEILING_KBPS: u32 = 6000;

/// The audio track that a request asks for: the first where it names none.
pub fn requested_audio(a: Option<u32>) -> (r: u32)
    ensures
        r == match a {
            Some(n) => n,
            None => 0,
        },
{
    match a {
        Some(n) => n,
        None => 0,
    }
}

/// The message for an audio track number that is out of range.
pub open spec fn audio_idx_message(idx: int) -> Seq<char> {
    "audio index "@ + text::decimal(idx as nat) + " out of range (max "@ + text::decimal(
        MAX_AUDIO_IDX as nat,
    ) + ")"@
}

/// Accepts an audio track number, or says why not.
pub fn validate_audio_idx(idx: u32) -> (r: Result<u32, String>)
    ensures
        match r {
            Ok(n) => idx <= MAX_AUDIO_IDX && n == idx,
            Err(why) => idx > MAX_AUDIO_IDX && why@ == audio_idx_message(idx as int),
        },
{
    if idx > MAX_AUDIO_IDX {
        let mut why = text::own("audio index ");
        text::push_u64(&mut why, idx as u64);
        why.push_str(" out of range (max ");
        text::push_u64(&mut why, MAX_AUDIO_IDX as u64);
        why.push_str(")");
        return Err(why);
    }
    Ok(idx)
}

pub open spec fn clamped(n: int, low: int, high: int) -> int {
    if n < low {
        low
    } else if n > high {
        high
    } else {
        n
    }
}

fn clamp(n: u32, low: u32, high: u32) -> (r: u32)
    requires
        low <= high,
    ensures
        r == clamped(n as int, low as int, high as int),
{
    if n < low {
        low
    } else if n > high {
        high
    } else {
        n
    }
}

/// The bitrate of a transcode: the one asked for, else the source's, each kept within
/// bounds.
pub open spec fn transcode_bitrate(explicit: Option<u32>, source_kbps: Option<u64>) -> int {
    match explicit {
        Some(b) => clamped(b as int, MIN_BITRATE_KBPS as int, MAX_BITRATE_KBPS as int),
        None => {
            let auto = match source_kbps {
                Some(b) => if b <= u32::MAX {
                    b as int
                } else {
                    AUTO_BITRATE_FALLBACK_KBPS as int
                },
                None => AUTO_BITRATE_FALLBACK_KBPS as int,
            };
            clamped(auto, MIN_BITRATE_KBPS as int, AUTO_BITRATE_CEILING_KBPS as int)
        },
    }
}

/// The bit rate of a transcode, in kilobits per second.
pub fn resolve_bitrate(explicit: Option<u32>, source_kbps: Option<u64>) -> (r: u32)
    ensures
        r == transcode_bitrate(explicit, source_kbps),
        MIN_BITRATE_KBPS <= r <= MAX_BITRATE_KBPS,
{
    match explicit {
        Some(b) => clamp(b, MIN_BITRATE_KBPS, MAX_BITRATE_KBPS),
        None => {
            let auto: u32 = match source_kbps {
                Some(b) => if b <= u32::MAX as u64 {
                    b as u32
                } else {
                    AUTO_BITRATE_FALLBACK_KBPS
                },
                None => AUTO_BITRATE_FALLBACK_KBPS,
            };
            clamp(auto, MIN_BITRATE_KBPS, AUTO_BITRATE_CEILING_KBPS)
        },
    }
}

/// How a request wants the video.
#[derive(Debug, Copy, Clone, PartialEq, Eq, Structural)]
pub enum RequestedMode {
    Remux,
    Transcode,
}

/// The mode of a request: the one it names, else the one the file needs; `None` for a
/// name that is not known.
pub open spec fn mode_asked(mode: Option<Seq<char>>, compat: BrowserCompat) -> Option<RequestedMode> {
    match mode {
        Some(m) => if m == "remux"@ {
            Some(RequestedMode::Remux)
        } else if m == "transcode"@ {
            Some(RequestedMode::Transcode)
        } else {
            None
        },
        None => Some(
            if compat is Transcode {
                RequestedMode::Transcode
            } else {
                RequestedMode::Remux
            },
        ),
    }
}

/// The mode that is asked for, or what is said of a word that is none.
pub fn requested_mode(mode: Option<&str>, compat: BrowserCompat) -> (r: Result<
    RequestedMode,
    String,
>)
    ensures
        match r {
            Ok(m) => mode_asked(types::opt_str(mode), compat) == Some(m),
            Err(why) => mode_asked(types::opt_str(mode), compat) is None && (mode matches Some(m)
                && why@ == "unknown hls mode: "@ + m@),
        },
{
    match mode {
        Some(m) => {
            proof {
                reveal_strlit("remux");
                reveal_strlit("transcode");
                assert("remux"@.len() != "transcode"@.len());
            }
            if *m == *"remux" {
                Ok(RequestedMode::Remux)
            } else if *m == *"transcode" {
                Ok(RequestedMode::Transcode)
            } else {
                let mut why = text::own("unknown hls mode: ");
                why.push_str(m);
                Err(why)
            }
        },
        None => match compat {
            BrowserCompat::Transcode => Ok(RequestedMode::Transcode),
            _ => Ok(RequestedMode::Remux),
        },
    }
}

/// The tag under which producers and directories of a mode are kept apart.
pub open spec fn mode_tag(mode: Mode) -> Seq<char> {
    match mode {
        Mode::Remux => "remux"@,
        Mode::Transcode { bitrate_kbps, max_height } => "tx"@ + text::decimal(bitrate_kbps as nat)
            + "h"@ + text::decimal(max_height as nat),
    }
}

/// What tells the directories of two modes apart.
pub fn tag_of(mode: &Mode) -> (r: String)
    ensures
        r@ == mode_tag(*mode),
{
    match *mode {
        Mode::Remux => text::own("remux"),
        Mode::Transcode { bitrate_kbps, max_height } => {
            let mut tag = text::own("tx");
            text::push_u64(&mut tag, bitrate_kbps as u64);
            tag.push_str("h");
            text::push_u64(&mut tag, max_height as u64);
            tag
        },
    }
}

/// The directory that holds the segments of a mode, given that of the copy: an encode has
/// one of its own beside it.
pub open spec fn dir_of_mode(dir: Seq<char>, mode: Mode) -> Seq<char> {
    match mode {
        Mode::Remux => dir,
        Mode::Transcode { .. } => dir + "-"@ + mode_tag(mode),
    }
}

/// The directory for the segments of a mode.
pub fn mode_dir(dir: &str, mode: &Mode) -> (r: String)
    ensures
        r@ == dir_of_mode(dir@, *mode),
{
    let mut out = text::own(dir);
    match mode {
        Mode::Remux => {},
        Mode::Transcode { .. } => {
            out.push_str("-");
            out.push_str(tag_of(mode).as_str());
        },
    }
    out
}

/// Two modes never share a directory.
pub proof fn mode_dirs_differ(dir: Seq<char>, a: Mode, b: Mode)
    requires
        dir_of_mode(dir, a) == dir_of_mode(dir, b),
    ensures
        a == b,
{
    reveal_strlit("-");
    let n = dir.len() as int;
    match (a, b) {
        (Mode::Transcode { .. }, Mode::Transcode { .. }) => {
            assert(dir_of_mode(dir, a).skip(n + 1) =~= mode_tag(a));
            assert(dir_of_mode(dir, b).skip(n + 1) =~= mode_tag(b));
            mode_tag_injective(a, b);
        },
        (Mode::Remux, Mode::Transcode { .. }) => {
            assert(dir_of_mode(dir, b).len() > n);
        },
        (Mode::Transcode { .. }, Mode::Remux) => {
            assert(dir_of_mode(dir, a).len() > n);
        },
        (Mode::Remux, Mode::Remux) => {},
    }
}

/// Two modes with the same tag are the same mode: no producer serves another mode's
/// clients.
pub proof fn mode_tag_injective(a: Mode, b: Mode)
    requires
        mode_tag(a) == mode_tag(b),
    ensures
        a == b,
{
    reveal_strlit("remux");
    reveal_strlit("tx");
    reveal_strlit("h");
    match (a, b) {
        (
            Mode::Transcode { bitrate_kbps: x, max_height: u },
            Mode::Transcode { bitrate_kbps: y, max_height: v },
        ) => {
            let dx = text::decimal(x as nat);
            let dy = text::decimal(y as nat);
            let du = text::decimal(u as nat);
            let dv = text::decimal(v as nat);
            text::decimal_roundtrip(x as nat);
            text::decimal_roundtrip(y as nat);
            assert(mode_tag(a).skip(2) =~= dx.push('h') + du);
            assert(mode_tag(b).skip(2) =~= dy.push('h') + dv);
            assert(!dx.contains('h')) by {
                assert forall|i: int| 0 <= i < dx.len() implies dx[i] != 'h' by {
                    assert(text::is_digit(dx[i]));
                }
            }
            assert(!dy.contains('h')) by {
                assert forall|i: int| 0 <= i < dy.len() implies dy[i] != 'h' by {
                    assert(text::is_digit(dy[i]));
                }
            }
            text::split_unique(dx, du, dy, dv, 'h');
            text::decimal_injective(x as nat, y as nat);
            text::decimal_injective(u as nat, v as nat);
        },
        (Mode::Remux, Mode::Transcode { .. }) => {
            assert(mode_tag(b).take(2) =~= "tx"@);
            assert(mode_tag(b)[0] == mode_tag(b).take(2)[0]);
            assert("tx"@[0] == 't');
            assert("remux"@[0] == 'r');
        },
        (Mode::Transcode { .. }, Mode::Remux) => {
            assert(mode_tag(a).take(2) =~= "tx"@);
            assert(mode_tag(a)[0] == mode_tag(a).take(2)[0]);
            assert("tx"@[0] == 't');
            assert("remux"@[0] == 'r');
        },
        (Mode::Remux, Mode::Remux) => {},
    }
}

/// The value of the cache header: what never changes may be kept for a year.
pub fn cache_control(immutable: bool) -> (r: &'static str)
    ensures
        r@ == if immutable {
            "public, max-age=31536000, immutable"@
        } else {
            "no-store"@
        },
{
    if immutable {
        "public, max-age=31536000, immutable"
    } else {
        "no-store"
    }
}

/// `s` is in ascending order.
pub open spec fn ascending(s: Seq<u32>) -> bool {
    forall|i: int, j: int| 0 <= i <= j < s.len() ==> s[i] <= s[j]
}

/// The segment that a file name of a plan directory stands for, if the plan has it.
pub open spec fn planned_segment(name: Seq<char>, total: u32) -> Option<int> {
    match crate::hls::cache::segment_number(name) {
        Some(n) => if 0 < n <= total {
            Some(n)
        } else {
            None
        },
        None => None,
    }
}

/// The numbers of the planned segments among `names`.
pub open spec fn planned_segments(names: Seq<Seq<char>>, total: u32) -> Seq<u32>
    decreases names.len(),
{
    if names.len() == 0 {
        Seq::empty()
    } else {
        let rest = planned_segments(names.drop_last(), total);
        match planned_segment(names.last(), total) {
            Some(n) => rest.push(n as u32),
            None => rest,
        }
    }
}

fn insert_ascending(v: &mut Vec<u32>, x: u32)
    requires
        ascending(old(v)@),
    ensures
        ascending(final(v)@),
        final(v)@.to_multiset() == old(v)@.to_multiset().insert(x),
{
    let mut k: usize = v.len();
    while k > 0 && v[k - 1] > x
        invariant
            k <= v@.len(),
            v@ == old(v)@,
            forall|j: int| k <= j < v@.len() ==> v@[j] > x,
        decreases k,
    {
        k -= 1;
    }
    let ghost before = v@;
    v.insert(k, x);
    proof {
        broadcast use vstd::seq_lib::group_to_multiset_ensures;

        assert(v@ == before.insert(k as int, x));
    }
}

/// The segments of the plan that are in its directory, in order.
pub fn cached_segments(names: &Vec<String>, total: u32) -> (r: Vec<u32>)
    ensures
        ascending(r@),
        r@.to_multiset() == planned_segments(types::texts(names@), total).to_multiset(),
{
    let mut out: Vec<u32> = Vec::new();
    let ghost all = types::texts(names@);
    let mut i: usize = 0;
    assert(all.take(0) =~= Seq::<Seq<char>>::empty());
    while i < names.len()
        invariant
            i <= names@.len(),
            all == types::texts(names@),
            ascending(out@),
            out@.to_multiset() == planned_segments(all.take(i as int), total).to_multiset(),
        decreases names@.len() - i,
    {
        proof {
            broadcast use vstd::seq_lib::group_to_multiset_ensures;

            assert(all.take(i + 1).drop_last() =~= all.take(i as int));
            assert(all.take(i + 1).last() == names@[i as int]@);
        }
        if let Some(n) = crate::hls::cache::segment_index(names[i].as_str()) {
            if n > 0 && n <= total {
                proof {
                    broadcast use vstd::seq_lib::group_to_multiset_ensures;

                    let rest = planned_segments(all.take(i as int), total);
                    assert(rest.push(n).to_multiset() =~= rest.to_multiset().insert(n));
                }
                insert_ascending(&mut out, n);
            }
        }
        i += 1;
    }
    assert(all.take(i as int) =~= all);
    out
}

// ---- further laws ----

/// A bit rate that is asked for is taken as it is from 200 to 20000 kbit/s, else the nearer
/// of the two bounds.
pub proof fn asked_bitrate_is_kept_in_bounds(b: u32, source_kbps: Option<u64>)
    ensures
        200 <= b <= 20_000 ==> transcode_bitrate(Some(b), source_kbps) == b,
        b < 200 ==> transcode_bitrate(Some(b), source_kbps) == 200,
        b > 20_000 ==> transcode_bitrate(Some(b), source_kbps) == 20_000,
{
}

/// Where none is asked for, it is that of the source from 200 to 6000 kbit/s, else the nearer
/// of the two bounds; 4000 where nothing is known of the source.
pub proof fn own_bitrate_is_that_of_the_source(source: u64)
    ensures
        200 <= source <= 6_000 ==> transcode_bitrate(None, Some(source)) == source,
        source < 200 ==> transcode_bitrate(None, Some(source)) == 200,
        6_000 < source <= 0xffff_ffff ==> transcode_bitrate(None, Some(source)) == 6_000,
        transcode_bitrate(None, None) == 4_000,
{
}

/// The segments that count as cached are those of the plan whose file is there.
pub proof fn cached_are_planned_and_there(names: Seq<Seq<char>>, total: u32, n: u32)
    ensures
        planned_segments(names, total).contains(n) <==> 1 <= n <= total && exists|i: int|
            0 <= i < names.len() && crate::hls::cache::segment_number(#[trigger] names[i]) == Some(
                n as int,
            ),
    decreases names.len(),
{
    if names.len() > 0 {
        let front = names.drop_last();
        cached_are_planned_and_there(front, total, n);
        let rest = planned_segments(front, total);
        let all = planned_segments(names, total);
        assert(names[names.len() - 1] == names.last());
        if rest.contains(n) {
            let w = choose|w: int| 0 <= w < rest.len() && rest[w] == n;
            assert(all[w] == n);
            let i = choose|i: int|
                0 <= i < front.len() && crate::hls::cache::segment_number(#[trigger] front[i])
                    == Some(n as int);
            assert(names[i] == front[i]);
        }
        if planned_segment(names.last(), total) == Some(n as int) {
            assert(all[rest.len() as int] == n);
        }
        if all.contains(n) && !rest.contains(n) {
            let w = choose|w: int| 0 <= w < all.len() && all[w] == n;
            if w < rest.len() {
                assert(rest[w] == n);
            }
            assert(planned_segment(names.last(), total) == Some(n as int));
        }
        if 1 <= n <= total && exists|i: int|
            0 <= i < names.len() && crate::hls::cache::segment_number(#[trigger] names[i]) == Some(
                n as int,
            ) {
            let i = choose|i: int|
                0 <= i < names.len() && crate::hls::cache::segment_number(#[trigger] names[i])
                    == Some(n as int);
            if i < front.len() {
                assert(front[i] == names[i]);
            }
        }
    }
}

/// A request without a mode gets an encode exactly where the file needs one.
pub proof fn file_decides_without_a_mode(compat: BrowserCompat)
    ensures
        mode_asked(None, compat) == Some(RequestedMode::Transcode) <==> compat is Transcode,
        mode_asked(None, compat) == Some(RequestedMode::Remux) <==> compat !is Transcode,
        mode_asked(Some("remux"@), compat) == Some(RequestedMode::Remux),
        mode_asked(Some("transcode"@), compat) == Some(RequestedMode::Transcode),
{
    reveal_strlit("remux");
    reveal_strlit("transcode");
    assert("remux"@.len() != "transcode"@.len());
}

} // verus!
