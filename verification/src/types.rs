//! Values that several parts of the library share.
//!
//! Times are whole microseconds or milliseconds; the program around the
//! library turns them into seconds and back.

use vstd::prelude::*;

verus! {

/// How a browser can be given a file.
#[derive(Debug, Clone, Copy, PartialEq, Eq, Structural)]
pub enum BrowserCompat {
    /// As it is.
    Direct,
    /// Its streams repackaged.
    Remux,
    /// Its video encoded anew.
    Transcode,
}

#[derive(Debug)]
pub struct VideoTrackInfo {
    pub codec: String,
    pub profile: Option<String>,
    pub width: Option<u32>,
    pub height: Option<u32>,
    /// Numerator and denominator of the frame rate, as the probe printed them.
    pub fps: Option<(String, String)>,
    pub bitrate_kbps: Option<u64>,
    pub pix_fmt: Option<String>,
}

#[derive(Debug)]
pub struct AudioTrackInfo {
    pub codec: String,
    pub channels: Option<u32>,
    pub channel_layout: Option<String>,
    pub sample_rate_hz: Option<u32>,
    pub bitrate_kbps: Option<u64>,
    pub language: Option<String>,
    pub title: Option<String>,
    pub default: bool,
}

/// What a probe found out about a file.
#[derive(Debug)]
pub struct MediaTechInfo {
    pub container: Option<String>,
    /// The running time in microseconds; `None` where it is unknown or not finite.
    pub duration_us: Option<i64>,
    pub bitrate_kbps: Option<u64>,
    pub file_size: Option<u64>,
    pub video: Option<VideoTrackInfo>,
    pub audio: Vec<AudioTrackInfo>,
    pub browser_compat: BrowserCompat,
    pub compat_reason: Option<String>,
}

/// The texts of a list of strings.
pub open spec fn texts(v: Seq<String>) -> Seq<Seq<char>> {
    v.map_values(|s: String| s@)
}

/// The text of an optional string.
pub open spec fn opt_text(s: Option<String>) -> Option<Seq<char>> {
    match s {
        Some(t) => Some(t@),
        None => None,
    }
}

/// The text of an optional string slice.
pub open spec fn opt_str(s: Option<&str>) -> Option<Seq<char>> {
    match s {
        Some(t) => Some(t@),
        None => None,
    }
}

/// Appends a copy of `s`.
pub fn push_text(v: &mut Vec<String>, s: &str)
    ensures
        texts(final(v)@) == texts(old(v)@).push(s@),
{
    v.push(s.to_owned());
    assert(texts(v@) =~= texts(old(v)@).push(s@));
}

/// Appends copies of `a` and `b`.
pub fn push_pair(v: &mut Vec<String>, a: &str, b: &str)
    ensures
        texts(final(v)@) == texts(old(v)@).push(a@).push(b@),
{
    push_text(v, a);
    push_text(v, b);
}

/// The texts of a list, one after another, with `sep` between them.
pub open spec fn join_texts(v: Seq<Seq<char>>, sep: Seq<char>) -> Seq<char>
    decreases v.len(),
{
    if v.len() == 0 {
        Seq::empty()
    } else if v.len() == 1 {
        v[0]
    } else {
        join_texts(v.drop_last(), sep) + sep + v.last()
    }
}

/// `v.join(sep)`.
pub fn join(v: &Vec<String>, sep: &str) -> (r: String)
    ensures
        r@ == join_texts(texts(v@), sep@),
{
    let mut out = String::new();
    let mut i: usize = 0;
    while i < v.len()
        invariant
            i <= v@.len(),
            out@ == join_texts(texts(v@).take(i as int), sep@),
        decreases v@.len() - i,
    {
        if i > 0 {
            out.push_str(sep);
        }
        out.push_str(v[i].as_str());
        proof {
            let all = texts(v@);
            assert(all.take(i + 1).drop_last() =~= all.take(i as int));
            assert(all.take(i + 1).last() == v@[i as int]@);
            if i == 0 {
                assert(all.take(1)[0] == v@[0]@);
                assert(out@ =~= join_texts(all.take(1), sep@));
            }
            assert(out@ =~= join_texts(all.take(i + 1), sep@));
        }
        i += 1;
    }
    assert(texts(v@).take(i as int) =~= texts(v@));
    out
}

/// Whether the list holds a text equal to `s`.
pub fn holds_text(v: &Vec<String>, s: &str) -> (r: bool)
    ensures
        r == texts(v@).contains(s@),
{
    let mut i: usize = 0;
    while i < v.len()
        invariant
            i <= v@.len(),
            forall|j: int| 0 <= j < i ==> texts(v@)[j] != s@,
        decreases v@.len() - i,
    {
        if *v[i].as_str() == *s {
            assert(texts(v@)[i as int] == s@);
            return true;
        }
        i += 1;
    }
    assert(!texts(v@).contains(s@));
    false
}

/// A copy of an optional string.
pub fn copy_opt(s: &Option<String>) -> (r: Option<String>)
    ensures
        opt_text(r) == opt_text(*s),
{
    match s {
        Some(t) => Some(t.as_str().to_owned()),
        None => None,
    }
}

/// An owned copy of an optional string slice.
pub fn own_opt(s: Option<&str>) -> (r: Option<String>)
    ensures
        opt_text(r) == opt_str(s),
{
    match s {
        Some(t) => Some(t.to_owned()),
        None => None,
    }
}

/// A copy of a list of strings.
pub fn copy_texts(v: &Vec<String>) -> (r: Vec<String>)
    ensures
        texts(r@) == texts(v@),
{
    let mut out: Vec<String> = Vec::new();
    let mut i: usize = 0;
    while i < v.len()
        invariant
            i <= v@.len(),
            texts(out@) == texts(v@).take(i as int),
        decreases v@.len() - i,
    {
        push_text(&mut out, v[i].as_str());
        assert(texts(v@).take(i + 1) =~= texts(v@).take(i as int).push(v@[i as int]@));
        i += 1;
    }
    assert(texts(v@).take(i as int) =~= texts(v@));
    out
}

/// Lists that are joined one behind the other are joined by the separator too.
pub proof fn joined_lists_join(a: Seq<Seq<char>>, b: Seq<Seq<char>>, sep: Seq<char>)
    requires
        a.len() > 0,
        b.len() > 0,
    ensures
        join_texts(a + b, sep) == join_texts(a, sep) + sep + join_texts(b, sep),
    decreases b.len(),
{
    let all = a + b;
    assert(all.last() == b.last());
    if b.len() == 1 {
        assert(all.drop_last() =~= a);
        assert(b.last() == b[0]);
    } else {
        joined_lists_join(a, b.drop_last(), sep);
        assert(all.drop_last() =~= a + b.drop_last());
        assert(join_texts(all, sep) =~= join_texts(a, sep) + sep + join_texts(b, sep));
    }
}

} // verus!
