//! What the browser asks of the server, and what it makes of the answers.

use crate::auth;
use crate::text;
use vstd::prelude::*;

verus! {

/// A text, or its first bytes and a mark that something is missing.
pub open spec fn shortened(s: Seq<char>, n: nat) -> Seq<char> {
    if text::byte_size(s) <= n {
        s
    } else {
        text::byte_prefix(s, n) + "…"@
    }
}

/// Cuts a text behind its first `n` bytes, where it is longer.
pub fn truncate(s: &str, n: u64) -> (r: String)
    requires
        n <= 0xffff_ffff,
        text::splits_at(s@, n as nat),
    ensures
        r@ == shortened(s@, n as nat),
{
    if text::is_wider(s, n) {
        let mut out = text::first_bytes(s, n);
        out.push_str("…");
        out
    } else {
        text::own(s)
    }
}

/// An answer that says that all went well.
pub open spec fn is_success(status: u16) -> bool {
    200 <= status < 300
}

/// Whether the body of an answer is read, and what is said where it is not.
pub fn check_answer(url: &str, status: u16, body: &str) -> (r: Result<(), String>)
    requires
        !is_success(status) ==> text::splits_at(body@, 300),
    ensures
        r is Ok == is_success(status),
        r matches Err(why) ==> why@ == url@ + " returned HTTP "@ + text::decimal(status as nat)
            + ": "@ + shortened(body@, 300),
{
    if 200 <= status && status < 300 {
        return Ok(());
    }
    let mut why = text::own(url);
    why.push_str(" returned HTTP ");
    text::push_u64(&mut why, status as u64);
    why.push_str(": ");
    why.push_str(truncate(body, 300).as_str());
    Err(why)
}

/// Whether an answer without a body says that all went well.
pub fn check_status(url: &str, status: u16) -> (r: Result<(), String>)
    ensures
        r is Ok == is_success(status),
        r matches Err(why) ==> why@ == url@ + " returned HTTP "@ + text::decimal(status as nat),
{
    if 200 <= status && status < 300 {
        return Ok(());
    }
    let mut why = text::own(url);
    why.push_str(" returned HTTP ");
    text::push_u64(&mut why, status as u64);
    Err(why)
}

/// What is said of a body that cannot be read.
pub fn invalid_json(url: &str, error: &str, body: &str) -> (r: String)
    requires
        text::splits_at(body@, 200),
    ensures
        r@ == "invalid JSON from "@ + url@ + ": "@ + error@ + ". First bytes: "@ + shortened(
            body@,
            200,
        ),
{
    let mut out = text::own("invalid JSON from ");
    out.push_str(url);
    out.push_str(": ");
    out.push_str(error);
    out.push_str(". First bytes: ");
    out.push_str(truncate(body, 200).as_str());
    out
}

/// What is said where the server could not be reached.
pub fn network_error(url: &str, error: &str) -> (r: String)
    ensures
        r@ == "network error hitting "@ + url@ + ": "@ + error@,
{
    let mut out = text::own("network error hitting ");
    out.push_str(url);
    out.push_str(": ");
    out.push_str(error);
    out
}

/// What is said where an answer broke off.
pub fn body_error(url: &str, error: &str) -> (r: String)
    ensures
        r@ == "failed to read response body from "@ + url@ + ": "@ + error@,
{
    let mut out = text::own("failed to read response body from ");
    out.push_str(url);
    out.push_str(": ");
    out.push_str(error);
    out
}

/// What can be asked of the server without further settings. What is named by an id is a
/// movie, an episode or a show.
pub enum Endpoint {
    Library,
    ContinueWatching,
    Rooms,
    Scan,
    ScanStatus,
    Show { id: String },
    Media { id: String },
    Subtitles { id: String },
    Tech { id: String },
    Progress { id: String },
    Watched { id: String },
}

/// Where something that is named by its id is asked.
pub open spec fn media_path(id: Seq<char>, part: Seq<char>) -> Seq<char> {
    "/api/media/"@ + id + part
}

fn media_url(id: &str, part: &str) -> (r: String)
    ensures
        r@ == media_path(id@, part@),
{
    let mut out = text::own("/api/media/");
    out.push_str(id);
    out.push_str(part);
    out
}

impl Endpoint {
    pub open spec fn path(&self) -> Seq<char> {
        match self {
            Endpoint::Library => "/api/library"@,
            Endpoint::ContinueWatching => "/api/continue-watching"@,
            Endpoint::Rooms => "/api/rooms"@,
            Endpoint::Scan => "/api/scan"@,
            Endpoint::ScanStatus => "/api/scan/status"@,
            Endpoint::Show { id } => "/api/shows/"@ + id@,
            Endpoint::Media { id } => media_path(id@, ""@),
            Endpoint::Subtitles { id } => media_path(id@, "/subtitles"@),
            Endpoint::Tech { id } => media_path(id@, "/tech"@),
            Endpoint::Progress { id } => media_path(id@, "/progress"@),
            Endpoint::Watched { id } => media_path(id@, "/watched"@),
        }
    }

    /// Its address on the server.
    pub fn url(&self) -> (r: String)
        ensures
            r@ == self.path(),
    {
        match self {
            Endpoint::Library => text::own("/api/library"),
            Endpoint::ContinueWatching => text::own("/api/continue-watching"),
            Endpoint::Rooms => text::own("/api/rooms"),
            Endpoint::Scan => text::own("/api/scan"),
            Endpoint::ScanStatus => text::own("/api/scan/status"),
            Endpoint::Show { id } => {
                let mut out = text::own("/api/shows/");
                out.push_str(id.as_str());
                out
            },
            Endpoint::Media { id } => media_url(id.as_str(), ""),
            Endpoint::Subtitles { id } => media_url(id.as_str(), "/subtitles"),
            Endpoint::Tech { id } => media_url(id.as_str(), "/tech"),
            Endpoint::Progress { id } => media_url(id.as_str(), "/progress"),
            Endpoint::Watched { id } => media_url(id.as_str(), "/watched"),
        }
    }
}

/// Where the state of a delivery is asked.
pub open spec fn state_url(
    id: Seq<char>,
    audio_idx: nat,
    mode: Seq<char>,
    bitrate_kbps: Option<u32>,
) -> Seq<char> {
    "/api/media/"@ + id + "/hls/state?a="@ + text::decimal(audio_idx) + (if mode.len() > 0 {
        "&mode="@ + mode
    } else {
        ""@
    }) + match bitrate_kbps {
        Some(b) => "&bitrate="@ + text::decimal(b as nat),
        None => ""@,
    }
}

/// The address at which the state of a delivery is asked.
pub fn hls_state_url(id: &str, audio_idx: u32, mode: &str, bitrate_kbps: Option<u32>) -> (r: String)
    ensures
        r@ == state_url(id@, audio_idx as nat, mode@, bitrate_kbps),
{
    proof {
        reveal_strlit("");
    }
    let mut out = text::own("/api/media/");
    out.push_str(id);
    out.push_str("/hls/state?a=");
    text::push_u64(&mut out, audio_idx as u64);
    let chars = text::chars_of(mode);
    if chars.len() > 0 {
        out.push_str("&mode=");
        out.push_str(mode);
    }
    if let Some(b) = bitrate_kbps {
        out.push_str("&bitrate=");
        text::push_u64(&mut out, b as u64);
    }
    assert(out@ =~= state_url(id@, audio_idx as nat, mode@, bitrate_kbps));
    out
}

/// A byte that stands for itself in a part of an address.
pub open spec fn is_component_byte(b: u8) -> bool {
    auth::is_plain_byte(b) || b == 33 || b == 39 || b == 40 || b == 41 || b == 42
}

/// A byte as it is written in a part of an address.
pub open spec fn component_byte(b: u8) -> Seq<char> {
    if is_component_byte(b) {
        seq![b as char]
    } else {
        auth::encoded_byte(b)
    }
}

/// Bytes as they are written in a part of an address.
pub open spec fn component(bytes: Seq<u8>) -> Seq<char>
    decreases bytes.len(),
{
    if bytes.len() == 0 {
        Seq::empty()
    } else {
        component(bytes.drop_last()) + component_byte(bytes.last())
    }
}

/// The name of a set of preferences, as it is written in an address.
pub fn encode_scope(scope: &str) -> (r: String)
    ensures
        r@ == component(vstd::utf8::encode_utf8(scope@)),
{
    let bytes = scope.as_bytes();
    let ghost all = bytes@;
    let mut out = String::new();
    let mut i: usize = 0;
    assert(all.take(0) =~= Seq::<u8>::empty());
    assert(out@ =~= component(all.take(0)));
    while i < bytes.len()
        invariant
            i <= bytes@.len(),
            all == bytes@,
            out@ == component(all.take(i as int)),
        decreases bytes@.len() - i,
    {
        let b: u8 = bytes[i];
        assert(all.take(i + 1).drop_last() =~= all.take(i as int));
        if b == 33 || b == 39 || b == 40 || b == 41 || b == 42 {
            out.push(b as char);
        } else {
            auth::push_byte(&mut out, b);
        }
        assert(out@ =~= component(all.take(i + 1)));
        i += 1;
    }
    assert(all.take(i as int) =~= all);
    out
}

/// Where a set of preferences is read and written.
pub fn preferences_url(scope: &str) -> (r: String)
    ensures
        r@ == "/api/preferences/"@ + component(vstd::utf8::encode_utf8(scope@)),
{
    let mut out = text::own("/api/preferences/");
    out.push_str(encode_scope(scope).as_str());
    out
}

// ---- laws ----

proof fn first_byte_is_written_first(b: u8, rest: Seq<u8>)
    ensures
        component(seq![b] + rest) == component_byte(b) + component(rest),
    decreases rest.len(),
{
    let all = seq![b] + rest;
    if rest.len() == 0 {
        assert(all.drop_last() =~= Seq::empty());
        assert(component(all.drop_last()) =~= Seq::empty());
        assert(component(all) =~= component_byte(b) + component(rest));
    } else {
        first_byte_is_written_first(b, rest.drop_last());
        assert(all.drop_last() =~= seq![b] + rest.drop_last());
        assert(component(all) =~= component_byte(b) + component(rest));
    }
}

proof fn written_byte_is_read(b: u8, rest: Seq<char>)
    ensures
        auth::url_decoded(component_byte(b) + rest) == seq![b] + auth::url_decoded(rest),
{
    let e = component_byte(b);
    let s = e + rest;
    assert(s[0] == e[0]);
    if is_component_byte(b) {
        assert(s.skip(1) =~= rest);
        assert(s[0] == b as char);
        assert((b as char) as u8 == b);
    } else {
        let h = b as int / 16;
        let l = b as int % 16;
        assert(auth::hex_value(auth::hex_digit(h)) == h);
        assert(auth::hex_value(auth::hex_digit(l)) == l);
        assert(s.skip(3) =~= rest);
        assert(s[1] == e[1] && s[2] == e[2]);
        assert(16 * h + l == b);
    }
}

/// A part of an address is read back as the bytes that it was written from.
pub proof fn component_is_read_back(bytes: Seq<u8>)
    ensures
        auth::url_decoded(component(bytes)) == bytes,
    decreases bytes.len(),
{
    if bytes.len() > 0 {
        let rest = bytes.skip(1);
        assert(bytes =~= seq![bytes[0]] + rest);
        first_byte_is_written_first(bytes[0], rest);
        component_is_read_back(rest);
        written_byte_is_read(bytes[0], component(rest));
    }
    assert(auth::url_decoded(component(bytes)) =~= bytes);
}

/// No byte that ends a part of an address, or that starts a query, stands for itself.
pub proof fn separators_are_escaped(b: u8)
    requires
        b == 47 || b == 63 || b == 35 || b == 37 || b == 38 || b == 61 || b == 43 || b == 32,
    ensures
        component_byte(b).len() == 3,
        component_byte(b)[0] == '%',
{
}

/// A text that is cut keeps its beginning and says that something is missing; one that is
/// short enough is not touched.
pub proof fn long_texts_are_cut(s: Seq<char>, n: nat)
    ensures
        text::byte_size(s) <= n ==> shortened(s, n) == s,
        text::byte_size(s) > n ==> {
            let kept = shortened(s, n).drop_last();
            &&& kept.is_prefix_of(s)
            &&& text::byte_size(kept) <= n
            &&& shortened(s, n).last() == '…'
        },
{
    reveal_strlit("…");
    text::prefix_fits_and_is_longest(s, n);
    if text::byte_size(s) > n {
        assert(shortened(s, n).drop_last() =~= text::byte_prefix(s, n));
    }
}

/// What is answered with a status from 200 to 299 went well.
pub proof fn two_hundreds_are_success(status: u16)
    ensures
        is_success(status) <==> status / 100 == 2,
{
}

/// The state of a stream is asked for with the words with which its playlist names its
/// segments: the same track, way and bit rate.
pub proof fn state_is_asked_of_the_same_stream(
    id: Seq<char>,
    audio_idx: nat,
    mode: Seq<char>,
    bitrate_kbps: Option<u32>,
)
    ensures
        state_url(id, audio_idx, mode, bitrate_kbps) == "/api/media/"@ + id + "/hls/state?"@
            + crate::hls::playlist::query_of(audio_idx as int, Some(mode), bitrate_kbps),
{
    reveal_strlit("/hls/state?a=");
    reveal_strlit("/hls/state?");
    reveal_strlit("a=");
    reveal_strlit("");
    assert("/hls/state?a="@ =~= "/hls/state?"@ + "a="@);
    assert(""@ =~= Seq::<char>::empty());
    assert(state_url(id, audio_idx, mode, bitrate_kbps) =~= "/api/media/"@ + id + "/hls/state?"@
        + crate::hls::playlist::query_of(audio_idx as int, Some(mode), bitrate_kbps));
}

} // verus!
