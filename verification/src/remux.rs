//! How a file is handed to the browser that asks for its stream: as it is, repackaged
//! on the way, or by way of the segmented stream.

use crate::analytics::PlaybackSessionStart;
use crate::hls::playlist;
use crate::ids;
use crate::media_info;
use crate::text;
use crate::types::{push_pair, push_text, BrowserCompat, MediaTechInfo};
use crate::types;
use vstd::prelude::*;

verus! {

/// The query of a request for a stream.
#[derive(Debug)]
pub struct StreamQuery {
    pub mode: Option<String>,
}

impl Default for StreamQuery {
    fn default() -> (r: Self)
        ensures
            r.mode is None,
    {
        StreamQuery { mode: None }
    }
}

// ---- the way it is delivered ----

/// The name of a way of delivery.
pub open spec fn delivery_name(m: BrowserCompat) -> Seq<char> {
    match m {
        BrowserCompat::Direct => "direct"@,
        BrowserCompat::Remux => "remux"@,
        BrowserCompat::Transcode => "transcode"@,
    }
}

/// The name of a way to deliver a file.
pub fn delivery_mode_str(m: BrowserCompat) -> (r: &'static str)
    ensures
        r@ == delivery_name(m),
{
    match m {
        BrowserCompat::Direct => "direct",
        BrowserCompat::Remux => "remux",
        BrowserCompat::Transcode => "transcode",
    }
}

/// Different ways of delivery have different names.
pub proof fn delivery_name_injective(a: BrowserCompat, b: BrowserCompat)
    requires
        delivery_name(a) == delivery_name(b),
    ensures
        a == b,
{
    reveal_strlit("direct");
    reveal_strlit("remux");
    reveal_strlit("transcode");
    assert("direct"@.len() == 6 && "remux"@.len() == 5 && "transcode"@.len() == 9);
}

/// The way of delivery that a query asks for: one of the three by name, or none where it
/// names no mode. Any other name is an error.
pub fn requested_delivery(q: &StreamQuery) -> (r: Result<Option<BrowserCompat>, String>)
    ensures
        match q.mode {
            None => r == Ok::<Option<BrowserCompat>, String>(None),
            Some(name) => match r {
                Ok(Some(m)) => name@ == delivery_name(m),
                Ok(None) => false,
                Err(why) => {
                    &&& forall|m: BrowserCompat| name@ != #[trigger] delivery_name(m)
                    &&& why@ == "unknown stream mode: "@ + name@
                },
            },
        },
{
    match &q.mode {
        None => Ok(None),
        Some(name) => {
            let s = name.as_str();
            if *s == *"direct" {
                Ok(Some(BrowserCompat::Direct))
            } else if *s == *"remux" {
                Ok(Some(BrowserCompat::Remux))
            } else if *s == *"transcode" {
                Ok(Some(BrowserCompat::Transcode))
            } else {
                let mut why = text::own("unknown stream mode: ");
                why.push_str(s);
                Err(why)
            }
        },
    }
}

/// The way that is taken of those that are known.
pub open spec fn way_taken(
    explicit: Option<BrowserCompat>,
    stored: Option<BrowserCompat>,
    probed: Option<BrowserCompat>,
) -> BrowserCompat {
    match (explicit, stored, probed) {
        (Some(m), _, _) => m,
        (None, Some(m), _) => m,
        (None, None, Some(m)) => m,
        (None, None, None) => BrowserCompat::Direct,
    }
}

/// The way a file is delivered: what the query asks for, else the stored verdict, else
/// that of a fresh probe; as it is where there is none of them.
pub fn delivery(
    explicit: Option<BrowserCompat>,
    stored: Option<BrowserCompat>,
    probed: Option<BrowserCompat>,
) -> (r: BrowserCompat)
    ensures
        r == way_taken(explicit, stored, probed),
{
    match explicit {
        Some(m) => m,
        None => match stored {
            Some(m) => m,
            None => match probed {
                Some(m) => m,
                None => BrowserCompat::Direct,
            },
        },
    }
}

/// Where a request for a transcoded stream is sent.
pub fn transcode_target(id: &str) -> (r: String)
    ensures
        r@ == "/api/media/"@ + id@ + "/hls/index.m3u8?a=0&mode=transcode"@,
{
    let mut out = text::own("/api/media/");
    out.push_str(id);
    out.push_str("/hls/index.m3u8?a=0&mode=transcode");
    out
}

// ---- the record of a playback ----

/// The codec of the video track.
pub open spec fn video_codec(info: Option<MediaTechInfo>) -> Option<Seq<char>> {
    match info {
        Some(i) => match i.video {
            Some(v) => Some(v.codec@),
            None => None,
        },
        None => None,
    }
}

/// The codec of the audio track that counts.
pub open spec fn audio_codec(info: Option<MediaTechInfo>) -> Option<Seq<char>> {
    match info {
        Some(i) => media_info::main_audio(i.audio@),
        None => None,
    }
}

pub open spec fn container_of(info: Option<MediaTechInfo>) -> Option<Seq<char>> {
    match info {
        Some(i) => types::opt_text(i.container),
        None => None,
    }
}

pub open spec fn reason_of(info: Option<MediaTechInfo>) -> Option<Seq<char>> {
    match info {
        Some(i) => types::opt_text(i.compat_reason),
        None => None,
    }
}

fn view_of(s: &Option<String>) -> (r: Option<&str>)
    ensures
        types::opt_str(r) == types::opt_text(*s),
{
    match s {
        Some(t) => Some(t.as_str()),
        None => None,
    }
}

fn source_video(info: &Option<MediaTechInfo>) -> (r: Option<&str>)
    ensures
        types::opt_str(r) == video_codec(*info),
{
    match info {
        Some(i) => match &i.video {
            Some(v) => Some(v.codec.as_str()),
            None => None,
        },
        None => None,
    }
}

fn source_audio(info: &Option<MediaTechInfo>) -> (r: Option<String>)
    ensures
        types::opt_text(r) == audio_codec(*info),
{
    match info {
        Some(i) => media_info::main_audio_codec(&i.audio),
        None => None,
    }
}

/// Why a file is delivered as it is: the query that forced it, or the reason that the
/// verdict gives.
pub open spec fn reason_text(
    mode: BrowserCompat,
    forced: bool,
    info: Option<MediaTechInfo>,
) -> Option<Seq<char>> {
    if forced {
        Some("forced_via_query:"@ + delivery_name(mode))
    } else {
        reason_of(info)
    }
}

/// Why a file is delivered as it is.
pub fn chosen_reason(mode: BrowserCompat, forced: bool, info: &Option<MediaTechInfo>) -> (r: Option<
    String,
>)
    ensures
        types::opt_text(r) == reason_text(mode, forced, *info),
{
    if forced {
        let mut out = text::own("forced_via_query:");
        out.push_str(delivery_mode_str(mode));
        return Some(out);
    }
    match info {
        Some(i) => types::copy_opt(&i.compat_reason),
        None => None,
    }
}

/// A playback that starts, with its own copies of what is known of it.
#[derive(Debug)]
pub struct PlaybackSession {
    pub id: String,
    pub user_sub: Option<String>,
    pub media_id: String,
    pub mode: BrowserCompat,
    pub chosen_reason: Option<String>,
    pub src_video_codec: Option<String>,
    pub src_audio_codec: Option<String>,
    pub src_container: Option<String>,
    pub browser: Option<String>,
    pub forced_via_query: bool,
}

impl PlaybackSession {
    /// The record of the start. What comes out of the playback is not known yet.
    pub fn start(&self) -> (r: PlaybackSessionStart<'_>)
        ensures
            r.id@ == self.id@,
            r.media_id@ == self.media_id@,
            r.delivery_mode@ == delivery_name(self.mode),
            types::opt_str(r.chosen_reason) == types::opt_text(self.chosen_reason),
            types::opt_str(r.src_video_codec) == types::opt_text(self.src_video_codec),
            types::opt_str(r.src_audio_codec) == types::opt_text(self.src_audio_codec),
            types::opt_str(r.src_container) == types::opt_text(self.src_container),
            types::opt_str(r.user_sub) == types::opt_text(self.user_sub),
            types::opt_str(r.browser) == types::opt_text(self.browser),
            r.out_video_codec is None,
            r.out_audio_codec is None,
            r.out_container is None,
            r.target_bitrate_kbps is None,
            r.room_id is None,
            r.forced_via_query == self.forced_via_query,
    {
        PlaybackSessionStart {
            id: self.id.as_str(),
            user_sub: view_of(&self.user_sub),
            media_id: self.media_id.as_str(),
            delivery_mode: delivery_mode_str(self.mode),
            chosen_reason: view_of(&self.chosen_reason),
            src_video_codec: view_of(&self.src_video_codec),
            src_audio_codec: view_of(&self.src_audio_codec),
            src_container: view_of(&self.src_container),
            out_video_codec: None,
            out_audio_codec: None,
            out_container: None,
            target_bitrate_kbps: None,
            browser: view_of(&self.browser),
            room_id: None,
            forced_via_query: self.forced_via_query,
        }
    }
}

/// Opens a playback under a new id.
pub fn open_playback_session(
    media_id: &str,
    mode: BrowserCompat,
    forced_via_query: bool,
    info: &Option<MediaTechInfo>,
    user_sub: Option<String>,
    browser: Option<String>,
) -> (r: PlaybackSession)
    ensures
        ids::is_simple_uuid(r.id@),
        r.user_sub == user_sub,
        r.media_id@ == media_id@,
        r.mode == mode,
        types::opt_text(r.chosen_reason) == reason_text(mode, forced_via_query, *info),
        types::opt_text(r.src_video_codec) == video_codec(*info),
        types::opt_text(r.src_audio_codec) == audio_codec(*info),
        types::opt_text(r.src_container) == container_of(*info),
        r.browser == browser,
        r.forced_via_query == forced_via_query,
{
    let container = match info {
        Some(i) => types::copy_opt(&i.container),
        None => None,
    };
    PlaybackSession {
        id: ids::fresh_simple_uuid(),
        user_sub,
        media_id: text::own(media_id),
        mode,
        chosen_reason: chosen_reason(mode, forced_via_query, info),
        src_video_codec: types::own_opt(source_video(info)),
        src_audio_codec: source_audio(info),
        src_container: container,
        browser,
        forced_via_query,
    }
}

// ---- repackaging ----

/// The kind of container that a file is repackaged into.
#[derive(Debug, Clone, Copy, PartialEq, Eq, Structural)]
pub enum OutputFamily {
    Mp4,
    WebM,
}

/// WebM for the codecs that MP4 does not hold well; MP4 for all others, and where the
/// codec is unknown.
pub open spec fn family_for(video: Option<Seq<char>>) -> OutputFamily {
    match video {
        Some(c) => if c == "vp9"@ || c == "vp8"@ || c == "av1"@ {
            OutputFamily::WebM
        } else {
            OutputFamily::Mp4
        },
        None => OutputFamily::Mp4,
    }
}

/// The kind of file that a video stream goes into.
pub fn output_family(video: Option<&str>) -> (r: OutputFamily)
    ensures
        r == family_for(types::opt_str(video)),
{
    match video {
        Some(c) => if *c == *"vp9" || *c == *"vp8" || *c == *"av1" {
            OutputFamily::WebM
        } else {
            OutputFamily::Mp4
        },
        None => OutputFamily::Mp4,
    }
}

impl OutputFamily {
    pub open spec fn mime(self) -> Seq<char> {
        match self {
            OutputFamily::Mp4 => "video/mp4"@,
            OutputFamily::WebM => "video/webm"@,
        }
    }

    pub open spec fn format(self) -> Seq<char> {
        match self {
            OutputFamily::Mp4 => "mp4"@,
            OutputFamily::WebM => "webm"@,
        }
    }

    /// What it is announced as.
    pub fn content_type(self) -> (r: &'static str)
        ensures
            r@ == self.mime(),
    {
        match self {
            OutputFamily::Mp4 => "video/mp4",
            OutputFamily::WebM => "video/webm",
        }
    }

    /// Its name to the tool that writes it.
    pub fn container(self) -> (r: &'static str)
        ensures
            r@ == self.format(),
    {
        match self {
            OutputFamily::Mp4 => "mp4",
            OutputFamily::WebM => "webm",
        }
    }
}

/// The container can hold the source's audio as it is.
pub open spec fn keeps_audio(family: OutputFamily, audio: Option<Seq<char>>) -> bool {
    match audio {
        Some(c) => match family {
            OutputFamily::Mp4 => c == "aac"@ || c == "mp3"@,
            OutputFamily::WebM => c == "opus"@ || c == "vorbis"@,
        },
        None => false,
    }
}

/// What is done with the audio: copied, or encoded with the container's own codec.
pub open spec fn audio_action_for(family: OutputFamily, audio: Option<Seq<char>>) -> Seq<char> {
    if keeps_audio(family, audio) {
        "copy"@
    } else {
        match family {
            OutputFamily::Mp4 => "aac"@,
            OutputFamily::WebM => "opus"@,
        }
    }
}

/// The arguments for the audio. What is encoded anew has two channels.
pub open spec fn remux_audio_args(family: OutputFamily, audio: Option<Seq<char>>) -> Seq<Seq<char>> {
    if keeps_audio(family, audio) {
        seq!["-c:a"@, "copy"@]
    } else {
        match family {
            OutputFamily::Mp4 => seq!["-c:a"@, "aac"@, "-ac"@, "2"@, "-b:a"@, "192k"@],
            OutputFamily::WebM => seq!["-c:a"@, "libopus"@, "-ac"@, "2"@, "-b:a"@, "160k"@],
        }
    }
}

fn copies_audio(family: OutputFamily, audio: Option<&str>) -> (r: bool)
    ensures
        r == keeps_audio(family, types::opt_str(audio)),
{
    match audio {
        Some(c) => match family {
            OutputFamily::Mp4 => *c == *"aac" || *c == *"mp3",
            OutputFamily::WebM => *c == *"opus" || *c == *"vorbis",
        },
        None => false,
    }
}

/// The running time, where it is known and more than nothing.
pub open spec fn known_duration(info: Option<MediaTechInfo>) -> Option<int> {
    match info {
        Some(i) => match i.duration_us {
            Some(d) => if d > 0 {
                Some(d as int)
            } else {
                None
            },
            None => None,
        },
        None => None,
    }
}

fn duration_of(info: &Option<MediaTechInfo>) -> (r: Option<u64>)
    ensures
        match r {
            Some(d) => known_duration(*info) == Some(d as int),
            None => known_duration(*info) is None,
        },
{
    match info {
        Some(i) => match i.duration_us {
            Some(d) => if d > 0 {
                Some(d as u64)
            } else {
                None
            },
            None => None,
        },
        None => None,
    }
}

pub open spec fn limit_args(duration: Option<int>) -> Seq<Seq<char>> {
    match duration {
        Some(d) => seq!["-t"@, playlist::seconds3(d)],
        None => Seq::empty(),
    }
}

pub open spec fn fragment_args(family: OutputFamily) -> Seq<Seq<char>> {
    match family {
        OutputFamily::Mp4 => seq!["-movflags"@, "frag_keyframe+empty_moov+default_base_moof"@],
        OutputFamily::WebM => Seq::empty(),
    }
}

fn push_audio(args: &mut Vec<String>, family: OutputFamily, audio: Option<&str>)
    ensures
        types::texts(final(args)@) == types::texts(old(args)@) + remux_audio_args(
            family,
            types::opt_str(audio),
        ),
{
    if copies_audio(family, audio) {
        push_pair(args, "-c:a", "copy");
    } else {
        match family {
            OutputFamily::Mp4 => {
                push_pair(args, "-c:a", "aac");
                push_pair(args, "-ac", "2");
                push_pair(args, "-b:a", "192k");
            },
            OutputFamily::WebM => {
                push_pair(args, "-c:a", "libopus");
                push_pair(args, "-ac", "2");
                push_pair(args, "-b:a", "160k");
            },
        }
    }
    assert(types::texts(args@) =~= types::texts(old(args)@) + remux_audio_args(
        family,
        types::opt_str(audio),
    ));
}

/// The arguments behind those for the audio: which streams are taken, and what is written.
pub open spec fn tail_args(family: OutputFamily) -> Seq<Seq<char>> {
    seq!["-sn"@, "-dn"@, "-map"@, "0:v:0"@, "-map"@, "0:a:0?"@] + fragment_args(family) + seq![
        "-f"@,
        family.format(),
        "pipe:1"@,
    ]
}

fn push_tail(args: &mut Vec<String>, family: OutputFamily)
    ensures
        types::texts(final(args)@) == types::texts(old(args)@) + tail_args(family),
{
    push_pair(args, "-sn", "-dn");
    push_pair(args, "-map", "0:v:0");
    push_pair(args, "-map", "0:a:0?");
    if let OutputFamily::Mp4 = family {
        push_pair(args, "-movflags", "frag_keyframe+empty_moov+default_base_moof");
    }
    push_pair(args, "-f", family.container());
    push_text(args, "pipe:1");
    assert(types::texts(args@) =~= types::texts(old(args)@) + tail_args(family));
}

/// The arguments of ffmpeg that repackage the file at `path` and write it to its output.
pub open spec fn remux_command(
    path: Seq<char>,
    duration: Option<int>,
    family: OutputFamily,
    audio: Option<Seq<char>>,
) -> Seq<Seq<char>> {
    seq!["-hide_banner"@, "-loglevel"@, "warning"@, "-nostdin"@, "-i"@, path] + limit_args(duration)
        + seq!["-c:v"@, "copy"@] + remux_audio_args(family, audio) + tail_args(family)
}

fn remux_args(
    path: &str,
    duration: Option<u64>,
    family: OutputFamily,
    audio: Option<&str>,
) -> (r: Vec<String>)
    ensures
        types::texts(r@) == remux_command(
            path@,
            match duration {
                Some(d) => Some(d as int),
                None => None,
            },
            family,
            types::opt_str(audio),
        ),
{
    let ghost length = match duration {
        Some(d) => Some(d as int),
        None => None::<int>,
    };
    let mut args: Vec<String> = Vec::new();
    push_text(&mut args, "-hide_banner");
    push_pair(&mut args, "-loglevel", "warning");
    push_text(&mut args, "-nostdin");
    push_pair(&mut args, "-i", path);
    let ghost head = seq!["-hide_banner"@, "-loglevel"@, "warning"@, "-nostdin"@, "-i"@, path@];
    assert(types::texts(args@) =~= head);
    if let Some(d) = duration {
        let mut t = String::new();
        playlist::push_seconds3(&mut t, d);
        assert(t@ =~= playlist::seconds3(d as int));
        push_pair(&mut args, "-t", t.as_str());
    }
    assert(types::texts(args@) =~= head + limit_args(length));
    push_pair(&mut args, "-c:v", "copy");
    let ghost two = types::texts(args@);
    assert(two =~= head + limit_args(length) + seq!["-c:v"@, "copy"@]);
    push_audio(&mut args, family, audio);
    push_tail(&mut args, family);
    assert(types::texts(args@) =~= remux_command(path@, length, family, types::opt_str(audio)));
    args
}

/// All that repackaging a file takes: ffmpeg's arguments, what the response says of them
/// and what is recorded.
#[derive(Debug)]
pub struct RemuxPlan {
    pub family: OutputFamily,
    pub args: Vec<String>,
    /// What is done with the audio.
    pub audio_action: String,
    pub out_video_codec: Option<String>,
    pub out_audio_codec: String,
    /// The running time that is written into the header, in microseconds.
    pub total_us: Option<u64>,
    /// Whether the header is to be patched.
    pub patch_moov: bool,
}

/// The codec of the audio that comes out: the source's where it is copied.
pub open spec fn audio_label(family: OutputFamily, audio: Option<Seq<char>>) -> Seq<char> {
    if keeps_audio(family, audio) {
        match audio {
            Some(c) => c,
            None => "copy"@,
        }
    } else {
        audio_action_for(family, audio)
    }
}

/// Decides how a file is repackaged.
pub fn remux_plan(path: &str, info: &Option<MediaTechInfo>) -> (r: RemuxPlan)
    ensures
        r.family == family_for(video_codec(*info)),
        types::texts(r.args@) == remux_command(
            path@,
            known_duration(*info),
            family_for(video_codec(*info)),
            audio_codec(*info),
        ),
        r.audio_action@ == audio_action_for(family_for(video_codec(*info)), audio_codec(*info)),
        types::opt_text(r.out_video_codec) == video_codec(*info),
        r.out_audio_codec@ == audio_label(family_for(video_codec(*info)), audio_codec(*info)),
        match r.total_us {
            Some(d) => known_duration(*info) == Some(d as int),
            None => known_duration(*info) is None,
        },
        r.patch_moov == (family_for(video_codec(*info)) is Mp4),
{
    let video = source_video(info);
    let family = output_family(video);
    let total_us = duration_of(info);
    let audio = source_audio(info);
    let codec = view_of(&audio);
    let args = remux_args(path, total_us, family, codec);
    let copied = copies_audio(family, codec);
    let encoder = match family {
        OutputFamily::Mp4 => "aac",
        OutputFamily::WebM => "opus",
    };
    let action = if copied {
        "copy"
    } else {
        encoder
    };
    let label = match codec {
        Some(c) => if copied {
            c
        } else {
            encoder
        },
        None => encoder,
    };
    let patch = match family {
        OutputFamily::Mp4 => true,
        OutputFamily::WebM => false,
    };
    RemuxPlan {
        family,
        args,
        audio_action: text::own(action),
        out_video_codec: types::own_opt(video),
        out_audio_codec: text::own(label),
        total_us,
        patch_moov: patch,
    }
}

/// What a repackaged stream's response says of itself.
pub open spec fn remux_header_texts(family: OutputFamily, audio_action: Seq<char>) -> Seq<
    (Seq<char>, Seq<char>),
> {
    seq![
        ("content-type"@, family.mime()),
        ("accept-ranges"@, "none"@),
        ("cache-control"@, "no-store"@),
        ("x-stream-mode"@, "remux"@),
        ("x-stream-video"@, "copy"@),
        ("x-stream-audio"@, audio_action),
    ]
}

/// The texts of a list of headers.
pub open spec fn header_texts(v: Seq<(String, String)>) -> Seq<(Seq<char>, Seq<char>)> {
    v.map_values(|h: (String, String)| (h.0@, h.1@))
}

fn push_header(v: &mut Vec<(String, String)>, name: &str, value: &str)
    ensures
        header_texts(final(v)@) == header_texts(old(v)@).push((name@, value@)),
{
    v.push((text::own(name), text::own(value)));
    assert(header_texts(v@) =~= header_texts(old(v)@).push((name@, value@)));
}

/// The headers of a repackaged stream.
pub fn remux_headers(plan: &RemuxPlan) -> (r: Vec<(String, String)>)
    ensures
        header_texts(r@) == remux_header_texts(plan.family, plan.audio_action@),
{
    let mut v: Vec<(String, String)> = Vec::new();
    push_header(&mut v, "content-type", plan.family.content_type());
    push_header(&mut v, "accept-ranges", "none");
    push_header(&mut v, "cache-control", "no-store");
    push_header(&mut v, "x-stream-mode", "remux");
    push_header(&mut v, "x-stream-video", "copy");
    push_header(&mut v, "x-stream-audio", plan.audio_action.as_str());
    assert(header_texts(v@) =~= remux_header_texts(plan.family, plan.audio_action@));
    v
}

/// Audio that is copied goes into a container that holds it, and comes out under its own
/// name; what comes out is never called a copy.
pub proof fn audio_label_is_codec(family: OutputFamily, audio: Option<Seq<char>>)
    ensures
        keeps_audio(family, audio) ==> audio == Some(audio_label(family, audio)),
        audio_label(family, audio) != "copy"@,
{
    reveal_strlit("copy");
    reveal_strlit("aac");
    reveal_strlit("mp3");
    reveal_strlit("opus");
    reveal_strlit("vorbis");
    let label = audio_label(family, audio);
    if label == "copy"@ {
        assert(label[0] == 'c');
        assert("opus"@[0] == 'o');
        assert("vorbis"@[0] == 'v');
    }
}

// ---- further laws ----

/// VP8, VP9 and AV1 go into WebM, all else into MP4.
pub proof fn video_decides_the_container(codec: Seq<char>)
    ensures
        family_for(Some(codec)) is WebM <==> codec == "vp8"@ || codec == "vp9"@ || codec == "av1"@,
        family_for(None) is Mp4,
{
}

/// Sound is copied where the container holds it: AAC and MP3 in MP4, Opus and Vorbis in WebM.
/// What is not copied becomes AAC in MP4 and Opus in WebM.
pub proof fn sound_is_copied_where_it_fits(codec: Seq<char>)
    ensures
        keeps_audio(OutputFamily::Mp4, Some(codec)) <==> codec == "aac"@ || codec == "mp3"@,
        keeps_audio(OutputFamily::WebM, Some(codec)) <==> codec == "opus"@ || codec == "vorbis"@,
        !keeps_audio(OutputFamily::Mp4, None) && !keeps_audio(OutputFamily::WebM, None),
        audio_label(OutputFamily::Mp4, Some(codec)) == if codec == "mp3"@ {
            codec
        } else {
            "aac"@
        },
        audio_label(OutputFamily::WebM, Some(codec)) == if codec == "vorbis"@ {
            codec
        } else {
            "opus"@
        },
{
}

/// A reason that a query forces names the way it asks for; any other is that of the verdict.
pub proof fn forced_reason_names_the_way(mode: BrowserCompat, info: Option<MediaTechInfo>)
    ensures
        reason_text(mode, true, info) == Some("forced_via_query:"@ + delivery_name(mode)),
        reason_text(mode, false, info) == reason_of(info),
        delivery_name(BrowserCompat::Direct) == "direct"@,
        delivery_name(BrowserCompat::Remux) == "remux"@,
        delivery_name(BrowserCompat::Transcode) == "transcode"@,
{
}

/// What is asked for is always done; otherwise the stored verdict counts, and a fresh one only
/// where none is stored.
pub proof fn what_is_asked_for_is_done(
    m: BrowserCompat,
    stored: Option<BrowserCompat>,
    probed: Option<BrowserCompat>,
)
    ensures
        way_taken(Some(m), stored, probed) == m,
        way_taken(None, Some(m), probed) == m,
        way_taken(None, None, Some(m)) == m,
        way_taken(None, None, None) == BrowserCompat::Direct,
{
}

/// A repackaged file says that its picture is copied, what became of its sound, of which kind
/// it is, and that it can be neither kept nor asked for in parts.
pub proof fn repackaged_files_say_so(family: OutputFamily, audio_action: Seq<char>)
    ensures
        ({
            let h = remux_header_texts(family, audio_action);
            &&& h.contains(("x-stream-mode"@, "remux"@))
            &&& h.contains(("x-stream-video"@, "copy"@))
            &&& h.contains(("x-stream-audio"@, audio_action))
            &&& h.contains(("accept-ranges"@, "none"@))
            &&& h.contains(("cache-control"@, "no-store"@))
            &&& family == OutputFamily::Mp4 ==> h.contains(("content-type"@, "video/mp4"@))
            &&& family == OutputFamily::WebM ==> h.contains(("content-type"@, "video/webm"@))
            &&& h.len() == 6
        }),
{
    let h = remux_header_texts(family, audio_action);
    assert(h[0].0 == "content-type"@);
    assert(h[1] == ("accept-ranges"@, "none"@));
    assert(h[2] == ("cache-control"@, "no-store"@));
    assert(h[3] == ("x-stream-mode"@, "remux"@));
    assert(h[4] == ("x-stream-video"@, "copy"@));
    assert(h[5] == ("x-stream-audio"@, audio_action));
    assert(h.contains(h[0]));
}

/// A running time is known where one was found that is above zero.
pub proof fn running_times_are_above_zero(info: MediaTechInfo)
    ensures
        known_duration(None) is None,
        info.duration_us matches Some(d) && d > 0 ==> known_duration(Some(info)) is Some
            && known_duration(Some(info))->0 == info.duration_us->0,
        known_duration(Some(info)) matches Some(d) ==> d > 0 && info.duration_us is Some,
{
}

/// The two kinds of file are written as `mp4` and `webm` and sent as video of that kind.
pub proof fn families_are_named()
    ensures
        OutputFamily::Mp4.format() == "mp4"@ && OutputFamily::Mp4.mime() == "video/mp4"@,
        OutputFamily::WebM.format() == "webm"@ && OutputFamily::WebM.mime() == "video/webm"@,
{
}

} // verus!
