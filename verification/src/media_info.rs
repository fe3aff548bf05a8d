//! What a probe of a file means: its tracks, and how a browser can be given it.

use crate::decimal;
use crate::hls::plan;
use crate::markers::{ChapterView, RawChapter};
use crate::markers;
use crate::text;
use crate::types::{AudioTrackInfo, BrowserCompat, MediaTechInfo, VideoTrackInfo};
use crate::types;
use vstd::prelude::*;

verus! {

/// A key and its value, as a stream carries them.
#[derive(Debug)]
pub struct Tag {
    pub key: String,
    pub value: String,
}

/// A flag of a stream; it is set where its value is not zero.
#[derive(Debug)]
pub struct Flag {
    pub key: String,
    pub value: i64,
}

/// A subtitle stream of a file.
#[derive(Debug)]
pub struct EmbeddedSubtitleStream {
    pub index: u32,
    pub codec: String,
    pub tags: Vec<Tag>,
    pub disposition: Vec<Flag>,
}

/// A stream as the probe lists it.
#[derive(Debug)]
pub struct ProbeStream {
    pub index: u32,
    pub codec_type: String,
    pub codec_name: String,
    pub profile: Option<String>,
    pub width: Option<u32>,
    pub height: Option<u32>,
    pub r_frame_rate: Option<String>,
    pub pix_fmt: Option<String>,
    pub channels: Option<u32>,
    pub channel_layout: Option<String>,
    pub sample_rate: Option<String>,
    pub bit_rate: Option<String>,
    pub tags: Vec<Tag>,
    pub disposition: Vec<Flag>,
}

/// The container as the probe describes it.
#[derive(Debug)]
pub struct ProbeFormat {
    pub format_name: Option<String>,
    pub duration: Option<String>,
    pub size: Option<String>,
    pub bit_rate: Option<String>,
}

/// A chapter as the probe prints it.
#[derive(Debug)]
pub struct ProbeChapter {
    pub start_time: String,
    pub end_time: String,
    pub tags: Vec<Tag>,
}

/// All that the probe printed of a file, but for its chapters.
#[derive(Debug)]
pub struct ProbeOutput {
    pub streams: Vec<ProbeStream>,
    pub format: ProbeFormat,
}

// ---- small readings ----

/// The value of the first tag with a key.
pub open spec fn tag_value(tags: Seq<Tag>, key: Seq<char>) -> Option<Seq<char>>
    decreases tags.len(),
{
    if tags.len() == 0 {
        None
    } else if tags[0].key@ == key {
        Some(tags[0].value@)
    } else {
        tag_value(tags.skip(1), key)
    }
}

/// What is said under `key`.
pub fn find_tag(tags: &Vec<Tag>, key: &str) -> (r: Option<String>)
    ensures
        types::opt_text(r) == tag_value(tags@, key@),
{
    let mut i: usize = 0;
    assert(tags@.skip(0) =~= tags@);
    while i < tags.len()
        invariant
            i <= tags@.len(),
            tag_value(tags@, key@) == tag_value(tags@.skip(i as int), key@),
        decreases tags@.len() - i,
    {
        assert(tags@.skip(i as int).skip(1) =~= tags@.skip(i + 1));
        if *tags[i].key.as_str() == *key {
            return Some(text::own(tags[i].value.as_str()));
        }
        i += 1;
    }
    None
}

/// The value of the first flag with a key, zero where there is none.
pub open spec fn flag_value(flags: Seq<Flag>, key: Seq<char>) -> int
    decreases flags.len(),
{
    if flags.len() == 0 {
        0
    } else if flags[0].key@ == key {
        flags[0].value as int
    } else {
        flag_value(flags.skip(1), key)
    }
}

/// Whether a flag is there and not nought.
pub fn flag_set(flags: &Vec<Flag>, key: &str) -> (r: bool)
    ensures
        r == (flag_value(flags@, key@) != 0),
{
    let mut i: usize = 0;
    assert(flags@.skip(0) =~= flags@);
    while i < flags.len()
        invariant
            i <= flags@.len(),
            flag_value(flags@, key@) == flag_value(flags@.skip(i as int), key@),
        decreases flags@.len() - i,
    {
        assert(flags@.skip(i as int).skip(1) =~= flags@.skip(i + 1));
        if *flags[i].key.as_str() == *key {
            return flags[i].value != 0;
        }
        i += 1;
    }
    false
}

/// A text that says something: an empty one counts as absent.
pub open spec fn non_empty(s: Option<Seq<char>>) -> Option<Seq<char>> {
    match s {
        Some(t) => if t.len() > 0 {
            Some(t)
        } else {
            None
        },
        None => None,
    }
}

/// A text, unless it is empty.
pub fn keep_non_empty(s: Option<String>) -> (r: Option<String>)
    ensures
        types::opt_text(r) == non_empty(types::opt_text(s)),
{
    match s {
        Some(t) => if t.as_str().is_empty() {
            None
        } else {
            Some(t)
        },
        None => None,
    }
}

/// Bits per second as whole kilobits per second.
pub open spec fn kbps(s: Option<Seq<char>>) -> Option<int> {
    match s {
        Some(t) => match text::unsigned_value(t, u64::MAX as int) {
            Some(n) => Some(n / 1000),
            None => None,
        },
        None => None,
    }
}

/// The value of an optional number.
pub open spec fn opt_num(n: Option<u64>) -> Option<int> {
    match n {
        Some(x) => Some(x as int),
        None => None,
    }
}

/// A bit rate in kilobits per second, read from one in bits.
pub fn parse_bitrate_kbps(s: Option<&str>) -> (r: Option<u64>)
    ensures
        opt_num(r) == kbps(types::opt_str(s)),
{
    match s {
        Some(t) => match text::parse_u64(t) {
            Some(n) => Some(n / 1000),
            None => None,
        },
        None => None,
    }
}

/// The numerator and the denominator of a frame rate such as `24000/1001`: what stands
/// before and behind the first slash.
pub open spec fn fps_parts(s: Option<Seq<char>>) -> Option<(Seq<char>, Seq<char>)> {
    match s {
        Some(t) => {
            let i = text::first_index(t, '/');
            if i < t.len() {
                Some((t.take(i), t.skip(i + 1)))
            } else {
                None
            }
        },
        None => None,
    }
}

pub open spec fn opt_pair(p: Option<(String, String)>) -> Option<(Seq<char>, Seq<char>)> {
    match p {
        Some(x) => Some((x.0@, x.1@)),
        None => None,
    }
}

/// The two parts of a frame rate that is written as a fraction.
pub fn split_fps(s: Option<&str>) -> (r: Option<(String, String)>)
    ensures
        opt_pair(r) == fps_parts(types::opt_str(s)),
{
    match s {
        Some(t) => {
            let v = text::chars_of(t);
            let i: usize = text::find_char(&v, '/');
            if i < v.len() {
                let a = text::string_of(&v, 0, i);
                let b = text::string_of(&v, i + 1, v.len());
                assert(a@ =~= t@.take(i as int));
                assert(b@ =~= t@.skip(i + 1));
                Some((a, b))
            } else {
                None
            }
        },
        None => None,
    }
}

fn view_str(s: &Option<String>) -> (r: Option<&str>)
    ensures
        types::opt_str(r) == types::opt_text(*s),
{
    match s {
        Some(t) => Some(t.as_str()),
        None => None,
    }
}

// ---- compatibility ----

/// The audio track that counts: the default one, else the first.
pub open spec fn main_audio(audio: Seq<AudioTrackInfo>) -> Option<Seq<char>> {
    if exists|i: int| 0 <= i < audio.len() && (#[trigger] audio[i]).default {
        let k = first_default(audio);
        Some(audio[k].codec@)
    } else if audio.len() > 0 {
        Some(audio[0].codec@)
    } else {
        None
    }
}

/// The index of the first default track; the number of tracks if there is none.
pub open spec fn first_default(audio: Seq<AudioTrackInfo>) -> int
    decreases audio.len(),
{
    if audio.len() == 0 {
        0
    } else if audio[0].default {
        0
    } else {
        1 + first_default(audio.skip(1))
    }
}

proof fn first_default_is(audio: Seq<AudioTrackInfo>, i: int)
    requires
        0 <= i <= audio.len(),
        i < audio.len() ==> audio[i].default,
        forall|j: int| 0 <= j < i ==> !(#[trigger] audio[j]).default,
    ensures
        first_default(audio) == i,
    decreases audio.len(),
{
    if audio.len() > 0 && !audio[0].default {
        assert forall|j: int| 0 <= j < i - 1 implies !(#[trigger] audio.skip(1)[j]).default by {
            assert(audio.skip(1)[j] == audio[j + 1]);
        }
        first_default_is(audio.skip(1), i - 1);
    }
}

/// The codec of the audio track that counts.
pub fn main_audio_codec(audio: &Vec<AudioTrackInfo>) -> (r: Option<String>)
    ensures
        types::opt_text(r) == main_audio(audio@),
{
    let mut i: usize = 0;
    while i < audio.len()
        invariant
            i <= audio@.len(),
            forall|j: int| 0 <= j < i ==> !(#[trigger] audio@[j]).default,
        decreases audio@.len() - i,
    {
        if audio[i].default {
            proof {
                first_default_is(audio@, i as int);
                assert(audio@[i as int].default);
            }
            return Some(text::own(audio[i].codec.as_str()));
        }
        i += 1;
    }
    if audio.len() > 0 {
        Some(text::own(audio[0].codec.as_str()))
    } else {
        None
    }
}

/// Some of the comma-separated names in `container` is `name`.
pub open spec fn names_format(container: Option<Seq<char>>, name: Seq<char>) -> bool {
    match container {
        Some(c) => some_is(text::pieces(c, ','), name),
        None => false,
    }
}

/// Some of the texts, trimmed, is `name`.
pub open spec fn some_is(parts: Seq<Seq<char>>, name: Seq<char>) -> bool {
    exists|i: int| 0 <= i < parts.len() && text::trimmed(#[trigger] parts[i]) == name
}

/// Whether a container is one of the MP4 family.
pub open spec fn is_mp4_container(container: Option<Seq<char>>) -> bool {
    ||| names_format(container, "mp4"@)
    ||| names_format(container, "mov"@)
    ||| names_format(container, "m4a"@)
    ||| names_format(container, "m4v"@)
}

fn has_format(container: Option<&str>, name: &str) -> (r: bool)
    ensures
        r == names_format(types::opt_str(container), name@),
{
    match container {
        Some(c) => {
            let parts = text::split(c, ',');
            let mut i: usize = 0;
            while i < parts.len()
                invariant
                    i <= parts@.len(),
                    types::opt_str(container) == Some(c@),
                    types::texts(parts@) == text::pieces(c@, ','),
                    forall|j: int|
                        0 <= j < i ==> text::trimmed(#[trigger] types::texts(parts@)[j]) != name@,
                decreases parts@.len() - i,
            {
                let t = text::trim(parts[i].as_str());
                if *t.as_str() == *name {
                    assert(text::trimmed(types::texts(parts@)[i as int]) == name@);
                    return true;
                }
                i += 1;
            }
            false
        },
        None => false,
    }
}

pub open spec fn mp4_audio_ok(codec: Option<Seq<char>>) -> bool {
    match codec {
        Some(c) => plan::copies_audio(c),
        None => true,
    }
}

pub open spec fn webm_audio_ok(codec: Option<Seq<char>>) -> bool {
    match codec {
        Some(c) => c == "opus"@ || c == "vorbis"@,
        None => true,
    }
}

/// How a browser can be given a file. Video that no browser plays is encoded anew; a
/// file whose container and audio a browser takes too goes out as it is; what is left is
/// repackaged.
pub open spec fn compat_of(
    video: Option<Seq<char>>,
    audio: Option<Seq<char>>,
    container: Option<Seq<char>>,
) -> BrowserCompat {
    match video {
        None => BrowserCompat::Direct,
        Some(v) => if v == "h264"@ {
            if is_mp4_container(container) && mp4_audio_ok(audio) {
                BrowserCompat::Direct
            } else {
                BrowserCompat::Remux
            }
        } else if plan::is_webm_codec(v) {
            if names_format(container, "webm"@) && webm_audio_ok(audio) {
                BrowserCompat::Direct
            } else {
                BrowserCompat::Remux
            }
        } else {
            BrowserCompat::Transcode
        },
    }
}

/// Why a file does not go out as it is. The container comes before the audio.
pub open spec fn compat_reason_of(
    video: Option<Seq<char>>,
    audio: Option<Seq<char>>,
    container: Option<Seq<char>>,
) -> Option<Seq<char>> {
    match (video, compat_of(video, audio, container)) {
        (Some(v), BrowserCompat::Transcode) => Some(
            "video codec "@ + v + " isn't supported by browsers — needs full transcode"@,
        ),
        (Some(v), BrowserCompat::Remux) => {
            let mp4 = v == "h264"@;
            let family = if mp4 {
                "MP4"@
            } else {
                "WebM"@
            };
            let fits = if mp4 {
                is_mp4_container(container)
            } else {
                names_format(container, "webm"@)
            };
            if !fits {
                Some(
                    "container "@ + match container {
                        Some(c) => c,
                        None => "unknown"@,
                    } + " needs repackaging to "@ + family,
                )
            } else {
                match audio {
                    Some(a) => Some(
                        "audio codec "@ + a + " isn't supported in "@ + family + " — needs "@ + if mp4 {
                            "AAC/MP3"@
                        } else {
                            "Opus/Vorbis"@
                        },
                    ),
                    None => Some("source needs repackaging to "@ + family),
                }
            }
        },
        _ => None,
    }
}

/// Decides how a browser can be given a file, and says why.
pub fn compute_compat(
    video: Option<&str>,
    audio: Option<&str>,
    container: Option<&str>,
) -> (r: (BrowserCompat, Option<String>))
    ensures
        r.0 == compat_of(types::opt_str(video), types::opt_str(audio), types::opt_str(container)),
        types::opt_text(r.1) == compat_reason_of(
            types::opt_str(video),
            types::opt_str(audio),
            types::opt_str(container),
        ),
{
    let v = match video {
        Some(v) => v,
        None => {
            return (BrowserCompat::Direct, None);
        },
    };
    let mp4 = *v == *"h264";
    let webm = plan::webm_codec(v);
    if !mp4 && !webm {
        let mut why = text::own("video codec ");
        why.push_str(v);
        why.push_str(" isn't supported by browsers — needs full transcode");
        return (BrowserCompat::Transcode, Some(why));
    }
    proof {
        reveal_strlit("h264");
        reveal_strlit("vp9");
        reveal_strlit("vp8");
        reveal_strlit("av1");
        assert("h264"@.len() == 4);
        assert("vp9"@.len() == 3 && "vp8"@.len() == 3 && "av1"@.len() == 3);
    }
    let in_mp4 = has_format(container, "mp4") || has_format(container, "mov") || has_format(
        container,
        "m4a",
    ) || has_format(container, "m4v");
    let in_webm = has_format(container, "webm");
    let audio_mp4 = match audio {
        Some(a) => *a == *"aac" || *a == *"mp3",
        None => true,
    };
    let audio_webm = match audio {
        Some(a) => *a == *"opus" || *a == *"vorbis",
        None => true,
    };
    if (mp4 && in_mp4 && audio_mp4) || (webm && in_webm && audio_webm) {
        return (BrowserCompat::Direct, None);
    }
    let family = if mp4 { "MP4" } else { "WebM" };
    let wanted = if mp4 { "AAC/MP3" } else { "Opus/Vorbis" };
    let fits = if mp4 { in_mp4 } else { in_webm };
    let mut why;
    if !fits {
        why = text::own("container ");
        why.push_str(
            match container {
                Some(c) => c,
                None => "unknown",
            },
        );
        why.push_str(" needs repackaging to ");
        why.push_str(family);
    } else {
        match audio {
            Some(a) => {
                why = text::own("audio codec ");
                why.push_str(a);
                why.push_str(" isn't supported in ");
                why.push_str(family);
                why.push_str(" — needs ");
                why.push_str(wanted);
            },
            None => {
                why = text::own("source needs repackaging to ");
                why.push_str(family);
            },
        }
    }
    (BrowserCompat::Remux, Some(why))
}

/// A file goes out as it is exactly when there is nothing to explain.
pub proof fn direct_needs_no_reason(
    video: Option<Seq<char>>,
    audio: Option<Seq<char>>,
    container: Option<Seq<char>>,
)
    ensures
        compat_of(video, audio, container) == BrowserCompat::Direct <==> compat_reason_of(
            video,
            audio,
            container,
        ) is None,
{
}

/// Only a file that a browser plays goes out as it is: one without video, H.264 with AAC,
/// MP3 or no sound in a container of the MP4 family, or VP9, VP8 or AV1 with Opus, Vorbis
/// or no sound in WebM. Exactly the video that is none of these codecs is encoded anew.
pub proof fn direct_only_if_playable(
    video: Option<Seq<char>>,
    audio: Option<Seq<char>>,
    container: Option<Seq<char>>,
)
    ensures
        ({
            let mp4 = video == Some("h264"@);
            let webm = video == Some("vp9"@) || video == Some("vp8"@) || video == Some("av1"@);
            let in_mp4 = names_format(container, "mp4"@) || names_format(container, "mov"@)
                || names_format(container, "m4a"@) || names_format(container, "m4v"@);
            let in_webm = names_format(container, "webm"@);
            let c = compat_of(video, audio, container);
            &&& c == BrowserCompat::Direct <==> (video is None || (mp4 && in_mp4 && (audio is None
                || audio == Some("aac"@) || audio == Some("mp3"@))) || (webm && in_webm && (audio
                is None || audio == Some("opus"@) || audio == Some("vorbis"@))))
            &&& c == BrowserCompat::Transcode <==> video is Some && !mp4 && !webm
        }),
{
    reveal_strlit("h264");
    reveal_strlit("vp9");
    reveal_strlit("vp8");
    reveal_strlit("av1");
    assert("h264"@.len() == 4);
    assert("vp9"@.len() == 3 && "vp8"@.len() == 3 && "av1"@.len() == 3);
}

/// A file that is repackaged although its container fits is blamed on its sound, by the
/// name of the codec; one whose container does not fit on the container.
pub proof fn reason_names_the_obstacle(video: Seq<char>, audio: Seq<char>, container: Seq<char>)
    ensures
        ({
            let c = compat_of(Some(video), Some(audio), Some(container));
            let why = compat_reason_of(Some(video), Some(audio), Some(container));
            let mp4 = video == "h264"@;
            let fits = if mp4 {
                names_format(Some(container), "mp4"@) || names_format(Some(container), "mov"@)
                    || names_format(Some(container), "m4a"@) || names_format(
                    Some(container),
                    "m4v"@,
                )
            } else {
                names_format(Some(container), "webm"@)
            };
            &&& c == BrowserCompat::Direct ==> why is None
            &&& c == BrowserCompat::Transcode ==> why == Some(
                "video codec "@ + video + " isn't supported by browsers — needs full transcode"@,
            )
            &&& c == BrowserCompat::Remux && !fits && mp4 ==> why == Some(
                "container "@ + container + " needs repackaging to "@ + "MP4"@,
            )
            &&& c == BrowserCompat::Remux && !fits && !mp4 ==> why == Some(
                "container "@ + container + " needs repackaging to "@ + "WebM"@,
            )
            &&& c == BrowserCompat::Remux && fits && mp4 ==> why == Some(
                "audio codec "@ + audio + " isn't supported in "@ + "MP4"@ + " — needs "@
                    + "AAC/MP3"@,
            )
            &&& c == BrowserCompat::Remux && fits && !mp4 ==> why == Some(
                "audio codec "@ + audio + " isn't supported in "@ + "WebM"@ + " — needs "@
                    + "Opus/Vorbis"@,
            )
        }),
{
}

/// A container is of every format that it lists, and of no other: its text is the names
/// with commas between them.
pub proof fn listed_formats_count(names: Seq<Seq<char>>, name: Seq<char>)
    requires
        names.len() > 0,
        forall|i: int, k: int|
            0 <= i < names.len() && 0 <= k < names[i].len() ==> #[trigger] names[i][k] != ',',
        forall|i: int| 0 <= i < names.len() ==> text::trimmed(#[trigger] names[i]) == names[i],
    ensures
        names_format(Some(text::joined(names, ',')), name) <==> names.contains(name),
{
    text::joined_splits(names, ',');
    let c = text::joined(names, ',');
    assert(text::pieces(c, ',') == names);
    if names.contains(name) {
        let i = choose|i: int| 0 <= i < names.len() && names[i] == name;
        assert(text::trimmed(text::pieces(c, ',')[i]) == name);
    }
    if names_format(Some(c), name) {
        let i = choose|i: int|
            0 <= i < text::pieces(c, ',').len() && text::trimmed(
                #[trigger] text::pieces(c, ',')[i],
            ) == name;
        assert(names[i] == name);
    }
}

/// The sound that counts is that of the first track marked as the default; without a mark
/// it is that of the first track.
pub proof fn default_track_counts(audio: Seq<AudioTrackInfo>, i: int)
    requires
        0 <= i < audio.len(),
        (audio[i].default && forall|j: int| 0 <= j < i ==> !(#[trigger] audio[j]).default) || (i
            == 0 && forall|j: int| 0 <= j < audio.len() ==> !(#[trigger] audio[j]).default),
    ensures
        main_audio(audio) == Some(audio[i].codec@),
{
    if audio[i].default {
        first_default_is(audio, i);
    }
}

// ---- the whole probe ----

/// A video stream that counts: cover art, which is listed as video too, does not.
pub open spec fn is_video_stream(s: ProbeStream) -> bool {
    s.codec_type@ == "video"@ && flag_value(s.disposition@, "attached_pic"@) == 0
}

pub open spec fn is_audio_stream(s: ProbeStream) -> bool {
    s.codec_type@ == "audio"@
}

pub open spec fn is_subtitle_stream(s: ProbeStream) -> bool {
    s.codec_type@ == "subtitle"@
}

/// The video track that a stream describes.
pub open spec fn describes_video(v: VideoTrackInfo, s: ProbeStream) -> bool {
    &&& v.codec@ == s.codec_name@
    &&& types::opt_text(v.profile) == non_empty(types::opt_text(s.profile))
    &&& v.width == s.width
    &&& v.height == s.height
    &&& opt_pair(v.fps) == fps_parts(types::opt_text(s.r_frame_rate))
    &&& opt_num(v.bitrate_kbps) == kbps(types::opt_text(s.bit_rate))
    &&& types::opt_text(v.pix_fmt) == non_empty(types::opt_text(s.pix_fmt))
}

/// The number that an optional text spells, if it fits into 32 bits.
pub open spec fn opt_u32(s: Option<Seq<char>>) -> Option<int> {
    match s {
        Some(t) => text::unsigned_value(t, u32::MAX as int),
        None => None,
    }
}

/// The audio track that a stream describes.
pub open spec fn describes_audio(a: AudioTrackInfo, s: ProbeStream) -> bool {
    &&& a.codec@ == s.codec_name@
    &&& a.channels == s.channels
    &&& types::opt_text(a.channel_layout) == non_empty(types::opt_text(s.channel_layout))
    &&& (match a.sample_rate_hz {
        Some(n) => opt_u32(types::opt_text(s.sample_rate)) == Some(n as int),
        None => opt_u32(types::opt_text(s.sample_rate)) is None,
    })
    &&& opt_num(a.bitrate_kbps) == kbps(types::opt_text(s.bit_rate))
    &&& types::opt_text(a.language) == non_empty(tag_value(s.tags@, "language"@))
    &&& types::opt_text(a.title) == non_empty(tag_value(s.tags@, "title"@))
    &&& a.default == (flag_value(s.disposition@, "default"@) != 0)
}

pub open spec fn same_tags(a: Seq<Tag>, b: Seq<Tag>) -> bool {
    &&& a.len() == b.len()
    &&& forall|i: int|
        0 <= i < a.len() ==> (#[trigger] a[i]).key@ == b[i].key@ && a[i].value@ == b[i].value@
}

pub open spec fn same_flags(a: Seq<Flag>, b: Seq<Flag>) -> bool {
    &&& a.len() == b.len()
    &&& forall|i: int|
        0 <= i < a.len() ==> (#[trigger] a[i]).key@ == b[i].key@ && a[i].value == b[i].value
}

/// The subtitle stream that a stream describes.
pub open spec fn describes_subtitle(e: EmbeddedSubtitleStream, s: ProbeStream) -> bool {
    &&& e.index == s.index
    &&& e.codec@ == s.codec_name@
    &&& same_tags(e.tags@, s.tags@)
    &&& same_flags(e.disposition@, s.disposition@)
}

/// The streams of one kind, in order.
pub open spec fn streams_of(s: Seq<ProbeStream>, kind: spec_fn(ProbeStream) -> bool) -> Seq<ProbeStream>
    decreases s.len(),
{
    if s.len() == 0 {
        Seq::empty()
    } else {
        let rest = streams_of(s.drop_last(), kind);
        if kind(s.last()) {
            rest.push(s.last())
        } else {
            rest
        }
    }
}

pub open spec fn describes_audios(a: Seq<AudioTrackInfo>, s: Seq<ProbeStream>) -> bool {
    &&& a.len() == s.len()
    &&& forall|i: int| 0 <= i < a.len() ==> describes_audio(#[trigger] a[i], s[i])
}

pub open spec fn describes_subtitles(
    e: Seq<EmbeddedSubtitleStream>,
    s: Seq<ProbeStream>,
) -> bool {
    &&& e.len() == s.len()
    &&& forall|i: int| 0 <= i < e.len() ==> describes_subtitle(#[trigger] e[i], s[i])
}

fn read_video(s: &ProbeStream) -> (r: VideoTrackInfo)
    ensures
        describes_video(r, *s),
{
    VideoTrackInfo {
        codec: text::own(s.codec_name.as_str()),
        profile: keep_non_empty(types::copy_opt(&s.profile)),
        width: s.width,
        height: s.height,
        fps: split_fps(view_str(&s.r_frame_rate)),
        bitrate_kbps: parse_bitrate_kbps(view_str(&s.bit_rate)),
        pix_fmt: keep_non_empty(types::copy_opt(&s.pix_fmt)),
    }
}

fn read_audio(s: &ProbeStream) -> (r: AudioTrackInfo)
    ensures
        describes_audio(r, *s),
{
    AudioTrackInfo {
        codec: text::own(s.codec_name.as_str()),
        channels: s.channels,
        channel_layout: keep_non_empty(types::copy_opt(&s.channel_layout)),
        sample_rate_hz: match view_str(&s.sample_rate) {
            Some(t) => text::parse_u32(t),
            None => None,
        },
        bitrate_kbps: parse_bitrate_kbps(view_str(&s.bit_rate)),
        language: keep_non_empty(find_tag(&s.tags, "language")),
        title: keep_non_empty(find_tag(&s.tags, "title")),
        default: flag_set(&s.disposition, "default"),
    }
}

fn read_subtitle(s: &ProbeStream) -> (r: EmbeddedSubtitleStream)
    ensures
        describes_subtitle(r, *s),
{
    let mut tags: Vec<Tag> = Vec::new();
    let mut i: usize = 0;
    while i < s.tags.len()
        invariant
            i <= s.tags@.len(),
            tags@.len() == i,
            forall|j: int|
                0 <= j < i ==> (#[trigger] tags@[j]).key@ == s.tags@[j].key@ && tags@[j].value@
                    == s.tags@[j].value@,
        decreases s.tags@.len() - i,
    {
        tags.push(
            Tag {
                key: text::own(s.tags[i].key.as_str()),
                value: text::own(s.tags[i].value.as_str()),
            },
        );
        i += 1;
    }
    let mut disposition: Vec<Flag> = Vec::new();
    let mut k: usize = 0;
    while k < s.disposition.len()
        invariant
            k <= s.disposition@.len(),
            disposition@.len() == k,
            forall|j: int|
                0 <= j < k ==> (#[trigger] disposition@[j]).key@ == s.disposition@[j].key@
                    && disposition@[j].value == s.disposition@[j].value,
        decreases s.disposition@.len() - k,
    {
        disposition.push(
            Flag {
                key: text::own(s.disposition[k].key.as_str()),
                value: s.disposition[k].value,
            },
        );
        k += 1;
    }
    EmbeddedSubtitleStream { index: s.index, codec: text::own(s.codec_name.as_str()), tags, disposition }
}

pub open spec fn video_kind() -> spec_fn(ProbeStream) -> bool {
    |s: ProbeStream| is_video_stream(s)
}

pub open spec fn audio_kind() -> spec_fn(ProbeStream) -> bool {
    |s: ProbeStream| is_audio_stream(s)
}

pub open spec fn subtitle_kind() -> spec_fn(ProbeStream) -> bool {
    |s: ProbeStream| is_subtitle_stream(s)
}

/// The codec of a video track.
pub open spec fn video_codec(v: Option<VideoTrackInfo>) -> Option<Seq<char>> {
    match v {
        Some(t) => Some(t.codec@),
        None => None,
    }
}

/// The running time that the container states, in microseconds.
pub open spec fn container_duration(s: Option<Seq<char>>) -> Option<int> {
    match s {
        Some(t) => decimal::seconds_us(t),
        None => None,
    }
}

/// What a probe says about a file.
pub open spec fn describes_file(info: MediaTechInfo, p: ProbeOutput) -> bool {
    let videos = streams_of(p.streams@, video_kind());
    &&& (match info.video {
        Some(v) => videos.len() > 0 && describes_video(v, videos[0]),
        None => videos.len() == 0,
    })
    &&& describes_audios(info.audio@, streams_of(p.streams@, audio_kind()))
    &&& types::opt_text(info.container) == non_empty(types::opt_text(p.format.format_name))
    &&& (match info.duration_us {
        Some(d) => container_duration(types::opt_text(p.format.duration)) == Some(d as int),
        None => container_duration(types::opt_text(p.format.duration)) is None,
    })
    &&& opt_num(info.bitrate_kbps) == kbps(types::opt_text(p.format.bit_rate))
    &&& opt_num(info.file_size) == (match types::opt_text(p.format.size) {
        Some(t) => text::unsigned_value(t, u64::MAX as int),
        None => None,
    })
    &&& info.browser_compat == compat_of(
        video_codec(info.video),
        main_audio(info.audio@),
        types::opt_text(info.container),
    )
    &&& types::opt_text(info.compat_reason) == compat_reason_of(
        video_codec(info.video),
        main_audio(info.audio@),
        types::opt_text(info.container),
    )
}

/// Reads what the probe printed about a file: its tracks, its subtitle streams, and how
/// a browser can be given it.
pub fn read_probe(p: &ProbeOutput) -> (r: (MediaTechInfo, Vec<EmbeddedSubtitleStream>))
    ensures
        describes_file(r.0, *p),
        describes_subtitles(r.1@, streams_of(p.streams@, subtitle_kind())),
{
    let mut video: Option<VideoTrackInfo> = None;
    let mut audio: Vec<AudioTrackInfo> = Vec::new();
    let mut subtitles: Vec<EmbeddedSubtitleStream> = Vec::new();
    let ghost all = p.streams@;
    proof {
        reveal_strlit("video");
        reveal_strlit("audio");
        reveal_strlit("subtitle");
        assert("video"@[0] != "audio"@[0]);
        assert("video"@.len() != "subtitle"@.len());
        assert("audio"@.len() != "subtitle"@.len());
        assert(all.take(0) =~= Seq::<ProbeStream>::empty());
    }
    let mut i: usize = 0;
    while i < p.streams.len()
        invariant
            i <= p.streams@.len(),
            all == p.streams@,
            "video"@ != "audio"@,
            "video"@ != "subtitle"@,
            "audio"@ != "subtitle"@,
            match video {
                Some(v) => {
                    &&& streams_of(all.take(i as int), video_kind()).len() > 0
                    &&& describes_video(v, streams_of(all.take(i as int), video_kind())[0])
                },
                None => streams_of(all.take(i as int), video_kind()).len() == 0,
            },
            describes_audios(audio@, streams_of(all.take(i as int), audio_kind())),
            describes_subtitles(subtitles@, streams_of(all.take(i as int), subtitle_kind())),
        decreases p.streams@.len() - i,
    {
        let s: &ProbeStream = &p.streams[i];
        proof {
            assert(all.take(i + 1).drop_last() =~= all.take(i as int));
            assert(all.take(i + 1).last() == *s);
        }
        if *s.codec_type.as_str() == *"video" {
            if !flag_set(&s.disposition, "attached_pic") {
                if video.is_none() {
                    video = Some(read_video(s));
                }
            }
        } else if *s.codec_type.as_str() == *"audio" {
            audio.push(read_audio(s));
        } else if *s.codec_type.as_str() == *"subtitle" {
            subtitles.push(read_subtitle(s));
        }
        i += 1;
    }
    assert(all.take(i as int) =~= all);
    let container = keep_non_empty(types::copy_opt(&p.format.format_name));
    let main = main_audio_codec(&audio);
    let codec = match &video {
        Some(v) => Some(v.codec.as_str()),
        None => None,
    };
    let (browser_compat, compat_reason) = compute_compat(
        codec,
        view_str(&main),
        view_str(&container),
    );
    let duration_us: Option<i64> = match view_str(&p.format.duration) {
        Some(t) => decimal::parse_seconds(t),
        None => None,
    };
    let file_size: Option<u64> = match view_str(&p.format.size) {
        Some(t) => text::parse_u64(t),
        None => None,
    };
    let info = MediaTechInfo {
        container,
        duration_us,
        bitrate_kbps: parse_bitrate_kbps(view_str(&p.format.bit_rate)),
        file_size,
        video,
        audio,
        browser_compat,
        compat_reason,
    };
    (info, subtitles)
}

// ---- chapters ----

/// What a printed chapter says; nothing where its times cannot be read.
pub open spec fn chapter_of(c: ProbeChapter) -> Option<ChapterView> {
    match (decimal::seconds_us(c.start_time@), decimal::seconds_us(c.end_time@)) {
        (Some(start_us), Some(end_us)) => Some(
            ChapterView { start_us, end_us, title: tag_value(c.tags@, "title"@) },
        ),
        _ => None,
    }
}

/// The chapters whose times can be read, in their order.
pub open spec fn chapters_of(v: Seq<ProbeChapter>) -> Seq<ChapterView>
    decreases v.len(),
{
    if v.len() == 0 {
        Seq::empty()
    } else {
        let rest = chapters_of(v.drop_last());
        match chapter_of(v.last()) {
            Some(c) => rest.push(c),
            None => rest,
        }
    }
}

fn read_chapter(c: &ProbeChapter) -> (r: Option<RawChapter>)
    ensures
        match r {
            Some(x) => chapter_of(*c) == Some(x@),
            None => chapter_of(*c) is None,
        },
{
    match (
        decimal::parse_seconds(c.start_time.as_str()),
        decimal::parse_seconds(c.end_time.as_str()),
    ) {
        (Some(start_us), Some(end_us)) => Some(
            RawChapter { start_us, end_us, title: find_tag(&c.tags, "title") },
        ),
        _ => None,
    }
}

/// Reads the chapters of a file.
pub fn read_chapters(chapters: &Vec<ProbeChapter>) -> (r: Vec<RawChapter>)
    ensures
        markers::chapter_views(r@) == chapters_of(chapters@),
{
    let mut out: Vec<RawChapter> = Vec::new();
    let mut i: usize = 0;
    while i < chapters.len()
        invariant
            i <= chapters@.len(),
            markers::chapter_views(out@) =~= chapters_of(chapters@.take(i as int)),
        decreases chapters@.len() - i,
    {
        assert(chapters@.take(i + 1).drop_last() =~= chapters@.take(i as int));
        let ghost before = out@;
        match read_chapter(&chapters[i]) {
            Some(c) => {
                out.push(c);
                assert(markers::chapter_views(out@) =~= markers::chapter_views(before).push(c@));
            },
            None => {},
        }
        i += 1;
    }
    assert(chapters@.take(i as int) =~= chapters@);
    out
}

// ---- further laws ----

/// What is said under a key is the value of its first tag.
pub proof fn first_tag_counts(tags: Seq<Tag>, key: Seq<char>, i: int)
    requires
        0 <= i < tags.len(),
        tags[i].key@ == key,
        forall|j: int| 0 <= j < i ==> (#[trigger] tags[j]).key@ != key,
    ensures
        tag_value(tags, key) == Some(tags[i].value@),
    decreases tags.len(),
{
    if i > 0 {
        assert(tags[0].key@ != key);
        let rest = tags.skip(1);
        assert forall|j: int| 0 <= j < i - 1 implies (#[trigger] rest[j]).key@ != key by {
            assert(rest[j] == tags[j + 1]);
        }
        first_tag_counts(rest, key, i - 1);
    }
}

/// Nothing is said under a key that no tag has.
pub proof fn absent_tag_says_nothing(tags: Seq<Tag>, key: Seq<char>)
    requires
        forall|j: int| 0 <= j < tags.len() ==> (#[trigger] tags[j]).key@ != key,
    ensures
        tag_value(tags, key) is None,
    decreases tags.len(),
{
    if tags.len() > 0 {
        assert(tags[0].key@ != key);
        let rest = tags.skip(1);
        assert forall|j: int| 0 <= j < rest.len() implies (#[trigger] rest[j]).key@ != key by {
            assert(rest[j] == tags[j + 1]);
        }
        absent_tag_says_nothing(rest, key);
    }
}

/// A flag has the value of its first entry, and is not set where it has none.
pub proof fn first_flag_counts(flags: Seq<Flag>, key: Seq<char>, i: int)
    requires
        0 <= i <= flags.len(),
        i < flags.len() ==> flags[i].key@ == key,
        forall|j: int| 0 <= j < i ==> (#[trigger] flags[j]).key@ != key,
    ensures
        i < flags.len() ==> flag_value(flags, key) == flags[i].value,
        i == flags.len() ==> flag_value(flags, key) == 0,
    decreases flags.len(),
{
    if i > 0 {
        assert(flags[0].key@ != key);
        let rest = flags.skip(1);
        assert forall|j: int| 0 <= j < i - 1 implies (#[trigger] rest[j]).key@ != key by {
            assert(rest[j] == flags[j + 1]);
        }
        if i < flags.len() {
            assert(rest[i - 1] == flags[i]);
        }
        first_flag_counts(rest, key, i - 1);
    }
}

/// The streams of a kind are all of that kind, in their order.
pub proof fn streams_of_a_kind(s: Seq<ProbeStream>, kind: spec_fn(ProbeStream) -> bool)
    ensures
        streams_of(s, kind) == s.filter(kind),
    decreases s.len(),
{
    reveal(Seq::filter);
    if s.len() > 0 {
        streams_of_a_kind(s.drop_last(), kind);
    }
}

/// A bit rate is printed in bits and told in whole kilobits.
pub proof fn bit_rates_are_told_in_kilobits(kilobits: nat, bits: nat)
    requires
        bits < 1000,
        kilobits * 1000 + bits <= u64::MAX,
    ensures
        kbps(Some(text::decimal(kilobits * 1000 + bits))) == Some(kilobits as int),
        kbps(None) is None,
{
    let n = kilobits * 1000 + bits;
    text::decimal_roundtrip(n);
    assert(text::is_digit(text::decimal(n)[0]));
    assert(n / 1000 == kilobits);
}

/// A frame rate is the fraction that is printed: what stands before the slash by what stands
/// behind it.
pub proof fn frame_rates_are_fractions(a: Seq<char>, b: Seq<char>)
    requires
        !a.contains('/'),
    ensures
        fps_parts(Some(a + seq!['/'] + b)) == Some((a, b)),
        fps_parts(None) is None,
{
    let s = a + seq!['/'] + b;
    assert forall|i: int| 0 <= i < a.len() implies #[trigger] s[i] != '/' by {
        assert(a.contains(a[i]));
        assert(s[i] == a[i]);
    }
    text::first_index_is(s, '/', a.len() as int);
    assert(s.take(a.len() as int) =~= a);
    assert(s.skip(a.len() + 1int) =~= b);
}

/// A track of video is told with its own codec, width and height, and a track of sound with
/// its own codec, channels, language and mark.
pub proof fn tracks_are_told_as_printed(
    v: VideoTrackInfo,
    a: AudioTrackInfo,
    video: ProbeStream,
    sound: ProbeStream,
)
    requires
        describes_video(v, video),
        describes_audio(a, sound),
    ensures
        v.codec@ == video.codec_name@ && v.width == video.width && v.height == video.height,
        video.pix_fmt matches Some(t) ==> t@.len() > 0 ==> v.pix_fmt is Some && (v.pix_fmt->0)@
            == t@,
        video.profile matches Some(t) ==> t@.len() > 0 ==> v.profile is Some && (v.profile->0)@
            == t@,
        a.codec@ == sound.codec_name@ && a.channels == sound.channels,
        tag_value(sound.tags@, "language"@) matches Some(t) ==> t.len() > 0 ==> a.language is Some
            && (a.language->0)@ == t,
        tag_value(sound.tags@, "title"@) matches Some(t) ==> t.len() > 0 ==> a.title is Some && (
        a.title->0)@ == t,
        a.default <==> flag_value(sound.disposition@, "default"@) != 0,
{
}

/// The video of a file is its first stream of video that is no cover art, and its sound all
/// its streams of sound; its running time is the one that the container prints.
pub proof fn files_are_told_as_printed(info: MediaTechInfo, p: ProbeOutput, i: int)
    requires
        describes_file(info, p),
        0 <= i < p.streams@.len(),
        p.streams@[i].codec_type@ == "video"@,
        flag_value(p.streams@[i].disposition@, "attached_pic"@) == 0,
        forall|j: int|
            0 <= j < i ==> (#[trigger] p.streams@[j]).codec_type@ != "video"@ || flag_value(
                p.streams@[j].disposition@,
                "attached_pic"@,
            ) != 0,
    ensures
        info.video is Some,
        (info.video->0).codec@ == p.streams@[i].codec_name@,
        (info.video->0).width == p.streams@[i].width,
        (info.video->0).height == p.streams@[i].height,
        info.audio@.len() == p.streams@.filter(
            |s: ProbeStream| s.codec_type@ == "audio"@,
        ).len(),
        p.format.duration matches Some(t) ==> match decimal::seconds_us(t@) {
            Some(d) => info.duration_us is Some && info.duration_us->0 == d,
            None => info.duration_us is None,
        },
        p.format.duration is None ==> info.duration_us is None,
        p.format.format_name matches Some(t) ==> t@.len() > 0 ==> info.container is Some && (
        info.container->0)@ == t@,
{
    first_of_kind(p.streams@, video_kind(), i);
    streams_of_a_kind(p.streams@, audio_kind());
    same_filter(p.streams@);
}

proof fn same_filter(s: Seq<ProbeStream>)
    ensures
        s.filter(audio_kind()) == s.filter(|x: ProbeStream| x.codec_type@ == "audio"@),
    decreases s.len(),
{
    reveal(Seq::filter);
    if s.len() > 0 {
        same_filter(s.drop_last());
    }
}

proof fn first_of_kind(s: Seq<ProbeStream>, kind: spec_fn(ProbeStream) -> bool, i: int)
    requires
        0 <= i < s.len(),
        kind(s[i]),
        forall|j: int| 0 <= j < i ==> !kind(#[trigger] s[j]),
    ensures
        streams_of(s, kind).len() > 0,
        streams_of(s, kind)[0] == s[i],
    decreases s.len(),
{
    let t = s.drop_last();
    if i < t.len() {
        assert(t[i] == s[i]);
        first_of_kind(t, kind, i);
    } else {
        none_of_kind(t, kind);
    }
}

proof fn none_of_kind(s: Seq<ProbeStream>, kind: spec_fn(ProbeStream) -> bool)
    requires
        forall|j: int| 0 <= j < s.len() ==> !kind(#[trigger] s[j]),
    ensures
        streams_of(s, kind).len() == 0,
    decreases s.len(),
{
    if s.len() > 0 {
        assert(!kind(s[s.len() - 1]));
        none_of_kind(s.drop_last(), kind);
    }
}

/// Chapters are read one by one, in their order; each starts and ends where it says, and one
/// whose times cannot be read is left out.
pub proof fn chapters_are_read_one_by_one(a: Seq<ProbeChapter>, b: Seq<ProbeChapter>, c: ProbeChapter)
    ensures
        chapters_of(a + b) == chapters_of(a) + chapters_of(b),
        decimal::seconds_us(c.start_time@) is Some && decimal::seconds_us(c.end_time@) is Some
            ==> chapters_of(seq![c]) == seq![
            ChapterView {
                start_us: decimal::seconds_us(c.start_time@)->0,
                end_us: decimal::seconds_us(c.end_time@)->0,
                title: tag_value(c.tags@, "title"@),
            },
        ],
        decimal::seconds_us(c.start_time@) is None || decimal::seconds_us(c.end_time@) is None
            ==> chapters_of(seq![c]).len() == 0,
    decreases b.len(),
{
    let one = seq![c];
    assert(one.drop_last() =~= Seq::empty());
    assert(chapters_of(one.drop_last()) =~= Seq::empty());
    assert(one.last() == c);
    if b.len() == 0 {
        assert(a + b =~= a);
        assert(chapters_of(a + b) =~= chapters_of(a) + chapters_of(b));
    } else {
        chapters_are_read_one_by_one(a, b.drop_last(), c);
        assert((a + b).drop_last() =~= a + b.drop_last());
        assert(chapters_of(a + b) =~= chapters_of(a) + chapters_of(b));
    }
}

/// A stream of subtitles is told with its own number, codec, tags and flags.
pub proof fn subtitles_are_told_as_printed(e: EmbeddedSubtitleStream, s: ProbeStream, i: int, j: int)
    requires
        describes_subtitle(e, s),
        0 <= i < s.tags@.len(),
        0 <= j < s.disposition@.len(),
    ensures
        e.index == s.index && e.codec@ == s.codec_name@,
        e.tags@.len() == s.tags@.len(),
        e.tags@[i].key@ == s.tags@[i].key@ && e.tags@[i].value@ == s.tags@[i].value@,
        e.disposition@.len() == s.disposition@.len(),
        e.disposition@[j].key@ == s.disposition@[j].key@ && e.disposition@[j].value
            == s.disposition@[j].value,
{
}

/// A bit rate is told in whole kilobits of the one printed; what is printed as nothing is not
/// told at all.
pub proof fn rates_of_tracks_are_told(
    v: VideoTrackInfo,
    a: AudioTrackInfo,
    video: ProbeStream,
    sound: ProbeStream,
    kilobits: nat,
    bits: nat,
)
    requires
        describes_video(v, video),
        describes_audio(a, sound),
        bits < 1000,
        kilobits * 1000 + bits <= u64::MAX,
    ensures
        sound.bit_rate matches Some(t) ==> t@ == text::decimal(kilobits * 1000 + bits)
            ==> a.bitrate_kbps is Some && a.bitrate_kbps->0 == kilobits,
        sound.bit_rate is None ==> a.bitrate_kbps is None,
        video.bit_rate matches Some(t) ==> t@ == text::decimal(kilobits * 1000 + bits)
            ==> v.bitrate_kbps is Some && v.bitrate_kbps->0 == kilobits,
        video.bit_rate is None ==> v.bitrate_kbps is None,
        video.pix_fmt matches Some(t) ==> t@.len() == 0 ==> v.pix_fmt is None,
        video.profile matches Some(t) ==> t@.len() == 0 ==> v.profile is None,
        video.pix_fmt is None ==> v.pix_fmt is None,
        video.profile is None ==> v.profile is None,
{
    bit_rates_are_told_in_kilobits(kilobits, bits);
}

/// A file whose container is not known never goes out as it is, and is told to be repackaged.
pub proof fn unknown_containers_are_repackaged(video: Seq<char>, audio: Option<Seq<char>>)
    requires
        video == "h264"@ || video == "vp8"@ || video == "vp9"@ || video == "av1"@,
    ensures
        compat_of(Some(video), audio, None) == BrowserCompat::Remux,
        compat_reason_of(Some(video), audio, None) == Some(
            "container "@ + "unknown"@ + " needs repackaging to "@ + if video == "h264"@ {
                "MP4"@
            } else {
                "WebM"@
            },
        ),
{
    reveal_strlit("h264");
    reveal_strlit("vp8");
    reveal_strlit("vp9");
    reveal_strlit("av1");
    assert("h264"@.len() == 4 && "vp8"@.len() == 3 && "vp9"@.len() == 3 && "av1"@.len() == 3);
}

} // verus!
