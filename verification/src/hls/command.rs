//! The command lines of ffmpeg for segment production.

use crate::hls::hwenc::HwEncoder;
use crate::hls::plan::{AudioPlan, Mode};
use crate::text;
use crate::types::{push_pair, push_text};
use crate::types;
use vstd::prelude::*;

verus! {

// ---- printing a command line ----

/// A character that a shell does not take as it is.
pub open spec fn is_shell_special(c: char) -> bool {
    ||| c == ' ' || c == '\t' || c == '\n' || c == '\'' || c == '"' || c == '\\' || c == '$'
    ||| c == '`' || c == '*' || c == '?' || c == '[' || c == ']' || c == '(' || c == ')'
    ||| c == '<' || c == '>' || c == '|' || c == '&' || c == ';' || c == '#' || c == '!'
}

fn shell_special(c: char) -> (r: bool)
    ensures
        r == is_shell_special(c),
{
    c == ' ' || c == '\t' || c == '\n' || c == '\'' || c == '"' || c == '\\' || c == '$' || c == '`'
        || c == '*' || c == '?' || c == '[' || c == ']' || c == '(' || c == ')' || c == '<' || c
        == '>' || c == '|' || c == '&' || c == ';' || c == '#' || c == '!'
}

/// An argument that has to be quoted: an empty one, or one with a special character.
pub open spec fn needs_quotes(a: Seq<char>) -> bool {
    a.len() == 0 || exists|i: int| 0 <= i < a.len() && is_shell_special(#[trigger] a[i])
}

/// `a` with each single quote written as `'\''`.
pub open spec fn escaped(a: Seq<char>) -> Seq<char>
    decreases a.len(),
{
    if a.len() == 0 {
        a
    } else {
        escaped(a.drop_last()) + if a.last() == '\'' {
            seq!['\'', '\\', '\'', '\'']
        } else {
            seq![a.last()]
        }
    }
}

/// An argument as it is written on a command line.
pub open spec fn shell_word(a: Seq<char>) -> Seq<char> {
    if needs_quotes(a) {
        seq!['\''] + escaped(a) + seq!['\'']
    } else {
        a
    }
}

/// Appends one argument, quoted where it has to be.
fn push_word(out: &mut String, a: &str)
    ensures
        final(out)@ == old(out)@ + shell_word(a@),
{
    let v = text::chars_of(a);
    let mut quote = v.len() == 0;
    let mut k: usize = 0;
    while k < v.len()
        invariant
            v@ == a@,
            k <= v@.len(),
            quote == (v@.len() == 0 || exists|i: int|
                0 <= i < k && is_shell_special(#[trigger] a@[i])),
        decreases v@.len() - k,
    {
        if shell_special(v[k]) {
            assert(is_shell_special(a@[k as int]));
            quote = true;
        }
        k += 1;
    }
    if !quote {
        out.push_str(a);
        return;
    }
    assert(needs_quotes(a@));
    let ghost before = out@;
    out.push('\'');
    let mut i: usize = 0;
    assert(a@.take(0) =~= Seq::<char>::empty());
    while i < v.len()
        invariant
            v@ == a@,
            i <= v@.len(),
            out@ =~= before + seq!['\''] + escaped(a@.take(i as int)),
        decreases v@.len() - i,
    {
        let c = v[i];
        assert(a@.take(i + 1).drop_last() =~= a@.take(i as int));
        assert(a@.take(i + 1).last() == c);
        if c == '\'' {
            out.push('\'');
            out.push('\\');
            out.push('\'');
            out.push('\'');
        } else {
            out.push(c);
        }
        i += 1;
    }
    assert(a@.take(i as int) =~= a@);
    out.push('\'');
    assert(out@ =~= before + shell_word(a@));
}

/// The words of a command line.
pub open spec fn shell_words(argv: Seq<Seq<char>>) -> Seq<Seq<char>> {
    argv.map_values(|a: Seq<char>| shell_word(a))
}

/// Writes a command line that can be pasted into a terminal.
pub fn format_argv(argv: &Vec<String>) -> (r: String)
    ensures
        r@ == types::join_texts(shell_words(types::texts(argv@)), seq![' ']).push('\n'),
{
    let mut out = String::new();
    let ghost words = shell_words(types::texts(argv@));
    let mut i: usize = 0;
    assert(words.take(0) =~= Seq::<Seq<char>>::empty());
    while i < argv.len()
        invariant
            i <= argv@.len(),
            words == shell_words(types::texts(argv@)),
            out@ == types::join_texts(words.take(i as int), seq![' ']),
        decreases argv@.len() - i,
    {
        if i > 0 {
            out.push(' ');
        }
        push_word(&mut out, argv[i].as_str());
        proof {
            assert(words.take(i + 1).drop_last() =~= words.take(i as int));
            assert(words.take(i + 1).last() == shell_word(argv@[i as int]@));
            assert(out@ =~= types::join_texts(words.take(i + 1), seq![' ']));
        }
        i += 1;
    }
    assert(words.take(i as int) =~= words);
    out.push('\n');
    out
}

// ---- building it ----

/// `scale` to at most `height`, then the conversion that the encoder needs.
pub open spec fn video_filter(height: int, hw: HwEncoder) -> Seq<char> {
    "scale=-2:'min("@ + text::decimal(height as nat) + match hw {
        HwEncoder::Vaapi => ",ih)':flags=lanczos,format=nv12,hwupload"@,
        HwEncoder::Qsv => ",ih)':flags=lanczos,format=nv12,hwupload=extra_hw_frames=64"@,
        _ => ",ih)':flags=lanczos,format=yuv420p"@,
    }
}

fn build_video_filter(height: u32, hw: HwEncoder) -> (r: String)
    ensures
        r@ == video_filter(height as int, hw),
{
    let mut out = text::own("scale=-2:'min(");
    text::push_u64(&mut out, height as u64);
    match hw {
        HwEncoder::Vaapi => out.push_str(",ih)':flags=lanczos,format=nv12,hwupload"),
        HwEncoder::Qsv => out.push_str(
            ",ih)':flags=lanczos,format=nv12,hwupload=extra_hw_frames=64",
        ),
        _ => out.push_str(",ih)':flags=lanczos,format=yuv420p"),
    }
    out
}

/// A number of kilobits per second, as ffmpeg takes it.
pub open spec fn kilobits(n: int) -> Seq<char> {
    text::decimal(n as nat).push('k')
}

fn kilobits_text(n: u32) -> (r: String)
    ensures
        r@ == kilobits(n as int),
{
    let mut out = text::u64_text(n as u64);
    out.push('k');
    out
}

/// `n * m`, no further than the greatest 32-bit number.
pub open spec fn saturating_times(n: int, m: int) -> int {
    if n * m > u32::MAX {
        u32::MAX as int
    } else {
        n * m
    }
}

fn times(n: u32, m: u32) -> (r: u32)
    requires
        m <= 15,
    ensures
        r == saturating_times(n as int, m as int),
{
    assert(0 <= n * m <= u32::MAX * 15) by (nonlinear_arith)
        requires
            0 <= n <= u32::MAX,
            0 <= m <= 15,
    ;
    let wide: u64 = n as u64 * m as u64;
    if wide > u32::MAX as u64 {
        u32::MAX
    } else {
        wide as u32
    }
}

/// What each encoder is told besides the bitrate.
pub open spec fn encoder_knobs(hw: HwEncoder) -> Seq<Seq<char>> {
    match hw {
        HwEncoder::Software => seq![
            "-preset"@,
            "veryfast"@,
            "-profile:v"@,
            "high"@,
            "-level"@,
            "4.1"@,
            "-pix_fmt"@,
            "yuv420p"@,
        ],
        HwEncoder::VideoToolbox => seq![
            "-profile:v"@,
            "high"@,
            "-level"@,
            "4.1"@,
            "-allow_sw"@,
            "1"@,
            "-realtime"@,
            "1"@,
        ],
        HwEncoder::Vaapi => seq!["-profile:v"@, "high"@, "-level"@, "41"@],
        HwEncoder::Qsv => seq![
            "-preset"@,
            "veryfast"@,
            "-profile:v"@,
            "high"@,
            "-level"@,
            "41"@,
        ],
    }
}

fn push_knobs(args: &mut Vec<String>, hw: HwEncoder)
    ensures
        types::texts(final(args)@) == types::texts(old(args)@) + encoder_knobs(hw),
{
    match hw {
        HwEncoder::Software => {
            push_pair(args, "-preset", "veryfast");
            push_pair(args, "-profile:v", "high");
            push_pair(args, "-level", "4.1");
            push_pair(args, "-pix_fmt", "yuv420p");
        },
        HwEncoder::VideoToolbox => {
            push_pair(args, "-profile:v", "high");
            push_pair(args, "-level", "4.1");
            push_pair(args, "-allow_sw", "1");
            push_pair(args, "-realtime", "1");
        },
        HwEncoder::Vaapi => {
            push_pair(args, "-profile:v", "high");
            push_pair(args, "-level", "41");
        },
        HwEncoder::Qsv => {
            push_pair(args, "-preset", "veryfast");
            push_pair(args, "-profile:v", "high");
            push_pair(args, "-level", "41");
        },
    }
    assert(types::texts(args@) =~= types::texts(old(args)@) + encoder_knobs(hw));
}

/// The video arguments: copy, or encode at the plan's bitrate, with peaks of one and
/// a half times and a buffer of twice that rate, and a keyframe at every segment start.
pub open spec fn video_args(mode: Mode, hw: HwEncoder) -> Seq<Seq<char>> {
    match mode {
        Mode::Remux => seq!["-c:v"@, "copy"@],
        Mode::Transcode { bitrate_kbps, max_height } => seq![
            "-vf"@,
            video_filter(max_height as int, hw),
            "-c:v"@,
            hw.name(),
        ] + encoder_knobs(hw) + seq![
            "-b:v"@,
            kilobits(bitrate_kbps as int),
            "-maxrate"@,
            kilobits(saturating_times(bitrate_kbps as int, 15) / 10),
            "-bufsize"@,
            kilobits(saturating_times(bitrate_kbps as int, 2)),
            "-force_key_frames"@,
            "expr:gte(t,n_forced*6)"@,
        ],
    }
}

/// Appends the video arguments.
pub fn apply_video_args(args: &mut Vec<String>, mode: &Mode, hw: HwEncoder)
    ensures
        types::texts(final(args)@) == types::texts(old(args)@) + video_args(*mode, hw),
{
    match *mode {
        Mode::Remux => {
            push_pair(args, "-c:v", "copy");
        },
        Mode::Transcode { bitrate_kbps, max_height } => {
            let filter = build_video_filter(max_height, hw);
            push_pair(args, "-vf", filter.as_str());
            push_pair(args, "-c:v", hw.ffmpeg_name());
            push_knobs(args, hw);
            let rate = kilobits_text(bitrate_kbps);
            let peak = kilobits_text(times(bitrate_kbps, 15) / 10);
            let buffer = kilobits_text(times(bitrate_kbps, 2));
            push_pair(args, "-b:v", rate.as_str());
            push_pair(args, "-maxrate", peak.as_str());
            push_pair(args, "-bufsize", buffer.as_str());
            push_pair(args, "-force_key_frames", "expr:gte(t,n_forced*6)");
        },
    }
    assert(types::texts(args@) =~= types::texts(old(args)@) + video_args(*mode, hw));
}

/// The audio arguments: none without a track; copy where the plan says so and the
/// video is copied too; else AAC.
pub open spec fn audio_args(audio: Option<AudioPlan>, mode: Mode) -> Seq<Seq<char>> {
    match audio {
        None => Seq::empty(),
        Some(a) => if mode is Remux && a.out_codec@ == "copy"@ {
            seq!["-c:a"@, "copy"@]
        } else {
            seq![
                "-c:a"@,
                "aac"@,
                "-ac"@,
                text::decimal(a.channels as nat),
                "-b:a"@,
                kilobits(a.bitrate_kbps as int),
            ]
        },
    }
}

/// Appends the audio arguments.
pub fn apply_audio_args(args: &mut Vec<String>, audio: &Option<AudioPlan>, mode: &Mode)
    ensures
        types::texts(final(args)@) == types::texts(old(args)@) + audio_args(*audio, *mode),
{
    if let Some(a) = audio {
        let copying = match mode {
            Mode::Remux => true,
            _ => false,
        };
        if copying && *a.out_codec.as_str() == *"copy" {
            push_pair(args, "-c:a", "copy");
        } else {
            push_pair(args, "-c:a", "aac");
            let channels = text::u64_text(a.channels as u64);
            push_pair(args, "-ac", channels.as_str());
            let rate = kilobits_text(a.bitrate_kbps);
            push_pair(args, "-b:a", rate.as_str());
        }
    }
    assert(types::texts(args@) =~= types::texts(old(args)@) + audio_args(*audio, *mode));
}

/// The arguments that set up the device of a hardware encoder.
pub open spec fn device_args(mode: Mode, hw: HwEncoder) -> Seq<Seq<char>> {
    if mode is Transcode && hw is Vaapi {
        seq!["-init_hw_device"@, "vaapi=va:/dev/dri/renderD128"@, "-filter_hw_device"@, "va"@]
    } else if mode is Transcode && hw is Qsv {
        seq!["-init_hw_device"@, "qsv=qsv:hw_any"@, "-filter_hw_device"@, "qsv"@]
    } else {
        Seq::empty()
    }
}

fn push_device(args: &mut Vec<String>, mode: &Mode, hw: HwEncoder)
    ensures
        types::texts(final(args)@) == types::texts(old(args)@) + device_args(*mode, hw),
{
    let encodes = match mode {
        Mode::Remux => false,
        _ => true,
    };
    if encodes {
        match hw {
            HwEncoder::Vaapi => {
                push_pair(args, "-init_hw_device", "vaapi=va:/dev/dri/renderD128");
                push_pair(args, "-filter_hw_device", "va");
            },
            HwEncoder::Qsv => {
                push_pair(args, "-init_hw_device", "qsv=qsv:hw_any");
                push_pair(args, "-filter_hw_device", "qsv");
            },
            _ => {},
        }
    }
    assert(types::texts(args@) =~= types::texts(old(args)@) + device_args(*mode, hw));
}

/// Microseconds as seconds with six decimals.
pub open spec fn seconds6(us: int) -> Seq<char> {
    text::decimal((us / 1_000_000) as nat) + "."@ + text::zero_padded(
        text::decimal((us % 1_000_000) as nat),
        6,
    )
}

/// The part of the command line between the device and the video arguments.
pub open spec fn input_args(start_us: int, source: Seq<char>, audio_idx: int) -> Seq<Seq<char>> {
    seq![
        "-protocol_whitelist"@,
        "file"@,
        "-analyzeduration"@,
        "10M"@,
        "-probesize"@,
        "50M"@,
        "-ss"@,
        seconds6(start_us),
        "-copyts"@,
        "-i"@,
        source,
        "-map"@,
        "0:v:0"@,
        "-map"@,
        "0:a:"@ + text::decimal(audio_idx as nat) + "?"@,
        "-avoid_negative_ts"@,
        "disabled"@,
    ]
}

/// The part of the command line that sets up the segment muxer.
pub open spec fn muxer_args(start_idx: int) -> Seq<Seq<char>> {
    seq![
        "-sn"@,
        "-dn"@,
        "-f"@,
        "hls"@,
        "-hls_time"@,
        "6"@,
        "-hls_playlist_type"@,
        "vod"@,
        "-hls_segment_type"@,
        "fmp4"@,
        "-hls_flags"@,
        "independent_segments+program_date_time"@,
        "-hls_segment_options"@,
        "movflags=+frag_discont"@,
        "-hls_fmp4_init_filename"@,
        "init.mp4"@,
        "-hls_segment_filename"@,
        "seg-%05d.m4s"@,
        "-start_number"@,
        text::decimal(start_idx as nat),
        "-hls_list_size"@,
        "0"@,
        "_run.m3u8"@,
    ]
}

/// ffmpeg's arguments for a producer that writes from segment `start_idx` on.
pub open spec fn producer_args(
    mode: Mode,
    hw: HwEncoder,
    audio: Option<AudioPlan>,
    start_us: int,
    source: Seq<char>,
    audio_idx: int,
    start_idx: int,
) -> Seq<Seq<char>> {
    seq!["-hide_banner"@, "-loglevel"@, "warning"@, "-nostdin"@] + device_args(mode, hw)
        + input_args(start_us, source, audio_idx) + video_args(mode, hw) + audio_args(audio, mode)
        + muxer_args(start_idx)
}

fn push_input(args: &mut Vec<String>, start_us: u64, source: &str, audio_idx: u32)
    ensures
        types::texts(final(args)@) == types::texts(old(args)@) + input_args(
            start_us as int,
            source@,
            audio_idx as int,
        ),
{
    push_pair(args, "-protocol_whitelist", "file");
    push_pair(args, "-analyzeduration", "10M");
    push_pair(args, "-probesize", "50M");
    let mut at = text::u64_text(start_us / 1_000_000);
    at.push_str(".");
    text::push_u64_padded(&mut at, start_us % 1_000_000, 6);
    push_pair(args, "-ss", at.as_str());
    push_text(args, "-copyts");
    push_pair(args, "-i", source);
    push_pair(args, "-map", "0:v:0");
    let mut track = text::own("0:a:");
    text::push_u64(&mut track, audio_idx as u64);
    track.push_str("?");
    push_pair(args, "-map", track.as_str());
    push_pair(args, "-avoid_negative_ts", "disabled");
    assert(types::texts(args@) =~= types::texts(old(args)@) + input_args(
        start_us as int,
        source@,
        audio_idx as int,
    ));
}

fn push_muxer(args: &mut Vec<String>, start_idx: u32)
    ensures
        types::texts(final(args)@) == types::texts(old(args)@) + muxer_args(start_idx as int),
{
    push_pair(args, "-sn", "-dn");
    push_pair(args, "-f", "hls");
    push_pair(args, "-hls_time", "6");
    push_pair(args, "-hls_playlist_type", "vod");
    push_pair(args, "-hls_segment_type", "fmp4");
    push_pair(args, "-hls_flags", "independent_segments+program_date_time");
    push_pair(args, "-hls_segment_options", "movflags=+frag_discont");
    push_pair(args, "-hls_fmp4_init_filename", "init.mp4");
    push_pair(args, "-hls_segment_filename", "seg-%05d.m4s");
    let n = text::u64_text(start_idx as u64);
    push_pair(args, "-start_number", n.as_str());
    push_pair(args, "-hls_list_size", "0");
    push_text(args, "_run.m3u8");
    assert(types::texts(args@) =~= types::texts(old(args)@) + muxer_args(start_idx as int));
}

/// Builds ffmpeg's arguments for a producer: `start_idx` is the first segment it
/// writes, `start_us` the time in the source where that segment starts.
pub fn ffmpeg_args(
    mode: &Mode,
    hw: HwEncoder,
    audio: &Option<AudioPlan>,
    start_us: u64,
    source: &str,
    audio_idx: u32,
    start_idx: u32,
) -> (r: Vec<String>)
    ensures
        types::texts(r@) == producer_args(
            *mode,
            hw,
            *audio,
            start_us as int,
            source@,
            audio_idx as int,
            start_idx as int,
        ),
{
    let mut args: Vec<String> = Vec::new();
    push_text(&mut args, "-hide_banner");
    push_pair(&mut args, "-loglevel", "warning");
    push_text(&mut args, "-nostdin");
    assert(types::texts(args@) =~= seq!["-hide_banner"@, "-loglevel"@, "warning"@, "-nostdin"@]);
    push_device(&mut args, mode, hw);
    push_input(&mut args, start_us, source, audio_idx);
    apply_video_args(&mut args, mode, hw);
    apply_audio_args(&mut args, audio, mode);
    push_muxer(&mut args, start_idx);
    args
}

// ---- laws ----

/// What a shell makes of a word: single quotes keep everything between them, and outside of
/// them a backslash keeps the next character. Nothing where a quote stays open.
pub open spec fn read_by_shell(s: Seq<char>, quoted: bool) -> Option<Seq<char>>
    decreases s.len(),
{
    if s.len() == 0 {
        if quoted {
            None
        } else {
            Some(Seq::empty())
        }
    } else if s[0] == '\'' {
        read_by_shell(s.skip(1), !quoted)
    } else if !quoted && s[0] == '\\' {
        if s.len() == 1 {
            None
        } else {
            match read_by_shell(s.skip(2), false) {
                Some(rest) => Some(seq![s[1]] + rest),
                None => None,
            }
        }
    } else {
        match read_by_shell(s.skip(1), quoted) {
            Some(rest) => Some(seq![s[0]] + rest),
            None => None,
        }
    }
}

proof fn first_char_is_escaped_first(c: char, rest: Seq<char>)
    ensures
        escaped(seq![c] + rest) == (if c == '\'' {
            seq!['\'', '\\', '\'', '\'']
        } else {
            seq![c]
        }) + escaped(rest),
    decreases rest.len(),
{
    let all = seq![c] + rest;
    let e = if c == '\'' {
        seq!['\'', '\\', '\'', '\'']
    } else {
        seq![c]
    };
    if rest.len() == 0 {
        assert(all.drop_last() =~= rest);
        assert(all.last() == c);
        assert(escaped(rest) =~= Seq::empty());
        assert(escaped(all) =~= e);
        assert(e + escaped(rest) =~= e);
    } else {
        first_char_is_escaped_first(c, rest.drop_last());
        assert(all.drop_last() =~= seq![c] + rest.drop_last());
        assert(all.last() == rest.last());
        assert(escaped(all) =~= e + escaped(rest));
    }
}

proof fn escaped_is_read(a: Seq<char>)
    ensures
        read_by_shell(escaped(a) + seq!['\''], true) == Some(a),
    decreases a.len(),
{
    let end = seq!['\''];
    if a.len() == 0 {
        let s = escaped(a) + end;
        assert(s =~= end);
        assert(s.skip(1) =~= Seq::empty());
        assert(read_by_shell(s.skip(1), false) == Some(Seq::<char>::empty()));
        assert(a =~= Seq::empty());
    } else {
        let c = a[0];
        let rest = a.skip(1);
        assert(a =~= seq![c] + rest);
        first_char_is_escaped_first(c, rest);
        escaped_is_read(rest);
        let t = escaped(rest) + end;
        let s = escaped(a) + end;
        if c == '\'' {
            let q = seq!['\'', '\\', '\'', '\''];
            assert(s =~= q + t);
            let s1 = s.skip(1);
            assert(s1[0] == '\\' && s1[1] == '\'');
            let s3 = s1.skip(2);
            assert(s3 =~= seq!['\''] + t);
            assert(s3.skip(1) =~= t);
            assert(read_by_shell(s3, false) == read_by_shell(t, true));
            assert(read_by_shell(s1, false) == Some(seq![c] + rest));
            assert(read_by_shell(s, true) == read_by_shell(s1, false));
        } else {
            assert(s =~= seq![c] + t);
            assert(s.skip(1) =~= t);
        }
    }
}

proof fn plain_word_is_read(a: Seq<char>)
    requires
        forall|i: int| 0 <= i < a.len() ==> !is_shell_special(#[trigger] a[i]),
    ensures
        read_by_shell(a, false) == Some(a),
    decreases a.len(),
{
    if a.len() > 0 {
        let rest = a.skip(1);
        assert(!is_shell_special(a[0]));
        assert forall|i: int| 0 <= i < rest.len() implies !is_shell_special(#[trigger] rest[i]) by {
            assert(rest[i] == a[i + 1]);
        }
        plain_word_is_read(rest);
        assert(a =~= seq![a[0]] + rest);
    } else {
        assert(a =~= Seq::empty());
    }
}

/// Every argument comes back from a shell as it was, whatever it holds, and is one word: what
/// a shell splits or expands stands between quotes.
pub proof fn shell_reads_the_argument(a: Seq<char>)
    ensures
        read_by_shell(shell_word(a), false) == Some(a),
        shell_word(a).len() > 0,
        (exists|i: int|
            0 <= i < a.len() && ((#[trigger] a[i]) == ' ' || a[i] == '$' || a[i] == '*' || a[i] == ';'
                || a[i] == '&' || a[i] == '|' || a[i] == '`' || a[i] == '\n')) ==> shell_word(a)[0]
            == '\'' && shell_word(a).last() == '\'',
{
    if needs_quotes(a) {
        let s = shell_word(a);
        let t = escaped(a) + seq!['\''];
        assert(s =~= seq!['\''] + t);
        assert(s.skip(1) =~= t);
        escaped_is_read(a);
    } else {
        assert forall|i: int| 0 <= i < a.len() implies !is_shell_special(#[trigger] a[i]) by {}
        plain_word_is_read(a);
    }
    if exists|i: int|
        0 <= i < a.len() && ((#[trigger] a[i]) == ' ' || a[i] == '$' || a[i] == '*' || a[i] == ';'
            || a[i] == '&' || a[i] == '|' || a[i] == '`' || a[i] == '\n') {
        let i = choose|i: int|
            0 <= i < a.len() && ((#[trigger] a[i]) == ' ' || a[i] == '$' || a[i] == '*' || a[i]
                == ';' || a[i] == '&' || a[i] == '|' || a[i] == '`' || a[i] == '\n');
        assert(is_shell_special(a[i]));
    }
}

/// A time is written as its whole seconds and six digits of microseconds.
pub proof fn seconds_have_six_digits(whole: nat, us: nat)
    requires
        us < 1_000_000,
    ensures
        seconds6((whole * 1_000_000 + us) as int) == text::decimal(whole) + "."@
            + text::zero_padded(text::decimal(us), 6),
{
    let t = (whole * 1_000_000 + us) as int;
    assert(t / 1_000_000 == whole);
    assert(t % 1_000_000 == us);
}

/// The peak rate is half again as high as the rate that is asked for, and the buffer takes
/// twice that rate, as long as the numbers are not absurdly large.
pub proof fn peaks_are_half_again(kbps: int)
    requires
        0 <= kbps <= 200_000_000,
    ensures
        saturating_times(kbps, 15) / 10 == kbps * 3 / 2,
        saturating_times(kbps, 2) == kbps + kbps,
{
}

/// Sound is copied only along with the picture; a new encoding has new sound, and no sound is
/// left out but that of a source without any.
pub proof fn sound_is_copied_with_the_picture(audio: AudioPlan, bitrate_kbps: u32, max_height: u32)
    ensures
        audio_args(None, Mode::Remux).len() == 0,
        audio_args(Some(audio), Mode::Remux) == seq!["-c:a"@, "copy"@] <==> audio.out_codec@
            == "copy"@,
        audio_args(Some(audio), Mode::Transcode { bitrate_kbps, max_height }).len() == 6,
        audio_args(Some(audio), Mode::Transcode { bitrate_kbps, max_height })[1] == "aac"@,
{
    let two = seq!["-c:a"@, "copy"@];
    if audio.out_codec@ != "copy"@ {
        assert(audio_args(Some(audio), Mode::Remux).len() == 6);
        assert(two.len() == 2);
    }
}

/// A device is set up for a hardware encoder that needs one, and only where something is
/// encoded.
pub proof fn devices_are_for_encoding(hw: HwEncoder, bitrate_kbps: u32, max_height: u32)
    ensures
        device_args(Mode::Remux, hw).len() == 0,
        device_args(Mode::Transcode { bitrate_kbps, max_height }, hw).len() > 0 <==> hw is Vaapi
            || hw is Qsv,
        video_args(Mode::Remux, hw) == seq!["-c:v"@, "copy"@],
        video_args(Mode::Transcode { bitrate_kbps, max_height }, hw)[3] == hw.name(),
{
}

/// The encoder writes segments of six seconds, numbered from the one that it starts with, each
/// of which can be read by itself, and the head of the stream in a file of its own.
pub proof fn segments_are_written_by_number(start_idx: int)
    ensures
        ({
            let a = muxer_args(start_idx);
            &&& a[2] == "-f"@ && a[3] == "hls"@
            &&& a[4] == "-hls_time"@ && a[5] == "6"@
            &&& a[8] == "-hls_segment_type"@ && a[9] == "fmp4"@
            &&& a[10] == "-hls_flags"@ && a[11] == "independent_segments+program_date_time"@
            &&& a[14] == "-hls_fmp4_init_filename"@ && a[15] == "init.mp4"@
            &&& a[16] == "-hls_segment_filename"@ && a[17] == "seg-%05d.m4s"@
            &&& a[18] == "-start_number"@ && a[19] == text::decimal(start_idx as nat)
            &&& a.last() == "_run.m3u8"@
        }),
{
}

/// A device is opened only to encode on it.
pub proof fn devices_are_opened_to_encode(mode: Mode, hw: HwEncoder)
    ensures
        !(mode is Transcode) ==> device_args(mode, hw).len() == 0,
        mode is Transcode && hw is Vaapi ==> device_args(mode, hw)[0] == "-init_hw_device"@
            && device_args(mode, hw)[1] == "vaapi=va:/dev/dri/renderD128"@ && device_args(
            mode,
            hw,
        )[2] == "-filter_hw_device"@ && device_args(mode, hw)[3] == "va"@,
        mode is Transcode && hw is Qsv ==> device_args(mode, hw)[0] == "-init_hw_device"@
            && device_args(mode, hw)[1] == "qsv=qsv:hw_any"@ && device_args(mode, hw)[2]
            == "-filter_hw_device"@ && device_args(mode, hw)[3] == "qsv"@,
        !(hw is Vaapi) && !(hw is Qsv) ==> device_args(mode, hw).len() == 0,
{
}

} // verus!
