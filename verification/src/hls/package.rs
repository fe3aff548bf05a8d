//! Packaging a whole file in one run: the playlist grows while the run goes on, and the
//! segments stay for everyone who comes later.

use crate::paths;
use crate::text;
use crate::types;
use vstd::prelude::*;

verus! {

/// The mark of a finished run.
pub open spec fn done_file(dir: Seq<char>) -> Seq<char> {
    paths::joined(dir, ".done"@)
}

/// The file that marks a directory as complete.
pub fn done_path(dir: &str) -> (r: String)
    ensures
        r@ == done_file(dir@),
{
    paths::join(dir, ".done")
}

/// What someone who asks for a packaged file does.
#[derive(Debug, Clone, Copy, PartialEq, Eq, Structural)]
pub enum Join {
    /// It is there already.
    Serve,
    /// Someone else packages it: wait for the first segment.
    Wait,
    /// Nobody does: package it.
    Lead,
}

/// What a request does, given whether the files are complete or are being made.
pub fn join_run(done: bool, running: bool) -> (r: Join)
    ensures
        r == if done {
            Join::Serve
        } else if running {
            Join::Wait
        } else {
            Join::Lead
        },
{
    if done {
        Join::Serve
    } else if running {
        Join::Wait
    } else {
        Join::Lead
    }
}

/// Video that cannot be packaged as it is.
pub open spec fn cannot_package(codec: Option<Seq<char>>) -> bool {
    codec == Some("vp9"@) || codec == Some("vp8"@) || codec == Some("av1"@)
}

/// Whether video of a codec can be packaged, and why not.
pub fn check_video(codec: Option<&str>) -> (r: Result<(), String>)
    ensures
        r is Err == cannot_package(types::opt_str(codec)),
        r matches Err(why) ==> codec is Some && why@ == "HLS transcode from "@ + (codec->0)@
            + " not implemented yet"@,
{
    match codec {
        Some(c) => if *c == *"vp9" || *c == *"vp8" || *c == *"av1" {
            let mut why = text::own("HLS transcode from ");
            why.push_str(c);
            why.push_str(" not implemented yet");
            Err(why)
        } else {
            Ok(())
        },
        None => Ok(()),
    }
}

/// What is done with the audio: what a browser plays is copied, all else becomes stereo.
pub open spec fn sound_args(codec: Option<Seq<char>>) -> Seq<Seq<char>> {
    if codec == Some("aac"@) {
        seq!["-c:a"@, "copy"@]
    } else {
        seq!["-c:a"@, "aac"@, "-ac"@, "2"@, "-b:a"@, "192k"@]
    }
}

/// The arguments before those for the audio.
pub open spec fn source_args(source: Seq<char>) -> Seq<Seq<char>> {
    seq![
        "-hide_banner"@,
        "-loglevel"@,
        "warning"@,
        "-nostdin"@,
        "-i"@,
        source,
        "-map"@,
        "0:v:0"@,
        "-map"@,
        "0:a:0?"@,
        "-c:v"@,
        "copy"@,
    ]
}

/// The arguments behind those for the audio.
pub open spec fn target_args(dir: Seq<char>) -> Seq<Seq<char>> {
    seq![
        "-sn"@,
        "-dn"@,
        "-f"@,
        "hls"@,
        "-hls_time"@,
        "6"@,
        "-hls_playlist_type"@,
        "event"@,
        "-hls_segment_type"@,
        "fmp4"@,
        "-hls_flags"@,
        "independent_segments+program_date_time"@,
        "-hls_fmp4_init_filename"@,
        "init.mp4"@,
        "-hls_segment_filename"@,
        paths::joined(dir, "seg-%05d.m4s"@),
        paths::joined(dir, "index.m3u8"@),
    ]
}

fn push_source(args: &mut Vec<String>, source: &str)
    ensures
        types::texts(final(args)@) == types::texts(old(args)@) + source_args(source@),
{
    let ghost start = types::texts(args@);
    types::push_text(args, "-hide_banner");
    types::push_pair(args, "-loglevel", "warning");
    types::push_text(args, "-nostdin");
    types::push_pair(args, "-i", source);
    types::push_pair(args, "-map", "0:v:0");
    types::push_pair(args, "-map", "0:a:0?");
    types::push_pair(args, "-c:v", "copy");
    assert(types::texts(args@) =~= start + source_args(source@));
}

fn push_target(args: &mut Vec<String>, dir: &str)
    ensures
        types::texts(final(args)@) == types::texts(old(args)@) + target_args(dir@),
{
    let ghost start = types::texts(args@);
    let segments = paths::join(dir, "seg-%05d.m4s");
    let playlist = paths::join(dir, "index.m3u8");
    types::push_pair(args, "-sn", "-dn");
    types::push_pair(args, "-f", "hls");
    types::push_pair(args, "-hls_time", "6");
    types::push_pair(args, "-hls_playlist_type", "event");
    types::push_pair(args, "-hls_segment_type", "fmp4");
    types::push_pair(args, "-hls_flags", "independent_segments+program_date_time");
    types::push_pair(args, "-hls_fmp4_init_filename", "init.mp4");
    types::push_pair(args, "-hls_segment_filename", segments.as_str());
    types::push_text(args, playlist.as_str());
    assert(types::texts(args@) =~= start + target_args(dir@));
}

/// ffmpeg's arguments for packaging a whole file into a directory.
pub fn run_ffmpeg(source: &str, dir: &str, audio_codec: Option<&str>) -> (r: Vec<String>)
    ensures
        types::texts(r@) == source_args(source@) + sound_args(types::opt_str(audio_codec))
            + target_args(dir@),
{
    let mut args: Vec<String> = Vec::new();
    push_source(&mut args, source);
    assert(types::texts(args@) =~= source_args(source@));
    let copies = match audio_codec {
        Some(c) => *c == *"aac",
        None => false,
    };
    if copies {
        types::push_pair(&mut args, "-c:a", "copy");
    } else {
        types::push_pair(&mut args, "-c:a", "aac");
        types::push_pair(&mut args, "-ac", "2");
        types::push_pair(&mut args, "-b:a", "192k");
    }
    assert(types::texts(args@) =~= source_args(source@) + sound_args(types::opt_str(audio_codec)));
    push_target(&mut args, dir);
    args
}

/// Whether a file shows that the run has written a segment.
pub fn is_segment(name: &str) -> (r: bool)
    ensures
        r == (text::begins_with(name@, "seg-"@) && text::finishes_with(name@, ".m4s"@)),
{
    text::starts_with(name, "seg-") && text::ends_with(name, ".m4s")
}

/// The value of the cache header of a served file: a playlist still grows.
pub fn cache_header(file: &str) -> (r: &'static str)
    ensures
        r@ == if text::finishes_with(file@, ".m3u8"@) {
            "no-store"@
        } else {
            "public, max-age=31536000, immutable"@
        },
{
    if text::ends_with(file, ".m3u8") {
        "no-store"
    } else {
        "public, max-age=31536000, immutable"
    }
}

// ---- laws ----

/// Sound that a browser plays is copied; any other becomes stereo AAC.
pub proof fn only_aac_is_copied(codec: Option<Seq<char>>)
    ensures
        sound_args(codec).contains("copy"@) <==> codec == Some("aac"@),
        codec != Some("aac"@) ==> sound_args(codec) == seq!["-c:a"@, "aac"@, "-ac"@, "2"@, "-b:a"@, "192k"@],
{
    reveal_strlit("-c:a");
    reveal_strlit("copy");
    reveal_strlit("aac");
    reveal_strlit("-ac");
    reveal_strlit("2");
    reveal_strlit("-b:a");
    reveal_strlit("192k");
    assert(seq!["-c:a"@, "copy"@][1] == "copy"@);
    assert("copy"@[0] == 'c' && "-c:a"@[0] == '-' && "aac"@[0] == 'a' && "-ac"@[0] == '-' && "2"@[0]
        == '2' && "-b:a"@[0] == '-' && "192k"@[0] == '1');
    let s = seq!["-c:a"@, "aac"@, "-ac"@, "2"@, "-b:a"@, "192k"@];
    if s.contains("copy"@) {
        let i = choose|i: int| 0 <= i < s.len() && s[i] == "copy"@;
        assert(s[i][0] == 'c');
    }
}

/// Video that does not go into fragmented MP4 is refused by its name, and no other is.
pub proof fn webm_video_is_refused(codec: Seq<char>)
    ensures
        cannot_package(Some(codec)) <==> codec == "vp8"@ || codec == "vp9"@ || codec == "av1"@,
        !cannot_package(None),
{
}

} // verus!
