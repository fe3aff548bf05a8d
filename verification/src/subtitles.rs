//! Subtitles: which tracks there are, what they are called and how they are read.

use crate::media_info::EmbeddedSubtitleStream;
use crate::media_info;
use crate::paths;
use crate::text;
use crate::types::{push_pair, push_text};
use crate::types;
use vstd::prelude::*;

verus! {

/// A subtitle codec that is text.
pub open spec fn is_text(codec: Seq<char>) -> bool {
    codec == "ass"@ || codec == "ssa"@ || codec == "subrip"@ || codec == "srt"@ || codec
        == "webvtt"@ || codec == "mov_text"@ || codec == "text"@
}

/// Whether subtitles are text.
pub fn is_text_codec(codec: &str) -> (r: bool)
    ensures
        r == is_text(codec@),
{
    *codec == *"ass" || *codec == *"ssa" || *codec == *"subrip" || *codec == *"srt" || *codec
        == *"webvtt" || *codec == *"mov_text" || *codec == *"text"
}

/// The format in which a track of a codec, or a file with an extension, is kept.
pub open spec fn kept_format(name: Seq<char>) -> Seq<char> {
    if name == "ass"@ || name == "ssa"@ {
        "ass"@
    } else {
        "vtt"@
    }
}

fn format_for(name: &str) -> (r: &'static str)
    ensures
        r@ == kept_format(name@),
{
    if *name == *"ass" || *name == *"ssa" {
        "ass"
    } else {
        "vtt"
    }
}

/// The media type of a track in a format.
pub fn content_type(format: &str) -> (r: &'static str)
    ensures
        r@ == if format@ == "ass"@ {
            "text/x-ssa; charset=utf-8"@
        } else {
            "text/vtt; charset=utf-8"@
        },
{
    if *format == *"ass" {
        "text/x-ssa; charset=utf-8"
    } else {
        "text/vtt; charset=utf-8"
    }
}

// ---- files beside the video ----

/// An extension of a subtitle file, letter case aside.
pub open spec fn is_sidecar_extension(ext: Seq<char>) -> bool {
    let e = text::ascii_lower_text(ext);
    e == "ass"@ || e == "ssa"@ || e == "srt"@ || e == "vtt"@
}

/// `path` is a subtitle file of a video with the given stem: it has the video's name, or
/// that name with more behind a dot, letter case aside.
pub open spec fn belongs_to(path: Seq<char>, stem: Seq<char>) -> bool {
    let own = text::lower_text(stem);
    match (paths::extension_of(path), paths::stem_of(path)) {
        (Some(ext), Some(name)) => {
            let n = text::lower_text(name);
            is_sidecar_extension(ext) && (n == own || text::begins_with(n, own + "."@))
        },
        _ => false,
    }
}

/// Those of the files that are subtitle files of a video with the given stem.
pub open spec fn own_files(files: Seq<Seq<char>>, stem: Seq<char>) -> Seq<Seq<char>>
    decreases files.len(),
{
    if files.len() == 0 {
        files
    } else if belongs_to(files.last(), stem) {
        own_files(files.drop_last(), stem).push(files.last())
    } else {
        own_files(files.drop_last(), stem)
    }
}

/// The subtitle files of a video, in order. `files` lists the files of its directory.
pub open spec fn sidecars_of(video: Seq<char>, files: Seq<Seq<char>>) -> Seq<Seq<char>> {
    match (paths::parent_of(video), paths::stem_of(video)) {
        (Some(_), Some(stem)) => text::in_order(own_files(files, stem)),
        _ => Seq::empty(),
    }
}

fn belongs(path: &str, own: &str, own_dot: &str) -> (r: bool)
    requires
        own_dot@ == own@ + "."@,
    ensures
        forall|stem: Seq<char>| own@ == #[trigger] text::lower_text(stem) ==> r == belongs_to(
            path@,
            stem,
        ),
{
    match (paths::extension(path), paths::file_stem(path)) {
        (Some(ext), Some(name)) => {
            let low = text::to_ascii_lower(ext.as_str());
            let e = low.as_str();
            if !(*e == *"ass" || *e == *"ssa" || *e == *"srt" || *e == *"vtt") {
                return false;
            }
            let n = text::to_lower(name.as_str());
            *n.as_str() == *own || text::starts_with(n.as_str(), own_dot)
        },
        _ => false,
    }
}

/// The subtitle files of a video among the files of its directory, in order.
pub fn find_sidecars(video: &str, files: &Vec<String>) -> (r: Vec<String>)
    ensures
        types::texts(r@) == sidecars_of(video@, types::texts(files@)),
{
    let mut found: Vec<String> = Vec::new();
    assert(types::texts(found@) =~= Seq::<Seq<char>>::empty());
    match (paths::parent(video), paths::file_stem(video)) {
        (Some(_), Some(stem)) => {
            let own = text::to_lower(stem.as_str());
            let mut own_dot = text::own(own.as_str());
            own_dot.push_str(".");
            let ghost all = types::texts(files@);
            let mut i: usize = 0;
            assert(all.take(0) =~= Seq::<Seq<char>>::empty());
            while i < files.len()
                invariant
                    i <= files@.len(),
                    all == types::texts(files@),
                    own@ == text::lower_text(stem@),
                    own_dot@ == own@ + "."@,
                    types::texts(found@) == own_files(all.take(i as int), stem@),
                decreases files@.len() - i,
            {
                proof {
                    assert(all.take(i + 1).drop_last() =~= all.take(i as int));
                    assert(all.take(i + 1).last() == files@[i as int]@);
                }
                if belongs(files[i].as_str(), own.as_str(), own_dot.as_str()) {
                    push_text(&mut found, files[i].as_str());
                }
                i += 1;
            }
            assert(all.take(i as int) =~= all);
            text::sort(&found)
        },
        _ => found,
    }
}

/// The text behind the last dot, or all of it where there is none.
pub open spec fn behind_last_dot(s: Seq<char>) -> Seq<char>
    decreases s.len(),
{
    if s.len() == 0 || s.last() == '.' {
        Seq::empty()
    } else {
        behind_last_dot(s.drop_last()).push(s.last())
    }
}

/// A text of two or three letters, as the codes of languages are.
pub open spec fn is_language_code(s: Seq<char>) -> bool {
    (s.len() == 2 || s.len() == 3) && forall|i: int|
        0 <= i < s.len() ==> text::is_ascii_letter(#[trigger] s[i])
}

/// The language that a subtitle file's name ends in.
pub open spec fn language_of(path: Seq<char>) -> Option<Seq<char>> {
    match paths::stem_of(path) {
        Some(stem) => {
            let tail = behind_last_dot(stem);
            if is_language_code(tail) {
                Some(text::ascii_lower_text(tail))
            } else {
                None
            }
        },
        None => None,
    }
}

/// The language of a subtitle file, by its name.
pub fn sidecar_language(path: &str) -> (r: Option<String>)
    ensures
        types::opt_text(r) == language_of(path@),
{
    let stem = match paths::file_stem(path) {
        Some(s) => s,
        None => {
            return None;
        },
    };
    let v = text::chars_of(stem.as_str());
    let total: usize = v.len();
    let mut from: usize = total;
    assert(v@.take(total as int) =~= v@);
    assert(behind_last_dot(v@.take(total as int)) + v@.skip(total as int) =~= behind_last_dot(v@));
    while from > 0 && v[from - 1] != '.'
        invariant
            from <= total,
            total == v@.len(),
            behind_last_dot(v@.take(from as int)) + v@.skip(from as int) == behind_last_dot(v@),
        decreases from,
    {
        proof {
            let t = v@.take(from as int);
            assert(t.drop_last() =~= v@.take(from - 1));
            assert(behind_last_dot(t) =~= behind_last_dot(v@.take(from - 1)).push(v@[from - 1]));
            assert(behind_last_dot(v@.take(from - 1)) + v@.skip(from - 1) =~= behind_last_dot(t)
                + v@.skip(from as int));
        }
        from -= 1;
    }
    proof {
        let t = v@.take(from as int);
        assert(behind_last_dot(t) =~= Seq::empty());
        assert(behind_last_dot(v@) =~= v@.skip(from as int));
    }
    let n: usize = total - from;
    if n != 2 && n != 3 {
        return None;
    }
    let ghost tail = v@.skip(from as int);
    let mut i: usize = from;
    while i < total
        invariant
            from <= i <= total,
            total == v@.len(),
            tail == v@.skip(from as int),
            tail == behind_last_dot(stem@),
            paths::stem_of(path@) == Some(stem@),
            forall|k: int| 0 <= k < i - from ==> text::is_ascii_letter(#[trigger] tail[k]),
        decreases total - i,
    {
        if !text::ascii_letter(v[i]) {
            assert(tail[i - from] == v@[i as int]);
            return None;
        }
        i += 1;
    }
    let code = text::string_of(&v, from, total);
    assert(code@ =~= tail);
    Some(text::to_ascii_lower(code.as_str()))
}

/// The extension of a subtitle file, in lower case.
pub open spec fn lower_extension(path: Seq<char>) -> Seq<char> {
    match paths::extension_of(path) {
        Some(e) => text::ascii_lower_text(e),
        None => ""@,
    }
}

/// In which format a subtitle file is kept, and whether its text is rewritten for that.
pub fn sidecar_format(path: &str) -> (r: (&'static str, bool))
    ensures
        r.0@ == kept_format(lower_extension(path@)),
        r.1 == (lower_extension(path@) == "srt"@),
{
    let ext = match paths::extension(path) {
        Some(e) => text::to_ascii_lower(e.as_str()),
        None => text::own(""),
    };
    proof {
        reveal_strlit("");
        reveal_strlit("srt");
    }
    (format_for(ext.as_str()), *ext.as_str() == *"srt")
}

// ---- tracks in the video ----

/// A track in a video that is taken out of it.
#[derive(Debug)]
pub struct EmbeddedMeta {
    pub stream_index: u32,
    pub codec: String,
    pub target_format: String,
    pub language: String,
    pub label: String,
    pub default: bool,
    pub forced: bool,
}

/// A tag of a stream, or nothing.
pub open spec fn tag_or_empty(s: EmbeddedSubtitleStream, key: Seq<char>) -> Seq<char> {
    match media_info::tag_value(s.tags@, key) {
        Some(t) => t,
        None => ""@,
    }
}

/// The label of a track: its title, else its number, with its language where it has one.
pub open spec fn track_label(s: EmbeddedSubtitleStream) -> Seq<char> {
    let title = tag_or_empty(s, "title"@);
    let lang = tag_or_empty(s, "language"@);
    if title.len() > 0 {
        title
    } else if lang.len() > 0 {
        "Track "@ + text::decimal(s.index as nat) + " ("@ + lang + ")"@
    } else {
        "Track "@ + text::decimal(s.index as nat)
    }
}

/// `m` describes the stream `s`.
pub open spec fn describes(m: EmbeddedMeta, s: EmbeddedSubtitleStream) -> bool {
    &&& m.stream_index == s.index
    &&& m.codec@ == s.codec@
    &&& m.target_format@ == kept_format(s.codec@)
    &&& m.language@ == tag_or_empty(s, "language"@)
    &&& m.label@ == track_label(s)
    &&& m.default == (media_info::flag_value(s.disposition@, "default"@) != 0)
    &&& m.forced == (media_info::flag_value(s.disposition@, "forced"@) != 0)
}

/// The streams that are text.
pub open spec fn text_streams(v: Seq<EmbeddedSubtitleStream>) -> Seq<EmbeddedSubtitleStream>
    decreases v.len(),
{
    if v.len() == 0 {
        v
    } else if is_text(v.last().codec@) {
        text_streams(v.drop_last()).push(v.last())
    } else {
        text_streams(v.drop_last())
    }
}

pub open spec fn describe_all(m: Seq<EmbeddedMeta>, s: Seq<EmbeddedSubtitleStream>) -> bool {
    &&& m.len() == s.len()
    &&& forall|i: int| 0 <= i < m.len() ==> describes(#[trigger] m[i], s[i])
}

fn describe(s: &EmbeddedSubtitleStream) -> (r: EmbeddedMeta)
    ensures
        describes(r, *s),
{
    let title = match media_info::find_tag(&s.tags, "title") {
        Some(t) => t,
        None => text::own(""),
    };
    let lang = match media_info::find_tag(&s.tags, "language") {
        Some(t) => t,
        None => text::own(""),
    };
    let t = text::chars_of(title.as_str());
    let l = text::chars_of(lang.as_str());
    let label = if t.len() > 0 {
        title
    } else {
        let mut out = text::own("Track ");
        text::push_u64(&mut out, s.index as u64);
        if l.len() > 0 {
            out.push_str(" (");
            out.push_str(lang.as_str());
            out.push_str(")");
        }
        out
    };
    EmbeddedMeta {
        stream_index: s.index,
        codec: text::own(s.codec.as_str()),
        target_format: text::own(format_for(s.codec.as_str())),
        language: lang,
        label,
        default: media_info::flag_set(&s.disposition, "default"),
        forced: media_info::flag_set(&s.disposition, "forced"),
    }
}

/// The tracks that are taken out of a video: those that are text.
pub fn classify_embedded(streams: &Vec<EmbeddedSubtitleStream>) -> (r: Vec<EmbeddedMeta>)
    ensures
        describe_all(r@, text_streams(streams@)),
{
    let mut out: Vec<EmbeddedMeta> = Vec::new();
    let mut i: usize = 0;
    assert(streams@.take(0) =~= Seq::<EmbeddedSubtitleStream>::empty());
    while i < streams.len()
        invariant
            i <= streams@.len(),
            describe_all(out@, text_streams(streams@.take(i as int))),
        decreases streams@.len() - i,
    {
        assert(streams@.take(i + 1).drop_last() =~= streams@.take(i as int));
        if is_text_codec(streams[i].codec.as_str()) {
            out.push(describe(&streams[i]));
        }
        i += 1;
    }
    assert(streams@.take(i as int) =~= streams@);
    out
}

/// A track that is already in its format is copied.
pub open spec fn is_copied(codec: Seq<char>, target: Seq<char>) -> bool {
    (target == "ass"@ && (codec == "ass"@ || codec == "ssa"@)) || (target == "vtt"@ && codec
        == "webvtt"@)
}

/// The arguments of ffmpeg that take a track out of a video.
pub open spec fn extract_command(
    video: Seq<char>,
    stream_index: int,
    codec: Seq<char>,
    target: Seq<char>,
) -> Seq<Seq<char>> {
    seq![
        "-v"@,
        "error"@,
        "-nostdin"@,
        "-y"@,
        "-analyzeduration"@,
        "1000000"@,
        "-probesize"@,
        "1000000"@,
        "-fflags"@,
        "+nobuffer"@,
        "-i"@,
        video,
        "-map"@,
        "0:"@ + text::decimal(stream_index as nat),
    ] + (if is_copied(codec, target) {
        seq!["-c:s"@, "copy"@]
    } else {
        Seq::empty()
    }) + seq![
        "-f"@,
        if target == "ass"@ {
            "ass"@
        } else {
            "webvtt"@
        },
        "pipe:1"@,
    ]
}

/// What the tool is told that takes subtitles out of a video.
pub fn extract_args(video: &str, stream_index: u32, codec: &str, target_format: &str) -> (r: Vec<
    String,
>)
    ensures
        types::texts(r@) == extract_command(
            video@,
            stream_index as int,
            codec@,
            target_format@,
        ),
{
    let mut args: Vec<String> = Vec::new();
    push_pair(&mut args, "-v", "error");
    push_pair(&mut args, "-nostdin", "-y");
    push_pair(&mut args, "-analyzeduration", "1000000");
    push_pair(&mut args, "-probesize", "1000000");
    push_pair(&mut args, "-fflags", "+nobuffer");
    push_pair(&mut args, "-i", video);
    let mut map = text::own("0:");
    text::push_u64(&mut map, stream_index as u64);
    push_pair(&mut args, "-map", map.as_str());
    let ass = *target_format == *"ass";
    let copied = (ass && (*codec == *"ass" || *codec == *"ssa")) || (*target_format == *"vtt"
        && *codec == *"webvtt");
    if copied {
        push_pair(&mut args, "-c:s", "copy");
    }
    push_pair(
        &mut args,
        "-f",
        if ass {
            "ass"
        } else {
            "webvtt"
        },
    );
    push_text(&mut args, "pipe:1");
    assert(types::texts(args@) =~= extract_command(
        video@,
        stream_index as int,
        codec@,
        target_format@,
    ));
    args
}

/// The id of the `n`th subtitle file of a video.
pub fn file_track_id(n: usize) -> (r: String)
    ensures
        r@ == "file-"@ + text::decimal(n as nat),
{
    let mut out = text::own("file-");
    text::push_u64(&mut out, n as u64);
    out
}

/// The id of a track in a video.
pub fn embedded_track_id(stream_index: u32) -> (r: String)
    ensures
        r@ == "embed-"@ + text::decimal(stream_index as nat),
{
    let mut out = text::own("embed-");
    text::push_u64(&mut out, stream_index as u64);
    out
}

/// Different tracks of a video have different ids.
pub proof fn track_ids_differ(a: nat, b: nat)
    ensures
        "file-"@ + text::decimal(a) != "embed-"@ + text::decimal(b),
        a != b ==> "file-"@ + text::decimal(a) != "file-"@ + text::decimal(b),
        a != b ==> "embed-"@ + text::decimal(a) != "embed-"@ + text::decimal(b),
{
    reveal_strlit("file-");
    reveal_strlit("embed-");
    assert(("file-"@ + text::decimal(a))[0] == 'f');
    assert(("embed-"@ + text::decimal(b))[0] == 'e');
    assert(("file-"@ + text::decimal(a)).skip(5) =~= text::decimal(a));
    assert(("file-"@ + text::decimal(b)).skip(5) =~= text::decimal(b));
    assert(("embed-"@ + text::decimal(a)).skip(6) =~= text::decimal(a));
    assert(("embed-"@ + text::decimal(b)).skip(6) =~= text::decimal(b));
    if text::decimal(a) == text::decimal(b) {
        text::decimal_injective(a, b);
    }
}

/// The label of a subtitle file: its name.
pub fn sidecar_label(path: &str) -> (r: String)
    ensures
        r@ == match paths::file_name_of(path@) {
            Some(n) => n,
            None => "subtitle"@,
        },
{
    match paths::file_name(path) {
        Some(n) => n,
        None => text::own("subtitle"),
    }
}

// ---- SRT to WebVTT ----

/// A line of a subtitle file, rewritten: in the lines that say when, commas become dots.
pub open spec fn vtt_line(line: Seq<char>) -> Seq<char> {
    if text::has_text(line, "-->"@) {
        text::replaced(line, ',', '.')
    } else {
        line
    }
}

/// Lines, each rewritten and ended.
pub open spec fn vtt_lines(lines: Seq<Seq<char>>) -> Seq<char>
    decreases lines.len(),
{
    if lines.len() == 0 {
        Seq::empty()
    } else {
        vtt_lines(lines.drop_last()) + vtt_line(lines.last()) + "\n"@
    }
}

/// A subtitle file in the other format.
pub fn srt_to_vtt(srt: &str) -> (r: String)
    ensures
        r@ == "WEBVTT\n\n"@ + vtt_lines(text::text_lines(srt@)),
{
    let lines = text::lines(srt);
    let ghost all = types::texts(lines@);
    let mut out = text::own("WEBVTT\n\n");
    let mut i: usize = 0;
    assert(all.take(0) =~= Seq::<Seq<char>>::empty());
    assert(out@ =~= "WEBVTT\n\n"@ + vtt_lines(all.take(0)));
    while i < lines.len()
        invariant
            i <= lines@.len(),
            all == types::texts(lines@),
            out@ == "WEBVTT\n\n"@ + vtt_lines(all.take(i as int)),
        decreases lines@.len() - i,
    {
        let line = lines[i].as_str();
        proof {
            assert(all.take(i + 1).drop_last() =~= all.take(i as int));
            assert(all.take(i + 1).last() == line@);
        }
        if text::contains(line, "-->") {
            out.push_str(text::replace_char(line, ',', '.').as_str());
        } else {
            out.push_str(line);
        }
        out.push_str("\n");
        assert(out@ =~= "WEBVTT\n\n"@ + vtt_lines(all.take(i + 1)));
        i += 1;
    }
    assert(all.take(i as int) =~= all);
    out
}

// ---- further laws ----

/// The files that are taken are those that belong to the video, in their order.
pub proof fn own_files_are_those_that_belong(files: Seq<Seq<char>>, stem: Seq<char>)
    ensures
        own_files(files, stem) == files.filter(|f: Seq<char>| belongs_to(f, stem)),
    decreases files.len(),
{
    reveal(Seq::filter);
    if files.len() > 0 {
        own_files_are_those_that_belong(files.drop_last(), stem);
    } else {
        assert(files =~= Seq::empty());
    }
}

/// A subtitle file belongs to a video whose name it has, whole or up to a dot, in either
/// letter case; a longer name without that dot is another video's.
pub proof fn names_tell_whose_file_it_is(path: Seq<char>, stem: Seq<char>, name: Seq<char>)
    requires
        paths::stem_of(path) == Some(name),
        paths::extension_of(path) is Some,
        text::all_ascii(stem),
        text::all_ascii(name),
    ensures
        ({
            let e = text::ascii_lower_text(paths::extension_of(path)->0);
            let known = e == "srt"@ || e == "vtt"@ || e == "ass"@ || e == "ssa"@;
            let own = text::ascii_lower_text(stem);
            let n = text::ascii_lower_text(name);
            &&& belongs_to(path, stem) ==> known && own.is_prefix_of(n)
            &&& known && n == own ==> belongs_to(path, stem)
            &&& known && own.is_prefix_of(n) && n.len() > own.len() ==> (belongs_to(path, stem)
                <==> n[own.len() as int] == '.')
        }),
{
    reveal_strlit(".");
    let own = text::ascii_lower_text(stem);
    let n = text::ascii_lower_text(name);
    let dotted = own + "."@;
    assert(dotted.len() == own.len() + 1);
    if dotted.is_prefix_of(n) {
        assert(n.subrange(0, dotted.len() as int)[own.len() as int] == '.');
        assert(own =~= n.subrange(0, own.len() as int)) by {
            assert forall|i: int| 0 <= i < own.len() implies own[i] == n.subrange(
                0,
                own.len() as int,
            )[i] by {
                assert(dotted[i] == n.subrange(0, dotted.len() as int)[i]);
            }
        }
    }
    if own.is_prefix_of(n) && n.len() > own.len() && n[own.len() as int] == '.' {
        assert(dotted =~= n.subrange(0, dotted.len() as int)) by {
            assert forall|i: int| 0 <= i < dotted.len() implies dotted[i] == n.subrange(
                0,
                dotted.len() as int,
            )[i] by {
                if i < own.len() {
                    assert(own[i] == n.subrange(0, own.len() as int)[i]);
                }
            }
        }
    }
    if n == own {
        assert(own =~= n.subrange(0, own.len() as int));
    }
}

proof fn behind_dot_is(a: Seq<char>, b: Seq<char>)
    requires
        !b.contains('.'),
    ensures
        behind_last_dot(a + seq!['.'] + b) == b,
    decreases b.len(),
{
    let s = a + seq!['.'] + b;
    if b.len() == 0 {
        assert(s.last() == '.');
        assert(behind_last_dot(s) =~= b);
    } else {
        let c = b.drop_last();
        assert(b.contains(b[b.len() - 1]));
        assert(!c.contains('.')) by {
            if c.contains('.') {
                let i = choose|i: int| 0 <= i < c.len() && c[i] == '.';
                assert(b[i] == '.');
            }
        }
        behind_dot_is(a, c);
        assert(s.last() == b.last());
        assert(s.drop_last() =~= a + seq!['.'] + c);
        assert(behind_last_dot(s) =~= b);
    }
}

/// A file's language is the two or three letters behind the last dot of its stem, in lower
/// case; anything else there is no language.
pub proof fn language_stands_behind_the_last_dot(
    path: Seq<char>,
    front: Seq<char>,
    code: Seq<char>,
)
    requires
        paths::stem_of(path) == Some(front + seq!['.'] + code),
        !code.contains('.'),
    ensures
        language_of(path) is Some <==> (code.len() == 2 || code.len() == 3) && forall|i: int|
            0 <= i < code.len() ==> text::is_ascii_letter(#[trigger] code[i]),
        language_of(path) matches Some(l) ==> l == text::ascii_lower_text(code),
{
    behind_dot_is(front, code);
}

/// The tracks that are taken out of a video are those that are text, in their order.
pub proof fn text_tracks_are_taken(v: Seq<EmbeddedSubtitleStream>)
    ensures
        text_streams(v) == v.filter(|s: EmbeddedSubtitleStream| is_text(s.codec@)),
    decreases v.len(),
{
    reveal(Seq::filter);
    if v.len() > 0 {
        text_tracks_are_taken(v.drop_last());
    } else {
        assert(v =~= Seq::empty());
    }
}

/// Only tracks with a style of their own keep it; every other kind of text becomes WebVTT.
/// What is in its format already is copied, and nothing else is.
pub proof fn styled_text_stays_styled(codec: Seq<char>)
    ensures
        kept_format(codec) == "ass"@ <==> codec == "ass"@ || codec == "ssa"@,
        kept_format(codec) == "ass"@ || kept_format(codec) == "vtt"@,
        is_copied(codec, kept_format(codec)) <==> codec == "ass"@ || codec == "ssa"@ || codec
            == "webvtt"@,
        is_copied(codec, kept_format(codec)) ==> is_text(codec),
{
    reveal_strlit("ass");
    reveal_strlit("ssa");
    reveal_strlit("vtt");
    reveal_strlit("webvtt");
    assert("ass"@[0] == 'a' && "vtt"@[0] == 'v' && "ssa"@[0] == 's' && "webvtt"@[0] == 'w');
}

/// A line is rewritten character by character: where it says when, its commas become full
/// stops; all else stays.
pub proof fn only_commas_of_cue_times_change(line: Seq<char>, i: int)
    requires
        0 <= i < line.len(),
    ensures
        vtt_line(line).len() == line.len(),
        vtt_line(line)[i] == if line[i] == ',' && text::has_text(line, "-->"@) {
            '.'
        } else {
            line[i]
        },
{
}

/// The rewritten lines follow one another as the lines do, each ended by a line feed.
pub proof fn lines_are_rewritten_one_by_one(a: Seq<Seq<char>>, b: Seq<Seq<char>>, line: Seq<char>)
    ensures
        vtt_lines(a + b) == vtt_lines(a) + vtt_lines(b),
        vtt_lines(seq![line]) == vtt_line(line) + "\n"@,
    decreases b.len(),
{
    let one = seq![line];
    assert(one.drop_last() =~= Seq::empty());
    assert(vtt_lines(one.drop_last()) =~= Seq::empty());
    assert(vtt_lines(one) =~= vtt_line(line) + "\n"@);
    if b.len() == 0 {
        assert(a + b =~= a);
        assert(vtt_lines(a + b) =~= vtt_lines(a) + vtt_lines(b));
    } else {
        lines_are_rewritten_one_by_one(a, b.drop_last(), line);
        assert((a + b).drop_last() =~= a + b.drop_last());
        assert(vtt_lines(a + b) =~= vtt_lines(a) + vtt_lines(b));
    }
}

/// A track in a file is told with its own number, codec, language and marks; its own title is
/// its label, and where it has none its number is.
pub proof fn tracks_are_told_as_found(m: EmbeddedMeta, s: EmbeddedSubtitleStream)
    requires
        describes(m, s),
    ensures
        m.stream_index == s.index && m.codec@ == s.codec@,
        media_info::tag_value(s.tags@, "language"@) matches Some(l) ==> m.language@ == l,
        media_info::tag_value(s.tags@, "title"@) matches Some(t) ==> t.len() > 0 ==> m.label@ == t,
        media_info::tag_value(s.tags@, "title"@) is None && media_info::tag_value(
            s.tags@,
            "language"@,
        ) is None ==> m.label@ == "Track "@ + text::decimal(s.index as nat),
        m.default <==> media_info::flag_value(s.disposition@, "default"@) != 0,
        m.forced <==> media_info::flag_value(s.disposition@, "forced"@) != 0,
        s.codec@ == "ass"@ || s.codec@ == "ssa"@ ==> m.target_format@ == "ass"@,
        s.codec@ != "ass"@ && s.codec@ != "ssa"@ ==> m.target_format@ == "vtt"@,
{
    reveal_strlit("");
}

/// Subtitles are read from the stream that is asked for, written as ASS where that is wanted
/// and as WebVTT otherwise.
pub proof fn subtitles_are_written_as_wanted(
    video: Seq<char>,
    stream_index: int,
    codec: Seq<char>,
    target: Seq<char>,
)
    ensures
        ({
            let c = extract_command(video, stream_index, codec, target);
            let n = c.len() as int;
            &&& c[10] == "-i"@ && c[11] == video
            &&& c[12] == "-map"@ && c[13] == "0:"@ + text::decimal(stream_index as nat)
            &&& c[n - 3] == "-f"@ && c[n - 1] == "pipe:1"@
            &&& target == "ass"@ ==> c[n - 2] == "ass"@
            &&& target != "ass"@ ==> c[n - 2] == "webvtt"@
            &&& is_copied(codec, target) ==> c[n - 5] == "-c:s"@ && c[n - 4] == "copy"@
        }),
{
}

/// Every track that is offered is one of those found, one for one.
pub proof fn tracks_are_told_one_by_one(m: Seq<EmbeddedMeta>, s: Seq<EmbeddedSubtitleStream>, i: int)
    requires
        describe_all(m, s),
        0 <= i < s.len(),
    ensures
        m.len() == s.len(),
        m[i].stream_index == s[i].index,
        m[i].codec@ == s[i].codec@,
{
}

/// A file without a name or without an ending belongs to no video.
pub proof fn nameless_files_belong_to_none(path: Seq<char>, stem: Seq<char>)
    ensures
        paths::extension_of(path) is None ==> !belongs_to(path, stem),
        paths::stem_of(path) is None ==> !belongs_to(path, stem),
{
}

} // verus!
