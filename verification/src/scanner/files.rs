//! Which files of a library belong together.
//!
//! The functions here are told which files exist: `files` lists their paths.

use crate::filename;
use crate::nfo::NfoKind;
use crate::nfo;
use crate::paths;
use crate::text;
use crate::types;
use vstd::prelude::*;

verus! {

/// The extensions of video files.
pub open spec fn video_extensions() -> Seq<Seq<char>> {
    seq![
        "mkv"@,
        "mp4"@,
        "m4v"@,
        "avi"@,
        "mov"@,
        "webm"@,
        "ts"@,
        "m2ts"@,
        "wmv"@,
        "flv"@,
    ]
}

/// The extensions of images, in the order in which they are tried.
pub open spec fn image_extensions() -> Seq<Seq<char>> {
    seq!["jpg"@, "jpeg"@, "png"@, "webp"@]
}

/// `ext` is one of `all`, letter case aside.
pub open spec fn is_extension_of(ext: Seq<char>, all: Seq<Seq<char>>) -> bool {
    exists|i: int|
        0 <= i < all.len() && text::ascii_lower_text(#[trigger] all[i]) == text::ascii_lower_text(
            ext,
        )
}

/// `path` names a video.
pub open spec fn is_video_path(path: Seq<char>) -> bool {
    match paths::extension_of(path) {
        Some(e) => is_extension_of(e, video_extensions()),
        None => false,
    }
}

/// Whether a path names a video, by its extension.
pub fn is_video(path: &str) -> (r: bool)
    ensures
        r == is_video_path(path@),
{
    match paths::extension(path) {
        None => false,
        Some(e) => {
            let all: [&str; 10] = [
                "mkv",
                "mp4",
                "m4v",
                "avi",
                "mov",
                "webm",
                "ts",
                "m2ts",
                "wmv",
                "flv",
            ];
            let ghost names = video_extensions();
            assert forall|i: int| 0 <= i < 10 implies #[trigger] all@[i]@ == names[i] by {}
            let mut i: usize = 0;
            while i < 10
                invariant
                    i <= 10,
                    all@.len() == 10,
                    paths::extension_of(path@) == Some(e@),
                    names == video_extensions(),
                    names.len() == 10,
                    forall|k: int| 0 <= k < 10 ==> #[trigger] all@[k]@ == names[k],
                    forall|k: int|
                        0 <= k < i ==> text::ascii_lower_text(#[trigger] names[k])
                            != text::ascii_lower_text(e@),
                decreases 10 - i,
            {
                if text::eq_ignore_ascii_case(all[i], e.as_str()) {
                    assert(text::ascii_lower_text(names[i as int]) == text::ascii_lower_text(e@));
                    return true;
                }
                i += 1;
            }
            false
        },
    }
}

// ---- images ----

/// The files that the image with the given stem may be.
pub open spec fn image_names(dir: Seq<char>, stem: Seq<char>) -> Seq<Seq<char>> {
    image_extensions().map_values(|e: Seq<char>| paths::joined(dir, stem + "."@ + e))
}

/// The files that an image with one of the stems may be, in the order in which they are
/// tried.
pub open spec fn image_candidates(dir: Seq<char>, stems: Seq<Seq<char>>) -> Seq<Seq<char>>
    decreases stems.len(),
{
    if stems.len() == 0 {
        Seq::empty()
    } else {
        image_candidates(dir, stems.drop_last()) + image_names(dir, stems.last())
    }
}

/// The first of `candidates` that is among `files`.
pub open spec fn first_present(candidates: Seq<Seq<char>>, files: Seq<Seq<char>>) -> Option<
    Seq<char>,
>
    decreases candidates.len(),
{
    if candidates.len() == 0 {
        None
    } else if files.contains(candidates[0]) {
        Some(candidates[0])
    } else {
        first_present(candidates.skip(1), files)
    }
}

fn push_names(out: &mut Vec<String>, dir: &str, stem: &str)
    ensures
        types::texts(final(out)@) == types::texts(old(out)@) + image_names(dir@, stem@),
{
    let exts: [&str; 4] = ["jpg", "jpeg", "png", "webp"];
    let ghost names = image_names(dir@, stem@);
    assert forall|k: int| 0 <= k < 4 implies #[trigger] exts@[k]@ == image_extensions()[k] by {}
    let mut i: usize = 0;
    assert(types::texts(out@) =~= types::texts(old(out)@) + names.take(0));
    while i < 4
        invariant
            i <= 4,
            exts@.len() == 4,
            names == image_names(dir@, stem@),
            names.len() == 4,
            forall|k: int| 0 <= k < 4 ==> #[trigger] exts@[k]@ == image_extensions()[k],
            types::texts(out@) == types::texts(old(out)@) + names.take(i as int),
        decreases 4 - i,
    {
        let mut name = text::own(stem);
        name.push_str(".");
        name.push_str(exts[i]);
        let path = paths::join(dir, name.as_str());
        types::push_text(out, path.as_str());
        proof {
            assert(path@ == names[i as int]);
            assert(names.take(i + 1) =~= names.take(i as int).push(names[i as int]));
            assert(types::texts(out@) =~= types::texts(old(out)@) + names.take(i + 1));
        }
        i += 1;
    }
    assert(names.take(4) =~= names);
}

/// The first image with one of the stems that exists.
pub fn first_existing(dir: &str, stems: &Vec<String>, files: &Vec<String>) -> (r: Option<String>)
    ensures
        types::opt_text(r) == first_present(
            image_candidates(dir@, types::texts(stems@)),
            types::texts(files@),
        ),
{
    let mut all: Vec<String> = Vec::new();
    let ghost want = types::texts(stems@);
    let mut i: usize = 0;
    assert(types::texts(all@) =~= image_candidates(dir@, want.take(0)));
    while i < stems.len()
        invariant
            i <= stems@.len(),
            want == types::texts(stems@),
            types::texts(all@) == image_candidates(dir@, want.take(i as int)),
        decreases stems@.len() - i,
    {
        push_names(&mut all, dir, stems[i].as_str());
        assert(want.take(i + 1).drop_last() =~= want.take(i as int));
        i += 1;
    }
    assert(want.take(i as int) =~= want);
    pick(&all, files)
}

fn pick(candidates: &Vec<String>, files: &Vec<String>) -> (r: Option<String>)
    ensures
        types::opt_text(r) == first_present(types::texts(candidates@), types::texts(files@)),
{
    let ghost all = types::texts(candidates@);
    let ghost there = types::texts(files@);
    let mut i: usize = 0;
    assert(all.skip(0) =~= all);
    while i < candidates.len()
        invariant
            i <= candidates@.len(),
            all == types::texts(candidates@),
            there == types::texts(files@),
            first_present(all, there) == first_present(all.skip(i as int), there),
        decreases candidates@.len() - i,
    {
        if types::holds_text(files, candidates[i].as_str()) {
            return Some(text::own(candidates[i].as_str()));
        }
        assert(all.skip(i as int).skip(1) =~= all.skip(i + 1));
        i += 1;
    }
    None
}

/// What is found is one of the candidates and exists, and no candidate before it does.
pub proof fn first_present_is_first(candidates: Seq<Seq<char>>, files: Seq<Seq<char>>)
    ensures
        match first_present(candidates, files) {
            Some(p) => files.contains(p) && exists|i: int|
                0 <= i < candidates.len() && #[trigger] candidates[i] == p && forall|j: int|
                    0 <= j < i ==> !files.contains(#[trigger] candidates[j]),
            None => forall|j: int|
                0 <= j < candidates.len() ==> !files.contains(#[trigger] candidates[j]),
        },
    decreases candidates.len(),
{
    if candidates.len() > 0 {
        if files.contains(candidates[0]) {
            assert(candidates[0] == first_present(candidates, files)->0);
        } else {
            let rest = candidates.skip(1);
            first_present_is_first(rest, files);
            match first_present(rest, files) {
                Some(p) => {
                    let i = choose|i: int|
                        0 <= i < rest.len() && #[trigger] rest[i] == p && forall|j: int|
                            0 <= j < i ==> !files.contains(#[trigger] rest[j]);
                    assert(candidates[i + 1] == p);
                    assert forall|j: int| 0 <= j < i + 1 implies !files.contains(
                        #[trigger] candidates[j],
                    ) by {
                        if j > 0 {
                            assert(candidates[j] == rest[j - 1]);
                        }
                    }
                },
                None => {
                    assert forall|j: int| 0 <= j < candidates.len() implies !files.contains(
                        #[trigger] candidates[j],
                    ) by {
                        if j > 0 {
                            assert(candidates[j] == rest[j - 1]);
                        }
                    }
                },
            }
        }
    }
}

/// The poster of a show.
pub fn find_show_poster(show_dir: &str, files: &Vec<String>) -> (r: Option<String>)
    ensures
        types::opt_text(r) == first_present(
            image_candidates(show_dir@, seq!["poster"@, "folder"@, "cover"@]),
            types::texts(files@),
        ),
{
    let mut stems: Vec<String> = Vec::new();
    types::push_pair(&mut stems, "poster", "folder");
    types::push_text(&mut stems, "cover");
    assert(types::texts(stems@) =~= seq!["poster"@, "folder"@, "cover"@]);
    first_existing(show_dir, &stems, files)
}

/// The background of a show.
pub fn find_show_fanart(show_dir: &str, files: &Vec<String>) -> (r: Option<String>)
    ensures
        types::opt_text(r) == first_present(
            image_candidates(show_dir@, seq!["fanart"@, "backdrop"@]),
            types::texts(files@),
        ),
{
    let mut stems: Vec<String> = Vec::new();
    types::push_pair(&mut stems, "fanart", "backdrop");
    assert(types::texts(stems@) =~= seq!["fanart"@, "backdrop"@]);
    first_existing(show_dir, &stems, files)
}

/// The logo of a show.
pub fn find_show_clearlogo(show_dir: &str, files: &Vec<String>) -> (r: Option<String>)
    ensures
        types::opt_text(r) == first_present(
            image_candidates(show_dir@, seq!["clearlogo"@, "logo"@]),
            types::texts(files@),
        ),
{
    let mut stems: Vec<String> = Vec::new();
    types::push_pair(&mut stems, "clearlogo", "logo");
    assert(types::texts(stems@) =~= seq!["clearlogo"@, "logo"@]);
    first_existing(show_dir, &stems, files)
}

/// The banner of a show.
pub fn find_show_banner(show_dir: &str, files: &Vec<String>) -> (r: Option<String>)
    ensures
        types::opt_text(r) == first_present(
            image_candidates(show_dir@, seq!["banner"@]),
            types::texts(files@),
        ),
{
    let mut stems: Vec<String> = Vec::new();
    types::push_text(&mut stems, "banner");
    assert(types::texts(stems@) =~= seq!["banner"@]);
    first_existing(show_dir, &stems, files)
}

/// The stems that a movie's image may have.
pub open spec fn movie_image_stems(base: Seq<char>) -> Seq<Seq<char>> {
    seq![base + "-poster"@, base, "poster"@, "folder"@, "cover"@]
}

pub open spec fn movie_fanart_stems(base: Seq<char>) -> Seq<Seq<char>> {
    seq![base + "-fanart"@, "fanart"@, "backdrop"@]
}

pub open spec fn episode_thumb_stems(base: Seq<char>) -> Seq<Seq<char>> {
    seq![base + "-thumb"@]
}

/// The image beside a video, given the stems that it may have.
pub open spec fn image_beside(
    video: Seq<char>,
    stems: spec_fn(Seq<char>) -> Seq<Seq<char>>,
    files: Seq<Seq<char>>,
) -> Option<Seq<char>> {
    match (paths::parent_of(video), paths::stem_of(video)) {
        (Some(dir), Some(base)) => first_present(image_candidates(dir, stems(base)), files),
        _ => None,
    }
}

fn suffixed(base: &str, suffix: &str) -> (r: String)
    ensures
        r@ == base@ + suffix@,
{
    let mut out = text::own(base);
    out.push_str(suffix);
    out
}

/// The poster of a movie.
pub fn find_movie_image(video: &str, files: &Vec<String>) -> (r: Option<String>)
    ensures
        types::opt_text(r) == image_beside(
            video@,
            |b: Seq<char>| movie_image_stems(b),
            types::texts(files@),
        ),
{
    match (paths::parent(video), paths::file_stem(video)) {
        (Some(dir), Some(base)) => {
            let mut stems: Vec<String> = Vec::new();
            let own = suffixed(base.as_str(), "-poster");
            types::push_pair(&mut stems, own.as_str(), base.as_str());
            types::push_pair(&mut stems, "poster", "folder");
            types::push_text(&mut stems, "cover");
            assert(types::texts(stems@) =~= movie_image_stems(base@));
            first_existing(dir.as_str(), &stems, files)
        },
        _ => None,
    }
}

/// The background of a movie.
pub fn find_movie_fanart(video: &str, files: &Vec<String>) -> (r: Option<String>)
    ensures
        types::opt_text(r) == image_beside(
            video@,
            |b: Seq<char>| movie_fanart_stems(b),
            types::texts(files@),
        ),
{
    match (paths::parent(video), paths::file_stem(video)) {
        (Some(dir), Some(base)) => {
            let mut stems: Vec<String> = Vec::new();
            let own = suffixed(base.as_str(), "-fanart");
            types::push_pair(&mut stems, own.as_str(), "fanart");
            types::push_text(&mut stems, "backdrop");
            assert(types::texts(stems@) =~= movie_fanart_stems(base@));
            first_existing(dir.as_str(), &stems, files)
        },
        _ => None,
    }
}

/// The picture of an episode.
pub fn find_episode_thumb(video: &str, files: &Vec<String>) -> (r: Option<String>)
    ensures
        types::opt_text(r) == image_beside(
            video@,
            |b: Seq<char>| episode_thumb_stems(b),
            types::texts(files@),
        ),
{
    match (paths::parent(video), paths::file_stem(video)) {
        (Some(dir), Some(base)) => {
            let mut stems: Vec<String> = Vec::new();
            let own = suffixed(base.as_str(), "-thumb");
            types::push_text(&mut stems, own.as_str());
            assert(types::texts(stems@) =~= episode_thumb_stems(base@));
            first_existing(dir.as_str(), &stems, files)
        },
        _ => None,
    }
}

// ---- metadata ----

/// The metadata of a movie: beside it under its own name, else `movie.nfo`.
pub open spec fn movie_nfo(video: Seq<char>, files: Seq<Seq<char>>) -> Option<Seq<char>> {
    let own = paths::with_extension_of(video, "nfo"@);
    if files.contains(own) {
        Some(own)
    } else {
        match paths::parent_of(video) {
            Some(dir) => if files.contains(paths::joined(dir, "movie.nfo"@)) {
                Some(paths::joined(dir, "movie.nfo"@))
            } else {
                None
            },
            None => None,
        }
    }
}

/// The file that describes a video.
pub fn matching_nfo(video: &str, files: &Vec<String>) -> (r: Option<String>)
    ensures
        types::opt_text(r) == movie_nfo(video@, types::texts(files@)),
{
    let own = paths::with_extension(video, "nfo");
    if types::holds_text(files, own.as_str()) {
        return Some(own);
    }
    match paths::parent(video) {
        None => None,
        Some(dir) => {
            let movie = paths::join(dir.as_str(), "movie.nfo");
            if types::holds_text(files, movie.as_str()) {
                Some(movie)
            } else {
                None
            }
        },
    }
}

/// The nearest directory from `dir` up that holds a show's metadata, no higher than the
/// library's root.
pub open spec fn show_dir_from(dir: Seq<char>, root: Seq<char>, files: Seq<Seq<char>>) -> Option<
    Seq<char>,
>
    decreases dir.len(),
{
    if files.contains(paths::joined(dir, "tvshow.nfo"@)) {
        Some(dir)
    } else if paths::same_path(dir, root) {
        None
    } else {
        match paths::parent_of(dir) {
            Some(up) => if up.len() < dir.len() {
                show_dir_from(up, root, files)
            } else {
                None
            },
            None => None,
        }
    }
}

/// The directory of the show that a video belongs to.
pub open spec fn show_dir_of(video: Seq<char>, root: Seq<char>, files: Seq<Seq<char>>) -> Option<
    Seq<char>,
> {
    match paths::parent_of(video) {
        Some(dir) => show_dir_from(dir, root, files),
        None => None,
    }
}

/// The directory of the show that a video is of.
pub fn find_show_folder(video: &str, library_root: &str, files: &Vec<String>) -> (r: Option<String>)
    ensures
        types::opt_text(r) == show_dir_of(video@, library_root@, types::texts(files@)),
{
    let ghost there = types::texts(files@);
    let ghost want = show_dir_of(video@, library_root@, there);
    let mut dir = match paths::parent(video) {
        Some(d) => d,
        None => {
            return None;
        },
    };
    loop
        invariant
            there == types::texts(files@),
            want == show_dir_of(video@, library_root@, there),
            want == show_dir_from(dir@, library_root@, there),
        decreases dir@.len(),
    {
        let marker = paths::join(dir.as_str(), "tvshow.nfo");
        if types::holds_text(files, marker.as_str()) {
            return Some(dir);
        }
        if paths::is_same(dir.as_str(), library_root) {
            return None;
        }
        proof {
            paths::parent_is_shorter(dir@);
        }
        match paths::parent(dir.as_str()) {
            Some(up) => {
                dir = up;
            },
            None => {
                return None;
            },
        }
    }
}

// ---- movie or episode ----

/// What a video is: an episode of the show in a directory, or a movie.
#[derive(Debug)]
pub enum Classification {
    Episode(String),
    Movie,
}

/// The directory of the show, for an episode.
pub open spec fn episode_dir(c: Classification) -> Option<Seq<char>> {
    match c {
        Classification::Episode(d) => Some(d@),
        Classification::Movie => None,
    }
}

/// The directory of the show that a video is an episode of, or none where it is a movie.
/// Its own metadata decides; without it, a show's metadata above it; without that, the
/// tag in its name, unless it stands in the library's root itself.
pub open spec fn classified(
    video: Seq<char>,
    root: Seq<char>,
    files: Seq<Seq<char>>,
    kind: Option<NfoKind>,
    tagged: bool,
) -> Option<Seq<char>> {
    let show = show_dir_of(video, root, files);
    match kind {
        Some(NfoKind::Movie) => None,
        Some(NfoKind::Episode) => match show {
            Some(d) => Some(d),
            None => match paths::parent_of(video) {
                Some(d) => Some(d),
                None => Some(root),
            },
        },
        _ => match show {
            Some(d) => Some(d),
            None => match (tagged, paths::parent_of(video)) {
                (true, Some(d)) => if paths::same_path(d, root) {
                    None
                } else {
                    Some(d)
                },
                _ => None,
            },
        },
    }
}

/// The stem of a path holds an episode tag.
pub open spec fn has_tag(video: Seq<char>) -> bool {
    match paths::stem_of(video) {
        Some(s) => !filename::has_no_episode_tag(s),
        None => false,
    }
}

/// The kind of metadata that a document holds.
pub open spec fn document_kind(document: Option<Seq<char>>) -> Option<NfoKind> {
    match document {
        Some(d) => match nfo::root_name(d) {
            Some(n) => nfo::kind_named(n),
            None => None,
        },
        None => None,
    }
}

/// Decides what a video is. `sibling` is what the metadata file of its name holds, where
/// there is one.
pub fn classify(
    video: &str,
    library_root: &str,
    files: &Vec<String>,
    sibling: Option<&str>,
) -> (r: Classification)
    ensures
        episode_dir(r) == classified(
            video@,
            library_root@,
            types::texts(files@),
            document_kind(types::opt_str(sibling)),
            has_tag(video@),
        ),
{
    let kind = match sibling {
        Some(d) => nfo::detect_nfo_kind(d),
        None => None,
    };
    if let Some(NfoKind::Movie) = kind {
        return Classification::Movie;
    }
    let show = find_show_folder(video, library_root, files);
    if let Some(NfoKind::Episode) = kind {
        return match show {
            Some(d) => Classification::Episode(d),
            None => match paths::parent(video) {
                Some(d) => Classification::Episode(d),
                None => Classification::Episode(text::own(library_root)),
            },
        };
    }
    if let Some(d) = show {
        return Classification::Episode(d);
    }
    if let Some(stem) = paths::file_stem(video) {
        let tag = filename::parse_episode(stem.as_str());
        if tag.is_some() {
            proof {
                let t = choose|t: filename::Tag|
                    #[trigger] filename::is_episode_tag(stem@, t) && (tag->0).0 == t.season
                        && (tag->0).1 == t.episode;
                filename::episode_tag_unique(stem@, t, t);
            }
            if let Some(d) = paths::parent(video) {
                if !paths::is_same(d.as_str(), library_root) {
                    return Classification::Episode(d);
                }
            }
        }
    }
    Classification::Movie
}

// ---- further laws ----

/// Whether a file is a video goes by its extension alone, whatever its letter case.
pub proof fn letter_case_of_extensions_is_nothing(a: Seq<char>, b: Seq<char>)
    requires
        paths::extension_of(a) matches Some(x) && paths::extension_of(b) matches Some(y)
            && text::ascii_lower_text(x) == text::ascii_lower_text(y),
    ensures
        is_video_path(a) == is_video_path(b),
{
}

/// The ten kinds of video are known by their extensions, and a file without one is none.
pub proof fn videos_have_known_extensions(path: Seq<char>)
    ensures
        paths::extension_of(path) matches Some(e) ==> (e == "mkv"@ || e == "mp4"@ || e == "m4v"@ || e
            == "avi"@ || e == "mov"@ || e == "webm"@ || e == "ts"@ || e == "m2ts"@ || e == "wmv"@ || e
            == "flv"@ ==> is_video_path(path)),
        is_video_path(path) ==> paths::extension_of(path) is Some,
{
    let v = video_extensions();
    if let Some(e) = paths::extension_of(path) {
        assert(v[0] == "mkv"@ && v[1] == "mp4"@ && v[2] == "m4v"@ && v[3] == "avi"@ && v[4]
            == "mov"@ && v[5] == "webm"@ && v[6] == "ts"@ && v[7] == "m2ts"@ && v[8] == "wmv"@
            && v[9] == "flv"@);
    }
}

/// What a video's own metadata says comes before all else: a movie's makes it a movie,
/// whatever stands above it, and an episode's makes it an episode, whatever its name.
pub proof fn own_metadata_decides(
    video: Seq<char>,
    root: Seq<char>,
    files: Seq<Seq<char>>,
    tagged: bool,
)
    ensures
        classified(video, root, files, Some(NfoKind::Movie), tagged) is None,
        classified(video, root, files, Some(NfoKind::Episode), tagged) is Some,
        classified(video, root, files, Some(NfoKind::TvShow), tagged) == classified(
            video,
            root,
            files,
            None,
            tagged,
        ),
        show_dir_of(video, root, files) matches Some(d) ==> classified(
            video,
            root,
            files,
            Some(NfoKind::Episode),
            tagged,
        ) == Some(d),
{
}

/// Without metadata of its own, a video below a show's directory is an episode of that show.
/// Without such a directory, a tag in its name makes it an episode of the directory that it
/// stands in, but not in the library's root; anything else is a movie.
pub proof fn place_and_name_decide(
    video: Seq<char>,
    dir: Seq<char>,
    root: Seq<char>,
    files: Seq<Seq<char>>,
    tagged: bool,
)
    requires
        paths::parent_of(video) == Some(dir),
    ensures
        show_dir_of(video, root, files) matches Some(d) ==> classified(
            video,
            root,
            files,
            None,
            tagged,
        ) == Some(d),
        show_dir_of(video, root, files) is None ==> {
            let c = classified(video, root, files, None, tagged);
            &&& c is Some <==> tagged && !paths::same_path(dir, root)
            &&& c matches Some(d) ==> d == dir
        },
{
}

/// The directory of a show holds the show's metadata. The nearest one counts: where a video's
/// own directory does, that is it, and above the library's root none is looked for.
pub proof fn show_dir_holds_the_metadata(dir: Seq<char>, root: Seq<char>, files: Seq<Seq<char>>)
    ensures
        show_dir_from(dir, root, files) matches Some(d) ==> files.contains(
            paths::joined(d, "tvshow.nfo"@),
        ) && d.len() <= dir.len(),
        files.contains(paths::joined(dir, "tvshow.nfo"@)) ==> show_dir_from(dir, root, files)
            == Some(dir),
        paths::same_path(dir, root) && !files.contains(paths::joined(dir, "tvshow.nfo"@))
            ==> show_dir_from(dir, root, files) is None,
        paths::parent_of(dir) matches Some(up) ==> !paths::same_path(dir, root) && !files.contains(
            paths::joined(dir, "tvshow.nfo"@),
        ) && files.contains(paths::joined(up, "tvshow.nfo"@)) ==> show_dir_from(dir, root, files)
            == Some(up),
    decreases dir.len(),
{
    paths::parent_is_shorter(dir);
    if let Some(up) = paths::parent_of(dir) {
        show_dir_holds_the_metadata(up, root, files);
    }
}

/// A movie's metadata under its own name comes before that of its directory.
pub proof fn own_name_comes_first(video: Seq<char>, files: Seq<Seq<char>>)
    ensures
        files.contains(paths::with_extension_of(video, "nfo"@)) ==> movie_nfo(video, files) == Some(
            paths::with_extension_of(video, "nfo"@),
        ),
        movie_nfo(video, files) matches Some(p) ==> files.contains(p),
{
}

/// The names under which a picture is looked for are those of its stems one after the other.
pub proof fn pictures_are_looked_for_stem_by_stem(dir: Seq<char>, a: Seq<Seq<char>>, b: Seq<Seq<char>>, stem: Seq<char>)
    ensures
        image_candidates(dir, a + b) == image_candidates(dir, a) + image_candidates(dir, b),
        image_candidates(dir, seq![stem]) == image_names(dir, stem),
        image_candidates(dir, Seq::empty()).len() == 0,
    decreases b.len(),
{
    let one = seq![stem];
    assert(one.drop_last() =~= Seq::empty());
    assert(image_candidates(dir, one.drop_last()) =~= Seq::empty());
    assert(image_candidates(dir, one) =~= image_names(dir, stem));
    if b.len() == 0 {
        assert(a + b =~= a);
        assert(image_candidates(dir, a + b) =~= image_candidates(dir, a) + image_candidates(dir, b));
    } else {
        pictures_are_looked_for_stem_by_stem(dir, a, b.drop_last(), stem);
        assert((a + b).drop_last() =~= a + b.drop_last());
        assert(image_candidates(dir, a + b) =~= image_candidates(dir, a) + image_candidates(dir, b));
    }
}

} // verus!
