//! Names in the on-disk cache of segments.
//!
//! Below the cache root lies one directory per media id, and in it one per plan
//! key: algorithm version, modification time and size of the source, and audio
//! track. A change of any of them leads to another directory.

use crate::paths;
use crate::text;
use vstd::prelude::*;

verus! {

pub open spec fn is_id_char(c: char) -> bool {
    text::is_ascii_alnum(c) || c == '-' || c == '_'
}

/// An id that may become part of a path: 1 to 127 letters, digits, `-` and `_`.
pub open spec fn is_safe_id(id: Seq<char>) -> bool {
    &&& 0 < id.len() < 128
    &&& forall|i: int| 0 <= i < id.len() ==> is_id_char(#[trigger] id[i])
}

/// Whether an id can be part of a path.
pub fn id_is_safe(id: &str) -> (r: bool)
    ensures
        r == is_safe_id(id@),
{
    let v = text::chars_of(id);
    if v.len() == 0 || v.len() >= 128 {
        return false;
    }
    let mut i: usize = 0;
    while i < v.len()
        invariant
            v@ == id@,
            i <= v@.len(),
            forall|j: int| 0 <= j < i ==> is_id_char(#[trigger] id@[j]),
        decreases v@.len() - i,
    {
        let c = v[i];
        if !(text::ascii_alnum(c) || c == '-' || c == '_') {
            assert(!is_id_char(id@[i as int]));
            return false;
        }
        i += 1;
    }
    true
}

/// The directory of a media id below the cache root.
pub fn media_dir(root: &str, id: &str) -> (r: String)
    ensures
        r@ == paths::joined(root@, id@),
{
    paths::join(root, id)
}

/// What the names of all directories for one state of the source begin with.
pub open spec fn plan_prefix(version: int, mtime: int, size: int) -> Seq<char> {
    "v"@ + text::decimal(version as nat) + "-m"@ + text::decimal_int(mtime) + "-s"@
        + text::decimal_int(size) + "-"@
}

/// The name of the directory for a plan key.
pub open spec fn plan_name(version: int, mtime: int, size: int, audio: int) -> Seq<char> {
    plan_prefix(version, mtime, size) + "a"@ + text::decimal(audio as nat)
}

/// What the names of the directories for one state of the source begin with,
/// whatever the audio track.
pub fn plan_dir_prefix(plan_version: u32, source_mtime: i64, source_size: i64) -> (r: String)
    ensures
        r@ == plan_prefix(plan_version as int, source_mtime as int, source_size as int),
{
    let mut out = text::own("v");
    text::push_u64(&mut out, plan_version as u64);
    out.push_str("-m");
    text::push_i64(&mut out, source_mtime);
    out.push_str("-s");
    text::push_i64(&mut out, source_size);
    out.push_str("-");
    out
}

/// The name of the directory that holds the segments of one plan key.
pub fn plan_dir_name(plan_version: u32, source_mtime: i64, source_size: i64, audio_idx: u32) -> (r:
    String)
    ensures
        r@ == plan_name(
            plan_version as int,
            source_mtime as int,
            source_size as int,
            audio_idx as int,
        ),
{
    let mut out = plan_dir_prefix(plan_version, source_mtime, source_size);
    out.push_str("a");
    text::push_u64(&mut out, audio_idx as u64);
    out
}

/// The directory that holds the segments of one plan key.
pub fn plan_dir(
    root: &str,
    id: &str,
    plan_version: u32,
    source_mtime: i64,
    source_size: i64,
    audio_idx: u32,
) -> (r: String)
    ensures
        r@ == paths::joined(
            paths::joined(root@, id@),
            plan_name(
                plan_version as int,
                source_mtime as int,
                source_size as int,
                audio_idx as int,
            ),
        ),
{
    let dir = media_dir(root, id);
    let name = plan_dir_name(plan_version, source_mtime, source_size, audio_idx);
    paths::join(dir.as_str(), name.as_str())
}

/// What stands between `seg-` and `.m4s` in a name of that form.
pub open spec fn segment_digits(name: Seq<char>) -> Option<Seq<char>> {
    if text::begins_with(name, "seg-"@) && text::finishes_with(name.skip(4), ".m4s"@) {
        Some(name.subrange(4, name.len() - 4))
    } else {
        None
    }
}

fn segment_middle(name: &str) -> (r: Option<String>)
    ensures
        match r {
            Some(t) => segment_digits(name@) == Some(t@),
            None => segment_digits(name@) is None,
        },
{
    proof {
        reveal_strlit("seg-");
        reveal_strlit(".m4s");
    }
    match text::strip_prefix(name, "seg-") {
        Some(rest) => match text::strip_suffix(rest.as_str(), ".m4s") {
            Some(mid) => {
                assert(mid@ =~= name@.subrange(4, name@.len() - 4));
                Some(mid)
            },
            None => None,
        },
        None => None,
    }
}

/// A name that may be served out of a plan directory: the playlist, the
/// initialisation segment, or `seg-` digits `.m4s`.
pub open spec fn is_served_name(name: Seq<char>) -> bool {
    ||| name == "index.m3u8"@
    ||| name == "init.mp4"@
    ||| segment_digits(name) matches Some(d) && d.len() > 0 && text::all_digits(d)
}

/// Whether a file of this name is handed out.
pub fn is_allowed_name(name: &str) -> (r: bool)
    ensures
        r == is_served_name(name@),
{
    if *name == *"index.m3u8" || *name == *"init.mp4" {
        return true;
    }
    match segment_middle(name) {
        Some(mid) => {
            let v = text::chars_of(mid.as_str());
            if v.len() == 0 {
                return false;
            }
            let mut i: usize = 0;
            while i < v.len()
                invariant
                    v@ == mid@,
                    segment_digits(name@) == Some(mid@),
                    name@ != "index.m3u8"@,
                    name@ != "init.mp4"@,
                    i <= v@.len(),
                    forall|j: int| 0 <= j < i ==> text::is_digit(#[trigger] mid@[j]),
                decreases v@.len() - i,
            {
                if !text::digit(v[i]) {
                    assert(!text::is_digit(mid@[i as int]));
                    return false;
                }
                i += 1;
            }
            true
        },
        None => false,
    }
}

/// The segment that a name stands for: the digits between `seg-` and `.m4s`, of a number
/// that 32 bits hold.
pub open spec fn segment_number(name: Seq<char>) -> Option<int> {
    match segment_digits(name) {
        Some(d) => text::digits_upto(d, u32::MAX as int),
        None => None,
    }
}

/// The number of the segment that `name` stands for, if it is a segment's name.
pub fn segment_index(name: &str) -> (r: Option<u32>)
    ensures
        match r {
            Some(n) => segment_number(name@) == Some(n as int),
            None => segment_number(name@) is None,
        },
{
    match segment_middle(name) {
        Some(mid) => {
            let v = text::chars_of(mid.as_str());
            assert(v@.subrange(0, v@.len() as int) =~= mid@);
            match text::parse_digits(&v, 0, v.len(), 0xffff_ffff) {
                Some(n) => Some(n as u32),
                None => None,
            }
        },
        None => None,
    }
}

/// The name of segment `idx`.
pub open spec fn segment_name(idx: int) -> Seq<char> {
    "seg-"@ + text::zero_padded(text::decimal(idx as nat), 5) + ".m4s"@
}

/// The name of the file that holds a segment.
pub fn segment_filename(idx: u32) -> (r: String)
    ensures
        r@ == segment_name(idx as int),
{
    let mut out = text::own("seg-");
    text::push_u64_padded(&mut out, idx as u64, 5);
    out.push_str(".m4s");
    out
}

/// The media type of a served file.
pub open spec fn mime_of(name: Seq<char>) -> Seq<char> {
    if text::finishes_with(name, ".m3u8"@) {
        "application/vnd.apple.mpegurl"@
    } else if text::finishes_with(name, ".m4s"@) || text::finishes_with(name, ".mp4"@) {
        "video/mp4"@
    } else {
        "application/octet-stream"@
    }
}

/// What a file is announced as.
pub fn mime_for(name: &str) -> (r: &'static str)
    ensures
        r@ == mime_of(name@),
{
    if text::ends_with(name, ".m3u8") {
        "application/vnd.apple.mpegurl"
    } else if text::ends_with(name, ".m4s") || text::ends_with(name, ".mp4") {
        "video/mp4"
    } else {
        "application/octet-stream"
    }
}

/// Whether a directory found below a media id is to be kept.
pub fn keeps_dir(name: &str, keep_prefix: &str) -> (r: bool)
    ensures
        r == text::begins_with(name@, keep_prefix@),
{
    text::starts_with(name, keep_prefix)
}

// ---- laws ----

/// A segment's name is read back as that segment, and may be served.
pub proof fn segment_name_roundtrip(idx: int)
    requires
        0 <= idx <= u32::MAX,
    ensures
        segment_number(segment_name(idx)) == Some(idx),
        is_served_name(segment_name(idx)),
{
    reveal_strlit("seg-");
    reveal_strlit(".m4s");
    let d = text::decimal(idx as nat);
    let p = text::zero_padded(d, 5);
    let name = segment_name(idx);
    text::decimal_roundtrip(idx as nat);
    text::zeros_keep_value(
        if d.len() < 5 {
            (5 - d.len()) as nat
        } else {
            0
        },
        d,
    );
    if d.len() >= 5 {
        assert(text::zeros(0) + d =~= d);
    }
    assert(name.take(4) =~= "seg-"@);
    assert(text::begins_with(name, "seg-"@)) by {
        assert(name.subrange(0, 4) =~= "seg-"@);
    }
    assert(name.skip(4) =~= p + ".m4s"@);
    assert(text::finishes_with(name.skip(4), ".m4s"@)) by {
        assert((p + ".m4s"@).subrange(p.len() as int, (p.len() + 4) as int) =~= ".m4s"@);
    }
    assert(name.subrange(4, name.len() - 4) =~= p);
    assert(p.len() > 0);
    assert(text::is_digit(p[0]));
}

/// What stands for a segment is served: no name but that of a segment has a number.
pub proof fn numbered_name_is_served(name: Seq<char>)
    requires
        segment_number(name) is Some,
    ensures
        is_served_name(name),
{
}

/// One step down in a tree of directories: no separator, and neither the directory itself
/// nor the one above it.
pub open spec fn is_plain_name(s: Seq<char>) -> bool {
    s.len() > 0 && !s.contains('/') && s != "."@ && s != ".."@
}

proof fn plain_name_goes_down(base: Seq<char>, name: Seq<char>)
    requires
        is_plain_name(name),
    ensures
        text::begins_with(paths::joined(base, name), base),
        text::finishes_with(paths::joined(base, name), name),
{
    if name[0] == '/' {
        assert(name.contains(name[0]));
    }
    let j = paths::joined(base, name);
    assert(j.subrange(0, base.len() as int) =~= base);
    assert(j.subrange(j.len() - name.len(), j.len() as int) =~= name);
}

/// An id that passes as safe leads to a directory right below the one it is joined to.
pub proof fn safe_id_goes_down(base: Seq<char>, id: Seq<char>)
    requires
        is_safe_id(id),
    ensures
        is_plain_name(id),
        text::begins_with(paths::joined(base, id), base),
        text::finishes_with(paths::joined(base, id), id),
{
    reveal_strlit(".");
    reveal_strlit("..");
    assert(is_id_char(id[0]));
    if id.contains('/') {
        let i = choose|i: int| 0 <= i < id.len() && id[i] == '/';
        assert(is_id_char(id[i]));
    }
    plain_name_goes_down(base, id);
}

/// A name that is served leads to a file right below the directory it is joined to.
pub proof fn served_name_goes_down(base: Seq<char>, name: Seq<char>)
    requires
        is_served_name(name),
    ensures
        is_plain_name(name),
        text::begins_with(paths::joined(base, name), base),
        text::finishes_with(paths::joined(base, name), name),
{
    reveal_strlit(".");
    reveal_strlit("..");
    reveal_strlit("index.m3u8");
    reveal_strlit("init.mp4");
    reveal_strlit("seg-");
    reveal_strlit(".m4s");
    if name.contains('/') {
        let i = choose|i: int| 0 <= i < name.len() && name[i] == '/';
        if name != "index.m3u8"@ && name != "init.mp4"@ {
            let d = name.subrange(4, name.len() - 4);
            if i < 4 {
                assert(name.subrange(0, 4)[i] == "seg-"@[i]);
            } else if i < name.len() - 4 {
                assert(text::is_digit(d[i - 4]));
            } else {
                let rest = name.skip(4);
                assert(rest.subrange(rest.len() - 4, rest.len() as int)[i - (name.len() - 4)]
                    == ".m4s"@[i - (name.len() - 4)]);
            }
        }
    }
    plain_name_goes_down(base, name);
}

/// Every audio variant of the current state of the source is kept by its prefix.
pub proof fn plan_name_has_prefix(version: int, mtime: int, size: int, audio: int)
    ensures
        text::begins_with(plan_name(version, mtime, size, audio), plan_prefix(version, mtime, size)),
{
    let p = plan_prefix(version, mtime, size);
    let n = plan_name(version, mtime, size, audio);
    assert(n.subrange(0, p.len() as int) =~= p);
}

/// The part of a plan directory's name up to the letter `m`.
spec fn version_part(version: int) -> Seq<char> {
    seq!['v'] + text::decimal(version as nat) + seq!['-']
}

/// A signed number and the dash behind it.
spec fn number_part(n: int) -> Seq<char> {
    text::decimal_int(n) + seq!['-']
}

proof fn prefix_parts(version: int, mtime: int, size: int, rest: Seq<char>)
    requires
        version >= 0,
    ensures
        plan_prefix(version, mtime, size) + rest == version_part(version).push('m') + (number_part(
            mtime,
        ).push('s') + (number_part(size) + rest)),
        !version_part(version).contains('m'),
        !number_part(mtime).contains('s'),
{
    reveal_strlit("v");
    reveal_strlit("-m");
    reveal_strlit("-s");
    reveal_strlit("-");
    text::decimal_roundtrip(version as nat);
    text::decimal_int_chars(mtime);
    assert("v"@ =~= seq!['v']);
    assert("-"@ =~= seq!['-']);
    assert("-m"@ =~= seq!['-', 'm']);
    assert("-s"@ =~= seq!['-', 's']);
    assert(plan_prefix(version, mtime, size) + rest =~= version_part(version).push('m') + (
    number_part(mtime).push('s') + (number_part(size) + rest)));
    assert forall|i: int| 0 <= i < version_part(version).len() implies version_part(version)[i]
        != 'm' by {
        if 0 < i < version_part(version).len() - 1 {
            assert(text::is_digit(text::decimal(version as nat)[i - 1]));
        }
    }
    assert forall|i: int| 0 <= i < number_part(mtime).len() implies number_part(mtime)[i] != 's' by {
        if i < number_part(mtime).len() - 1 {
            assert(number_part(mtime)[i] == text::decimal_int(mtime)[i]);
        }
    }
}

proof fn number_part_unique(a: int, b: int, x: Seq<char>, y: Seq<char>)
    requires
        number_part(a) + x == number_part(b) + y,
    ensures
        a == b,
        x == y,
{
    text::decimal_int_chars(a);
    text::decimal_int_chars(b);
    let l = number_part(a) + x;
    let r = number_part(b) + y;
    assert(l[0] == text::decimal_int(a)[0]);
    assert(r[0] == text::decimal_int(b)[0]);
    let (da, db) = if a < 0 {
        (text::decimal((-a) as nat), text::decimal((-b) as nat))
    } else {
        (text::decimal(a as nat), text::decimal(b as nat))
    };
    if a < 0 {
        text::decimal_roundtrip((-a) as nat);
        text::decimal_roundtrip((-b) as nat);
        assert(l.skip(1) =~= da.push('-') + x);
        assert(r.skip(1) =~= db.push('-') + y);
    } else {
        text::decimal_roundtrip(a as nat);
        text::decimal_roundtrip(b as nat);
        assert(l =~= da.push('-') + x);
        assert(r =~= db.push('-') + y);
    }
    assert(!da.contains('-')) by {
        assert forall|i: int| 0 <= i < da.len() implies da[i] != '-' by {
            assert(text::is_digit(da[i]));
        }
    }
    assert(!db.contains('-')) by {
        assert forall|i: int| 0 <= i < db.len() implies db[i] != '-' by {
            assert(text::is_digit(db[i]));
        }
    }
    text::split_unique(da, x, db, y, '-');
    if a < 0 {
        text::decimal_injective((-a) as nat, (-b) as nat);
    } else {
        text::decimal_injective(a as nat, b as nat);
    }
}

/// A directory of another plan version, modification time or size does not carry
/// the current prefix, so a sweep removes it.
pub proof fn stale_plan_lacks_prefix(
    v1: int,
    m1: int,
    s1: int,
    v2: int,
    m2: int,
    s2: int,
    audio: int,
)
    requires
        v1 >= 0,
        v2 >= 0,
        audio >= 0,
        text::begins_with(plan_name(v2, m2, s2, audio), plan_prefix(v1, m1, s1)),
    ensures
        v1 == v2,
        m1 == m2,
        s1 == s2,
{
    let n = plan_name(v2, m2, s2, audio);
    let p = plan_prefix(v1, m1, s1);
    let rest = n.skip(p.len() as int);
    let tail = "a"@ + text::decimal(audio as nat);
    assert(n =~= p + rest);
    assert(n =~= plan_prefix(v2, m2, s2) + tail);
    prefix_parts(v1, m1, s1, rest);
    prefix_parts(v2, m2, s2, tail);
    text::split_unique(
        version_part(v1),
        number_part(m1).push('s') + (number_part(s1) + rest),
        version_part(v2),
        number_part(m2).push('s') + (number_part(s2) + tail),
        'm',
    );
    text::split_unique(
        number_part(m1),
        number_part(s1) + rest,
        number_part(m2),
        number_part(s2) + tail,
        's',
    );
    assert(number_part(m1) + Seq::<char>::empty() =~= number_part(m2) + Seq::<char>::empty());
    number_part_unique(m1, m2, Seq::empty(), Seq::empty());
    number_part_unique(s1, s2, rest, tail);
    assert(text::decimal(v1 as nat) =~= version_part(v1).subrange(
        1,
        version_part(v1).len() - 1,
    ));
    assert(text::decimal(v2 as nat) =~= version_part(v2).subrange(
        1,
        version_part(v2).len() - 1,
    ));
    text::decimal_injective(v1 as nat, v2 as nat);
}

/// Distinct plan keys have distinct directories.
pub proof fn plan_name_injective(
    v1: int,
    m1: int,
    s1: int,
    a1: int,
    v2: int,
    m2: int,
    s2: int,
    a2: int,
)
    requires
        v1 >= 0,
        v2 >= 0,
        a1 >= 0,
        a2 >= 0,
        plan_name(v1, m1, s1, a1) == plan_name(v2, m2, s2, a2),
    ensures
        v1 == v2,
        m1 == m2,
        s1 == s2,
        a1 == a2,
{
    plan_name_has_prefix(v1, m1, s1, a1);
    stale_plan_lacks_prefix(v1, m1, s1, v2, m2, s2, a2);
    reveal_strlit("a");
    let p = plan_prefix(v1, m1, s1);
    let n = plan_name(v1, m1, s1, a1);
    assert(n.skip(p.len() as int + 1) =~= text::decimal(a1 as nat));
    assert(n.skip(p.len() as int + 1) =~= text::decimal(a2 as nat));
    text::decimal_injective(a1 as nat, a2 as nat);
}

/// Every segment is announced as video, and so is what comes before it; the playlist is
/// announced as one.
pub proof fn served_names_are_announced(idx: int)
    requires
        0 <= idx <= u32::MAX,
    ensures
        mime_of(segment_name(idx)) == "video/mp4"@,
        mime_of("init.mp4"@) == "video/mp4"@,
        mime_of("index.m3u8"@) == "application/vnd.apple.mpegurl"@,
{
    reveal_strlit(".m3u8");
    reveal_strlit(".m4s");
    reveal_strlit(".mp4");
    reveal_strlit("init.mp4");
    reveal_strlit("index.m3u8");
    let name = segment_name(idx);
    let front = "seg-"@ + text::zero_padded(text::decimal(idx as nat), 5);
    assert(name == front + ".m4s"@);
    assert(name.last() == 's');
    assert(text::finishes_with(name, ".m4s"@)) by {
        assert(name.subrange(name.len() - 4, name.len() as int) =~= ".m4s"@);
    }
    assert(!text::finishes_with(name, ".m3u8"@)) by {
        if text::finishes_with(name, ".m3u8"@) {
            assert(name.subrange(name.len() - 5, name.len() as int)[4] == '8');
        }
    }
    assert("init.mp4"@.subrange(4, 8) =~= ".mp4"@);
    assert(!text::finishes_with("init.mp4"@, ".m3u8"@)) by {
        assert("init.mp4"@.subrange(3, 8)[4] == '4');
    }
    assert("index.m3u8"@.subrange(5, 10) =~= ".m3u8"@);
}

} // verus!
