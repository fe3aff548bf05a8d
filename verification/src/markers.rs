//! Playback markers: intros, credits and chapters.
//!
//! Markers come from the chapters in a file, by their titles, and from audio
//! fingerprints: what two episodes of a season have in common is an intro, credits
//! or a recurring segment. All times are microseconds.

use crate::text;
use crate::types;
use vstd::prelude::*;

verus! {

/// Shorter chapters are artifacts of the container.
pub const MIN_MARKER_US: i64 = 5_000_000;

/// The time that one item of a fingerprint covers.
pub const FP_ITEM_US: u64 = 123_830;

/// Raised whenever cached fingerprints are to be made anew.
pub const FP_ALGO_VERSION: i64 = 1;

/// At most so much of a file is fingerprinted, in seconds.
pub const FP_MAX_LENGTH_SECS: u32 = 3600;

/// Two items match if at most this many of their bits differ.
pub const HAMMING_BITS: u32 = 6;

/// The shortest segment that is worth a marker.
pub const MIN_SEGMENT_US: u64 = 15_000_000;

/// So many mismatches in a row are bridged within a run.
pub const MAX_GAP_ITEMS: usize = 8;

/// Runs that are less than this apart are one segment.
pub const MERGE_GAP_ITEMS: usize = 40;

/// So many positions of one value are looked at.
pub const MAX_VALUE_POSITIONS: usize = 8;

/// So many alignments of two episodes are tried.
pub const TOP_OFFSETS: usize = 6;

/// An alignment needs so many equal items to be tried.
pub const MIN_ANCHOR_HITS: usize = 10;

/// Larger seasons are not analysed.
pub const MAX_SEASON_EPISODES: usize = 60;

#[derive(Debug, Clone, Copy, PartialEq, Eq, Structural)]
pub enum MarkerKind {
    Intro,
    Recap,
    Outro,
    Credits,
    Chapter,
}

/// How sure a marker is: so many of so many.
#[derive(Debug, Clone, Copy, PartialEq, Eq, Structural)]
pub struct Confidence {
    pub agreeing: u64,
    pub of: u64,
}

#[derive(Debug)]
pub struct Marker {
    pub kind: MarkerKind,
    pub start_us: i64,
    pub end_us: i64,
    pub title: Option<String>,
    pub source: String,
    pub confidence: Confidence,
}

/// A chapter as the container lists it.
#[derive(Debug)]
pub struct RawChapter {
    pub start_us: i64,
    pub end_us: i64,
    pub title: Option<String>,
}

#[verifier::ext_equal]
pub struct ChapterView {
    pub start_us: int,
    pub end_us: int,
    pub title: Option<Seq<char>>,
}

impl View for RawChapter {
    type V = ChapterView;

    open spec fn view(&self) -> ChapterView {
        ChapterView {
            start_us: self.start_us as int,
            end_us: self.end_us as int,
            title: types::opt_text(self.title),
        }
    }
}

pub open spec fn chapter_views(v: Seq<RawChapter>) -> Seq<ChapterView> {
    v.map_values(|c: RawChapter| c@)
}

impl MarkerKind {
    pub open spec fn name(self) -> Seq<char> {
        match self {
            MarkerKind::Intro => "intro"@,
            MarkerKind::Recap => "recap"@,
            MarkerKind::Outro => "outro"@,
            MarkerKind::Credits => "credits"@,
            MarkerKind::Chapter => "chapter"@,
        }
    }

    /// The name under which a kind is stored.
    pub fn as_str(self) -> (r: &'static str)
        ensures
            r@ == self.name(),
    {
        match self {
            MarkerKind::Intro => "intro",
            MarkerKind::Recap => "recap",
            MarkerKind::Outro => "outro",
            MarkerKind::Credits => "credits",
            MarkerKind::Chapter => "chapter",
        }
    }
}

proof fn kind_names_differ()
    ensures
        forall|a: MarkerKind, b: MarkerKind| #[trigger] a.name() == #[trigger] b.name() ==> a == b,
{
    reveal_strlit("intro");
    reveal_strlit("recap");
    reveal_strlit("outro");
    reveal_strlit("credits");
    reveal_strlit("chapter");
    assert("intro"@[0] == 'i' && "recap"@[0] == 'r' && "outro"@[0] == 'o');
    assert("credits"@[1] == 'r' && "chapter"@[1] == 'h' && "credits"@[0] == 'c' && "chapter"@[0]
        == 'c');
    assert forall|a: MarkerKind, b: MarkerKind| #[trigger]
        a.name() == #[trigger] b.name() implies a == b by {
        assert(a.name()[0] == b.name()[0]);
        assert(a.name()[1] == b.name()[1]);
    }
}

/// The kind stored under a name; `None` for a name that stands for none.
pub fn kind_from_str(s: &str) -> (r: Option<MarkerKind>)
    ensures
        match r {
            Some(k) => k.name() == s@,
            None => forall|k: MarkerKind| (#[trigger] k.name()) != s@,
        },
{
    if *s == *"intro" {
        Some(MarkerKind::Intro)
    } else if *s == *"recap" {
        Some(MarkerKind::Recap)
    } else if *s == *"outro" {
        Some(MarkerKind::Outro)
    } else if *s == *"credits" {
        Some(MarkerKind::Credits)
    } else if *s == *"chapter" {
        Some(MarkerKind::Chapter)
    } else {
        None
    }
}

/// Distinct kinds are stored under distinct names.
pub proof fn kind_name_injective(a: MarkerKind, b: MarkerKind)
    requires
        a.name() == b.name(),
    ensures
        a == b,
{
    kind_names_differ();
}

// ---- chapters ----

/// The kind that a chapter's title, in lower case, gives away. A title without a
/// keyword makes a plain chapter, wherever it lies.
pub open spec fn title_kind(title: Option<Seq<char>>) -> MarkerKind {
    match title {
        Some(t) => {
            let l = text::ascii_lower_text(t);
            if text::has_text(l, "recap"@) || text::has_text(l, "previously"@) {
                MarkerKind::Recap
            } else if text::has_text(l, "intro"@) || text::has_text(l, "opening"@)
                || text::has_text(l, "title sequence"@) || text::has_text(l, "main titles"@) {
                MarkerKind::Intro
            } else if text::has_text(l, "credit"@) || text::has_text(l, "ending"@)
                || text::has_text(l, "outro"@) {
                MarkerKind::Credits
            } else {
                MarkerKind::Chapter
            }
        },
        None => MarkerKind::Chapter,
    }
}

/// What a chapter is by its title.
pub fn classify_chapter_title(title: Option<&str>) -> (r: MarkerKind)
    ensures
        r == title_kind(types::opt_str(title)),
{
    if let Some(t) = title {
        let lower = text::to_ascii_lower(t);
        let l = lower.as_str();
        if text::contains(l, "recap") || text::contains(l, "previously") {
            return MarkerKind::Recap;
        }
        if text::contains(l, "intro") || text::contains(l, "opening") || text::contains(
            l,
            "title sequence",
        ) || text::contains(l, "main titles") {
            return MarkerKind::Intro;
        }
        if text::contains(l, "credit") || text::contains(l, "ending") || text::contains(l, "outro") {
            return MarkerKind::Credits;
        }
    }
    MarkerKind::Chapter
}

/// A chapter that is worth a marker: not too short, and, where the running time is
/// known, shorter than nineteen twentieths of it.
pub open spec fn is_real_chapter(start: int, end: int, duration: int) -> bool {
    &&& end - start >= MIN_MARKER_US
    &&& !(duration > 0 && (end - start) * 20 >= duration * 19)
}

/// The marker for a chapter.
pub open spec fn marks_chapter(m: Marker, c: RawChapter) -> bool {
    &&& m.kind == title_kind(types::opt_text(c.title))
    &&& m.start_us == c.start_us
    &&& m.end_us == c.end_us
    &&& types::opt_text(m.title) == types::opt_text(c.title)
    &&& m.source@ == "chapter"@
    &&& m.confidence == (Confidence { agreeing: 1, of: 1 })
}

/// The chapters that are worth a marker, in order.
pub open spec fn real_chapters(c: Seq<RawChapter>, duration: int) -> Seq<RawChapter>
    decreases c.len(),
{
    if c.len() == 0 {
        c
    } else {
        let rest = real_chapters(c.drop_last(), duration);
        if is_real_chapter(c.last().start_us as int, c.last().end_us as int, duration) {
            rest.push(c.last())
        } else {
            rest
        }
    }
}

pub open spec fn mark_chapters(m: Seq<Marker>, c: Seq<RawChapter>) -> bool {
    &&& m.len() == c.len()
    &&& forall|i: int| 0 <= i < m.len() ==> marks_chapter(#[trigger] m[i], c[i])
}

/// Turns the chapters of a file into markers. Chapters that are too short, or that span
/// nearly the whole file, are dropped.
pub fn chapters_to_markers(chapters: &Vec<RawChapter>, duration_us: i64) -> (r: Vec<Marker>)
    ensures
        mark_chapters(r@, real_chapters(chapters@, duration_us as int)),
{
    let mut out: Vec<Marker> = Vec::new();
    let ghost all = chapters@;
    let mut i: usize = 0;
    assert(all.take(0) =~= Seq::<RawChapter>::empty());
    while i < chapters.len()
        invariant
            i <= chapters@.len(),
            all == chapters@,
            mark_chapters(out@, real_chapters(all.take(i as int), duration_us as int)),
        decreases chapters@.len() - i,
    {
        let c: &RawChapter = &chapters[i];
        assert(all.take(i + 1).drop_last() =~= all.take(i as int));
        assert(all.take(i + 1).last() == *c);
        let len: i128 = c.end_us as i128 - c.start_us as i128;
        if len >= MIN_MARKER_US as i128 && !(duration_us > 0 && len * 20 >= duration_us as i128 * 19) {
            let title = match &c.title {
                Some(t) => Some(t.as_str()),
                None => None,
            };
            let m = Marker {
                kind: classify_chapter_title(title),
                start_us: c.start_us,
                end_us: c.end_us,
                title: types::copy_opt(&c.title),
                source: text::own("chapter"),
                confidence: Confidence { agreeing: 1, of: 1 },
            };
            assert(marks_chapter(m, *c));
            out.push(m);
        }
        i += 1;
    }
    assert(all.take(i as int) =~= all);
    out
}

/// The kind of a segment by where it lies: near the head an intro, near the tail
/// credits, else a recurring segment. Near the head is the first fifth, or five minutes
/// if that is more; near the tail the last three twentieths, or four minutes.
pub open spec fn position_kind(start: int, end: int, duration: int) -> MarkerKind {
    if duration <= 0 {
        MarkerKind::Chapter
    } else if start * 5 <= duration || start <= 300_000_000 {
        MarkerKind::Intro
    } else if end * 20 >= duration * 17 || end >= duration - 240_000_000 {
        MarkerKind::Credits
    } else {
        MarkerKind::Chapter
    }
}

/// What a chapter is by where it stands in the video.
pub fn classify_by_position(start_us: i64, end_us: i64, duration_us: i64) -> (r: MarkerKind)
    ensures
        r == position_kind(start_us as int, end_us as int, duration_us as int),
{
    let start: i128 = start_us as i128;
    let end: i128 = end_us as i128;
    let duration: i128 = duration_us as i128;
    if duration <= 0 {
        MarkerKind::Chapter
    } else if start * 5 <= duration || start <= 300_000_000 {
        MarkerKind::Intro
    } else if end * 20 >= duration * 17 || end >= duration - 240_000_000 {
        MarkerKind::Credits
    } else {
        MarkerKind::Chapter
    }
}

// ---- stored fingerprints ----

/// The bytes of an item, least significant first.
pub open spec fn item_bytes(x: u32) -> Seq<u8> {
    seq![
        (x % 256) as u8,
        (x / 256 % 256) as u8,
        (x / 65536 % 256) as u8,
        (x / 16777216 % 256) as u8,
    ]
}

/// The item that four bytes spell.
pub open spec fn bytes_item(b: Seq<u8>, i: int) -> u32 {
    (b[i] + b[i + 1] * 256 + b[i + 2] * 65536 + b[i + 3] * 16777216) as u32
}

/// A fingerprint as it is stored.
pub open spec fn stored(fp: Seq<u32>) -> Seq<u8> {
    Seq::new(fp.len() * 4, |i: int| item_bytes(fp[i / 4])[i % 4])
}

/// The fingerprint that was stored: whole items only.
pub open spec fn loaded(b: Seq<u8>) -> Seq<u32> {
    Seq::new(b.len() / 4, |k: int| bytes_item(b, 4 * k))
}

/// Reads a fingerprint from the bytes that are stored.
pub fn decode_fp(bytes: &Vec<u8>) -> (r: Vec<u32>)
    ensures
        r@ == loaded(bytes@),
{
    let mut out: Vec<u32> = Vec::new();
    let n: usize = bytes.len() / 4;
    let total: usize = bytes.len();
    let mut k: usize = 0;
    while k < n
        invariant
            n == total / 4,
            total == bytes@.len(),
            k <= n,
            out@.len() == k,
            forall|j: int| 0 <= j < k ==> #[trigger] out@[j] == bytes_item(bytes@, 4 * j),
        decreases n - k,
    {
        let i: usize = 4 * k;
        let a: u32 = bytes[i] as u32;
        let b: u32 = bytes[i + 1] as u32 * 256;
        let c: u32 = bytes[i + 2] as u32 * 65536;
        let d: u32 = bytes[i + 3] as u32 * 16777216;
        out.push(a + b + c + d);
        k += 1;
    }
    assert(out@ =~= loaded(bytes@));
    out
}

/// The bytes that are stored of a fingerprint.
pub fn encode_fp(fp: &Vec<u32>) -> (r: Vec<u8>)
    requires
        fp@.len() * 4 <= usize::MAX,
    ensures
        r@ == stored(fp@),
{
    let mut out: Vec<u8> = Vec::new();
    let mut k: usize = 0;
    while k < fp.len()
        invariant
            k <= fp@.len(),
            fp@.len() * 4 <= usize::MAX,
            out@ == stored(fp@.take(k as int)),
        decreases fp@.len() - k,
    {
        let x: u32 = fp[k];
        out.push((x % 256) as u8);
        out.push((x / 256 % 256) as u8);
        out.push((x / 65536 % 256) as u8);
        out.push((x / 16777216 % 256) as u8);
        assert(out@ =~= stored(fp@.take(k + 1)));
        k += 1;
    }
    assert(fp@.take(k as int) =~= fp@);
    out
}

/// A fingerprint that was stored is loaded unchanged.
pub proof fn fingerprint_roundtrip(fp: Seq<u32>)
    ensures
        loaded(stored(fp)) == fp,
{
    let b = stored(fp);
    assert forall|k: int| 0 <= k < fp.len() implies bytes_item(b, 4 * k) == fp[k] by {
        let x = fp[k];
        assert(b[4 * k] == item_bytes(x)[0]) by {
            assert((4 * k) / 4 == k && (4 * k) % 4 == 0);
        }
        assert(b[4 * k + 1] == item_bytes(x)[1]) by {
            assert((4 * k + 1) / 4 == k && (4 * k + 1) % 4 == 1);
        }
        assert(b[4 * k + 2] == item_bytes(x)[2]) by {
            assert((4 * k + 2) / 4 == k && (4 * k + 2) % 4 == 2);
        }
        assert(b[4 * k + 3] == item_bytes(x)[3]) by {
            assert((4 * k + 3) / 4 == k && (4 * k + 3) % 4 == 3);
        }
        assert(x == x % 256 + (x / 256 % 256) * 256 + (x / 65536 % 256) * 65536 + (x / 16777216 % 256)
            * 16777216);
    }
    assert(loaded(b) =~= fp);
}

/// Whether a stored fingerprint is that of the file as it is now.
pub fn fingerprint_fresh(stored_sig: Option<(i64, i64)>, version: i64, sig: (i64, i64)) -> (r: bool)
    ensures
        r == (stored_sig == Some(sig) && version == FP_ALGO_VERSION),
{
    match stored_sig {
        Some(s) => s.0 == sig.0 && s.1 == sig.1 && version == FP_ALGO_VERSION,
        None => false,
    }
}

// ---- the program that makes fingerprints ----

/// Whether what episodes have in common can be found by their sound.
#[derive(Debug, Clone, Copy, PartialEq, Eq, Structural)]
pub enum FpcalcStatus {
    Available,
    Missing,
}

/// Whether the program is asked at all: a setting of 0 turns it off.
pub fn wants_fpcalc(setting: Option<&str>) -> (r: bool)
    ensures
        r == (types::opt_str(setting) != Some("0"@)),
{
    match setting {
        Some(s) => !(*s == *"0"),
        None => true,
    }
}

/// Whether fingerprints can be made, given whether the program could be run.
pub fn detect_fpcalc(setting: Option<&str>, ran: bool) -> (r: FpcalcStatus)
    ensures
        r == if types::opt_str(setting) != Some("0"@) && ran {
            FpcalcStatus::Available
        } else {
            FpcalcStatus::Missing
        },
{
    if wants_fpcalc(setting) && ran {
        FpcalcStatus::Available
    } else {
        FpcalcStatus::Missing
    }
}

/// The arguments with which a video's fingerprint is made.
pub fn fpcalc_args(video: &str) -> (r: Vec<String>)
    ensures
        types::texts(r@) == seq![
            "-raw"@,
            "-json"@,
            "-length"@,
            text::decimal(FP_MAX_LENGTH_SECS as nat),
            video@,
        ],
{
    let mut args: Vec<String> = Vec::new();
    types::push_pair(&mut args, "-raw", "-json");
    types::push_text(&mut args, "-length");
    types::push_text(&mut args, text::u64_text(FP_MAX_LENGTH_SECS as u64).as_str());
    types::push_text(&mut args, video);
    assert(types::texts(args@) =~= seq![
        "-raw"@,
        "-json"@,
        "-length"@,
        text::decimal(FP_MAX_LENGTH_SECS as nat),
        video@,
    ]);
    args
}

// ---- laws ----

/// The chapters that are kept: those of five seconds or more that do not take nineteen
/// twentieths of a known running time, in their order.
pub proof fn chapters_that_are_kept(c: Seq<RawChapter>, duration: int)
    ensures
        real_chapters(c, duration) == c.filter(
            |x: RawChapter|
                x.end_us - x.start_us >= 5_000_000 && (duration <= 0 || 20 * (x.end_us - x.start_us)
                    < 19 * duration),
        ),
    decreases c.len(),
{
    reveal(Seq::filter);
    if c.len() > 0 {
        chapters_that_are_kept(c.drop_last(), duration);
    } else {
        assert(c =~= Seq::empty());
    }
}

/// An intro starts within the first fifth or within five minutes; credits end within the
/// last three twentieths or within four minutes of the end, and start later than an intro may;
/// what is neither lies between them.
pub proof fn position_tells_the_kind(start: int, end: int, duration: int)
    requires
        duration > 0,
        start <= end,
    ensures
        position_kind(start, end, duration) is Intro <==> 5 * start <= duration || start
            <= 5 * 60 * 1_000_000,
        position_kind(start, end, duration) is Credits ==> 5 * start > duration && (20 * (duration
            - end) <= 3 * duration || duration - end <= 4 * 60 * 1_000_000),
        position_kind(start, end, duration) is Chapter ==> 20 * (duration - end) > 3 * duration
            && duration - end > 4 * 60 * 1_000_000,
        position_kind(start, end, duration) is Intro || position_kind(start, end, duration) is Credits
            || position_kind(start, end, duration) is Chapter,
        position_kind(start, end, 0) is Chapter,
{
}

/// What starts earlier is no less an intro, and what ends later no less credits.
pub proof fn position_is_monotonic(start: int, end: int, earlier: int, later: int, duration: int)
    requires
        earlier <= start,
        end <= later,
    ensures
        position_kind(start, end, duration) is Intro ==> position_kind(earlier, end, duration) is Intro,
        position_kind(start, end, duration) is Credits ==> position_kind(start, later, duration) is Credits,
{
}

proof fn lower_joins(a: Seq<char>, b: Seq<char>)
    ensures
        text::ascii_lower_text(a + b) == text::ascii_lower_text(a) + text::ascii_lower_text(b),
{
    assert(text::ascii_lower_text(a + b) =~= text::ascii_lower_text(a) + text::ascii_lower_text(b));
}

/// A title tells its kind by a word in it, whatever stands before and behind the word and
/// however it is capitalised. A recap comes before an intro, and an intro before credits.
pub proof fn title_words_tell_the_kind(a: Seq<char>, word: Seq<char>, b: Seq<char>)
    ensures
        ({
            let w = text::ascii_lower_text(word);
            let k = title_kind(Some(a + word + b));
            let all = text::ascii_lower_text(a + word + b);
            &&& w == "recap"@ || w == "previously"@ ==> k is Recap
            &&& w == "intro"@ || w == "opening"@ || w == "title sequence"@ || w == "main titles"@
                ==> k is Recap || k is Intro
            &&& w == "credit"@ || w == "ending"@ || w == "outro"@ ==> k is Recap || k is Intro
                || k is Credits
            &&& k is Recap ==> text::has_text(all, "recap"@) || text::has_text(all, "previously"@)
            &&& k is Intro ==> text::has_text(all, "intro"@) || text::has_text(all, "opening"@)
                || text::has_text(all, "title sequence"@) || text::has_text(all, "main titles"@)
            &&& k is Credits ==> text::has_text(all, "credit"@) || text::has_text(all, "ending"@)
                || text::has_text(all, "outro"@)
            &&& k !is Outro
        }),
        title_kind(None) is Chapter,
{
    lower_joins(a + word, b);
    lower_joins(a, word);
    let w = text::ascii_lower_text(word);
    let all = text::ascii_lower_text(a + word + b);
    assert(all == text::ascii_lower_text(a) + w + text::ascii_lower_text(b));
    text::text_is_within(text::ascii_lower_text(a), w, text::ascii_lower_text(b));
}

/// A chapter is marked from where it starts to where it ends, under its own title.
pub proof fn chapters_are_marked_as_they_are(m: Marker, c: RawChapter)
    requires
        marks_chapter(m, c),
    ensures
        m.start_us == c.start_us && m.end_us == c.end_us,
        c.title matches Some(t) ==> m.title is Some && (m.title->0)@ == t@,
        c.title is None ==> m.title is None,
        m.source@ == "chapter"@,
        m.confidence.agreeing == 1 && m.confidence.of == 1,
{
}

} // verus!
