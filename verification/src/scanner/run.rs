//! The course of a scan.

use crate::analytics::ScanTiming;
use crate::media_info;
use crate::paths;
use crate::remux;
use crate::scanner::files;
use crate::scanner::index::UpsertOutcome;
use crate::text;
use crate::types::MediaTechInfo;
use crate::types;
use std::sync::atomic::{AtomicU64, Ordering};
use std::sync::Arc;
use vstd::prelude::*;

verus! {

/// How many files are worked on at once where nothing else is asked for.
pub const DEFAULT_CONCURRENCY: usize = 4;

/// Tells a scan that another one was asked for.
pub struct CancelToken {
    counter: Arc<AtomicU64>,
    my_gen: u64,
}

impl CancelToken {
    /// The generation that the scan belongs to.
    pub closed spec fn generation(&self) -> u64 {
        self.my_gen
    }

    /// The counter of generations that the scan watches.
    pub closed spec fn watched(&self) -> Arc<AtomicU64> {
        self.counter
    }

    /// The scan is to stop once the counter shows `current`: another generation has begun.
    pub open spec fn stops_at(&self, current: u64) -> bool {
        current != self.generation()
    }

    /// A token of the generation that the counter shows now, which is read once and handed
    /// to [`CancelToken::of_generation`]. Which one that is, no clause says: others raise
    /// the counter at any time.
    pub fn new(counter: Arc<AtomicU64>) -> (r: Self)
        ensures
            r.watched() == counter,
    {
        let shown: u64 = counter.load(Ordering::Acquire);
        CancelToken::of_generation(counter, shown)
    }

    /// A token of the generation that the counter showed.
    pub fn of_generation(counter: Arc<AtomicU64>, shown: u64) -> (r: Self)
        ensures
            r.watched() == counter,
            r.generation() == shown,
    {
        CancelToken { counter, my_gen: shown }
    }

    /// Whether the scan is to stop, when the counter shows `current`.
    pub fn is_cancelled_at(&self, current: u64) -> (r: bool)
        ensures
            r == self.stops_at(current),
    {
        current != self.my_gen
    }

    /// Whether the scan is to stop, by what the counter shows now. No clause says what that
    /// is: others raise the counter at any time.
    pub fn is_cancelled(&self) -> (r: bool) {
        let current: u64 = self.counter.load(Ordering::Acquire);
        self.is_cancelled_at(current)
    }
}

impl Clone for CancelToken {
    /// A token of the same generation that watches the same counter.
    fn clone(&self) -> (r: Self)
        ensures
            r.watched() == self.watched(),
            r.generation() == self.generation(),
    {
        CancelToken { counter: self.counter.clone(), my_gen: self.my_gen }
    }
}

/// What the counter shows after it was raised once.
pub open spec fn raised(shown: u64) -> u64 {
    if shown == u64::MAX {
        0
    } else {
        (shown + 1) as u64
    }
}

/// A token of the generation that the counter showed lets its scan run as long as the
/// counter shows that, and stops it from the moment it was raised; one that was made after
/// that lets its scan run.
pub proof fn token_stops_when_raised(earlier: CancelToken, later: CancelToken, shown: u64)
    requires
        earlier.generation() == shown,
        later.generation() == raised(shown),
    ensures
        !earlier.stops_at(shown),
        forall|current: u64| current != shown ==> #[trigger] earlier.stops_at(current),
        earlier.stops_at(raised(shown)),
        !later.stops_at(raised(shown)),
{
}

// ---- settings ----

/// A number above nothing that a setting spells.
pub open spec fn positive_setting(value: Option<Seq<char>>) -> Option<int> {
    match value {
        Some(s) => match text::unsigned_value(s, u64::MAX as int) {
            Some(n) => if n > 0 {
                Some(n)
            } else {
                None
            },
            None => None,
        },
        None => None,
    }
}

/// The most files that a scan takes, where a setting limits them.
pub fn max_videos(value: Option<&str>) -> (r: Option<u64>)
    ensures
        match r {
            Some(n) => positive_setting(types::opt_str(value)) == Some(n as int),
            None => positive_setting(types::opt_str(value)) is None,
        },
{
    match value {
        Some(s) => match text::parse_u64(s) {
            Some(n) => if n > 0 {
                Some(n)
            } else {
                None
            },
            None => None,
        },
        None => None,
    }
}

/// How many files are worked on at once.
pub fn concurrency(value: Option<&str>) -> (r: u64)
    ensures
        r == match positive_setting(types::opt_str(value)) {
            Some(n) => n,
            None => DEFAULT_CONCURRENCY as int,
        },
{
    match max_videos(value) {
        Some(n) => n,
        None => DEFAULT_CONCURRENCY as u64,
    }
}

/// The directories that a setting names, with `:` between them. Empty names go, and so
/// does white space around a name.
pub open spec fn library_names(parts: Seq<Seq<char>>) -> Seq<Seq<char>>
    decreases parts.len(),
{
    if parts.len() == 0 {
        parts
    } else if parts.last().len() == 0 {
        library_names(parts.drop_last())
    } else {
        library_names(parts.drop_last()).push(text::trimmed(parts.last()))
    }
}

/// The directories that a setting names.
pub fn library_paths(setting: &str) -> (r: Vec<String>)
    ensures
        types::texts(r@) == library_names(text::pieces(setting@, ':')),
{
    let parts = text::split(setting, ':');
    let ghost all = types::texts(parts@);
    let mut out: Vec<String> = Vec::new();
    let mut i: usize = 0;
    assert(all.take(0) =~= Seq::<Seq<char>>::empty());
    assert(types::texts(out@) =~= library_names(all.take(0)));
    while i < parts.len()
        invariant
            i <= parts@.len(),
            all == types::texts(parts@),
            types::texts(out@) == library_names(all.take(i as int)),
        decreases parts@.len() - i,
    {
        proof {
            assert(all.take(i + 1).drop_last() =~= all.take(i as int));
            assert(all.take(i + 1).last() == parts@[i as int]@);
        }
        let v = text::chars_of(parts[i].as_str());
        if v.len() > 0 {
            let name = text::trim(parts[i].as_str());
            types::push_text(&mut out, name.as_str());
        }
        i += 1;
    }
    assert(all.take(i as int) =~= all);
    out
}

/// The name of a library: that of its directory.
pub fn library_name(path: &str) -> (r: String)
    ensures
        r@ == match paths::file_name_of(path@) {
            Some(n) => n,
            None => "library"@,
        },
{
    match paths::file_name(path) {
        Some(n) => n,
        None => text::own("library"),
    }
}

// ---- the walk ----

/// What the walk does with an entry.
#[derive(Debug, Clone, Copy, PartialEq, Eq, Structural)]
pub enum Step {
    /// The walk is over.
    Stop,
    /// The entry is none of its business.
    Skip,
    /// The entry is a video.
    Take,
}

/// A walk through a library.
#[derive(Debug)]
pub struct Walk {
    max: Option<u64>,
    seen: u64,
    completed: bool,
    paths: Vec<String>,
}

#[verifier::ext_equal]
pub struct WalkView {
    pub max: Option<u64>,
    pub seen: u64,
    pub completed: bool,
    pub paths: Seq<Seq<char>>,
}

impl View for Walk {
    type V = WalkView;

    closed spec fn view(&self) -> WalkView {
        WalkView {
            max: self.max,
            seen: self.seen,
            completed: self.completed,
            paths: types::texts(self.paths@),
        }
    }
}

/// What is done with an entry: a cancelled walk, and one that has its fill, ends.
pub open spec fn step_for(w: WalkView, cancelled: bool, is_file: bool, path: Seq<char>) -> Step {
    if cancelled {
        Step::Stop
    } else if !is_file || !files::is_video_path(path) {
        Step::Skip
    } else if w.max matches Some(m) && w.seen >= m {
        Step::Stop
    } else {
        Step::Take
    }
}

/// The walk after an entry: one that was stopped is not complete.
pub open spec fn walked(w: WalkView, step: Step) -> WalkView {
    match step {
        Step::Stop => WalkView { completed: false, ..w },
        Step::Skip => w,
        Step::Take => WalkView { seen: (w.seen + 1) as u64, ..w },
    }
}

impl Walk {
    /// A walk that takes `max` videos at most.
    pub fn new(max: Option<u64>) -> (r: Self)
        ensures
            r@ == (WalkView { max, seen: 0, completed: true, paths: Seq::empty() }),
    {
        let r = Walk { max, seen: 0, completed: true, paths: Vec::new() };
        assert(r@.paths =~= Seq::empty());
        r
    }

    /// How many videos there were.
    pub fn seen(&self) -> (r: u64)
        ensures
            r == self@.seen,
    {
        self.seen
    }

    /// Whether the walk saw the whole library.
    pub fn completed(&self) -> (r: bool)
        ensures
            r == self@.completed,
    {
        self.completed
    }

    /// The walk comes to an entry.
    pub fn step(&mut self, cancelled: bool, is_file: bool, path: &str) -> (r: Step)
        requires
            old(self)@.seen < u64::MAX,
        ensures
            r == step_for(old(self)@, cancelled, is_file, path@),
            final(self)@ == walked(old(self)@, r),
    {
        let ghost before = self@;
        if cancelled {
            self.completed = false;
            assert(self@ =~= walked(before, Step::Stop));
            return Step::Stop;
        }
        if !is_file || !files::is_video(path) {
            return Step::Skip;
        }
        if let Some(m) = self.max {
            if self.seen >= m {
                self.completed = false;
                assert(self@ =~= walked(before, Step::Stop));
                return Step::Stop;
            }
        }
        self.seen += 1;
        assert(self@ =~= walked(before, Step::Take));
        Step::Take
    }

    /// The walk saw the video at the path `abs`.
    pub fn saw(&mut self, abs: &str)
        ensures
            final(self)@ == (WalkView { paths: old(self)@.paths.push(abs@), ..old(self)@ }),
    {
        let ghost before = self@;
        types::push_text(&mut self.paths, abs);
        assert(self@ =~= WalkView { paths: before.paths.push(abs@), ..before });
    }

    /// The ids of what is stored of the library but was not seen. None while the walk did
    /// not see the whole library.
    pub fn missing(&self, stored: &Vec<(String, String)>) -> (r: Vec<String>)
        ensures
            types::texts(r@) == gone(self@, pair_texts(stored@)),
    {
        let mut out: Vec<String> = Vec::new();
        let ghost all = pair_texts(stored@);
        assert(types::texts(out@) =~= Seq::<Seq<char>>::empty());
        if !self.completed {
            return out;
        }
        let mut i: usize = 0;
        assert(all.take(0) =~= Seq::<(Seq<char>, Seq<char>)>::empty());
        while i < stored.len()
            invariant
                i <= stored@.len(),
                all == pair_texts(stored@),
                types::texts(out@) == unseen(self@.paths, all.take(i as int)),
            decreases stored@.len() - i,
        {
            proof {
                assert(all.take(i + 1).drop_last() =~= all.take(i as int));
                assert(all.take(i + 1).last() == (stored@[i as int].0@, stored@[i as int].1@));
            }
            if !types::holds_text(&self.paths, stored[i].1.as_str()) {
                types::push_text(&mut out, stored[i].0.as_str());
            }
            i += 1;
        }
        assert(all.take(i as int) =~= all);
        out
    }
}

/// The texts of a list of pairs.
pub open spec fn pair_texts(v: Seq<(String, String)>) -> Seq<(Seq<char>, Seq<char>)> {
    v.map_values(|p: (String, String)| (p.0@, p.1@))
}

/// The ids of the rows whose path is not among `seen`.
pub open spec fn unseen(seen: Seq<Seq<char>>, rows: Seq<(Seq<char>, Seq<char>)>) -> Seq<Seq<char>>
    decreases rows.len(),
{
    if rows.len() == 0 {
        Seq::empty()
    } else if seen.contains(rows.last().1) {
        unseen(seen, rows.drop_last())
    } else {
        unseen(seen, rows.drop_last()).push(rows.last().0)
    }
}

/// The ids of what is gone from a library.
pub open spec fn gone(w: WalkView, rows: Seq<(Seq<char>, Seq<char>)>) -> Seq<Seq<char>> {
    if w.completed {
        unseen(w.paths, rows)
    } else {
        Seq::empty()
    }
}

/// What a row says is gone was not seen, and all that was not seen is gone.
pub proof fn unseen_is_exact(seen: Seq<Seq<char>>, rows: Seq<(Seq<char>, Seq<char>)>, id: Seq<char>)
    ensures
        unseen(seen, rows).contains(id) <==> exists|i: int|
            0 <= i < rows.len() && (#[trigger] rows[i]).0 == id && !seen.contains(rows[i].1),
    decreases rows.len(),
{
    if rows.len() > 0 {
        let last = rows.len() - 1;
        let rest = rows.drop_last();
        unseen_is_exact(seen, rest, id);
        let u = unseen(seen, rest);
        if unseen(seen, rows).contains(id) {
            let k = choose|k: int| 0 <= k < unseen(seen, rows).len() && unseen(seen, rows)[k] == id;
            if k < u.len() {
                assert(u[k] == id);
                assert(u.contains(id));
                let i = choose|i: int|
                    0 <= i < rest.len() && (#[trigger] rest[i]).0 == id && !seen.contains(rest[i].1);
                assert(rows[i].0 == id && !seen.contains(rows[i].1));
            } else {
                assert(rows[last].0 == id && !seen.contains(rows[last].1));
            }
        }
        if exists|i: int|
            0 <= i < rows.len() && (#[trigger] rows[i]).0 == id && !seen.contains(rows[i].1) {
            let i = choose|i: int|
                0 <= i < rows.len() && (#[trigger] rows[i]).0 == id && !seen.contains(rows[i].1);
            if i < last {
                assert(rest[i].0 == id && !seen.contains(rest[i].1));
                let k = choose|k: int| 0 <= k < u.len() && u[k] == id;
                assert(unseen(seen, rows)[k] == id);
            } else {
                assert(unseen(seen, rows).last() == id);
            }
        }
    }
}

/// A walk that was stopped removes nothing.
pub proof fn stopped_walk_removes_nothing(w: WalkView, rows: Seq<(Seq<char>, Seq<char>)>)
    ensures
        gone(walked(w, Step::Stop), rows).len() == 0,
{
}

/// The libraries that are stored but not configured any more: none while none is
/// configured.
pub open spec fn inactive_ids(all: Seq<i64>, active: Seq<i64>) -> Seq<i64>
    decreases all.len(),
{
    if all.len() == 0 || active.len() == 0 {
        Seq::empty()
    } else if active.contains(all.last()) {
        inactive_ids(all.drop_last(), active)
    } else {
        inactive_ids(all.drop_last(), active).push(all.last())
    }
}

/// The libraries that are stored but no longer named.
pub fn inactive_libraries(all: &Vec<i64>, active: &Vec<i64>) -> (r: Vec<i64>)
    ensures
        r@ == inactive_ids(all@, active@),
{
    let mut out: Vec<i64> = Vec::new();
    if active.len() == 0 {
        return out;
    }
    let mut i: usize = 0;
    assert(all@.take(0) =~= Seq::<i64>::empty());
    while i < all.len()
        invariant
            i <= all@.len(),
            active@.len() > 0,
            out@ == inactive_ids(all@.take(i as int), active@),
        decreases all@.len() - i,
    {
        assert(all@.take(i + 1).drop_last() =~= all@.take(i as int));
        let mut found = false;
        let mut k: usize = 0;
        while k < active.len()
            invariant
                k <= active@.len(),
                i < all@.len(),
                found == active@.take(k as int).contains(all@[i as int]),
            decreases active@.len() - k,
        {
            proof {
                let a = active@.take(k as int);
                let b = active@.take(k + 1);
                let x = all@[i as int];
                assert(b =~= a.push(active@[k as int]));
                if a.contains(x) {
                    let j = choose|j: int| 0 <= j < a.len() && a[j] == x;
                    assert(b[j] == x);
                }
                if active@[k as int] == x {
                    assert(b[k as int] == x);
                }
                if b.contains(x) {
                    let j = choose|j: int| 0 <= j < b.len() && b[j] == x;
                    if j < k {
                        assert(a[j] == x);
                    }
                }
            }
            if active[k] == all[i] {
                found = true;
            }
            k += 1;
        }
        assert(active@.take(k as int) =~= active@);
        if !found {
            out.push(all[i]);
        }
        i += 1;
    }
    assert(all@.take(i as int) =~= all@);
    out
}

// ---- what was counted ----

#[derive(Debug, Clone, Copy, PartialEq, Eq, Structural)]
pub struct ScanStats {
    pub movies_indexed: usize,
    pub movies_skipped: usize,
    pub episodes_indexed: usize,
    pub episodes_skipped: usize,
    pub shows_indexed: usize,
    pub shows_skipped: usize,
}

impl Default for ScanStats {
    fn default() -> (r: Self)
        ensures
            r == (ScanStats {
                movies_indexed: 0,
                movies_skipped: 0,
                episodes_indexed: 0,
                episodes_skipped: 0,
                shows_indexed: 0,
                shows_skipped: 0,
            }),
    {
        ScanStats {
            movies_indexed: 0,
            movies_skipped: 0,
            episodes_indexed: 0,
            episodes_skipped: 0,
            shows_indexed: 0,
            shows_skipped: 0,
        }
    }
}

/// What was counted.
#[derive(Debug, Clone, Copy, PartialEq, Eq, Structural)]
pub enum Counted {
    Movie,
    Episode,
    Show,
}

/// The next number, where there is one.
pub open spec fn one_more(n: usize) -> usize {
    if n == usize::MAX {
        n
    } else {
        (n + 1) as usize
    }
}

fn more(n: usize) -> (r: usize)
    ensures
        r == one_more(n),
{
    if n == usize::MAX {
        n
    } else {
        n + 1
    }
}

/// The counts with one more of a kind, written anew or left alone.
pub open spec fn counted(s: ScanStats, what: Counted, indexed: bool) -> ScanStats {
    match (what, indexed) {
        (Counted::Movie, true) => ScanStats { movies_indexed: one_more(s.movies_indexed), ..s },
        (Counted::Movie, false) => ScanStats { movies_skipped: one_more(s.movies_skipped), ..s },
        (Counted::Episode, true) => ScanStats {
            episodes_indexed: one_more(s.episodes_indexed),
            ..s
        },
        (Counted::Episode, false) => ScanStats {
            episodes_skipped: one_more(s.episodes_skipped),
            ..s
        },
        (Counted::Show, true) => ScanStats { shows_indexed: one_more(s.shows_indexed), ..s },
        (Counted::Show, false) => ScanStats { shows_skipped: one_more(s.shows_skipped), ..s },
    }
}

fn sum(a: usize, b: usize) -> (r: usize)
    ensures
        r == capped_sum(a as int, b as int),
{
    if a > usize::MAX - b {
        usize::MAX
    } else {
        a + b
    }
}

/// A sum, or the greatest number where it is greater.
pub open spec fn capped_sum(a: int, b: int) -> int {
    if a + b > usize::MAX {
        usize::MAX as int
    } else {
        a + b
    }
}

impl ScanStats {
    /// Counts one more.
    pub fn count(&mut self, what: Counted, indexed: bool)
        ensures
            *final(self) == counted(*old(self), what, indexed),
    {
        match (what, indexed) {
            (Counted::Movie, true) => {
                self.movies_indexed = more(self.movies_indexed);
            },
            (Counted::Movie, false) => {
                self.movies_skipped = more(self.movies_skipped);
            },
            (Counted::Episode, true) => {
                self.episodes_indexed = more(self.episodes_indexed);
            },
            (Counted::Episode, false) => {
                self.episodes_skipped = more(self.episodes_skipped);
            },
            (Counted::Show, true) => {
                self.shows_indexed = more(self.shows_indexed);
            },
            (Counted::Show, false) => {
                self.shows_skipped = more(self.shows_skipped);
            },
        }
    }

    /// Adds what another library counted.
    pub fn merge(&mut self, s: ScanStats)
        ensures
            final(self).movies_indexed == capped_sum(
                old(self).movies_indexed as int,
                s.movies_indexed as int,
            ),
            final(self).movies_skipped == capped_sum(
                old(self).movies_skipped as int,
                s.movies_skipped as int,
            ),
            final(self).episodes_indexed == capped_sum(
                old(self).episodes_indexed as int,
                s.episodes_indexed as int,
            ),
            final(self).episodes_skipped == capped_sum(
                old(self).episodes_skipped as int,
                s.episodes_skipped as int,
            ),
            final(self).shows_indexed == capped_sum(
                old(self).shows_indexed as int,
                s.shows_indexed as int,
            ),
            final(self).shows_skipped == capped_sum(
                old(self).shows_skipped as int,
                s.shows_skipped as int,
            ),
    {
        self.movies_indexed = sum(self.movies_indexed, s.movies_indexed);
        self.movies_skipped = sum(self.movies_skipped, s.movies_skipped);
        self.episodes_indexed = sum(self.episodes_indexed, s.episodes_indexed);
        self.episodes_skipped = sum(self.episodes_skipped, s.episodes_skipped);
        self.shows_indexed = sum(self.shows_indexed, s.shows_indexed);
        self.shows_skipped = sum(self.shows_skipped, s.shows_skipped);
    }
}

/// How much was written anew.
pub open spec fn total_indexed(s: ScanStats) -> int {
    capped_sum(
        capped_sum(s.movies_indexed as int, s.episodes_indexed as int),
        s.shows_indexed as int,
    )
}

/// How much was left alone.
pub open spec fn total_skipped(s: ScanStats) -> int {
    capped_sum(
        capped_sum(s.movies_skipped as int, s.episodes_skipped as int),
        s.shows_skipped as int,
    )
}

/// What is said of a scan.
pub open spec fn summary_text(indexed: int, skipped: int) -> Seq<char> {
    if indexed == 0 && skipped == 0 {
        "nothing to scan"@
    } else if indexed == 0 {
        "everything up to date ("@ + text::decimal(skipped as nat) + " unchanged)"@
    } else {
        text::decimal(indexed as nat) + " indexed · "@ + text::decimal(skipped as nat)
            + " unchanged"@
    }
}

/// What is said of a scan with the given counts.
pub fn summary(s: &ScanStats) -> (r: String)
    ensures
        r@ == summary_text(total_indexed(*s), total_skipped(*s)),
{
    let indexed: u64 = sum(sum(s.movies_indexed, s.episodes_indexed), s.shows_indexed) as u64;
    let skipped: u64 = sum(sum(s.movies_skipped, s.episodes_skipped), s.shows_skipped) as u64;
    if indexed == 0 && skipped == 0 {
        return text::own("nothing to scan");
    }
    if indexed == 0 {
        let mut out = text::own("everything up to date (");
        text::push_u64(&mut out, skipped);
        out.push_str(" unchanged)");
        return out;
    }
    let mut out = text::u64_text(indexed);
    out.push_str(" indexed · ");
    text::push_u64(&mut out, skipped);
    out.push_str(" unchanged");
    out
}

// ---- assets ----

/// A file for which assets have to be made.
#[derive(Debug)]
pub struct AssetJob {
    pub media_id: String,
    pub video: String,
    pub title: String,
    pub has_sidecar_image: bool,
    pub needs_essential: bool,
    pub needs_thumbnails: bool,
    pub needs_trickplay: bool,
}

/// The name of a file, as the progress shows it.
pub open spec fn shown_name(path: Seq<char>) -> Seq<char> {
    match paths::file_name_of(path) {
        Some(n) => n,
        None => ""@,
    }
}

/// How a file is shown while it is worked on.
pub fn display_name(path: &str) -> (r: String)
    ensures
        r@ == shown_name(path@),
{
    match paths::file_name(path) {
        Some(n) => n,
        None => text::own(""),
    }
}

/// The work that has to be done for a file, if there is any.
pub fn asset_job(out: UpsertOutcome, video: &str) -> (r: Option<AssetJob>)
    ensures
        r is Some == (out.needs_essential || out.needs_thumbnails || out.needs_trickplay),
        r matches Some(j) ==> {
            &&& j.media_id@ == out.id@
            &&& j.video@ == video@
            &&& j.title@ == shown_name(video@)
            &&& j.has_sidecar_image == out.has_sidecar_image
            &&& j.needs_essential == out.needs_essential
            &&& j.needs_thumbnails == out.needs_thumbnails
            &&& j.needs_trickplay == out.needs_trickplay
        },
{
    if out.needs_essential || out.needs_thumbnails || out.needs_trickplay {
        Some(
            AssetJob {
                media_id: out.id,
                video: text::own(video),
                title: display_name(video),
                has_sidecar_image: out.has_sidecar_image,
                needs_essential: out.needs_essential,
                needs_thumbnails: out.needs_thumbnails,
                needs_trickplay: out.needs_trickplay,
            },
        )
    } else {
        None
    }
}

/// What is made of a file.
#[derive(Debug, Clone, Copy, PartialEq, Eq, Structural)]
pub enum Asset {
    Essential,
    Thumbnails,
    Trickplay,
}

/// A job asks for an asset.
pub open spec fn wants(j: AssetJob, a: Asset) -> bool {
    match a {
        Asset::Essential => j.needs_essential,
        Asset::Thumbnails => j.needs_thumbnails,
        Asset::Trickplay => j.needs_trickplay,
    }
}

/// How many of the jobs ask for an asset.
pub open spec fn wanting(v: Seq<AssetJob>, a: Asset) -> nat
    decreases v.len(),
{
    if v.len() == 0 {
        0
    } else {
        wanting(v.drop_last(), a) + if wants(v.last(), a) {
            1nat
        } else {
            0
        }
    }
}

impl AssetJob {
    /// Whether the job's turn in a pass makes something: it asks for it, and the scan is
    /// not cancelled.
    pub fn runs(&self, a: Asset, cancelled: bool) -> (r: bool)
        ensures
            r == (wants(*self, a) && !cancelled),
    {
        let wanted = match a {
            Asset::Essential => self.needs_essential,
            Asset::Thumbnails => self.needs_thumbnails,
            Asset::Trickplay => self.needs_trickplay,
        };
        wanted && !cancelled
    }

    /// Whether a thumbnail is taken from the video: not where an image stands beside it.
    pub fn takes_thumbnail(&self) -> (r: bool)
        ensures
            r == !self.has_sidecar_image,
    {
        !self.has_sidecar_image
    }
}

/// How many files a pass works on.
pub fn pass_total(jobs: &Vec<AssetJob>, a: Asset) -> (r: usize)
    ensures
        r == wanting(jobs@, a),
{
    let mut n: usize = 0;
    let mut i: usize = 0;
    assert(jobs@.take(0) =~= Seq::<AssetJob>::empty());
    while i < jobs.len()
        invariant
            i <= jobs@.len(),
            n <= i,
            n == wanting(jobs@.take(i as int), a),
        decreases jobs@.len() - i,
    {
        assert(jobs@.take(i + 1).drop_last() =~= jobs@.take(i as int));
        if jobs[i].runs(a, false) {
            n += 1;
        }
        i += 1;
    }
    assert(jobs@.take(i as int) =~= jobs@);
    n
}

/// The label of a season that is compared.
pub fn season_label(title: &str, season: i64) -> (r: String)
    ensures
        r@ == title@ + " — Season "@ + text::decimal_int(season as int),
{
    let mut out = text::own(title);
    out.push_str(" — Season ");
    text::push_i64(&mut out, season);
    out
}

/// The ids of a season's episodes that were not compared: their markers are cleared.
pub open spec fn not_among(ids: Seq<Seq<char>>, done: Seq<Seq<char>>) -> Seq<Seq<char>>
    decreases ids.len(),
{
    if ids.len() == 0 {
        ids
    } else if done.contains(ids.last()) {
        not_among(ids.drop_last(), done)
    } else {
        not_among(ids.drop_last(), done).push(ids.last())
    }
}

/// Those that have not been looked at yet.
pub fn unanalyzed(ids: &Vec<String>, done: &Vec<String>) -> (r: Vec<String>)
    ensures
        types::texts(r@) == not_among(types::texts(ids@), types::texts(done@)),
{
    let mut out: Vec<String> = Vec::new();
    let ghost all = types::texts(ids@);
    let ghost there = types::texts(done@);
    let mut i: usize = 0;
    assert(all.take(0) =~= Seq::<Seq<char>>::empty());
    assert(types::texts(out@) =~= not_among(all.take(0), there));
    while i < ids.len()
        invariant
            i <= ids@.len(),
            all == types::texts(ids@),
            there == types::texts(done@),
            types::texts(out@) == not_among(all.take(i as int), there),
        decreases ids@.len() - i,
    {
        proof {
            assert(all.take(i + 1).drop_last() =~= all.take(i as int));
            assert(all.take(i + 1).last() == ids@[i as int]@);
        }
        if !types::holds_text(done, ids[i].as_str()) {
            types::push_text(&mut out, ids[i].as_str());
        }
        i += 1;
    }
    assert(all.take(i as int) =~= all);
    out
}

// ---- timings ----

/// What came of probing one file and taking its subtitles.
#[derive(Debug)]
pub struct EssentialOutcome {
    pub tech_info: Option<MediaTechInfo>,
    pub sub_tracks: u32,
    pub probe_ms: u64,
    pub subtitles_ms: u64,
    /// The time of change and the size of the file before it was probed.
    pub signature: (i64, i64),
}

/// The running time in milliseconds.
pub open spec fn duration_ms_of(info: Option<MediaTechInfo>) -> Option<int> {
    match info {
        Some(i) => match i.duration_us {
            Some(d) => Some(
                if d > 0 {
                    d as int / 1000
                } else {
                    0
                },
            ),
            None => None,
        },
        None => None,
    }
}

/// `t` says what the source is like.
pub open spec fn tells_source(t: ScanTiming, info: Option<MediaTechInfo>) -> bool {
    &&& types::opt_text(t.video_codec) == remux::video_codec(info)
    &&& types::opt_text(t.audio_codec) == remux::audio_codec(info)
    &&& types::opt_text(t.container) == remux::container_of(info)
    &&& match t.duration_ms {
        Some(d) => duration_ms_of(info) == Some(d as int),
        None => duration_ms_of(info) is None,
    }
    &&& match info {
        Some(i) => {
            &&& t.bitrate_kbps == i.bitrate_kbps
            &&& match i.video {
                Some(v) => {
                    &&& t.width == v.width
                    &&& t.height == v.height
                    &&& types::opt_text(t.pixel_format) == types::opt_text(v.pix_fmt)
                },
                None => t.width is None && t.height is None && t.pixel_format is None,
            }
        },
        None => t.width is None && t.height is None && t.pixel_format is None
            && t.bitrate_kbps is None,
    }
}

/// A record with no times in it, of a source.
fn source_timing(info: &Option<MediaTechInfo>, trigger: &str) -> (r: ScanTiming)
    ensures
        tells_source(r, *info),
        r.trigger@ == trigger@,
        r.probe_ms == 0,
        r.subtitles_ms == 0,
        r.subtitle_tracks == 0,
        r.thumbnail_ms == 0,
        r.trickplay_ms == 0,
        r.save_ms == 0,
        r.total_ms == 0,
        r.keyframe_count is None,
{
    let mut t = ScanTiming {
        probe_ms: 0,
        subtitles_ms: 0,
        subtitle_tracks: 0,
        thumbnail_ms: 0,
        trickplay_ms: 0,
        save_ms: 0,
        total_ms: 0,
        video_codec: None,
        audio_codec: None,
        container: None,
        width: None,
        height: None,
        duration_ms: None,
        bitrate_kbps: None,
        pixel_format: None,
        keyframe_count: None,
        trigger: text::own(trigger),
    };
    if let Some(i) = info {
        t.audio_codec = media_info::main_audio_codec(&i.audio);
        t.container = types::copy_opt(&i.container);
        t.bitrate_kbps = i.bitrate_kbps;
        t.duration_ms =
        match i.duration_us {
            Some(d) => Some(
                if d > 0 {
                    (d / 1000) as u64
                } else {
                    0
                },
            ),
            None => None,
        };
        if let Some(v) = &i.video {
            t.video_codec = Some(text::own(v.codec.as_str()));
            t.width = v.width;
            t.height = v.height;
            t.pixel_format = types::copy_opt(&v.pix_fmt);
        }
    }
    t
}

/// `t` tells of probing a file and taking its subtitles.
pub open spec fn tells_essential(t: ScanTiming, o: EssentialOutcome, total_ms: u64) -> bool {
    &&& tells_source(t, o.tech_info)
    &&& t.probe_ms == o.probe_ms
    &&& t.subtitles_ms == o.subtitles_ms
    &&& t.subtitle_tracks == o.sub_tracks
    &&& t.thumbnail_ms == 0
    &&& t.trickplay_ms == 0
    &&& t.save_ms == 0
    &&& t.total_ms == total_ms
    &&& t.keyframe_count is None
}

fn outcome_timing(o: &EssentialOutcome, total_ms: u64, trigger: &str) -> (r: ScanTiming)
    ensures
        tells_essential(r, *o, total_ms),
        r.trigger@ == trigger@,
{
    let mut t = source_timing(&o.tech_info, trigger);
    t.probe_ms = o.probe_ms;
    t.subtitles_ms = o.subtitles_ms;
    t.subtitle_tracks = o.sub_tracks;
    t.total_ms = total_ms;
    t
}

/// The record of probing a file and taking its subtitles during a scan.
pub fn essential_timing(o: &EssentialOutcome, total_ms: u64) -> (r: ScanTiming)
    ensures
        tells_essential(r, *o, total_ms),
        r.trigger@ == "scan_essential"@,
{
    outcome_timing(o, total_ms, "scan_essential")
}

/// The record of probing a file anew because what was stored of it was stale when it was
/// asked for.
pub fn refresh_timing(o: &EssentialOutcome, total_ms: u64) -> (r: ScanTiming)
    ensures
        tells_essential(r, *o, total_ms),
        r.trigger@ == "stale_read"@,
{
    outcome_timing(o, total_ms, "stale_read")
}

/// The record of taking a thumbnail.
pub fn thumbnail_timing(info: &Option<MediaTechInfo>, thumbnail_ms: u64) -> (r: ScanTiming)
    ensures
        tells_source(r, *info),
        r.probe_ms == 0,
        r.subtitles_ms == 0,
        r.subtitle_tracks == 0,
        r.thumbnail_ms == thumbnail_ms,
        r.trickplay_ms == 0,
        r.save_ms == 0,
        r.total_ms == thumbnail_ms,
        r.keyframe_count is None,
        r.trigger@ == "scan_thumbnail"@,
{
    let mut t = source_timing(info, "scan_thumbnail");
    t.thumbnail_ms = thumbnail_ms;
    t.total_ms = thumbnail_ms;
    t
}

/// The record of making previews.
pub fn trickplay_timing(
    info: &Option<MediaTechInfo>,
    trickplay_ms: u64,
    keyframe_count: Option<u32>,
) -> (r: ScanTiming)
    ensures
        tells_source(r, *info),
        r.probe_ms == 0,
        r.subtitles_ms == 0,
        r.subtitle_tracks == 0,
        r.thumbnail_ms == 0,
        r.trickplay_ms == trickplay_ms,
        r.save_ms == 0,
        r.total_ms == trickplay_ms,
        r.keyframe_count == keyframe_count,
        r.trigger@ == "scan_trickplay"@,
{
    let mut t = source_timing(info, "scan_trickplay");
    t.trickplay_ms = trickplay_ms;
    t.total_ms = trickplay_ms;
    t.keyframe_count = keyframe_count;
    t
}

// ---- further laws ----

/// A walk takes videos and nothing else, no more than it may, and none once it is cancelled;
/// one that was stopped has not seen the whole library, and never has again.
pub proof fn walks_take_videos_up_to_the_limit(
    w: WalkView,
    cancelled: bool,
    is_file: bool,
    path: Seq<char>,
)
    requires
        w.seen < u64::MAX,
        w.max matches Some(m) ==> w.seen <= m,
    ensures
        ({
            let step = step_for(w, cancelled, is_file, path);
            let n = walked(w, step);
            &&& step is Take ==> is_file && files::is_video_path(path) && !cancelled
            &&& step is Take <==> n.seen == w.seen + 1
            &&& step !is Take ==> n.seen == w.seen
            &&& n.max matches Some(m) ==> n.seen <= m
            &&& n.completed <==> w.completed && step !is Stop
            &&& cancelled ==> step is Stop
            &&& !cancelled && !is_file ==> step is Skip
            &&& !cancelled && w.max is None ==> step !is Stop
            &&& n.paths == w.paths && n.max == w.max
        }),
{
}

/// Libraries that are no longer named go, but none where nothing is named at all.
pub proof fn unnamed_libraries_go(all: Seq<i64>, active: Seq<i64>)
    ensures
        active.len() > 0 ==> inactive_ids(all, active) == all.filter(
            |id: i64| !active.contains(id),
        ),
        active.len() == 0 ==> inactive_ids(all, active).len() == 0,
    decreases all.len(),
{
    reveal(Seq::filter);
    if all.len() > 0 {
        unnamed_libraries_go(all.drop_last(), active);
    } else {
        assert(all =~= Seq::empty());
    }
}

/// The directories that a setting names are its parts that are not empty, without the white
/// space around them.
pub proof fn settings_name_directories(parts: Seq<Seq<char>>)
    ensures
        library_names(parts) == parts.filter(|p: Seq<char>| p.len() > 0).map_values(
            |p: Seq<char>| text::trimmed(p),
        ),
    decreases parts.len(),
{
    reveal(Seq::filter);
    let f = |p: Seq<char>| p.len() > 0;
    let g = |p: Seq<char>| text::trimmed(p);
    if parts.len() > 0 {
        settings_name_directories(parts.drop_last());
    } else {
        assert(parts =~= Seq::empty());
    }
    assert(library_names(parts) =~= parts.filter(f).map_values(g));
}

/// The episodes that were not compared are those that are not among the compared ones.
pub proof fn the_others_were_not_compared(ids: Seq<Seq<char>>, done: Seq<Seq<char>>)
    ensures
        not_among(ids, done) == ids.filter(|id: Seq<char>| !done.contains(id)),
    decreases ids.len(),
{
    reveal(Seq::filter);
    if ids.len() > 0 {
        the_others_were_not_compared(ids.drop_last(), done);
    } else {
        assert(ids =~= Seq::empty());
    }
}

/// A pass works on as many files as ask for its asset.
pub proof fn passes_count_who_asks(v: Seq<AssetJob>)
    ensures
        wanting(v, Asset::Essential) == v.filter(|j: AssetJob| j.needs_essential).len(),
        wanting(v, Asset::Thumbnails) == v.filter(|j: AssetJob| j.needs_thumbnails).len(),
        wanting(v, Asset::Trickplay) == v.filter(|j: AssetJob| j.needs_trickplay).len(),
    decreases v.len(),
{
    reveal(Seq::filter);
    if v.len() > 0 {
        passes_count_who_asks(v.drop_last());
    }
}

/// Whatever is counted raises the number of what was indexed or of what was skipped by one, and
/// not the other; the numbers have not run out.
pub proof fn everything_is_counted_once(s: ScanStats, what: Counted, indexed: bool)
    requires
        s.movies_indexed + s.episodes_indexed + s.shows_indexed < usize::MAX,
        s.movies_skipped + s.episodes_skipped + s.shows_skipped < usize::MAX,
    ensures
        indexed ==> total_indexed(counted(s, what, indexed)) == total_indexed(s) + 1
            && total_skipped(counted(s, what, indexed)) == total_skipped(s),
        !indexed ==> total_skipped(counted(s, what, indexed)) == total_skipped(s) + 1
            && total_indexed(counted(s, what, indexed)) == total_indexed(s),
        what is Movie ==> counted(s, what, indexed).episodes_indexed == s.episodes_indexed
            && counted(s, what, indexed).shows_indexed == s.shows_indexed && counted(
            s,
            what,
            indexed,
        ).episodes_skipped == s.episodes_skipped,
        what is Episode ==> counted(s, what, indexed).movies_indexed == s.movies_indexed && counted(
            s,
            what,
            indexed,
        ).shows_indexed == s.shows_indexed && counted(s, what, indexed).movies_skipped
            == s.movies_skipped,
        what is Show ==> counted(s, what, indexed).movies_indexed == s.movies_indexed && counted(
            s,
            what,
            indexed,
        ).episodes_indexed == s.episodes_indexed && counted(s, what, indexed).movies_skipped
            == s.movies_skipped,
{
}

/// A number above nothing is taken from a setting as it is printed there.
pub proof fn printed_settings_are_taken(n: nat)
    requires
        n <= u64::MAX,
    ensures
        n > 0 ==> positive_setting(Some(text::decimal(n))) == Some(n as int),
        n == 0 ==> positive_setting(Some(text::decimal(n))) is None,
        positive_setting(None) is None,
{
    text::decimal_roundtrip(n);
    assert(text::is_digit(text::decimal(n)[0]));
}

/// What is said of a scan names how much was indexed wherever anything was.
pub proof fn summaries_name_what_was_indexed(indexed: nat, skipped: nat)
    ensures
        indexed > 0 ==> summary_text(indexed as int, skipped as int) == text::decimal(indexed)
            + " indexed · "@ + text::decimal(skipped) + " unchanged"@,
        indexed == 0 && skipped > 0 ==> summary_text(0, skipped as int)
            == "everything up to date ("@ + text::decimal(skipped) + " unchanged)"@,
        summary_text(0, 0) == "nothing to scan"@,
{
}

/// A running time is told in whole milliseconds.
pub proof fn times_are_told_in_milliseconds(info: MediaTechInfo, us: i64)
    requires
        info.duration_us == Some(us),
        us >= 0,
    ensures
        ({
            let ms = duration_ms_of(Some(info))->0;
            duration_ms_of(Some(info)) is Some && ms * 1000 <= us < (ms + 1) * 1000
        }),
{
}

/// What a scan took is told together with the picture, the sound and the container that were
/// found, each of the file itself, and its running time in whole milliseconds.
pub proof fn sources_are_told_as_found(
    t: ScanTiming,
    info: MediaTechInfo,
    v: types::VideoTrackInfo,
    ms: int,
)
    requires
        tells_source(t, Some(info)),
        info.video == Some(v),
    ensures
        t.video_codec is Some && (t.video_codec->0)@ == v.codec@,
        t.width == v.width && t.height == v.height,
        v.pix_fmt matches Some(p) ==> t.pixel_format is Some && (t.pixel_format->0)@ == p@,
        info.container matches Some(c) ==> t.container is Some && (t.container->0)@ == c@,
        t.bitrate_kbps == info.bitrate_kbps,
        info.duration_us matches Some(d) ==> 0 <= ms * 1000 <= d < (ms + 1) * 1000 ==> t.duration_ms
            is Some && t.duration_ms->0 == ms,
        info.duration_us is None ==> t.duration_ms is None,
{
}

/// A library is given up where it is stored and not named any more, and none is where none is
/// named at all.
pub proof fn no_names_give_up_nothing(all: Seq<i64>)
    ensures
        inactive_ids(all, Seq::empty()).len() == 0,
{
}

} // verus!
