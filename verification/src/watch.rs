//! How far a user has watched, and what they go on with. Times are in microseconds.

use crate::text;
use crate::types;
use vstd::prelude::*;

verus! {

/// For how long what a user watched is offered to go on with, in seconds.
pub const ROW_TTL_SECS: i64 = 2_678_400;

/// The most things that are offered to go on with.
pub const ROW_LIMIT: usize = 20;

/// More than nine tenths have been watched.
pub open spec fn is_completed(position: int, duration: int) -> bool {
    duration > 0 && 10 * position > 9 * duration
}

/// What is stored of a report.
#[derive(Debug, Clone, Copy, PartialEq, Eq, Structural)]
pub struct Progress {
    pub position_us: u64,
    pub duration_us: u64,
    pub completed: bool,
}

/// A time that a report may name: known, and not before the start.
pub open spec fn is_valid_time(t: Option<i64>) -> bool {
    t matches Some(x) && x >= 0
}

/// Takes in what a player reports. A time that is no number is `None`.
pub fn report_progress(position_us: Option<i64>, duration_us: Option<i64>) -> (r: Result<
    Progress,
    String,
>)
    ensures
        match r {
            Ok(p) => {
                &&& is_valid_time(position_us) && p.position_us == position_us->0
                &&& is_valid_time(duration_us) && p.duration_us == duration_us->0
                &&& p.completed == is_completed(p.position_us as int, p.duration_us as int)
            },
            Err(why) => if !is_valid_time(position_us) {
                why@ == "position_secs invalid"@
            } else {
                !is_valid_time(duration_us) && why@ == "duration_secs invalid"@
            },
        },
{
    let position: u64 = match position_us {
        Some(x) => if x >= 0 {
            x as u64
        } else {
            return Err(text::own("position_secs invalid"));
        },
        None => {
            return Err(text::own("position_secs invalid"));
        },
    };
    let duration: u64 = match duration_us {
        Some(x) => if x >= 0 {
            x as u64
        } else {
            return Err(text::own("duration_secs invalid"));
        },
        None => {
            return Err(text::own("duration_secs invalid"));
        },
    };
    let completed = duration > 0 && 10 * (position as u128) > 9 * (duration as u128);
    Ok(Progress { position_us: position, duration_us: duration, completed })
}

/// What is stored of something that is marked as watched: all of it, where its running
/// time is known; else one second, watched.
pub fn mark_watched(stored_duration_us: Option<i64>) -> (r: Progress)
    ensures
        r.completed,
        r.position_us == r.duration_us,
        r.duration_us == match stored_duration_us {
            Some(d) => if d > 0 {
                d as int
            } else {
                1_000_000
            },
            None => 1_000_000,
        },
{
    let duration: u64 = match stored_duration_us {
        Some(d) => if d > 0 {
            d as u64
        } else {
            1_000_000
        },
        None => 1_000_000,
    };
    Progress { position_us: duration, duration_us: duration, completed: true }
}

/// What is marked as watched also counts as watched by how far it was watched.
pub proof fn marked_counts_as_watched(duration: int)
    requires
        duration > 0,
    ensures
        is_completed(duration, duration),
{
}

// ---- what a user goes on with ----

/// The title of an episode, with its show and its place in it.
pub open spec fn episode_line(
    show: Seq<char>,
    season: Option<i64>,
    episode: Option<i64>,
    title: Seq<char>,
) -> Seq<char> {
    match (season, episode) {
        (Some(s), Some(e)) => show + " — S"@ + text::decimal_int(s as int) + "E"@
            + text::padded_int(e as int, 2) + " — "@ + title,
        _ => show + " — "@ + title,
    }
}

/// How an episode is called among the offers.
pub fn format_episode_title(show: &str, season: Option<i64>, episode: Option<i64>, ep_title: &str) -> (r:
    String)
    ensures
        r@ == episode_line(show@, season, episode, ep_title@),
{
    let mut out = text::own(show);
    if let (Some(s), Some(e)) = (season, episode) {
        out.push_str(" — S");
        text::push_i64(&mut out, s);
        out.push_str("E");
        text::push_i64_padded(&mut out, e, 2);
    }
    out.push_str(" — ");
    out.push_str(ep_title);
    out
}

/// Something that a user watched, the latest first.
#[derive(Debug)]
pub struct CwRow {
    pub media_id: String,
    pub kind: String,
    pub title: String,
    pub show_id: Option<String>,
    pub show_title: Option<String>,
    pub season_number: Option<i64>,
    pub episode_number: Option<i64>,
    pub position_us: i64,
    pub duration_us: i64,
    pub completed: bool,
}

/// The episode that follows one that was watched, where the user has not watched it.
#[derive(Debug)]
pub struct NextEp {
    pub id: String,
    pub title: String,
    pub season_number: Option<i64>,
    pub episode_number: Option<i64>,
}

/// Something that is offered to go on with.
#[derive(Debug)]
pub struct ContinueItem {
    pub media_id: String,
    pub kind: String,
    pub title: String,
    pub show_id: Option<String>,
    pub position_us: i64,
    pub duration_us: i64,
}

#[verifier::ext_equal]
pub struct ItemView {
    pub media_id: Seq<char>,
    pub kind: Seq<char>,
    pub title: Seq<char>,
    pub show_id: Option<Seq<char>>,
    pub position_us: i64,
    pub duration_us: i64,
}

impl View for ContinueItem {
    type V = ItemView;

    open spec fn view(&self) -> ItemView {
        ItemView {
            media_id: self.media_id@,
            kind: self.kind@,
            title: self.title@,
            show_id: types::opt_text(self.show_id),
            position_us: self.position_us,
            duration_us: self.duration_us,
        }
    }
}

pub open spec fn item_views(v: Seq<ContinueItem>) -> Seq<ItemView> {
    v.map_values(|i: ContinueItem| i@)
}

/// What is offered so far, and the shows that have been dealt with.
#[verifier::ext_equal]
pub struct OfferView {
    pub items: Seq<ItemView>,
    pub shows: Seq<Seq<char>>,
}

/// The title of a row's show.
pub open spec fn show_title_of(r: CwRow) -> Seq<char> {
    match r.show_title {
        Some(t) => t@,
        None => ""@,
    }
}

/// The row itself, as it is offered.
pub open spec fn own_item(r: CwRow, title: Seq<char>, show: Option<Seq<char>>) -> ItemView {
    ItemView {
        media_id: r.media_id@,
        kind: r.kind@,
        title,
        show_id: show,
        position_us: r.position_us,
        duration_us: r.duration_us,
    }
}

/// The next episode, as it is offered: from its start.
pub open spec fn next_item(r: CwRow, n: NextEp, show: Seq<char>) -> ItemView {
    ItemView {
        media_id: n.id@,
        kind: "episode"@,
        title: episode_line(show_title_of(r), n.season_number, n.episode_number, n.title@),
        show_id: Some(show),
        position_us: 0,
        duration_us: 0,
    }
}

/// What is offered after a row: a movie that is not over, or of each show what comes
/// next of it.
pub open spec fn offered(o: OfferView, r: CwRow, next: Option<NextEp>) -> OfferView {
    if o.items.len() >= ROW_LIMIT {
        o
    } else if r.kind@ == "movie"@ {
        if r.completed {
            o
        } else {
            OfferView { items: o.items.push(own_item(r, r.title@, None)), ..o }
        }
    } else if r.kind@ == "episode"@ {
        match r.show_id {
            None => o,
            Some(s) => if o.shows.contains(s@) {
                o
            } else {
                let shows = o.shows.push(s@);
                if !r.completed {
                    let title = episode_line(
                        show_title_of(r),
                        r.season_number,
                        r.episode_number,
                        r.title@,
                    );
                    OfferView { items: o.items.push(own_item(r, title, Some(s@))), shows }
                } else {
                    match next {
                        Some(n) => OfferView { items: o.items.push(next_item(r, n, s@)), shows },
                        None => OfferView { shows, ..o },
                    }
                }
            },
        }
    } else {
        o
    }
}

/// What a row offers depends on the episode that follows it.
pub open spec fn asks_for_next(o: OfferView, r: CwRow) -> bool {
    &&& o.items.len() < ROW_LIMIT
    &&& r.kind@ == "episode"@
    &&& r.completed
    &&& r.show_id matches Some(s) && !o.shows.contains(s@)
}

/// The list of what a user goes on with, while it is put together.
#[derive(Debug)]
pub struct Offers {
    items: Vec<ContinueItem>,
    shows: Vec<String>,
}

impl View for Offers {
    type V = OfferView;

    closed spec fn view(&self) -> OfferView {
        OfferView { items: item_views(self.items@), shows: types::texts(self.shows@) }
    }
}

impl Offers {
    /// Nothing is offered yet.
    pub fn new() -> (r: Self)
        ensures
            r@ == (OfferView { items: Seq::empty(), shows: Seq::empty() }),
    {
        let r = Offers { items: Vec::new(), shows: Vec::new() };
        assert(r@ =~= OfferView { items: Seq::empty(), shows: Seq::empty() });
        r
    }

    /// Whether the list is full.
    pub fn is_full(&self) -> (r: bool)
        ensures
            r == (self@.items.len() >= ROW_LIMIT),
    {
        self.items.len() >= ROW_LIMIT
    }

    /// After which episode of which show the next one is asked for, for a row: season and
    /// episode, zero where they are unknown.
    pub fn asks(&self, r: &CwRow) -> (q: Option<(String, i64, i64)>)
        ensures
            q is Some == asks_for_next(self@, *r),
            q matches Some(x) ==> {
                &&& r.show_id matches Some(s) && x.0@ == s@
                &&& x.1 == match r.season_number {
                    Some(n) => n,
                    None => 0,
                }
                &&& x.2 == match r.episode_number {
                    Some(n) => n,
                    None => 0,
                }
            },
    {
        if self.is_full() || *r.kind.as_str() != *"episode" || !r.completed {
            return None;
        }
        match &r.show_id {
            None => None,
            Some(s) => {
                if types::holds_text(&self.shows, s.as_str()) {
                    return None;
                }
                let season: i64 = match r.season_number {
                    Some(n) => n,
                    None => 0,
                };
                let episode: i64 = match r.episode_number {
                    Some(n) => n,
                    None => 0,
                };
                Some((text::own(s.as_str()), season, episode))
            },
        }
    }

    fn push(&mut self, item: ContinueItem)
        ensures
            final(self)@ == (OfferView { items: old(self)@.items.push(item@), ..old(self)@ }),
    {
        let ghost before = self@;
        self.items.push(item);
        assert(self@ =~= OfferView { items: before.items.push(item@), ..before });
    }

    /// Takes in a row, with the episode that follows it where that was asked for.
    pub fn offer(&mut self, r: &CwRow, next: &Option<NextEp>)
        ensures
            final(self)@ == offered(old(self)@, *r, *next),
    {
        let ghost before = self@;
        if self.is_full() {
            return;
        }
        proof {
            reveal_strlit("movie");
            reveal_strlit("episode");
            assert("movie"@.len() != "episode"@.len());
        }
        if *r.kind.as_str() == *"movie" {
            if !r.completed {
                self.push(
                    ContinueItem {
                        media_id: text::own(r.media_id.as_str()),
                        kind: text::own("movie"),
                        title: text::own(r.title.as_str()),
                        show_id: None,
                        position_us: r.position_us,
                        duration_us: r.duration_us,
                    },
                );
            }
            return;
        }
        if *r.kind.as_str() != *"episode" {
            return;
        }
        let show = match &r.show_id {
            Some(s) => s.as_str(),
            None => {
                return;
            },
        };
        if types::holds_text(&self.shows, show) {
            return;
        }
        types::push_text(&mut self.shows, show);
        let ghost mid = self@;
        assert(mid =~= OfferView { shows: before.shows.push(show@), ..before });
        let show_title = match &r.show_title {
            Some(t) => t.as_str(),
            None => "",
        };
        if !r.completed {
            let title = format_episode_title(
                show_title,
                r.season_number,
                r.episode_number,
                r.title.as_str(),
            );
            self.push(
                ContinueItem {
                    media_id: text::own(r.media_id.as_str()),
                    kind: text::own("episode"),
                    title,
                    show_id: Some(text::own(show)),
                    position_us: r.position_us,
                    duration_us: r.duration_us,
                },
            );
            return;
        }
        if let Some(n) = next {
            let title = format_episode_title(
                show_title,
                n.season_number,
                n.episode_number,
                n.title.as_str(),
            );
            self.push(
                ContinueItem {
                    media_id: text::own(n.id.as_str()),
                    kind: text::own("episode"),
                    title,
                    show_id: Some(text::own(show)),
                    position_us: 0,
                    duration_us: 0,
                },
            );
        }
    }

    /// The list.
    pub fn finish(self) -> (r: Vec<ContinueItem>)
        ensures
            item_views(r@) == self@.items,
    {
        self.items
    }
}

/// What is offered is at most twenty things.
pub proof fn offers_are_few(o: OfferView, r: CwRow, next: Option<NextEp>)
    requires
        o.items.len() <= ROW_LIMIT,
    ensures
        offered(o, r, next).items.len() <= ROW_LIMIT,
{
}

/// Every episode that is offered is of a show that has been dealt with.
pub open spec fn shows_known(o: OfferView) -> bool {
    &&& forall|i: int|
        0 <= i < o.items.len() ==> ((#[trigger] o.items[i]).show_id matches Some(s)
            ==> o.shows.contains(s))
    &&& forall|i: int, j: int|
        0 <= i < j < o.items.len() && (#[trigger] o.items[i]).show_id is Some ==> (
        #[trigger] o.items[j]).show_id != o.items[i].show_id
}

/// No show is offered twice.
pub proof fn one_offer_per_show(o: OfferView, r: CwRow, next: Option<NextEp>)
    requires
        shows_known(o),
    ensures
        shows_known(offered(o, r, next)),
{
    let n = offered(o, r, next);
    if n.items.len() > o.items.len() || n.shows.len() > o.shows.len() {
        assert forall|i: int| 0 <= i < n.items.len() implies ((#[trigger] n.items[i]).show_id
            matches Some(s) ==> n.shows.contains(s)) by {
            if i < o.items.len() {
                assert(n.items[i] == o.items[i]);
                if let Some(s) = o.items[i].show_id {
                    assert(o.shows.contains(s));
                    let k = choose|k: int| 0 <= k < o.shows.len() && o.shows[k] == s;
                    assert(n.shows[k] == s);
                }
            } else if let Some(s) = n.items[i].show_id {
                assert(n.shows.last() == s);
            }
        }
        assert forall|i: int, j: int|
            0 <= i < j < n.items.len() && (#[trigger] n.items[i]).show_id is Some implies (
        #[trigger] n.items[j]).show_id != n.items[i].show_id by {
            if j < o.items.len() {
                assert(o.items[j].show_id != o.items[i].show_id);
            } else {
                assert(n.items[i] == o.items[i]);
                let s = o.items[i].show_id->0;
                assert(o.shows.contains(s));
            }
        }
    }
}

/// Something is watched once less than a tenth of it is left, and no sooner.
pub proof fn watched_from_nine_tenths(position: int, duration: int)
    requires
        duration > 0,
    ensures
        is_completed(position, duration) <==> (duration - position) * 10 < duration,
        !is_completed(position, 0),
{
}

/// What a row offers: an unfinished movie or episode is offered itself, from where it was
/// left; a finished episode offers the next one of its show, from the start; a finished movie
/// offers nothing. Of a show only the first row counts, and what was offered before stays.
pub proof fn rows_offer_what_comes_next(o: OfferView, r: CwRow, next: Option<NextEp>)
    ensures
        ({
            let n = offered(o, r, next);
            let room = o.items.len() < 20;
            let fresh = r.show_id is Some && !o.shows.contains((r.show_id->0)@);
            let last = n.items.last();
            &&& o.items.is_prefix_of(n.items)
            &&& o.items.len() <= n.items.len() <= o.items.len() + 1
            &&& n.items.len() > o.items.len() <==> room && (r.kind@ == "movie"@ && !r.completed
                || r.kind@ == "episode"@ && fresh && (!r.completed || next is Some))
            &&& n.items.len() > o.items.len() && !r.completed ==> last.media_id == r.media_id@
                && last.position_us == r.position_us && last.duration_us == r.duration_us
                && last.kind == r.kind@
            &&& n.items.len() > o.items.len() && r.completed ==> last.media_id == (next->0).id@
                && last.position_us == 0 && last.duration_us == 0 && last.kind == r.kind@
            &&& n.items.len() > o.items.len() && r.kind@ == "movie"@ ==> last.show_id is None
                && last.title == r.title@
            &&& n.items.len() > o.items.len() && r.kind@ == "episode"@ ==> last.show_id == Some(
                (r.show_id->0)@,
            )
            &&& n.shows == if room && r.kind@ == "episode"@ && fresh {
                o.shows.push((r.show_id->0)@)
            } else {
                o.shows
            }
        }),
{
    reveal_strlit("movie");
    reveal_strlit("episode");
    assert("movie"@.len() != "episode"@.len());
}

/// What comes next is asked for only behind an episode that was watched to its end, of a show
/// that has no offer yet, and only while there are fewer than twenty offers.
pub proof fn next_is_asked_for_once(o: OfferView, r: CwRow)
    ensures
        asks_for_next(o, r) ==> r.completed && r.kind@ == "episode"@ && o.items.len() < 20,
        o.items.len() >= 20 ==> !asks_for_next(o, r),
        r.show_id matches Some(s) ==> o.shows.contains(s@) ==> !asks_for_next(o, r),
        r.show_id is None ==> !asks_for_next(o, r),
        r.show_id matches Some(s) ==> !o.shows.contains(s@) && r.completed && r.kind@
            == "episode"@ && o.items.len() < 20 ==> asks_for_next(o, r),
{
}

} // verus!
