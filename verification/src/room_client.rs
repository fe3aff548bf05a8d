//! The member's side of a watch party: what a broadcast does to the client's picture of
//! the room, and what that does to the player.

use crate::syncplay::{
    Broadcast, BroadcastView, Member, MemberView, RoomState,
    StateView,
};
use crate::syncplay;
use crate::text;
use crate::types;
use vstd::prelude::*;

verus! {

/// The most events that are kept for the feed.
pub const MAX_EVENTS: usize = 16;

/// The most events that are shown at once.
pub const SHOWN_EVENTS: usize = 4;

/// The first pause before a lost connection is tried again.
pub const FIRST_BACKOFF_MS: u32 = 500;

/// The longest pause before a lost connection is tried again.
pub const LAST_BACKOFF_MS: u32 = 8000;

/// For how long the player's own events are taken for echoes.
pub const ECHO_GATE_MS: i64 = 300;

/// What a member did to the playback.
#[derive(Debug, Clone, Copy, PartialEq, Eq, Structural)]
pub enum RemoteKind {
    Play { position_ms: i64 },
    Pause { position_ms: i64 },
    Seek { position_ms: i64 },
}

/// One such event, numbered so that two of the same kind differ.
#[derive(Debug, Clone, Copy, PartialEq, Eq, Structural)]
pub struct RemoteEvent {
    pub seq: u64,
    pub kind: RemoteKind,
}

/// One entry of the feed. No two entries of a stay in a room have the same id.
#[derive(Debug)]
pub struct RoomEvent {
    pub id: u64,
    pub text: String,
}

#[verifier::ext_equal]
pub struct EventView {
    pub id: u64,
    pub text: Seq<char>,
}

impl View for RoomEvent {
    type V = EventView;

    open spec fn view(&self) -> EventView {
        EventView { id: self.id, text: self.text@ }
    }
}

/// The feed: its entries, and the last id that was given to one, whether it is still there
/// or not.
#[verifier::ext_equal]
pub struct FeedView {
    pub entries: Seq<EventView>,
    pub last_id: u64,
}

pub open spec fn event_views(v: Seq<RoomEvent>) -> Seq<EventView> {
    v.map_values(|e: RoomEvent| e@)
}

/// A client's picture of the room it is in.
#[derive(Debug)]
pub struct RoomContext {
    pub room_id: Option<String>,
    pub me: Option<Member>,
    pub members: Vec<Member>,
    pub viewers: usize,
    pub current: Option<RoomState>,
    /// When `current` was last renewed, by the client's own clock.
    pub current_received_at: i64,
    /// What the page is to play next.
    pub pending_nav: Option<String>,
    /// The highest version of a choice of media that was applied.
    pub last_applied_version: u64,
    pub last_remote: Option<RemoteEvent>,
    pub events: Vec<RoomEvent>,
    /// The id of the last event, which may have left the feed.
    pub last_event_id: u64,
    /// Whether messages can be sent.
    pub connected: bool,
}

#[verifier::ext_equal]
pub struct ContextView {
    pub room_id: Option<Seq<char>>,
    pub me: Option<MemberView>,
    pub members: Seq<MemberView>,
    pub viewers: int,
    pub current: Option<StateView>,
    pub current_received_at: i64,
    pub pending_nav: Option<Seq<char>>,
    pub last_applied_version: u64,
    pub last_remote: Option<RemoteEvent>,
    pub events: FeedView,
    pub connected: bool,
}

impl View for RoomContext {
    type V = ContextView;

    open spec fn view(&self) -> ContextView {
        ContextView {
            room_id: types::opt_text(self.room_id),
            me: syncplay::opt_member(self.me),
            members: syncplay::member_views(self.members@),
            viewers: self.viewers as int,
            current: syncplay::opt_state(self.current),
            current_received_at: self.current_received_at,
            pending_nav: types::opt_text(self.pending_nav),
            last_applied_version: self.last_applied_version,
            last_remote: self.last_remote,
            events: self.feed(),
            connected: self.connected,
        }
    }
}

/// The picture of a client that is in no room.
pub open spec fn outside() -> ContextView {
    ContextView {
        room_id: None,
        me: None,
        members: Seq::empty(),
        viewers: 0,
        current: None,
        current_received_at: 0,
        pending_nav: None,
        last_applied_version: 0,
        last_remote: None,
        events: FeedView { entries: Seq::empty(), last_id: 0 },
        connected: false,
    }
}

// ---- the feed ----

/// The last `n` of a list.
pub open spec fn last_of(v: Seq<EventView>, n: int) -> Seq<EventView> {
    if v.len() > n {
        v.skip(v.len() - n)
    } else {
        v
    }
}

/// The feed with one more event: the last sixteen of them.
pub open spec fn with_event(f: FeedView, words: Seq<char>) -> FeedView {
    let id = syncplay::next_version(f.last_id);
    FeedView {
        entries: last_of(f.entries.push(EventView { id, text: words }), MAX_EVENTS as int),
        last_id: id,
    }
}

/// The feed without its oldest event.
pub open spec fn without_oldest(f: FeedView) -> FeedView {
    if f.entries.len() > 0 {
        FeedView { entries: f.entries.skip(1), ..f }
    } else {
        f
    }
}

/// The ids of a feed grow by one from entry to entry.
pub open spec fn ids_grow(v: Seq<EventView>) -> bool {
    forall|i: int, j: int|
        0 <= i < j < v.len() ==> (#[trigger] v[j]).id - (#[trigger] v[i]).id == j - i
}

/// The entries have growing ids, of which the newest is the last one that was given.
pub open spec fn is_feed(f: FeedView) -> bool {
    &&& ids_grow(f.entries)
    &&& f.entries.len() > 0 ==> f.entries.last().id == f.last_id
    &&& f.entries.len() <= MAX_EVENTS
}

/// One more event has an id that is greater than that of every event before it, of those
/// that have left the feed too; the feed stays short. The ids have not run out.
pub proof fn event_ids_grow(f: FeedView, words: Seq<char>)
    requires
        is_feed(f),
        f.last_id < u64::MAX,
    ensures
        is_feed(with_event(f, words)),
        with_event(f, words).last_id > f.last_id,
        with_event(f, words).entries.len() > 0,
        with_event(f, words).entries.last() == (EventView {
            id: with_event(f, words).last_id,
            text: words,
        }),
{
    let v = f.entries;
    let all = v.push(EventView { id: syncplay::next_version(f.last_id), text: words });
    assert(ids_grow(all)) by {
        assert forall|i: int, j: int| 0 <= i < j < all.len() implies (#[trigger] all[j]).id - (
        #[trigger] all[i]).id == j - i by {
            if j == v.len() {
                if i < v.len() - 1 {
                    assert(v[v.len() - 1].id - v[i].id == v.len() - 1 - i);
                }
            } else {
                assert(v[j].id - v[i].id == j - i);
            }
        }
    }
    let r = with_event(f, words).entries;
    if all.len() > MAX_EVENTS {
        let d = all.len() - MAX_EVENTS;
        assert forall|i: int, j: int| 0 <= i < j < r.len() implies (#[trigger] r[j]).id - (
        #[trigger] r[i]).id == j - i by {
            assert(all[j + d].id - all[i + d].id == j - i);
        }
    }
}

/// An event that leaves the feed does not give its id back.
pub proof fn expiry_keeps_ids(f: FeedView)
    requires
        is_feed(f),
    ensures
        is_feed(without_oldest(f)),
        without_oldest(f).last_id == f.last_id,
{
    let r = without_oldest(f).entries;
    if f.entries.len() > 0 {
        assert forall|i: int, j: int| 0 <= i < j < r.len() implies (#[trigger] r[j]).id - (
        #[trigger] r[i]).id == j - i by {
            assert(f.entries[j + 1].id - f.entries[i + 1].id == j - i);
        }
    }
}

/// The events that are shown: the last four, the newest first.
pub open spec fn shown_events(v: Seq<EventView>) -> Seq<EventView> {
    last_of(v, SHOWN_EVENTS as int).reverse()
}

/// Minutes and seconds, with hours in front where there are any.
pub open spec fn clock_text(ms: int) -> Seq<char> {
    let total = if ms >= 1000 {
        ms / 1000
    } else {
        0
    };
    let h = total / 3600;
    let m = total % 3600 / 60;
    let s = total % 60;
    let seconds = ":"@ + text::zero_padded(text::decimal(s as nat), 2);
    if h > 0 {
        text::decimal(h as nat) + ":"@ + text::zero_padded(text::decimal(m as nat), 2) + seconds
    } else {
        text::decimal(m as nat) + seconds
    }
}

/// A position, as a clock shows it.
pub fn fmt_position(ms: i64) -> (r: String)
    ensures
        r@ == clock_text(ms as int),
{
    let total: u64 = if ms >= 1000 { (ms / 1000) as u64 } else { 0 };
    let h: u64 = total / 3600;
    let m: u64 = total % 3600 / 60;
    let s: u64 = total % 60;
    let mut out = String::new();
    if h > 0 {
        text::push_u64(&mut out, h);
        out.push_str(":");
        text::push_u64_padded(&mut out, m, 2);
    } else {
        text::push_u64(&mut out, m);
    }
    out.push_str(":");
    text::push_u64_padded(&mut out, s, 2);
    assert(out@ =~= clock_text(ms as int));
    out
}

fn sentence(who: &str, what: &str) -> (r: String)
    ensures
        r@ == who@ + what@,
{
    let mut out = text::own(who);
    out.push_str(what);
    out
}

// ---- what a broadcast does ----

/// `m` is this client's own connection.
pub open spec fn is_self(me: Option<MemberView>, m: MemberView) -> bool {
    match me {
        Some(x) => x.client_id == m.client_id,
        None => false,
    }
}

pub open spec fn opt_event(
    v: FeedView,
    me: Option<MemberView>,
    who: Option<MemberView>,
    what: Seq<char>,
) -> FeedView {
    match who {
        Some(m) => if is_self(me, m) {
            v
        } else {
            with_event(v, m.username + what)
        },
        None => v,
    }
}

/// The picture of what is played after a change with the given version: one that is no
/// fresher than the picture does not count.
pub open spec fn changed(
    s: Option<StateView>,
    version: u64,
    position_ms: i64,
    playing: Option<bool>,
) -> Option<StateView> {
    match s {
        Some(t) => if version > t.version {
            Some(
                StateView {
                    position_ms,
                    playing: match playing {
                        Some(p) => p,
                        None => t.playing,
                    },
                    version,
                    ..t
                },
            )
        } else {
            Some(t)
        },
        None => None,
    }
}

/// The number after `n`, from the start again behind the last one.
pub open spec fn next_seq(n: u64) -> u64 {
    syncplay::next_version(n)
}

/// The picture after another member's change of the playback: own changes are known.
pub open spec fn remote_change(
    c: ContextView,
    from: MemberView,
    version: u64,
    kind: RemoteKind,
    what: Seq<char>,
    seq: u64,
) -> (ContextView, u64) {
    let current = match kind {
        RemoteKind::Play { position_ms } => changed(c.current, version, position_ms, Some(true)),
        RemoteKind::Pause { position_ms } => changed(c.current, version, position_ms, Some(false)),
        RemoteKind::Seek { position_ms } => changed(c.current, version, position_ms, None),
    };
    if is_self(c.me, from) {
        (ContextView { current, ..c }, seq)
    } else {
        (
            ContextView {
                current,
                last_remote: Some(RemoteEvent { seq: next_seq(seq), kind }),
                events: with_event(c.events, from.username + what),
                ..c
            },
            next_seq(seq),
        )
    }
}

/// The picture after a broadcast that arrives at `now`, and the number of the last
/// remote event.
pub open spec fn handled(c: ContextView, b: BroadcastView, seq: u64, now: i64) -> (ContextView, u64) {
    match b {
        BroadcastView::Welcome { you, server_ts, current, members } => {
            let base = ContextView { me: Some(you), members, viewers: members.len() as int, ..c };
            match current {
                Some(s) => (
                    ContextView {
                        last_applied_version: if s.version > c.last_applied_version {
                            s.version
                        } else {
                            c.last_applied_version
                        },
                        pending_nav: Some(s.media_id),
                        current: Some(s),
                        current_received_at: now,
                        ..base
                    },
                    seq,
                ),
                None => (base, seq),
            }
        },
        BroadcastView::Members { members, joined, left } => {
            let one = opt_event(c.events, c.me, joined, " joined"@);
            let two = opt_event(one, c.me, left, " left"@);
            (ContextView { members, viewers: members.len() as int, events: two, ..c }, seq)
        },
        BroadcastView::SetMedia { media_id, server_ts, from, version } => {
            if version <= c.last_applied_version {
                (c, seq)
            } else {
                (
                    ContextView {
                        last_applied_version: version,
                        pending_nav: Some(media_id),
                        current: Some(
                            StateView {
                                media_id,
                                position_ms: 0,
                                playing: true,
                                updated_at: 0,
                                version,
                            },
                        ),
                        current_received_at: now,
                        events: opt_event(c.events, c.me, Some(from), " switched media"@),
                        ..c
                    },
                    seq,
                )
            }
        },
        BroadcastView::Play { position_ms, server_ts, from, version } => remote_change(
            c,
            from,
            version,
            RemoteKind::Play { position_ms },
            " pressed play"@,
            seq,
        ),
        BroadcastView::Pause { position_ms, server_ts, from, version } => remote_change(
            c,
            from,
            version,
            RemoteKind::Pause { position_ms },
            " paused"@,
            seq,
        ),
        BroadcastView::Seek { position_ms, server_ts, from, version } => remote_change(
            c,
            from,
            version,
            RemoteKind::Seek { position_ms },
            " jumped to "@ + clock_text(position_ms as int),
            seq,
        ),
        BroadcastView::Resync { state, live_position_ms, server_ts } => (
            ContextView {
                current: Some(StateView { position_ms: live_position_ms, ..state }),
                current_received_at: now,
                last_remote: Some(
                    RemoteEvent {
                        seq: next_seq(seq),
                        kind: if state.playing {
                            RemoteKind::Play { position_ms: live_position_ms }
                        } else {
                            RemoteKind::Pause { position_ms: live_position_ms }
                        },
                    },
                ),
                ..c
            },
            next_seq(seq),
        ),
        BroadcastView::Pong { .. } => (c, seq),
    }
}

/// What is played is never taken over from a change that is older than the picture of it.
pub proof fn version_never_falls(s: StateView, version: u64, position_ms: i64, playing: Option<bool>)
    ensures
        changed(Some(s), version, position_ms, playing) is Some,
        (changed(Some(s), version, position_ms, playing)->0).version >= s.version,
        version < s.version ==> changed(Some(s), version, position_ms, playing) == Some(s),
{
}

/// Hearing of the same choice of media twice is the same as hearing of it once.
pub proof fn set_media_applies_once(
    c: ContextView,
    media_id: Seq<char>,
    server_ts: i64,
    from: MemberView,
    version: u64,
    seq: u64,
    now: i64,
    later: i64,
)
    ensures
        ({
            let b = BroadcastView::SetMedia { media_id, server_ts, from, version };
            let once = handled(c, b, seq, now);
            handled(once.0, b, once.1, later) == once
        }),
{
}

/// A client that hears of a choice of media that is newer plays it next, and of one that
/// is not newer nothing comes.
pub proof fn set_media_is_gated(
    c: ContextView,
    media_id: Seq<char>,
    server_ts: i64,
    from: MemberView,
    version: u64,
    seq: u64,
    now: i64,
)
    ensures
        ({
            let b = BroadcastView::SetMedia { media_id, server_ts, from, version };
            let r = handled(c, b, seq, now).0;
            &&& version > c.last_applied_version ==> r.pending_nav == Some(media_id)
                && r.last_applied_version == version
            &&& version <= c.last_applied_version ==> r == c
            &&& r.last_applied_version >= c.last_applied_version
        }),
{
}

// ---- server and client together ----

/// A client's picture is of the state that the room is in, but for where in it both are.
pub open spec fn in_step(c: ContextView, s: Option<StateView>) -> bool {
    match (c.current, s) {
        (Some(a), Some(b)) => {
            &&& a.media_id == b.media_id
            &&& a.playing == b.playing
            &&& a.version == b.version
            &&& c.last_applied_version <= b.version
        },
        (None, None) => c.last_applied_version == 0,
        _ => false,
    }
}

/// A client that has just come to a room is shown the state that the room is in, and
/// where the room is.
pub proof fn welcome_brings_into_step(
    c: ContextView,
    s: Option<StateView>,
    you: MemberView,
    members: Seq<MemberView>,
    server_ts: i64,
    seq: u64,
    now: i64,
)
    requires
        c.current is None,
        c.last_applied_version == 0,
    ensures
        ({
            let b = BroadcastView::Welcome {
                you,
                server_ts,
                current: syncplay::opt_shown(s, server_ts),
                members,
            };
            let r = handled(c, b, seq, now).0;
            &&& in_step(r, s)
            &&& s matches Some(t) ==> (r.current->0).position_ms == syncplay::projected(
                t,
                server_ts,
            )
        }),
{
}

/// A client that is in step and is told of what a member did is in step with the room
/// again, and where the room is. The versions have not run out.
pub proof fn changes_keep_step(
    c: ContextView,
    s: Option<StateView>,
    sender: MemberView,
    msg: syncplay::ClientMsg,
    server_ts: i64,
    seq: u64,
    now: i64,
)
    requires
        in_step(c, s),
        s matches Some(t) ==> t.version < u64::MAX,
    ensures
        ({
            let after = syncplay::next_state(s, msg, server_ts);
            match syncplay::told(s, sender, msg, server_ts) {
                Some(b) => {
                    let r = handled(c, b, seq, now).0;
                    &&& in_step(r, after)
                    &&& (r.current->0).position_ms == (after->0).position_ms
                },
                None => in_step(c, after),
            }
        }),
{
}

/// A client that fell out of step, but knows of nothing newer than the room, is brought
/// back by the next reminder.
pub proof fn resync_brings_into_step(
    c: ContextView,
    state: StateView,
    server_ts: i64,
    seq: u64,
    now: i64,
)
    requires
        c.last_applied_version <= state.version,
    ensures
        ({
            let live_position_ms = syncplay::projected(state, server_ts);
            let b = BroadcastView::Resync { state, live_position_ms, server_ts };
            let r = handled(c, b, seq, now).0;
            &&& in_step(r, Some(state))
            &&& (r.current->0).position_ms == live_position_ms
        }),
{
}

fn same_client(me: &Option<Member>, m: &Member) -> (r: bool)
    ensures
        r == is_self(syncplay::opt_member(*me), m@),
{
    match me {
        Some(x) => *x.client_id.as_str() == *m.client_id.as_str(),
        None => false,
    }
}

fn bump_seq(seq: &mut u64)
    ensures
        *final(seq) == next_seq(*old(seq)),
{
    *seq = syncplay::bump(*seq);
}

impl RoomContext {
    pub open spec fn feed(&self) -> FeedView {
        FeedView { entries: event_views(self.events@), last_id: self.last_event_id }
    }

    /// A client that is in no room.
    pub fn new() -> (r: Self)
        ensures
            r@ == outside(),
    {
        let r = RoomContext {
            room_id: None,
            me: None,
            members: Vec::new(),
            viewers: 0,
            current: None,
            current_received_at: 0,
            pending_nav: None,
            last_applied_version: 0,
            last_remote: None,
            events: Vec::new(),
            last_event_id: 0,
            connected: false,
        };
        assert(r@ =~= outside());
        r
    }

    /// Leaves the room and forgets all about it.
    pub fn leave(&mut self)
        ensures
            final(self)@ == outside(),
    {
        self.connected = false;
        self.room_id = None;
        self.me = None;
        self.members = Vec::new();
        self.viewers = 0;
        self.current = None;
        self.current_received_at = 0;
        self.pending_nav = None;
        self.last_applied_version = 0;
        self.last_remote = None;
        self.events = Vec::new();
        self.last_event_id = 0;
        assert(self@ =~= outside());
    }

    /// Joins a room: leaves the one it is in.
    pub fn enter(&mut self, room_id: String)
        ensures
            final(self)@ == (ContextView {
                room_id: Some(room_id@),
                connected: true,
                ..outside()
            }),
    {
        self.leave();
        self.connected = true;
        self.room_id = Some(room_id);
        assert(self@ =~= ContextView { room_id: Some(room_id@), connected: true, ..outside() });
    }

    /// Notes the media that is to be opened next, or that there is none.
    pub fn set_pending_nav(&mut self, v: Option<String>)
        ensures
            final(self)@ == (ContextView { pending_nav: types::opt_text(v), ..old(self)@ }),
    {
        let ghost before = self@;
        self.pending_nav = v;
        assert(self@ =~= ContextView { pending_nav: types::opt_text(v), ..before });
    }

    /// Adds an event to the feed.
    pub fn push_event(&mut self, words: String)
        ensures
            final(self)@ == (ContextView {
                events: with_event(old(self)@.events, words@),
                ..old(self)@
            }),
    {
        let ghost before = self@;
        let id: u64 = syncplay::bump(self.last_event_id);
        let ghost all = before.events.entries.push(EventView { id, text: words@ });
        self.last_event_id = id;
        self.events.push(RoomEvent { id, text: words });
        assert(event_views(self.events@) =~= all);
        while self.events.len() > MAX_EVENTS
            invariant
                event_views(self.events@).len() <= all.len(),
                event_views(self.events@) == all.skip(all.len() - self.events@.len()),
                self.events@.len() >= MAX_EVENTS || self.events@.len() == all.len(),
                self.last_event_id == id,
                self@ == (ContextView { events: self.feed(), ..before }),
            decreases self.events@.len(),
        {
            let ghost prev = self.events@;
            let _ = self.events.remove(0);
            assert(self.events@ =~= prev.skip(1));
            assert(event_views(self.events@) =~= event_views(prev).skip(1));
            assert(event_views(prev).skip(1) =~= all.skip(all.len() - self.events@.len()));
            assert(self@ =~= ContextView { events: self.feed(), ..before });
        }
        assert(self.feed() =~= with_event(before.events, words@));
    }

    /// Takes the oldest event out of the feed.
    pub fn expire_event(&mut self)
        ensures
            final(self)@ == (ContextView {
                events: without_oldest(old(self)@.events),
                ..old(self)@
            }),
    {
        let ghost before = self@;
        if self.events.len() > 0 {
            let ghost prev = self.events@;
            let _ = self.events.remove(0);
            assert(self.events@ =~= prev.skip(1));
            assert(event_views(self.events@) =~= before.events.entries.skip(1));
            assert(self@ =~= ContextView { events: without_oldest(before.events), ..before });
        }
    }

    /// The texts of the events that are shown.
    pub fn visible_events(&self) -> (r: Vec<RoomEvent>)
        ensures
            event_views(r@) == shown_events(self@.events.entries),
    {
        let mut out: Vec<RoomEvent> = Vec::new();
        let n: usize = self.events.len();
        let count: usize = if n > SHOWN_EVENTS { SHOWN_EVENTS } else { n };
        let ghost want = shown_events(self@.events.entries);
        let mut i: usize = 0;
        while i < count
            invariant
                i <= count <= n,
                n == self.events@.len(),
                want == shown_events(self@.events.entries),
                want.len() == count,
                event_views(out@) == want.take(i as int),
            decreases count - i,
        {
            let e = &self.events[n - 1 - i];
            let ghost before = out@;
            let c = RoomEvent { id: e.id, text: text::own(e.text.as_str()) };
            out.push(c);
            proof {
                assert(event_views(out@) =~= event_views(before).push(c@));
                assert(want[i as int] == self@.events.entries[n - 1 - i]);
                assert(want.take(i + 1) =~= want.take(i as int).push(want[i as int]));
            }
            i += 1;
        }
        assert(want.take(i as int) =~= want);
        out
    }

    fn change_current(&mut self, version: u64, position_ms: i64, playing: Option<bool>)
        ensures
            final(self)@ == (ContextView {
                current: changed(old(self)@.current, version, position_ms, playing),
                ..old(self)@
            }),
    {
        let ghost before = self@;
        match self.current.take() {
            Some(s) => {
                if version > s.version {
                    let now_playing = match playing {
                        Some(p) => p,
                        None => s.playing,
                    };
                    self.current =
                    Some(
                        RoomState {
                            media_id: s.media_id,
                            position_ms,
                            playing: now_playing,
                            updated_at: s.updated_at,
                            version,
                        },
                    );
                } else {
                    self.current = Some(s);
                }
            },
            None => {},
        }
        assert(self@ =~= ContextView {
            current: changed(before.current, version, position_ms, playing),
            ..before
        });
    }

    fn announce(&mut self, who: &Member, what: &str)
        ensures
            final(self)@ == (ContextView {
                events: opt_event(old(self)@.events, old(self)@.me, Some(who@), what@),
                ..old(self)@
            }),
    {
        let ghost before = self@;
        if !same_client(&self.me, who) {
            self.push_event(sentence(who.username.as_str(), what));
        } else {
            assert(self@ =~= ContextView {
                events: opt_event(before.events, before.me, Some(who@), what@),
                ..before
            });
        }
    }

    fn remote(&mut self, from: &Member, version: u64, kind: RemoteKind, what: &str, seq: &mut u64)
        ensures
            (final(self)@, *final(seq)) == remote_change(
                old(self)@,
                from@,
                version,
                kind,
                what@,
                *old(seq),
            ),
    {
        let ghost before = self@;
        match kind {
            RemoteKind::Play { position_ms } => {
                self.change_current(version, position_ms, Some(true));
            },
            RemoteKind::Pause { position_ms } => {
                self.change_current(version, position_ms, Some(false));
            },
            RemoteKind::Seek { position_ms } => {
                self.change_current(version, position_ms, None);
            },
        }
        if same_client(&self.me, from) {
            return;
        }
        bump_seq(seq);
        self.last_remote = Some(RemoteEvent { seq: *seq, kind });
        self.push_event(sentence(from.username.as_str(), what));
        assert(self@ =~= remote_change(before, from@, version, kind, what@, *old(seq)).0);
    }

    fn welcome(
        &mut self,
        you: Member,
        current: Option<RoomState>,
        members: Vec<Member>,
        server_ts: i64,
        seq: u64,
        now: i64,
    )
        ensures
            (final(self)@, seq) == handled(
                old(self)@,
                (BroadcastView::Welcome {
                    you: you@,
                    server_ts,
                    current: syncplay::opt_state(current),
                    members: syncplay::member_views(members@),
                }),
                seq,
                now,
            ),
    {
        let ghost before = self@;
        let ghost roster = syncplay::member_views(members@);
        self.me = Some(you);
        self.viewers = members.len();
        self.members = members;
        if let Some(s) = current {
            if s.version > self.last_applied_version {
                self.last_applied_version = s.version;
            }
            self.pending_nav = Some(text::own(s.media_id.as_str()));
            self.current = Some(s);
            self.current_received_at = now;
        }
        let ghost b = BroadcastView::Welcome {
            you: you@,
            server_ts,
            current: syncplay::opt_state(current),
            members: roster,
        };
        assert(self@ =~= handled(before, b, seq, now).0);
    }

    /// Takes in a broadcast that arrives at `now`.
    pub fn handle_broadcast(&mut self, b: Broadcast, seq: &mut u64, now: i64)
        ensures
            (final(self)@, *final(seq)) == handled(old(self)@, b@, *old(seq), now),
    {
        let ghost before = self@;
        let ghost view = b@;
        match b {
            Broadcast::Welcome { you, server_ts, current, members } => {
                self.welcome(you, current, members, server_ts, *seq, now);
            },
            Broadcast::Members { members, joined, left } => {
                self.viewers = members.len();
                self.members = members;
                if let Some(m) = &joined {
                    self.announce(m, " joined");
                }
                if let Some(m) = &left {
                    self.announce(m, " left");
                }
                assert(self@ =~= handled(before, view, *seq, now).0);
            },
            Broadcast::SetMedia { media_id, server_ts, from, version } => {
                if version <= self.last_applied_version {
                    return;
                }
                self.last_applied_version = version;
                self.pending_nav = Some(text::own(media_id.as_str()));
                self.current =
                Some(
                    RoomState { media_id, position_ms: 0, playing: true, updated_at: 0, version },
                );
                self.current_received_at = now;
                self.announce(&from, " switched media");
                assert(self@ =~= handled(before, view, *seq, now).0);
            },
            Broadcast::Play { position_ms, server_ts, from, version } => {
                self.remote(&from, version, RemoteKind::Play { position_ms }, " pressed play", seq);
            },
            Broadcast::Pause { position_ms, server_ts, from, version } => {
                self.remote(&from, version, RemoteKind::Pause { position_ms }, " paused", seq);
            },
            Broadcast::Seek { position_ms, server_ts, from, version } => {
                let mut what = text::own(" jumped to ");
                what.push_str(fmt_position(position_ms).as_str());
                self.remote(&from, version, RemoteKind::Seek { position_ms }, what.as_str(), seq);
            },
            Broadcast::Resync { state, live_position_ms, server_ts } => {
                let playing = state.playing;
                let mut applied = state;
                applied.position_ms = live_position_ms;
                self.current = Some(applied);
                self.current_received_at = now;
                let kind = if playing {
                    RemoteKind::Play { position_ms: live_position_ms }
                } else {
                    RemoteKind::Pause { position_ms: live_position_ms }
                };
                bump_seq(seq);
                self.last_remote = Some(RemoteEvent { seq: *seq, kind });
                assert(self@ =~= handled(before, view, *old(seq), now).0);
            },
            Broadcast::Pong { .. } => {},
        }
    }

    /// Whether the page tells the room what it plays: it is in one, and the room does not
    /// play that already.
    pub fn announces_media(&self, media_id: &str) -> (r: bool)
        ensures
            r == (self@.room_id is Some && match self@.current {
                Some(s) => s.media_id != media_id@,
                None => true,
            }),
    {
        if self.room_id.is_none() {
            return false;
        }
        match &self.current {
            Some(s) => *s.media_id.as_str() != *media_id,
            None => true,
        }
    }

    /// What a player that is ready at `now` is brought to: where the room is by then.
    pub fn catch_up(&self, now: i64) -> (r: Option<RemoteKind>)
        ensures
            r == caught_up_to(self@, now),
    {
        match &self.current {
            None => None,
            Some(s) => {
                if !s.playing {
                    return Some(RemoteKind::Pause { position_ms: s.position_ms });
                }
                if self.current_received_at > 0 {
                    let delta: i64 = now.wrapping_sub(self.current_received_at);
                    let add: i64 = if delta > 0 { delta } else { 0 };
                    Some(RemoteKind::Play { position_ms: s.position_ms.wrapping_add(add) })
                } else {
                    Some(RemoteKind::Play { position_ms: s.position_ms })
                }
            },
        }
    }
}

/// What a player that is ready at `now` is brought to.
pub open spec fn caught_up_to(c: ContextView, now: i64) -> Option<RemoteKind> {
    match c.current {
        Some(s) => Some(
            if s.playing {
                RemoteKind::Play {
                    position_ms: if c.current_received_at > 0 {
                        caught_up(s.position_ms, now, c.current_received_at)
                    } else {
                        s.position_ms
                    },
                }
            } else {
                RemoteKind::Pause { position_ms: s.position_ms }
            },
        ),
        None => None,
    }
}

/// A position that was right at `since`, at `now`.
pub open spec fn caught_up(position_ms: i64, now: i64, since: i64) -> i64 {
    let delta = syncplay::wrapped(now - since);
    syncplay::wrapped(
        position_ms + if delta > 0 {
            delta as int
        } else {
            0
        },
    )
}

// ---- the connection ----

/// The pause before the next try, from the one before.
pub open spec fn doubled(ms: int) -> int {
    if 2 * ms < LAST_BACKOFF_MS {
        2 * ms
    } else {
        LAST_BACKOFF_MS as int
    }
}

/// A lost connection: how long to wait before the next try, and the pause to double from
/// then. One that had been up starts from the shortest pause.
pub fn reconnect(backoff_ms: u32, got_welcome: bool) -> (r: (u32, u32))
    requires
        backoff_ms <= LAST_BACKOFF_MS,
    ensures
        r.0 == if got_welcome {
            FIRST_BACKOFF_MS
        } else {
            backoff_ms
        },
        r.1 == doubled(r.0 as int),
        r.1 <= LAST_BACKOFF_MS,
{
    let wait: u32 = if got_welcome { FIRST_BACKOFF_MS } else { backoff_ms };
    let twice: u32 = wait * 2;
    let next: u32 = if twice < LAST_BACKOFF_MS { twice } else { LAST_BACKOFF_MS };
    (wait, next)
}

/// The address of a room's socket, for a page that was loaded over `protocol` from `host`.
pub fn ws_url(protocol: &str, host: &str, room_id: &str) -> (r: String)
    ensures
        r@ == (if protocol@ == "https:"@ {
            "wss"@
        } else {
            "ws"@
        }) + "://"@ + host@ + "/api/syncplay/"@ + room_id@,
{
    let mut out = if *protocol == *"https:" {
        text::own("wss")
    } else {
        text::own("ws")
    };
    out.push_str("://");
    out.push_str(host);
    out.push_str("/api/syncplay/");
    out.push_str(room_id);
    out
}

// ---- the player ----

/// What is done to the player.
#[derive(Debug, Clone, Copy, PartialEq, Eq, Structural)]
pub struct PlayerChange {
    /// The position to jump to, in milliseconds.
    pub seek_ms: Option<i64>,
    pub play: bool,
    pub pause: bool,
}

impl PlayerChange {
    /// Whether the player's own events are taken for echoes for a while.
    pub fn gates(&self) -> (r: bool)
        ensures
            r == (self.seek_ms is Some || self.play || self.pause),
    {
        self.seek_ms.is_some() || self.play || self.pause
    }
}

/// The player at `current_us` is further than `slack_ms` from `target_ms`.
pub open spec fn is_off(current_us: int, target_ms: int, slack_ms: int) -> bool {
    let d = current_us - target_ms * 1000;
    d > slack_ms * 1000 || -d > slack_ms * 1000
}

fn off(current_us: i64, target_ms: i64, slack_ms: i64) -> (r: bool)
    requires
        0 <= slack_ms <= 1000,
    ensures
        r == is_off(current_us as int, target_ms as int, slack_ms as int),
{
    let d: i128 = current_us as i128 - target_ms as i128 * 1000;
    let slack: i128 = slack_ms as i128 * 1000;
    d > slack || -d > slack
}

/// What is done to a player that is at `current_us` microseconds, for an event.
pub open spec fn player_change(kind: RemoteKind, current_us: int, paused: bool) -> PlayerChange {
    match kind {
        RemoteKind::Seek { position_ms } => PlayerChange {
            seek_ms: if is_off(current_us, position_ms as int, 250) {
                Some(position_ms)
            } else {
                None
            },
            play: false,
            pause: false,
        },
        RemoteKind::Play { position_ms } => PlayerChange {
            seek_ms: if is_off(current_us, position_ms as int, 750) {
                Some(position_ms)
            } else {
                None
            },
            play: paused,
            pause: false,
        },
        RemoteKind::Pause { position_ms } => PlayerChange {
            seek_ms: if is_off(current_us, position_ms as int, 500) {
                Some(position_ms)
            } else {
                None
            },
            play: false,
            pause: !paused,
        },
    }
}

/// What an event does to a player that is at `current_us` microseconds: it jumps where it
/// is too far off, and is started or stopped where it is not in the right state.
pub fn apply_remote(kind: RemoteKind, current_us: i64, paused: bool) -> (r: PlayerChange)
    ensures
        r == player_change(kind, current_us as int, paused),
{
    match kind {
        RemoteKind::Seek { position_ms } => PlayerChange {
            seek_ms: if off(current_us, position_ms, 250) {
                Some(position_ms)
            } else {
                None
            },
            play: false,
            pause: false,
        },
        RemoteKind::Play { position_ms } => PlayerChange {
            seek_ms: if off(current_us, position_ms, 750) {
                Some(position_ms)
            } else {
                None
            },
            play: paused,
            pause: false,
        },
        RemoteKind::Pause { position_ms } => PlayerChange {
            seek_ms: if off(current_us, position_ms, 500) {
                Some(position_ms)
            } else {
                None
            },
            play: false,
            pause: !paused,
        },
    }
}

/// Whether the player's own event at `now` is sent to the room: not while a change that came
/// from the room settles.
pub fn sends_own_event(now: i64, applying_until: i64) -> (r: bool)
    ensures
        r == (now >= applying_until),
{
    now >= applying_until
}

// ---- the list of rooms ----

/// One room, as the menu shows it.
#[derive(Debug)]
pub struct RoomListItem {
    pub id: String,
    pub viewers: usize,
    pub current_media_id: Option<String>,
    pub current_media_title: Option<String>,
    pub members: Vec<String>,
}

/// The title of the menu's button.
pub open spec fn menu_title(c: ContextView) -> Seq<char> {
    if c.room_id is Some {
        "Watch party ("@ + text::decimal(c.viewers as nat) + ")"@ + match c.current {
            Some(s) => " · "@ + s.media_id,
            None => " · idle"@,
        }
    } else {
        "Rooms"@
    }
}

/// What the button of the menu of rooms says.
pub fn rooms_title(c: &RoomContext) -> (r: String)
    ensures
        r@ == menu_title(c@),
{
    if c.room_id.is_none() {
        return text::own("Rooms");
    }
    let mut out = text::own("Watch party (");
    text::push_u64(&mut out, c.viewers as u64);
    out.push_str(")");
    match &c.current {
        Some(s) => {
            out.push_str(" · ");
            out.push_str(s.media_id.as_str());
        },
        None => {
            out.push_str(" · idle");
        },
    }
    assert(out@ =~= menu_title(c@));
    out
}

/// The label of a room's row, and whether it is that of an idle room.
pub fn row_label(room: &RoomListItem) -> (r: (String, bool))
    ensures
        match room.current_media_title {
            Some(t) => r.0@ == t@ && !r.1,
            None => r.0@ == "Idle"@ && r.1,
        },
{
    match &room.current_media_title {
        Some(t) => (text::own(t.as_str()), false),
        None => (text::own("Idle"), true),
    }
}

/// The second line of a room's row: who is in it, or how many.
pub open spec fn row_line(room: RoomListItem) -> Seq<char> {
    let names = types::join_texts(types::texts(room.members@), ", "@);
    if names.len() == 0 {
        text::decimal(room.viewers as nat) + " viewer"@ + if room.viewers == 1 {
            ""@
        } else {
            "s"@
        }
    } else {
        names
    }
}

/// Who is in a room, in one line.
pub fn with_line(room: &RoomListItem) -> (r: String)
    ensures
        r@ == row_line(*room),
{
    let names = types::join(&room.members, ", ");
    let v = text::chars_of(names.as_str());
    if v.len() > 0 {
        return names;
    }
    let mut out = text::u64_text(room.viewers as u64);
    out.push_str(" viewer");
    out.push_str(
        if room.viewers == 1 {
            ""
        } else {
            "s"
        },
    );
    assert(out@ =~= row_line(*room));
    out
}

// ---- further laws ----

/// After what is done to it, a player is near enough to where the room is, at most a quarter
/// of a second off for a jump, half a second for a pause and three quarters while playing, and
/// it plays exactly where the room does. A player that is near enough does not jump, and one
/// that is in the right state is neither started nor stopped.
pub proof fn players_follow_the_room(kind: RemoteKind, current_us: int, paused: bool)
    ensures
        ({
            let r = player_change(kind, current_us, paused);
            let (target, slack_ms) = match kind {
                RemoteKind::Seek { position_ms } => (position_ms, 250int),
                RemoteKind::Pause { position_ms } => (position_ms, 500int),
                RemoteKind::Play { position_ms } => (position_ms, 750int),
            };
            let at_us = match r.seek_ms {
                Some(ms) => ms * 1000,
                None => current_us,
            };
            let paused_after = (paused || r.pause) && !r.play;
            &&& target * 1000 - slack_ms * 1000 <= at_us <= target * 1000 + slack_ms * 1000
            &&& r.seek_ms matches Some(ms) ==> ms == target && !(target * 1000 - slack_ms * 1000
                <= current_us <= target * 1000 + slack_ms * 1000)
            &&& kind is Play ==> !paused_after
            &&& kind is Pause ==> paused_after
            &&& kind is Seek ==> paused_after == paused
            &&& r.play ==> paused
            &&& r.pause ==> !paused
        }),
{
}

/// A member's own change is not done to its player again and not told in its feed; another's
/// is, with the position that was sent, as the next event.
pub proof fn only_changes_of_others_arrive(
    c: ContextView,
    position_ms: i64,
    server_ts: i64,
    from: MemberView,
    version: u64,
    seq: u64,
    now: i64,
)
    ensures
        ({
            let own = c.me is Some && (c.me->0).client_id == from.client_id;
            let play = handled(
                c,
                BroadcastView::Play { position_ms, server_ts, from, version },
                seq,
                now,
            );
            let pause = handled(
                c,
                BroadcastView::Pause { position_ms, server_ts, from, version },
                seq,
                now,
            );
            let seek = handled(
                c,
                BroadcastView::Seek { position_ms, server_ts, from, version },
                seq,
                now,
            );
            &&& own ==> play.0.last_remote == c.last_remote && play.0.events == c.events && play.1
                == seq
            &&& own ==> pause.0.last_remote == c.last_remote && pause.0.events == c.events
                && pause.1 == seq
            &&& own ==> seek.0.last_remote == c.last_remote && seek.0.events == c.events && seek.1
                == seq
            &&& !own ==> play.0.last_remote == Some(
                RemoteEvent { seq: play.1, kind: RemoteKind::Play { position_ms } },
            )
            &&& !own ==> pause.0.last_remote == Some(
                RemoteEvent { seq: pause.1, kind: RemoteKind::Pause { position_ms } },
            )
            &&& !own ==> seek.0.last_remote == Some(
                RemoteEvent { seq: seek.1, kind: RemoteKind::Seek { position_ms } },
            )
            &&& !own && seq < u64::MAX ==> play.1 == seq + 1 && pause.1 == seq + 1 && seek.1 == seq
                + 1
        }),
{
}

/// A fresh change moves the picture to where it says and starts or stops it; a jump leaves
/// it playing or not. What is played does not change with it.
pub proof fn fresh_changes_are_taken_over(
    c: ContextView,
    t: StateView,
    position_ms: i64,
    server_ts: i64,
    from: MemberView,
    version: u64,
    seq: u64,
    now: i64,
)
    requires
        c.current == Some(t),
        version > t.version,
    ensures
        ({
            let play = handled(
                c,
                BroadcastView::Play { position_ms, server_ts, from, version },
                seq,
                now,
            ).0;
            let pause = handled(
                c,
                BroadcastView::Pause { position_ms, server_ts, from, version },
                seq,
                now,
            ).0;
            let seek = handled(
                c,
                BroadcastView::Seek { position_ms, server_ts, from, version },
                seq,
                now,
            ).0;
            &&& play.current == Some(StateView { position_ms, playing: true, version, ..t })
            &&& pause.current == Some(StateView { position_ms, playing: false, version, ..t })
            &&& seek.current == Some(StateView { position_ms, version, ..t })
        }),
{
}

/// Whoever comes or goes, the picture has the members that the room has, and their number.
pub proof fn members_are_those_of_the_room(
    c: ContextView,
    members: Seq<MemberView>,
    joined: Option<MemberView>,
    left: Option<MemberView>,
    seq: u64,
    now: i64,
)
    ensures
        ({
            let r = handled(c, BroadcastView::Members { members, joined, left }, seq, now).0;
            &&& r.members == members
            &&& r.viewers == members.len()
            &&& r.current == c.current
            &&& r.pending_nav == c.pending_nav
            &&& joined is None && left is None ==> r.events == c.events
        }),
{
}

/// An event is put at the end of the feed; of what was there before, only the oldest goes,
/// and only where there were sixteen.
pub proof fn feed_keeps_the_last_sixteen(f: FeedView, words: Seq<char>)
    requires
        f.entries.len() <= 16,
    ensures
        ({
            let g = with_event(f, words).entries;
            &&& g.len() == if f.entries.len() < 16 {
                f.entries.len() + 1
            } else {
                16
            }
            &&& g.last().text == words
            &&& forall|i: int|
                0 <= i < g.len() - 1 ==> #[trigger] g[i] == f.entries[i + f.entries.len() - (g.len()
                    - 1)]
        }),
{
}

/// The newest event is shown first, then those before it, up to four.
pub proof fn newest_events_are_shown_first(v: Seq<EventView>)
    ensures
        shown_events(v).len() == if v.len() < 4 {
            v.len()
        } else {
            4
        },
        forall|i: int|
            0 <= i < shown_events(v).len() ==> #[trigger] shown_events(v)[i] == v[v.len() - 1 - i],
{
}

/// A clock shows the hours, minutes and seconds that a position is made of.
pub proof fn clock_shows_the_position(h: nat, m: nat, s: nat, ms: nat)
    requires
        m < 60,
        s < 60,
        ms < 1000,
    ensures
        h > 0 ==> clock_text(((h * 3600 + m * 60 + s) * 1000 + ms) as int) == text::decimal(h) + ":"@
            + text::zero_padded(text::decimal(m), 2) + (":"@ + text::zero_padded(
            text::decimal(s),
            2,
        )),
        h == 0 ==> clock_text(((h * 3600 + m * 60 + s) * 1000 + ms) as int) == text::decimal(m) + (":"@
            + text::zero_padded(text::decimal(s), 2)),
{
    let total = h * 3600 + m * 60 + s;
    let t = total * 1000 + ms;
    assert(t / 1000 == total);
    assert(total / 3600 == h);
    assert(total % 3600 == m * 60 + s);
    assert((m * 60 + s) / 60 == m);
    assert(total % 60 == s);
}

/// What is played goes on while a player gets ready: its position moves on by the time that
/// has passed, and never back.
pub proof fn catching_up_takes_the_time_that_passed(position_ms: i64, now: i64, since: i64)
    requires
        0 <= position_ms <= 0x0fff_ffff_ffff_ffff,
        0 <= since <= 0x0fff_ffff_ffff_ffff,
        0 <= now <= 0x0fff_ffff_ffff_ffff,
    ensures
        now >= since ==> caught_up(position_ms, now, since) == position_ms + (now - since),
        now < since ==> caught_up(position_ms, now, since) == position_ms,
{
}

/// A player that gets ready is brought to where the room is: on where it plays, at rest where
/// it does not, and nowhere where nothing is played.
pub proof fn ready_players_catch_up(c: ContextView, now: i64)
    ensures
        caught_up_to(c, now) is None <==> c.current is None,
        c.current matches Some(s) ==> {
            &&& !s.playing ==> caught_up_to(c, now) == Some(
                RemoteKind::Pause { position_ms: s.position_ms },
            )
            &&& s.playing ==> caught_up_to(c, now)->0 is Play
            &&& s.playing && 0 < c.current_received_at <= now <= 0x0fff_ffff_ffff_ffff && 0
                <= s.position_ms <= 0x0fff_ffff_ffff_ffff ==> (caught_up_to(
                c,
                now,
            )->0)->Play_position_ms == s.position_ms + (now - c.current_received_at)
        },
{
    if let Some(s) = c.current {
        if s.playing && 0 < c.current_received_at <= now <= 0x0fff_ffff_ffff_ffff && 0
            <= s.position_ms <= 0x0fff_ffff_ffff_ffff {
            catching_up_takes_the_time_that_passed(s.position_ms, now, c.current_received_at);
        }
    }
}

/// Each pause is twice the one before, up to eight seconds.
pub proof fn pauses_double_up_to_eight_seconds(ms: int)
    requires
        0 <= ms,
    ensures
        ms <= 4_000 ==> doubled(ms) == 2 * ms,
        ms >= 4_000 ==> doubled(ms) == 8_000,
{
}

/// Who is outside of every room is offered the rooms; who is inside sees how many watch, and
/// what.
pub proof fn menu_tells_what_is_watched(c: ContextView)
    ensures
        menu_title(outside()) == "Rooms"@,
        c.room_id is Some && c.current is None ==> menu_title(c) == "Watch party ("@
            + text::decimal(c.viewers as nat) + ")"@ + " · idle"@,
        c.room_id is Some ==> (c.current matches Some(s) ==> menu_title(c) == "Watch party ("@
            + text::decimal(c.viewers as nat) + ")"@ + (" · "@ + s.media_id)),
{
}

} // verus!
