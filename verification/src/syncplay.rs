//! Watch parties: the rooms, who is in them, what they play and where they are in it.
//!
//! The server's room is the one that counts. Every change of what it plays raises its
//! version, and the members are told with that version.

use crate::ids;
use crate::text;
use crate::types;
use dashmap::DashMap;
use vstd::prelude::*;

verus! {

/// A room that nobody is in goes once it has been empty for longer than this.
pub const STALE_AFTER_MS: i64 = 60_000;

/// A room that was empty at this many wake-ups in a row gets no more of them.
pub const IDLE_TICKS: u32 = 2;

// ---- what a room is made of ----

/// Who a room is, and since when.
#[derive(Debug, Clone)]
pub struct RoomMeta {
    pub id: String,
    pub created_at: i64,
}

/// What a room plays.
#[derive(Debug)]
pub struct RoomState {
    pub media_id: String,
    pub position_ms: i64,
    pub playing: bool,
    /// When the position was right, in milliseconds.
    pub updated_at: i64,
    pub version: u64,
}

#[verifier::ext_equal]
pub struct StateView {
    pub media_id: Seq<char>,
    pub position_ms: i64,
    pub playing: bool,
    pub updated_at: i64,
    pub version: u64,
}

impl View for RoomState {
    type V = StateView;

    open spec fn view(&self) -> StateView {
        StateView {
            media_id: self.media_id@,
            position_ms: self.position_ms,
            playing: self.playing,
            updated_at: self.updated_at,
            version: self.version,
        }
    }
}

/// One connection to a room.
#[derive(Debug)]
pub struct Member {
    pub client_id: String,
    pub user_sub: String,
    pub username: String,
}

#[verifier::ext_equal]
pub struct MemberView {
    pub client_id: Seq<char>,
    pub user_sub: Seq<char>,
    pub username: Seq<char>,
}

impl View for Member {
    type V = MemberView;

    open spec fn view(&self) -> MemberView {
        MemberView {
            client_id: self.client_id@,
            user_sub: self.user_sub@,
            username: self.username@,
        }
    }
}

pub open spec fn member_views(v: Seq<Member>) -> Seq<MemberView> {
    v.map_values(|m: Member| m@)
}

pub open spec fn opt_state(s: Option<RoomState>) -> Option<StateView> {
    match s {
        Some(t) => Some(t@),
        None => None,
    }
}

pub open spec fn opt_member(m: Option<Member>) -> Option<MemberView> {
    match m {
        Some(t) => Some(t@),
        None => None,
    }
}

/// A room.
#[derive(Debug)]
pub struct Room {
    pub meta: RoomMeta,
    pub state: Option<RoomState>,
    pub members: Vec<Member>,
    /// How many connections listen to it.
    pub viewers: usize,
    /// Since when nobody has listened to it, while nobody does.
    pub empty_since: i64,
}

#[verifier::ext_equal]
pub struct RoomView {
    pub id: Seq<char>,
    pub created_at: i64,
    pub state: Option<StateView>,
    pub members: Seq<MemberView>,
    pub viewers: usize,
    pub empty_since: i64,
}

impl View for Room {
    type V = RoomView;

    open spec fn view(&self) -> RoomView {
        RoomView {
            id: self.meta.id@,
            created_at: self.meta.created_at,
            state: opt_state(self.state),
            members: member_views(self.members@),
            viewers: self.viewers,
            empty_since: self.empty_since,
        }
    }
}

/// What a client sends.
#[derive(Debug)]
pub enum ClientMsg {
    Play { position_ms: i64 },
    Pause { position_ms: i64 },
    Seek { position_ms: i64 },
    SetMedia { media_id: String },
    Ping { client_ts: i64 },
    Heartbeat { position_ms: i64 },
}

/// What the server sends.
#[derive(Debug)]
pub enum Broadcast {
    Welcome { you: Member, server_ts: i64, current: Option<RoomState>, members: Vec<Member> },
    Members { members: Vec<Member>, joined: Option<Member>, left: Option<Member> },
    Play { position_ms: i64, server_ts: i64, from: Member, version: u64 },
    Pause { position_ms: i64, server_ts: i64, from: Member, version: u64 },
    Seek { position_ms: i64, server_ts: i64, from: Member, version: u64 },
    SetMedia { media_id: String, server_ts: i64, from: Member, version: u64 },
    Resync { state: RoomState, live_position_ms: i64, server_ts: i64 },
    Pong { client_ts: i64, server_ts: i64 },
}

#[verifier::ext_equal]
pub enum BroadcastView {
    Welcome {
        you: MemberView,
        server_ts: i64,
        current: Option<StateView>,
        members: Seq<MemberView>,
    },
    Members { members: Seq<MemberView>, joined: Option<MemberView>, left: Option<MemberView> },
    Play { position_ms: i64, server_ts: i64, from: MemberView, version: u64 },
    Pause { position_ms: i64, server_ts: i64, from: MemberView, version: u64 },
    Seek { position_ms: i64, server_ts: i64, from: MemberView, version: u64 },
    SetMedia { media_id: Seq<char>, server_ts: i64, from: MemberView, version: u64 },
    Resync { state: StateView, live_position_ms: i64, server_ts: i64 },
    Pong { client_ts: i64, server_ts: i64 },
}

impl View for Broadcast {
    type V = BroadcastView;

    open spec fn view(&self) -> BroadcastView {
        match *self {
            Broadcast::Welcome { you, server_ts, current, members } => BroadcastView::Welcome {
                you: you@,
                server_ts,
                current: opt_state(current),
                members: member_views(members@),
            },
            Broadcast::Members { members, joined, left } => BroadcastView::Members {
                members: member_views(members@),
                joined: opt_member(joined),
                left: opt_member(left),
            },
            Broadcast::Play { position_ms, server_ts, from, version } => BroadcastView::Play {
                position_ms,
                server_ts,
                from: from@,
                version,
            },
            Broadcast::Pause { position_ms, server_ts, from, version } => BroadcastView::Pause {
                position_ms,
                server_ts,
                from: from@,
                version,
            },
            Broadcast::Seek { position_ms, server_ts, from, version } => BroadcastView::Seek {
                position_ms,
                server_ts,
                from: from@,
                version,
            },
            Broadcast::SetMedia { media_id, server_ts, from, version } => BroadcastView::SetMedia {
                media_id: media_id@,
                server_ts,
                from: from@,
                version,
            },
            Broadcast::Resync { state, live_position_ms, server_ts } => BroadcastView::Resync {
                state: state@,
                live_position_ms,
                server_ts,
            },
            Broadcast::Pong { client_ts, server_ts } => BroadcastView::Pong {
                client_ts,
                server_ts,
            },
        }
    }
}

pub open spec fn opt_broadcast(b: Option<Broadcast>) -> Option<BroadcastView> {
    match b {
        Some(x) => Some(x@),
        None => None,
    }
}

// ---- copies ----

/// A state of its own with the same contents.
pub fn copy_state(s: &RoomState) -> (r: RoomState)
    ensures
        r@ == s@,
{
    RoomState {
        media_id: text::own(s.media_id.as_str()),
        position_ms: s.position_ms,
        playing: s.playing,
        updated_at: s.updated_at,
        version: s.version,
    }
}

/// A state of its own with the same contents, where there is one.
pub fn copy_opt_state(s: &Option<RoomState>) -> (r: Option<RoomState>)
    ensures
        opt_state(r) == opt_state(*s),
{
    match s {
        Some(t) => Some(copy_state(t)),
        None => None,
    }
}

/// A member of its own with the same contents.
pub fn copy_member(m: &Member) -> (r: Member)
    ensures
        r@ == m@,
{
    Member {
        client_id: text::own(m.client_id.as_str()),
        user_sub: text::own(m.user_sub.as_str()),
        username: text::own(m.username.as_str()),
    }
}

/// A list of its own with the same members.
pub fn copy_members(v: &Vec<Member>) -> (r: Vec<Member>)
    ensures
        member_views(r@) == member_views(v@),
{
    let mut out: Vec<Member> = Vec::new();
    let mut i: usize = 0;
    while i < v.len()
        invariant
            i <= v@.len(),
            member_views(out@) == member_views(v@).take(i as int),
        decreases v@.len() - i,
    {
        let ghost before = out@;
        let m = copy_member(&v[i]);
        out.push(m);
        proof {
            assert(member_views(out@) =~= member_views(before).push(m@));
            assert(member_views(v@).take(i + 1) =~= member_views(v@).take(i as int).push(
                v@[i as int]@,
            ));
        }
        i += 1;
    }
    assert(member_views(v@).take(i as int) =~= member_views(v@));
    out
}

/// A room of its own with the same contents.
pub fn copy_room(r: &Room) -> (c: Room)
    ensures
        c@ == r@,
{
    let c = Room {
        meta: RoomMeta { id: text::own(r.meta.id.as_str()), created_at: r.meta.created_at },
        state: copy_opt_state(&r.state),
        members: copy_members(&r.members),
        viewers: r.viewers,
        empty_since: r.empty_since,
    };
    assert(c@ =~= r@);
    c
}

// ---- where a room is ----

/// What 64-bit addition leaves of the sum `x`.
pub open spec fn wrapped(x: int) -> i64 {
    if x > i64::MAX {
        (x - 0x1_0000_0000_0000_0000) as i64
    } else if x < i64::MIN {
        (x + 0x1_0000_0000_0000_0000) as i64
    } else {
        x as i64
    }
}

/// Where a room is at `now`: while it plays, its position moves on with the clock; while
/// it is paused, it stands.
pub open spec fn projected(s: StateView, now: i64) -> i64 {
    if s.playing {
        let elapsed = wrapped(now - s.updated_at);
        wrapped(
            s.position_ms + if elapsed > 0 {
                elapsed as int
            } else {
                0
            },
        )
    } else {
        s.position_ms
    }
}

/// Where playing stands at the time `now`.
pub fn project_position(state: &RoomState, now: i64) -> (r: i64)
    ensures
        r == projected(state@, now),
{
    if state.playing {
        let elapsed: i64 = now.wrapping_sub(state.updated_at);
        if elapsed > 0 {
            state.position_ms.wrapping_add(elapsed)
        } else {
            state.position_ms
        }
    } else {
        state.position_ms
    }
}

/// A room that plays never moves back while the clock moves on, and is as far on as the
/// clock is; one that is paused does not move. The clock and the position stay within
/// what 62 bits hold.
pub proof fn projection_follows_clock(s: StateView, now: i64, later: i64)
    requires
        now <= later,
        s.updated_at <= now,
        -0x1fff_ffff_ffff_ffff <= s.position_ms <= 0x1fff_ffff_ffff_ffff,
        -0x1fff_ffff_ffff_ffff <= s.updated_at,
        later <= 0x1fff_ffff_ffff_ffff,
    ensures
        s.playing ==> projected(s, later) - projected(s, now) == later - now,
        !s.playing ==> projected(s, later) == projected(s, now),
{
}

/// The state that a member who joins is shown: where the room is now.
pub open spec fn shown(s: StateView, now: i64) -> StateView {
    StateView { position_ms: projected(s, now), updated_at: now, ..s }
}

pub open spec fn opt_shown(s: Option<StateView>, now: i64) -> Option<StateView> {
    match s {
        Some(t) => Some(shown(t, now)),
        None => None,
    }
}

// ---- what a member does ----

/// The version after `v`.
pub open spec fn next_version(v: u64) -> u64 {
    if v == u64::MAX {
        0
    } else {
        (v + 1) as u64
    }
}

/// What a room plays after a message. Without something to play, only choosing
/// something changes it.
pub open spec fn next_state(s: Option<StateView>, msg: ClientMsg, now: i64) -> Option<StateView> {
    match msg {
        ClientMsg::Play { position_ms } => match s {
            Some(t) => Some(
                StateView {
                    position_ms,
                    playing: true,
                    updated_at: now,
                    version: next_version(t.version),
                    ..t
                },
            ),
            None => None,
        },
        ClientMsg::Pause { position_ms } => match s {
            Some(t) => Some(
                StateView {
                    position_ms,
                    playing: false,
                    updated_at: now,
                    version: next_version(t.version),
                    ..t
                },
            ),
            None => None,
        },
        ClientMsg::Seek { position_ms } => match s {
            Some(t) => Some(
                StateView {
                    position_ms,
                    updated_at: now,
                    version: next_version(t.version),
                    ..t
                },
            ),
            None => None,
        },
        ClientMsg::SetMedia { media_id } => Some(
            StateView {
                media_id: media_id@,
                position_ms: 0,
                playing: true,
                updated_at: now,
                version: match s {
                    Some(t) => next_version(t.version),
                    None => 1,
                },
            },
        ),
        ClientMsg::Ping { .. } => s,
        ClientMsg::Heartbeat { .. } => s,
    }
}

/// What all members are told of a message: nothing where it changes nothing.
pub open spec fn told(
    s: Option<StateView>,
    me: MemberView,
    msg: ClientMsg,
    now: i64,
) -> Option<BroadcastView> {
    match next_state(s, msg, now) {
        Some(t) => match msg {
            ClientMsg::Play { position_ms } => Some(
                BroadcastView::Play { position_ms, server_ts: now, from: me, version: t.version },
            ),
            ClientMsg::Pause { position_ms } => Some(
                BroadcastView::Pause { position_ms, server_ts: now, from: me, version: t.version },
            ),
            ClientMsg::Seek { position_ms } => Some(
                BroadcastView::Seek { position_ms, server_ts: now, from: me, version: t.version },
            ),
            ClientMsg::SetMedia { media_id } => Some(
                BroadcastView::SetMedia {
                    media_id: media_id@,
                    server_ts: now,
                    from: me,
                    version: t.version,
                },
            ),
            ClientMsg::Ping { .. } => None,
            ClientMsg::Heartbeat { .. } => None,
        },
        None => None,
    }
}

/// What the sender alone is answered: a ping is echoed.
pub open spec fn answer(msg: ClientMsg, now: i64) -> Option<BroadcastView> {
    match msg {
        ClientMsg::Ping { client_ts } => Some(BroadcastView::Pong { client_ts, server_ts: now }),
        _ => None,
    }
}

/// What is recorded of a message.
#[derive(Debug)]
pub struct RoomAction {
    pub kind: String,
    pub media_id: Option<String>,
    pub position_ms: Option<i64>,
    pub version: u64,
}

#[verifier::ext_equal]
pub struct ActionView {
    pub kind: Seq<char>,
    pub media_id: Option<Seq<char>>,
    pub position_ms: Option<i64>,
    pub version: u64,
}

impl View for RoomAction {
    type V = ActionView;

    open spec fn view(&self) -> ActionView {
        ActionView {
            kind: self.kind@,
            media_id: types::opt_text(self.media_id),
            position_ms: self.position_ms,
            version: self.version,
        }
    }
}

pub open spec fn opt_action(a: Option<RoomAction>) -> Option<ActionView> {
    match a {
        Some(x) => Some(x@),
        None => None,
    }
}

/// What is recorded of a message: what changed the room, the media it plays and the
/// version it has then.
pub open spec fn recorded(s: Option<StateView>, msg: ClientMsg, now: i64) -> Option<ActionView> {
    match next_state(s, msg, now) {
        Some(t) => match msg {
            ClientMsg::Play { position_ms } => Some(
                ActionView {
                    kind: "room.play"@,
                    media_id: Some(t.media_id),
                    position_ms: Some(position_ms),
                    version: t.version,
                },
            ),
            ClientMsg::Pause { position_ms } => Some(
                ActionView {
                    kind: "room.pause"@,
                    media_id: Some(t.media_id),
                    position_ms: Some(position_ms),
                    version: t.version,
                },
            ),
            ClientMsg::Seek { position_ms } => Some(
                ActionView {
                    kind: "room.seek"@,
                    media_id: Some(t.media_id),
                    position_ms: Some(position_ms),
                    version: t.version,
                },
            ),
            ClientMsg::SetMedia { .. } => Some(
                ActionView {
                    kind: "room.set_media"@,
                    media_id: Some(t.media_id),
                    position_ms: None,
                    version: t.version,
                },
            ),
            ClientMsg::Ping { .. } => None,
            ClientMsg::Heartbeat { .. } => None,
        },
        None => None,
    }
}

/// What comes of a message.
#[derive(Debug)]
pub struct Outcome {
    /// For all members.
    pub publish: Option<Broadcast>,
    /// For the sender alone.
    pub reply: Option<Broadcast>,
    pub action: Option<RoomAction>,
}

/// Which of the three playback messages it is.
#[derive(Debug, Clone, Copy, PartialEq, Eq, Structural)]
enum Change {
    Play,
    Pause,
    Seek,
}

/// The version after `v`.
pub fn bump(v: u64) -> (r: u64)
    ensures
        r == next_version(v),
{
    if v == u64::MAX {
        0
    } else {
        v + 1
    }
}

fn change_state(state: &mut Option<RoomState>, change: Change, position_ms: i64, now: i64) -> (r:
    Option<(u64, String)>)
    ensures
        match opt_state(*old(state)) {
            None => r is None && opt_state(*final(state)) is None,
            Some(t) => {
                &&& r is Some
                &&& (r->0).0 == next_version(t.version)
                &&& (r->0).1@ == t.media_id
                &&& opt_state(*final(state)) == Some(
                    StateView {
                        position_ms,
                        playing: match change {
                            Change::Play => true,
                            Change::Pause => false,
                            Change::Seek => t.playing,
                        },
                        updated_at: now,
                        version: next_version(t.version),
                        ..t
                    },
                )
            },
        },
{
    match state.take() {
        None => None,
        Some(s) => {
            let playing = match change {
                Change::Play => true,
                Change::Pause => false,
                Change::Seek => s.playing,
            };
            let version: u64 = bump(s.version);
            let media = text::own(s.media_id.as_str());
            *state = Some(
                RoomState { media_id: s.media_id, position_ms, playing, updated_at: now, version },
            );
            Some((version, media))
        },
    }
}

fn nothing() -> (r: Outcome)
    ensures
        r.publish is None,
        r.reply is None,
        r.action is None,
{
    Outcome { publish: None, reply: None, action: None }
}

/// Applies a message of the member `me` to what a room plays.
pub fn apply_message(
    state: &mut Option<RoomState>,
    me: &Member,
    msg: ClientMsg,
    now: i64,
) -> (r: Outcome)
    ensures
        opt_state(*final(state)) == next_state(opt_state(*old(state)), msg, now),
        opt_broadcast(r.publish) == told(opt_state(*old(state)), me@, msg, now),
        opt_broadcast(r.reply) == answer(msg, now),
        opt_action(r.action) == recorded(opt_state(*old(state)), msg, now),
{
    match msg {
        ClientMsg::Play { position_ms } => match change_state(
            state,
            Change::Play,
            position_ms,
            now,
        ) {
            None => nothing(),
            Some((version, media)) => Outcome {
                publish: Some(
                    Broadcast::Play { position_ms, server_ts: now, from: copy_member(me), version },
                ),
                reply: None,
                action: Some(
                    RoomAction {
                        kind: text::own("room.play"),
                        media_id: Some(media),
                        position_ms: Some(position_ms),
                        version,
                    },
                ),
            },
        },
        ClientMsg::Pause { position_ms } => match change_state(
            state,
            Change::Pause,
            position_ms,
            now,
        ) {
            None => nothing(),
            Some((version, media)) => Outcome {
                publish: Some(
                    Broadcast::Pause { position_ms, server_ts: now, from: copy_member(me), version },
                ),
                reply: None,
                action: Some(
                    RoomAction {
                        kind: text::own("room.pause"),
                        media_id: Some(media),
                        position_ms: Some(position_ms),
                        version,
                    },
                ),
            },
        },
        ClientMsg::Seek { position_ms } => match change_state(
            state,
            Change::Seek,
            position_ms,
            now,
        ) {
            None => nothing(),
            Some((version, media)) => Outcome {
                publish: Some(
                    Broadcast::Seek { position_ms, server_ts: now, from: copy_member(me), version },
                ),
                reply: None,
                action: Some(
                    RoomAction {
                        kind: text::own("room.seek"),
                        media_id: Some(media),
                        position_ms: Some(position_ms),
                        version,
                    },
                ),
            },
        },
        ClientMsg::SetMedia { media_id } => {
            let version: u64 = match state.as_ref() {
                Some(s) => bump(s.version),
                None => 1,
            };
            *state = Some(
                RoomState {
                    media_id: text::own(media_id.as_str()),
                    position_ms: 0,
                    playing: true,
                    updated_at: now,
                    version,
                },
            );
            Outcome {
                publish: Some(
                    Broadcast::SetMedia {
                        media_id: text::own(media_id.as_str()),
                        server_ts: now,
                        from: copy_member(me),
                        version,
                    },
                ),
                reply: None,
                action: Some(
                    RoomAction {
                        kind: text::own("room.set_media"),
                        media_id: Some(media_id),
                        position_ms: None,
                        version,
                    },
                ),
            }
        },
        ClientMsg::Ping { client_ts } => Outcome {
            publish: None,
            reply: Some(Broadcast::Pong { client_ts, server_ts: now }),
            action: None,
        },
        ClientMsg::Heartbeat { .. } => nothing(),
    }
}

/// The version that a broadcast carries.
pub open spec fn carried_version(b: BroadcastView) -> Option<u64> {
    match b {
        BroadcastView::Play { version, .. } => Some(version),
        BroadcastView::Pause { version, .. } => Some(version),
        BroadcastView::Seek { version, .. } => Some(version),
        BroadcastView::SetMedia { version, .. } => Some(version),
        _ => None,
    }
}

/// Whatever the members are told carries the version that the room has then, one more
/// than before. What they are not told of leaves the room as it was. The version has not
/// run out.
pub proof fn told_iff_version_grows(
    s: Option<StateView>,
    me: MemberView,
    msg: ClientMsg,
    now: i64,
)
    requires
        s matches Some(t) ==> t.version < u64::MAX,
    ensures
        match told(s, me, msg, now) {
            Some(b) => {
                &&& next_state(s, msg, now) is Some
                &&& carried_version(b) == Some((next_state(s, msg, now)->0).version)
                &&& (next_state(s, msg, now)->0).version == 1 + match s {
                    Some(t) => t.version as int,
                    None => 0,
                }
            },
            None => next_state(s, msg, now) == s,
        },
{
}

// ---- who hears what ----

/// A broadcast is passed on to the connection `client_id`: not a ping's answer, and not
/// what the connection itself did to the playback. The choice of something to play goes
/// to its sender too.
pub open spec fn is_passed_on(b: BroadcastView, client_id: Seq<char>) -> bool {
    match b {
        BroadcastView::Pong { .. } => false,
        BroadcastView::Play { from, .. } => from.client_id != client_id,
        BroadcastView::Pause { from, .. } => from.client_id != client_id,
        BroadcastView::Seek { from, .. } => from.client_id != client_id,
        _ => true,
    }
}

/// Whether what was sent to a room is passed on to a client.
pub fn passes_on(b: &Broadcast, client_id: &str) -> (r: bool)
    ensures
        r == is_passed_on(b@, client_id@),
{
    match b {
        Broadcast::Pong { .. } => false,
        Broadcast::Play { from, .. } => *from.client_id.as_str() != *client_id,
        Broadcast::Pause { from, .. } => *from.client_id.as_str() != *client_id,
        Broadcast::Seek { from, .. } => *from.client_id.as_str() != *client_id,
        _ => true,
    }
}

/// Whatever a message changes in the room reaches every other connection, whoever sent it.
/// What the sender did to the playback is not echoed to the sender; the choice of something
/// to play is.
pub proof fn changes_reach_the_others(
    s: Option<StateView>,
    me: MemberView,
    msg: ClientMsg,
    now: i64,
    other: Seq<char>,
)
    ensures
        other != me.client_id && next_state(s, msg, now) != s ==> told(s, me, msg, now) is Some,
        other != me.client_id && told(s, me, msg, now) is Some ==> is_passed_on(
            told(s, me, msg, now)->0,
            other,
        ),
        told(s, me, msg, now) is Some ==> (is_passed_on(told(s, me, msg, now)->0, me.client_id)
            <==> msg is SetMedia),
{
}

/// Who is in a room, how it stands and what a newcomer is told goes to every connection; the
/// answer to a ping goes to none by way of the room.
pub proof fn news_of_the_room_reaches_all(b: BroadcastView, client_id: Seq<char>)
    ensures
        b is Members || b is Resync || b is Welcome || b is SetMedia ==> is_passed_on(b, client_id),
        b is Pong ==> !is_passed_on(b, client_id),
        b matches BroadcastView::Play { from, .. } ==> (is_passed_on(b, client_id)
            <==> from.client_id != client_id),
        b matches BroadcastView::Pause { from, .. } ==> (is_passed_on(b, client_id)
            <==> from.client_id != client_id),
        b matches BroadcastView::Seek { from, .. } ==> (is_passed_on(b, client_id)
            <==> from.client_id != client_id),
{
}

/// Right after a message the room is where the message says: playing after a play, standing
/// after a pause, as before after a seek, and at the start of what was chosen. The media
/// changes only by choice, and a room that plays nothing stays so until something is chosen.
pub proof fn room_does_as_told(s: Option<StateView>, msg: ClientMsg, now: i64)
    ensures
        ({
            let t = next_state(s, msg, now);
            &&& msg matches ClientMsg::SetMedia { media_id } ==> {
                &&& t is Some
                &&& (t->0).media_id == media_id@
                &&& (t->0).playing
                &&& projected(t->0, now) == 0
                &&& (t->0).updated_at == now
            }
            &&& s is None && !(msg is SetMedia) ==> t is None
            &&& s is Some && !(msg is SetMedia) ==> t is Some && (t->0).media_id == (s->0).media_id
            &&& s is Some && msg is Play ==> projected(t->0, now) == msg->Play_position_ms
                && (t->0).playing
            &&& s is Some && msg is Pause ==> projected(t->0, now) == msg->Pause_position_ms
                && !(t->0).playing
            &&& s is Some && msg is Seek ==> projected(t->0, now) == msg->Seek_position_ms
                && (t->0).playing == (s->0).playing
            &&& s is Some && (msg is Play || msg is Pause || msg is Seek) ==> (t->0).updated_at == now
            &&& msg is Ping || msg is Heartbeat ==> t == s
        }),
{
}

/// The members are told exactly what the sender did, from whom and when.
pub proof fn told_is_what_was_done(s: Option<StateView>, me: MemberView, msg: ClientMsg, now: i64)
    ensures
        ({
            let b = told(s, me, msg, now);
            let v = next_state(s, msg, now);
            &&& b is None <==> (msg is Ping || msg is Heartbeat || (s is None && !(msg is SetMedia)))
            &&& s is Some && msg is Play ==> b == Some(
                BroadcastView::Play {
                    position_ms: msg->Play_position_ms,
                    server_ts: now,
                    from: me,
                    version: (v->0).version,
                },
            )
            &&& s is Some && msg is Pause ==> b == Some(
                BroadcastView::Pause {
                    position_ms: msg->Pause_position_ms,
                    server_ts: now,
                    from: me,
                    version: (v->0).version,
                },
            )
            &&& s is Some && msg is Seek ==> b == Some(
                BroadcastView::Seek {
                    position_ms: msg->Seek_position_ms,
                    server_ts: now,
                    from: me,
                    version: (v->0).version,
                },
            )
            &&& msg matches ClientMsg::SetMedia { media_id } ==> b == Some(
                BroadcastView::SetMedia {
                    media_id: media_id@,
                    server_ts: now,
                    from: me,
                    version: (v->0).version,
                },
            )
        }),
{
}

/// Only a ping is answered, with the sender's own time and that of the server.
pub proof fn pings_are_echoed(msg: ClientMsg, now: i64)
    ensures
        answer(msg, now) is Some <==> msg is Ping,
        msg matches ClientMsg::Ping { client_ts } ==> answer(msg, now) == Some(
            BroadcastView::Pong { client_ts, server_ts: now },
        ),
{
}

/// What the members are told of is recorded, and nothing else: under the name of what was
/// done, with the media that plays then and the version that the members were told.
pub proof fn recorded_iff_told(s: Option<StateView>, me: MemberView, msg: ClientMsg, now: i64)
    ensures
        ({
            let r = recorded(s, msg, now);
            &&& r is Some <==> told(s, me, msg, now) is Some
            &&& r is Some ==> Some((r->0).version) == carried_version(told(s, me, msg, now)->0)
            &&& r is Some ==> (r->0).media_id == Some((next_state(s, msg, now)->0).media_id)
            &&& r is Some && msg is Play ==> (r->0).kind == "room.play"@ && (r->0).position_ms
                == Some(msg->Play_position_ms)
            &&& r is Some && msg is Pause ==> (r->0).kind == "room.pause"@ && (r->0).position_ms
                == Some(msg->Pause_position_ms)
            &&& r is Some && msg is Seek ==> (r->0).kind == "room.seek"@ && (r->0).position_ms
                == Some(msg->Seek_position_ms)
            &&& r is Some && msg is SetMedia ==> (r->0).kind == "room.set_media"@
                && (r->0).position_ms is None
        }),
{
}

/// A newcomer is shown the media, the position and the state that the room has at that
/// moment, and goes on from there as the room does.
pub proof fn newcomers_see_the_room(s: StateView, now: i64, later: i64)
    requires
        s.updated_at <= now <= later,
        -0x1fff_ffff_ffff_ffff <= s.position_ms <= 0x1fff_ffff_ffff_ffff,
        -0x1fff_ffff_ffff_ffff <= s.updated_at,
        later <= 0x1fff_ffff_ffff_ffff,
    ensures
        shown(s, now).media_id == s.media_id,
        shown(s, now).playing == s.playing,
        shown(s, now).version == s.version,
        shown(s, now).position_ms == if s.playing {
            s.position_ms + (now - s.updated_at)
        } else {
            s.position_ms as int
        },
        projected(shown(s, now), later) == projected(s, later),
{
}

// ---- the members ----

/// The members but for the connection `client_id`.
pub open spec fn without_client(v: Seq<MemberView>, client_id: Seq<char>) -> Seq<MemberView>
    decreases v.len(),
{
    if v.len() == 0 {
        v
    } else {
        let rest = without_client(v.drop_last(), client_id);
        if v.last().client_id == client_id {
            rest
        } else {
            rest.push(v.last())
        }
    }
}

fn drop_client(v: &Vec<Member>, client_id: &str) -> (r: Vec<Member>)
    ensures
        member_views(r@) == without_client(member_views(v@), client_id@),
{
    let mut out: Vec<Member> = Vec::new();
    let ghost all = member_views(v@);
    let mut i: usize = 0;
    assert(all.take(0) =~= Seq::<MemberView>::empty());
    assert(member_views(out@) =~= without_client(all.take(0), client_id@));
    while i < v.len()
        invariant
            i <= v@.len(),
            all == member_views(v@),
            member_views(out@) == without_client(all.take(i as int), client_id@),
        decreases v@.len() - i,
    {
        proof {
            assert(all.take(i + 1).drop_last() =~= all.take(i as int));
            assert(all.take(i + 1).last() == v@[i as int]@);
        }
        if *v[i].client_id.as_str() != *client_id {
            let ghost before = out@;
            let m = copy_member(&v[i]);
            out.push(m);
            assert(member_views(out@) =~= member_views(before).push(m@));
        }
        i += 1;
    }
    assert(all.take(i as int) =~= all);
    out
}

/// The room with one more connection.
pub open spec fn joined(r: RoomView, me: MemberView) -> RoomView {
    RoomView { members: r.members.push(me), viewers: (r.viewers + 1) as usize, ..r }
}

/// The room without the connection `client_id`, which goes at `now`: with the last one it
/// becomes empty.
pub open spec fn left(r: RoomView, client_id: Seq<char>, now: i64) -> RoomView {
    RoomView {
        members: without_client(r.members, client_id),
        viewers: if r.viewers > 0 {
            (r.viewers - 1) as usize
        } else {
            0
        },
        empty_since: if r.viewers == 1 {
            now
        } else {
            r.empty_since
        },
        ..r
    }
}

proof fn without_absent(v: Seq<MemberView>, client_id: Seq<char>)
    requires
        forall|i: int| 0 <= i < v.len() ==> (#[trigger] v[i]).client_id != client_id,
    ensures
        without_client(v, client_id) == v,
    decreases v.len(),
{
    if v.len() > 0 {
        assert(v[v.len() - 1].client_id != client_id);
        assert forall|i: int| 0 <= i < v.drop_last().len() implies (
        #[trigger] v.drop_last()[i]).client_id != client_id by {
            assert(v[i].client_id != client_id);
        }
        without_absent(v.drop_last(), client_id);
        assert(v.drop_last().push(v.last()) =~= v);
    }
}

/// A connection that joins a room and leaves again leaves it as it was, but that a room in
/// which it was alone has been empty only since then. Its id is new to the room.
pub proof fn join_then_leave(r: RoomView, me: MemberView, now: i64)
    requires
        r.viewers < usize::MAX,
        forall|i: int| 0 <= i < r.members.len() ==> (#[trigger] r.members[i]).client_id
            != me.client_id,
    ensures
        left(joined(r, me), me.client_id, now) == (RoomView {
            empty_since: if r.viewers == 0 {
                now
            } else {
                r.empty_since
            },
            ..r
        }),
{
    let v = r.members.push(me);
    assert(v.drop_last() =~= r.members);
    without_absent(r.members, me.client_id);
    assert(left(joined(r, me), me.client_id, now).members =~= r.members);
}

/// After a connection has left, it is not among the members.
pub proof fn left_is_gone(v: Seq<MemberView>, client_id: Seq<char>, i: int)
    requires
        0 <= i < without_client(v, client_id).len(),
    ensures
        without_client(v, client_id)[i].client_id != client_id,
    decreases v.len(),
{
    let rest = without_client(v.drop_last(), client_id);
    if i < rest.len() {
        left_is_gone(v.drop_last(), client_id, i);
    }
}

/// Whoever leaves takes no one along: the others stay, in their order.
pub proof fn the_others_stay(v: Seq<MemberView>, client_id: Seq<char>)
    ensures
        without_client(v, client_id) == v.filter(|m: MemberView| m.client_id != client_id),
    decreases v.len(),
{
    reveal(Seq::filter);
    if v.len() > 0 {
        the_others_stay(v.drop_last(), client_id);
    }
}

/// One connection more is one viewer more and one member more, the last; one less is one
/// viewer less. What the room plays does not change, nor which room it is.
pub proof fn viewers_are_counted(r: RoomView, me: MemberView, now: i64)
    requires
        r.viewers < usize::MAX,
    ensures
        joined(r, me).viewers == r.viewers + 1,
        joined(r, me).members == r.members.push(me),
        joined(r, me).state == r.state && joined(r, me).id == r.id,
        joined(r, me).created_at == r.created_at,
        r.viewers > 0 ==> left(r, me.client_id, now).viewers == r.viewers - 1,
        left(r, me.client_id, now).state == r.state && left(r, me.client_id, now).id == r.id,
        left(r, me.client_id, now).created_at == r.created_at,
        r.viewers == 1 ==> left(r, me.client_id, now).empty_since == now,
{
}

// ---- which rooms stay ----

/// A room that has been empty for long.
pub open spec fn is_stale(r: RoomView, now: i64) -> bool {
    r.viewers == 0 && wrapped(now - r.empty_since) > STALE_AFTER_MS
}

/// A room that nobody listens to any more and that is old or has played something. One
/// that was just made waits for its first connection.
pub open spec fn is_done(r: RoomView, now: i64) -> bool {
    r.viewers == 0 && (wrapped(now - r.created_at) > STALE_AFTER_MS || r.state is Some)
}

/// A room that was just made.
pub open spec fn new_room(id: Seq<char>, now: i64) -> RoomView {
    RoomView {
        id,
        created_at: now,
        state: None,
        members: Seq::empty(),
        viewers: 0,
        empty_since: now,
    }
}

/// The rooms without those that are stale.
pub open spec fn swept(m: Map<Seq<char>, RoomView>, now: i64) -> Map<Seq<char>, RoomView> {
    m.restrict(Set::new(|k: Seq<char>| m.contains_key(k) && !is_stale(m[k], now)))
}

fn keeps(r: &Room, now: i64) -> (k: bool)
    ensures
        k == !is_stale(r@, now),
{
    let long = now.wrapping_sub(r.empty_since) > STALE_AFTER_MS;
    !(r.viewers == 0 && long)
}

fn drops(r: &Room, now: i64) -> (k: bool)
    ensures
        k == is_done(r@, now),
{
    let old = now.wrapping_sub(r.meta.created_at) > STALE_AFTER_MS;
    r.viewers == 0 && (old || r.state.is_some())
}

// ---- the map of rooms ----

/// `dashmap::DashMap`. What such a map holds is [`rooms_in`].
#[verifier::external_type_specification]
#[verifier::external_body]
#[verifier::reject_recursive_types(K)]
#[verifier::reject_recursive_types(V)]
#[verifier::reject_recursive_types(S)]
pub struct ExDashMap<K, V, S>(dashmap::DashMap<K, V, S>);

/// The rooms that a map holds, each under its key.
pub uninterp spec fn rooms_in(m: DashMap<String, Room>) -> Map<Seq<char>, RoomView>;

pub open spec fn no_rooms() -> Map<Seq<char>, RoomView> {
    Map::empty()
}

/// `DashMap::new`: a map that holds nothing.
#[verifier::external_body]
fn map_new() -> (r: DashMap<String, Room>)
    ensures
        rooms_in(r) == no_rooms(),
{
    DashMap::new()
}

/// `DashMap::insert`: the room stands under the key, in place of the one that did.
#[verifier::external_body]
fn map_insert(m: &mut DashMap<String, Room>, key: String, room: Room)
    ensures
        rooms_in(*final(m)) == rooms_in(*old(m)).insert(key@, room@),
{
    m.insert(key, room);
}

/// `DashMap::remove`: takes out the room under the key, if there is one. All others stay.
#[verifier::external_body]
fn map_remove(m: &mut DashMap<String, Room>, key: &str) -> (r: Option<Room>)
    ensures
        rooms_in(*final(m)) == rooms_in(*old(m)).remove(key@),
        match r {
            Some(room) => rooms_in(*old(m)).contains_key(key@) && room@ == rooms_in(*old(m))[key@],
            None => !rooms_in(*old(m)).contains_key(key@),
        },
{
    m.remove(key).map(|e| e.1)
}

/// `DashMap::get`, and a copy of what it finds: the room under the key, if there is one.
#[verifier::external_body]
fn map_get(m: &DashMap<String, Room>, key: &str) -> (r: Option<Room>)
    ensures
        match r {
            Some(room) => rooms_in(*m).contains_key(key@) && room@ == rooms_in(*m)[key@],
            None => !rooms_in(*m).contains_key(key@),
        },
{
    m.get(key).map(|e| copy_room(e.value()))
}

/// `DashMap::retain` with [`keeps`]: of the rooms, those that are not stale stay.
#[verifier::external_body]
fn map_sweep(m: &mut DashMap<String, Room>, now: i64)
    ensures
        rooms_in(*final(m)) == swept(rooms_in(*old(m)), now),
{
    m.retain(|_, r| keeps(r, now));
}

/// `DashMap::iter`, and a copy of each item: every room once, in an order of the map's own.
#[verifier::external_body]
fn map_list(m: &DashMap<String, Room>) -> (r: Vec<Room>)
    ensures
        lists(r@, rooms_in(*m)),
{
    m.iter().map(|e| copy_room(e.value())).collect()
}

/// `v` holds every room of `m` once.
pub open spec fn lists(v: Seq<Room>, m: Map<Seq<char>, RoomView>) -> bool {
    exists|keys: Seq<Seq<char>>| #[trigger] lists_by(v, m, keys)
}

/// `v` holds the rooms of `m` in the order of `keys`.
pub open spec fn lists_by(v: Seq<Room>, m: Map<Seq<char>, RoomView>, keys: Seq<Seq<char>>) -> bool {
    &&& keys.no_duplicates()
    &&& keys.to_set() == m.dom()
    &&& v.len() == keys.len()
    &&& forall|i: int| 0 <= i < v.len() ==> (#[trigger] v[i])@ == m[keys[i]]
}

// ---- the hub ----

/// All rooms.
pub struct Hub {
    rooms: DashMap<String, Room>,
}

impl View for Hub {
    type V = Map<Seq<char>, RoomView>;

    closed spec fn view(&self) -> Map<Seq<char>, RoomView> {
        rooms_in(self.rooms)
    }
}

/// Every room stands under its own id.
pub open spec fn keyed_by_id(m: Map<Seq<char>, RoomView>) -> bool {
    forall|k: Seq<char>| #[trigger] m.contains_key(k) ==> m[k].id == k
}

/// The rooms after one that is done has gone.
pub open spec fn after_drop(m: Map<Seq<char>, RoomView>, key: Seq<char>, now: i64) -> Map<
    Seq<char>,
    RoomView,
> {
    if m.contains_key(key) && is_done(m[key], now) {
        m.remove(key)
    } else {
        m
    }
}

/// What a room's row in a listing says.
pub type RoomRow = (RoomMeta, Option<RoomState>, usize, Vec<String>);

pub open spec fn row_shows(row: RoomRow, r: RoomView) -> bool {
    &&& row.0.id@ == r.id
    &&& row.0.created_at == r.created_at
    &&& opt_state(row.1) == r.state
    &&& row.2 == r.viewers
    &&& types::texts(row.3@) == r.members.map_values(|m: MemberView| m.username)
}

/// `rows` shows every room of `m` once.
pub open spec fn rows_show(rows: Seq<RoomRow>, m: Map<Seq<char>, RoomView>) -> bool {
    exists|keys: Seq<Seq<char>>| #[trigger] rows_show_by(rows, m, keys)
}

pub open spec fn rows_show_by(
    rows: Seq<RoomRow>,
    m: Map<Seq<char>, RoomView>,
    keys: Seq<Seq<char>>,
) -> bool {
    &&& keys.no_duplicates()
    &&& keys.to_set() == m.dom()
    &&& rows.len() == keys.len()
    &&& forall|i: int| 0 <= i < rows.len() ==> row_shows(#[trigger] rows[i], m[keys[i]])
}

fn names_of(v: &Vec<Member>) -> (r: Vec<String>)
    ensures
        types::texts(r@) == member_views(v@).map_values(|m: MemberView| m.username),
{
    let mut out: Vec<String> = Vec::new();
    let ghost names = member_views(v@).map_values(|m: MemberView| m.username);
    let mut i: usize = 0;
    while i < v.len()
        invariant
            i <= v@.len(),
            names == member_views(v@).map_values(|m: MemberView| m.username),
            types::texts(out@) == names.take(i as int),
        decreases v@.len() - i,
    {
        types::push_text(&mut out, v[i].username.as_str());
        assert(names.take(i + 1) =~= names.take(i as int).push(v@[i as int].username@));
        i += 1;
    }
    assert(names.take(i as int) =~= names);
    out
}

/// What a connection that joins is sent, and what all members are told.
#[derive(Debug)]
pub struct Joining {
    pub me: Member,
    pub welcome: Broadcast,
    pub announce: Broadcast,
    /// What the room plays.
    pub media_id: Option<String>,
}

/// What all members are told of a connection that left, and what the room plays.
#[derive(Debug)]
pub struct Leaving {
    pub announce: Broadcast,
    pub media_id: Option<String>,
}

pub open spec fn media_of(r: RoomView) -> Option<Seq<char>> {
    match r.state {
        Some(s) => Some(s.media_id),
        None => None,
    }
}

fn current_media_id(room: &Room) -> (r: Option<String>)
    ensures
        types::opt_text(r) == media_of(room@),
{
    match &room.state {
        Some(s) => Some(text::own(s.media_id.as_str())),
        None => None,
    }
}

/// The name under which a connection that joins is recorded.
pub fn join_kind() -> (r: &'static str)
    ensures
        r@ == "room.join"@,
{
    "room.join"
}

/// The name under which a connection that leaves is recorded.
pub fn leave_kind() -> (r: &'static str)
    ensures
        r@ == "room.leave"@,
{
    "room.leave"
}

impl Hub {
    /// There are no rooms.
    pub fn new() -> (r: Self)
        ensures
            r@ == no_rooms(),
            keyed_by_id(r@),
    {
        Hub { rooms: map_new() }
    }

    /// Makes a room under a new id. Stale rooms go first.
    pub fn create_room(&mut self, now: i64) -> (r: RoomMeta)
        requires
            keyed_by_id(old(self)@),
        ensures
            ids::is_uuid(r.id@),
            r.created_at == now,
            final(self)@ == swept(old(self)@, now).insert(r.id@, new_room(r.id@, now)),
            keyed_by_id(final(self)@),
    {
        self.open_room(ids::fresh_uuid(), now)
    }

    /// Makes a room under the given id. Stale rooms go first.
    pub fn open_room(&mut self, id: String, now: i64) -> (r: RoomMeta)
        requires
            keyed_by_id(old(self)@),
        ensures
            r.id@ == id@,
            r.created_at == now,
            final(self)@ == swept(old(self)@, now).insert(id@, new_room(id@, now)),
            keyed_by_id(final(self)@),
    {
        self.sweep_stale(now);
        let room = Room {
            meta: RoomMeta { id: text::own(id.as_str()), created_at: now },
            state: None,
            members: Vec::new(),
            viewers: 0,
            empty_since: now,
        };
        assert(room@ =~= new_room(id@, now));
        map_insert(&mut self.rooms, text::own(id.as_str()), room);
        RoomMeta { id, created_at: now }
    }

    /// Drops the rooms that are stale.
    pub fn sweep_stale(&mut self, now: i64)
        requires
            keyed_by_id(old(self)@),
        ensures
            final(self)@ == swept(old(self)@, now),
            keyed_by_id(final(self)@),
    {
        map_sweep(&mut self.rooms, now);
    }

    /// Every room once: who it is, what it plays, how many listen, who is in it.
    pub fn list_rooms(&self) -> (r: Vec<RoomRow>)
        ensures
            rows_show(r@, self@),
    {
        let rooms = map_list(&self.rooms);
        let ghost m = self@;
        let ghost keys = choose|keys: Seq<Seq<char>>| #[trigger] lists_by(rooms@, m, keys);
        let mut out: Vec<RoomRow> = Vec::new();
        let mut i: usize = 0;
        while i < rooms.len()
            invariant
                i <= rooms@.len(),
                lists_by(rooms@, m, keys),
                out@.len() == i,
                forall|k: int| 0 <= k < i ==> row_shows(#[trigger] out@[k], m[keys[k]]),
            decreases rooms@.len() - i,
        {
            let room = &rooms[i];
            assert(rooms@[i as int]@ == m[keys[i as int]]);
            let meta = RoomMeta {
                id: text::own(room.meta.id.as_str()),
                created_at: room.meta.created_at,
            };
            out.push((meta, copy_opt_state(&room.state), room.viewers, names_of(&room.members)));
            i += 1;
        }
        assert(rows_show_by(out@, m, keys));
        out
    }

    /// The room under an id, if there is one.
    pub fn get(&self, room: &str) -> (r: Option<Room>)
        ensures
            match r {
                Some(x) => self@.contains_key(room@) && x@ == self@[room@],
                None => !self@.contains_key(room@),
            },
    {
        map_get(&self.rooms, room)
    }

    /// Drops the room if it is done.
    pub fn maybe_drop(&mut self, room: &str, now: i64)
        requires
            keyed_by_id(old(self)@),
        ensures
            final(self)@ == after_drop(old(self)@, room@, now),
            keyed_by_id(final(self)@),
    {
        if let Some(x) = map_get(&self.rooms, room) {
            if drops(&x, now) {
                let _ = map_remove(&mut self.rooms, room);
            }
        }
    }

    /// A new connection joins a room: under a new id, with the user's name. `None` where
    /// there is no such room.
    pub fn join(&mut self, room: &str, user_sub: &str, username: &str, now: i64) -> (r: Option<
        Joining,
    >)
        requires
            keyed_by_id(old(self)@),
            old(self)@.contains_key(room@) ==> old(self)@[room@].viewers < usize::MAX,
        ensures
            match r {
                Some(j) => {
                    &&& old(self)@.contains_key(room@)
                    &&& ids::is_uuid(j.me.client_id@)
                    &&& j.me.user_sub@ == user_sub@
                    &&& j.me.username@ == username@
                    &&& joins(old(self)@, final(self)@, room@, j.me@, now, j)
                },
                None => !old(self)@.contains_key(room@) && final(self)@ == old(self)@,
            },
            keyed_by_id(final(self)@),
    {
        let me = Member {
            client_id: ids::fresh_uuid(),
            user_sub: text::own(user_sub),
            username: text::own(username),
        };
        self.join_as(room, me, now)
    }

    /// The connection `me` joins a room. `None` where there is no such room.
    pub fn join_as(&mut self, room: &str, me: Member, now: i64) -> (r: Option<Joining>)
        requires
            keyed_by_id(old(self)@),
            old(self)@.contains_key(room@) ==> old(self)@[room@].viewers < usize::MAX,
        ensures
            match r {
                Some(j) => {
                    &&& old(self)@.contains_key(room@)
                    &&& j.me@ == me@
                    &&& joins(old(self)@, final(self)@, room@, me@, now, j)
                },
                None => !old(self)@.contains_key(room@) && final(self)@ == old(self)@,
            },
            keyed_by_id(final(self)@),
    {
        let ghost before = self@;
        match map_remove(&mut self.rooms, room) {
            None => {
                assert(self@ =~= before);
                None
            },
            Some(x) => {
                let mut x = x;
                let ghost view = x@;
                x.members.push(copy_member(&me));
                x.viewers += 1;
                assert(x@ =~= joined(view, me@));
                let roster = copy_members(&x.members);
                let snapshot = copy_members(&x.members);
                let current = match &x.state {
                    Some(s) => {
                        let position_ms: i64 = project_position(s, now);
                        let mut shown_state = copy_state(s);
                        shown_state.position_ms = position_ms;
                        shown_state.updated_at = now;
                        assert(shown_state@ =~= shown(s@, now));
                        Some(shown_state)
                    },
                    None => None,
                };
                let media_id = current_media_id(&x);
                map_insert(&mut self.rooms, text::own(room), x);
                assert(self@ =~= before.insert(room@, joined(view, me@)));
                Some(
                    Joining {
                        welcome: Broadcast::Welcome {
                            you: copy_member(&me),
                            server_ts: now,
                            current,
                            members: snapshot,
                        },
                        announce: Broadcast::Members {
                            members: roster,
                            joined: Some(copy_member(&me)),
                            left: None,
                        },
                        me,
                        media_id,
                    },
                )
            },
        }
    }

    /// The connection `me` leaves a room, which goes if it is done then. `None` where
    /// there is no such room.
    pub fn leave(&mut self, room: &str, me: &Member, now: i64) -> (r: Option<Leaving>)
        requires
            keyed_by_id(old(self)@),
        ensures
            match r {
                Some(l) => {
                    let after = left(old(self)@[room@], me.client_id@, now);
                    &&& old(self)@.contains_key(room@)
                    &&& final(self)@ == after_drop(old(self)@.insert(room@, after), room@, now)
                    &&& l.announce@ == BroadcastView::Members {
                        members: after.members,
                        joined: None,
                        left: Some(me@),
                    }
                    &&& types::opt_text(l.media_id) == media_of(after)
                },
                None => !old(self)@.contains_key(room@) && final(self)@ == old(self)@,
            },
            keyed_by_id(final(self)@),
    {
        let ghost before = self@;
        match map_remove(&mut self.rooms, room) {
            None => {
                assert(self@ =~= before);
                None
            },
            Some(x) => {
                let mut x = x;
                let ghost view = x@;
                x.members = drop_client(&x.members, me.client_id.as_str());
                if x.viewers == 1 {
                    x.empty_since = now;
                }
                if x.viewers > 0 {
                    x.viewers -= 1;
                }
                assert(x@ =~= left(view, me.client_id@, now));
                let roster = copy_members(&x.members);
                let media_id = current_media_id(&x);
                map_insert(&mut self.rooms, text::own(room), x);
                assert(self@ =~= before.insert(room@, left(view, me.client_id@, now)));
                self.maybe_drop(room, now);
                Some(
                    Leaving {
                        announce: Broadcast::Members {
                            members: roster,
                            joined: None,
                            left: Some(copy_member(me)),
                        },
                        media_id,
                    },
                )
            },
        }
    }

    /// The member `me` of a room sends a message. `None` where there is no such room.
    pub fn message(&mut self, room: &str, me: &Member, msg: ClientMsg, now: i64) -> (r: Option<
        Outcome,
    >)
        requires
            keyed_by_id(old(self)@),
        ensures
            match r {
                Some(o) => {
                    let s = old(self)@[room@].state;
                    &&& old(self)@.contains_key(room@)
                    &&& final(self)@ == old(self)@.insert(
                        room@,
                        (RoomView { state: next_state(s, msg, now), ..old(self)@[room@] }),
                    )
                    &&& opt_broadcast(o.publish) == told(s, me@, msg, now)
                    &&& opt_broadcast(o.reply) == answer(msg, now)
                    &&& opt_action(o.action) == recorded(s, msg, now)
                },
                None => !old(self)@.contains_key(room@) && final(self)@ == old(self)@,
            },
            keyed_by_id(final(self)@),
    {
        let ghost before = self@;
        match map_remove(&mut self.rooms, room) {
            None => {
                assert(self@ =~= before);
                None
            },
            Some(x) => {
                let mut x = x;
                let ghost view = x@;
                let mut state = x.state;
                let outcome = apply_message(&mut state, me, msg, now);
                x.state = state;
                let ghost after = RoomView { state: next_state(view.state, msg, now), ..view };
                assert(x@ =~= after);
                map_insert(&mut self.rooms, text::own(room), x);
                assert(self@ =~= before.insert(room@, after));
                Some(outcome)
            },
        }
    }
}

/// What comes of the connection `me` joining the room under `key`.
pub open spec fn joins(
    before: Map<Seq<char>, RoomView>,
    after: Map<Seq<char>, RoomView>,
    key: Seq<char>,
    me: MemberView,
    now: i64,
    j: Joining,
) -> bool {
    let room = joined(before[key], me);
    &&& after == before.insert(key, room)
    &&& j.welcome@ == BroadcastView::Welcome {
        you: me,
        server_ts: now,
        current: opt_shown(room.state, now),
        members: room.members,
    }
    &&& j.announce@ == BroadcastView::Members {
        members: room.members,
        joined: Some(me),
        left: None,
    }
    &&& types::opt_text(j.media_id) == media_of(room)
}

/// Sweeping keeps every room that someone listens to, and every one that has not been empty
/// for long.
pub proof fn sweep_keeps(m: Map<Seq<char>, RoomView>, key: Seq<char>, now: i64)
    requires
        m.contains_key(key),
        m[key].viewers > 0 || wrapped(now - m[key].empty_since) <= STALE_AFTER_MS,
    ensures
        swept(m, now).contains_key(key),
        swept(m, now)[key] == m[key],
{
}

/// Sweeping takes a room that has been empty for more than a minute, and only such a room.
pub proof fn sweep_takes_the_stale(m: Map<Seq<char>, RoomView>, key: Seq<char>, now: i64)
    requires
        m.contains_key(key),
        -0x3fff_ffff_ffff_ffff <= m[key].empty_since <= now <= 0x3fff_ffff_ffff_ffff,
    ensures
        swept(m, now).contains_key(key) <==> (m[key].viewers > 0 || now - m[key].empty_since
            <= 60_000),
        swept(m, now).dom().subset_of(m.dom()),
{
}

/// A room goes with its last viewer once it has played something or is older than a minute;
/// all others stay as they are.
pub proof fn empty_rooms_go(m: Map<Seq<char>, RoomView>, key: Seq<char>, other: Seq<char>, now: i64)
    requires
        m.contains_key(key),
        -0x3fff_ffff_ffff_ffff <= m[key].created_at <= now <= 0x3fff_ffff_ffff_ffff,
    ensures
        after_drop(m, key, now).contains_key(key) <==> (m[key].viewers > 0 || (m[key].state is None
            && now - m[key].created_at <= 60_000)),
        after_drop(m, key, now).contains_key(key) ==> after_drop(m, key, now) == m,
        other != key ==> after_drop(m, key, now).contains_key(other) == m.contains_key(other),
        other != key && m.contains_key(other) ==> after_drop(m, key, now)[other] == m[other],
{
}

/// Sweeping again at the same time changes nothing.
pub proof fn sweep_twice(m: Map<Seq<char>, RoomView>, now: i64)
    ensures
        swept(swept(m, now), now) == swept(m, now),
{
    assert(swept(swept(m, now), now) =~= swept(m, now));
}

// ---- keeping the members together ----

/// What a room's wake-up does.
#[derive(Debug)]
pub enum Tick {
    /// No more wake-ups.
    Stop,
    /// Nothing until the next one.
    Wait,
    /// All members are told where the room is.
    Send(Broadcast),
}

/// The wake-up of a room: `held` says whether it still stands in the hub, `idle` at how
/// many wake-ups before this one nobody listened.
pub fn resync_tick(held: bool, viewers: usize, state: &Option<RoomState>, idle: u32, now: i64) -> (r:
    (u32, Tick))
    requires
        idle < u32::MAX,
    ensures
        !held ==> r.1 is Stop && r.0 == idle,
        held && viewers == 0 ==> r.0 == idle + 1 && if idle + 1 >= IDLE_TICKS {
            r.1 is Stop
        } else {
            r.1 is Wait
        },
        held && viewers > 0 ==> r.0 == 0,
        held && viewers == 1 ==> r.1 is Wait,
        held && viewers >= 2 ==> match opt_state(*state) {
            None => r.1 is Wait,
            Some(s) => r.1 is Send && r.1->0@ == (BroadcastView::Resync {
                state: s,
                live_position_ms: projected(s, now),
                server_ts: now,
            }),
        },
{
    if !held {
        return (idle, Tick::Stop);
    }
    if viewers == 0 {
        let ticks: u32 = idle + 1;
        if ticks >= IDLE_TICKS {
            return (ticks, Tick::Stop);
        }
        return (ticks, Tick::Wait);
    }
    if viewers < 2 {
        return (0, Tick::Wait);
    }
    match state {
        Some(s) => {
            let live_position_ms: i64 = project_position(s, now);
            (
                0,
                Tick::Send(
                    Broadcast::Resync { state: copy_state(s), live_position_ms, server_ts: now },
                ),
            )
        },
        None => (0, Tick::Wait),
    }
}

/// Who joins a room is its last member, is told so together with who else is there, and is
/// announced to the others; no other room changes.
pub proof fn joining_changes_one_room(
    before: Map<Seq<char>, RoomView>,
    after: Map<Seq<char>, RoomView>,
    key: Seq<char>,
    me: MemberView,
    now: i64,
    j: Joining,
    other: Seq<char>,
)
    requires
        joins(before, after, key, me, now, j),
        before.contains_key(key),
        before[key].viewers < usize::MAX,
    ensures
        other != key ==> (after.contains_key(other) <==> before.contains_key(other)),
        other != key && before.contains_key(other) ==> after[other] == before[other],
        after.contains_key(key),
        after[key].members == before[key].members + seq![me],
        after[key].viewers == before[key].viewers + 1,
        after[key].state == before[key].state,
        j.welcome@ matches BroadcastView::Welcome { you, members, server_ts, current } && you == me
            && members == after[key].members && server_ts == now && (current is Some <==>
            before[key].state is Some),
        j.announce@ matches BroadcastView::Members { members, joined: who, left } && members
            == after[key].members && who == Some(me) && left is None,
        before[key].state matches Some(s) ==> j.media_id is Some && (j.media_id->0)@ == s.media_id,
        before[key].state is None ==> j.media_id is None,
{
    assert(before[key].members.push(me) =~= before[key].members + seq![me]);
}

/// The list of the rooms has a row for every room, and no row without one.
pub proof fn every_room_is_listed(rows: Seq<RoomRow>, m: Map<Seq<char>, RoomView>, key: Seq<char>, i: int)
    requires
        rows_show(rows, m),
    ensures
        m.contains_key(key) ==> exists|k: int|
            0 <= k < rows.len() && (#[trigger] rows[k]).0.id@ == m[key].id && rows[k].2
                == m[key].viewers && types::texts(rows[k].3@) == m[key].members.map_values(
                |who: MemberView| who.username,
            ) && rows[k].0.created_at == m[key].created_at,
        0 <= i < rows.len() ==> exists|other: Seq<char>| #[trigger]
            m.contains_key(other) && rows[i].0.id@ == m[other].id && rows[i].2
                == m[other].viewers,
{
    let keys = choose|keys: Seq<Seq<char>>| #[trigger] rows_show_by(rows, m, keys);
    if m.contains_key(key) {
        assert(keys.to_set().contains(key));
        let k = choose|k: int| 0 <= k < keys.len() && keys[k] == key;
        assert(row_shows(rows[k], m[keys[k]]));
    }
    if 0 <= i < rows.len() {
        assert(keys.to_set().contains(keys[i]));
        assert(m.contains_key(keys[i]));
        assert(row_shows(rows[i], m[keys[i]]));
    }
}

} // verus!
