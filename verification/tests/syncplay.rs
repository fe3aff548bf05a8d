use binkflix::room_client::{
    apply_remote, fmt_position, reconnect, rooms_title, row_label, sends_own_event, with_line,
    ws_url, PlayerChange, RemoteKind, RoomContext, RoomListItem, FIRST_BACKOFF_MS,
    LAST_BACKOFF_MS, MAX_EVENTS,
};
use binkflix::syncplay::{
    apply_message, passes_on, project_position, resync_tick, Broadcast, ClientMsg, Hub, Member,
    RoomState, Tick, IDLE_TICKS, STALE_AFTER_MS,
};

fn member(id: &str) -> Member {
    Member { client_id: id.into(), user_sub: format!("sub-{id}"), username: format!("User {id}") }
}

fn state(position_ms: i64, playing: bool, updated_at: i64, version: u64) -> RoomState {
    RoomState { media_id: "m".into(), position_ms, playing, updated_at, version }
}

#[test]
fn a_playing_room_moves_on() {
    assert_eq!(project_position(&state(1000, true, 50, 1), 250), 1200);
    assert_eq!(project_position(&state(1000, false, 50, 1), 250), 1000);
    assert_eq!(project_position(&state(1000, true, 250, 1), 50), 1000);
}

#[test]
fn messages_change_the_room() {
    let me = member("a");
    let mut s: Option<RoomState> = None;
    // Nothing is played yet.
    let o = apply_message(&mut s, &me, ClientMsg::Play { position_ms: 5 }, 10);
    assert!(o.publish.is_none() && o.reply.is_none() && o.action.is_none() && s.is_none());
    let o = apply_message(&mut s, &me, ClientMsg::SetMedia { media_id: "m".into() }, 20);
    assert!(matches!(o.publish, Some(Broadcast::SetMedia { version: 1, .. })));
    assert_eq!(o.action.unwrap().kind, "room.set_media");
    let t = s.as_ref().unwrap();
    assert_eq!((t.position_ms, t.playing, t.updated_at, t.version), (0, true, 20, 1));
    let o = apply_message(&mut s, &me, ClientMsg::Pause { position_ms: 700 }, 30);
    assert!(matches!(o.publish, Some(Broadcast::Pause { position_ms: 700, server_ts: 30, version: 2, .. })));
    let a = o.action.unwrap();
    assert_eq!((a.kind.as_str(), a.media_id.as_deref(), a.position_ms, a.version), ("room.pause", Some("m"), Some(700), 2));
    let o = apply_message(&mut s, &me, ClientMsg::Seek { position_ms: 900 }, 40);
    assert!(matches!(o.publish, Some(Broadcast::Seek { version: 3, .. })));
    assert!(!s.as_ref().unwrap().playing);
    let o = apply_message(&mut s, &me, ClientMsg::Play { position_ms: 950 }, 50);
    assert!(matches!(o.publish, Some(Broadcast::Play { version: 4, .. })));
    assert!(s.as_ref().unwrap().playing);
    let o = apply_message(&mut s, &me, ClientMsg::Ping { client_ts: 7 }, 60);
    assert!(o.publish.is_none());
    assert!(matches!(o.reply, Some(Broadcast::Pong { client_ts: 7, server_ts: 60 })));
    let o = apply_message(&mut s, &me, ClientMsg::Heartbeat { position_ms: 7 }, 60);
    assert!(o.publish.is_none() && o.reply.is_none() && o.action.is_none());
    assert_eq!(s.as_ref().unwrap().version, 4);
}

#[test]
fn own_changes_are_not_echoed() {
    let by = |id: &str| Broadcast::Pause { position_ms: 0, server_ts: 0, from: member(id), version: 1 };
    assert!(!passes_on(&by("a"), "a"));
    assert!(passes_on(&by("a"), "b"));
    let set = Broadcast::SetMedia { media_id: "m".into(), server_ts: 0, from: member("a"), version: 1 };
    assert!(passes_on(&set, "a"));
    assert!(!passes_on(&Broadcast::Pong { client_ts: 0, server_ts: 0 }, "a"));
    let b = Broadcast::Members { members: vec![], joined: None, left: None };
    assert!(passes_on(&b, "b"));
}

#[test]
fn rooms_are_made_and_left() {
    let mut hub = Hub::new();
    assert!(hub.list_rooms().is_empty());
    let meta = hub.create_room(100);
    assert_eq!((meta.created_at, meta.id.len()), (100, 36));
    let other = hub.create_room(100);
    assert_ne!(meta.id, other.id);
    assert_eq!(hub.list_rooms().len(), 2);
    let j = hub.join(&meta.id, "sub", "Alice", 110).unwrap();
    assert_eq!(j.me.username, "Alice");
    assert_eq!(j.media_id, None);
    assert!(matches!(&j.welcome, Broadcast::Welcome { members, .. } if members.len() == 1));
    assert!(matches!(&j.announce, Broadcast::Members { joined: Some(m), left: None, .. } if m.username == "Alice"));
    let k = hub.join_as(&meta.id, member("b"), 110).unwrap();
    assert_eq!(hub.get(&meta.id).unwrap().viewers, 2);
    let o = hub.message(&meta.id, &k.me, ClientMsg::SetMedia { media_id: "m".into() }, 120).unwrap();
    assert!(o.publish.is_some());
    assert!(hub.message("nowhere", &k.me, ClientMsg::Ping { client_ts: 0 }, 120).is_none());
    // Who joins later learns where the room is by now.
    let l = hub.join_as(&meta.id, member("c"), 150).unwrap();
    assert!(matches!(&l.welcome, Broadcast::Welcome { current: Some(s), .. } if s.position_ms == 30 && s.updated_at == 150));
    assert_eq!(l.media_id.as_deref(), Some("m"));
    let gone = hub.leave(&meta.id, &k.me, 160).unwrap();
    assert!(matches!(&gone.announce, Broadcast::Members { left: Some(m), members, .. } if m.client_id == "b" && members.len() == 2));
    hub.leave(&meta.id, &j.me, 160).unwrap();
    assert!(hub.get(&meta.id).is_some());
    hub.leave(&meta.id, &l.me, 160).unwrap();
    // The last one has left a room that has played something.
    assert!(hub.get(&meta.id).is_none());
    assert!(hub.leave(&meta.id, &l.me, 160).is_none());
    assert!(hub.join(&meta.id, "s", "u", 160).is_none());
    assert!(hub.get(&other.id).is_some());
}

#[test]
fn stale_rooms_are_swept() {
    let mut hub = Hub::new();
    let old = hub.open_room("old".into(), 0);
    let busy = hub.open_room("busy".into(), 0);
    hub.join_as("busy", member("a"), 0).unwrap();
    let young = hub.open_room("young".into(), STALE_AFTER_MS);
    hub.sweep_stale(STALE_AFTER_MS + 1);
    assert!(hub.get(&old.id).is_none());
    assert!(hub.get(&busy.id).is_some());
    assert!(hub.get(&young.id).is_some());
    hub.sweep_stale(STALE_AFTER_MS + 1);
    assert_eq!(hub.list_rooms().len(), 2);
    // Nobody listens, but it has only just been made.
    hub.maybe_drop("young", STALE_AFTER_MS + 2);
    assert!(hub.get("young").is_some());
    hub.maybe_drop("young", 2 * STALE_AFTER_MS + 2);
    assert!(hub.get("young").is_none());
}

#[test]
fn a_room_that_has_just_emptied_stays() {
    let mut hub = Hub::new();
    hub.open_room("r".into(), 0);
    let a = hub.join_as("r", member("a"), 0).unwrap();
    hub.leave("r", &a.me, 59_000).unwrap();
    assert_eq!(hub.get("r").unwrap().viewers, 0);
    assert_eq!(hub.get("r").unwrap().empty_since, 59_000);
    // It was made more than a minute ago, but emptied a moment ago.
    hub.sweep_stale(STALE_AFTER_MS + 1);
    assert!(hub.get("r").is_some());
    hub.sweep_stale(59_000 + STALE_AFTER_MS);
    assert!(hub.get("r").is_some());
    hub.sweep_stale(59_000 + STALE_AFTER_MS + 1);
    assert!(hub.get("r").is_none());
}

#[test]
fn events_never_share_an_id() {
    let mut c = RoomContext::new();
    c.enter("r".into());
    c.push_event("one".into());
    c.push_event("two".into());
    assert_eq!(c.events.iter().map(|e| e.id).collect::<Vec<_>>(), vec![1, 2]);
    c.expire_event();
    c.expire_event();
    assert!(c.events.is_empty());
    c.push_event("three".into());
    assert_eq!((c.events[0].id, c.events[0].text.as_str()), (3, "three"));
    for k in 0..20 {
        c.push_event(format!("event {}", k));
    }
    assert_eq!((c.events.len(), c.events[0].id, c.events[15].id), (16, 8, 23));
}

#[test]
fn only_fresher_changes_count() {
    let mut c = RoomContext::new();
    c.enter("r".into());
    let mut seq: u64 = 0;
    let welcome = Broadcast::Welcome {
        you: member("me"),
        server_ts: 0,
        current: Some(state(100, true, 0, 4)),
        members: vec![member("me"), member("b")],
    };
    c.handle_broadcast(welcome, &mut seq, 1000);
    let pause = |version: u64| Broadcast::Pause { position_ms: 700, server_ts: 0, from: member("b"), version };
    c.handle_broadcast(pause(4), &mut seq, 1100);
    let now = c.current.as_ref().unwrap();
    assert_eq!((now.position_ms, now.playing, now.version), (100, true, 4));
    c.handle_broadcast(pause(5), &mut seq, 1200);
    let now = c.current.as_ref().unwrap();
    assert_eq!((now.position_ms, now.playing, now.version), (700, false, 5));
}

#[test]
fn rooms_are_kept_together() {
    let s = Some(state(0, true, 100, 3));
    assert!(matches!(resync_tick(false, 5, &s, 2, 100), (2, Tick::Stop)));
    assert!(matches!(resync_tick(true, 0, &s, 0, 100), (1, Tick::Wait)));
    assert!(matches!(resync_tick(true, 0, &s, IDLE_TICKS - 1, 100), (IDLE_TICKS, Tick::Stop)));
    assert!(matches!(resync_tick(true, 1, &s, 2, 100), (0, Tick::Wait)));
    assert!(matches!(resync_tick(true, 2, &None, 2, 100), (0, Tick::Wait)));
    match resync_tick(true, 2, &s, 2, 350) {
        (0, Tick::Send(Broadcast::Resync { live_position_ms, server_ts, state })) => {
            assert_eq!((live_position_ms, server_ts, state.version), (250, 350, 3));
        }
        other => panic!("{other:?}"),
    }
}

#[test]
fn a_client_follows_the_room() {
    let mut c = RoomContext::new();
    assert_eq!(rooms_title(&c), "Rooms");
    c.enter("r".into());
    let mut seq: u64 = 0;
    let welcome = Broadcast::Welcome {
        you: member("me"),
        server_ts: 0,
        current: Some(state(100, true, 0, 4)),
        members: vec![member("me"), member("b")],
    };
    c.handle_broadcast(welcome, &mut seq, 1000);
    assert_eq!(c.viewers, 2);
    assert_eq!(c.pending_nav.as_deref(), Some("m"));
    assert_eq!(c.last_applied_version, 4);
    assert_eq!(rooms_title(&c), "Watch party (2) · m");
    // A change that is older than the picture switches nothing.
    let set = |version: u64| Broadcast::SetMedia { media_id: "n".into(), server_ts: 0, from: member("b"), version };
    c.handle_broadcast(set(4), &mut seq, 1100);
    assert_eq!(c.pending_nav.as_deref(), Some("m"));
    c.handle_broadcast(set(5), &mut seq, 1100);
    assert_eq!(c.pending_nav.as_deref(), Some("n"));
    assert_eq!(c.last_applied_version, 5);
    assert_eq!(c.events.last().unwrap().text, "User b switched media");
    // Another member's change reaches the player, one's own does not.
    c.handle_broadcast(Broadcast::Seek { position_ms: 61_000, server_ts: 0, from: member("b"), version: 6 }, &mut seq, 1200);
    assert_eq!(seq, 1);
    assert_eq!(c.last_remote.unwrap().kind, RemoteKind::Seek { position_ms: 61_000 });
    assert_eq!(c.events.last().unwrap().text, "User b jumped to 1:01");
    c.handle_broadcast(Broadcast::Pause { position_ms: 62_000, server_ts: 0, from: member("me"), version: 7 }, &mut seq, 1300);
    assert_eq!(seq, 1);
    assert!(!c.current.as_ref().unwrap().playing);
    c.handle_broadcast(Broadcast::Members { members: vec![member("me")], joined: None, left: Some(member("b")) }, &mut seq, 1400);
    assert_eq!(c.events.last().unwrap().text, "User b left");
    assert_eq!(c.viewers, 1);
    c.leave();
    assert!(c.room_id.is_none() && c.current.is_none() && c.members.is_empty());
}

#[test]
fn a_player_catches_up_with_the_room() {
    let mut c = RoomContext::new();
    assert!(!c.announces_media("m"));
    assert_eq!(c.catch_up(5000), None);
    c.enter("r".into());
    assert!(c.announces_media("m"));
    c.current = Some(state(100, true, 0, 4));
    c.current_received_at = 1000;
    assert!(!c.announces_media("m") && c.announces_media("n"));
    assert_eq!(c.catch_up(3500), Some(RemoteKind::Play { position_ms: 2600 }));
    // A clock that runs backwards moves nothing.
    assert_eq!(c.catch_up(500), Some(RemoteKind::Play { position_ms: 100 }));
    c.current_received_at = 0;
    assert_eq!(c.catch_up(3500), Some(RemoteKind::Play { position_ms: 100 }));
    c.current = Some(state(100, false, 0, 4));
    assert_eq!(c.catch_up(3500), Some(RemoteKind::Pause { position_ms: 100 }));
    c.set_pending_nav(Some("n".into()));
    assert_eq!(c.pending_nav.as_deref(), Some("n"));
    c.set_pending_nav(None);
    assert_eq!(c.pending_nav, None);
}

#[test]
fn server_and_client_stay_in_step() {
    let mut room: Option<RoomState> = None;
    let mut c = RoomContext::new();
    c.enter("r".into());
    let mut seq: u64 = 0;
    let messages = vec![
        ClientMsg::SetMedia { media_id: "m".into() },
        ClientMsg::Pause { position_ms: 5_000 },
        ClientMsg::Seek { position_ms: 90_000 },
        ClientMsg::Heartbeat { position_ms: 1 },
        ClientMsg::Play { position_ms: 91_000 },
        ClientMsg::SetMedia { media_id: "n".into() },
    ];
    for (k, msg) in messages.into_iter().enumerate() {
        let applied = apply_message(&mut room, &member("b"), msg, 1000 * k as i64);
        if let Some(b) = applied.publish {
            c.handle_broadcast(b, &mut seq, 7);
        }
        let (a, b) = (c.current.as_ref().unwrap(), room.as_ref().unwrap());
        assert_eq!((&a.media_id, a.playing, a.version), (&b.media_id, b.playing, b.version));
        assert_eq!(a.position_ms, b.position_ms);
    }
    // A picture that went astray is put right by the next reminder.
    c.current = Some(state(1, false, 0, 2));
    c.handle_broadcast(
        Broadcast::Resync { state: state(10, true, 0, 6), live_position_ms: 44, server_ts: 34 },
        &mut seq,
        8,
    );
    let a = c.current.as_ref().unwrap();
    assert_eq!((a.position_ms, a.playing, a.version), (44, true, 6));
}

#[test]
fn events_expire_in_order() {
    let mut c = RoomContext::new();
    c.expire_event();
    assert!(c.events.is_empty());
    c.push_event("one".into());
    c.push_event("two".into());
    c.expire_event();
    assert_eq!(c.events.len(), 1);
    assert_eq!(c.events[0].text, "two");
}

#[test]
fn the_feed_stays_short() {
    let mut c = RoomContext::new();
    for k in 0..MAX_EVENTS + 4 {
        c.push_event(format!("event {k}"));
    }
    assert_eq!(c.events.len(), MAX_EVENTS);
    let ids: Vec<u64> = c.events.iter().map(|e| e.id).collect();
    assert!(ids.windows(2).all(|w| w[1] == w[0] + 1));
    let shown: Vec<String> = c.visible_events().into_iter().map(|e| e.text).collect();
    assert_eq!(shown[0], format!("event {}", MAX_EVENTS + 3));
    assert_eq!(shown.len(), 4);
}

#[test]
fn positions_are_shown() {
    assert_eq!(fmt_position(0), "0:00");
    assert_eq!(fmt_position(-5), "0:00");
    assert_eq!(fmt_position(61_999), "1:01");
    assert_eq!(fmt_position(3_661_000), "1:01:01");
}

#[test]
fn lost_connections_are_tried_again() {
    assert_eq!(reconnect(FIRST_BACKOFF_MS, false), (FIRST_BACKOFF_MS, 2 * FIRST_BACKOFF_MS));
    assert_eq!(reconnect(LAST_BACKOFF_MS, false), (LAST_BACKOFF_MS, LAST_BACKOFF_MS));
    assert_eq!(reconnect(LAST_BACKOFF_MS, true), (FIRST_BACKOFF_MS, 2 * FIRST_BACKOFF_MS));
    assert_eq!(ws_url("https:", "h", "r"), "wss://h/api/syncplay/r");
    assert_eq!(ws_url("http:", "h:8080", "r"), "ws://h:8080/api/syncplay/r");
}

#[test]
fn events_move_the_player() {
    let none = PlayerChange { seek_ms: None, play: false, pause: false };
    assert_eq!(apply_remote(RemoteKind::Seek { position_ms: 1000 }, 1_250_000, false), none);
    assert_eq!(
        apply_remote(RemoteKind::Seek { position_ms: 1000 }, 1_250_001, false).seek_ms,
        Some(1000)
    );
    let c = apply_remote(RemoteKind::Play { position_ms: 1000 }, 1_000_000, true);
    assert!(c.play && c.seek_ms.is_none() && c.gates());
    let c = apply_remote(RemoteKind::Pause { position_ms: 1000 }, 400_000, false);
    assert!(c.pause && c.seek_ms == Some(1000));
    assert!(!none.gates());
    assert!(sends_own_event(5, 5));
    assert!(!sends_own_event(4, 5));
}

#[test]
fn rows_of_rooms() {
    let mut r = RoomListItem {
        id: "r".into(),
        viewers: 1,
        current_media_id: None,
        current_media_title: None,
        members: vec![],
    };
    assert_eq!(row_label(&r), ("Idle".to_string(), true));
    assert_eq!(with_line(&r), "1 viewer");
    r.viewers = 2;
    assert_eq!(with_line(&r), "2 viewers");
    r.members = vec!["a".into(), "b".into()];
    r.current_media_title = Some("T".into());
    assert_eq!(with_line(&r), "a, b");
    assert_eq!(row_label(&r), ("T".to_string(), false));
}
