use fractal_gtk::model::message::{AnyRoomEvent, EventMeta, MessageContent, MessageEvent, TextContent};
use fractal_gtk::model::room::{
    room_name_from_members, PublicRoomsChunk, Reason, Room, RoomMembership, RoomTag,
};
use fractal_gtk::model::sync_response::{
    EphemeralEvent, EventReceipts, GlobalAccountEvent, InvitedRoom, JoinedRoom, LeaveEvent,
    LeftRoom, MembershipState, ReadReceipt, RoomAccountEvent, StateEvent, SyncResponse,
};
use std::convert::TryFrom;

const ME: &str = "@me:example.org";

#[test]
fn room_name_from_no_member() {
    assert_eq!(room_name_from_members(&[]), None);
}

#[test]
fn room_name_from_one_member() {
    assert_eq!(room_name_from_members(&["Alice"]), Some("Alice".to_string()));
}

#[test]
fn room_name_from_two_members() {
    assert_eq!(room_name_from_members(&["Alice", "Bob"]), Some("Alice and Bob".to_string()));
}

#[test]
fn room_name_from_more_members() {
    assert_eq!(room_name_from_members(&["Alice", "Bob", "Carol"]), Some("Alice and Others".to_string()));
}

#[test]
fn new_room_defaults() {
    let r = Room::new("!r:x.org".into(), RoomMembership::NoMembership);
    assert!(r.guest_can_join && r.world_readable);
    assert_eq!(r.default_power_level, -1);
    assert!(r.name.is_none() && r.messages.is_empty() && !r.direct);
}

#[test]
fn membership_queries() {
    let j = RoomMembership::Joined(RoomTag::Favourite);
    assert!(j.is_joined() && !j.is_invited() && !j.is_left());
    assert!(j.match_joined_tag(RoomTag::Favourite));
    assert!(!j.match_joined_tag(RoomTag::NoTag));
    assert!(RoomMembership::Invited("@a:x.org".into()).is_invited());
    assert!(RoomMembership::Left(Reason::NoReason).is_left());
    assert!(RoomMembership::default().is_joined() == false);
}

#[test]
fn directory_room() {
    let chunk = PublicRoomsChunk {
        canonical_alias: Some("#room:x.org".into()),
        name: Some("Room".into()),
        num_joined_members: 42,
        room_id: "!r:x.org".into(),
        topic: None,
        world_readable: false,
        guest_can_join: false,
        avatar_url: Some(String::new()),
    };
    let r = Room::try_from(chunk).unwrap();
    assert_eq!(r.n_members, 42);
    assert!(r.avatar.is_none());
    assert!(!r.world_readable && !r.guest_can_join);
    assert!(matches!(r.membership, RoomMembership::NoMembership));
    let bad = PublicRoomsChunk {
        canonical_alias: None,
        name: None,
        num_joined_members: 0,
        room_id: "!r:x.org".into(),
        topic: None,
        world_readable: true,
        guest_can_join: true,
        avatar_url: Some("no url".into()),
    };
    assert!(Room::try_from(bad).is_err());
}

fn member_event(sender: &str, state_key: &str, membership: MembershipState, name: Option<&str>) -> StateEvent {
    StateEvent::RoomMember {
        sender: sender.into(),
        state_key: state_key.into(),
        membership,
        displayname: name.map(String::from),
        avatar_url: None,
    }
}

fn message(id: &str, ts: i64) -> AnyRoomEvent {
    AnyRoomEvent::Message(MessageEvent {
        meta: EventMeta { sender: "@a:x.org".into(), origin_server_ts: ts, room_id: String::new(), event_id: id.into(), source: None },
        content: MessageContent::Text(TextContent { body: "hi".into(), formatted: None, relates_to: None, new_content: None }),
    })
}

fn joined() -> JoinedRoom {
    JoinedRoom {
        id: "!j:x.org".into(),
        state: vec![
            member_event("@a:x.org", "@a:x.org", MembershipState::Join, Some("A")),
            StateEvent::RoomCanonicalAlias { alias: Some("#j:x.org".into()) },
            StateEvent::RoomTopic { topic: "topic".into() },
            StateEvent::RoomPowerLevels { users: vec![("@a:x.org".into(), 100)], users_default: 0 },
            StateEvent::RoomPowerLevels { users: vec![("@b:x.org".into(), 50)], users_default: 5 },
        ],
        account_data: vec![
            RoomAccountEvent::Tag { tags: vec!["m.favourite".into()] },
            RoomAccountEvent::Custom { event_type: "org.gnome.fractal.language".into(), input_language: Some("de".into()) },
        ],
        ephemeral: vec![
            EphemeralEvent::Receipt(vec![EventReceipts {
                event_id: "$1".into(),
                read: vec![ReadReceipt { user_id: "@a:x.org".into(), ts: Some(1_500_000) }],
            }]),
            EphemeralEvent::FullyRead("$2".into()),
        ],
        notification_count: Some(3),
        highlight_count: None,
        prev_batch: Some("t1".into()),
        timeline: vec![message("$1", 10), AnyRoomEvent::Other, message("$2", 20)],
    }
}

#[test]
fn joined_room_from_sync() {
    let resp = SyncResponse {
        account_data: vec![GlobalAccountEvent { event_type: "m.direct".into(), direct: Some(vec![vec!["!j:x.org".into()]]) }],
        join: vec![joined()],
        leave: vec![],
        invite: vec![],
    };
    let rooms = Room::from_sync_response(resp, ME.into());
    assert_eq!(rooms.len(), 1);
    let r = &rooms[0];
    assert_eq!(r.name.as_deref(), Some("#j:x.org"));
    assert_eq!(r.alias.as_deref(), Some("#j:x.org"));
    assert_eq!(r.topic.as_deref(), Some("topic"));
    assert!(r.direct);
    assert!(matches!(r.membership, RoomMembership::Joined(RoomTag::Favourite)));
    assert_eq!(r.language.as_deref(), Some("de"));
    assert_eq!(r.notifications, 3);
    assert_eq!(r.highlight, 0);
    assert_eq!(r.prev_batch.as_deref(), Some("t1"));
    assert_eq!(r.default_power_level, 5);
    assert_eq!(r.admins.get("@a:x.org"), Some(&100));
    assert_eq!(r.admins.get("@b:x.org"), Some(&50));
    assert_eq!(r.members.get("@a:x.org").unwrap().alias.as_deref(), Some("A"));
    assert_eq!(r.messages.len(), 2);
    assert_eq!(r.messages[0].room, "!j:x.org");
    assert_eq!(r.messages[0].receipt.get("@a:x.org"), Some(&1500));
    assert_eq!(r.messages[1].receipt.get(ME), Some(&0));
}

#[test]
fn room_name_comes_first_from_name_event() {
    let mut j = joined();
    j.state.push(StateEvent::RoomName { name: Some(String::new()) });
    j.state.push(StateEvent::RoomName { name: Some("Named".into()) });
    j.state.push(StateEvent::RoomCanonicalAlias { alias: Some("#later:x.org".into()) });
    let resp = SyncResponse { account_data: vec![], join: vec![j], leave: vec![], invite: vec![] };
    let rooms = Room::from_sync_response(resp, ME.into());
    assert_eq!(rooms[0].name.as_deref(), Some("Named"));
    assert!(!rooms[0].direct);
}

#[test]
fn left_rooms_from_sync() {
    let resp = SyncResponse {
        account_data: vec![],
        join: vec![],
        leave: vec![
            LeftRoom { id: "!k:x.org".into(), last_event: Some(LeaveEvent { sender: Some("@mod:x.org".into()), reason: Some("spam".into()) }) },
            LeftRoom { id: "!l:x.org".into(), last_event: Some(LeaveEvent { sender: Some(ME.into()), reason: None }) },
            LeftRoom { id: "!m:x.org".into(), last_event: None },
        ],
        invite: vec![],
    };
    let rooms = Room::from_sync_response(resp, ME.into());
    assert_eq!(rooms.len(), 3);
    match &rooms[0].membership {
        RoomMembership::Left(Reason::Kicked(why, who)) => {
            assert_eq!(why, "spam");
            assert_eq!(who, "@mod:x.org");
        }
        _ => panic!("expected a kick"),
    }
    assert!(matches!(rooms[1].membership, RoomMembership::Left(Reason::NoReason)));
    assert!(matches!(rooms[2].membership, RoomMembership::Left(Reason::NoReason)));
}

#[test]
fn invited_rooms_from_sync() {
    let resp = SyncResponse {
        account_data: vec![],
        join: vec![],
        leave: vec![],
        invite: vec![
            InvitedRoom {
                id: "!i:x.org".into(),
                invite_state: vec![
                    member_event("@a:x.org", "@a:x.org", MembershipState::Join, Some("Alice")),
                    member_event("@b:x.org", "@b:x.org", MembershipState::Join, None),
                    member_event("@a:x.org", ME, MembershipState::Invite, None),
                ],
            },
            InvitedRoom { id: "!n:x.org".into(), invite_state: vec![] },
        ],
    };
    let rooms = Room::from_sync_response(resp, ME.into());
    assert_eq!(rooms.len(), 1);
    assert_eq!(rooms[0].name.as_deref(), Some("Alice and @b:x.org"));
    match &rooms[0].membership {
        RoomMembership::Invited(who) => assert_eq!(who, "@a:x.org"),
        _ => panic!("expected an invite"),
    }
}

#[test]
fn rooms_come_joined_then_left_then_invited() {
    let resp = SyncResponse {
        account_data: vec![],
        join: vec![joined()],
        leave: vec![LeftRoom { id: "!l:x.org".into(), last_event: None }],
        invite: vec![InvitedRoom { id: "!i:x.org".into(), invite_state: vec![member_event("@a:x.org", ME, MembershipState::Invite, None)] }],
    };
    let rooms = Room::from_sync_response(resp, ME.into());
    let ids: Vec<&str> = rooms.iter().map(|r| r.id.as_str()).collect();
    assert_eq!(ids, vec!["!j:x.org", "!l:x.org", "!i:x.org"]);
}
