use fractal_gtk::backend::room::{
    add_direct_chat, created_room, direct_chat_room, get_pushrules, notify_from_actions, pushrule_actions,
    PushRulesAnswer, PushRulesError,
    room_detail_key, room_settings, PushAction, RoomDetailError, RoomNotify, RoomPreset, RoomType,
    Visibility,
};
use fractal_gtk::backend::sync::{
    find_room, room_elements, sync_result, sync_retry_delay, typing_room, RoomElement, SyncRet,
};
use fractal_gtk::backend::user::{
    email_token_error_text, phone_token_error_text, phone_token_result, profile_name,
    search_members, ErrorKind,
};
use fractal_gtk::backend::{
    error_log_line, media_location, remove_matrix_access_token_if_present, use_cached_file,
    ContentType, HandleError, MediaError, ThreadPool,
};
use fractal_gtk::model::member::{Member, User};
use fractal_gtk::model::message::AnyRoomEvent;
use fractal_gtk::model::room::{Room, RoomMembership, RoomTag};
use fractal_gtk::model::strmap::StrMap;
use fractal_gtk::model::sync_response::{EphemeralEvent, JoinedRoom, MembershipState, StateEvent, SyncResponse};

#[test]
fn thread_pool_limits_running_jobs() {
    let mut p = ThreadPool::new(2);
    assert!(p.try_start());
    assert!(p.try_start());
    assert!(!p.try_start());
    assert_eq!(p.running, 2);
    p.finish();
    assert!(p.try_start());
}

#[test]
fn start_then_finish_restores_pool() {
    let mut p = ThreadPool::new(3);
    let before = (p.running, p.limit);
    assert!(p.try_start());
    p.finish();
    assert_eq!((p.running, p.limit), before);
}

#[test]
fn content_types() {
    assert!(matches!(ContentType::default_thumbnail(), ContentType::Thumbnail(128, 128)));
    assert!(ContentType::default_thumbnail().is_thumbnail());
    assert!(!ContentType::Download.is_thumbnail());
    assert_eq!(ContentType::Download.cache_dir(), "medias");
    assert_eq!(ContentType::Thumbnail(1, 1).cache_dir(), "thumbs");
}

#[test]
fn mxc_urls() {
    let (server, id) = match media_location("mxc://example.org/abcdef") {
        Ok(x) => x,
        Err(_) => panic!("expected a location"),
    };
    assert_eq!(server, "example.org");
    assert_eq!(id, "abcdef");
    assert!(matches!(media_location("https://example.org/abcdef"), Err(MediaError::MalformedMxcUrl)));
    assert!(matches!(media_location("mxc://example.org/"), Err(MediaError::MalformedMxcUrl)));
    assert!(matches!(media_location("not a url"), Err(MediaError::MalformedMxcUrl)));
}

#[test]
fn cached_media_is_used_when_recent() {
    assert!(use_cached_file(true, false, None));
    assert!(use_cached_file(true, true, Some(59)));
    assert!(!use_cached_file(true, true, Some(60)));
    assert!(!use_cached_file(false, false, Some(1)));
}

#[test]
fn access_token_is_redacted() {
    let msg = r#"request "https://matrix.org/_matrix/client/r0/sync?access_token=abc123&since=s1" failed"#;
    let r = remove_matrix_access_token_if_present(msg).unwrap();
    assert_eq!(r, r#"request "https://matrix.org/_matrix/client/r0/sync?access_token=<redacted>&since=s1" failed"#);
    assert_eq!(remove_matrix_access_token_if_present("no url here"), None);
    assert_eq!(error_log_line("plain error"), "plain error");
    assert_eq!(error_log_line(msg), r);
}

#[test]
fn push_rules() {
    assert!(matches!(notify_from_actions(&vec![]), RoomNotify::NotSet));
    assert!(matches!(notify_from_actions(&vec![PushAction::Notify, PushAction::Coalesce]), RoomNotify::All));
    assert!(matches!(notify_from_actions(&vec![PushAction::Notify, PushAction::DontNotify]), RoomNotify::DontNotify));
    assert!(pushrule_actions(&RoomNotify::NotSet).is_none());
    let all = pushrule_actions(&RoomNotify::All).unwrap();
    assert_eq!(all.len(), 2);
    assert!(matches!(&all[1], PushAction::SetTweakSound(s) if s == "default"));
    assert_eq!(pushrule_actions(&RoomNotify::DontNotify).unwrap().len(), 1);
}

#[test]
fn room_requests() {
    assert!(matches!(room_settings(RoomType::Public), (Visibility::Public, RoomPreset::PublicChat)));
    assert!(matches!(room_settings(RoomType::Private), (Visibility::Private, RoomPreset::PrivateChat)));
    let r = created_room("!n:x.org".into(), "New".into());
    assert_eq!(r.name.as_deref(), Some("New"));
    assert!(matches!(r.membership, RoomMembership::Joined(RoomTag::NoTag)));
    let m = Member { uid: "@b:x.org".into(), alias: Some("Bob".into()), avatar: None };
    let d = direct_chat_room("!d:x.org".into(), &m);
    assert!(d.direct);
    assert_eq!(d.name.as_deref(), Some("Bob"));
    match room_detail_key("m.room.name") {
        Ok(k) => assert_eq!(k, "name"),
        Err(_) => panic!("expected a key"),
    }
    match room_detail_key("topic") {
        Ok(k) => assert_eq!(k, "topic"),
        Err(_) => panic!("expected a key"),
    }
}

#[test]
fn direct_chats_are_appended() {
    let mut d: StrMap<Vec<String>> = StrMap::new();
    add_direct_chat(&mut d, "@b:x.org".into(), "!1:x.org".into());
    add_direct_chat(&mut d, "@b:x.org".into(), "!2:x.org".into());
    assert_eq!(d.get("@b:x.org").unwrap(), &vec!["!1:x.org".to_string(), "!2:x.org".to_string()]);
}

#[test]
fn sync_retry_delays() {
    assert_eq!(sync_retry_delay(None, 5), 10);
    assert_eq!(sync_retry_delay(Some(500), 5), 10);
    assert_eq!(sync_retry_delay(Some(429), 0), 10);
    assert_eq!(sync_retry_delay(Some(429), 3), 80);
}

fn joined(events: Vec<AnyRoomEvent>, ephemeral: Vec<EphemeralEvent>) -> JoinedRoom {
    JoinedRoom {
        id: "!j:x.org".into(),
        state: vec![],
        account_data: vec![],
        ephemeral,
        notification_count: None,
        highlight_count: None,
        prev_batch: None,
        timeline: events,
    }
}

#[test]
fn room_elements_of_timelines() {
    let room = joined(
        vec![
            AnyRoomEvent::State(StateEvent::RoomName { name: None }),
            AnyRoomEvent::State(StateEvent::RoomTopic { topic: "t".into() }),
            AnyRoomEvent::Other,
            AnyRoomEvent::State(StateEvent::RoomAvatar { url: None }),
            AnyRoomEvent::Redaction { redacts: "$x".into() },
            AnyRoomEvent::State(StateEvent::RoomMember {
                sender: "@a:x.org".into(),
                state_key: "@a:x.org".into(),
                membership: MembershipState::Leave,
                displayname: None,
                avatar_url: None,
            }),
        ],
        vec![],
    );
    let els = room_elements(&vec![room]);
    assert_eq!(els.len(), 5);
    assert!(matches!(&els[0], RoomElement::Name(r, n) if r == "!j:x.org" && n.is_empty()));
    assert!(matches!(&els[1], RoomElement::Topic(_, t) if t == "t"));
    assert!(matches!(&els[2], RoomElement::NewAvatar(_)));
    assert!(matches!(&els[3], RoomElement::RemoveMessage(_, e) if e == "$x"));
    assert!(matches!(&els[4], RoomElement::MemberEvent(_, _)));
}

#[test]
fn typing_users_leave_out_self() {
    let room = joined(vec![], vec![EphemeralEvent::Typing(vec!["@me:x.org".into(), "@a:x.org".into()])]);
    let r = typing_room(&room, &"@me:x.org".to_string());
    assert_eq!(r.typing_users.len(), 1);
    assert_eq!(r.typing_users[0].uid, "@a:x.org");
}

#[test]
fn finding_rooms() {
    let rooms = vec![
        Room::new("!a:x.org".into(), RoomMembership::NoMembership),
        Room::new("!b:x.org".into(), RoomMembership::NoMembership),
    ];
    assert_eq!(find_room(&rooms, "!b:x.org"), Some(1));
    assert_eq!(find_room(&rooms, "!c:x.org"), None);
}

#[test]
fn user_requests() {
    assert_eq!(profile_name(Some("Bob".into()), "@b:x.org"), "Bob");
    assert_eq!(profile_name(Some(String::new()), "@b:x.org"), "@b:x.org");
    assert_eq!(profile_name(None, "@b:x.org"), "@b:x.org");
    assert_eq!(phone_token_result("sid".into(), "sec".into(), true), (Some("sid".to_string()), "sec".to_string()));
    assert_eq!(phone_token_result("sid".into(), "sec".into(), false).0, None);
    assert_eq!(email_token_error_text(Some(ErrorKind::ThreepidInUse)), ("Email is already in use", false));
    assert_eq!(email_token_error_text(None).1, true);
    assert_eq!(phone_token_error_text(Some(ErrorKind::ThreepidDenied)).1, false);
    assert_eq!(phone_token_error_text(Some(ErrorKind::Other)), ("Couldn’t add the phone number.", true));
}

#[test]
fn user_search_results() {
    let ok = search_members(vec![
        User { user_id: "@a:x.org".into(), display_name: None, avatar_url: None },
        User { user_id: "@b:x.org".into(), display_name: Some("B".into()), avatar_url: None },
    ])
    .unwrap();
    assert_eq!(ok.len(), 2);
    assert_eq!(ok[1].get_alias(), "B");
    let bad = search_members(vec![
        User { user_id: "@a:x.org".into(), display_name: None, avatar_url: None },
        User { user_id: "@b:x.org".into(), display_name: None, avatar_url: Some("bad".into()) },
    ]);
    assert!(bad.is_err());
}

#[test]
fn handled_errors_are_logged_without_token() {
    assert_eq!(MediaError::MalformedMxcUrl.handle_error(), "MalformedMxcUrl");
    let e = MediaError::Reqwest(
        r#"request "https://matrix.org/_matrix/media/r0/download?access_token=abc" failed"#.to_string(),
    );
    assert_eq!(
        e.handle_error(),
        r#"Reqwest(request "https://matrix.org/_matrix/media/r0/download?access_token=<redacted>" failed)"#
    );
    assert_eq!(MediaError::Io("denied".into()).handle_error(), "Io(denied)");
    assert_eq!(RoomDetailError::MalformedKey.handle_error(), "MalformedKey");
    assert_eq!(RoomDetailError::Matrix("x".into()).handle_error(), "Matrix(x)");
}

#[test]
fn first_sync_gives_rooms_and_the_room_to_open() {
    let resp = SyncResponse { account_data: vec![], join: vec![joined(vec![], vec![])], leave: vec![], invite: vec![] };
    match sync_result(resp, "s2".into(), "@me:x.org".into(), Some("!j:x.org".into()), false) {
        SyncRet::NoSince { rooms, default, next_batch } => {
            assert_eq!(rooms.len(), 1);
            assert_eq!(default, Some(0));
            assert_eq!(next_batch, "s2");
        }
        SyncRet::WithSince { .. } => panic!("expected a first sync"),
    }
}

#[test]
fn later_sync_gives_changes() {
    let mut j = joined(vec![], vec![]);
    j.notification_count = Some(3);
    let resp = SyncResponse { account_data: vec![], join: vec![j], leave: vec![], invite: vec![] };
    match sync_result(resp, "s3".into(), "@me:x.org".into(), None, true) {
        SyncRet::WithSince { update_rooms, room_notifications, typing, other, next_batch } => {
            assert_eq!(update_rooms.len(), 1);
            assert_eq!(room_notifications, vec![("!j:x.org".to_string(), Some(3), None)]);
            assert_eq!(typing.len(), 1);
            assert_eq!(typing[0].id, "!j:x.org");
            assert!(other.is_empty());
            assert_eq!(next_batch, "s3");
        }
        SyncRet::NoSince { .. } => panic!("expected a later sync"),
    }
}

#[test]
fn push_rule_answers() {
    let r = get_pushrules(PushRulesAnswer::Rule(vec![PushAction::DontNotify, PushAction::Notify, PushAction::Coalesce]));
    assert!(matches!(r, Ok(RoomNotify::All)));
    assert!(matches!(get_pushrules(PushRulesAnswer::Rule(vec![])), Ok(RoomNotify::NotSet)));
    assert!(matches!(get_pushrules(PushRulesAnswer::NotFound), Ok(RoomNotify::NotSet)));
    match get_pushrules(PushRulesAnswer::Failed("boom".into())) {
        Err(PushRulesError(e)) => assert_eq!(e, "boom"),
        Ok(_) => panic!("expected an error"),
    }
}
