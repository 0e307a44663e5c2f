use fractal_gtk::backend::room::message_content;
use fractal_gtk::cache::{load, remove_from_cache, store, CacheMap};
use fractal_gtk::backend::user::{cached_user_info, user_info_fetched, UserInfo};
use fractal_gtk::model::message::Message;
use fractal_gtk::model::raw_event::{global_account_event, leave_event, room_account_event, str_member};
use fractal_gtk::model::sync_response::RoomAccountEvent;

fn pairs(v: &[(&str, &str)]) -> Vec<(String, String)> {
    v.iter().map(|(k, x)| (k.to_string(), x.to_string())).collect()
}

#[test]
fn plain_message_content() {
    let m = Message::new("!r:x.org".into(), "@a:x.org".into(), "hi".into(), "m.text".into(), None);
    assert_eq!(message_content(&m), pairs(&[("body", "hi"), ("msgtype", "m.text")]));
}

#[test]
fn formatted_message_content_with_url() {
    let mut m = Message::new("!r:x.org".into(), "@a:x.org".into(), "pic".into(), "m.image".into(), None);
    m.url = Some("mxc://x.org/abc".into());
    m.formatted_body = Some("<b>pic</b>".into());
    m.format = Some("org.matrix.custom.html".into());
    assert_eq!(
        message_content(&m),
        pairs(&[
            ("body", "pic"),
            ("msgtype", "m.image"),
            ("url", "mxc://x.org/abc"),
            ("formatted_body", "<b>pic</b>"),
            ("format", "org.matrix.custom.html"),
        ])
    );
}

#[test]
fn formatted_body_without_format_is_not_sent() {
    let mut m = Message::new("!r:x.org".into(), "@a:x.org".into(), "x".into(), "m.text".into(), None);
    m.formatted_body = Some("<i>x</i>".into());
    assert_eq!(message_content(&m), pairs(&[("body", "x"), ("msgtype", "m.text")]));
}

#[test]
fn user_info_is_fetched_once() {
    let mut cache: CacheMap<UserInfo> = CacheMap::new();
    assert_eq!(cached_user_info(&cache, "@a:x.org", 0), None);
    let failed: Result<UserInfo, &str> = Err("offline");
    assert_eq!(user_info_fetched(&mut cache, "@a:x.org".into(), failed, 0), Err("offline"));
    assert_eq!(cache.map.len(), 0);
    let info: UserInfo = ("Alice".into(), "/tmp/a.png".into());
    let got: Result<UserInfo, &str> = user_info_fetched(&mut cache, "@a:x.org".into(), Ok(info.clone()), 1000);
    assert_eq!(got, Ok(info.clone()));
    assert_eq!(cached_user_info(&cache, "@a:x.org", 10999), Some(info));
    assert_eq!(cached_user_info(&cache, "@a:x.org", 11000), None);
    assert_eq!(cached_user_info(&cache, "@b:x.org", 1000), None);
}

#[test]
fn removed_user_info_is_fetched_again() {
    let mut cache: CacheMap<UserInfo> = CacheMap::new();
    let info: UserInfo = ("Bob".into(), "/tmp/b.png".into());
    let _ = user_info_fetched::<()>(&mut cache, "@b:x.org".into(), Ok(info.clone()), 5);
    remove_from_cache(&mut cache, "@b:x.org");
    assert_eq!(cached_user_info(&cache, "@b:x.org", 6), None);
    assert_eq!(cache.remove("@b:x.org"), None);
}

#[test]
fn stored_session_loads_back() {
    let st = store(Some("s72594_4483_1934".into()), "alice".into(), "@alice:x.org".into(), "DEVICE".into());
    assert_eq!(st.key(), "state");
    let d = load(st);
    assert_eq!(d.since, Some("s72594_4483_1934".to_string()));
    assert_eq!(d.username, "alice");
    assert_eq!(d.uid, "@alice:x.org");
    assert_eq!(d.device_id, "DEVICE");
}

#[test]
fn json_string_members() {
    assert_eq!(str_member(r#"{"a": "x\"y", "b": 3}"#, "a"), Some("x\"y".to_string()));
    assert_eq!(str_member(r#"{"a": "x", "b": 3}"#, "b"), None);
    assert_eq!(str_member(r#"{"a": "x"}"#, "c"), None);
    assert_eq!(str_member("not json", "a"), None);
    assert_eq!(str_member(r#"["a"]"#, "a"), None);
}

#[test]
fn leave_event_from_json() {
    let ev = leave_event(
        r#"{"type": "m.room.member", "sender": "@mod:x.org", "content": {"membership": "leave", "reason": "spam"}}"#,
    );
    assert_eq!(ev.sender, Some("@mod:x.org".to_string()));
    assert_eq!(ev.reason, Some("spam".to_string()));
    let ev = leave_event(r#"{"sender": 5, "content": {"membership": "leave"}}"#);
    assert_eq!(ev.sender, None);
    assert_eq!(ev.reason, None);
}

#[test]
fn room_account_events_from_json() {
    match room_account_event(r#"{"type": "m.tag", "content": {"tags": {"u.work": {}, "m.favourite": {"order": 0.5}}}}"#) {
        RoomAccountEvent::Tag { tags } => {
            let mut t = tags.clone();
            t.sort();
            assert_eq!(t, vec!["m.favourite".to_string(), "u.work".to_string()]);
        }
        _ => panic!("expected a tag event"),
    }
    match room_account_event(r#"{"type": "org.gnome.fractal.language", "content": {"input_language": "fr"}}"#) {
        RoomAccountEvent::Custom { event_type, input_language } => {
            assert_eq!(event_type, "org.gnome.fractal.language");
            assert_eq!(input_language, Some("fr".to_string()));
        }
        _ => panic!("expected a custom event"),
    }
    assert!(matches!(room_account_event(r#"{"content": {}}"#), RoomAccountEvent::Other));
    assert!(matches!(room_account_event(r#"{"type": "m.tag", "content": {}}"#), RoomAccountEvent::Other));
    assert!(matches!(room_account_event(r#"{"type": "x.y"}"#), RoomAccountEvent::Other));
}

#[test]
fn direct_event_from_json() {
    let ev = global_account_event(
        r#"{"type": "m.direct", "content": {"@a:x.org": ["!r1:x.org", "!r2:x.org"], "[object Object]": ["!r3:y.org"]}}"#,
    );
    assert_eq!(ev.event_type, "m.direct");
    let mut all: Vec<String> = ev.direct.expect("lists").into_iter().flatten().collect();
    all.sort();
    assert_eq!(all, vec!["!r1:x.org".to_string(), "!r2:x.org".to_string(), "!r3:y.org".to_string()]);

    let bad = global_account_event(r#"{"type": "m.direct", "content": {"@a:x.org": ["not a room"]}}"#);
    assert_eq!(bad.event_type, "m.direct");
    assert!(bad.direct.is_none());

    let other = global_account_event(r#"{"content": {}}"#);
    assert_eq!(other.event_type, "");
    assert_eq!(other.direct, Some(vec![]));
}
