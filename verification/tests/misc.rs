use fractal_gtk::cache::state::{AppMsg, AppRoom, AppState};
use fractal_gtk::cache::CacheMap;
use fractal_gtk::client::ProxySettings;
use fractal_gtk::model::member::Member;
use fractal_gtk::model::message::Message;
use fractal_gtk::model::room::{Room, RoomMembership};
use fractal_gtk::text::{
    byte_len, clone_strings, contains_str, match_indices, replace, str_contains, str_starts_with,
    trim_start, without_str,
};
use fractal_gtk::ui::account::{three_pid_rows, Medium, ThirdPartyId};
use fractal_gtk::ui::directory::{directory_room_name, get_search_rooms_query, search_term};
use fractal_gtk::ui::invite::{
    invite_key_step, InviteEntryAction, InviteEntryEvent, InviteList, SearchType,
};
use fractal_gtk::ui::member::search_finished;
use fractal_gtk::util::markup_text;

fn member(uid: &str) -> Member {
    Member { uid: uid.to_string(), alias: None, avatar: None }
}

#[test]
fn replace_every_occurrence() {
    assert_eq!(replace("a-b-c", "-", "+"), "a+b+c");
    assert_eq!(replace("aaa", "aa", "b"), "ba");
    assert_eq!(replace("abc", "x", "y"), "abc");
    assert_eq!(replace("abc", "", "-"), "-a-b-c-");
    assert_eq!(replace("", "", "-"), "-");
}

#[test]
fn prefixes_and_substrings() {
    assert!(str_starts_with("hello", "he"));
    assert!(!str_starts_with("he", "hello"));
    assert!(str_contains("hello", "ll"));
    assert!(str_contains("hello", ""));
    assert!(!str_contains("hello", "lo!"));
    assert_eq!(trim_start(" \t\nx y "), "x y ");
}

#[test]
fn string_lists() {
    let v: Vec<String> = vec!["a".into(), "b".into(), "a".into()];
    assert!(contains_str(&v, "b"));
    assert!(!contains_str(&v, "c"));
    assert_eq!(without_str(&v, "a"), vec!["b".to_string()]);
    assert_eq!(clone_strings(&v), v);
}

#[test]
fn cache_entries_expire() {
    let mut c: CacheMap<u64> = CacheMap::new();
    assert_eq!(c.timeout, 10000);
    c.insert("k".into(), 7, 1000);
    assert_eq!(c.get("k", 1000), Some(&7));
    assert_eq!(c.get("k", 10999), Some(&7));
    assert_eq!(c.get("k", 11000), None);
    assert_eq!(c.get("other", 1000), None);
    let c = c.timeout(100);
    assert_eq!(c.get("k", 1099), Some(&7));
    assert_eq!(c.get("k", 1100), None);
}

#[test]
fn cache_insert_replaces() {
    let mut c: CacheMap<u64> = CacheMap::new();
    c.insert("k".into(), 1, 0);
    c.insert("k".into(), 2, 50000);
    assert_eq!(c.get("k", 50001), Some(&2));
}

#[test]
fn storage_keys() {
    let s = AppState { since: None, username: "u".into(), uid: "@u:x.org".into(), device_id: "D".into() };
    assert_eq!(s.key(), "state");
    let r = AppRoom::new(Room::new("!r:x.org".into(), RoomMembership::NoMembership));
    assert_eq!(r.key(), "room:!r:x.org");
    let m = Message::new("!r:x.org".into(), "@a:x.org".into(), "b".into(), "m.text".into(), Some("$e".into()));
    assert_eq!(AppMsg { msg: m }.key(), "msg:!r:x.org:$e");
    let m = Message::new("!r:x.org".into(), "@a:x.org".into(), "b".into(), "m.text".into(), None);
    assert_eq!(AppMsg { msg: m }.key(), "msg:!r:x.org:");
}

#[test]
fn stored_room_forgets_typing() {
    let mut room = Room::new("!r:x.org".into(), RoomMembership::NoMembership);
    room.typing_users.push(member("@a:x.org"));
    room.notifications = 3;
    let stored = AppRoom::new(room);
    assert!(stored.room.typing_users.is_empty());
    assert_eq!(stored.room.notifications, 3);
}

#[test]
fn proxies_without_direct() {
    let p = ProxySettings::new(
        vec!["direct://".into(), "http://proxy:3128".into()],
        vec!["direct://".into()],
    );
    assert_eq!(p.http_proxy, vec!["http://proxy:3128".to_string()]);
    assert!(p.https_proxy.is_empty());
    assert_eq!(p.proxies_to_apply(), (Some("http://proxy:3128".to_string()), None));
    let q = ProxySettings::new(vec!["http://proxy:3128".into()], vec![]);
    assert!(p.same_as(&q));
    let r = ProxySettings::new(vec!["http://other:1".into()], vec![]);
    assert!(!p.same_as(&r));
}

#[test]
fn directory_search_and_names() {
    assert_eq!(search_term("".into()), None);
    assert_eq!(search_term("rust".into()), Some("rust".into()));
    assert_eq!(directory_room_name(&Some("Room".into()), &Some("#r:x".into())), "Room");
    assert_eq!(directory_room_name(&Some("".into()), &Some("#r:x".into())), "#r:x");
    assert_eq!(directory_room_name(&None, &None), "");
}

#[test]
fn invite_list_keeps_users_once() {
    let mut l = InviteList::new();
    assert!(l.add_to_invite(member("@a:x.org"), SearchType::Invite));
    assert!(l.add_to_invite(member("@b:x.org"), SearchType::Invite));
    assert!(!l.add_to_invite(member("@a:x.org"), SearchType::Invite));
    assert_eq!(l.members.len(), 2);
    assert!(!l.rm_from_invite("@a:x.org"));
    assert!(!l.rm_from_invite("@z:x.org"));
    assert!(l.rm_from_invite("@b:x.org"));
}

#[test]
fn direct_chat_is_with_one_user() {
    let mut l = InviteList::new();
    assert!(l.add_to_invite(member("@a:x.org"), SearchType::DirectChat));
    assert!(l.add_to_invite(member("@b:x.org"), SearchType::DirectChat));
    assert_eq!(l.members.len(), 1);
    assert_eq!(l.members[0].uid, "@b:x.org");
}

#[test]
fn markup_escapes_and_links() {
    assert_eq!(markup_text("a < b & c"), "a &lt; b &amp; c");
    assert_eq!(
        markup_text("see https://example.org now"),
        "see <a href=\"https://example.org\">https://example.org</a> now"
    );
    assert_eq!(markup_text("\"q\""), "&quot;q&quot;");
}

#[test]
fn match_indices_like_std() {
    for (s, p) in [("a-b--c", "-"), ("aaaa", "aa"), ("é-é", "é"), ("abc", ""), ("", ""), ("abc", "x")] {
        let expected: Vec<usize> = s.match_indices(p).map(|(i, _)| i).collect();
        assert_eq!(match_indices(s, p), expected);
    }
}

#[test]
fn byte_lengths() {
    assert_eq!(byte_len("abc"), 3);
    assert_eq!(byte_len("é"), 2);
    assert_eq!(byte_len("€"), 3);
    assert_eq!(byte_len("𝄞"), 4);
    assert_eq!(byte_len(""), 0);
}

#[test]
fn invite_add_then_remove_restores() {
    let mut l = InviteList::new();
    l.add_to_invite(member("@a:x.org"), SearchType::Invite);
    l.add_to_invite(member("@b:x.org"), SearchType::Invite);
    let before: Vec<String> = l.members.iter().map(|m| m.uid.clone()).collect();
    assert!(l.add_to_invite(member("@c:x.org"), SearchType::Invite));
    l.rm_from_invite("@c:x.org");
    let after: Vec<String> = l.members.iter().map(|m| m.uid.clone()).collect();
    assert_eq!(before, after);
}

fn tpid(medium: Medium, address: &str) -> ThirdPartyId {
    ThirdPartyId { medium, address: address.to_string() }
}

#[test]
fn account_addresses() {
    let r = three_pid_rows(Some(vec![
        tpid(Medium::Email, "a@x.org"),
        tpid(Medium::Msisdn, "123"),
        tpid(Medium::Other, "zzz"),
        tpid(Medium::Email, "b@x.org"),
        tpid(Medium::Msisdn, "456"),
    ]));
    assert_eq!(r.email.as_deref(), Some("a@x.org"));
    assert_eq!(r.phone.as_deref(), Some("123"));
    let rows: Vec<(bool, Option<String>)> =
        r.rows.into_iter().map(|(m, a)| (matches!(m, Medium::Email), a)).collect();
    assert_eq!(
        rows,
        vec![(true, None), (false, None), (true, Some("b@x.org".to_string())), (false, Some("+456".to_string()))]
    );
}

#[test]
fn account_without_addresses() {
    let r = three_pid_rows(None);
    assert!(r.email.is_none() && r.phone.is_none() && r.rows.is_empty());
}

#[test]
fn user_search_adds_the_typed_user() {
    let found = vec![member("@a:x.org")];
    let r = search_finished(found, Some("@new:x.org".into()));
    let uids: Vec<&str> = r.iter().map(|m| m.uid.as_str()).collect();
    assert_eq!(uids, vec!["@new:x.org", "@a:x.org"]);
    let r = search_finished(vec![member("@a:x.org")], Some("@a:x.org".into()));
    assert_eq!(r.len(), 1);
    let r = search_finished(vec![member("@a:x.org")], Some("new".into()));
    assert_eq!(r.len(), 1);
    assert_eq!(search_finished(vec![], None).len(), 0);
}

#[test]
fn directory_queries() {
    let q = get_search_rooms_query(true, Some("irc".into()), false, "x".into(), "rust".into(), false);
    assert!(q.reset);
    assert_eq!(q.protocol, Some("irc".to_string()));
    assert_eq!(q.homeserver, None);
    assert_eq!(q.search_term, Some("rust".to_string()));
    let q = get_search_rooms_query(false, Some("irc".into()), true, "hs.org".into(), "".into(), true);
    assert!(!q.reset);
    assert_eq!(q.protocol, None);
    assert_eq!(q.homeserver, Some("hs.org".to_string()));
    assert_eq!(q.search_term, None);
}

#[test]
fn invite_search_waits_for_a_pause() {
    let (p, a) = invite_key_step(false, InviteEntryEvent::KeyReleased);
    assert!(p);
    assert!(matches!(a, InviteEntryAction::StartTimer { cancel_pending: false, delay_ms: 500 }));
    let (p, a) = invite_key_step(p, InviteEntryEvent::KeyReleased);
    assert!(p && matches!(a, InviteEntryAction::StartTimer { cancel_pending: true, delay_ms: 500 }));
    let (p, a) = invite_key_step(p, InviteEntryEvent::TimerFired(Some("bob".into())));
    assert!(!p);
    match a {
        InviteEntryAction::Search(t) => assert_eq!(t, "bob"),
        _ => panic!("expected a search"),
    }
    let (_, a) = invite_key_step(false, InviteEntryEvent::TimerFired(None));
    assert!(matches!(a, InviteEntryAction::Nothing));
}
