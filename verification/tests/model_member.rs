use fractal_gtk::model::member::{AvatarSource, Member, RoomMember, User};
use std::convert::TryFrom;

fn member(uid: &str, alias: Option<&str>) -> Member {
    Member { uid: uid.to_string(), alias: alias.map(String::from), avatar: None }
}

#[test]
fn get_alias_prefers_display_name() {
    assert_eq!(member("@alice:example.org", Some("Alice")).get_alias(), "Alice");
}

#[test]
fn get_alias_falls_back_to_user_id() {
    assert_eq!(member("@alice:example.org", None).get_alias(), "@alice:example.org");
    assert_eq!(member("@alice:example.org", Some("")).get_alias(), "@alice:example.org");
}

#[test]
fn members_are_equal_by_user_id() {
    assert!(member("@a:x.org", Some("A")) == member("@a:x.org", Some("B")));
    assert!(member("@a:x.org", None) != member("@b:x.org", None));
}

#[test]
fn member_from_search_result_parses_avatar() {
    let user = User {
        user_id: "@bob:example.org".to_string(),
        display_name: Some("Bob".to_string()),
        avatar_url: Some("https://EXAMPLE.org/a.png".to_string()),
    };
    let m = Member::try_from(user).unwrap();
    assert_eq!(m.uid, "@bob:example.org");
    assert_eq!(m.alias.as_deref(), Some("Bob"));
    match m.avatar {
        Some(AvatarSource::Url(u)) => assert_eq!(u, "https://example.org/a.png"),
        _ => panic!("expected an avatar URL"),
    }
}

#[test]
fn member_from_search_result_without_avatar() {
    let user = User { user_id: "@bob:example.org".to_string(), display_name: None, avatar_url: Some(String::new()) };
    let m = Member::try_from(user).unwrap();
    assert!(m.avatar.is_none());
}

#[test]
fn member_from_search_result_with_bad_avatar_fails() {
    let user = User { user_id: "@bob:example.org".to_string(), display_name: None, avatar_url: Some("not a url".to_string()) };
    assert!(Member::try_from(user).is_err());
}

#[test]
fn member_from_joined_members_entry() {
    let rm = RoomMember { display_name: Some("Carol".to_string()), avatar_url: None };
    let m = Member::try_from(("@carol:example.org".to_string(), rm)).unwrap();
    assert_eq!(m.uid, "@carol:example.org");
    assert_eq!(m.get_alias(), "Carol");
    let bad = RoomMember { display_name: None, avatar_url: Some("::".to_string()) };
    assert!(Member::try_from(("@c:x.org".to_string(), bad)).is_err());
}
