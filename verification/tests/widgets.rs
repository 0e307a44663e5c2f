use fractal_gtk::model::member::Member;
use fractal_gtk::model::message::Message;
use fractal_gtk::model::room::{Room, RoomMembership, RoomTag};
use fractal_gtk::model::strmap::StrMap;
use fractal_gtk::widgets::autocomplete::{
    autocomplete, autocomplete_arrow, completion_alias, get_byte_range, localpart, Autocomplete,
    Key, KeyPressAction, KeyReleaseAction,
};
use fractal_gtk::widgets::inline_player::{adjusted_height, format_duration};
use fractal_gtk::widgets::media_viewer::{
    add_older_media, media_positions, viewer_key_action, MediaNav, MediaViewerData, MoreMedia, ViewerAction,
    ViewerKey,
};
use fractal_gtk::widgets::message_menu::{menu_buttons, RowKind};
use fractal_gtk::widgets::members::{filter_rows, member_badge, member_list_badge, AvatarBadgeColor};
use fractal_gtk::widgets::message::{
    body_parts, highlight_username, kind_of_line, lines, olist_markup, trim_start_quote, ulist_markup,
    username_highlights, MsgPartType,
};
use fractal_gtk::widgets::room_history::{
    divider_after_add_bottom, find_all_visible_indices, find_visible_index, get_rel_position,
    has_header, should_group_message, split_position, LastRow, RelativePosition,
};
use fractal_gtk::widgets::roomlist::{
    group_of, insert_position, room_shown, RoomList, RoomListGroup, RoomListType, RoomUpdated,
};

fn member(uid: &str, alias: Option<&str>) -> Member {
    Member { uid: uid.to_string(), alias: alias.map(|a| a.to_string()), avatar: None }
}

fn chars(s: &str) -> Vec<char> {
    s.chars().collect()
}

// room history

#[test]
fn rel_position_above_in_below() {
    assert!(matches!(get_rel_position(-50, 50, 300), RelativePosition::Above));
    assert!(matches!(get_rel_position(-49, 50, 300), RelativePosition::In));
    assert!(matches!(get_rel_position(299, 50, 300), RelativePosition::In));
    assert!(matches!(get_rel_position(300, 50, 300), RelativePosition::Below));
}

fn laid_out_rows() -> Vec<RelativePosition> {
    vec![RelativePosition::Below, RelativePosition::Below, RelativePosition::In, RelativePosition::In, RelativePosition::In, RelativePosition::Above, RelativePosition::Above]
}

#[test]
fn visible_index_is_found_by_halving() {
    let rows = laid_out_rows();
    let i = find_visible_index(&rows, 0, rows.len() - 1).unwrap();
    assert!((2..=4).contains(&i));
}

#[test]
fn no_visible_index_when_none_is_in() {
    let rows = vec![RelativePosition::Below, RelativePosition::Below, RelativePosition::Above];
    assert_eq!(find_visible_index(&rows, 0, 2), None);
}

#[test]
fn all_visible_indices() {
    let rows = laid_out_rows();
    let mut found = find_all_visible_indices(&rows);
    found.sort();
    assert_eq!(found, vec![2, 3, 4]);
    assert!(find_all_visible_indices(&Vec::new()).is_empty());
}

#[test]
fn first_row_visible_comes_first() {
    let rows = vec![RelativePosition::In, RelativePosition::In, RelativePosition::Above];
    assert_eq!(find_all_visible_indices(&rows), vec![0, 1]);
}

#[test]
fn messages_group_under_thirty_minutes() {
    let minute = 60_000;
    assert!(should_group_message("@a:x.org", 29 * minute, "@a:x.org", 0, false));
    assert!(!should_group_message("@a:x.org", 30 * minute, "@a:x.org", 0, false));
    assert!(!should_group_message("@a:x.org", minute, "@b:x.org", 0, false));
    assert!(!should_group_message("@a:x.org", minute, "@a:x.org", 0, true));
}

#[test]
fn header_shown_after_nothing_hidden_after_divider() {
    assert!(has_header("@a:x.org", 10, &LastRow::Nothing));
    assert!(!has_header("@a:x.org", 10, &LastRow::Divider));
    let prev = LastRow::Message { sender: "@a:x.org".into(), date: 0, redacted: false, emote: false };
    assert!(!has_header("@a:x.org", 10, &prev));
    let emote = LastRow::Message { sender: "@a:x.org".into(), date: 0, redacted: false, emote: true };
    assert!(has_header("@a:x.org", 10, &emote));
    assert!(has_header("@b:x.org", 10, &prev));
}

#[test]
fn split_after_last_viewed() {
    assert_eq!(split_position(&vec![false, true, false, false]), 2);
    assert_eq!(split_position(&vec![false, false]), 2);
    assert_eq!(split_position(&vec![]), 0);
    assert_eq!(split_position(&vec![true, true]), 2);
}

#[test]
fn divider_moves_up_with_new_row() {
    assert_eq!(divider_after_add_bottom(Some(3)), Some(4));
    assert_eq!(divider_after_add_bottom(None), None);
}

// players

#[test]
fn durations_as_shown() {
    assert_eq!(format_duration(59), "00:59");
    assert_eq!(format_duration(0), "00:00");
    assert_eq!(format_duration(3599), "59:59");
    assert_eq!(format_duration(3600), "01:00:00");
    assert_eq!(format_duration(3661), "01:01:01");
    assert_eq!(format_duration(86399), "23:59:59");
}

#[test]
fn video_height_keeps_aspect() {
    assert_eq!(adjusted_height(320, 640, 480), 240);
    assert_eq!(adjusted_height(0, 640, 480), 0);
    assert_eq!(adjusted_height(-320, 640, 480), -240);
    assert_eq!(adjusted_height(7, -2, 1), -3);
    assert_eq!(adjusted_height(-7, -2, 1), 3);
}

// members

#[test]
fn list_badges_by_power_level() {
    assert!(matches!(member_list_badge(Some(100)), Some(AvatarBadgeColor::Gold)));
    assert!(matches!(member_list_badge(Some(99)), Some(AvatarBadgeColor::Silver)));
    assert!(matches!(member_list_badge(Some(50)), Some(AvatarBadgeColor::Silver)));
    assert!(matches!(member_list_badge(Some(49)), Some(AvatarBadgeColor::Grey)));
    assert!(matches!(member_list_badge(Some(1)), Some(AvatarBadgeColor::Grey)));
    assert!(member_list_badge(Some(0)).is_none());
    assert!(member_list_badge(Some(101)).is_none());
    assert!(member_list_badge(None).is_none());
}

#[test]
fn detail_badges_by_power_level() {
    assert!(member_badge(0).is_none());
    assert!(member_badge(49).is_none());
    assert!(matches!(member_badge(50), Some(AvatarBadgeColor::Silver)));
    assert!(matches!(member_badge(100), Some(AvatarBadgeColor::Gold)));
    assert!(matches!(member_badge(-1), Some(AvatarBadgeColor::Gold)));
}

#[test]
fn member_filter_is_case_insensitive() {
    let ms = vec![member("@alice:x.org", Some("Alice")), member("@bob:x.org", None)];
    let (shown, empty) = filter_rows(&ms, &Some("ALI".into())).unwrap();
    assert_eq!(shown, vec![true, false]);
    assert!(!empty);
    let (shown, empty) = filter_rows(&ms, &Some("zed".into())).unwrap();
    assert_eq!(shown, vec![false, false]);
    assert!(empty);
    assert!(filter_rows(&ms, &None).is_none());
}

#[test]
fn member_filter_falls_back_to_user_id() {
    let ms = vec![member("@bob:x.org", None)];
    let (shown, _) = filter_rows(&ms, &Some("bob".into())).unwrap();
    assert_eq!(shown, vec![true]);
}

// media viewer

#[test]
fn nav_buttons() {
    let n = MediaNav { len: 3, current_media_index: 0, no_more_media: true };
    assert_eq!(n.nav_btn_visibility(), (false, true));
    let n = MediaNav { len: 3, current_media_index: 2, no_more_media: false };
    assert_eq!(n.nav_btn_visibility(), (true, false));
}

#[test]
fn next_undoes_previous() {
    let mut n = MediaNav { len: 5, current_media_index: 3, no_more_media: false };
    assert!(n.previous_media());
    assert_eq!(n.current_media_index, 2);
    n.next_media();
    assert_eq!(n.current_media_index, 3);
}

#[test]
fn previous_at_first_asks_for_more() {
    let mut n = MediaNav { len: 2, current_media_index: 0, no_more_media: false };
    assert!(!n.previous_media());
    assert_eq!(n.current_media_index, 0);
    let mut n = MediaNav { len: 2, current_media_index: 1, no_more_media: true };
    assert!(n.previous_media());
    assert_eq!(n.current_media_index, 1);
}

#[test]
fn next_stops_at_last() {
    let mut n = MediaNav { len: 2, current_media_index: 1, no_more_media: false };
    n.next_media();
    assert_eq!(n.current_media_index, 1);
}

#[test]
fn media_among_messages() {
    let mk = |t: &str| Message::new("!r:x.org".into(), "@a:x.org".into(), "b".into(), t.into(), None);
    let msgs = vec![mk("m.text"), mk("m.image"), mk("m.file"), mk("m.video")];
    assert_eq!(media_positions(&msgs), vec![1, 3]);
}

// room list

fn room(id: &str, name: &str, notifications: u64) -> Room {
    let mut r = Room::new(id.into(), RoomMembership::Joined(RoomTag::NoTag));
    r.name = Some(name.into());
    r.notifications = notifications;
    r
}

const NEVER: i64 = -3_600_000;

fn room_at(id: &str, notifications: u64, date: i64) -> Room {
    let mut r = room(id, id, notifications);
    let mut m = Message::new(id.into(), "@a:x.org".into(), "b".into(), "m.text".into(), None);
    m.date = date;
    r.messages.push(m);
    r
}

fn up(r: Room) -> RoomUpdated {
    RoomUpdated::new(r, NEVER)
}

fn group(rooms: Vec<(&str, u64)>, selected: Option<usize>) -> RoomListGroup {
    let mut g = RoomListGroup::new();
    let mut t = 1000;
    for (id, n) in rooms {
        g.add_room(room_at(id, n, t), NEVER);
        t -= 1;
    }
    g.selected = selected;
    g
}

fn ids(g: &RoomListGroup) -> Vec<String> {
    g.roomvec.iter().map(|r| r.room.id.clone()).collect()
}

#[test]
fn groups_of_rooms() {
    assert!(matches!(group_of(&RoomMembership::Invited("@a:x.org".into())), RoomListType::Invites));
    assert!(matches!(group_of(&RoomMembership::Joined(RoomTag::Favourite)), RoomListType::Favorites));
    assert!(matches!(group_of(&RoomMembership::Joined(RoomTag::NoTag)), RoomListType::Rooms));
}

#[test]
fn rooms_ordered_by_update() {
    let mut g = RoomListGroup::new();
    g.add_room_up(up(room_at("!a", 0, 10)), NEVER);
    g.add_room_up(up(room_at("!b", 0, 30)), NEVER);
    g.add_room_up(up(room_at("!c", 0, 20)), NEVER);
    assert_eq!(ids(&g), vec!["!b", "!c", "!a"]);
    g.add_room_up(up(room_at("!a", 0, 40)), NEVER);
    assert_eq!(ids(&g), vec!["!b", "!c", "!a"]);
    assert_eq!(insert_position(&g.roomvec, 25), 1);
    assert_eq!(insert_position(&g.roomvec, 5), 3);
}

#[test]
fn remove_room_gives_it_back() {
    let mut g = group(vec![("!a", 0), ("!b", 0)], None);
    let r = g.remove_room("!a").unwrap();
    assert_eq!(r.room.id, "!a");
    assert_eq!(ids(&g), vec!["!b"]);
    assert!(g.remove_room("!z").is_none());
    assert_eq!(g.position("!b"), Some(0));
}

#[test]
fn room_updated_from_last_message() {
    assert_eq!(RoomUpdated::new(room("!a", "a", 0), -5).updated, -5);
    let mut r = room("!a", "a", 0);
    let mut m = Message::new("!a".into(), "@a:x.org".into(), "b".into(), "m.text".into(), None);
    m.date = 1234;
    r.messages.push(m);
    let mut u = RoomUpdated::new(r, -5);
    assert_eq!(u.updated, 1234);
    u.up(99);
    assert_eq!(u.updated, 99);
}

#[test]
fn notifications_counted() {
    let mut g = group(vec![("!a", 2), ("!b", 0), ("!c", 0)], None);
    g.roomvec[2].room.highlight = 1;
    assert_eq!(g.rooms_with_notifications(), 2);
}

#[test]
fn group_first_last_and_siblings() {
    let g = group(vec![("!a", 0), ("!b", 1), ("!c", 0), ("!d", 1)], Some(1));
    assert_eq!(g.first_id(false), Some("!a".into()));
    assert_eq!(g.first_id(true), Some("!b".into()));
    assert_eq!(g.last_id(false), Some("!d".into()));
    assert_eq!(g.last_id(true), Some("!d".into()));
    assert_eq!(g.sibling_id(false, 1), (Some("!c".into()), false, false));
    assert_eq!(g.sibling_id(true, 1), (Some("!d".into()), false, false));
    assert_eq!(g.sibling_id(true, -1), (None, true, false));
    let end = group(vec![("!a", 0)], Some(0));
    assert_eq!(end.sibling_id(false, 1), (None, false, true));
    assert_eq!(RoomListGroup::new().sibling_id(false, 1), (None, false, false));
}

#[test]
fn list_moves_across_groups() {
    let list = RoomList {
        inv: group(vec![("!i", 0)], Some(0)),
        fav: group(vec![("!f1", 0), ("!f2", 1)], None),
        rooms: group(vec![("!r1", 1)], None),
    };
    assert_eq!(list.next_id(), Some("!f1".into()));
    assert_eq!(list.next_unread_id(), Some("!f2".into()));
    assert_eq!(list.prev_id(), None);
    assert_eq!(list.first_id(), Some("!i".into()));
    assert_eq!(list.last_id(), Some("!r1".into()));
    assert_eq!(list.rooms_with_notifications(), 2);

    let list = RoomList {
        inv: group(vec![("!i", 0)], None),
        fav: group(vec![("!f1", 0)], None),
        rooms: group(vec![("!r1", 0), ("!r2", 0)], Some(0)),
    };
    assert_eq!(list.prev_id(), Some("!f1".into()));
    assert_eq!(list.next_id(), Some("!r2".into()));
    assert_eq!(list.prev_unread_id(), None);
}

#[test]
fn room_filter() {
    assert!(room_shown(&Some("Rust Lang".into()), &Some("rust".into())));
    assert!(!room_shown(&Some("Rust Lang".into()), &Some("go".into())));
    assert!(room_shown(&None, &None));
    assert!(room_shown(&None, &Some("".into())));
    assert!(!room_shown(&None, &Some("x".into())));
}

// completion

#[test]
fn key_press_with_open_list_selects() {
    let mut a = Autocomplete::new();
    assert!(matches!(a.key_press(Key::Tab, false), KeyPressAction::Stop));
    assert!(matches!(a.key_press(Key::Return, false), KeyPressAction::Pass));
    assert!(matches!(a.key_press(Key::Up, false), KeyPressAction::Pass));
    a.popover_position = Some(0);
    assert!(matches!(a.key_press(Key::Up, false), KeyPressAction::Select(-1)));
    assert!(matches!(a.key_press(Key::Down, false), KeyPressAction::Select(1)));
    assert!(!a.popover_closing);
    assert!(matches!(a.key_press(Key::Tab, false), KeyPressAction::Select(0)));
    assert!(a.popover_closing);
    assert!(matches!(a.key_press(Key::BackSpace, true), KeyPressAction::CloseAndPass));
    assert!(matches!(a.key_press(Key::BackSpace, false), KeyPressAction::Pass));
    assert!(matches!(a.key_press(Key::Other, false), KeyPressAction::Pass));
}

#[test]
fn key_release_starts_at_the_last_at() {
    let mut a = Autocomplete::new();
    let r = a.key_release(Key::Other, Some("hi @al".into()), 6);
    assert!(matches!(r, KeyReleaseAction::ShowCompletion));
    assert_eq!(a.popover_position, Some(3));
    assert_eq!(a.popover_search, Some("hi @al".into()));
    let r = a.key_release(Key::Other, Some("hi @al".into()), 6);
    assert!(matches!(r, KeyReleaseAction::Pass));
    let r = a.key_release(Key::Escape, None, 0);
    assert!(matches!(r, KeyReleaseAction::CloseAndStop));
    assert_eq!(a.popover_position, None);
}

#[test]
fn key_release_positions_are_bytes() {
    let mut a = Autocomplete::new();
    let r = a.key_release(Key::Other, Some("é @b".into()), 4);
    assert!(matches!(r, KeyReleaseAction::ShowCompletion));
    assert_eq!(a.popover_position, Some(3));
}

#[test]
fn key_release_tab_starts_at_word() {
    let mut a = Autocomplete::new();
    let r = a.key_release(Key::Tab, Some("hello al".into()), 8);
    assert!(matches!(r, KeyReleaseAction::ShowCompletion));
    assert_eq!(a.popover_position, Some(6));
    let mut b = Autocomplete::new();
    b.key_release(Key::Tab, Some("al".into()), 2);
    assert_eq!(b.popover_position, Some(0));
}

#[test]
fn key_release_tab_after_wide_space() {
    let mut a = Autocomplete::new();
    let r = a.key_release(Key::Tab, Some("a\u{a0}b".into()), 3);
    assert!(matches!(r, KeyReleaseAction::ShowCompletion));
    assert_eq!(a.popover_position, Some(2));
}

#[test]
fn key_release_arrows_do_not_search() {
    let mut a = Autocomplete::new();
    a.popover_position = Some(0);
    a.popover_search = Some("@a".into());
    let r = a.key_release(Key::Down, Some("@ab".into()), 3);
    assert!(matches!(r, KeyReleaseAction::Pass));
    assert_eq!(a.popover_search, Some("@a".into()));
}

#[test]
fn key_release_cursor_outside_text() {
    let mut a = Autocomplete::new();
    let r = a.key_release(Key::Other, Some("@a".into()), 5);
    assert!(matches!(r, KeyReleaseAction::Pass));
    assert_eq!(a.popover_search, Some("@a".into()));
    assert_eq!(a.popover_position, None);
}

#[test]
fn key_release_without_at_shows_nothing() {
    let mut a = Autocomplete::new();
    let r = a.key_release(Key::Other, Some("hello".into()), 5);
    assert!(matches!(r, KeyReleaseAction::Pass));
    assert_eq!(a.popover_position, None);
}

#[test]
fn key_release_after_tab_selection_passes() {
    let mut a = Autocomplete::new();
    a.popover_closing = true;
    a.popover_position = Some(2);
    assert!(matches!(a.key_release(Key::Tab, Some("x".into()), 1), KeyReleaseAction::Pass));
    assert!(!a.popover_closing);
}

#[test]
fn deleting_back_over_the_name_closes() {
    let mut a = Autocomplete::new();
    assert!(!a.closes_on_delete(0, 1));
    a.popover_position = Some(3);
    assert!(a.closes_on_delete(3, 4));
    assert!(a.closes_on_delete(2, 5));
    assert!(!a.closes_on_delete(5, 6));
    a.autocomplete_enter();
    assert_eq!(a.popover_position, None);
    assert_eq!(a.popover_search, None);
}

#[test]
fn byte_ranges_at_char_boundaries() {
    let t = chars("aé@b");
    assert_eq!(get_byte_range(&t, 0, 1), Some(chars("a")));
    assert_eq!(get_byte_range(&t, 1, 3), Some(chars("é")));
    assert_eq!(get_byte_range(&t, 3, 5), Some(chars("@b")));
    assert_eq!(get_byte_range(&t, 2, 3), None);
    assert_eq!(get_byte_range(&t, 3, 1), None);
    assert_eq!(get_byte_range(&t, 0, 9), None);
}

#[test]
fn localparts() {
    assert_eq!(localpart("@alice:x.org"), "alice");
    assert_eq!(localpart("@bob"), "bob");
    assert_eq!(localpart(""), "");
    assert_eq!(localpart(":x"), "");
}

#[test]
fn completion_matches_alias_or_localpart() {
    let mut ms = StrMap::new();
    ms.insert("@alice:x.org".into(), member("@alice:x.org", Some("Alice")));
    ms.insert("@bob:x.org".into(), member("@bob:x.org", Some("Robert")));
    ms.insert("@albert:x.org".into(), member("@albert:x.org", None));
    let r = autocomplete(&Some("hi @al".into()), 6, Some(3), &ms);
    let uids: Vec<String> = r.iter().map(|m| m.uid.clone()).collect();
    assert_eq!(uids, vec!["@alice:x.org", "@albert:x.org"]);
    let r = autocomplete(&Some("hi @ROB".into()), 7, Some(3), &ms);
    assert_eq!(r.len(), 1);
    assert!(autocomplete(&None, 6, Some(3), &ms).is_empty());
    assert!(autocomplete(&Some("hi".into()), 2, None, &ms).is_empty());
}

#[test]
fn completion_shows_at_most_five() {
    let mut ms = StrMap::new();
    for i in 0..8 {
        let uid = format!("@user{}:x.org", i);
        ms.insert(uid.clone(), member(&uid, None));
    }
    let r = autocomplete(&Some("@us".into()), 3, Some(0), &ms);
    assert_eq!(r.len(), 5);
    assert_eq!(r[0].uid, "@user0:x.org");
    assert_eq!(r[4].uid, "@user4:x.org");
}

#[test]
fn arrow_moves_wrap_around() {
    assert_eq!(autocomplete_arrow(None, 1, 3), Some(0));
    assert_eq!(autocomplete_arrow(None, 1, 0), None);
    assert_eq!(autocomplete_arrow(Some(0), -1, 3), Some(2));
    assert_eq!(autocomplete_arrow(Some(2), 1, 3), Some(0));
    assert_eq!(autocomplete_arrow(Some(1), 1, 3), Some(2));
    assert_eq!(autocomplete_arrow(Some(1), 0, 3), Some(1));
}

#[test]
fn irc_suffix_removed() {
    assert_eq!(completion_alias(&member("@a:x.org", Some("alice (IRC)"))), "alice");
    assert_eq!(completion_alias(&member("@a:x.org", Some("a (IRC) (IRC)"))), "a");
    assert_eq!(completion_alias(&member("@a:x.org", Some("alice"))), "alice");
    assert_eq!(completion_alias(&member("@a:x.org", None)), "");
}

// message bodies

#[test]
fn quote_lines() {
    assert!(matches!(kind_of_line("  > hi"), MsgPartType::Quote));
    assert!(matches!(kind_of_line("hi > there"), MsgPartType::Normal));
    assert_eq!(trim_start_quote("  >  hi"), "hi");
    assert_eq!(trim_start_quote("hi"), "i");
}

#[test]
fn lines_like_str_lines() {
    assert_eq!(lines("a\nb\r\nc"), vec!["a", "b", "c"]);
    assert_eq!(lines("a\n"), vec!["a"]);
    assert!(lines("").is_empty());
    assert_eq!(lines("\n\nx"), vec!["", "", "x"]);
}

#[test]
fn body_split_into_parts() {
    let parts = body_parts("> quoted\n> more\n\nreply\nsecond");
    assert_eq!(parts.len(), 2);
    assert!(matches!(parts[0].0, MsgPartType::Quote));
    assert_eq!(parts[0].1, "quoted\nmore");
    assert!(matches!(parts[1].0, MsgPartType::Normal));
    assert_eq!(parts[1].1, "reply\nsecond");
}

#[test]
fn body_without_quote_is_one_part() {
    let parts = body_parts("just text");
    assert_eq!(parts.len(), 1);
    assert!(matches!(parts[0].0, MsgPartType::Normal));
    assert_eq!(parts[0].1, "just text");
}

#[test]
fn mentions_highlighted_whole_without_selection() {
    assert_eq!(username_highlights("bob", "hi bob and bob", None), vec![(3, 6), (11, 14)]);
    assert_eq!(username_highlights("bob", "nothing here", None), vec![]);
    assert_eq!(username_highlights("aa", "aaaa", None), vec![(0, 2), (2, 4)]);
}

#[test]
fn mentions_positions_are_bytes() {
    assert_eq!(username_highlights("bob", "é bob", None), vec![(3, 6)]);
}

#[test]
fn mentions_skip_the_selection() {
    // selection inside the mention: the part after it, then the part before it
    assert_eq!(username_highlights("alice", "alice", Some((1, 3))), vec![(3, 5), (0, 1)]);
    // selection covering the start of the mention
    assert_eq!(username_highlights("bob", "xx bob", Some((0, 4))), vec![(4, 6)]);
    // selection covering the end of the mention
    assert_eq!(username_highlights("bob", "bob xx", Some((2, 6))), vec![(0, 2)]);
    // selection elsewhere
    assert_eq!(username_highlights("bob", "bob xx", Some((4, 6))), vec![(0, 3)]);
}

#[test]
fn mention_search_ignores_case() {
    assert_eq!(highlight_username("Bob", "Hi BOB", None), Some(vec![(3, 6)]));
    assert_eq!(highlight_username("", "Hi BOB", None), None);
}

#[test]
fn completed_names_highlighted_in_entry() {
    let mut a = Autocomplete::new();
    a.highlighted_entry.push("Alice".into());
    a.highlighted_entry.push("bob".into());
    assert_eq!(a.add_highlight("alice and BOB and ALICE"), vec![(0, 5), (18, 23), (10, 13)]);
    assert!(Autocomplete::new().add_highlight("alice").is_empty());
}

#[test]
fn empty_name_highlights_every_boundary() {
    let mut a = Autocomplete::new();
    a.highlighted_entry.push("".into());
    assert_eq!(a.add_highlight("ab"), vec![(0, 0), (1, 1), (2, 2)]);
}

#[test]
fn room_add_then_remove_restores() {
    let mut g = group(vec![("!a", 0), ("!b", 0), ("!c", 0)], None);
    let before = ids(&g);
    g.add_room_up(up(room_at("!n", 0, 999)), NEVER);
    assert_eq!(ids(&g), vec!["!a", "!b", "!n", "!c"]);
    g.remove_room("!n");
    assert_eq!(ids(&g), before);
}

#[test]
fn media_viewer_keys() {
    assert!(matches!(viewer_key_action(ViewerKey::Escape, true), ViewerAction::LeaveFullScreen));
    assert!(matches!(viewer_key_action(ViewerKey::Escape, false), ViewerAction::Pass));
    assert!(matches!(viewer_key_action(ViewerKey::Left, false), ViewerAction::Previous));
    assert!(matches!(viewer_key_action(ViewerKey::Right, true), ViewerAction::Next));
    assert!(matches!(viewer_key_action(ViewerKey::Other, true), ViewerAction::Pass));
}

fn media_msg(body: &str, mtype: &str) -> Message {
    Message::new("!r:x.org".into(), "@a:x.org".into(), body.into(), mtype.into(), None)
}

#[test]
fn older_media_go_first() {
    let mut list = vec![media_msg("shown", "m.image")];
    let mut current = 0;
    let r = add_older_media(&mut list, &mut current, vec![media_msg("a", "m.video"), media_msg("t", "m.text"), media_msg("b", "m.image")]);
    assert!(matches!(r, MoreMedia::Shown));
    let bodies: Vec<&str> = list.iter().map(|m| m.body.as_str()).collect();
    assert_eq!(bodies, vec!["a", "b", "shown"]);
    assert_eq!(current, 2);
    assert_eq!(list[current].body, "shown");
    let r = add_older_media(&mut list, &mut current, vec![media_msg("t", "m.text")]);
    assert!(matches!(r, MoreMedia::LoadAgain));
    assert_eq!(current, 2);
    assert_eq!(list.len(), 3);
    assert!(matches!(add_older_media(&mut list, &mut current, vec![]), MoreMedia::NoMore));
    assert_eq!(list.len(), 3);
}

#[test]
fn html_list_markup() {
    let items: Vec<String> = vec!["one".into(), "two".into()];
    assert_eq!(ulist_markup(&items), " • one\n • two");
    assert_eq!(olist_markup(&items), " 1. one\n 2. two");
    let many: Vec<String> = (0..12).map(|i| format!("x{}", i)).collect();
    assert!(olist_markup(&many).ends_with("\n 12. x11"));
    assert_eq!(ulist_markup(&vec![]), "");
}

#[test]
fn message_menu_buttons() {
    let b = menu_buttons("$e", RowKind::Image, true);
    assert!(b.delete_message && b.separator && b.open_with && b.save_image_as && b.copy_image);
    assert!(!b.save_video_as && !b.copy_text && !b.copy_selected);
    let b = menu_buttons("$e", RowKind::Video, false);
    assert!(!b.delete_message && b.open_with && b.save_video_as && !b.copy_image && !b.copy_text);
    let b = menu_buttons("$e", RowKind::Other, false);
    assert!(b.copy_text && !b.open_with && !b.save_image_as);
    assert_eq!(b.action_target, "$e");
}

#[test]
fn room_moved_up_keeps_time_of_its_last_message() {
    let mut g = group(vec![("!a", 0), ("!b", 0)], None);
    let mut r = g.remove_room("!b").unwrap();
    r.up(5000);
    g.add_room_up(r, NEVER);
    assert_eq!(ids(&g), vec!["!b", "!a"]);
    assert_eq!(g.roomvec[0].updated, 999);
    let mut bare = up(room("!c", "c", 0));
    assert_eq!(bare.updated, NEVER);
    bare.up(6000);
    g.add_room_up(bare, NEVER);
    assert_eq!(ids(&g), vec!["!c", "!b", "!a"]);
    assert_eq!(g.roomvec[0].updated, NEVER);
}

#[test]
fn room_added_at_the_end_once() {
    let mut g = group(vec![("!a", 0)], None);
    g.add_room(room_at("!z", 0, 5000), NEVER);
    g.add_room(room_at("!a", 0, 1), NEVER);
    assert_eq!(ids(&g), vec!["!a", "!z"]);
    assert_eq!(g.roomvec[1].updated, 5000);
}

fn viewer(bodies: &[&str], current: usize) -> MediaViewerData {
    let media_list = bodies
        .iter()
        .map(|b| {
            let mut m = media_msg(b, "m.image");
            m.id = Some(format!("${}", b));
            m
        })
        .collect();
    MediaViewerData { media_list, current_media_index: current, prev_batch: None, loading_more_media: false, no_more_media: false }
}

#[test]
fn viewer_moves_and_titles() {
    let mut v = viewer(&["a", "b", "c"], 1);
    assert_eq!(v.previous_media(), (true, Some("a".to_string())));
    assert_eq!(v.previous_media(), (false, None));
    assert_eq!(v.next_media(), Some("b".to_string()));
    assert_eq!(v.next_media(), Some("c".to_string()));
    assert_eq!(v.next_media(), None);
    v.no_more_media = true;
    assert_eq!(v.previous_media(), (true, None));
    assert_eq!(v.current_media_index, 2);
}

#[test]
fn viewer_loads_older_media() {
    let mut v = viewer(&["x"], 0);
    let req = v.start_loading_more();
    assert!(v.loading_more_media);
    assert_eq!(req, Some(("!r:x.org".to_string(), "$x".to_string(), None)));
    let (r, title) = v.older_media_loaded(
        vec![media_msg("a", "m.image"), media_msg("t", "m.text"), media_msg("b", "m.video")],
        "pb1".into(),
    );
    assert!(matches!(r, MoreMedia::Shown));
    assert_eq!(title, Some("b".to_string()));
    assert_eq!(v.current_media_index, 1);
    assert_eq!(v.prev_batch, Some("pb1".to_string()));
    assert!(!v.loading_more_media);
    let (r, _) = v.older_media_loaded(vec![media_msg("t", "m.text")], "pb2".into());
    assert!(matches!(r, MoreMedia::LoadAgain));
    assert_eq!(v.prev_batch, Some("pb2".to_string()));
    let (r, _) = v.older_media_loaded(vec![], "pb3".into());
    assert!(matches!(r, MoreMedia::NoMore));
    assert!(v.no_more_media);
    assert_eq!(v.prev_batch, Some("pb2".to_string()));
}

#[test]
fn viewer_without_event_id_asks_nothing() {
    let mut v = viewer(&["x"], 0);
    v.media_list[0].id = None;
    assert_eq!(v.start_loading_more(), None);
    assert!(v.loading_more_media);
}
