//! Events read from their JSON: the last event of a left room, the
//! account data events of a room, and the global account data events
//! (among them the list of direct chats).

use crate::model::sync_response::{GlobalAccountEvent, LeaveEvent, RoomAccountEvent};
use crate::outside::{
    is_room_id, json_items, json_items_of, json_member, json_member_of, json_members, json_members_of, json_str,
    json_str_of, room_id_valid,
};
use vstd::prelude::*;

verus! {

/// The string that the member `key` of the JSON object `text` holds, if
/// it holds one.
pub open spec fn json_str_member(text: Seq<char>, key: Seq<char>) -> Option<Seq<char>> {
    match json_member_of(text, key) {
        Some(m) => json_str_of(m),
        None => None,
    }
}

/// The string that the member `key` of the JSON object `text` holds.
pub fn str_member(text: &str, key: &str) -> (r: Option<String>)
    ensures
        r.deep_view() == json_str_member(text@, key@),
{
    match json_member(text, key) {
        Some(m) => json_str(m.as_str()),
        None => None,
    }
}

/// The reason that the content of the event `json` gives, if it is a
/// string.
pub open spec fn content_reason(json: Seq<char>) -> Option<Seq<char>> {
    match json_member_of(json, "content"@) {
        Some(c) => json_str_member(c, "reason"@),
        None => None,
    }
}

/// The last timeline event of a left room, read from its JSON: its
/// `sender` and its content's `reason`, each where it is a string.
pub fn leave_event(json: &str) -> (r: LeaveEvent)
    ensures
        r.sender.deep_view() == json_str_member(json@, "sender"@),
        r.reason.deep_view() == content_reason(json@),
{
    let sender = str_member(json, "sender");
    let reason = match json_member(json, "content") {
        Some(c) => str_member(c.as_str(), "reason"),
        None => None,
    };
    LeaveEvent { sender, reason }
}

/// The members of the `tags` object of the content of the event `json`.
pub open spec fn tag_members(json: Seq<char>) -> Option<Seq<(Seq<char>, Seq<char>)>> {
    match json_member_of(json, "content"@) {
        Some(c) => match json_member_of(c, "tags"@) {
            Some(t) => json_members_of(t),
            None => None,
        },
        None => None,
    }
}

/// The names of the tags of a tag event, read from its members.
pub open spec fn tag_names(ms: Seq<(Seq<char>, Seq<char>)>) -> Seq<Seq<char>> {
    ms.map_values(|m: (Seq<char>, Seq<char>)| m.0)
}

/// A room's account data event, read from its JSON. A `m.tag` event whose
/// content holds a `tags` object gives the names of its tags; an event of
/// another type with a content gives that type and the content's
/// `input_language`, where it is a string; any other event is of no use.
pub fn room_account_event(json: &str) -> (r: RoomAccountEvent)
    ensures
        match json_str_member(json@, "type"@) {
            Some(t) => if t == "m.tag"@ {
                match tag_members(json@) {
                    Some(ms) => r matches RoomAccountEvent::Tag { tags } && tags.deep_view() == tag_names(ms),
                    None => r is Other,
                }
            } else {
                match json_member_of(json@, "content"@) {
                    Some(c) => r matches RoomAccountEvent::Custom { event_type, input_language } && event_type@
                        == t && input_language.deep_view() == json_str_member(c, "input_language"@),
                    None => r is Other,
                }
            },
            None => r is Other,
        },
{
    let t = match str_member(json, "type") {
        Some(t) => t,
        None => return RoomAccountEvent::Other,
    };
    let content = match json_member(json, "content") {
        Some(c) => c,
        None => {
            proof {
                reveal_strlit("m.tag");
            }
            return RoomAccountEvent::Other;
        },
    };
    if crate::text::str_eq(t.as_str(), "m.tag") {
        let ms = match json_member(content.as_str(), "tags") {
            Some(tg) => json_members(tg.as_str()),
            None => None,
        };
        match ms {
            Some(ms) => {
                let mut tags: Vec<String> = Vec::new();
                let mut i: usize = 0;
                while i < ms.len()
                    invariant
                        i <= ms.len(),
                        tags.deep_view() == tag_names(ms.deep_view().take(i as int)),
                    decreases ms.len() - i,
                {
                    let ghost before = tags.deep_view();
                    tags.push(ms[i].0.clone());
                    proof {
                        assert(ms.deep_view()[i as int].0 == ms@[i as int].0@);
                        assert(tags.deep_view() =~= before.push(ms@[i as int].0@));
                        assert(ms.deep_view().take(i + 1 as int) =~= ms.deep_view().take(i as int).push(
                            ms.deep_view()[i as int],
                        ));
                        assert(tags.deep_view() =~= tag_names(ms.deep_view().take(i + 1 as int)));
                    }
                    i = i + 1;
                }
                assert(ms.deep_view().take(ms.len() as int) =~= ms.deep_view());
                RoomAccountEvent::Tag { tags }
            },
            None => RoomAccountEvent::Other,
        }
    } else {
        let input_language = str_member(content.as_str(), "input_language");
        RoomAccountEvent::Custom { event_type: t, input_language }
    }
}

/// Whether an item of a JSON array is a string that is a valid room ID.
pub open spec fn is_room_id_item(item: Seq<char>) -> bool {
    json_str_of(item) is Some && room_id_valid(json_str_of(item)->Some_0)
}

/// The room IDs that the JSON array `text` lists: none unless it is an
/// array of strings that are all valid room IDs.
pub open spec fn room_ids_of(text: Seq<char>) -> Option<Seq<Seq<char>>> {
    match json_items_of(text) {
        Some(items) => if forall|j: int| 0 <= j < items.len() ==> is_room_id_item(#[trigger] items[j]) {
            Some(items.map_values(|x: Seq<char>| json_str_of(x)->Some_0))
        } else {
            None
        },
        None => None,
    }
}

/// The lists of room IDs that the JSON object `text` maps its keys to:
/// none unless it is an object whose values all read as lists of room IDs.
pub open spec fn direct_lists_of(text: Seq<char>) -> Option<Seq<Seq<Seq<char>>>> {
    match json_members_of(text) {
        Some(ms) => if forall|i: int| 0 <= i < ms.len() ==> (#[trigger] room_ids_of(ms[i].1)) is Some {
            Some(ms.map_values(|m: (Seq<char>, Seq<char>)| room_ids_of(m.1)->Some_0))
        } else {
            None
        },
        None => None,
    }
}

/// The room IDs that the JSON array `text` lists.
fn room_ids(text: &str) -> (r: Option<Vec<String>>)
    ensures
        r.deep_view() == room_ids_of(text@),
{
    let items = match json_items(text) {
        Some(items) => items,
        None => return None,
    };
    let ghost its = items.deep_view();
    let mut out: Vec<String> = Vec::new();
    let mut j: usize = 0;
    while j < items.len()
        invariant
            j <= items.len(),
            its == items.deep_view(),
            json_items_of(text@) == Some(its),
            its.len() == items@.len(),
            forall|k: int| 0 <= k < j ==> is_room_id_item(#[trigger] its[k]),
            out.deep_view() == its.take(j as int).map_values(|x: Seq<char>| json_str_of(x)->Some_0),
        decreases items.len() - j,
    {
        assert(its[j as int] == items@[j as int]@);
        let ghost before = out.deep_view();
        match json_str(items[j].as_str()) {
            Some(s) => {
                if is_room_id(s.as_str()) {
                    out.push(s);
                } else {
                    assert(!is_room_id_item(its[j as int]));
                    return None;
                }
            },
            None => {
                assert(!is_room_id_item(its[j as int]));
                return None;
            },
        }
        proof {
            assert(out.deep_view() =~= before.push(json_str_of(its[j as int])->Some_0));
            assert(its.take(j + 1 as int) =~= its.take(j as int).push(its[j as int]));
            assert(out.deep_view() =~= its.take(j + 1 as int).map_values(|x: Seq<char>| json_str_of(x)->Some_0));
        }
        j = j + 1;
    }
    assert(its.take(items.len() as int) =~= its);
    Some(out)
}

/// The lists of room IDs that the JSON object `text` maps its keys to.
fn direct_lists(text: &str) -> (r: Option<Vec<Vec<String>>>)
    ensures
        r.deep_view() == direct_lists_of(text@),
{
    let ms = match json_members(text) {
        Some(ms) => ms,
        None => return None,
    };
    let ghost mv = ms.deep_view();
    let mut out: Vec<Vec<String>> = Vec::new();
    let mut i: usize = 0;
    while i < ms.len()
        invariant
            i <= ms.len(),
            mv == ms.deep_view(),
            json_members_of(text@) == Some(mv),
            mv.len() == ms@.len(),
            forall|k: int| 0 <= k < i ==> (#[trigger] room_ids_of(mv[k].1)) is Some,
            out.deep_view() == mv.take(i as int).map_values(
                |m: (Seq<char>, Seq<char>)| room_ids_of(m.1)->Some_0,
            ),
        decreases ms.len() - i,
    {
        assert(mv[i as int].1 == ms@[i as int].1@);
        let ghost before = out.deep_view();
        match room_ids(ms[i].1.as_str()) {
            Some(ids) => out.push(ids),
            None => {
                assert(room_ids_of(mv[i as int].1) is None);
                return None;
            },
        }
        proof {
            assert(out.deep_view() =~= before.push(room_ids_of(mv[i as int].1)->Some_0));
            assert(mv.take(i + 1 as int) =~= mv.take(i as int).push(mv[i as int]));
            assert(out.deep_view() =~= mv.take(i + 1 as int).map_values(
                |m: (Seq<char>, Seq<char>)| room_ids_of(m.1)->Some_0,
            ));
        }
        i = i + 1;
    }
    assert(mv.take(ms.len() as int) =~= mv);
    Some(out)
}

/// A global account data event, read from its JSON: its `type` (empty
/// when it has none that is a string) and, where its content maps keys to
/// lists of valid room IDs, those lists. The keys are not read: servers
/// have sent keys that are not user IDs.
pub fn global_account_event(json: &str) -> (r: GlobalAccountEvent)
    ensures
        r.event_type@ == match json_str_member(json@, "type"@) {
            Some(t) => t,
            None => Seq::empty(),
        },
        r.direct.deep_view() == match json_member_of(json@, "content"@) {
            Some(c) => direct_lists_of(c),
            None => None,
        },
{
    let event_type = match str_member(json, "type") {
        Some(t) => t,
        None => String::new(),
    };
    let direct = match json_member(json, "content") {
        Some(c) => direct_lists(c.as_str()),
        None => None,
    };
    GlobalAccountEvent { event_type, direct }
}

} // verus!
