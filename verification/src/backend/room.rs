//! What the room requests decide: room privacy, push rules, the key of a
//! room detail, and the rooms that creating one gives.

use crate::model::member::{Member, MemberView};
use crate::model::message::{Message, MessageView};
use crate::model::room::{new_room, Room, RoomMembership, RoomMembershipView, RoomTag, RoomTagView, RoomView};
use crate::model::strmap::StrMap;
use crate::backend::{wrapped_debug, wrapped_debug_text, HandleError};
use vstd::prelude::*;

verus! {

/// Who may find and join a new room.
pub enum RoomType {
    Public,
    Private,
}

/// Whether a new room is listed in the directory.
pub enum Visibility {
    Public,
    Private,
}

/// The preset of a new room.
pub enum RoomPreset {
    PublicChat,
    PrivateChat,
}

/// The visibility and preset of a new room of the given kind.
pub fn room_settings(privacy: RoomType) -> (r: (Visibility, RoomPreset))
    ensures
        match privacy {
            RoomType::Public => r.0 is Public && r.1 is PublicChat,
            RoomType::Private => r.0 is Private && r.1 is PrivateChat,
        },
{
    match privacy {
        RoomType::Public => (Visibility::Public, RoomPreset::PublicChat),
        RoomType::Private => (Visibility::Private, RoomPreset::PrivateChat),
    }
}

/// The room that creating a room with the given name gives: joined,
/// untagged, with that name.
pub fn created_room(room_id: String, name: String) -> (r: Room)
    ensures
        r@ == (RoomView {
            name: Some(name@),
            ..new_room(room_id@, RoomMembershipView::Joined(RoomTagView::NoTag))
        }),
{
    let mut r = Room::new(room_id, RoomMembership::Joined(RoomTag::NoTag));
    r.name = Some(name);
    r
}

/// The room that opening a direct chat with `user` gives: joined,
/// untagged, direct, named after the user's display name.
pub fn direct_chat_room(room_id: String, user: &Member) -> (r: Room)
    ensures
        r@ == (RoomView {
            name: user@.alias,
            direct: true,
            ..new_room(room_id@, RoomMembershipView::Joined(RoomTagView::NoTag))
        }),
{
    let mut r = Room::new(room_id, RoomMembership::Joined(RoomTag::NoTag));
    r.name = crate::model::member::clone_opt_string(&user.alias);
    r.direct = true;
    r
}

/// Records a new direct chat with the user `uid` in the lists of direct
/// chats, by user: the room is appended to the user's list.
pub fn add_direct_chat(directs: &mut StrMap<Vec<String>>, uid: String, room_id: String)
    ensures
        final(directs).map() == old(directs).map().insert(
            uid@,
            if old(directs).map().dom().contains(uid@) {
                old(directs).map()[uid@].push(room_id@)
            } else {
                seq![room_id@]
            },
        ),
{
    let mut list = match directs.get(uid.as_str()) {
        Some(l) => crate::text::clone_strings(l),
        None => {
            let v: Vec<String> = Vec::new();
            assert(v.deep_view() =~= Seq::<Seq<char>>::empty());
            v
        },
    };
    let ghost before = list.deep_view();
    list.push(room_id);
    assert(list.deep_view() =~= before.push(room_id@));
    assert(seq![room_id@] =~= Seq::<Seq<char>>::empty().push(room_id@));
    directs.insert(uid, list);
}

/// Why a room detail could not be had.
pub enum RoomDetailError {
    MalformedKey,
    Matrix(String),
}

impl HandleError for RoomDetailError {
    open spec fn debug_view(&self) -> Seq<char> {
        match self {
            RoomDetailError::MalformedKey => "MalformedKey"@,
            RoomDetailError::Matrix(e) => wrapped_debug("Matrix"@, e@),
        }
    }

    fn debug_text(&self) -> (r: String) {
        match self {
            RoomDetailError::MalformedKey => "MalformedKey".to_owned(),
            RoomDetailError::Matrix(e) => wrapped_debug_text("Matrix", e.as_str()),
        }
    }
}

/// The last part of a dotted event type (such as `name` of
/// `m.room.name`): what follows the last dot, or all of it.
pub open spec fn last_dotted_part(s: Seq<char>) -> Seq<char>
    decreases s.len(),
{
    if s.len() == 0 {
        s
    } else if s.last() == '.' {
        Seq::empty()
    } else {
        last_dotted_part(s.drop_last()).push(s.last())
    }
}

/// The key under which the content of a state event of the given type
/// holds the detail: the last part of the dotted type. There always is
/// one, so `MalformedKey` is never returned.
pub fn room_detail_key(event_type: &str) -> (r: Result<String, RoomDetailError>)
    ensures
        r is Ok,
        r matches Ok(k) ==> k@ == last_dotted_part(event_type@),
{
    let cs = crate::text::chars_of(event_type);
    let mut key = String::new();
    let mut i: usize = 0;
    while i < cs.len()
        invariant
            i <= cs.len(),
            key@ == last_dotted_part(cs@.take(i as int)),
        decreases cs.len() - i,
    {
        proof {
            assert(cs@.take(i + 1 as int).drop_last() =~= cs@.take(i as int));
            assert(cs@.take(i + 1 as int).last() == cs@[i as int]);
        }
        if cs[i] == '.' {
            key = String::new();
        } else {
            crate::text::push_char(&mut key, cs[i]);
        }
        i = i + 1;
    }
    assert(cs@.take(cs.len() as int) =~= cs@);
    Ok(key)
}

/// The language a room's messages are checked in.
pub struct Language {
    pub input_language: String,
}

/// How the user is notified of a room's messages.
pub enum RoomNotify {
    All,
    DontNotify,
    NotSet,
}

/// An action of a push rule.
pub enum PushAction {
    Notify,
    DontNotify,
    Coalesce,
    /// Sets the sound tweak to the given sound.
    SetTweakSound(String),
    /// Any other tweak.
    SetTweakOther,
}

/// The notification setting that the actions of a room's push rule give:
/// the last of `notify` and `dont_notify`, or not set.
pub open spec fn notify_of(actions: Seq<PushAction>) -> RoomNotify
    decreases actions.len(),
{
    if actions.len() == 0 {
        RoomNotify::NotSet
    } else {
        match actions.last() {
            PushAction::Notify => RoomNotify::All,
            PushAction::DontNotify => RoomNotify::DontNotify,
            _ => notify_of(actions.drop_last()),
        }
    }
}

/// The notification setting that the actions of a room's push rule give.
pub fn notify_from_actions(actions: &Vec<PushAction>) -> (r: RoomNotify)
    ensures
        r == notify_of(actions@),
{
    let mut value = RoomNotify::NotSet;
    let mut i: usize = 0;
    while i < actions.len()
        invariant
            i <= actions.len(),
            value == notify_of(actions@.take(i as int)),
        decreases actions.len() - i,
    {
        proof {
            assert(actions@.take(i + 1 as int).drop_last() =~= actions@.take(i as int));
            assert(actions@.take(i + 1 as int).last() == actions@[i as int]);
        }
        match &actions[i] {
            PushAction::Notify => {
                value = RoomNotify::All;
            },
            PushAction::DontNotify => {
                value = RoomNotify::DontNotify;
            },
            _ => {},
        }
        i = i + 1;
    }
    assert(actions@.take(actions.len() as int) =~= actions@);
    value
}

/// A failed request for push rules, with the text of the server's error.
pub struct PushRulesError(pub String);

/// The server's answer to a request for a room's push rule: the rule's
/// actions, that there is no such rule (`M_NOT_FOUND`), or another error.
pub enum PushRulesAnswer {
    Rule(Vec<PushAction>),
    NotFound,
    Failed(String),
}

/// The notification setting of a room, from the answer to the request
/// for its push rule: what the rule's actions give; not set when the room
/// has no rule (which is not sent until one is set); an error otherwise.
pub fn get_pushrules(answer: PushRulesAnswer) -> (r: Result<RoomNotify, PushRulesError>)
    ensures
        match answer {
            PushRulesAnswer::Rule(actions) => r == Ok::<RoomNotify, PushRulesError>(notify_of(actions@)),
            PushRulesAnswer::NotFound => r == Ok::<RoomNotify, PushRulesError>(RoomNotify::NotSet),
            PushRulesAnswer::Failed(e) => r matches Err(PushRulesError(e2)) && e2@ == e@,
        },
{
    match answer {
        PushRulesAnswer::Rule(actions) => Ok(notify_from_actions(&actions)),
        PushRulesAnswer::NotFound => Ok(RoomNotify::NotSet),
        PushRulesAnswer::Failed(e) => Err(PushRulesError(e)),
    }
}

/// The actions of the push rule that sets a room's notifications; none
/// when the rule is to be deleted (not set).
pub fn pushrule_actions(notify: &RoomNotify) -> (r: Option<Vec<PushAction>>)
    ensures
        match *notify {
            RoomNotify::NotSet => r is None,
            RoomNotify::DontNotify => r matches Some(v) && v@.len() == 1 && v@[0] is DontNotify,
            RoomNotify::All => r matches Some(v) && v@.len() == 2 && v@[0] is Notify && (
            v@[1] matches PushAction::SetTweakSound(snd) && snd@ == "default"@),
        },
{
    match notify {
        RoomNotify::NotSet => None,
        RoomNotify::DontNotify => {
            let mut v = Vec::new();
            v.push(PushAction::DontNotify);
            Some(v)
        },
        RoomNotify::All => {
            let mut v = Vec::new();
            v.push(PushAction::Notify);
            v.push(PushAction::SetTweakSound("default".to_owned()));
            Some(v)
        },
    }
}


/// The fields of the content of a message event that is sent, in order:
/// the body and the message type; the URL when there is one; the
/// formatted body and its format when both are there. (The message's
/// extra content, raw JSON, is merged in after these.)
pub open spec fn content_fields(m: MessageView) -> Seq<(Seq<char>, Seq<char>)> {
    let base = seq![("body"@, m.body), ("msgtype"@, m.mtype)];
    let with_url = match m.url {
        Some(u) => base.push(("url"@, u)),
        None => base,
    };
    match (m.formatted_body, m.format) {
        (Some(fb), Some(f)) => with_url.push(("formatted_body"@, fb)).push(("format"@, f)),
        _ => with_url,
    }
}

/// The content fields of the event that sends `msg`, as (key, text)
/// pairs.
pub fn message_content(msg: &Message) -> (r: Vec<(String, String)>)
    ensures
        r.deep_view() == content_fields(msg@),
{
    let mut r: Vec<(String, String)> = Vec::new();
    r.push(("body".to_owned(), msg.body.clone()));
    r.push(("msgtype".to_owned(), msg.mtype.clone()));
    match &msg.url {
        Some(u) => r.push(("url".to_owned(), u.clone())),
        None => {},
    }
    match (&msg.formatted_body, &msg.format) {
        (Some(fb), Some(f)) => {
            r.push(("formatted_body".to_owned(), fb.clone()));
            r.push(("format".to_owned(), f.clone()));
        },
        _ => {},
    }
    assert(r.deep_view() =~= content_fields(msg@));
    r
}

} // verus!
