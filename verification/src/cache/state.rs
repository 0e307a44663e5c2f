//! The keys under which the client's state, rooms and messages are
//! stored, and what of a room is stored.

use crate::model::member::MemberView;
use crate::model::message::Message;
use crate::model::room::{Room, RoomView};
use vstd::prelude::*;

verus! {

/// The state of the session that is stored between runs.
pub struct AppState {
    pub since: Option<String>,
    pub username: String,
    pub uid: String,
    pub device_id: String,
}

impl AppState {
    /// The key of the stored state.
    pub fn key(&self) -> (k: String)
        ensures
            k@ == "state"@,
    {
        "state".to_owned()
    }
}

/// A stored room.
pub struct AppRoom {
    pub room: Room,
}

impl AppRoom {
    /// The key of a stored room: `room:` and its ID.
    pub fn key(&self) -> (k: String)
        ensures
            k@ == "room:"@ + self.room.id@,
    {
        let mut k = "room:".to_owned();
        k.append(self.room.id.as_str());
        k
    }

    /// The room as it is stored: without who is typing.
    pub fn new(room: Room) -> (a: AppRoom)
        ensures
            a.room@ == (RoomView { typing_users: Seq::<MemberView>::empty(), ..room@ }),
    {
        let mut stored = room;
        stored.typing_users = Vec::new();
        assert(stored.typing_users.deep_view() =~= Seq::<MemberView>::empty());
        AppRoom { room: stored }
    }
}

/// A stored message.
pub struct AppMsg {
    pub msg: Message,
}

impl AppMsg {
    /// The key of a stored message: `msg:`, its room ID, `:` and its event
    /// ID (empty when it has none).
    pub fn key(&self) -> (k: String)
        ensures
            k@ == "msg:"@ + self.msg.room@ + ":"@ + match self.msg.id {
                Some(id) => id@,
                None => Seq::<char>::empty(),
            },
    {
        let mut k = "msg:".to_owned();
        k.append(self.msg.room.as_str());
        k.append(":");
        match &self.msg.id {
            Some(id) => {
                k.append(id.as_str());
            },
            None => {},
        }
        k
    }
}

} // verus!
