//! What the library reads of a sync response: the events of the joined,
//! left and invited rooms, as far as rooms are built from them.

use crate::model::message::AnyRoomEvent;
use vstd::prelude::*;

verus! {

/// The membership a member event sets.
pub enum MembershipState {
    Join,
    Invite,
    Leave,
    Ban,
    Knock,
}

/// A state event of a room (or a stripped one, of an invited room).
pub enum StateEvent {
    RoomMember {
        sender: String,
        state_key: String,
        membership: MembershipState,
        displayname: Option<String>,
        avatar_url: Option<String>,
    },
    RoomName { name: Option<String> },
    RoomCanonicalAlias { alias: Option<String> },
    RoomAvatar { url: Option<String> },
    RoomTopic { topic: String },
    /// Power levels: those of the listed users, and the default one.
    RoomPowerLevels { users: Vec<(String, i64)>, users_default: i64 },
    Other,
}

/// An account data event of a room.
pub enum RoomAccountEvent {
    /// The tags of the room.
    Tag { tags: Vec<String> },
    /// A custom event: its type and, where its content holds one as a
    /// string, its `input_language`.
    Custom { event_type: String, input_language: Option<String> },
    Other,
}

/// A read receipt of a user; `ts` in milliseconds since the Unix epoch.
pub struct ReadReceipt {
    pub user_id: String,
    pub ts: Option<u64>,
}

/// The read receipts of an event.
pub struct EventReceipts {
    pub event_id: String,
    pub read: Vec<ReadReceipt>,
}

/// An ephemeral event of a room.
pub enum EphemeralEvent {
    Receipt(Vec<EventReceipts>),
    FullyRead(String),
    /// The users typing in the room.
    Typing(Vec<String>),
    Other,
}

/// A room the user has joined, as a sync response gives it.
pub struct JoinedRoom {
    pub id: String,
    pub state: Vec<StateEvent>,
    pub account_data: Vec<RoomAccountEvent>,
    pub ephemeral: Vec<EphemeralEvent>,
    pub notification_count: Option<u64>,
    pub highlight_count: Option<u64>,
    pub prev_batch: Option<String>,
    pub timeline: Vec<AnyRoomEvent>,
}

/// The last timeline event of a left room: its `sender` and its content's
/// `reason`, each where it is a string.
pub struct LeaveEvent {
    pub sender: Option<String>,
    pub reason: Option<String>,
}

/// A room the user has left.
pub struct LeftRoom {
    pub id: String,
    pub last_event: Option<LeaveEvent>,
}

/// A room the user is invited to, with its stripped state.
pub struct InvitedRoom {
    pub id: String,
    pub invite_state: Vec<StateEvent>,
}

/// A global account data event: its type and, where its content reads as a
/// map from user IDs to lists of room IDs, the lists.
pub struct GlobalAccountEvent {
    pub event_type: String,
    pub direct: Option<Vec<Vec<String>>>,
}

/// A sync response.
pub struct SyncResponse {
    pub account_data: Vec<GlobalAccountEvent>,
    pub join: Vec<JoinedRoom>,
    pub leave: Vec<LeftRoom>,
    pub invite: Vec<InvitedRoom>,
}

/// Whether `i` is the first position of `s` that satisfies `p`.
pub open spec fn is_first<T>(s: Seq<T>, p: spec_fn(T) -> bool, i: int) -> bool {
    0 <= i < s.len() && p(s[i]) && forall|j: int| 0 <= j < i ==> !p(#[trigger] s[j])
}

/// The first position of `s` that satisfies `p`, if any.
pub open spec fn find_first<T>(s: Seq<T>, p: spec_fn(T) -> bool) -> Option<int> {
    if exists|i: int| is_first(s, p, i) {
        Some(choose|i: int| is_first(s, p, i))
    } else {
        None
    }
}

/// The first position satisfying a predicate is the one found by a search
/// from the front.
pub proof fn lemma_find_first<T>(s: Seq<T>, p: spec_fn(T) -> bool, i: int)
    requires
        is_first(s, p, i),
    ensures
        find_first(s, p) == Some(i),
{
    let j = choose|j: int| is_first(s, p, j);
    if j < i {
        assert(!p(s[j]));
    }
    if i < j {
        assert(!p(s[i]));
    }
}

/// No position satisfies the predicate.
pub proof fn lemma_find_none<T>(s: Seq<T>, p: spec_fn(T) -> bool)
    requires
        forall|j: int| 0 <= j < s.len() ==> !p(#[trigger] s[j]),
    ensures
        find_first(s, p) is None,
{
}

} // verus!
