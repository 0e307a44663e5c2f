//! What the sync loop decides: how long to wait after a failed sync, the
//! room changes that the timelines of a sync bring, and who is typing.

use crate::model::member::{Member, MemberView};
use crate::model::message::AnyRoomEvent;
use crate::model::room::{
    invited_views, is_direct_room, joined_view, left_view, new_room, shown_as, Room, RoomMembership,
    RoomMembershipView, RoomTag, RoomTagView, RoomView,
};
use crate::model::sync_response::{EphemeralEvent, JoinedRoom, MembershipState, StateEvent, SyncResponse};
use vstd::arithmetic::power2::{lemma2_to64_rest, lemma_pow2_strictly_increases, lemma_pow2_unfold, pow2};
use vstd::prelude::*;

verus! {

/// The seconds to wait before syncing again after a failed sync: 10, or
/// `10 * 2^tries` when the server answered 429 (Too Many Requests).
pub open spec fn retry_delay(status: Option<u16>, tries: u32) -> int {
    if status == Some(429u16) {
        (10 * pow2(tries as nat)) as int
    } else {
        10
    }
}

/// The seconds to wait before syncing again after a failed sync with the
/// given HTTP status, after `tries` failures.
pub fn sync_retry_delay(status: Option<u16>, tries: u32) -> (secs: u64)
    requires
        status == Some(429u16) ==> tries <= 60,
    ensures
        secs == retry_delay(status, tries),
{
    match status {
        Some(code) => {
            if code == 429 {
                let mut p: u64 = 1;
                let mut i: u32 = 0;
                proof {
                    lemma2_to64_rest();
                    assert(pow2(0) == 1) by {
                        vstd::arithmetic::power2::lemma2_to64();
                    }
                }
                while i < tries
                    invariant
                        i <= tries,
                        tries <= 60,
                        p == pow2(i as nat),
                        pow2(60) == 0x1000000000000000,
                    decreases tries - i,
                {
                    proof {
                        lemma_pow2_unfold((i + 1) as nat);
                        if i + 1 < 60 {
                            lemma_pow2_strictly_increases((i + 1) as nat, 60);
                        }
                    }
                    p = p * 2;
                    i = i + 1;
                }
                proof {
                    if tries < 60 {
                        lemma_pow2_strictly_increases(tries as nat, 60);
                    }
                }
                return 10 * p;
            }
            10
        },
        None => 10,
    }
}

/// A change to a room that an event of a sync timeline brings.
pub enum RoomElement {
    /// The room with this ID has the given name.
    Name(String, String),
    Topic(String, String),
    NewAvatar(String),
    /// A member event of the room with this ID.
    MemberEvent(String, StateEvent),
    /// The message with the given event ID is to be removed.
    RemoveMessage(String, String),
}

/// The mathematical value of a [`RoomElement`].
pub enum RoomElementView {
    Name(Seq<char>, Seq<char>),
    Topic(Seq<char>, Seq<char>),
    NewAvatar(Seq<char>),
    MemberEvent(Seq<char>, StateEvent),
    RemoveMessage(Seq<char>, Seq<char>),
}

impl View for RoomElement {
    type V = RoomElementView;

    open spec fn view(&self) -> RoomElementView {
        match self {
            RoomElement::Name(r, n) => RoomElementView::Name(r@, n@),
            RoomElement::Topic(r, t) => RoomElementView::Topic(r@, t@),
            RoomElement::NewAvatar(r) => RoomElementView::NewAvatar(r@),
            RoomElement::MemberEvent(r, e) => RoomElementView::MemberEvent(r@, *e),
            RoomElement::RemoveMessage(r, e) => RoomElementView::RemoveMessage(r@, e@),
        }
    }
}

impl DeepView for RoomElement {
    type V = RoomElementView;

    open spec fn deep_view(&self) -> RoomElementView {
        self@
    }
}

/// The change an event of a room's timeline brings: a new name (empty
/// when unset), topic or avatar, a member event, or a redaction. Messages
/// and other events bring none here.
pub open spec fn element_of(room_id: Seq<char>, ev: AnyRoomEvent) -> Option<RoomElementView> {
    match ev {
        AnyRoomEvent::State(StateEvent::RoomName { name }) => Some(
            RoomElementView::Name(
                room_id,
                match name {
                    Some(n) => n@,
                    None => Seq::empty(),
                },
            ),
        ),
        AnyRoomEvent::State(StateEvent::RoomTopic { topic }) => Some(
            RoomElementView::Topic(room_id, topic@),
        ),
        AnyRoomEvent::State(StateEvent::RoomAvatar { .. }) => Some(RoomElementView::NewAvatar(room_id)),
        AnyRoomEvent::State(StateEvent::RoomMember { sender, state_key, membership, displayname, avatar_url }) => Some(
            RoomElementView::MemberEvent(
                room_id,
                StateEvent::RoomMember { sender, state_key, membership, displayname, avatar_url },
            ),
        ),
        AnyRoomEvent::Redaction { redacts } => Some(RoomElementView::RemoveMessage(room_id, redacts@)),
        _ => None,
    }
}

/// The changes that a room's timeline brings, in order.
pub open spec fn timeline_elements(room_id: Seq<char>, evs: Seq<AnyRoomEvent>) -> Seq<RoomElementView>
    decreases evs.len(),
{
    if evs.len() == 0 {
        Seq::empty()
    } else {
        let p = timeline_elements(room_id, evs.drop_last());
        match element_of(room_id, evs.last()) {
            Some(e) => p.push(e),
            None => p,
        }
    }
}

/// The changes that the timelines of the joined rooms bring, room after
/// room.
pub open spec fn elements_of(rooms: Seq<JoinedRoom>) -> Seq<RoomElementView>
    decreases rooms.len(),
{
    if rooms.len() == 0 {
        Seq::empty()
    } else {
        elements_of(rooms.drop_last()) + timeline_elements(rooms.last().id@, rooms.last().timeline@)
    }
}

/// A copy of a membership state.
fn duplicate_membership(m: &MembershipState) -> (r: MembershipState)
    ensures
        r == *m,
{
    match m {
        MembershipState::Join => MembershipState::Join,
        MembershipState::Invite => MembershipState::Invite,
        MembershipState::Leave => MembershipState::Leave,
        MembershipState::Ban => MembershipState::Ban,
        MembershipState::Knock => MembershipState::Knock,
    }
}

/// A copy of an optional string, equal to it.
fn clone_option(s: &Option<String>) -> (r: Option<String>)
    ensures
        r == *s,
{
    match s {
        Some(x) => Some(x.clone()),
        None => None,
    }
}

/// A copy of a member event.
fn duplicate_member_event(e: &StateEvent) -> (r: StateEvent)
    requires
        *e is RoomMember,
    ensures
        r == *e,
{
    match e {
        StateEvent::RoomMember { sender, state_key, membership, displayname, avatar_url } => {
            StateEvent::RoomMember {
                sender: sender.clone(),
                state_key: state_key.clone(),
                membership: duplicate_membership(membership),
                displayname: clone_option(displayname),
                avatar_url: clone_option(avatar_url),
            }
        },
        _ => StateEvent::Other,
    }
}

/// The change an event of a room's timeline brings, if any.
fn element_from(room_id: &String, ev: &AnyRoomEvent) -> (r: Option<RoomElement>)
    ensures
        r.deep_view() == element_of(room_id@, *ev),
{
    match ev {
        AnyRoomEvent::State(StateEvent::RoomName { name }) => Some(
            RoomElement::Name(
                room_id.clone(),
                match name {
                    Some(n) => n.clone(),
                    None => String::new(),
                },
            ),
        ),
        AnyRoomEvent::State(StateEvent::RoomTopic { topic }) => Some(
            RoomElement::Topic(room_id.clone(), topic.clone()),
        ),
        AnyRoomEvent::State(StateEvent::RoomAvatar { .. }) => Some(RoomElement::NewAvatar(room_id.clone())),
        AnyRoomEvent::State(e) => match e {
            StateEvent::RoomMember { .. } => Some(RoomElement::MemberEvent(room_id.clone(), duplicate_member_event(e))),
            _ => None,
        },
        AnyRoomEvent::Redaction { redacts } => Some(
            RoomElement::RemoveMessage(room_id.clone(), redacts.clone()),
        ),
        _ => None,
    }
}

/// The changes that the timelines of the joined rooms of a sync bring.
pub fn room_elements(rooms: &Vec<JoinedRoom>) -> (r: Vec<RoomElement>)
    ensures
        r.deep_view() == elements_of(rooms@),
{
    let mut r: Vec<RoomElement> = Vec::new();
    let mut i: usize = 0;
    while i < rooms.len()
        invariant
            i <= rooms.len(),
            r.deep_view() == elements_of(rooms@.take(i as int)),
        decreases rooms.len() - i,
    {
        let room = &rooms[i];
        let ghost before = r.deep_view();
        let mut j: usize = 0;
        while j < room.timeline.len()
            invariant
                j <= room.timeline.len(),
                r.deep_view() == before + timeline_elements(room.id@, room.timeline@.take(j as int)),
            decreases room.timeline.len() - j,
        {
            proof {
                assert(room.timeline@.take(j + 1 as int).drop_last() =~= room.timeline@.take(j as int));
                assert(room.timeline@.take(j + 1 as int).last() == room.timeline@[j as int]);
            }
            let ghost prev = r.deep_view();
            match element_from(&room.id, &room.timeline[j]) {
                Some(e) => {
                    r.push(e);
                    assert(r.deep_view() =~= prev.push(element_of(room.id@, room.timeline@[j as int])->Some_0));
                },
                None => {},
            }
            assert(r.deep_view() =~= before + timeline_elements(room.id@, room.timeline@.take(j + 1 as int)));
            j = j + 1;
        }
        proof {
            assert(room.timeline@.take(room.timeline.len() as int) =~= room.timeline@);
            assert(rooms@.take(i + 1 as int).drop_last() =~= rooms@.take(i as int));
            assert(rooms@.take(i + 1 as int).last() == rooms@[i as int]);
        }
        i = i + 1;
    }
    assert(rooms@.take(rooms.len() as int) =~= rooms@);
    r
}

/// The users typing in a room, other than `user_id`, in order.
pub open spec fn typing_of(evs: Seq<EphemeralEvent>, user_id: Seq<char>) -> Seq<Seq<char>>
    decreases evs.len(),
{
    if evs.len() == 0 {
        Seq::empty()
    } else {
        typing_of(evs.drop_last(), user_id) + match evs.last() {
            EphemeralEvent::Typing(ids) => ids.deep_view().filter(other_user(user_id)),
            _ => Seq::empty(),
        }
    }
}

/// Whether a user is another than `user_id`.
pub open spec fn other_user(user_id: Seq<char>) -> spec_fn(Seq<char>) -> bool {
    |u: Seq<char>| u != user_id
}

/// A member known by user ID alone.
pub open spec fn bare_member(uid: Seq<char>) -> MemberView {
    MemberView { uid, alias: None, avatar: None }
}

/// The room update a joined room of a sync gives about who is typing:
/// joined, untagged, with the users typing other than `user_id`.
pub open spec fn typing_room_view(jr: JoinedRoom, user_id: Seq<char>) -> RoomView {
    RoomView {
        typing_users: typing_of(jr.ephemeral@, user_id).map_values(|u: Seq<char>| bare_member(u)),
        ..new_room(jr.id@, RoomMembershipView::Joined(RoomTagView::NoTag))
    }
}

/// The room update about who is typing in a joined room of a sync.
pub fn typing_room(jr: &JoinedRoom, user_id: &String) -> (r: Room)
    ensures
        r@ == typing_room_view(*jr, user_id@),
{
    let mut typing: Vec<Member> = Vec::new();
    let mut i: usize = 0;
    let evs = &jr.ephemeral;
    while i < evs.len()
        invariant
            i <= evs.len(),
            typing.deep_view() == typing_of(evs@.take(i as int), user_id@).map_values(
                |u: Seq<char>| bare_member(u),
            ),
        decreases evs.len() - i,
    {
        proof {
            assert(evs@.take(i + 1 as int).drop_last() =~= evs@.take(i as int));
            assert(evs@.take(i + 1 as int).last() == evs@[i as int]);
        }
        let ghost before = typing.deep_view();
        match &evs[i] {
            EphemeralEvent::Typing(ids) => {
                let mut j: usize = 0;
                while j < ids.len()
                    invariant
                        j <= ids.len(),
                        typing.deep_view() == before + ids.deep_view().take(j as int).filter(other_user(user_id@)).map_values(
                            |u: Seq<char>| bare_member(u),
                        ),
                    decreases ids.len() - j,
                {
                    proof {
                        reveal_with_fuel(Seq::<Seq<char>>::filter, 1);
                        let t = ids.deep_view().take(j + 1 as int);
                        assert(t.drop_last() =~= ids.deep_view().take(j as int));
                        assert(t.last() == ids.deep_view()[j as int]);
                    }
                    let ghost prev = typing.deep_view();
                    let other = !crate::text::str_eq(ids[j].as_str(), user_id.as_str());
                    assert(other == other_user(user_id@)(ids.deep_view()[j as int]));
                    if other {
                        typing.push(Member { uid: ids[j].clone(), alias: None, avatar: None });
                        assert(typing.deep_view() =~= prev.push(bare_member(ids.deep_view()[j as int])));
                    }
                    assert(typing.deep_view() =~= before + ids.deep_view().take(j + 1 as int).filter(other_user(user_id@)).map_values(
                        |u: Seq<char>| bare_member(u),
                    ));
                    j = j + 1;
                }
                assert(ids.deep_view().take(ids.len() as int) =~= ids.deep_view());
            },
            _ => {},
        }
        assert(typing.deep_view() =~= typing_of(evs@.take(i + 1 as int), user_id@).map_values(
            |u: Seq<char>| bare_member(u),
        ));
        i = i + 1;
    }
    assert(evs@.take(evs.len() as int) =~= evs@);
    let mut r = Room::new(jr.id.clone(), RoomMembership::Joined(RoomTag::NoTag));
    r.typing_users = typing;
    r
}

/// The position of the first room with the given ID.
pub fn find_room(rooms: &Vec<Room>, room_id: &str) -> (r: Option<usize>)
    ensures
        match r {
            Some(i) => i < rooms@.len() && rooms@[i as int].id@ == room_id@ && forall|j: int|
                0 <= j < i ==> (#[trigger] rooms@[j]).id@ != room_id@,
            None => forall|j: int| 0 <= j < rooms@.len() ==> (#[trigger] rooms@[j]).id@ != room_id@,
        },
{
    let mut i: usize = 0;
    while i < rooms.len()
        invariant
            i <= rooms.len(),
            forall|j: int| 0 <= j < i ==> (#[trigger] rooms@[j]).id@ != room_id@,
        decreases rooms.len() - i,
    {
        if crate::text::str_eq(rooms[i].id.as_str(), room_id) {
            return Some(i);
        }
        i = i + 1;
    }
    None
}

/// What a sync gives: on the first sync, all rooms and the position among
/// them of the room to open; on a later one, what changed. Each carries
/// the token to sync from next.
pub enum SyncRet {
    NoSince { rooms: Vec<Room>, default: Option<usize>, next_batch: String },
    WithSince {
        update_rooms: Vec<Room>,
        /// Each joined room's ID with its notification and highlight counts.
        room_notifications: Vec<(String, Option<u64>, Option<u64>)>,
        /// Each joined room with who is typing in it.
        typing: Vec<Room>,
        other: Vec<RoomElement>,
        next_batch: String,
    },
}

/// Whether `r` are the rooms a sync response gives for the user
/// `user_id`, as `Room::from_sync_response` states them.
pub open spec fn synced_rooms(response: SyncResponse, user_id: Seq<char>, r: Vec<Room>) -> bool {
    &&& r.len() >= response.join@.len() + response.leave@.len()
    &&& forall|i: int|
        0 <= i < response.join@.len() ==> (#[trigger] r@[i])@ == joined_view(
            response.join@[i],
            user_id,
            is_direct_room(response.account_data@, response.join@[i].id@),
            r@[i].members.pairs().filter(shown_as(user_id)).len(),
        )
    &&& forall|i: int|
        0 <= i < response.leave@.len() ==> (#[trigger] r@[response.join@.len() + i])@ == left_view(
            response.leave@[i],
            user_id,
        )
    &&& r.deep_view().skip((response.join@.len() + response.leave@.len()) as int) == invited_views(
        response.invite@,
        user_id,
        response.account_data@,
    )
}

/// A count that may be missing is its own deep view.
proof fn lemma_count_deep_view(o: Option<u64>)
    ensures
        o.deep_view() == o,
{
    match o {
        Some(x) => {},
        None => {},
    }
}

/// The notification counts of the joined rooms, in order.
pub open spec fn notifications_of(join: Seq<JoinedRoom>) -> Seq<(Seq<char>, Option<u64>, Option<u64>)> {
    join.map_values(|r: JoinedRoom| (r.id@, r.notification_count, r.highlight_count))
}

/// The notification counts that a later sync hands on are those of the
/// response, room by room: each joined room's ID with its notification
/// count and its highlight count, as the response gives them.
pub proof fn lemma_notifications_carry_counts(join: Seq<JoinedRoom>)
    ensures
        notifications_of(join).len() == join.len(),
        forall|i: int|
            0 <= i < join.len() ==> {
                &&& (#[trigger] notifications_of(join)[i]).0 == join[i].id@
                &&& notifications_of(join)[i].1 == join[i].notification_count
                &&& notifications_of(join)[i].2 == join[i].highlight_count
            },
{
}

/// What a successful sync gives, from the response, the token to sync from
/// next, the user's ID, the room to open (if any) and whether the sync
/// started from an earlier token.
pub fn sync_result(
    response: SyncResponse,
    next_batch: String,
    user_id: String,
    join_to_room: Option<String>,
    since_given: bool,
) -> (r: SyncRet)
    ensures
        match r {
            SyncRet::NoSince { rooms, default, next_batch: nb } => {
                &&& !since_given
                &&& synced_rooms(response, user_id@, rooms)
                &&& nb@ == next_batch@
                &&& match join_to_room {
                    None => default is None,
                    Some(j) => match default {
                        Some(i) => i < rooms@.len() && rooms@[i as int].id@ == j@ && forall|x: int|
                            0 <= x < i ==> (#[trigger] rooms@[x]).id@ != j@,
                        None => forall|x: int| 0 <= x < rooms@.len() ==> (#[trigger] rooms@[x]).id@ != j@,
                    },
                }
            },
            SyncRet::WithSince { update_rooms, room_notifications, typing, other, next_batch: nb } => {
                &&& since_given
                &&& synced_rooms(response, user_id@, update_rooms)
                &&& room_notifications.deep_view() == notifications_of(response.join@)
                &&& room_notifications@.len() == response.join@.len()
                &&& forall|i: int|
                    0 <= i < response.join@.len() ==> {
                        &&& (#[trigger] room_notifications@[i]).0@ == response.join@[i].id@
                        &&& room_notifications@[i].1 == response.join@[i].notification_count
                        &&& room_notifications@[i].2 == response.join@[i].highlight_count
                    }
                &&& typing@.len() == response.join@.len()
                &&& forall|i: int|
                    0 <= i < typing@.len() ==> (#[trigger] typing@[i])@ == typing_room_view(
                        response.join@[i],
                        user_id@,
                    )
                &&& other.deep_view() == elements_of(response.join@)
                &&& nb@ == next_batch@
            },
        },
{
    let ghost resp = response;
    if !since_given {
        let rooms = Room::from_sync_response(response, user_id);
        let default = match &join_to_room {
            Some(j) => find_room(&rooms, j.as_str()),
            None => None,
        };
        SyncRet::NoSince { rooms, default, next_batch }
    } else {
        let mut room_notifications: Vec<(String, Option<u64>, Option<u64>)> = Vec::new();
        let mut typing: Vec<Room> = Vec::new();
        let mut i: usize = 0;
        while i < response.join.len()
            invariant
                i <= response.join@.len(),
                response == resp,
                room_notifications@.len() == i,
                notifications_of(response.join@).len() == response.join@.len(),
                room_notifications.deep_view() == notifications_of(response.join@).take(i as int),
                forall|k: int|
                    0 <= k < i ==> {
                        &&& (#[trigger] room_notifications@[k]).0@ == response.join@[k].id@
                        &&& room_notifications@[k].1 == response.join@[k].notification_count
                        &&& room_notifications@[k].2 == response.join@[k].highlight_count
                    },
                typing@.len() == i,
                forall|k: int|
                    0 <= k < i ==> (#[trigger] typing@[k])@ == typing_room_view(response.join@[k], user_id@),
            decreases response.join@.len() - i,
        {
            let jr = &response.join[i];
            let ghost before = room_notifications.deep_view();
            let id = jr.id.clone();
            room_notifications.push((id, jr.notification_count, jr.highlight_count));
            proof {
                let n = notifications_of(response.join@);
                lemma_count_deep_view(jr.notification_count);
                lemma_count_deep_view(jr.highlight_count);
                assert(room_notifications@.len() == i + 1);
                assert(n[i as int] == (jr.id@, jr.notification_count, jr.highlight_count));
                assert(room_notifications.deep_view()[i as int] == n[i as int]);
                assert forall|k: int| 0 <= k < i implies #[trigger] room_notifications.deep_view()[k] == n[k] by {
                    assert(room_notifications.deep_view()[k] == before[k]);
                }
                assert(room_notifications.deep_view() =~= n.take(i + 1 as int));
            }
            typing.push(typing_room(jr, &user_id));
            i = i + 1;
        }
        assert(notifications_of(response.join@).take(response.join@.len() as int) =~= notifications_of(
            response.join@,
        ));
        let other = room_elements(&response.join);
        let update_rooms = Room::from_sync_response(response, user_id);
        SyncRet::WithSince { update_rooms, room_notifications, typing, other, next_batch }
    }
}

} // verus!
