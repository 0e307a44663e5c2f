//! The room list: its three groups (invites, favourites, other rooms), the
//! order of the rooms in a group, which rooms a filter shows, and how the
//! keyboard moves the selection from room to room and group to group.

use crate::model::message::MessageView;
use crate::model::room::{Room, RoomMembership, RoomMembershipView, RoomTag, RoomTagView, RoomView};
use crate::outside::{lowercase_of, to_lowercase};
use crate::text::{contains_seq, str_contains};
use vstd::prelude::*;

verus! {

/// The groups of the room list.
pub enum RoomListType {
    Invites,
    Rooms,
    Favorites,
}

/// The group a room is added to: invites, favourites (joined rooms tagged
/// favourite), or the other rooms.
pub fn group_of(membership: &RoomMembership) -> (t: RoomListType)
    ensures
        t == (if membership@ is Invited {
            RoomListType::Invites
        } else if membership@ == RoomMembershipView::Joined(RoomTagView::Favourite) {
            RoomListType::Favorites
        } else {
            RoomListType::Rooms
        }),
{
    if membership.is_invited() {
        RoomListType::Invites
    } else if membership.match_joined_tag(RoomTag::Favourite) {
        RoomListType::Favorites
    } else {
        RoomListType::Rooms
    }
}

/// A room of a group with the time it was last updated, in milliseconds
/// since the Unix epoch.
pub struct RoomUpdated {
    pub room: Room,
    pub updated: i64,
}

/// When a room was last updated, as far as its messages tell: when its
/// last message was sent, or `never` (the start of 1970 in local time) when
/// it has none.
pub open spec fn last_update(room: Room, never: i64) -> i64 {
    if room@.messages.len() > 0 {
        room@.messages.last().date
    } else {
        never
    }
}

impl RoomUpdated {
    /// A room updated when its last message was sent, or at `never` (the
    /// start of 1970 in local time) when it has no message.
    pub fn new(room: Room, never: i64) -> (r: RoomUpdated)
        ensures
            r.room == room,
            r.updated == last_update(room, never),
    {
        let n = room.messages.len();
        let updated = if n > 0 {
            room.messages[n - 1].date
        } else {
            never
        };
        RoomUpdated { room, updated }
    }

    /// The room is updated at the time `now`.
    pub fn up(&mut self, now: i64)
        ensures
            final(self).room@ == old(self).room@,
            final(self).updated == now,
    {
        self.updated = now;
    }
}

/// The position at which a room updated at `updated` goes in a group: before
/// the first room updated earlier, else at the end.
pub fn insert_position(rooms: &Vec<RoomUpdated>, updated: i64) -> (p: usize)
    ensures
        p <= rooms@.len(),
        forall|i: int| 0 <= i < p ==> (#[trigger] rooms@[i]).updated >= updated,
        p < rooms@.len() ==> rooms@[p as int].updated < updated,
{
    let mut i: usize = 0;
    while i < rooms.len()
        invariant
            i <= rooms.len(),
            forall|k: int| 0 <= k < i ==> (#[trigger] rooms@[k]).updated >= updated,
        decreases rooms.len() - i,
    {
        if rooms[i].updated < updated {
            return i;
        }
        i = i + 1;
    }
    i
}

/// Whether a room has unread messages.
pub open spec fn unread(r: RoomUpdated) -> bool {
    r.room@.notifications > 0
}

/// Whether a room counts for the notifications shown: it has unread
/// messages or highlights.
pub open spec fn notified(r: RoomUpdated) -> bool {
    r.room@.notifications > 0 || r.room@.highlight > 0
}

/// From index `idx` on, in steps of `dir`, the first index that is outside
/// the group or, when only rooms with unread messages count, holds one.
pub open spec fn scan(rooms: Seq<RoomUpdated>, idx: int, unread_only: bool, dir: int) -> int
    decreases (if dir == 1 {
        rooms.len() - idx
    } else {
        idx + 1
    }),
    when dir == 1 || dir == -1
{
    if unread_only && 0 <= idx < rooms.len() && !unread(rooms[idx]) {
        scan(rooms, idx + dir, unread_only, dir)
    } else {
        idx
    }
}

/// A group of the room list: its rooms in order, and the selected one.
pub struct RoomListGroup {
    pub roomvec: Vec<RoomUpdated>,
    pub selected: Option<usize>,
}

/// What moving from the selected room of a group gives: the room reached,
/// else whether the move left the group at its start or at its end.
pub open spec fn sibling_of(g: RoomListGroup, unread_only: bool, dir: int) -> (Option<Seq<char>>, bool, bool) {
    match g.selected {
        None => (None, false, false),
        Some(s) => {
            let idx = scan(g.roomvec@, s + dir, unread_only, dir);
            if 0 <= idx < g.roomvec@.len() {
                (Some(g.roomvec@[idx].room.id@), false, false)
            } else {
                (None, idx < 0, idx >= 0)
            }
        },
    }
}

/// The first room of a group (with unread messages, when only those count).
pub open spec fn first_of(s: Seq<RoomUpdated>, unread_only: bool) -> Option<Seq<char>>
    decreases s.len(),
{
    if s.len() == 0 {
        None
    } else if !unread_only || unread(s[0]) {
        Some(s[0].room.id@)
    } else {
        first_of(s.drop_first(), unread_only)
    }
}

/// The last room of a group (with unread messages, when only those count).
pub open spec fn last_of(s: Seq<RoomUpdated>, unread_only: bool) -> Option<Seq<char>>
    decreases s.len(),
{
    if s.len() == 0 {
        None
    } else if !unread_only || unread(s.last()) {
        Some(s.last().room.id@)
    } else {
        last_of(s.drop_last(), unread_only)
    }
}

/// The number of rooms counting for the notifications shown.
pub open spec fn count_notified(s: Seq<RoomUpdated>) -> nat
    decreases s.len(),
{
    if s.len() == 0 {
        0
    } else {
        count_notified(s.drop_last()) + if notified(s.last()) {
            1nat
        } else {
            0nat
        }
    }
}

/// Whether a filter shows a room of the given name: with a term that is
/// not empty, when the lowercase name (empty when unset) holds the
/// lowercase term; with none, always.
pub open spec fn shown_by(name: Option<Seq<char>>, term: Option<Seq<char>>) -> bool {
    match term {
        Some(t) if t.len() > 0 => contains_seq(
            lowercase_of(
                match name {
                    Some(n) => n,
                    None => Seq::empty(),
                },
            ),
            lowercase_of(t),
        ),
        _ => true,
    }
}

/// A room's name, or the empty text for a room without one.
pub open spec fn named_or_empty(name: Option<Seq<char>>) -> Seq<char> {
    match name {
        Some(n) => n,
        None => Seq::empty(),
    }
}

/// The filter of the room list: with no term, or an empty one, every room
/// is shown; otherwise a room is shown exactly when the lowercase term
/// occurs in its lowercase name, at any position (a room without a name
/// counts as named by the empty text).
pub proof fn lemma_room_filter(name: Option<Seq<char>>, term: Option<Seq<char>>)
    ensures
        term is None || term->Some_0.len() == 0 ==> shown_by(name, term),
        term is Some && term->Some_0.len() > 0 ==> (shown_by(name, term) <==> exists|i: int|
            0 <= i && i + lowercase_of(term->Some_0).len() <= lowercase_of(named_or_empty(name)).len()
                && #[trigger] lowercase_of(named_or_empty(name)).subrange(
                i,
                i + lowercase_of(term->Some_0).len(),
            ) == lowercase_of(term->Some_0)),
{
    if term is Some && term->Some_0.len() > 0 {
        let t = term->Some_0;
        let n = lowercase_of(named_or_empty(name));
        let lt = lowercase_of(t);
        assert(named_or_empty(name) == match name {
            Some(x) => x,
            None => Seq::<char>::empty(),
        });
        if shown_by(name, term) {
            let i = choose|i: int| #[trigger] crate::text::occurs(n, lt, i);
            assert(n.subrange(i, i + lt.len()) == lt);
        }
        if exists|i: int|
            0 <= i && i + lt.len() <= n.len() && #[trigger] n.subrange(i, i + lt.len()) == lt {
            let i = choose|i: int|
                0 <= i && i + lt.len() <= n.len() && #[trigger] n.subrange(i, i + lt.len()) == lt;
            assert(crate::text::occurs(n, lt, i));
        }
    }
}

/// Whether a filter shows a room of the given name.
pub fn room_shown(name: &Option<String>, term: &Option<String>) -> (r: bool)
    ensures
        r == shown_by(name.deep_view(), term.deep_view()),
        term.is_none() || term->Some_0@.len() == 0 ==> r,
        term is Some && term->Some_0@.len() > 0 ==> (r <==> exists|i: int|
            0 <= i && i + lowercase_of(term->Some_0@).len() <= lowercase_of(
                named_or_empty(name.deep_view()),
            ).len() && #[trigger] lowercase_of(named_or_empty(name.deep_view())).subrange(
                i,
                i + lowercase_of(term->Some_0@).len(),
            ) == lowercase_of(term->Some_0@)),
{
    match term {
        Some(t) => {
            if t.as_str().is_empty() {
                true
            } else {
                let n = match name {
                    Some(n) => to_lowercase(n.as_str()),
                    None => to_lowercase(""),
                };
                proof {
                    if name is None {
                        reveal_strlit("");
                        assert(""@ =~= Seq::<char>::empty());
                    }
                }
                proof {
                    lemma_room_filter(name.deep_view(), term.deep_view());
                }
                str_contains(n.as_str(), to_lowercase(t.as_str()).as_str())
            }
        },
        None => true,
    }
}

impl RoomListGroup {
    /// An empty group with nothing selected.
    pub fn new() -> (g: RoomListGroup)
        ensures
            g.roomvec@.len() == 0,
            g.selected is None,
    {
        RoomListGroup { roomvec: Vec::new(), selected: None }
    }

    /// The position of the room with the given ID.
    pub fn position(&self, room_id: &str) -> (r: Option<usize>)
        ensures
            match r {
                Some(i) => i < self.roomvec@.len() && self.roomvec@[i as int].room.id@ == room_id@
                    && forall|j: int| 0 <= j < i ==> (#[trigger] self.roomvec@[j]).room.id@ != room_id@,
                None => forall|j: int|
                    0 <= j < self.roomvec@.len() ==> (#[trigger] self.roomvec@[j]).room.id@ != room_id@,
            },
    {
        let mut i: usize = 0;
        while i < self.roomvec.len()
            invariant
                i <= self.roomvec.len(),
                forall|j: int| 0 <= j < i ==> (#[trigger] self.roomvec@[j]).room.id@ != room_id@,
            decreases self.roomvec.len() - i,
        {
            if crate::text::str_eq(self.roomvec[i].room.id.as_str(), room_id) {
                return Some(i);
            }
            i = i + 1;
        }
        None
    }

    /// Adds a room at the end of the group, with the time of its last
    /// message, unless the group already holds it.
    pub fn add_room(&mut self, r: Room, never: i64)
        ensures
            (exists|j: int| 0 <= j < old(self).roomvec@.len() && (#[trigger] old(self).roomvec@[j]).room.id@ == r.id@)
                ==> final(self).roomvec@ == old(self).roomvec@,
            (forall|j: int| 0 <= j < old(self).roomvec@.len() ==> (#[trigger] old(self).roomvec@[j]).room.id@ != r.id@)
                ==> final(self).roomvec@ == old(self).roomvec@.push(
                RoomUpdated { room: r, updated: last_update(r, never) },
            ),
            final(self).selected == old(self).selected,
    {
        match self.position(r.id.as_str()) {
            Some(_) => {},
            None => {
                self.roomvec.push(RoomUpdated::new(r, never));
            },
        }
    }

    /// Adds a room that was updated at a known time, unless the group
    /// already holds it: it goes before the first room updated earlier than
    /// that time (else at the end), but is kept with the time of its last
    /// message (`never` when it has none), as a room of the group is.
    pub fn add_room_up(&mut self, r: RoomUpdated, never: i64)
        ensures
            (exists|j: int| 0 <= j < old(self).roomvec@.len() && (#[trigger] old(self).roomvec@[j]).room.id@ == r.room.id@)
                ==> final(self).roomvec@ == old(self).roomvec@,
            (forall|j: int| 0 <= j < old(self).roomvec@.len() ==> (#[trigger] old(self).roomvec@[j]).room.id@ != r.room.id@)
                ==> exists|p: int| 0 <= p <= old(self).roomvec@.len() && final(self).roomvec@ == old(self).roomvec@.insert(
                    p,
                    RoomUpdated { room: r.room, updated: last_update(r.room, never) },
                )
                    && (forall|i: int| 0 <= i < p ==> (#[trigger] old(self).roomvec@[i]).updated >= r.updated)
                    && (p < old(self).roomvec@.len() ==> old(self).roomvec@[p].updated < r.updated),
            final(self).selected == old(self).selected,
    {
        match self.position(r.room.id.as_str()) {
            Some(_) => {},
            None => {
                let p = insert_position(&self.roomvec, r.updated);
                let entry = RoomUpdated::new(r.room, never);
                self.roomvec.insert(p, entry);
            },
        }
    }

    /// Removes the room with the given ID and gives it back.
    pub fn remove_room(&mut self, room_id: &str) -> (r: Option<RoomUpdated>)
        ensures
            match r {
                Some(x) => exists|i: int| 0 <= i < old(self).roomvec@.len() && old(self).roomvec@[i] == x
                    && x.room.id@ == room_id@ && final(self).roomvec@ == old(self).roomvec@.remove(i),
                None => final(self).roomvec@ == old(self).roomvec@ && forall|j: int|
                    0 <= j < old(self).roomvec@.len() ==> (#[trigger] old(self).roomvec@[j]).room.id@ != room_id@,
            },
            final(self).selected == old(self).selected,
    {
        match self.position(room_id) {
            Some(i) => Some(self.roomvec.remove(i)),
            None => None,
        }
    }

    /// The number of rooms with unread messages or highlights.
    pub fn rooms_with_notifications(&self) -> (n: usize)
        ensures
            n == count_notified(self.roomvec@),
    {
        let mut n: usize = 0;
        let mut i: usize = 0;
        while i < self.roomvec.len()
            invariant
                i <= self.roomvec.len(),
                n == count_notified(self.roomvec@.take(i as int)),
                n <= i,
            decreases self.roomvec.len() - i,
        {
            proof {
                assert(self.roomvec@.take(i + 1 as int).drop_last() =~= self.roomvec@.take(i as int));
                assert(self.roomvec@.take(i + 1 as int).last() == self.roomvec@[i as int]);
            }
            if self.roomvec[i].room.notifications > 0 || self.roomvec[i].room.highlight > 0 {
                n = n + 1;
            }
            i = i + 1;
        }
        assert(self.roomvec@.take(self.roomvec.len() as int) =~= self.roomvec@);
        n
    }

    /// The first room (with unread messages, when only those count).
    pub fn first_id(&self, unread_only: bool) -> (r: Option<String>)
        ensures
            r.deep_view() == first_of(self.roomvec@, unread_only),
    {
        let mut i: usize = 0;
        assert(self.roomvec@.skip(0) =~= self.roomvec@);
        while i < self.roomvec.len()
            invariant
                i <= self.roomvec.len(),
                first_of(self.roomvec@, unread_only) == first_of(self.roomvec@.skip(i as int), unread_only),
            decreases self.roomvec.len() - i,
        {
            proof {
                assert(self.roomvec@.skip(i as int)[0] == self.roomvec@[i as int]);
                assert(self.roomvec@.skip(i as int).drop_first() =~= self.roomvec@.skip(i + 1 as int));
            }
            if !unread_only || self.roomvec[i].room.notifications > 0 {
                return Some(self.roomvec[i].room.id.clone());
            }
            i = i + 1;
        }
        None
    }

    /// The last room (with unread messages, when only those count).
    pub fn last_id(&self, unread_only: bool) -> (r: Option<String>)
        ensures
            r.deep_view() == last_of(self.roomvec@, unread_only),
    {
        let mut i: usize = self.roomvec.len();
        assert(self.roomvec@.take(i as int) =~= self.roomvec@);
        while i > 0
            invariant
                i <= self.roomvec.len(),
                last_of(self.roomvec@, unread_only) == last_of(self.roomvec@.take(i as int), unread_only),
            decreases i,
        {
            proof {
                assert(self.roomvec@.take(i as int).last() == self.roomvec@[i - 1]);
                assert(self.roomvec@.take(i as int).drop_last() =~= self.roomvec@.take(i - 1));
            }
            if !unread_only || self.roomvec[i - 1].room.notifications > 0 {
                return Some(self.roomvec[i - 1].room.id.clone());
            }
            i = i - 1;
        }
        None
    }

    /// Moves from the selected room by `direction` (-1 up, 1 down), to
    /// rooms with unread messages only when `unread_only`: the room reached,
    /// else whether the move left the group at its start or its end.
    pub fn sibling_id(&self, unread_only: bool, direction: i32) -> (r: (Option<String>, bool, bool))
        requires
            direction == 1 || direction == -1,
            self.roomvec@.len() < i32::MAX,
            self.selected matches Some(s) ==> s < self.roomvec@.len(),
        ensures
            (r.0.deep_view(), r.1, r.2) == sibling_of(*self, unread_only, direction as int),
    {
        match self.selected {
            Some(s) => {
                let len = self.roomvec.len() as i32;
                let mut idx: i32 = s as i32 + direction;
                while unread_only && idx >= 0 && idx < len && self.roomvec[idx as usize].room.notifications == 0
                    invariant
                        direction == 1 || direction == -1,
                        len == self.roomvec@.len(),
                        -1 <= idx <= len,
                        scan(self.roomvec@, s + direction, unread_only, direction as int) == scan(
                            self.roomvec@,
                            idx as int,
                            unread_only,
                            direction as int,
                        ),
                    decreases (if direction == 1 {
                        len - idx
                    } else {
                        idx + 1
                    }),
                {
                    idx = idx + direction;
                }
                if idx >= 0 && idx < len {
                    (Some(self.roomvec[idx as usize].room.id.clone()), false, false)
                } else {
                    (None, idx < 0, idx >= 0)
                }
            },
            None => (None, false, false),
        }
    }
}

/// The room list: invites, favourites and the other rooms, in that order
/// on screen.
pub struct RoomList {
    pub inv: RoomListGroup,
    pub fav: RoomListGroup,
    pub rooms: RoomListGroup,
}

/// Where moving the selection by `dir` leads from the invites on: a room
/// of the invites; past their end, the first favourite; else on into the
/// favourites.
pub open spec fn sibling_inv(l: RoomList, unread_only: bool, dir: int) -> Option<Seq<char>> {
    let (r, _, next) = sibling_of(l.inv, unread_only, dir);
    if r is Some {
        r
    } else if next {
        first_of(l.fav.roomvec@, unread_only)
    } else {
        sibling_fav(l, unread_only, dir)
    }
}

/// Where moving the selection leads among the favourites: past their start
/// the last invite, past their end the first other room, else on into the
/// other rooms.
pub open spec fn sibling_fav(l: RoomList, unread_only: bool, dir: int) -> Option<Seq<char>> {
    let (r, prev, next) = sibling_of(l.fav, unread_only, dir);
    if r is Some {
        r
    } else if prev {
        last_of(l.inv.roomvec@, unread_only)
    } else if next {
        first_of(l.rooms.roomvec@, unread_only)
    } else {
        sibling_rooms(l, unread_only, dir)
    }
}

/// Where moving the selection leads among the other rooms: past their
/// start, the last favourite.
pub open spec fn sibling_rooms(l: RoomList, unread_only: bool, dir: int) -> Option<Seq<char>> {
    let (r, prev, _) = sibling_of(l.rooms, unread_only, dir);
    if r is Some {
        r
    } else if prev {
        last_of(l.fav.roomvec@, unread_only)
    } else {
        None
    }
}

/// A group whose selection, if any, is one of its rooms and whose size
/// fits the index type of the list widget.
pub open spec fn group_ok(g: RoomListGroup) -> bool {
    g.roomvec@.len() < i32::MAX && (g.selected matches Some(s) ==> s < g.roomvec@.len())
}

impl RoomList {
    /// Moves the selection by `direction` across the groups.
    pub fn sibling_id(&self, unread_only: bool, direction: i32) -> (r: Option<String>)
        requires
            direction == 1 || direction == -1,
            group_ok(self.inv),
            group_ok(self.fav),
            group_ok(self.rooms),
        ensures
            r.deep_view() == sibling_inv(*self, unread_only, direction as int),
    {
        let (room_id, _, next) = self.inv.sibling_id(unread_only, direction);
        if let Some(room_id) = room_id {
            return Some(room_id);
        } else if next {
            return self.fav.first_id(unread_only);
        }
        let (room_id, prev, next) = self.fav.sibling_id(unread_only, direction);
        if let Some(room_id) = room_id {
            return Some(room_id);
        } else if prev {
            return self.inv.last_id(unread_only);
        } else if next {
            return self.rooms.first_id(unread_only);
        }
        let (room_id, prev, _) = self.rooms.sibling_id(unread_only, direction);
        if let Some(room_id) = room_id {
            Some(room_id)
        } else if prev {
            self.fav.last_id(unread_only)
        } else {
            None
        }
    }

    /// The next room.
    pub fn next_id(&self) -> (r: Option<String>)
        requires
            group_ok(self.inv),
            group_ok(self.fav),
            group_ok(self.rooms),
        ensures
            r.deep_view() == sibling_inv(*self, false, 1),
    {
        self.sibling_id(false, 1)
    }

    /// The previous room.
    pub fn prev_id(&self) -> (r: Option<String>)
        requires
            group_ok(self.inv),
            group_ok(self.fav),
            group_ok(self.rooms),
        ensures
            r.deep_view() == sibling_inv(*self, false, -1),
    {
        self.sibling_id(false, -1)
    }

    /// The next room with unread messages.
    pub fn next_unread_id(&self) -> (r: Option<String>)
        requires
            group_ok(self.inv),
            group_ok(self.fav),
            group_ok(self.rooms),
        ensures
            r.deep_view() == sibling_inv(*self, true, 1),
    {
        self.sibling_id(true, 1)
    }

    /// The previous room with unread messages.
    pub fn prev_unread_id(&self) -> (r: Option<String>)
        requires
            group_ok(self.inv),
            group_ok(self.fav),
            group_ok(self.rooms),
        ensures
            r.deep_view() == sibling_inv(*self, true, -1),
    {
        self.sibling_id(true, -1)
    }

    /// The first room of the list.
    pub fn first_id(&self) -> (r: Option<String>)
        ensures
            r.deep_view() == match first_of(self.inv.roomvec@, false) {
                Some(x) => Some(x),
                None => match first_of(self.fav.roomvec@, false) {
                    Some(x) => Some(x),
                    None => first_of(self.rooms.roomvec@, false),
                },
            },
    {
        match self.inv.first_id(false) {
            Some(x) => Some(x),
            None => match self.fav.first_id(false) {
                Some(x) => Some(x),
                None => self.rooms.first_id(false),
            },
        }
    }

    /// The last room of the list.
    pub fn last_id(&self) -> (r: Option<String>)
        ensures
            r.deep_view() == match last_of(self.rooms.roomvec@, false) {
                Some(x) => Some(x),
                None => match last_of(self.fav.roomvec@, false) {
                    Some(x) => Some(x),
                    None => last_of(self.inv.roomvec@, false),
                },
            },
    {
        match self.rooms.last_id(false) {
            Some(x) => Some(x),
            None => match self.fav.last_id(false) {
                Some(x) => Some(x),
                None => self.inv.last_id(false),
            },
        }
    }

    /// The number of rooms with unread messages or highlights.
    pub fn rooms_with_notifications(&self) -> (n: usize)
        requires
            count_notified(self.inv.roomvec@) + count_notified(self.fav.roomvec@) + count_notified(
                self.rooms.roomvec@,
            ) <= usize::MAX,
        ensures
            n == count_notified(self.inv.roomvec@) + count_notified(self.fav.roomvec@) + count_notified(
                self.rooms.roomvec@,
            ),
    {
        self.inv.rooms_with_notifications() + self.fav.rooms_with_notifications()
            + self.rooms.rooms_with_notifications()
    }
}

/// Adding a room that a group does not hold, then removing it, gives back
/// the group's rooms as they were: the room removed is the one added.
pub proof fn lemma_add_room_then_remove(s: Seq<RoomUpdated>, r: RoomUpdated, p: int, i: int)
    requires
        forall|j: int| 0 <= j < s.len() ==> (#[trigger] s[j]).room.id@ != r.room.id@,
        0 <= p <= s.len(),
        0 <= i < s.len() + 1,
        s.insert(p, r)[i].room.id@ == r.room.id@,
    ensures
        s.insert(p, r).remove(i) == s,
{
    if i < p {
        assert(s.insert(p, r)[i] == s[i]);
    } else if i > p {
        assert(s.insert(p, r)[i] == s[i - 1]);
    }
    assert(s.insert(p, r).remove(i) =~= s);
}

/// Whether the rooms of a group go from the most recently updated down.
pub open spec fn by_update(s: Seq<RoomUpdated>) -> bool {
    forall|i: int, j: int| 0 <= i < j < s.len() ==> (#[trigger] s[i]).updated >= (#[trigger] s[j]).updated
}

/// Placing a room at the position its update time gives keeps a group
/// ordered from the most recently updated room down. `add_room_up` places
/// a room by the time it comes with but keeps the time of its last
/// message, so it keeps the order when those two times are the same.
pub proof fn lemma_add_keeps_order(s: Seq<RoomUpdated>, r: RoomUpdated, p: int)
    requires
        by_update(s),
        0 <= p <= s.len(),
        forall|i: int| 0 <= i < p ==> (#[trigger] s[i]).updated >= r.updated,
        p < s.len() ==> s[p].updated < r.updated,
    ensures
        by_update(s.insert(p, r)),
{
    let t = s.insert(p, r);
    assert forall|i: int, j: int| 0 <= i < j < t.len() implies (#[trigger] t[i]).updated >= (#[trigger] t[j]).updated by {
        if j < p {
            assert(t[i] == s[i] && t[j] == s[j]);
        } else if j == p {
            assert(t[i] == s[i]);
        } else if i < p {
            assert(t[i] == s[i] && t[j] == s[j - 1]);
            assert(s[i].updated >= s[j - 1].updated);
        } else if i == p {
            assert(t[j] == s[j - 1]);
            assert(s[p].updated >= s[j - 1].updated);
        } else {
            assert(t[i] == s[i - 1] && t[j] == s[j - 1]);
        }
    }
}

} // verus!
