//! Rooms, and how they are read from a sync response and from the room
//! directory.

use crate::model::member::{AvatarSource, AvatarSourceView, Member, MemberView};
use crate::model::message::{Message, MessageView};
use crate::model::strmap::StrMap;
use crate::model::message::{into_full_event, message_of_room_event, AnyRoomEvent};
use crate::model::sync_response::{
    find_first, is_first, lemma_find_first, lemma_find_none, EphemeralEvent, EventReceipts,
    GlobalAccountEvent, InvitedRoom, JoinedRoom, LeftRoom, MembershipState, ReadReceipt,
    RoomAccountEvent, StateEvent, SyncResponse,
};
use crate::outside::{parse_user_id, user_id_valid};
use crate::outside::{parse_url, url_parse_result};
use std::convert::TryFrom;
use vstd::prelude::*;

verus! {

/// A tag of a joined room.
pub enum RoomTag {
    NoTag,
    Favourite,
    LowPriority,
    Custom(String),
}

/// The mathematical value of a [`RoomTag`].
pub enum RoomTagView {
    NoTag,
    Favourite,
    LowPriority,
    Custom(Seq<char>),
}

impl View for RoomTag {
    type V = RoomTagView;

    open spec fn view(&self) -> RoomTagView {
        match self {
            RoomTag::NoTag => RoomTagView::NoTag,
            RoomTag::Favourite => RoomTagView::Favourite,
            RoomTag::LowPriority => RoomTagView::LowPriority,
            RoomTag::Custom(s) => RoomTagView::Custom(s@),
        }
    }
}

/// Why the user left a room.
pub enum Reason {
    NoReason,
    /// Kicked, with the reason given and the user ID of who kicked.
    Kicked(String, String),
}

/// The mathematical value of a [`Reason`].
pub enum ReasonView {
    NoReason,
    Kicked(Seq<char>, Seq<char>),
}

impl View for Reason {
    type V = ReasonView;

    open spec fn view(&self) -> ReasonView {
        match self {
            Reason::NoReason => ReasonView::NoReason,
            Reason::Kicked(r, k) => ReasonView::Kicked(r@, k@),
        }
    }
}

/// The user's membership of a room.
pub enum RoomMembership {
    /// Not joined yet, as for a room of the directory.
    NoMembership,
    Joined(RoomTag),
    /// Invited by the user with this ID.
    Invited(String),
    Left(Reason),
}

/// The mathematical value of a [`RoomMembership`].
pub enum RoomMembershipView {
    NoMembership,
    Joined(RoomTagView),
    Invited(Seq<char>),
    Left(ReasonView),
}

impl View for RoomMembership {
    type V = RoomMembershipView;

    open spec fn view(&self) -> RoomMembershipView {
        match self {
            RoomMembership::NoMembership => RoomMembershipView::NoMembership,
            RoomMembership::Joined(t) => RoomMembershipView::Joined(t@),
            RoomMembership::Invited(u) => RoomMembershipView::Invited(u@),
            RoomMembership::Left(r) => RoomMembershipView::Left(r@),
        }
    }
}

/// Whether two tags are the same.
pub fn same_tag(a: &RoomTag, b: &RoomTag) -> (r: bool)
    ensures
        r == (a@ == b@),
{
    match (a, b) {
        (RoomTag::NoTag, RoomTag::NoTag) => true,
        (RoomTag::Favourite, RoomTag::Favourite) => true,
        (RoomTag::LowPriority, RoomTag::LowPriority) => true,
        (RoomTag::Custom(x), RoomTag::Custom(y)) => crate::text::str_eq(x.as_str(), y.as_str()),
        _ => false,
    }
}

impl RoomMembership {
    /// Whether the user has joined the room.
    pub fn is_joined(&self) -> (r: bool)
        ensures
            r == (self@ is Joined),
    {
        match self {
            RoomMembership::Joined(_) => true,
            _ => false,
        }
    }

    /// Whether the user is invited to the room.
    pub fn is_invited(&self) -> (r: bool)
        ensures
            r == (self@ is Invited),
    {
        match self {
            RoomMembership::Invited(_) => true,
            _ => false,
        }
    }

    /// Whether the user has left the room.
    pub fn is_left(&self) -> (r: bool)
        ensures
            r == (self@ is Left),
    {
        match self {
            RoomMembership::Left(_) => true,
            _ => false,
        }
    }

    /// Whether the user has joined the room and it has the given tag.
    pub fn match_joined_tag(&self, tag: RoomTag) -> (r: bool)
        ensures
            r == (self@ == RoomMembershipView::Joined(tag@)),
    {
        match self {
            RoomMembership::Joined(this_tag) => same_tag(this_tag, &tag),
            _ => false,
        }
    }
}

impl Default for RoomMembership {
    /// No membership.
    fn default() -> (r: RoomMembership)
        ensures
            r@ == RoomMembershipView::NoMembership,
    {
        RoomMembership::NoMembership
    }
}

/// A room.
pub struct Room {
    pub id: String,
    pub avatar: Option<String>,
    pub name: Option<String>,
    pub topic: Option<String>,
    pub alias: Option<String>,
    pub guest_can_join: bool,
    pub world_readable: bool,
    pub n_members: u64,
    /// The members, by user ID.
    pub members: StrMap<Member>,
    pub notifications: u64,
    pub highlight: u64,
    pub messages: Vec<Message>,
    pub membership: RoomMembership,
    pub direct: bool,
    pub prev_batch: Option<String>,
    pub typing_users: Vec<Member>,
    pub language: Option<String>,
    /// The power level of each user that has one.
    pub admins: StrMap<i64>,
    pub default_power_level: i64,
}

/// The mathematical value of a [`Room`].
pub struct RoomView {
    pub id: Seq<char>,
    pub avatar: Option<Seq<char>>,
    pub name: Option<Seq<char>>,
    pub topic: Option<Seq<char>>,
    pub alias: Option<Seq<char>>,
    pub guest_can_join: bool,
    pub world_readable: bool,
    pub n_members: u64,
    pub members: Map<Seq<char>, MemberView>,
    pub notifications: u64,
    pub highlight: u64,
    pub messages: Seq<MessageView>,
    pub membership: RoomMembershipView,
    pub direct: bool,
    pub prev_batch: Option<Seq<char>>,
    pub typing_users: Seq<MemberView>,
    pub language: Option<Seq<char>>,
    pub admins: Map<Seq<char>, i64>,
    pub default_power_level: i64,
}

impl View for Room {
    type V = RoomView;

    open spec fn view(&self) -> RoomView {
        RoomView {
            id: self.id@,
            avatar: self.avatar.deep_view(),
            name: self.name.deep_view(),
            topic: self.topic.deep_view(),
            alias: self.alias.deep_view(),
            guest_can_join: self.guest_can_join,
            world_readable: self.world_readable,
            n_members: self.n_members,
            members: self.members.map(),
            notifications: self.notifications,
            highlight: self.highlight,
            messages: self.messages.deep_view(),
            membership: self.membership@,
            direct: self.direct,
            prev_batch: self.prev_batch.deep_view(),
            typing_users: self.typing_users.deep_view(),
            language: self.language.deep_view(),
            admins: self.admins.map(),
            default_power_level: self.default_power_level,
        }
    }
}

impl DeepView for Room {
    type V = RoomView;

    open spec fn deep_view(&self) -> RoomView {
        self@
    }
}

/// A room as `Room::new` makes it: guests may join, it is world readable,
/// the default power level is -1, and nothing else is set.
pub open spec fn new_room(id: Seq<char>, membership: RoomMembershipView) -> RoomView {
    RoomView {
        id,
        avatar: None,
        name: None,
        topic: None,
        alias: None,
        guest_can_join: true,
        world_readable: true,
        n_members: 0,
        members: Map::empty(),
        notifications: 0,
        highlight: 0,
        messages: Seq::empty(),
        membership,
        direct: false,
        prev_batch: None,
        typing_users: Seq::empty(),
        language: None,
        admins: Map::empty(),
        default_power_level: -1i64,
    }
}

impl Room {
    /// A room with the given ID and membership and nothing else known.
    pub fn new(id: String, membership: RoomMembership) -> (r: Room)
        ensures
            r@ == new_room(id@, membership@),
    {
        let r = Room {
            id,
            membership,
            guest_can_join: true,
            world_readable: true,
            avatar: None,
            name: None,
            topic: None,
            alias: None,
            n_members: 0,
            members: StrMap::new(),
            notifications: 0,
            highlight: 0,
            messages: Vec::new(),
            direct: false,
            prev_batch: None,
            typing_users: Vec::new(),
            language: None,
            admins: StrMap::new(),
            default_power_level: -1,
        };
        assert(r.messages.deep_view() =~= Seq::<MessageView>::empty());
        assert(r.typing_users.deep_view() =~= Seq::<MemberView>::empty());
        assert(r@ =~= new_room(id@, membership@));
        r
    }
}

impl PartialEq for Room {
    /// Two rooms are the same when their IDs are.
    fn eq(&self, other: &Room) -> (r: bool) {
        self.id == other.id
    }
}

impl vstd::std_specs::cmp::PartialEqSpecImpl for Room {
    open spec fn obeys_eq_spec() -> bool {
        true
    }

    open spec fn eq_spec(&self, other: &Room) -> bool {
        self.id@ == other.id@
    }
}

/// The name given to a room after the names of its members: none for no
/// member, the name of a single one, "A and B" for two, and "A and Others"
/// for more.
pub open spec fn name_from_members(members: Seq<Seq<char>>) -> Option<Seq<char>> {
    if members.len() == 0 {
        None
    } else if members.len() == 1 {
        Some(members[0])
    } else if members.len() == 2 {
        Some(members[0] + " and "@ + members[1])
    } else {
        Some(members[0] + " and Others"@)
    }
}

/// Names a room after the names of its members: none for no member, the
/// name of a single one, "A and B" for two, and "A and Others" for more.
pub fn room_name_from_members(members: &[&str]) -> (r: Option<String>)
    ensures
        r.deep_view() == name_from_members(members.deep_view()),
{
    let n = members.len();
    if n == 0 {
        None
    } else if n == 1 {
        Some(members[0].to_owned())
    } else if n == 2 {
        let mut s = members[0].to_owned();
        s.append(" and ");
        s.append(members[1]);
        Some(s)
    } else {
        let mut s = members[0].to_owned();
        s.append(" and Others");
        Some(s)
    }
}

/// A room of the public room directory.
pub struct PublicRoomsChunk {
    pub canonical_alias: Option<String>,
    pub name: Option<String>,
    pub num_joined_members: u64,
    pub room_id: String,
    pub topic: Option<String>,
    pub world_readable: bool,
    pub guest_can_join: bool,
    pub avatar_url: Option<String>,
}

/// The avatar URL of a directory room: none when missing or empty, else
/// the parsed URL, or the parse error.
pub open spec fn room_avatar_from_url(u: Option<Seq<char>>) -> Result<
    Option<Seq<char>>,
    url::ParseError,
> {
    match u {
        Some(s) if s.len() > 0 => match url_parse_result(s) {
            Ok(p) => Ok(Some(p)),
            Err(e) => Err(e),
        },
        _ => Ok(None),
    }
}

/// The room a directory entry gives, with its avatar URL already parsed.
pub open spec fn room_of_chunk(c: &PublicRoomsChunk, avatar: Option<Seq<char>>) -> RoomView {
    RoomView {
        alias: c.canonical_alias.deep_view(),
        name: c.name.deep_view(),
        avatar,
        topic: c.topic.deep_view(),
        n_members: c.num_joined_members,
        world_readable: c.world_readable,
        guest_can_join: c.guest_can_join,
        ..new_room(c.room_id@, RoomMembershipView::NoMembership)
    }
}

impl TryFrom<PublicRoomsChunk> for Room {
    type Error = url::ParseError;

    /// The room of a directory entry; fails when its avatar URL is set, not
    /// empty and does not parse.
    fn try_from(input: PublicRoomsChunk) -> (r: Result<Room, url::ParseError>)
        ensures
            match (r, room_avatar_from_url(input.avatar_url.deep_view())) {
                (Ok(room), Ok(a)) => room@ == room_of_chunk(&input, a),
                (Err(e1), Err(e2)) => e1 == e2,
                _ => false,
            },
    {
        let avatar = match &input.avatar_url {
            Some(u) => {
                if u.as_str().is_empty() {
                    None
                } else {
                    match parse_url(u.as_str()) {
                        Ok(p) => Some(p),
                        Err(e) => {
                            return Err(e);
                        },
                    }
                }
            },
            None => None,
        };
        let mut room = Room::new(input.room_id.clone(), RoomMembership::NoMembership);
        room.alias = input.canonical_alias;
        room.name = input.name;
        room.avatar = avatar;
        room.topic = input.topic;
        room.n_members = input.num_joined_members;
        room.world_readable = input.world_readable;
        room.guest_can_join = input.guest_can_join;
        Ok(room)
    }
}

impl vstd::std_specs::convert::TryFromSpecImpl<PublicRoomsChunk> for Room {
    /// The conversion's contract is stated on `try_from` itself, over views.
    open spec fn obeys_try_from_spec() -> bool {
        false
    }

    open spec fn try_from_spec(v: PublicRoomsChunk) -> Result<Room, url::ParseError> {
        vstd::pervasive::arbitrary()
    }
}

/// The member a `join` member event gives: its sender, display name, and
/// avatar when the avatar URL parses.
pub open spec fn joined_member(ev: StateEvent) -> Option<MemberView> {
    match ev {
        StateEvent::RoomMember { sender, membership: MembershipState::Join, displayname, avatar_url, .. } => Some(
            MemberView {
                uid: sender@,
                alias: displayname.deep_view(),
                avatar: match avatar_url {
                    Some(u) => match url_parse_result(u@) {
                        Ok(p) => Some(AvatarSourceView::Url(p)),
                        Err(_) => None,
                    },
                    None => None,
                },
            },
        ),
        _ => None,
    }
}

/// The member of a `join` member event.
pub fn parse_room_member(ev: &StateEvent) -> (r: Option<Member>)
    ensures
        r.deep_view() == joined_member(*ev),
{
    match ev {
        StateEvent::RoomMember { sender, membership: MembershipState::Join, displayname, avatar_url, .. } => {
            let avatar = match avatar_url {
                Some(u) => match parse_url(u.as_str()) {
                    Ok(p) => Some(AvatarSource::Url(p)),
                    Err(_) => None,
                },
                None => None,
            };
            Some(
                Member {
                    uid: sender.clone(),
                    alias: crate::model::member::clone_opt_string(displayname),
                    avatar,
                },
            )
        },
        _ => None,
    }
}

/// The members of a joined room: one per user with a `join` member event,
/// from the last such event.
pub open spec fn members_of(s: Seq<StateEvent>) -> Map<Seq<char>, MemberView>
    decreases s.len(),
{
    if s.len() == 0 {
        Map::empty()
    } else {
        let m = members_of(s.drop_last());
        match joined_member(s.last()) {
            Some(mv) => m.insert(mv.uid, mv),
            None => m,
        }
    }
}

/// The power levels of the users listed in power level events, later
/// events overriding earlier ones.
pub open spec fn users_into(m: Map<Seq<char>, i64>, users: Seq<(String, i64)>) -> Map<Seq<char>, i64>
    decreases users.len(),
{
    if users.len() == 0 {
        m
    } else {
        users_into(m, users.drop_last()).insert(users.last().0@, users.last().1)
    }
}

/// The power levels of all users listed in the power level events.
pub open spec fn admins_of(s: Seq<StateEvent>) -> Map<Seq<char>, i64>
    decreases s.len(),
{
    if s.len() == 0 {
        Map::empty()
    } else {
        let m = admins_of(s.drop_last());
        match s.last() {
            StateEvent::RoomPowerLevels { users, .. } => users_into(m, users@),
            _ => m,
        }
    }
}

/// The default power level of the last power level event, or -1.
pub open spec fn default_level_of(s: Seq<StateEvent>) -> i64
    decreases s.len(),
{
    if s.len() == 0 {
        -1i64
    } else {
        match s.last() {
            StateEvent::RoomPowerLevels { users_default, .. } => users_default,
            _ => default_level_of(s.drop_last()),
        }
    }
}

/// The name the state events give a room: the first room name that is
/// not empty; where there is none, the last canonical alias that is set.
pub open spec fn name_or_alias(s: Seq<StateEvent>, acc: Option<Seq<char>>) -> Option<Seq<char>>
    decreases s.len(),
{
    if s.len() == 0 {
        acc
    } else {
        match s[0] {
            StateEvent::RoomName { name: Some(n) } if n@.len() > 0 => Some(n@),
            StateEvent::RoomCanonicalAlias { alias: Some(a) } => name_or_alias(s.drop_first(), Some(a@)),
            _ => name_or_alias(s.drop_first(), acc),
        }
    }
}

/// Whether an event is a room avatar event.
pub open spec fn is_avatar_event(e: StateEvent) -> bool {
    e is RoomAvatar
}

/// Whether an event is a canonical alias event.
pub open spec fn is_alias_event(e: StateEvent) -> bool {
    e is RoomCanonicalAlias
}

/// Whether an event is a topic event.
pub open spec fn is_topic_event(e: StateEvent) -> bool {
    e is RoomTopic
}

/// The avatar of a room: the URL of its first avatar event, when set and
/// it parses.
pub open spec fn avatar_of(s: Seq<StateEvent>) -> Option<Seq<char>> {
    match find_first(s, |e: StateEvent| is_avatar_event(e)) {
        Some(i) => match s[i] {
            StateEvent::RoomAvatar { url: Some(u) } => match url_parse_result(u@) {
                Ok(p) => Some(p),
                Err(_) => None,
            },
            _ => None,
        },
        None => None,
    }
}

/// The alias of a room: that of its first canonical alias event.
pub open spec fn alias_of(s: Seq<StateEvent>) -> Option<Seq<char>> {
    match find_first(s, |e: StateEvent| is_alias_event(e)) {
        Some(i) => match s[i] {
            StateEvent::RoomCanonicalAlias { alias } => alias.deep_view(),
            _ => None,
        },
        None => None,
    }
}

/// The topic of a room: that of its first topic event.
pub open spec fn topic_of(s: Seq<StateEvent>) -> Option<Seq<char>> {
    match find_first(s, |e: StateEvent| is_topic_event(e)) {
        Some(i) => match s[i] {
            StateEvent::RoomTopic { topic } => Some(topic@),
            _ => None,
        },
        None => None,
    }
}

/// The members, their power levels and the default power level that the
/// state events of a joined room give.
fn read_members_and_levels(state: &Vec<StateEvent>) -> (r: (StrMap<Member>, StrMap<i64>, i64))
    ensures
        r.0.map() == members_of(state@),
        r.1.map() == admins_of(state@),
        r.2 == default_level_of(state@),
{
    let mut members: StrMap<Member> = StrMap::new();
    let mut admins: StrMap<i64> = StrMap::new();
    let mut default_level: i64 = -1;
    let mut i: usize = 0;
    while i < state.len()
        invariant
            i <= state.len(),
            members.map() == members_of(state@.take(i as int)),
            admins.map() == admins_of(state@.take(i as int)),
            default_level == default_level_of(state@.take(i as int)),
        decreases state.len() - i,
    {
        proof {
            assert(state@.take(i + 1 as int).drop_last() =~= state@.take(i as int));
            assert(state@.take(i + 1 as int).last() == state@[i as int]);
        }
        match parse_room_member(&state[i]) {
            Some(m) => {
                let uid = m.uid.clone();
                members.insert(uid, m);
            },
            None => {},
        }
        match &state[i] {
            StateEvent::RoomPowerLevels { users, users_default } => {
                let ghost before = admins.map();
                let mut j: usize = 0;
                while j < users.len()
                    invariant
                        j <= users.len(),
                        admins.map() == users_into(before, users@.take(j as int)),
                    decreases users.len() - j,
                {
                    proof {
                        assert(users@.take(j + 1 as int).drop_last() =~= users@.take(j as int));
                    }
                    admins.insert(users[j].0.clone(), users[j].1);
                    j = j + 1;
                }
                assert(users@.take(users.len() as int) =~= users@);
                default_level = *users_default;
            },
            _ => {},
        }
        i = i + 1;
    }
    assert(state@.take(state.len() as int) =~= state@);
    (members, admins, default_level)
}

/// The name the state events give a room, if any.
fn read_name_or_alias(state: &Vec<StateEvent>) -> (r: Option<String>)
    ensures
        r.deep_view() == name_or_alias(state@, None),
{
    let mut acc: Option<String> = None;
    let mut i: usize = 0;
    assert(state@.skip(0) =~= state@);
    while i < state.len()
        invariant
            i <= state.len(),
            name_or_alias(state@, None) == name_or_alias(state@.skip(i as int), acc.deep_view()),
        decreases state.len() - i,
    {
        proof {
            assert(state@.skip(i as int)[0] == state@[i as int]);
            assert(state@.skip(i as int).drop_first() =~= state@.skip(i + 1 as int));
        }
        match &state[i] {
            StateEvent::RoomName { name: Some(n) } => {
                if !n.as_str().is_empty() {
                    return Some(n.clone());
                }
            },
            StateEvent::RoomCanonicalAlias { alias: Some(a) } => {
                acc = Some(a.clone());
            },
            _ => {},
        }
        i = i + 1;
    }
    acc
}

/// The avatar, alias and topic that the first events of their kinds give.
fn read_avatar_alias_topic(state: &Vec<StateEvent>) -> (r: (Option<String>, Option<String>, Option<String>))
    ensures
        r.0.deep_view() == avatar_of(state@),
        r.1.deep_view() == alias_of(state@),
        r.2.deep_view() == topic_of(state@),
{
    let mut avatar: Option<Option<String>> = None;
    let mut alias: Option<Option<String>> = None;
    let mut topic: Option<String> = None;
    let ghost mut ia: int = -1;
    let ghost mut il: int = -1;
    let ghost mut it: int = -1;
    let mut i: usize = 0;
    while i < state.len()
        invariant
            i <= state.len(),
            avatar is None ==> forall|j: int| 0 <= j < i ==> !is_avatar_event(#[trigger] state@[j]),
            avatar is Some ==> is_first(state@, |e: StateEvent| is_avatar_event(e), ia) && match state@[ia] {
                StateEvent::RoomAvatar { url } => avatar->Some_0.deep_view() == url.deep_view(),
                _ => false,
            },
            alias is None ==> forall|j: int| 0 <= j < i ==> !is_alias_event(#[trigger] state@[j]),
            alias is Some ==> is_first(state@, |e: StateEvent| is_alias_event(e), il) && match state@[il] {
                StateEvent::RoomCanonicalAlias { alias: a } => alias->Some_0.deep_view() == a.deep_view(),
                _ => false,
            },
            topic is None ==> forall|j: int| 0 <= j < i ==> !is_topic_event(#[trigger] state@[j]),
            topic is Some ==> is_first(state@, |e: StateEvent| is_topic_event(e), it) && match state@[it] {
                StateEvent::RoomTopic { topic: t } => topic->Some_0@ == t@,
                _ => false,
            },
        decreases state.len() - i,
    {
        match &state[i] {
            StateEvent::RoomAvatar { url } => {
                if avatar.is_none() {
                    avatar = Some(crate::model::member::clone_opt_string(url));
                    proof {
                        ia = i as int;
                    }
                }
            },
            StateEvent::RoomCanonicalAlias { alias: a } => {
                if alias.is_none() {
                    alias = Some(crate::model::member::clone_opt_string(a));
                    proof {
                        il = i as int;
                    }
                }
            },
            StateEvent::RoomTopic { topic: t } => {
                if topic.is_none() {
                    topic = Some(t.clone());
                    proof {
                        it = i as int;
                    }
                }
            },
            _ => {},
        }
        i = i + 1;
    }
    proof {
        if avatar is Some {
            lemma_find_first(state@, |e: StateEvent| is_avatar_event(e), ia);
        } else {
            lemma_find_none(state@, |e: StateEvent| is_avatar_event(e));
        }
        if alias is Some {
            lemma_find_first(state@, |e: StateEvent| is_alias_event(e), il);
        } else {
            lemma_find_none(state@, |e: StateEvent| is_alias_event(e));
        }
        if topic is Some {
            lemma_find_first(state@, |e: StateEvent| is_topic_event(e), it);
        } else {
            lemma_find_none(state@, |e: StateEvent| is_topic_event(e));
        }
    }
    let avatar = match avatar {
        Some(Some(u)) => match parse_url(u.as_str()) {
            Ok(p) => Some(p),
            Err(_) => None,
        },
        _ => None,
    };
    let alias = match alias {
        Some(a) => a,
        None => None,
    };
    (avatar, alias, topic)
}

/// Whether an account data event tags the room as a favourite.
pub open spec fn is_favourite_event(e: RoomAccountEvent) -> bool {
    e matches RoomAccountEvent::Tag { tags } && tags.deep_view().contains("m.favourite"@)
}

/// The tag of a joined room: favourite when a tag event says so.
pub open spec fn tag_of(s: Seq<RoomAccountEvent>) -> RoomTagView {
    if exists|i: int| 0 <= i < s.len() && is_favourite_event(#[trigger] s[i]) {
        RoomTagView::Favourite
    } else {
        RoomTagView::NoTag
    }
}

/// Whether an account data event sets the input language of the room.
pub open spec fn is_language_event(e: RoomAccountEvent) -> bool {
    e matches RoomAccountEvent::Custom { event_type, input_language } && event_type@
        == "org.gnome.fractal.language"@ && input_language is Some
}

/// The input language of a room: that of its first language event.
pub open spec fn language_of(s: Seq<RoomAccountEvent>) -> Option<Seq<char>> {
    match find_first(s, |e: RoomAccountEvent| is_language_event(e)) {
        Some(i) => match s[i] {
            RoomAccountEvent::Custom { input_language, .. } => input_language.deep_view(),
            _ => None,
        },
        None => None,
    }
}

/// The tag and input language that the account data of a room gives.
fn read_tag_and_language(s: &Vec<RoomAccountEvent>) -> (r: (RoomTag, Option<String>))
    ensures
        r.0@ == tag_of(s@),
        r.1.deep_view() == language_of(s@),
{
    let mut favourite = false;
    let mut language: Option<String> = None;
    let ghost mut il: int = -1;
    let mut i: usize = 0;
    while i < s.len()
        invariant
            i <= s.len(),
            favourite == exists|j: int| 0 <= j < i && is_favourite_event(#[trigger] s@[j]),
            language is None ==> forall|j: int| 0 <= j < i ==> !is_language_event(#[trigger] s@[j]),
            language is Some ==> is_first(s@, |e: RoomAccountEvent| is_language_event(e), il) && match s@[il] {
                RoomAccountEvent::Custom { input_language, .. } => language.deep_view()
                    == input_language.deep_view(),
                _ => false,
            },
        decreases s.len() - i,
    {
        match &s[i] {
            RoomAccountEvent::Tag { tags } => {
                if crate::text::contains_str(tags, "m.favourite") {
                    favourite = true;
                }
            },
            RoomAccountEvent::Custom { event_type, input_language: Some(l) } => {
                if language.is_none() && crate::text::str_eq(
                    event_type.as_str(),
                    "org.gnome.fractal.language",
                ) {
                    language = Some(l.clone());
                    proof {
                        il = i as int;
                    }
                }
            },
            _ => {},
        }
        i = i + 1;
    }
    proof {
        if language is Some {
            lemma_find_first(s@, |e: RoomAccountEvent| is_language_event(e), il);
        } else {
            lemma_find_none(s@, |e: RoomAccountEvent| is_language_event(e));
        }
    }
    (if favourite {
        RoomTag::Favourite
    } else {
        RoomTag::NoTag
    }, language)
}

/// The time of a read receipt in seconds since the Unix epoch; 0 when the
/// receipt has none.
pub open spec fn ts_seconds(ts: Option<u64>) -> i64 {
    match ts {
        Some(ms) => (ms / 1000) as i64,
        None => 0,
    }
}

/// The read receipts of an event, by user.
pub open spec fn read_map(rs: Seq<ReadReceipt>) -> Map<Seq<char>, i64>
    decreases rs.len(),
{
    if rs.len() == 0 {
        Map::empty()
    } else {
        read_map(rs.drop_last()).insert(rs.last().user_id@, ts_seconds(rs.last().ts))
    }
}

/// The read receipts of a receipt event, by event and user.
pub open spec fn receipts_map(c: Seq<EventReceipts>) -> Map<Seq<char>, Map<Seq<char>, i64>>
    decreases c.len(),
{
    if c.len() == 0 {
        Map::empty()
    } else {
        receipts_map(c.drop_last()).insert(c.last().event_id@, read_map(c.last().read@))
    }
}

/// Whether an ephemeral event is a receipt event.
pub open spec fn is_receipt_event(e: EphemeralEvent) -> bool {
    e is Receipt
}

/// Whether an ephemeral event is a fully read marker.
pub open spec fn is_fully_read_event(e: EphemeralEvent) -> bool {
    e is FullyRead
}

/// The read receipts of a room: those of its first receipt event.
pub open spec fn receipts_of(s: Seq<EphemeralEvent>) -> Map<Seq<char>, Map<Seq<char>, i64>> {
    match find_first(s, |e: EphemeralEvent| is_receipt_event(e)) {
        Some(i) => match s[i] {
            EphemeralEvent::Receipt(c) => receipts_map(c@),
            _ => Map::empty(),
        },
        None => Map::empty(),
    }
}

/// The event the user has fully read: that of the first marker.
pub open spec fn fully_read_of(s: Seq<EphemeralEvent>) -> Option<Seq<char>> {
    match find_first(s, |e: EphemeralEvent| is_fully_read_event(e)) {
        Some(i) => match s[i] {
            EphemeralEvent::FullyRead(id) => Some(id@),
            _ => None,
        },
        None => None,
    }
}

/// A message with the read receipts of the room applied: the receipts of
/// its event, and the user's own receipt at time 0 when it is the fully
/// read event.
pub open spec fn with_receipts(
    m: MessageView,
    rc: Map<Seq<char>, Map<Seq<char>, i64>>,
    fully_read: Option<Seq<char>>,
    user_id: Seq<char>,
) -> MessageView {
    let m1 = match m.id {
        Some(id) => if rc.dom().contains(id) {
            MessageView { receipt: rc[id], ..m }
        } else {
            m
        },
        None => m,
    };
    match fully_read {
        Some(e) => if m1.id == Some(e) {
            MessageView { receipt: m1.receipt.insert(user_id, 0), ..m1 }
        } else {
            m1
        },
        None => m1,
    }
}

/// The messages of a timeline, in order: those of its message and sticker
/// events, in the room with ID `room_id`.
pub open spec fn timeline_messages(evs: Seq<AnyRoomEvent>, room_id: String) -> Seq<MessageView>
    decreases evs.len(),
{
    if evs.len() == 0 {
        Seq::empty()
    } else {
        let p = timeline_messages(evs.drop_last(), room_id);
        match message_of_room_event(&into_full_event(evs.last(), room_id)) {
            Some(m) => p.push(m),
            None => p,
        }
    }
}

/// The read receipts of a list of receipts, by user.
fn read_receipts(rs: &Vec<ReadReceipt>) -> (r: StrMap<i64>)
    ensures
        r.map() == read_map(rs@),
{
    let mut r: StrMap<i64> = StrMap::new();
    let mut i: usize = 0;
    while i < rs.len()
        invariant
            i <= rs.len(),
            r.map() == read_map(rs@.take(i as int)),
        decreases rs.len() - i,
    {
        proof {
            assert(rs@.take(i + 1 as int).drop_last() =~= rs@.take(i as int));
        }
        let ts: i64 = match rs[i].ts {
            Some(ms) => (ms / 1000) as i64,
            None => 0,
        };
        r.insert(rs[i].user_id.clone(), ts);
        i = i + 1;
    }
    assert(rs@.take(rs.len() as int) =~= rs@);
    r
}

/// The read receipts and fully read event that the ephemeral events of a
/// room give.
fn read_ephemeral(s: &Vec<EphemeralEvent>) -> (r: (StrMap<StrMap<i64>>, Option<String>))
    ensures
        r.0.map() == receipts_of(s@),
        r.1.deep_view() == fully_read_of(s@),
{
    let mut receipts: Option<StrMap<StrMap<i64>>> = None;
    let mut fully_read: Option<String> = None;
    let ghost mut ir: int = -1;
    let ghost mut iff: int = -1;
    let mut i: usize = 0;
    while i < s.len()
        invariant
            i <= s.len(),
            receipts is None ==> forall|j: int| 0 <= j < i ==> !is_receipt_event(#[trigger] s@[j]),
            receipts is Some ==> is_first(s@, |e: EphemeralEvent| is_receipt_event(e), ir) && match s@[ir] {
                EphemeralEvent::Receipt(c) => receipts->Some_0.map() == receipts_map(c@),
                _ => false,
            },
            fully_read is None ==> forall|j: int| 0 <= j < i ==> !is_fully_read_event(#[trigger] s@[j]),
            fully_read is Some ==> is_first(s@, |e: EphemeralEvent| is_fully_read_event(e), iff) && match s@[iff] {
                EphemeralEvent::FullyRead(id) => fully_read.deep_view() == Some(id@),
                _ => false,
            },
        decreases s.len() - i,
    {
        match &s[i] {
            EphemeralEvent::Receipt(c) => {
                if receipts.is_none() {
                    let mut m: StrMap<StrMap<i64>> = StrMap::new();
                    let mut j: usize = 0;
                    while j < c.len()
                        invariant
                            j <= c.len(),
                            m.map() == receipts_map(c@.take(j as int)),
                        decreases c.len() - j,
                    {
                        proof {
                            assert(c@.take(j + 1 as int).drop_last() =~= c@.take(j as int));
                        }
                        let rm = read_receipts(&c[j].read);
                        m.insert(c[j].event_id.clone(), rm);
                        j = j + 1;
                    }
                    assert(c@.take(c.len() as int) =~= c@);
                    receipts = Some(m);
                    proof {
                        ir = i as int;
                    }
                }
            },
            EphemeralEvent::FullyRead(id) => {
                if fully_read.is_none() {
                    fully_read = Some(id.clone());
                    proof {
                        iff = i as int;
                    }
                }
            },
            _ => {},
        }
        i = i + 1;
    }
    proof {
        if receipts is Some {
            lemma_find_first(s@, |e: EphemeralEvent| is_receipt_event(e), ir);
        } else {
            lemma_find_none(s@, |e: EphemeralEvent| is_receipt_event(e));
        }
        if fully_read is Some {
            lemma_find_first(s@, |e: EphemeralEvent| is_fully_read_event(e), iff);
        } else {
            lemma_find_none(s@, |e: EphemeralEvent| is_fully_read_event(e));
        }
    }
    let receipts = match receipts {
        Some(m) => m,
        None => StrMap::new(),
    };
    (receipts, fully_read)
}

/// Applies the read receipts of the room to a message.
fn apply_receipts(
    m: Message,
    rc: &StrMap<StrMap<i64>>,
    fully_read: &Option<String>,
    user_id: &String,
) -> (r: Message)
    ensures
        r@ == with_receipts(m@, rc.map(), fully_read.deep_view(), user_id@),
{
    let mut m = m;
    let found = match &m.id {
        Some(id) => match rc.get(id.as_str()) {
            Some(receipt) => Some(receipt.duplicate()),
            None => None,
        },
        None => None,
    };
    match found {
        Some(receipt) => {
            m.set_receipt(receipt);
        },
        None => {},
    }
    let is_read = match (fully_read, &m.id) {
        (Some(e), Some(id)) => crate::text::str_eq(e.as_str(), id.as_str()),
        _ => false,
    };
    if is_read {
        m.receipt.insert(user_id.clone(), 0);
    }
    m
}

/// The name under which a member counts when a room is named after its
/// members: its display name when set (even empty), else its user ID.
pub open spec fn shown_name(m: MemberView) -> Seq<char> {
    match m.alias {
        Some(a) => a,
        None => m.uid,
    }
}

/// Whether a member entry is shown under the name `name`.
pub open spec fn shown_as(name: Seq<char>) -> spec_fn((Seq<char>, MemberView)) -> bool {
    |p: (Seq<char>, MemberView)| shown_name(p.1) == name
}

/// `n` copies of `s`.
pub open spec fn copies(s: Seq<char>, n: nat) -> Seq<Seq<char>> {
    Seq::new(n, |_i: int| s)
}

/// The room that a joined room of a sync response gives, for the user
/// `user_id`. `direct` tells whether it is a direct chat; `self_count` is
/// the number of its members shown under the user's own ID, which name the
/// room when no name or alias does.
pub open spec fn joined_view(
    jr: JoinedRoom,
    user_id: Seq<char>,
    direct: bool,
    self_count: nat,
) -> RoomView {
    let rc = receipts_of(jr.ephemeral@);
    let fr = fully_read_of(jr.ephemeral@);
    RoomView {
        name: match name_or_alias(jr.state@, None) {
            Some(n) => Some(n),
            None => name_from_members(copies(user_id, self_count)),
        },
        avatar: avatar_of(jr.state@),
        alias: alias_of(jr.state@),
        topic: topic_of(jr.state@),
        direct,
        notifications: match jr.notification_count {
            Some(n) => n,
            None => 0,
        },
        highlight: match jr.highlight_count {
            Some(n) => n,
            None => 0,
        },
        prev_batch: jr.prev_batch.deep_view(),
        messages: timeline_messages(jr.timeline@, jr.id).map_values(
            |m: MessageView| with_receipts(m, rc, fr, user_id),
        ),
        admins: admins_of(jr.state@),
        default_power_level: default_level_of(jr.state@),
        members: members_of(jr.state@),
        language: language_of(jr.account_data@),
        ..new_room(jr.id@, RoomMembershipView::Joined(tag_of(jr.account_data@)))
    }
}

/// A joined room is built with its ID, with the counts of its unread
/// notifications as the response gives them (its highlight count and its
/// notification count, each 0 only where the response leaves it out),
/// with the batch token to page back from, and as a direct chat exactly
/// when it is listed as one.
pub proof fn lemma_joined_room_counts(jr: JoinedRoom, user_id: Seq<char>, direct: bool, self_count: nat)
    ensures
        joined_view(jr, user_id, direct, self_count).id == jr.id@,
        joined_view(jr, user_id, direct, self_count).prev_batch == jr.prev_batch.deep_view(),
        joined_view(jr, user_id, direct, self_count).direct == direct,
        joined_view(jr, user_id, direct, self_count).membership is Joined,
        jr.highlight_count matches Some(n) ==> joined_view(jr, user_id, direct, self_count).highlight == n,
        jr.highlight_count is None ==> joined_view(jr, user_id, direct, self_count).highlight == 0,
        jr.notification_count matches Some(n) ==> joined_view(jr, user_id, direct, self_count).notifications
            == n,
        jr.notification_count is None ==> joined_view(jr, user_id, direct, self_count).notifications == 0,
{
}

/// The number of members shown under `name`.
fn count_shown_as(members: &StrMap<Member>, name: &String) -> (n: usize)
    ensures
        n == members.pairs().filter(shown_as(name@)).len(),
{
    let mut n: usize = 0;
    let mut i: usize = 0;
    let len = members.len();
    while i < len
        invariant
            i <= len,
            len == members.pairs().len(),
            n == members.pairs().take(i as int).filter(shown_as(name@)).len(),
            n <= i,
        decreases len - i,
    {
        let m = members.value_at(i);
        let shown = match &m.alias {
            Some(a) => crate::text::str_eq(a.as_str(), name.as_str()),
            None => crate::text::str_eq(m.uid.as_str(), name.as_str()),
        };
        proof {
            reveal_with_fuel(Seq::<(Seq<char>, MemberView)>::filter, 1);
            let t = members.pairs().take(i + 1 as int);
            assert(t.drop_last() =~= members.pairs().take(i as int));
            assert(t.last() == members.pairs()[i as int]);
            assert(shown == shown_as(name@)(members.pairs()[i as int]));
        }
        if shown {
            n = n + 1;
        }
        i = i + 1;
    }
    assert(members.pairs().take(len as int) =~= members.pairs());
    n
}

/// Names a room after `n` members all shown as `name`.
fn name_after_copies(name: &String, n: usize) -> (r: Option<String>)
    ensures
        r.deep_view() == name_from_members(copies(name@, n as nat)),
{
    let mut names: Vec<&str> = Vec::new();
    let mut i: usize = 0;
    while i < n
        invariant
            i <= n,
            names.deep_view() == copies(name@, i as nat),
        decreases n - i,
    {
        let ghost prev = names.deep_view();
        names.push(name.as_str());
        assert(names.deep_view() =~= prev.push(name@));
        assert(names.deep_view() =~= copies(name@, (i + 1) as nat));
        i = i + 1;
    }
    room_name_from_members(names.as_slice())
}

/// The room a joined room of a sync response gives, for the user
/// `user_id`; `direct` tells whether it is a direct chat.
fn joined_room(jr: JoinedRoom, user_id: &String, direct: bool) -> (r: Room)
    ensures
        r.id@ == jr.id@,
        jr.highlight_count matches Some(n) ==> r.highlight == n,
        jr.highlight_count is None ==> r.highlight == 0,
        jr.notification_count matches Some(n) ==> r.notifications == n,
        jr.notification_count is None ==> r.notifications == 0,
        r@ == joined_view(
            jr,
            user_id@,
            direct,
            r.members.pairs().filter(shown_as(user_id@)).len(),
        ),
{
    let ghost jr0 = jr;
    let JoinedRoom {
        id,
        state,
        account_data,
        ephemeral,
        notification_count,
        highlight_count,
        prev_batch,
        timeline,
    } = jr;
    let (members, admins, default_power_level) = read_members_and_levels(&state);
    let name = match read_name_or_alias(&state) {
        Some(n) => Some(n),
        None => {
            let c = count_shown_as(&members, user_id);
            name_after_copies(user_id, c)
        },
    };
    let (avatar, alias, topic) = read_avatar_alias_topic(&state);
    let (tag, language) = read_tag_and_language(&account_data);
    let (rc, fully_read) = read_ephemeral(&ephemeral);
    let ghost rcv = rc.map();
    let ghost frv = fully_read.deep_view();
    let ghost msgs_spec = timeline_messages(timeline@, id);
    let mut messages: Vec<Message> = Vec::new();
    let mut rest = timeline;
    let ghost mut k: int = 0;
    proof {
        assert(rest@ =~= jr0.timeline@.skip(0));
        assert(jr0.timeline@.take(0) =~= Seq::<AnyRoomEvent>::empty());
    }
    while rest.len() > 0
        invariant
            0 <= k <= jr0.timeline@.len(),
            rest@ == jr0.timeline@.skip(k),
            rest@.len() == jr0.timeline@.len() - k,
            id == jr0.id,
            rcv == rc.map(),
            frv == fully_read.deep_view(),
            messages.deep_view() == timeline_messages(jr0.timeline@.take(k), id).map_values(
                |m: MessageView| with_receipts(m, rcv, frv, user_id@),
            ),
        decreases rest.len(),
    {
        let ghost r0 = rest@;
        let ev = rest.remove(0);
        let ghost prev = messages.deep_view();
        proof {
            assert(ev == jr0.timeline@[k]);
            assert(rest@ =~= jr0.timeline@.skip(k + 1));
            assert(jr0.timeline@.take(k + 1).drop_last() =~= jr0.timeline@.take(k));
            assert(jr0.timeline@.take(k + 1).last() == ev);
        }
        match Message::try_from((id.clone(), ev)) {
            Ok(m) => {
                let ghost m0 = m@;
                let m = apply_receipts(m, &rc, &fully_read, user_id);
                messages.push(m);
                proof {
                    let t0 = timeline_messages(jr0.timeline@.take(k), id);
                    let t1 = timeline_messages(jr0.timeline@.take(k + 1), id);
                    assert(message_of_room_event(&into_full_event(ev, id)) == Some(m0));
                    assert(t1 == t0.push(m0));
                    assert(messages.deep_view() =~= prev.push(with_receipts(m0, rcv, frv, user_id@)));
                }
                assert(messages.deep_view() =~= timeline_messages(jr0.timeline@.take(k + 1), id).map_values(
                    |m: MessageView| with_receipts(m, rcv, frv, user_id@),
                ));
            },
            Err(_) => {
                assert(messages.deep_view() =~= timeline_messages(jr0.timeline@.take(k + 1), id).map_values(
                    |m: MessageView| with_receipts(m, rcv, frv, user_id@),
                ));
            },
        }
        proof {
            k = k + 1;
        }
    }
    proof {
        assert(k == jr0.timeline@.len());
        assert(jr0.timeline@.take(k) =~= jr0.timeline@);
    }
    let mut r = Room::new(id, RoomMembership::Joined(tag));
    r.name = name;
    r.avatar = avatar;
    r.alias = alias;
    r.topic = topic;
    r.direct = direct;
    r.notifications = match notification_count {
        Some(n) => n,
        None => 0,
    };
    r.highlight = match highlight_count {
        Some(n) => n,
        None => 0,
    };
    r.prev_batch = prev_batch;
    r.messages = messages;
    r.admins = admins;
    r.default_power_level = default_power_level;
    r.members = members;
    r.language = language;
    proof {
        assert(r@ =~= joined_view(
            jr0,
            user_id@,
            direct,
            r.members.pairs().filter(shown_as(user_id@)).len(),
        ));
    }
    r
}

/// The room a left room of a sync response gives: kicked, with the
/// reason given, when the last event of its timeline was sent by another
/// user with a valid user ID; otherwise left with no reason known.
pub open spec fn left_view(lr: LeftRoom, user_id: Seq<char>) -> RoomView {
    let reason = match lr.last_event {
        Some(ev) => {
            let sender = match ev.sender {
                Some(x) => x@,
                None => Seq::empty(),
            };
            if user_id_valid(sender) && sender != user_id {
                ReasonView::Kicked(
                    match ev.reason {
                        Some(x) => x@,
                        None => Seq::empty(),
                    },
                    sender,
                )
            } else {
                ReasonView::NoReason
            }
        },
        None => ReasonView::NoReason,
    };
    new_room(lr.id@, RoomMembershipView::Left(reason))
}

/// The room a left room of a sync response gives.
fn left_room(lr: LeftRoom, user_id: &String) -> (r: Room)
    ensures
        r@ == left_view(lr, user_id@),
{
    let LeftRoom { id, last_event } = lr;
    let reason = match last_event {
        Some(ev) => {
            let sender = match ev.sender {
                Some(x) => x,
                None => String::new(),
            };
            if parse_user_id(sender.as_str()).is_ok() && !crate::text::str_eq(
                sender.as_str(),
                user_id.as_str(),
            ) {
                let why = match ev.reason {
                    Some(x) => x,
                    None => String::new(),
                };
                Reason::Kicked(why, sender)
            } else {
                Reason::NoReason
            }
        },
        None => Reason::NoReason,
    };
    Room::new(id, RoomMembership::Left(reason))
}

/// Whether a stripped event invites the user `user_id`.
pub open spec fn is_invite_for(e: StateEvent, user_id: Seq<char>) -> bool {
    e matches StateEvent::RoomMember { membership: MembershipState::Invite, state_key, .. } && state_key@
        == user_id
}

/// Who invited the user: the sender of the first event inviting them.
pub open spec fn inviter_of(s: Seq<StateEvent>, user_id: Seq<char>) -> Option<Seq<char>> {
    match find_first(s, |e: StateEvent| is_invite_for(e, user_id)) {
        Some(i) => match s[i] {
            StateEvent::RoomMember { sender, .. } => Some(sender@),
            _ => None,
        },
        None => None,
    }
}

/// The name a stripped member event gives another member: a joined
/// member's display name or sender, an invited member's display name or
/// user ID.
pub open spec fn stripped_name(e: StateEvent, user_id: Seq<char>) -> Option<Seq<char>> {
    match e {
        StateEvent::RoomMember { sender, state_key, membership, displayname, .. } => match membership {
            MembershipState::Join => if sender@ != user_id {
                Some(
                    match displayname {
                        Some(d) => d@,
                        None => sender@,
                    },
                )
            } else {
                None
            },
            MembershipState::Invite => if state_key@ != user_id {
                Some(
                    match displayname {
                        Some(d) => d@,
                        None => state_key@,
                    },
                )
            } else {
                None
            },
            _ => None,
        },
        _ => None,
    }
}

/// The names of the other members in stripped state, in order.
pub open spec fn stripped_names(s: Seq<StateEvent>, user_id: Seq<char>) -> Seq<Seq<char>>
    decreases s.len(),
{
    if s.len() == 0 {
        Seq::empty()
    } else {
        let p = stripped_names(s.drop_last(), user_id);
        match stripped_name(s.last(), user_id) {
            Some(n) => p.push(n),
            None => p,
        }
    }
}

/// At most the first three elements of a sequence.
pub open spec fn first_three(s: Seq<Seq<char>>) -> Seq<Seq<char>> {
    if s.len() > 3 {
        s.take(3)
    } else {
        s
    }
}

/// The name of another member that a stripped member event gives.
pub fn member_from_stripped_event(event: &StateEvent, user_id: &String) -> (r: Option<String>)
    ensures
        r.deep_view() == stripped_name(*event, user_id@),
{
    match event {
        StateEvent::RoomMember { sender, state_key, membership, displayname, .. } => match membership {
            MembershipState::Join => {
                if !crate::text::str_eq(sender.as_str(), user_id.as_str()) {
                    Some(
                        match displayname {
                            Some(d) => d.clone(),
                            None => sender.clone(),
                        },
                    )
                } else {
                    None
                }
            },
            MembershipState::Invite => {
                if !crate::text::str_eq(state_key.as_str(), user_id.as_str()) {
                    Some(
                        match displayname {
                            Some(d) => d.clone(),
                            None => state_key.clone(),
                        },
                    )
                } else {
                    None
                }
            },
            _ => None,
        },
        _ => None,
    }
}

/// The room an invited room of a sync response gives, when an event of its
/// stripped state invites the user: named after up to three other members
/// when no name or alias names it.
pub open spec fn invited_view(ir: InvitedRoom, user_id: Seq<char>, direct: bool) -> Option<
    RoomView,
> {
    match inviter_of(ir.invite_state@, user_id) {
        Some(sender) => Some(
            RoomView {
                name: match name_or_alias(ir.invite_state@, None) {
                    Some(n) => Some(n),
                    None => name_from_members(
                        first_three(stripped_names(ir.invite_state@, user_id)),
                    ),
                },
                avatar: avatar_of(ir.invite_state@),
                alias: alias_of(ir.invite_state@),
                topic: topic_of(ir.invite_state@),
                direct,
                ..new_room(ir.id@, RoomMembershipView::Invited(sender))
            },
        ),
        None => None,
    }
}

/// The room an invited room of a sync response gives, if the user is
/// invited by an event of its stripped state.
fn invited_room(ir: InvitedRoom, user_id: &String, direct: bool) -> (r: Option<Room>)
    ensures
        r.deep_view() == invited_view(ir, user_id@, direct),
{
    let ghost ir0 = ir;
    let InvitedRoom { id, invite_state } = ir;
    let s = &invite_state;
    let mut inviter: Option<String> = None;
    let ghost mut ii: int = -1;
    let mut names: Vec<String> = Vec::new();
    let mut i: usize = 0;
    while i < s.len()
        invariant
            i <= s.len(),
            inviter is None ==> forall|j: int|
                0 <= j < i ==> !is_invite_for(#[trigger] s@[j], user_id@),
            inviter is Some ==> is_first(s@, |e: StateEvent| is_invite_for(e, user_id@), ii)
                && match s@[ii] {
                StateEvent::RoomMember { sender, .. } => inviter.deep_view() == Some(sender@),
                _ => false,
            },
            names.deep_view() == stripped_names(s@.take(i as int), user_id@),
        decreases s.len() - i,
    {
        proof {
            assert(s@.take(i + 1 as int).drop_last() =~= s@.take(i as int));
            assert(s@.take(i + 1 as int).last() == s@[i as int]);
        }
        match &s[i] {
            StateEvent::RoomMember { sender, state_key, membership: MembershipState::Invite, .. } => {
                if inviter.is_none() && crate::text::str_eq(state_key.as_str(), user_id.as_str()) {
                    inviter = Some(sender.clone());
                    proof {
                        ii = i as int;
                    }
                }
            },
            _ => {},
        }
        let ghost prev = names.deep_view();
        match member_from_stripped_event(&s[i], user_id) {
            Some(n) => {
                names.push(n);
                assert(names.deep_view() =~= prev.push(stripped_name(s@[i as int], user_id@)->Some_0));
            },
            None => {},
        }
        i = i + 1;
    }
    proof {
        assert(s@.take(s.len() as int) =~= s@);
        if inviter is Some {
            lemma_find_first(s@, |e: StateEvent| is_invite_for(e, user_id@), ii);
        } else {
            lemma_find_none(s@, |e: StateEvent| is_invite_for(e, user_id@));
        }
    }
    let sender = match inviter {
        Some(x) => x,
        None => {
            return None;
        },
    };
    let name = match read_name_or_alias(s) {
        Some(n) => Some(n),
        None => {
            let mut first: Vec<&str> = Vec::new();
            let mut j: usize = 0;
            while j < names.len() && j < 3
                invariant
                    j <= names.len(),
                    j <= 3,
                    first.deep_view() == names.deep_view().take(j as int),
                decreases names.len() - j,
            {
                let ghost prev = first.deep_view();
                first.push(names[j].as_str());
                assert(first.deep_view() =~= prev.push(names.deep_view()[j as int]));
                assert(first.deep_view() =~= names.deep_view().take(j + 1 as int));
                j = j + 1;
            }
            proof {
                if names.len() <= 3 {
                    assert(names.deep_view().take(j as int) =~= names.deep_view());
                }
                assert(first.deep_view() =~= first_three(names.deep_view()));
            }
            room_name_from_members(first.as_slice())
        },
    };
    let (avatar, alias, topic) = read_avatar_alias_topic(s);
    let mut r = Room::new(id, RoomMembership::Invited(sender));
    r.name = name;
    r.avatar = avatar;
    r.alias = alias;
    r.topic = topic;
    r.direct = direct;
    proof {
        assert(r@ =~= invited_view(ir0, user_id@, direct)->Some_0);
    }
    Some(r)
}

/// Whether a global account data event lists the direct chats.
pub open spec fn is_direct_event(e: GlobalAccountEvent) -> bool {
    e.event_type@ == "m.direct"@ && e.direct is Some
}

/// Whether the room with ID `room_id` is a direct chat: the first event
/// listing the direct chats lists it for some user.
pub open spec fn is_direct_room(s: Seq<GlobalAccountEvent>, room_id: Seq<char>) -> bool {
    match find_first(s, |e: GlobalAccountEvent| is_direct_event(e)) {
        Some(i) => exists|a: int|
            0 <= a < s[i].direct->Some_0@.len() && (#[trigger] s[i].direct->Some_0@[a]).deep_view().contains(
                room_id,
            ),
        None => false,
    }
}

/// The IDs of the direct chats.
fn direct_rooms(s: &Vec<GlobalAccountEvent>) -> (r: Vec<String>)
    ensures
        forall|x: Seq<char>| #[trigger] r.deep_view().contains(x) <==> is_direct_room(s@, x),
{
    let mut i: usize = 0;
    while i < s.len()
        invariant
            i <= s.len(),
            forall|j: int| 0 <= j < i ==> !is_direct_event(#[trigger] s@[j]),
        decreases s.len() - i,
    {
        if crate::text::str_eq(s[i].event_type.as_str(), "m.direct") {
            match &s[i].direct {
                Some(lists) => {
                    proof {
                        lemma_find_first(s@, |e: GlobalAccountEvent| is_direct_event(e), i as int);
                    }
                    let mut r: Vec<String> = Vec::new();
                    let mut a: usize = 0;
                    while a < lists.len()
                        invariant
                            a <= lists.len(),
                            forall|x: Seq<char>| #[trigger] r.deep_view().contains(x) <==> exists|b: int|
                                0 <= b < a && (#[trigger] lists@[b]).deep_view().contains(x),
                        decreases lists.len() - a,
                    {
                        let ghost before = r.deep_view();
                        let more = crate::text::clone_strings(&lists[a]);
                        let mut j: usize = 0;
                        while j < more.len()
                            invariant
                                j <= more.len(),
                                forall|x: Seq<char>| #[trigger] r.deep_view().contains(x) <==> (before.contains(x) || more.deep_view().take(j as int).contains(x)),
                            decreases more.len() - j,
                        {
                            let ghost prev = r.deep_view();
                            r.push(more[j].clone());
                            proof {
                                broadcast use vstd::seq_lib::lemma_seq_contains_after_push;

                                assert(r.deep_view() =~= prev.push(more.deep_view()[j as int]));
                                assert(more.deep_view().take(j + 1 as int) =~= more.deep_view().take(j as int).push(more.deep_view()[j as int]));
                            }
                            j = j + 1;
                        }
                        proof {
                            assert(more.deep_view().take(more.len() as int) =~= more.deep_view());
                            assert forall|x: Seq<char>| #[trigger] r.deep_view().contains(x) <==> exists|b: int|
                                0 <= b < a + 1 && (#[trigger] lists@[b]).deep_view().contains(x) by {
                                if r.deep_view().contains(x) && !before.contains(x) {
                                    assert(lists@[a as int].deep_view().contains(x));
                                }
                            }
                        }
                        a = a + 1;
                    }
                    return r;
                },
                None => {},
            }
        }
        i = i + 1;
    }
    proof {
        lemma_find_none(s@, |e: GlobalAccountEvent| is_direct_event(e));
    }
    Vec::new()
}

/// The rooms that the invited rooms of a sync response give, in order.
pub open spec fn invited_views(
    s: Seq<InvitedRoom>,
    user_id: Seq<char>,
    account_data: Seq<GlobalAccountEvent>,
) -> Seq<RoomView>
    decreases s.len(),
{
    if s.len() == 0 {
        Seq::empty()
    } else {
        let p = invited_views(s.drop_last(), user_id, account_data);
        match invited_view(s.last(), user_id, is_direct_room(account_data, s.last().id@)) {
            Some(r) => p.push(r),
            None => p,
        }
    }
}

impl Room {
    /// The rooms a sync response gives for the user `user_id`: the joined
    /// rooms, then the left ones, then those the user is invited to.
    pub fn from_sync_response(response: SyncResponse, user_id: String) -> (r: Vec<Room>)
        ensures
            r.len() >= response.join@.len() + response.leave@.len(),
            forall|i: int|
                0 <= i < response.join@.len() ==> (#[trigger] r@[i])@ == joined_view(
                    response.join@[i],
                    user_id@,
                    is_direct_room(response.account_data@, response.join@[i].id@),
                    r@[i].members.pairs().filter(shown_as(user_id@)).len(),
                ),
            forall|i: int|
                0 <= i < response.join@.len() ==> {
                    &&& (#[trigger] r@[i]).id@ == response.join@[i].id@
                    &&& response.join@[i].highlight_count matches Some(n) ==> r@[i].highlight == n
                    &&& response.join@[i].highlight_count is None ==> r@[i].highlight == 0
                    &&& response.join@[i].notification_count matches Some(n) ==> r@[i].notifications == n
                    &&& response.join@[i].notification_count is None ==> r@[i].notifications == 0
                },
            forall|i: int|
                0 <= i < response.leave@.len() ==> (#[trigger] r@[response.join@.len() + i])@
                    == left_view(response.leave@[i], user_id@),
            r.deep_view().skip((response.join@.len() + response.leave@.len()) as int) == invited_views(
                response.invite@,
                user_id@,
                response.account_data@,
            ),
    {
        let ghost resp = response;
        let SyncResponse { account_data, join, leave, invite } = response;
        let direct = direct_rooms(&account_data);
        let nj = join.len();
        let nl = leave.len();
        let mut r: Vec<Room> = Vec::new();
        let mut rest = join;
        let ghost mut k: int = 0;
        while rest.len() > 0
            invariant
                0 <= k <= resp.join@.len(),
                rest@ == resp.join@.skip(k),
                rest@.len() == resp.join@.len() - k,
                r@.len() == k,
                forall|x: Seq<char>| #[trigger] direct.deep_view().contains(x) <==> is_direct_room(resp.account_data@, x),
                forall|i: int|
                    0 <= i < k ==> (#[trigger] r@[i])@ == joined_view(
                        resp.join@[i],
                        user_id@,
                        is_direct_room(resp.account_data@, resp.join@[i].id@),
                        r@[i].members.pairs().filter(shown_as(user_id@)).len(),
                    ),
                forall|i: int|
                    0 <= i < k ==> {
                        &&& (#[trigger] r@[i]).id@ == resp.join@[i].id@
                        &&& resp.join@[i].highlight_count matches Some(n) ==> r@[i].highlight == n
                        &&& resp.join@[i].highlight_count is None ==> r@[i].highlight == 0
                        &&& resp.join@[i].notification_count matches Some(n) ==> r@[i].notifications == n
                        &&& resp.join@[i].notification_count is None ==> r@[i].notifications == 0
                    },
            decreases rest.len(),
        {
            let jr = rest.remove(0);
            proof {
                assert(jr == resp.join@[k]);
                assert(rest@ =~= resp.join@.skip(k + 1));
            }
            let is_direct = crate::text::contains_str(&direct, jr.id.as_str());
            let room = joined_room(jr, &user_id, is_direct);
            r.push(room);
            proof {
                k = k + 1;
            }
        }
        let mut rest = leave;
        let ghost mut k: int = 0;
        while rest.len() > 0
            invariant
                0 <= k <= resp.leave@.len(),
                rest@ == resp.leave@.skip(k),
                rest@.len() == resp.leave@.len() - k,
                nj == resp.join@.len(),
                r@.len() == nj + k,
                forall|i: int|
                    0 <= i < nj ==> (#[trigger] r@[i])@ == joined_view(
                        resp.join@[i],
                        user_id@,
                        is_direct_room(resp.account_data@, resp.join@[i].id@),
                        r@[i].members.pairs().filter(shown_as(user_id@)).len(),
                    ),
                forall|i: int| 0 <= i < k ==> (#[trigger] r@[nj + i])@ == left_view(resp.leave@[i], user_id@),
            decreases rest.len(),
        {
            let lr = rest.remove(0);
            proof {
                assert(lr == resp.leave@[k]);
                assert(rest@ =~= resp.leave@.skip(k + 1));
            }
            let room = left_room(lr, &user_id);
            r.push(room);
            proof {
                k = k + 1;
            }
        }
        let mut rest = invite;
        let ghost mut k: int = 0;
        proof {
            assert(resp.invite@.take(0) =~= Seq::<InvitedRoom>::empty());
            assert(r.deep_view().skip(nj + nl as int) =~= Seq::<RoomView>::empty());
        }
        while rest.len() > 0
            invariant
                0 <= k <= resp.invite@.len(),
                rest@ == resp.invite@.skip(k),
                rest@.len() == resp.invite@.len() - k,
                nj == resp.join@.len(),
                nl == resp.leave@.len(),
                r@.len() >= nj + nl,
                forall|x: Seq<char>| #[trigger] direct.deep_view().contains(x) <==> is_direct_room(resp.account_data@, x),
                forall|i: int|
                    0 <= i < nj ==> (#[trigger] r@[i])@ == joined_view(
                        resp.join@[i],
                        user_id@,
                        is_direct_room(resp.account_data@, resp.join@[i].id@),
                        r@[i].members.pairs().filter(shown_as(user_id@)).len(),
                    ),
                forall|i: int| 0 <= i < nl ==> (#[trigger] r@[nj + i])@ == left_view(resp.leave@[i], user_id@),
                r.deep_view().skip(nj + nl as int) == invited_views(resp.invite@.take(k), user_id@, resp.account_data@),
            decreases rest.len(),
        {
            let ir = rest.remove(0);
            proof {
                assert(ir == resp.invite@[k]);
                assert(rest@ =~= resp.invite@.skip(k + 1));
                assert(resp.invite@.take(k + 1).drop_last() =~= resp.invite@.take(k));
                assert(resp.invite@.take(k + 1).last() == ir);
            }
            let is_direct = crate::text::contains_str(&direct, ir.id.as_str());
            let ghost prev = r.deep_view();
            match invited_room(ir, &user_id, is_direct) {
                Some(room) => {
                    r.push(room);
                    proof {
                        assert(r.deep_view() =~= prev.push(r@[r@.len() - 1]@));
                        assert(r.deep_view().skip(nj + nl as int) =~= prev.skip(nj + nl as int).push(r@[r@.len() - 1]@));
                    }
                },
                None => {},
            }
            proof {
                k = k + 1;
            }
        }
        proof {
            assert(k == resp.invite@.len());
            assert(resp.invite@.take(k) =~= resp.invite@);
        }
        r
    }
}

} // verus!
