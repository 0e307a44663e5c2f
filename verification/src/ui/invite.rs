//! The list of users to invite to a room or to a direct chat.

use crate::model::member::{Member, MemberView};
use vstd::prelude::*;

verus! {

/// What the list of users is for.
pub enum SearchType {
    Invite,
    DirectChat,
}

/// The users picked so far.
pub struct InviteList {
    pub members: Vec<Member>,
}

/// Whether a list of members holds one with the given user ID.
pub open spec fn has_uid(s: Seq<MemberView>, uid: Seq<char>) -> bool {
    exists|i: int| 0 <= i < s.len() && (#[trigger] s[i]).uid == uid
}

impl InviteList {
    /// An empty list.
    pub fn new() -> (l: InviteList)
        ensures
            l.members.deep_view() == Seq::<MemberView>::empty(),
    {
        let l = InviteList { members: Vec::new() };
        assert(l.members.deep_view() =~= Seq::<MemberView>::empty());
        l
    }

    /// Adds a user, unless it is in the list already; a direct chat is
    /// with one user, so the list is emptied first for one. Tells whether
    /// the user was added.
    pub fn add_to_invite(&mut self, member: Member, search_type: SearchType) -> (added: bool)
        ensures
            added == !has_uid(old(self).members.deep_view(), member@.uid),
            !added ==> final(self).members.deep_view() == old(self).members.deep_view(),
            added ==> final(self).members.deep_view() == (match search_type {
                SearchType::DirectChat => Seq::<MemberView>::empty(),
                SearchType::Invite => old(self).members.deep_view(),
            }).push(member@),
    {
        let mut i: usize = 0;
        while i < self.members.len()
            invariant
                i <= self.members.len(),
                forall|j: int| 0 <= j < i ==> (#[trigger] self.members.deep_view()[j]).uid != member@.uid,
            decreases self.members.len() - i,
        {
            if self.members[i].uid == member.uid {
                assert(self.members.deep_view()[i as int].uid == member@.uid);
                return false;
            }
            i = i + 1;
        }
        match search_type {
            SearchType::DirectChat => {
                self.members = Vec::new();
            },
            SearchType::Invite => {},
        }
        let ghost before = self.members.deep_view();
        proof {
            if search_type is DirectChat {
                assert(before =~= Seq::<MemberView>::empty());
            }
        }
        self.members.push(member);
        assert(self.members.deep_view() =~= before.push(member@));
        true
    }

    /// Removes the (first) user with the given ID; tells whether the list is then
    /// empty (and the buttons that need a user are disabled).
    pub fn rm_from_invite(&mut self, uid: &str) -> (empty: bool)
        ensures
            empty == (final(self).members@.len() == 0),
            has_uid(old(self).members.deep_view(), uid@) ==> exists|i: int|
                0 <= i < old(self).members@.len() && old(self).members.deep_view()[i].uid == uid@
                    && (forall|j: int| 0 <= j < i ==> (#[trigger] old(self).members.deep_view()[j]).uid != uid@)
                    && final(self).members.deep_view() == old(self).members.deep_view().remove(i),
            !has_uid(old(self).members.deep_view(), uid@) ==> final(self).members.deep_view()
                == old(self).members.deep_view(),
    {
        let mut i: usize = 0;
        while i < self.members.len()
            invariant
                i <= self.members.len(),
                *self == *old(self),
                forall|j: int| 0 <= j < i ==> (#[trigger] self.members.deep_view()[j]).uid != uid@,
            decreases self.members.len() - i,
        {
            if crate::text::str_eq(self.members[i].uid.as_str(), uid) {
                let ghost before = self.members.deep_view();
                assert(before[i as int].uid == uid@);
                assert(has_uid(before, uid@));
                self.members.remove(i);
                assert(self.members.deep_view() =~= before.remove(i as int));
                return self.members.len() == 0;
            }
            i = i + 1;
        }
        self.members.len() == 0
    }
}

/// What happens in the entry of the invite dialog.
pub enum InviteEntryEvent {
    /// A key was released.
    KeyReleased,
    /// The search timer went off; the entry's text, if it could be read.
    TimerFired(Option<String>),
}

/// What the invite dialog does in answer.
pub enum InviteEntryAction {
    /// Start the search timer for `delay_ms` milliseconds, first cancelling
    /// the one pending when `cancel_pending`.
    StartTimer { cancel_pending: bool, delay_ms: u32 },
    /// Search for users matching the text.
    Search(String),
    /// Nothing.
    Nothing,
}

/// One step of the invite search: a search starts only once no key has
/// been released for 500 ms. Given whether a timer is pending and what
/// happened, whether a timer is pending after, and what to do.
pub fn invite_key_step(pending: bool, ev: InviteEntryEvent) -> (r: (bool, InviteEntryAction))
    ensures
        match ev {
            InviteEntryEvent::KeyReleased => r.0 && r.1 == (InviteEntryAction::StartTimer {
                cancel_pending: pending,
                delay_ms: 500,
            }),
            InviteEntryEvent::TimerFired(text) => !r.0 && match text {
                Some(t) => r.1 == InviteEntryAction::Search(t),
                None => r.1 == InviteEntryAction::Nothing,
            },
        },
{
    match ev {
        InviteEntryEvent::KeyReleased => (true, InviteEntryAction::StartTimer { cancel_pending: pending, delay_ms: 500 }),
        InviteEntryEvent::TimerFired(text) => match text {
            Some(t) => (false, InviteEntryAction::Search(t)),
            None => (false, InviteEntryAction::Nothing),
        },
    }
}

/// Adding a user who is not in the list, then removing that user, gives
/// back the list as it was: the user removed is the one added.
pub proof fn lemma_add_then_remove(s: Seq<MemberView>, m: MemberView, i: int)
    requires
        !has_uid(s, m.uid),
        0 <= i < s.len() + 1,
        s.push(m)[i].uid == m.uid,
    ensures
        s.push(m).remove(i) == s,
{
    if i < s.len() {
        assert(s.push(m)[i] == s[i]);
        assert(has_uid(s, m.uid));
    }
    assert(s.push(m).remove(i) =~= s);
}

} // verus!
