//! The results of a search for users.

use crate::model::member::{Member, MemberView};
use crate::outside::{parse_user_id, user_id_valid};
use vstd::prelude::*;

verus! {

/// Whether a user with the given ID is among the users.
pub open spec fn has_user(users: Seq<MemberView>, uid: Seq<char>) -> bool {
    exists|i: int| 0 <= i < users.len() && (#[trigger] users[i]).uid == uid
}

/// The users a search shows: those the server found, and first, when the
/// search term is itself a valid user ID that none of them has, a user
/// with that ID and nothing more known of it.
pub open spec fn shown_users(users: Seq<MemberView>, term: Option<Seq<char>>) -> Seq<MemberView> {
    match term {
        Some(t) => if user_id_valid(t) && !has_user(users, t) {
            seq![MemberView { uid: t, alias: None, avatar: None }] + users
        } else {
            users
        },
        None => users,
    }
}

/// The users a search shows, given those the server found and the search
/// term.
pub fn search_finished(users: Vec<Member>, term: Option<String>) -> (r: Vec<Member>)
    ensures
        r.deep_view() == shown_users(users.deep_view(), term.deep_view()),
{
    let t = match term {
        Some(t) => t,
        None => {
            return users;
        },
    };
    let uid = match parse_user_id(t.as_str()) {
        Ok(u) => u,
        Err(_) => {
            return users;
        },
    };
    let mut i: usize = 0;
    while i < users.len()
        invariant
            i <= users@.len(),
            uid@ == t@,
            term.deep_view() == Some(t@),
            user_id_valid(t@),
            forall|j: int| 0 <= j < i ==> (#[trigger] users.deep_view()[j]).uid != t@,
        decreases users@.len() - i,
    {
        if crate::text::str_eq(users[i].uid.as_str(), uid.as_str()) {
            assert(users.deep_view()[i as int].uid == t@);
            assert(has_user(users.deep_view(), t@));
            return users;
        }
        i = i + 1;
    }
    let ghost before = users.deep_view();
    let mut shown = users;
    shown.insert(0, Member { uid, alias: None, avatar: None });
    assert(shown.deep_view() =~= seq![MemberView { uid: t@, alias: None, avatar: None }] + before);
    shown
}

} // verus!
