//! The badges shown on members' avatars and the filter of the member list.

use crate::model::member::{alias_or_uid, Member, MemberView};
use crate::outside::{lowercase_of, to_lowercase};
use crate::text::{contains_seq, str_contains};
use vstd::prelude::*;

verus! {

/// The colour of a member's badge.
pub enum AvatarBadgeColor {
    Gold,
    Silver,
    Grey,
}

/// The badge of a member in the member list: gold for power level 100,
/// silver from 50 to 99, grey from 1 to 49, none otherwise (no level
/// counts as 0).
pub fn member_list_badge(power_level: Option<i32>) -> (b: Option<AvatarBadgeColor>)
    ensures
        b == (match power_level {
            Some(pl) => if pl == 100 {
                Some(AvatarBadgeColor::Gold)
            } else if 50 <= pl <= 99 {
                Some(AvatarBadgeColor::Silver)
            } else if 1 <= pl <= 49 {
                Some(AvatarBadgeColor::Grey)
            } else {
                None
            },
            None => None,
        }),
{
    let pl = match power_level {
        Some(p) => p,
        None => 0,
    };
    if pl == 100 {
        Some(AvatarBadgeColor::Gold)
    } else if 50 <= pl && pl <= 99 {
        Some(AvatarBadgeColor::Silver)
    } else if 1 <= pl && pl <= 49 {
        Some(AvatarBadgeColor::Grey)
    } else {
        None
    }
}

/// The badge of a member in a room's details: none below 50, silver from
/// 50 to 99, gold from 100 (and for a negative level).
pub fn member_badge(member_level: i64) -> (b: Option<AvatarBadgeColor>)
    ensures
        b == (if 0 <= member_level <= 49 {
            None
        } else if 50 <= member_level <= 99 {
            Some(AvatarBadgeColor::Silver)
        } else {
            Some(AvatarBadgeColor::Gold)
        }),
{
    if 0 <= member_level && member_level <= 49 {
        None
    } else if 50 <= member_level && member_level <= 99 {
        Some(AvatarBadgeColor::Silver)
    } else {
        Some(AvatarBadgeColor::Gold)
    }
}

/// Whether a member is shown by a search of the member list: its name
/// holds the search, both in lowercase.
pub open spec fn member_shown(m: MemberView, search: Seq<char>) -> bool {
    contains_seq(lowercase_of(alias_or_uid(m)), lowercase_of(search))
}

/// Whether the lowercase `search` occurs, at some position, in the
/// lowercase `name`.
pub open spec fn lowercase_holds(name: Seq<char>, search: Seq<char>) -> bool {
    exists|i: int|
        0 <= i && i + lowercase_of(search).len() <= lowercase_of(name).len() && #[trigger] lowercase_of(
            name,
        ).subrange(i, i + lowercase_of(search).len()) == lowercase_of(search)
}

/// A search of the member list goes over the name a member is shown
/// under: a member with a display name that is set and not empty is shown
/// exactly when the display name holds the search, both in lowercase; any
/// other member exactly when its user ID does.
pub proof fn lemma_member_search(m: MemberView, search: Seq<char>)
    ensures
        m.alias is Some && m.alias->Some_0.len() > 0 ==> (member_shown(m, search) <==> lowercase_holds(
            m.alias->Some_0,
            search,
        )),
        !(m.alias is Some && m.alias->Some_0.len() > 0) ==> (member_shown(m, search) <==> lowercase_holds(
            m.uid,
            search,
        )),
{
    let name = if m.alias is Some && m.alias->Some_0.len() > 0 {
        m.alias->Some_0
    } else {
        m.uid
    };
    assert(alias_or_uid(m) == name);
    let n = lowercase_of(name);
    let lt = lowercase_of(search);
    if member_shown(m, search) {
        let i = choose|i: int| #[trigger] crate::text::occurs(n, lt, i);
        assert(n.subrange(i, i + lt.len()) == lt);
    }
    if lowercase_holds(name, search) {
        let i = choose|i: int| 0 <= i && i + lt.len() <= n.len() && #[trigger] n.subrange(i, i + lt.len()) == lt;
        assert(crate::text::occurs(n, lt, i));
    }
}

/// Which members a search of the member list shows, in order, and
/// whether it shows none (then the list says it is empty). Without a
/// search nothing changes.
pub fn filter_rows(members: &Vec<Member>, search: &Option<String>) -> (r: Option<(Vec<bool>, bool)>)
    ensures
        match search {
            None => r is None,
            Some(s) => r matches Some((shown, empty)) && shown@.len() == members@.len() && (forall|i: int|
                0 <= i < shown@.len() ==> shown@[i] == member_shown(#[trigger] members@[i]@, s@)) && empty
                == (forall|i: int| 0 <= i < shown@.len() ==> !#[trigger] shown@[i]),
        },
        search is Some ==> r is Some && forall|i: int|
            #![trigger members@[i]]
            0 <= i < members@.len() ==> {
                &&& members@[i].alias is Some && members@[i].alias->Some_0@.len() > 0 ==> (r->Some_0.0@[i]
                    <==> lowercase_holds(members@[i].alias->Some_0@, search->Some_0@))
                &&& !(members@[i].alias is Some && members@[i].alias->Some_0@.len() > 0) ==> (
                r->Some_0.0@[i] <==> lowercase_holds(members@[i].uid@, search->Some_0@))
            },
{
    let s = match search {
        Some(s) => s,
        None => {
            return None;
        },
    };
    let term = to_lowercase(s.as_str());
    let mut shown: Vec<bool> = Vec::new();
    let mut empty = true;
    let mut i: usize = 0;
    while i < members.len()
        invariant
            i <= members.len(),
            term@ == lowercase_of(s@),
            shown@.len() == i,
            forall|j: int| 0 <= j < i ==> shown@[j] == member_shown(#[trigger] members@[j]@, s@),
            empty == (forall|j: int| 0 <= j < i ==> !#[trigger] shown@[j]),
        decreases members.len() - i,
    {
        let alias = to_lowercase(members[i].get_alias().as_str());
        let hit = str_contains(alias.as_str(), term.as_str());
        let ghost prev = shown@;
        shown.push(hit);
        assert(shown@ == prev.push(hit));
        if hit {
            empty = false;
        }
        proof {
            assert(shown@[i as int] == hit);
            if !empty {
                if hit {
                    assert(shown@[i as int]);
                } else {
                    let j = choose|j: int| 0 <= j < i && #[trigger] prev[j];
                    assert(shown@[j]);
                }
            } else {
                assert forall|j: int| 0 <= j < i + 1 implies !#[trigger] shown@[j] by {
                    if j < i {
                        assert(shown@[j] == prev[j]);
                    }
                }
            }
        }
        i = i + 1;
    }
    proof {
        assert forall|j: int|
            #![trigger members@[j]]
            0 <= j < members@.len() implies {
                &&& members@[j].alias is Some && members@[j].alias->Some_0@.len() > 0 ==> (shown@[j]
                    <==> lowercase_holds(members@[j].alias->Some_0@, s@))
                &&& !(members@[j].alias is Some && members@[j].alias->Some_0@.len() > 0) ==> (shown@[j]
                    <==> lowercase_holds(members@[j].uid@, s@))
            } by {
            lemma_member_search(members@[j]@, s@);
            assert(shown@[j] == member_shown(members@[j]@, s@));
        }
    }
    Some((shown, empty))
}

} // verus!
