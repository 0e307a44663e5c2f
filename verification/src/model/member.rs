//! Room members and user search results.

use crate::outside::{parse_url, url_parse_result};
use std::convert::TryFrom;
use vstd::prelude::*;

verus! {

/// Where a member's avatar lives: a remote URL or a cached local file.
pub enum AvatarSource {
    Url(String),
    Path(String),
}

/// The mathematical value of an [`AvatarSource`].
pub enum AvatarSourceView {
    Url(Seq<char>),
    Path(Seq<char>),
}

impl View for AvatarSource {
    type V = AvatarSourceView;

    open spec fn view(&self) -> AvatarSourceView {
        match self {
            AvatarSource::Url(u) => AvatarSourceView::Url(u@),
            AvatarSource::Path(p) => AvatarSourceView::Path(p@),
        }
    }
}

impl DeepView for AvatarSource {
    type V = AvatarSourceView;

    open spec fn deep_view(&self) -> AvatarSourceView {
        self@
    }
}

/// A member of a room: a user ID, an optional display name and avatar.
pub struct Member {
    pub uid: String,
    pub alias: Option<String>,
    pub avatar: Option<AvatarSource>,
}

/// The mathematical value of a [`Member`].
pub struct MemberView {
    pub uid: Seq<char>,
    pub alias: Option<Seq<char>>,
    pub avatar: Option<AvatarSourceView>,
}

impl View for Member {
    type V = MemberView;

    open spec fn view(&self) -> MemberView {
        MemberView { uid: self.uid@, alias: self.alias.deep_view(), avatar: self.avatar.deep_view() }
    }
}

impl DeepView for Member {
    type V = MemberView;

    open spec fn deep_view(&self) -> MemberView {
        self@
    }
}

/// The name under which a member is shown: the display name when it is set
/// and not empty, else the user ID.
pub open spec fn alias_or_uid(m: MemberView) -> Seq<char> {
    match m.alias {
        Some(a) if a.len() > 0 => a,
        _ => m.uid,
    }
}

/// Copies an optional string.
pub fn clone_opt_string(s: &Option<String>) -> (r: Option<String>)
    ensures
        r.deep_view() == s.deep_view(),
{
    match s {
        Some(x) => Some(x.clone()),
        None => None,
    }
}

impl AvatarSource {
    /// A copy of this avatar source.
    pub fn duplicate(&self) -> (r: AvatarSource)
        ensures
            r@ == self@,
    {
        match self {
            AvatarSource::Url(u) => AvatarSource::Url(u.clone()),
            AvatarSource::Path(p) => AvatarSource::Path(p.clone()),
        }
    }
}

impl Member {
    /// A copy of this member.
    pub fn duplicate(&self) -> (r: Member)
        ensures
            r@ == self@,
    {
        Member {
            uid: self.uid.clone(),
            alias: clone_opt_string(&self.alias),
            avatar: match &self.avatar {
                Some(a) => Some(a.duplicate()),
                None => None,
            },
        }
    }

    /// The display name when set and not empty, otherwise the user ID.
    pub fn get_alias(&self) -> (r: String)
        ensures
            r@ == alias_or_uid(self@),
    {
        if let Some(alias) = &self.alias {
            if !alias.as_str().is_empty() {
                return alias.clone();
            }
        }
        self.uid.clone()
    }
}

impl PartialEq for Member {
    /// Two members are the same when their user IDs are.
    fn eq(&self, other: &Member) -> (r: bool) {
        self.uid == other.uid
    }
}

impl vstd::std_specs::cmp::PartialEqSpecImpl for Member {
    open spec fn obeys_eq_spec() -> bool {
        true
    }

    open spec fn eq_spec(&self, other: &Member) -> bool {
        self.uid@ == other.uid@
    }
}

/// A user directory search result (`search_users::User`).
pub struct User {
    pub user_id: String,
    pub display_name: Option<String>,
    pub avatar_url: Option<String>,
}

/// A joined member as the joined-members request lists it
/// (`joined_members::RoomMember`).
pub struct RoomMember {
    pub display_name: Option<String>,
    pub avatar_url: Option<String>,
}

/// The avatar of a member given an avatar URL field: none when the field
/// is missing or empty, else the parsed URL, or the parse error.
pub open spec fn avatar_from_url(
    avatar_url: Option<Seq<char>>,
) -> Result<Option<AvatarSourceView>, url::ParseError> {
    match avatar_url {
        Some(s) if s.len() > 0 => match url_parse_result(s) {
            Ok(u) => Ok(Some(AvatarSourceView::Url(u))),
            Err(e) => Err(e),
        },
        _ => Ok(None),
    }
}

/// Parses an avatar URL field: a missing or empty field gives no avatar.
pub fn avatar_from_url_field(avatar_url: Option<String>) -> (r: Result<
    Option<AvatarSource>,
    url::ParseError,
>)
    ensures
        match (r, avatar_from_url(avatar_url.deep_view())) {
            (Ok(a), Ok(b)) => a.deep_view() == b,
            (Err(e1), Err(e2)) => e1 == e2,
            _ => false,
        },
{
    match avatar_url {
        Some(s) => {
            if s.as_str().is_empty() {
                Ok(None)
            } else {
                match parse_url(s.as_str()) {
                    Ok(u) => Ok(Some(AvatarSource::Url(u))),
                    Err(e) => Err(e),
                }
            }
        },
        None => Ok(None),
    }
}

impl TryFrom<User> for Member {
    type Error = url::ParseError;

    /// A member from a user directory search result; fails when the
    /// avatar URL is set, not empty and does not parse.
    fn try_from(user: User) -> (r: Result<Member, url::ParseError>)
        ensures
            match (r, avatar_from_url(user.avatar_url.deep_view())) {
                (Ok(m), Ok(a)) => m@ == (MemberView {
                    uid: user.user_id@,
                    alias: user.display_name.deep_view(),
                    avatar: a,
                }),
                (Err(e1), Err(e2)) => e1 == e2,
                _ => false,
            },
    {
        let avatar = avatar_from_url_field(user.avatar_url)?;
        Ok(Member { uid: user.user_id, alias: user.display_name, avatar })
    }
}

impl vstd::std_specs::convert::TryFromSpecImpl<User> for Member {
    /// The conversion's contract is stated on `try_from` itself, over views.
    open spec fn obeys_try_from_spec() -> bool {
        false
    }

    open spec fn try_from_spec(v: User) -> Result<Member, url::ParseError> {
        vstd::pervasive::arbitrary()
    }
}

impl TryFrom<(String, RoomMember)> for Member {
    type Error = url::ParseError;

    /// A member from a joined-members entry and its user ID.
    fn try_from(input: (String, RoomMember)) -> (r: Result<Member, url::ParseError>)
        ensures
            match (r, avatar_from_url(input.1.avatar_url.deep_view())) {
                (Ok(m), Ok(a)) => m@ == (MemberView {
                    uid: input.0@,
                    alias: input.1.display_name.deep_view(),
                    avatar: a,
                }),
                (Err(e1), Err(e2)) => e1 == e2,
                _ => false,
            },
    {
        let (uid, roommember) = input;
        let avatar = avatar_from_url_field(roommember.avatar_url)?;
        Ok(Member { uid, alias: roommember.display_name, avatar })
    }
}

impl vstd::std_specs::convert::TryFromSpecImpl<(String, RoomMember)> for Member {
    /// The conversion's contract is stated on `try_from` itself, over views.
    open spec fn obeys_try_from_spec() -> bool {
        false
    }

    open spec fn try_from_spec(v: (String, RoomMember)) -> Result<Member, url::ParseError> {
        vstd::pervasive::arbitrary()
    }
}

} // verus!
