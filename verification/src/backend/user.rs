//! What the user and account requests decide: the name shown for a
//! profile, the outcome of a phone token, user search results, and the
//! message shown when adding an email or phone number fails.

use crate::model::member::{avatar_from_url, Member, MemberView, User};
use crate::cache::CacheMap;
use std::convert::TryFrom;
use vstd::prelude::*;

verus! {

/// The account settings could not be loaded.
pub struct GetThreePIDError;

/// The kind of error a homeserver answers with, as far as the client
/// tells them apart.
pub enum ErrorKind {
    ThreepidInUse,
    ThreepidDenied,
    NotFound,
    Other,
}

/// The name shown for a user's profile: the display name when set and not
/// empty, else the user ID.
pub fn profile_name(displayname: Option<String>, user_id: &str) -> (r: String)
    ensures
        r@ == match displayname {
            Some(n) if n@.len() > 0 => n@,
            _ => user_id@,
        },
{
    match displayname {
        Some(n) => {
            if n.as_str().is_empty() {
                user_id.to_owned()
            } else {
                n
            }
        },
        None => user_id.to_owned(),
    }
}

/// The outcome of submitting a phone token: the session ID when the
/// server accepted the token, and the client secret.
pub fn phone_token_result(sid: String, client_secret: String, success: bool) -> (r: (
    Option<String>,
    String,
))
    ensures
        r.0.deep_view() == (if success {
            Some(sid@)
        } else {
            None
        }),
        r.1@ == client_secret@,
{
    (if success {
        Some(sid)
    } else {
        None
    }, client_secret)
}

/// The message shown when adding an email address fails, and whether the
/// error is also logged.
pub fn email_token_error_text(kind: Option<ErrorKind>) -> (r: (&'static str, bool))
    ensures
        match kind {
            Some(ErrorKind::ThreepidInUse) => r.0@ == "Email is already in use"@ && !r.1,
            Some(ErrorKind::ThreepidDenied) => r.0@ == "Please enter a valid email address."@
                && !r.1,
            _ => r.0@ == "Couldn’t add the email address."@ && r.1,
        },
{
    match kind {
        Some(ErrorKind::ThreepidInUse) => ("Email is already in use", false),
        Some(ErrorKind::ThreepidDenied) => ("Please enter a valid email address.", false),
        _ => ("Couldn’t add the email address.", true),
    }
}

/// The message shown when adding a phone number fails, and whether the
/// error is also logged.
pub fn phone_token_error_text(kind: Option<ErrorKind>) -> (r: (&'static str, bool))
    ensures
        match kind {
            Some(ErrorKind::ThreepidInUse) => r.0@ == "Phone number is already in use"@ && !r.1,
            Some(ErrorKind::ThreepidDenied) => r.0@
                == "Please enter your phone number in the format: \n + your country code and your phone number."@
                && !r.1,
            _ => r.0@ == "Couldn’t add the phone number."@ && r.1,
        },
{
    match kind {
        Some(ErrorKind::ThreepidInUse) => ("Phone number is already in use", false),
        Some(ErrorKind::ThreepidDenied) => (
            "Please enter your phone number in the format: \n + your country code and your phone number.",
            false,
        ),
        _ => ("Couldn’t add the phone number.", true),
    }
}

/// The member a search result gives, or the parse error of its avatar.
pub open spec fn member_of_user(u: User) -> Result<MemberView, url::ParseError> {
    match avatar_from_url(u.avatar_url.deep_view()) {
        Ok(a) => Ok(MemberView { uid: u.user_id@, alias: u.display_name.deep_view(), avatar: a }),
        Err(e) => Err(e),
    }
}

/// Whether all of the first `n` results give a member.
pub open spec fn all_ok(s: Seq<User>, n: int) -> bool {
    forall|i: int| 0 <= i < n ==> (#[trigger] member_of_user(s[i])) is Ok
}

/// The members that the results of a user search give, in order; the
/// first result whose avatar URL does not parse makes the search fail with
/// that error.
pub fn search_members(results: Vec<User>) -> (r: Result<Vec<Member>, url::ParseError>)
    ensures
        match r {
            Ok(v) => all_ok(results@, results@.len() as int) && v@.len() == results@.len() && forall|i: int|
                0 <= i < v@.len() ==> Ok::<MemberView, url::ParseError>(#[trigger] v@[i]@) == member_of_user(results@[i]),
            Err(e) => exists|i: int|
                0 <= i < results@.len() && all_ok(results@, i) && #[trigger] member_of_user(results@[i])
                    == Err::<MemberView, url::ParseError>(e),
        },
{
    let ghost input = results@;
    let mut out: Vec<Member> = Vec::new();
    let mut rest = results;
    let ghost mut k: int = 0;
    while rest.len() > 0
        invariant
            0 <= k <= input.len(),
            input == results@,
            rest@ == input.skip(k),
            rest@.len() == input.len() - k,
            out@.len() == k,
            all_ok(input, k),
            forall|i: int|
                0 <= i < k ==> Ok::<MemberView, url::ParseError>(#[trigger] out@[i]@) == member_of_user(input[i]),
        decreases rest.len(),
    {
        let u = rest.remove(0);
        proof {
            assert(u == input[k]);
            assert(rest@ =~= input.skip(k + 1));
        }
        match Member::try_from(u) {
            Ok(m) => {
                out.push(m);
                proof {
                    assert(out@[k]@ == m@);
                    k = k + 1;
                }
            },
            Err(e) => {
                assert(member_of_user(input[k]) == Err::<MemberView, url::ParseError>(e));
                assert(input == results@);
                assert(exists|i: int|
                    0 <= i < results@.len() && all_ok(results@, i) && #[trigger] member_of_user(results@[i])
                        == Err::<MemberView, url::ParseError>(e));
                return Err(e);
            },
        }
    }
    Ok(out)
}


/// What is known of a user, kept once fetched: the display name and the
/// path of the avatar file.
pub type UserInfo = (String, String);

/// The first step of looking up a user's information at the time `now`:
/// the cached entry for `uid`, if there is one that has not expired; with
/// none, the profile is to be fetched.
pub fn cached_user_info(cache: &CacheMap<UserInfo>, uid: &str, now: u64) -> (r: Option<UserInfo>)
    ensures
        match r {
            Some(info) => cache.map.map().dom().contains(uid@) && cache.map.map()[uid@].1 == info.deep_view()
                && !(now >= cache.map.map()[uid@].0 && now - cache.map.map()[uid@].0 >= cache.timeout),
            None => !cache.map.map().dom().contains(uid@) || (now >= cache.map.map()[uid@].0 && now
                - cache.map.map()[uid@].0 >= cache.timeout),
        },
{
    match cache.get(uid, now) {
        Some(info) => Some((info.0.clone(), info.1.clone())),
        None => None,
    }
}

/// The last step of looking up a user's information that was not cached:
/// the fetched answer is handed back as it came, and kept in the cache
/// under `uid`, stamped `now`, when it is not an error.
pub fn user_info_fetched<E>(cache: &mut CacheMap<UserInfo>, uid: String, fetched: Result<UserInfo, E>, now: u64) -> (r:
    Result<UserInfo, E>)
    ensures
        r == fetched,
        final(cache).timeout == old(cache).timeout,
        match fetched {
            Ok(info) => final(cache).map.map() == old(cache).map.map().insert(uid@, (now, info.deep_view())),
            Err(_) => final(cache).map.map() == old(cache).map.map(),
        },
{
    match fetched {
        Ok(info) => {
            let kept = (info.0.clone(), info.1.clone());
            cache.insert(uid, kept, now);
            Ok(info)
        },
        Err(e) => Err(e),
    }
}

} // verus!
