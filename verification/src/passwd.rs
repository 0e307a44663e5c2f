//! What the client reads from and writes to the secret service: which
//! stored items make up a secret, and the token and password that the
//! stored items give.

use crate::outside::{
    parse_server_name, parse_url, parse_user_id, server_name_error, server_name_valid,
    url_components, url_components_of, url_parse_result, user_id_error, user_id_valid,
};
use vstd::prelude::*;

verus! {

/// Why a secret could not be read.
pub enum SecretError {
    SecretServiceError,
    UrlParseError(url::ParseError),
    IdParseError(ruma_identifiers::Error),
}

/// Whether an item's label (none when it has none, read as empty) is `key`.
pub open spec fn label_is(label: Option<Seq<char>>, key: Seq<char>) -> bool {
    match label {
        Some(l) => l == key,
        None => key.len() == 0,
    }
}

/// Whether an item's label is `key`.
fn has_label(label: &Option<String>, key: &str) -> (r: bool)
    ensures
        r == label_is(label.deep_view(), key@),
{
    match label {
        Some(l) => crate::text::str_eq(l.as_str(), key),
        None => key.is_empty(),
    }
}

/// The items that deleting the secret stored under `key` removes, given
/// the labels of all stored items: the positions of those labelled `key`,
/// in order. Each is then unlocked and deleted.
pub fn delete_secret(labels: &Vec<Option<String>>, key: &str) -> (r: Vec<usize>)
    ensures
        forall|i: int| 0 <= i < r@.len() ==> (#[trigger] r@[i]) < labels@.len(),
        forall|i: int, j: int| 0 <= i < j < r@.len() ==> #[trigger] r@[i] < #[trigger] r@[j],
        forall|p: int|
            0 <= p < labels@.len() ==> (label_is(labels@[p].deep_view(), key@) <==> r@.contains(
                p as usize,
            )),
{
    let mut r: Vec<usize> = Vec::new();
    let mut i: usize = 0;
    while i < labels.len()
        invariant
            i <= labels.len(),
            forall|a: int| 0 <= a < r@.len() ==> (#[trigger] r@[a]) < i,
            forall|a: int, b: int| 0 <= a < b < r@.len() ==> #[trigger] r@[a] < #[trigger] r@[b],
            forall|p: int|
                0 <= p < i ==> (label_is(labels@[p].deep_view(), key@) <==> r@.contains(p as usize)),
        decreases labels.len() - i,
    {
        let ghost prev = r@;
        if has_label(&labels[i], key) {
            r.push(i);
            proof {
                assert(r@ == prev.push(i));
                assert forall|p: int|
                    0 <= p < i + 1 implies (label_is(labels@[p].deep_view(), key@) <==> r@.contains(
                    p as usize,
                )) by {
                    if p < i {
                        if r@.contains(p as usize) {
                            let a = choose|a: int| 0 <= a < r@.len() && r@[a] == p as usize;
                            if a < prev.len() {
                                assert(prev.contains(p as usize));
                            }
                        }
                        if prev.contains(p as usize) {
                            let a = choose|a: int| 0 <= a < prev.len() && prev[a] == p as usize;
                            assert(r@[a] == p as usize);
                        }
                    } else {
                        assert(r@[prev.len() as int] == i);
                    }
                }
            }
        } else {
            proof {
                assert forall|p: int|
                    0 <= p < i + 1 implies (label_is(labels@[p].deep_view(), key@) <==> r@.contains(
                    p as usize,
                )) by {
                    if p == i && r@.contains(p as usize) {
                        let a = choose|a: int| 0 <= a < r@.len() && r@[a] == p as usize;
                        assert(r@[a] < i);
                    }
                }
            }
        }
        i = i + 1;
    }
    r
}

/// The position of the first item labelled `key`.
pub fn find_item(labels: &Vec<Option<String>>, key: &str) -> (r: Option<usize>)
    ensures
        match r {
            Some(i) => i < labels@.len() && label_is(labels@[i as int].deep_view(), key@) && forall|j: int|
                0 <= j < i ==> !label_is(#[trigger] labels@[j].deep_view(), key@),
            None => forall|j: int|
                0 <= j < labels@.len() ==> !label_is(#[trigger] labels@[j].deep_view(), key@),
        },
{
    let mut i: usize = 0;
    while i < labels.len()
        invariant
            i <= labels.len(),
            forall|j: int| 0 <= j < i ==> !label_is(#[trigger] labels@[j].deep_view(), key@),
        decreases labels.len() - i,
    {
        if has_label(&labels[i], key) {
            return Some(i);
        }
        i = i + 1;
    }
    None
}

/// The value of the first attribute with the given name.
pub open spec fn attr_value(attrs: Seq<(String, String)>, name: Seq<char>) -> Option<Seq<char>>
    decreases attrs.len(),
{
    if attrs.len() == 0 {
        None
    } else if attrs[0].0@ == name {
        Some(attrs[0].1@)
    } else {
        attr_value(attrs.drop_first(), name)
    }
}

/// The value of the first attribute with the given name.
pub fn find_attr(attrs: &Vec<(String, String)>, name: &str) -> (r: Option<String>)
    ensures
        r.deep_view() == attr_value(attrs@, name@),
{
    let mut i: usize = 0;
    assert(attrs@.skip(0) =~= attrs@);
    while i < attrs.len()
        invariant
            i <= attrs.len(),
            attr_value(attrs@, name@) == attr_value(attrs@.skip(i as int), name@),
        decreases attrs.len() - i,
    {
        proof {
            assert(attrs@.skip(i as int)[0] == attrs@[i as int]);
            assert(attrs@.skip(i as int).drop_first() =~= attrs@.skip(i + 1 as int));
        }
        if crate::text::str_eq(attrs[i].0.as_str(), name) {
            return Some(attrs[i].1.clone());
        }
        i = i + 1;
    }
    None
}

/// The access token and user ID that the stored token item gives, from its
/// secret and attributes: the token unless it is empty, and the user ID of
/// its `uid` attribute, which must be there and valid.
pub open spec fn token_of(secret: Seq<char>, attrs: Seq<(String, String)>) -> Result<
    (Option<Seq<char>>, Seq<char>),
    SecretError,
> {
    match attr_value(attrs, "uid"@) {
        None => Err(SecretError::SecretServiceError),
        Some(uid) => if user_id_valid(uid) {
            Ok((
                if secret.len() > 0 {
                    Some(secret)
                } else {
                    None
                },
                uid,
            ))
        } else {
            Err(SecretError::IdParseError(user_id_error(uid)))
        },
    }
}

/// The access token and user ID that the stored token item gives.
pub fn token_from_item(secret: String, attrs: &Vec<(String, String)>) -> (r: Result<
    (Option<String>, String),
    SecretError,
>)
    ensures
        match (r, token_of(secret@, attrs@)) {
            (Ok((t, u)), Ok((t2, u2))) => t.deep_view() == t2 && u@ == u2,
            (Err(SecretError::SecretServiceError), Err(SecretError::SecretServiceError)) => true,
            (Err(SecretError::IdParseError(e)), Err(SecretError::IdParseError(e2))) => e == e2,
            _ => false,
        },
{
    let token = if secret.as_str().is_empty() {
        None
    } else {
        Some(secret)
    };
    let uid = match find_attr(attrs, "uid") {
        Some(u) => u,
        None => {
            return Err(SecretError::SecretServiceError);
        },
    };
    match parse_user_id(uid.as_str()) {
        Ok(u) => Ok((token, u)),
        Err(e) => Err(SecretError::IdParseError(e)),
    }
}

/// The identity server of a stored password: the host of the `identity`
/// attribute read as a URL (empty when it has none), when that is a valid
/// server name; else the attribute itself as a server name; `vector.im`
/// when there is no such attribute.
pub open spec fn identity_of(identity: Option<Seq<char>>) -> Result<Seq<char>, SecretError> {
    match identity {
        None => Ok("vector.im"@),
        Some(a) => {
            let host = match url_components_of(a) {
                Some((_, h, _)) => Some(
                    match h {
                        Some(x) => x,
                        None => Seq::empty(),
                    },
                ),
                None => None,
            };
            if host is Some && server_name_valid(host->Some_0) {
                Ok(host->Some_0)
            } else if server_name_valid(a) {
                Ok(a)
            } else {
                Err(SecretError::IdParseError(server_name_error(a)))
            }
        },
    }
}

/// The identity server of a stored password, from its `identity`
/// attribute.
pub fn identity_server(identity: Option<String>) -> (r: Result<String, SecretError>)
    ensures
        match (r, identity_of(identity.deep_view())) {
            (Ok(s), Ok(s2)) => s@ == s2,
            (Err(SecretError::IdParseError(e)), Err(SecretError::IdParseError(e2))) => e == e2,
            _ => false,
        },
{
    match identity {
        None => Ok("vector.im".to_owned()),
        Some(a) => {
            let host = match url_components(a.as_str()) {
                Some((_, h, _)) => Some(
                    match h {
                        Some(x) => x,
                        None => String::new(),
                    },
                ),
                None => None,
            };
            let from_host = match &host {
                Some(h) => match parse_server_name(h.as_str()) {
                    Ok(n) => Some(n),
                    Err(_) => None,
                },
                None => None,
            };
            match from_host {
                Some(n) => Ok(n),
                None => match parse_server_name(a.as_str()) {
                    Ok(n) => Ok(n),
                    Err(e) => Err(SecretError::IdParseError(e)),
                },
            }
        },
    }
}

/// The user name, password, homeserver URL (serialized) and identity
/// server that a stored password item gives, from its secret and
/// attributes: `username` and `server` must be there, the server must
/// parse as a URL.
pub open spec fn pass_of(secret: Seq<char>, attrs: Seq<(String, String)>) -> Result<
    (Seq<char>, Seq<char>, Seq<char>, Seq<char>),
    SecretError,
> {
    match (attr_value(attrs, "username"@), attr_value(attrs, "server"@)) {
        (Some(user), Some(server)) => match url_parse_result(server) {
            Ok(url) => match identity_of(attr_value(attrs, "identity"@)) {
                Ok(id) => Ok((user, secret, url, id)),
                Err(e) => Err(e),
            },
            Err(e) => Err(SecretError::UrlParseError(e)),
        },
        _ => Err(SecretError::SecretServiceError),
    }
}

/// The user name, password, homeserver URL and identity server that a
/// stored password item gives.
pub fn pass_from_item(secret: String, attrs: &Vec<(String, String)>) -> (r: Result<
    (String, String, String, String),
    SecretError,
>)
    ensures
        match (r, pass_of(secret@, attrs@)) {
            (Ok((a, b, c, d)), Ok((a2, b2, c2, d2))) => a@ == a2 && b@ == b2 && c@ == c2 && d@ == d2,
            (Err(SecretError::SecretServiceError), Err(SecretError::SecretServiceError)) => true,
            (Err(SecretError::UrlParseError(e)), Err(SecretError::UrlParseError(e2))) => e == e2,
            (Err(SecretError::IdParseError(e)), Err(SecretError::IdParseError(e2))) => e == e2,
            _ => false,
        },
{
    let username = match find_attr(attrs, "username") {
        Some(u) => u,
        None => {
            return Err(SecretError::SecretServiceError);
        },
    };
    let server = match find_attr(attrs, "server") {
        Some(s) => s,
        None => {
            return Err(SecretError::SecretServiceError);
        },
    };
    let url = match parse_url(server.as_str()) {
        Ok(u) => u,
        Err(e) => {
            return Err(SecretError::UrlParseError(e));
        },
    };
    let identity = match identity_server(find_attr(attrs, "identity")) {
        Ok(i) => i,
        Err(e) => {
            return Err(e);
        },
    };
    Ok((username, secret, url, identity))
}

/// What migrating a password stored under the old label gives, from its
/// secret and attributes: the user name, password and homeserver URL to
/// store again under the new label, with the default identity server.
pub open spec fn old_pass_of(secret: Seq<char>, attrs: Seq<(String, String)>) -> Result<
    (Seq<char>, Seq<char>, Seq<char>),
    SecretError,
> {
    match (attr_value(attrs, "username"@), attr_value(attrs, "server"@)) {
        (Some(user), Some(server)) => match url_parse_result(server) {
            Ok(url) => Ok((user, secret, url)),
            Err(e) => Err(SecretError::UrlParseError(e)),
        },
        _ => Err(SecretError::SecretServiceError),
    }
}

/// What migrating a password stored under the old label gives.
pub fn migrate_old_item(secret: String, attrs: &Vec<(String, String)>) -> (r: Result<
    (String, String, String),
    SecretError,
>)
    ensures
        match (r, old_pass_of(secret@, attrs@)) {
            (Ok((a, b, c)), Ok((a2, b2, c2))) => a@ == a2 && b@ == b2 && c@ == c2,
            (Err(SecretError::SecretServiceError), Err(SecretError::SecretServiceError)) => true,
            (Err(SecretError::UrlParseError(e)), Err(SecretError::UrlParseError(e2))) => e == e2,
            _ => false,
        },
{
    let username = match find_attr(attrs, "username") {
        Some(u) => u,
        None => {
            return Err(SecretError::SecretServiceError);
        },
    };
    let server = match find_attr(attrs, "server") {
        Some(s) => s,
        None => {
            return Err(SecretError::SecretServiceError);
        },
    };
    match parse_url(server.as_str()) {
        Ok(u) => Ok((username, secret, u)),
        Err(e) => Err(SecretError::UrlParseError(e)),
    }
}

/// An item to store in the secret service: its label, its attributes and
/// its secret.
pub struct SecretItem {
    pub label: String,
    pub attributes: Vec<(String, String)>,
    pub secret: String,
}

/// A named attribute.
fn attribute(name: &str, value: &str) -> (a: (String, String))
    ensures
        a.0@ == name@,
        a.1@ == value@,
{
    (name.to_owned(), value.to_owned())
}

/// The item that stores the access token of a user: labelled
/// `fractal-token`, with the user ID as its `uid` attribute and the token
/// as its secret.
pub fn token_item(uid: &str, token: &str) -> (item: SecretItem)
    ensures
        item.label@ == "fractal-token"@,
        item.secret@ == token@,
        item.attributes@.len() == 1,
        item.attributes@[0].0@ == "uid"@,
        item.attributes@[0].1@ == uid@,
{
    let mut attributes: Vec<(String, String)> = Vec::new();
    attributes.push(attribute("uid", uid));
    SecretItem { label: "fractal-token".to_owned(), attributes, secret: token.to_owned() }
}

/// The item that stores the password of a user: labelled `fractal`, with
/// the user name, the homeserver URL and the identity server as its
/// `username`, `server` and `identity` attributes and the password as its
/// secret.
pub fn pass_item(username: &str, password: &str, server: &str, identity: &str) -> (item: SecretItem)
    ensures
        item.label@ == "fractal"@,
        item.secret@ == password@,
        item.attributes@.len() == 3,
        item.attributes@[0].0@ == "username"@,
        item.attributes@[0].1@ == username@,
        item.attributes@[1].0@ == "server"@,
        item.attributes@[1].1@ == server@,
        item.attributes@[2].0@ == "identity"@,
        item.attributes@[2].1@ == identity@,
{
    let mut attributes: Vec<(String, String)> = Vec::new();
    attributes.push(attribute("username", username));
    attributes.push(attribute("server", server));
    attributes.push(attribute("identity", identity));
    SecretItem { label: "fractal".to_owned(), attributes, secret: password.to_owned() }
}

/// Reading a stored token item gives back what was stored: the token
/// (none when it is empty) and the user ID, when that is a valid user ID.
pub proof fn lemma_token_round_trip(item: SecretItem, uid: Seq<char>, token: Seq<char>)
    requires
        item.secret@ == token,
        item.attributes@.len() == 1,
        item.attributes@[0].0@ == "uid"@,
        item.attributes@[0].1@ == uid,
        user_id_valid(uid),
    ensures
        token_of(item.secret@, item.attributes@) == Ok::<(Option<Seq<char>>, Seq<char>), SecretError>(
            (
                if token.len() > 0 {
                    Some(token)
                } else {
                    None
                },
                uid,
            ),
        ),
{
    assert(attr_value(item.attributes@, "uid"@) == Some(uid));
}

/// Reading a stored password item gives back what was stored, when the
/// homeserver is the serialization of a URL (as `Url` writes one) and the
/// identity server is a valid server name that reading it as a URL does
/// not turn into another one.
pub proof fn lemma_pass_round_trip(
    item: SecretItem,
    username: Seq<char>,
    password: Seq<char>,
    server: Seq<char>,
    identity: Seq<char>,
)
    requires
        item.secret@ == password,
        item.attributes@.len() == 3,
        item.attributes@[0].0@ == "username"@,
        item.attributes@[0].1@ == username,
        item.attributes@[1].0@ == "server"@,
        item.attributes@[1].1@ == server,
        item.attributes@[2].0@ == "identity"@,
        item.attributes@[2].1@ == identity,
        url_parse_result(server) == Ok::<Seq<char>, url::ParseError>(server),
        server_name_valid(identity),
        match url_components_of(identity) {
            Some((_, Some(h), _)) => h == identity || !server_name_valid(h),
            Some((_, None, _)) => !server_name_valid(Seq::empty()),
            None => true,
        },
    ensures
        pass_of(item.secret@, item.attributes@) == Ok::<
            (Seq<char>, Seq<char>, Seq<char>, Seq<char>),
            SecretError,
        >((username, password, server, identity)),
{
    reveal_strlit("username");
    reveal_strlit("server");
    reveal_strlit("identity");
    let a = item.attributes@;
    assert("username"@.len() == 8 && "server"@.len() == 6 && "identity"@.len() == 8);
    assert("username"@ != "identity"@) by {
        assert("username"@[0] != "identity"@[0]);
    }
    assert(a.drop_first()[0] == a[1]);
    assert(a.drop_first().drop_first()[0] == a[2]);
    assert(attr_value(a, "username"@) == Some(username));
    assert(attr_value(a.drop_first(), "server"@) == Some(server));
    assert(attr_value(a, "server"@) == Some(server));
    assert(attr_value(a.drop_first().drop_first(), "identity"@) == Some(identity));
    assert(attr_value(a.drop_first(), "identity"@) == Some(identity));
    assert(attr_value(a, "identity"@) == Some(identity));
}

} // verus!
