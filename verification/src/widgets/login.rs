//! The login action: the homeserver the user typed, and the homeserver and
//! identity server a `.well-known` answer points to.

use crate::outside::{
    parse_server_name, parse_url, server_name_valid, url_components, url_components_of,
    url_parse_result,
};
use crate::text::{chars_of, starts_with, str_starts_with, trim, trim_seq};
use vstd::prelude::*;

verus! {

/// Why a login cannot start.
pub enum LoginError {
    /// The user name or the password is empty.
    MissingCredentials,
    /// The homeserver does not parse as a URL.
    MalformedUrl,
}

/// The homeserver URL as the login reads the text typed for it: without
/// surrounding whitespace, with `https://` before it unless it starts with
/// `http://` or `https://`, and ending with `/`.
pub open spec fn homeserver_text(s: Seq<char>) -> Seq<char> {
    let t = trim_seq(s);
    let u = if starts_with(t, "http://"@) || starts_with(t, "https://"@) {
        t
    } else {
        "https://"@ + t
    };
    if u.len() > 0 && u.last() == '/' {
        u
    } else {
        u.push('/')
    }
}

/// The homeserver URL as the login reads the text typed for it.
pub fn homeserver_url_text(server: &str) -> (r: String)
    ensures
        r@ == homeserver_text(server@),
{
    let t = trim(server);
    proof {
        reveal_strlit("http://");
        reveal_strlit("https://");
    }
    let mut u = if str_starts_with(t.as_str(), "http://") || str_starts_with(t.as_str(), "https://") {
        t
    } else {
        let mut p = "https://".to_owned();
        p.append(t.as_str());
        p
    };
    let cs = chars_of(u.as_str());
    if !(cs.len() > 0 && cs[cs.len() - 1] == '/') {
        crate::text::push_char(&mut u, '/');
    }
    u
}

/// The homeserver a login goes to, given the user name, the password and
/// the text typed for the server: the serialization of the URL the text
/// reads as. A login needs a user name and a password.
pub fn login_homeserver(username: &str, password: &str, server: &str) -> (r: Result<String, LoginError>)
    ensures
        (username@.len() == 0 || password@.len() == 0) <==> r matches Err(LoginError::MissingCredentials),
        !(username@.len() == 0 || password@.len() == 0) ==> match url_parse_result(homeserver_text(server@)) {
            Ok(u) => r matches Ok(s) && s@ == u,
            Err(_) => r matches Err(LoginError::MalformedUrl),
        },
{
    if username.is_empty() || password.is_empty() {
        return Err(LoginError::MissingCredentials);
    }
    let txt = homeserver_url_text(server);
    match parse_url(txt.as_str()) {
        Ok(u) => Ok(u),
        Err(_) => Err(LoginError::MalformedUrl),
    }
}

/// The homeserver and identity server a `.well-known` answer points to,
/// given its homeserver base URL and its identity server base URL, if
/// any: the homeserver URL's serialization, and the host of the identity
/// server URL (`vector.im` when the answer names none, or its URL has no
/// host). When a URL does not parse, or the host is not a server name, the
/// answer is not used: the login goes to `fallback` with `vector.im`.
pub open spec fn well_known_result(hs: Seq<char>, ids: Option<Seq<char>>, fallback: Seq<char>) -> (
    Seq<char>,
    Seq<char>,
) {
    match url_parse_result(hs) {
        Err(_) => (fallback, "vector.im"@),
        Ok(u) => match ids {
            None => (u, "vector.im"@),
            Some(b) => match url_components_of(b) {
                None => (fallback, "vector.im"@),
                Some((_, host, _)) => match host {
                    None => (u, "vector.im"@),
                    Some(h) => if server_name_valid(h) {
                        (u, h)
                    } else {
                        (fallback, "vector.im"@)
                    },
                },
            },
        },
    }
}

/// The homeserver and identity server a `.well-known` answer points to.
pub fn well_known_servers(hs_base: &str, ids_base: Option<&str>, fallback: String) -> (r: (String, String))
    ensures
        (r.0@, r.1@) == well_known_result(hs_base@, ids_base.deep_view(), fallback@),
{
    let hs = match parse_url(hs_base) {
        Ok(u) => u,
        Err(_) => {
            return (fallback, "vector.im".to_owned());
        },
    };
    match ids_base {
        None => (hs, "vector.im".to_owned()),
        Some(b) => match url_components(b) {
            None => (fallback, "vector.im".to_owned()),
            Some((_, host, _)) => match host {
                None => (hs, "vector.im".to_owned()),
                Some(h) => match parse_server_name(h.as_str()) {
                    Ok(n) => (hs, n),
                    Err(_) => (fallback, "vector.im".to_owned()),
                },
            },
        },
    }
}

/// The homeserver and identity server of a login, given the `.well-known`
/// answer (none when the request failed) and the homeserver the user
/// typed: those of the answer, else the typed one with `vector.im`.
pub fn login_servers(well_known: Option<(String, Option<String>)>, fallback: String) -> (r: (String, String))
    ensures
        (r.0@, r.1@) == match well_known {
            Some((hs, ids)) => well_known_result(hs@, ids.deep_view(), fallback@),
            None => (fallback@, "vector.im"@),
        },
{
    match well_known {
        Some((hs, ids)) => {
            let ids_ref: Option<&str> = match &ids {
                Some(s) => Some(s.as_str()),
                None => None,
            };
            well_known_servers(hs.as_str(), ids_ref, fallback)
        },
        None => (fallback, "vector.im".to_owned()),
    }
}

} // verus!
