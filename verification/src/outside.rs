//! Trusted items: the calls into outside crates and into the parts of std
//! that vstd does not specify. Each states only what the called function's
//! source or documentation shows.

use chrono::TimeZone;
use std::convert::TryFrom;
use vstd::prelude::*;

verus! {

/// `url::ParseError`, the error of `url::Url::parse`.
#[verifier::external_type_specification]
#[verifier::external_body]
pub struct ExUrlParseError(url::ParseError);

/// What `url::Url::parse` returns for a given input: the serialization of
/// the parsed URL, or the parse error. Parsing depends on the input alone.
pub uninterp spec fn url_parse_result(input: Seq<char>) -> Result<Seq<char>, url::ParseError>;

/// Calls `url::Url::parse` and hands back the parsed URL's serialization
/// (`String::from(Url)`). The contract only ties the result to the named
/// result of the parse; it states nothing of URL syntax.
#[verifier::external_body]
pub(crate) fn parse_url(input: &str) -> (r: Result<String, url::ParseError>)
    ensures
        match r {
            Ok(u) => url_parse_result(input@) == Ok::<Seq<char>, url::ParseError>(u@),
            Err(e) => url_parse_result(input@) == Err::<Seq<char>, url::ParseError>(e),
        },
{
    url::Url::parse(input).map(String::from)
}

/// What `md5::compute` gives for the UTF-8 bytes of a string, written with
/// `{:x}` (lowercase hex). The digest depends on the input alone.
pub uninterp spec fn md5_hex_of(input: Seq<char>) -> Seq<char>;

/// Whether a text is a 16-byte digest written in lowercase hex: 32
/// characters, each a digit or a letter from `a` to `f`.
pub open spec fn is_lower_hex_digest(s: Seq<char>) -> bool {
    s.len() == 32 && forall|i: int| 0 <= i < 32 ==> ('0' <= #[trigger] s[i] <= '9' || 'a' <= s[i] <= 'f')
}

/// Calls `md5::compute` on the string's bytes and formats the digest as
/// lowercase hex (`{:x}`, which writes each of the digest's 16 bytes as
/// two lowercase hex digits). The contract ties the result to the named
/// digest and states that shape.
#[verifier::external_body]
pub(crate) fn md5_hex(input: &str) -> (r: String)
    ensures
        r@ == md5_hex_of(input@),
        is_lower_hex_digest(r@),
{
    format!("{:x}", md5::compute(input.as_bytes()))
}

/// Calls `chrono::Local::now` and gives the time in milliseconds since the
/// Unix epoch, with the nanoseconds within the second
/// (`timestamp_subsec_nanos`). Nothing is stated of the result: it is the
/// clock's reading.
#[verifier::external_body]
pub(crate) fn now_time() -> (r: (i64, u32)) {
    let t = chrono::Local::now();
    (t.timestamp_millis(), t.timestamp_subsec_nanos())
}

/// The text of the instant `secs` seconds and `nanos` nanoseconds after
/// the Unix epoch (`TimeZone::timestamp_opt` on `Local`), written by
/// chrono's `Display` for `DateTime<Local>`; empty when chrono cannot
/// represent the instant. Nothing is stated of the text: it depends on the
/// machine's time zone.
#[verifier::external_body]
pub(crate) fn local_date_text(secs: i64, nanos: u32) -> (r: String) {
    chrono::Local.timestamp_opt(secs, nanos).single().map(|d| d.to_string()).unwrap_or_default()
}

/// `ruma_identifiers::Error`, the error of identifier validation.
#[verifier::external_type_specification]
#[verifier::external_body]
pub struct ExIdError(ruma_identifiers::Error);

/// Whether `ruma_identifiers::UserId::try_from` accepts a string. The
/// check depends on the string alone.
pub uninterp spec fn user_id_valid(s: Seq<char>) -> bool;

/// The error `ruma_identifiers::UserId::try_from` gives for a string it
/// refuses.
pub uninterp spec fn user_id_error(s: Seq<char>) -> ruma_identifiers::Error;

/// Calls `ruma_identifiers::UserId::try_from`. A user ID so made keeps the
/// string as it is (and compares equal to another exactly when the strings
/// are equal), so the string itself is handed back. Beyond the names, the
/// contract states that an accepted string starts with `@`, the sigil the
/// validation requires.
#[verifier::external_body]
pub(crate) fn parse_user_id(s: &str) -> (r: Result<String, ruma_identifiers::Error>)
    ensures
        match r {
            Ok(u) => user_id_valid(s@) && u@ == s@ && s@.len() > 0 && s@[0] == '@',
            Err(e) => !user_id_valid(s@) && e == user_id_error(s@),
        },
{
    ruma_identifiers::UserId::try_from(s).map(|u| u.as_str().to_string())
}

/// Whether `Box<ruma_identifiers::ServerName>::try_from` accepts a string.
/// The check depends on the string alone.
pub uninterp spec fn server_name_valid(s: Seq<char>) -> bool;

/// The error `Box<ServerName>::try_from` gives for a string it refuses.
pub uninterp spec fn server_name_error(s: Seq<char>) -> ruma_identifiers::Error;

/// Calls `Box<ruma_identifiers::ServerName>::try_from`; a server name so
/// made keeps the string as it is, so the string itself is handed back.
#[verifier::external_body]
pub(crate) fn parse_server_name(s: &str) -> (r: Result<String, ruma_identifiers::Error>)
    ensures
        match r {
            Ok(n) => server_name_valid(s@) && n@ == s@,
            Err(e) => !server_name_valid(s@) && e == server_name_error(s@),
        },
{
    <Box<ruma_identifiers::ServerName>>::try_from(s).map(|n| n.as_str().to_string())
}

/// The scheme, host and first path segment of a URL as `url::Url` gives
/// them (`scheme()`, `host_str()`, the first of `path_segments()`), or
/// nothing when the text does not parse. They depend on the text alone.
pub uninterp spec fn url_components_of(input: Seq<char>) -> Option<
    (Seq<char>, Option<Seq<char>>, Option<Seq<char>>),
>;

/// Calls `url::Url::parse`, then `scheme`, `host_str` and
/// `path_segments` on the result. The contract ties the result to the
/// named components only.
#[verifier::external_body]
pub(crate) fn url_components(input: &str) -> (r: Option<(String, Option<String>, Option<String>)>)
    ensures
        match (r, url_components_of(input@)) {
            (Some((a, b, c)), Some((x, y, z))) => a@ == x && b.deep_view() == y && c.deep_view() == z,
            (None, None) => true,
            _ => false,
        },
{
    url::Url::parse(input).ok().map(
        |u| (
            u.scheme().to_string(),
            u.host_str().map(String::from),
            u.path_segments().and_then(|mut ps| ps.next()).map(String::from),
        ),
    )
}

/// What the named capture group `group` of the first match of the regular
/// expression `pattern` in `haystack` holds, as `regex` finds it: none when
/// the pattern does not compile, nothing matches, or the group took no part
/// in the match. It depends on its arguments alone.
pub uninterp spec fn regex_capture_result(
    pattern: Seq<char>,
    haystack: Seq<char>,
    group: Seq<char>,
) -> Option<Seq<char>>;

/// Calls `regex::Regex::new(pattern)`, then `captures(haystack)` and
/// `name(group)` on the result. The contract ties the result to the named
/// capture only.
#[verifier::external_body]
pub(crate) fn regex_capture(pattern: &str, haystack: &str, group: &str) -> (r: Option<String>)
    ensures
        r.deep_view() == regex_capture_result(pattern@, haystack@, group@),
{
    regex::Regex::new(pattern).ok().and_then(
        |re| re.captures(haystack).and_then(|c| c.name(group).map(|m| m.as_str().to_string())),
    )
}

/// What `str::to_lowercase` gives for a string: the lowercase mapping of
/// each character, as Unicode defines it. It depends on the string alone.
pub uninterp spec fn lowercase_of(s: Seq<char>) -> Seq<char>;

/// Calls `str::to_lowercase` (std). The contract ties the result to the
/// named lowercase mapping only.
#[verifier::external_body]
pub(crate) fn to_lowercase(s: &str) -> (r: String)
    ensures
        r@ == lowercase_of(s@),
{
    s.to_lowercase()
}

/// A character as `html2pango::html_escape` writes it: `&`, `<`, `>` and
/// `"` as their entities, any other as it is.
pub open spec fn escape_char(c: char) -> Seq<char> {
    if c == '&' {
        "&amp;"@
    } else if c == '<' {
        "&lt;"@
    } else if c == '>' {
        "&gt;"@
    } else if c == '"' {
        "&quot;"@
    } else {
        seq![c]
    }
}

/// A text with each character escaped as `html2pango::html_escape` does.
pub open spec fn escaped(s: Seq<char>) -> Seq<char>
    decreases s.len(),
{
    if s.len() == 0 {
        Seq::empty()
    } else {
        escaped(s.drop_last()) + escape_char(s.last())
    }
}

/// Calls `html2pango::html_escape`, which replaces `&`, `<`, `>` and `"`
/// by their entities in turn; as `&` goes first, this escapes each
/// character on its own, which is what the contract states.
#[verifier::external_body]
pub(crate) fn html_escape(s: &str) -> (r: String)
    ensures
        r@ == escaped(s@),
{
    html2pango::html_escape(s)
}

/// What `html2pango::markup_links` gives for a text: the links that
/// `linkify` finds in it written as Pango links. It depends on the text
/// alone.
pub uninterp spec fn markup_links_of(s: Seq<char>) -> Seq<char>;

/// Calls `html2pango::markup_links`. The contract ties the result to the
/// named result only.
#[verifier::external_body]
pub(crate) fn markup_links(s: &str) -> (r: String)
    ensures
        r@ == markup_links_of(s@),
{
    html2pango::markup_links(s)
}


/// What `serde_json` gives for the member `key` of the JSON object in
/// `text`: the member's value written back as JSON text; none when the
/// text is not JSON, not an object, or has no such member. It depends on
/// its arguments alone.
pub uninterp spec fn json_member_of(text: Seq<char>, key: Seq<char>) -> Option<Seq<char>>;

/// Parses `text` as a `serde_json::Value`, takes its member `key`
/// (`Value::get`) and writes that back as text (`Display`). The contract
/// ties the result to the named result only.
#[verifier::external_body]
pub(crate) fn json_member(text: &str, key: &str) -> (r: Option<String>)
    ensures
        r.deep_view() == json_member_of(text@, key@),
{
    serde_json::from_str::<serde_json::Value>(text).ok().and_then(|v| v.get(key).map(|m| m.to_string()))
}

/// What `serde_json` gives for a JSON string in `text`: the string's
/// characters; none when the text is not JSON or not a string. It depends
/// on the text alone.
pub uninterp spec fn json_str_of(text: Seq<char>) -> Option<Seq<char>>;

/// Parses `text` as a `serde_json::Value` and takes it as a string
/// (`Value::as_str`). The contract ties the result to the named result
/// only.
#[verifier::external_body]
pub(crate) fn json_str(text: &str) -> (r: Option<String>)
    ensures
        r.deep_view() == json_str_of(text@),
{
    serde_json::from_str::<serde_json::Value>(text).ok().and_then(|v| v.as_str().map(String::from))
}

/// What `serde_json` gives for the members of the JSON object in `text`:
/// each key with its value written back as JSON text, in the order of the
/// parsed object; none when the text is not JSON or not an object. It
/// depends on the text alone.
pub uninterp spec fn json_members_of(text: Seq<char>) -> Option<Seq<(Seq<char>, Seq<char>)>>;

/// Parses `text` as a `serde_json::Value`, takes it as an object
/// (`Value::as_object`) and hands out its members, each value written back
/// as text. The contract ties the result to the named result only.
#[verifier::external_body]
pub(crate) fn json_members(text: &str) -> (r: Option<Vec<(String, String)>>)
    ensures
        r.deep_view() == json_members_of(text@),
{
    serde_json::from_str::<serde_json::Value>(text).ok().and_then(
        |v| v.as_object().map(|m| m.iter().map(|(k, x)| (k.clone(), x.to_string())).collect()),
    )
}

/// What `serde_json` gives for the items of the JSON array in `text`:
/// each written back as JSON text, in order; none when the text is not
/// JSON or not an array. It depends on the text alone.
pub uninterp spec fn json_items_of(text: Seq<char>) -> Option<Seq<Seq<char>>>;

/// Parses `text` as a `serde_json::Value`, takes it as an array
/// (`Value::as_array`) and hands out its items written back as text. The
/// contract ties the result to the named result only.
#[verifier::external_body]
pub(crate) fn json_items(text: &str) -> (r: Option<Vec<String>>)
    ensures
        r.deep_view() == json_items_of(text@),
{
    serde_json::from_str::<serde_json::Value>(text).ok().and_then(
        |v| v.as_array().map(|a| a.iter().map(|x| x.to_string()).collect()),
    )
}

/// Whether `ruma_identifiers::RoomId::try_from` accepts a string. The
/// check depends on the string alone.
pub uninterp spec fn room_id_valid(s: Seq<char>) -> bool;

/// Calls `ruma_identifiers::RoomId::try_from` and tells whether it
/// succeeded. The contract ties the answer to the named check only.
#[verifier::external_body]
pub(crate) fn is_room_id(s: &str) -> (r: bool)
    ensures
        r == room_id_valid(s@),
{
    ruma_identifiers::RoomId::try_from(s).is_ok()
}

} // verus!
