//! The room directory search.

use vstd::prelude::*;

verus! {

/// The search term of a room directory search: none when the search entry
/// is empty.
pub fn search_term(text: String) -> (r: Option<String>)
    ensures
        r.deep_view() == (if text@.len() > 0 {
            Some(text@)
        } else {
            None
        }),
{
    if text.as_str().is_empty() {
        None
    } else {
        Some(text)
    }
}

/// The name a directory room is listed under: its name when set and not
/// empty, else its alias, else nothing.
pub fn directory_room_name(name: &Option<String>, alias: &Option<String>) -> (r: String)
    ensures
        r@ == match name.deep_view() {
            Some(n) if n.len() > 0 => n,
            _ => match alias.deep_view() {
                Some(a) => a,
                None => Seq::<char>::empty(),
            },
        },
{
    match name {
        Some(n) => {
            if !n.as_str().is_empty() {
                return n.clone();
            }
        },
        None => {},
    }
    match alias {
        Some(a) => a.clone(),
        None => String::new(),
    }
}

/// What the directory dialog shows: whether its room list is emptied and
/// the spinner shown with the search entry made insensitive (a new search,
/// not a further page), and the query to send.
pub struct DirectoryQuery {
    pub reset: bool,
    pub protocol: Option<String>,
    pub homeserver: Option<String>,
    pub search_term: Option<String>,
}

/// The query of a room directory search, given what the dialog shows: the
/// network ID of the protocol picked (`protocol_row`, none when the
/// combo box points at no row) when another protocol is chosen; the
/// homeserver typed when another homeserver is chosen; the search term
/// when the entry is not empty. A search that is not a further page
/// starts afresh.
pub fn get_search_rooms_query(
    other_protocol: bool,
    protocol_row: Option<String>,
    other_homeserver: bool,
    homeserver_text: String,
    text: String,
    has_more: bool,
) -> (r: DirectoryQuery)
    ensures
        r.reset == !has_more,
        r.protocol.deep_view() == (if other_protocol {
            protocol_row.deep_view()
        } else {
            None
        }),
        r.homeserver.deep_view() == (if other_homeserver {
            Some(homeserver_text@)
        } else {
            None
        }),
        r.search_term.deep_view() == (if text@.len() > 0 {
            Some(text@)
        } else {
            None
        }),
{
    let protocol = if other_protocol {
        protocol_row
    } else {
        None
    };
    let homeserver = if other_homeserver {
        Some(homeserver_text)
    } else {
        None
    };
    DirectoryQuery { reset: !has_more, protocol, homeserver, search_term: search_term(text) }
}

} // verus!
