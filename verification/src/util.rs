//! Text shown with Pango markup.

use crate::outside::{escaped, html_escape, markup_links, markup_links_of};
use vstd::prelude::*;

verus! {

/// A text as Pango markup: HTML entities escaped, then links made links.
pub fn markup_text(s: &str) -> (r: String)
    ensures
        r@ == markup_links_of(escaped(s@)),
{
    let e = html_escape(s);
    markup_links(e.as_str())
}

} // verus!
