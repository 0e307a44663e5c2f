//! The completion of member names in the message entry: when the list of
//! matching members opens and closes, what the keys do, which members
//! match, and which parts of the text are highlighted.

use crate::model::member::{Member, MemberView};
use crate::model::strmap::StrMap;
use crate::outside::{lowercase_of, to_lowercase};
use crate::text::{
    byte_len, char_utf8_len, chars_of, is_white, is_whitespace, lemma_utf8_size_prefix_mono,
    lemma_utf8_size_prefix_strict, match_indices, match_positions, starts_with, str_starts_with,
    utf8_len, utf8_size,
};
use vstd::prelude::*;

verus! {

/// The keys the entry reacts to.
pub enum Key {
    BackSpace,
    Tab,
    Return,
    Up,
    Down,
    Escape,
    Other,
}

/// What a key press does.
pub enum KeyPressAction {
    /// Close the list of members, and let the key do its work.
    CloseAndPass,
    /// Select the member so many rows away, and stop the key.
    Select(i32),
    /// Let the key do its work.
    Pass,
    /// Stop the key.
    Stop,
}

/// What a key release does.
pub enum KeyReleaseAction {
    /// Close the list of members, and stop the key.
    CloseAndStop,
    /// Show the members matching the text.
    ShowCompletion,
    /// Nothing.
    Pass,
}

/// The state of the completion: the names completed so far (highlighted
/// in the text), where the name being completed starts (a byte offset),
/// the text the list was last shown for, and whether the list is closing.
pub struct Autocomplete {
    pub highlighted_entry: Vec<String>,
    pub popover_position: Option<i32>,
    pub popover_search: Option<String>,
    pub popover_closing: bool,
}

/// The byte offset of the last `@` among the characters of `s`.
pub open spec fn last_at_offset(s: Seq<char>) -> Option<int>
    decreases s.len(),
{
    if s.len() == 0 {
        None
    } else if s.last() == '@' {
        Some(utf8_size(s.drop_last()) as int)
    } else {
        last_at_offset(s.drop_last())
    }
}

/// The byte offset of the last whitespace among the characters of `s`,
/// plus one.
pub open spec fn after_last_space(s: Seq<char>) -> Option<int>
    decreases s.len(),
{
    if s.len() == 0 {
        None
    } else if is_white(s.last()) {
        Some(utf8_size(s.drop_last()) + 1int)
    } else {
        after_last_space(s.drop_last())
    }
}

/// Where the name being completed starts, found when a key is released
/// with the cursor after `cursor` characters of the text: at the last `@`
/// before the cursor, or with Tab at the word before it (one byte after
/// the last whitespace, or at the start). None when there is no `@`. The
/// entry's offsets are `i32`: an offset beyond them is cut down to its low
/// 32 bits, as a cast does.
pub open spec fn completion_start(t: Seq<char>, cursor: int, tab: bool) -> Option<i32> {
    let before = t.take(cursor);
    let found = if tab {
        match after_last_space(before) {
            Some(b) => Some(b),
            None => Some(0int),
        }
    } else {
        last_at_offset(before)
    };
    match found {
        Some(b) => Some(b as i32),
        None => None,
    }
}

/// What releasing a key does to the completion (where the name being
/// completed starts, the text the list was last shown for, whether the
/// list is closing), and what it asks for. Escape closes an open list. A
/// release that ends a Tab selection does nothing; a text that did not
/// change does nothing (but for Tab). Otherwise, unless an arrow key moved
/// in the list, the text is remembered and, when the cursor lies in the
/// text and no name is being completed, one starts. The list is shown
/// when a name is being completed.
pub open spec fn released(
    pos: Option<i32>,
    search: Option<Seq<char>>,
    closing: bool,
    key: Key,
    text: Option<Seq<char>>,
    cursor: int,
) -> (Option<i32>, Option<Seq<char>>, bool, KeyReleaseAction) {
    if key is Escape && pos is Some {
        (None, None, closing, KeyReleaseAction::CloseAndStop)
    } else if closing {
        (pos, search, false, KeyReleaseAction::Pass)
    } else if !(key is Tab) && text is Some && search is Some && text == search {
        (pos, search, closing, KeyReleaseAction::Pass)
    } else if (key is Tab && pos is None) || !(key is Up || key is Down) {
        match text {
            Some(t) => if cursor < 0 || cursor > t.len() {
                (pos, text, closing, KeyReleaseAction::Pass)
            } else {
                let p2 = if pos is None {
                    completion_start(t, cursor, key is Tab)
                } else {
                    pos
                };
                (
                    p2,
                    text,
                    closing,
                    if p2 is Some {
                        KeyReleaseAction::ShowCompletion
                    } else {
                        KeyReleaseAction::Pass
                    },
                )
            },
            None => (
                pos,
                text,
                closing,
                if pos is Some {
                    KeyReleaseAction::ShowCompletion
                } else {
                    KeyReleaseAction::Pass
                },
            ),
        }
    } else {
        (pos, search, closing, KeyReleaseAction::Pass)
    }
}

/// The ranges of the entry's text (byte offsets, in lowercase) highlighted
/// as names completed: for each name completed, in order, each place it
/// occurs, left to right, both in lowercase.
pub open spec fn entry_highlights(text: Seq<char>, names: Seq<Seq<char>>) -> Seq<(int, int)>
    decreases names.len(),
{
    if names.len() == 0 {
        Seq::empty()
    } else {
        let name = lowercase_of(names.last());
        entry_highlights(text, names.drop_last()) + match_positions(text, name, 0).map_values(
            |i: int| (utf8_size(text.take(i)) as int, (utf8_size(text.take(i)) + utf8_size(name)) as int),
        )
    }
}

impl Autocomplete {
    /// A completion with nothing going on.
    pub fn new() -> (a: Autocomplete)
        ensures
            a.highlighted_entry@.len() == 0,
            a.popover_position is None,
            a.popover_search is None,
            !a.popover_closing,
    {
        Autocomplete {
            highlighted_entry: Vec::new(),
            popover_position: None,
            popover_search: None,
            popover_closing: false,
        }
    }

    /// The ranges of the entry's text highlighted as names completed, given
    /// the text.
    pub fn add_highlight(&self, input: &str) -> (r: Vec<(usize, usize)>)
        ensures
            r@.len() == entry_highlights(lowercase_of(input@), self.highlighted_entry.deep_view()).len(),
            forall|k: int|
                0 <= k < r@.len() ==> (#[trigger] r@[k].0 as int, r@[k].1 as int) == entry_highlights(
                    lowercase_of(input@),
                    self.highlighted_entry.deep_view(),
                )[k],
    {
        let input = to_lowercase(input);
        let n = byte_len(input.as_str());
        let ghost text = input@;
        let ghost names = self.highlighted_entry.deep_view();
        let mut r: Vec<(usize, usize)> = Vec::new();
        let mut e: usize = 0;
        assert(names.take(0) =~= Seq::<Seq<char>>::empty());
        while e < self.highlighted_entry.len()
            invariant
                e <= names.len(),
                names == self.highlighted_entry.deep_view(),
                text == input@,
                n == utf8_size(text),
                r@.len() == entry_highlights(text, names.take(e as int)).len(),
                forall|k: int|
                    0 <= k < r@.len() ==> (#[trigger] r@[k].0 as int, r@[k].1 as int) == entry_highlights(
                        text,
                        names.take(e as int),
                    )[k],
            decreases names.len() - e,
        {
            let alias = to_lowercase(self.highlighted_entry[e].as_str());
            let starts = match_indices(input.as_str(), alias.as_str());
            let len = byte_len(alias.as_str());
            let ghost pos = match_positions(text, alias@, 0);
            let ghost before = entry_highlights(text, names.take(e as int));
            let ghost found = pos.map_values(
                |i: int| (utf8_size(text.take(i)) as int, (utf8_size(text.take(i)) + utf8_size(alias@)) as int),
            );
            proof {
                assert(names.take(e + 1 as int).drop_last() =~= names.take(e as int));
                assert(names.take(e + 1 as int).last() == names[e as int]);
                assert(names[e as int] == self.highlighted_entry@[e as int]@);
                assert(entry_highlights(text, names.take(e + 1 as int)) == before + found);
            }
            let mut j: usize = 0;
            while j < starts.len()
                invariant
                    j <= starts@.len(),
                    starts@.len() == pos.len(),
                    len == utf8_size(alias@),
                    n == utf8_size(text),
                    found.len() == pos.len(),
                    forall|k: int| 0 <= k < pos.len() ==> #[trigger] found[k] == (utf8_size(text.take(pos[k])) as int, (
                        utf8_size(text.take(pos[k])) + utf8_size(alias@)) as int),
                    forall|k: int|
                        0 <= k < starts@.len() ==> #[trigger] starts@[k] == utf8_size(text.take(pos[k])) && starts@[k]
                            + utf8_size(alias@) <= utf8_size(text),
                    r@.len() == before.len() + j,
                    forall|k: int| 0 <= k < before.len() ==> (#[trigger] r@[k].0 as int, r@[k].1 as int) == before[k],
                    forall|k: int|
                        before.len() <= k < r@.len() ==> (#[trigger] r@[k].0 as int, r@[k].1 as int) == found[k
                            - before.len()],
                decreases starts@.len() - j,
            {
                let ghost prev = r@;
                assert(starts@[j as int] + utf8_size(alias@) <= utf8_size(text));
                r.push((starts[j], starts[j] + len));
                assert(found[j as int] == (starts@[j as int] as int, starts@[j as int] + len));
                proof {
                    assert forall|k: int| 0 <= k < before.len() implies (#[trigger] r@[k].0 as int, r@[k].1 as int) == before[k] by {
                        assert(r@[k] == prev[k]);
                    }
                    assert forall|k: int| before.len() <= k < r@.len() implies (#[trigger] r@[k].0 as int, r@[k].1 as int) == found[k - before.len()] by {
                        if k < prev.len() {
                            assert(r@[k] == prev[k]);
                        }
                    }
                }
                j = j + 1;
            }
            proof {
                let all = entry_highlights(text, names.take(e + 1 as int));
                assert forall|k: int| 0 <= k < r@.len() implies (#[trigger] r@[k].0 as int, r@[k].1 as int) == all[k] by {
                    if k < before.len() {
                    } else {
                    }
                }
            }
            e = e + 1;
        }
        assert(names.take(names.len() as int) =~= names);
        r
    }

    /// Closes the list of members.
    pub fn autocomplete_enter(&mut self)
        ensures
            final(self).popover_position is None,
            final(self).popover_search is None,
            final(self).highlighted_entry@ == old(self).highlighted_entry@,
            final(self).popover_closing == old(self).popover_closing,
    {
        self.popover_position = None;
        self.popover_search = None;
    }

    /// Whether deleting the text from `start` to `end` closes the list: it
    /// does when the list is open and the deletion reaches back to the
    /// start of the name or covers it.
    pub fn closes_on_delete(&self, start: i32, end: i32) -> (r: bool)
        ensures
            r == match self.popover_position {
                Some(pos) => end <= pos + 1 || (start <= pos && end > pos),
                None => false,
            },
    {
        match self.popover_position {
            Some(pos) => (end as i64) <= (pos as i64) + 1 || (start <= pos && end > pos),
            None => false,
        }
    }

    /// What pressing a key does; `text_empty` tells whether the entry is
    /// empty (or its text cannot be read).
    pub fn key_press(&mut self, key: Key, text_empty: bool) -> (r: KeyPressAction)
        ensures
            final(self).popover_position == old(self).popover_position,
            final(self).popover_search == old(self).popover_search,
            final(self).highlighted_entry@ == old(self).highlighted_entry@,
            match key {
                Key::BackSpace => r == (if text_empty {
                    KeyPressAction::CloseAndPass
                } else {
                    KeyPressAction::Pass
                }) && final(self).popover_closing == old(self).popover_closing,
                Key::Tab | Key::Return => if old(self).popover_position is Some {
                    r == KeyPressAction::Select(0) && final(self).popover_closing
                } else {
                    r == (if key is Tab {
                        KeyPressAction::Stop
                    } else {
                        KeyPressAction::Pass
                    }) && final(self).popover_closing == old(self).popover_closing
                },
                Key::Up => r == (if old(self).popover_position is Some {
                    KeyPressAction::Select(-1i32)
                } else {
                    KeyPressAction::Pass
                }) && final(self).popover_closing == old(self).popover_closing,
                Key::Down => r == (if old(self).popover_position is Some {
                    KeyPressAction::Select(1)
                } else {
                    KeyPressAction::Pass
                }) && final(self).popover_closing == old(self).popover_closing,
                _ => r == KeyPressAction::Pass && final(self).popover_closing == old(self).popover_closing,
            },
    {
        match key {
            Key::BackSpace => {
                if text_empty {
                    KeyPressAction::CloseAndPass
                } else {
                    KeyPressAction::Pass
                }
            },
            Key::Tab => {
                if self.popover_position.is_some() {
                    self.popover_closing = true;
                    KeyPressAction::Select(0)
                } else {
                    KeyPressAction::Stop
                }
            },
            Key::Return => {
                if self.popover_position.is_some() {
                    self.popover_closing = true;
                    KeyPressAction::Select(0)
                } else {
                    KeyPressAction::Pass
                }
            },
            Key::Up => {
                if self.popover_position.is_none() {
                    KeyPressAction::Pass
                } else {
                    KeyPressAction::Select(-1)
                }
            },
            Key::Down => {
                if self.popover_position.is_none() {
                    KeyPressAction::Pass
                } else {
                    KeyPressAction::Select(1)
                }
            },
            _ => KeyPressAction::Pass,
        }
    }

    /// What releasing a key does, given the entry's text and the cursor's
    /// position in characters.
    pub fn key_release(&mut self, key: Key, text: Option<String>, cursor: i32) -> (r: KeyReleaseAction)
        ensures
            final(self).highlighted_entry@ == old(self).highlighted_entry@,
            (final(self).popover_position, final(self).popover_search.deep_view(), final(self).popover_closing, r)
                == released(
                old(self).popover_position,
                old(self).popover_search.deep_view(),
                old(self).popover_closing,
                key,
                text.deep_view(),
                cursor as int,
            ),
    {
        if let Key::Escape = key {
            if self.popover_position.is_some() {
                self.autocomplete_enter();
                return KeyReleaseAction::CloseAndStop;
            }
        }
        let is_tab = match key {
            Key::Tab => true,
            _ => false,
        };
        if self.popover_closing {
            self.popover_closing = false;
            return KeyReleaseAction::Pass;
        }
        if !is_tab {
            if let (Some(t), Some(old)) = (&text, &self.popover_search) {
                if crate::text::str_eq(t.as_str(), old.as_str()) {
                    return KeyReleaseAction::Pass;
                }
            }
        }
        let arrow = match key {
            Key::Up => true,
            Key::Down => true,
            _ => false,
        };
        if (is_tab && self.popover_position.is_none()) || !arrow {
            self.popover_search = crate::model::member::clone_opt_string(&text);
            if let Some(t) = &text {
                // The text's size in bytes bounds the offsets found below.
                let _bytes = crate::text::byte_len(t.as_str());
                let graphs = chars_of(t.as_str());
                if cursor < 0 || cursor as usize > graphs.len() {
                    return KeyReleaseAction::Pass;
                }
                if self.popover_position.is_none() {
                    let n = cursor as usize;
                    assert(n as int == cursor as int);
                    let found = if !is_tab {
                        last_at(&graphs, n)
                    } else {
                        match space_end(&graphs, n) {
                            Some(sp) => Some(sp),
                            None => Some(0),
                        }
                    };
                    match found {
                        Some(b) => {
                            self.popover_position = Some(#[verifier::truncate] (b as i32));
                        },
                        None => {},
                    }
                }
            }
            if self.popover_position.is_some() {
                return KeyReleaseAction::ShowCompletion;
            }
        }
        KeyReleaseAction::Pass
    }
}

/// The byte offset of each position of a character sequence, up to `n`.
fn byte_offset(s: &Vec<char>, n: usize) -> (b: usize)
    requires
        n <= s.len(),
        utf8_size(s@.take(n as int)) <= usize::MAX,
    ensures
        b == utf8_size(s@.take(n as int)),
{
    let mut b: usize = 0;
    let mut i: usize = 0;
    proof {
        lemma_utf8_size_prefix_mono(s@, 0, n as int);
    }
    while i < n
        invariant
            i <= n <= s.len(),
            b == utf8_size(s@.take(i as int)),
            utf8_size(s@.take(n as int)) <= usize::MAX,
        decreases n - i,
    {
        proof {
            assert(s@.take(i + 1 as int).drop_last() =~= s@.take(i as int));
            assert(s@.take(i + 1 as int).last() == s@[i as int]);
            lemma_utf8_size_prefix_mono(s@, i + 1 as int, n as int);
        }
        b = b + char_utf8_len(s[i]);
        i = i + 1;
    }
    b
}

/// The byte offset of the last `@` among the first `n` characters.
fn last_at(s: &Vec<char>, n: usize) -> (r: Option<usize>)
    requires
        n <= s.len(),
        utf8_size(s@) <= usize::MAX,
    ensures
        r matches Some(b) ==> last_at_offset(s@.take(n as int)) == Some(b as int),
        r is None ==> last_at_offset(s@.take(n as int)) is None,
{
    let mut i: usize = n;
    while i > 0
        invariant
            i <= n <= s.len(),
            utf8_size(s@) <= usize::MAX,
            last_at_offset(s@.take(n as int)) == last_at_offset(s@.take(i as int)),
        decreases i,
    {
        proof {
            assert(s@.take(i as int).last() == s@[i - 1]);
            assert(s@.take(i as int).drop_last() =~= s@.take(i - 1));
        }
        if s[i - 1] == '@' {
            proof {
                lemma_utf8_size_prefix_mono(s@, i - 1, s@.len() as int);
                assert(s@.take(s@.len() as int) =~= s@);
            }
            return Some(byte_offset(s, i - 1));
        }
        i = i - 1;
    }
    None
}

/// The byte offset of the last whitespace among the first `n` characters,
/// plus one.
fn space_end(s: &Vec<char>, n: usize) -> (r: Option<usize>)
    requires
        n <= s.len(),
        utf8_size(s@) <= usize::MAX,
    ensures
        r matches Some(b) ==> after_last_space(s@.take(n as int)) == Some(b as int),
        r is None ==> after_last_space(s@.take(n as int)) is None,
{
    let mut i: usize = n;
    while i > 0
        invariant
            i <= n <= s.len(),
            utf8_size(s@) <= usize::MAX,
            after_last_space(s@.take(n as int)) == after_last_space(s@.take(i as int)),
        decreases i,
    {
        proof {
            assert(s@.take(i as int).last() == s@[i - 1]);
            assert(s@.take(i as int).drop_last() =~= s@.take(i - 1));
        }
        if is_whitespace(s[i - 1]) {
            proof {
                lemma_utf8_size_prefix_strict(s@, i - 1, i as int);
                lemma_utf8_size_prefix_mono(s@, i as int, s@.len() as int);
                assert(s@.take(s@.len() as int) =~= s@);
            }
            let b = byte_offset(s, i - 1);
            return Some(b + 1);
        }
        i = i - 1;
    }
    None
}

/// Whether `k` characters of `t` take `b` bytes: `b` is a character
/// boundary of `t`, the one after `k` characters.
pub open spec fn boundary_at(t: Seq<char>, k: int, b: int) -> bool {
    0 <= k <= t.len() && utf8_size(t.take(k)) == b
}

/// What `str::get(start..end)` gives on a text: the characters between the
/// byte offsets `start` and `end`, when both are character boundaries and
/// `start` is not after `end`.
pub open spec fn byte_slice(t: Seq<char>, start: int, end: int) -> Option<Seq<char>> {
    if exists|a: int, b: int| #[trigger] boundary_at(t, a, start) && #[trigger] boundary_at(t, b, end) && a <= b {
        let (a, b) = choose|a: int, b: int| #[trigger] boundary_at(t, a, start) && #[trigger] boundary_at(t, b, end) && a <= b;
        Some(t.subrange(a, b))
    } else {
        None
    }
}

/// The character position at which the byte offset `b` falls on a
/// boundary, if it does.
fn boundary_index(t: &Vec<char>, b: usize) -> (r: Option<usize>)
    ensures
        match r {
            Some(k) => boundary_at(t@, k as int, b as int),
            None => forall|k: int| !#[trigger] boundary_at(t@, k, b as int),
        },
{
    let mut off: usize = 0;
    let mut k: usize = 0;
    assert(t@.take(0) =~= Seq::<char>::empty());
    while k <= t.len()
        invariant
            k <= t.len() + 1,
            k <= t.len() ==> off == utf8_size(t@.take(k as int)),
            off <= b || k <= t.len(),
            forall|j: int| 0 <= j < k && j <= t.len() ==> utf8_size(t@.take(j)) < b,
        decreases t.len() + 1 - k,
    {
        if off == b {
            return Some(k);
        }
        if off > b {
            proof {
                assert forall|j: int| !#[trigger] boundary_at(t@, j, b as int) by {
                    if 0 <= j <= t.len() && utf8_size(t@.take(j)) == b {
                        if j > k {
                            lemma_utf8_size_prefix_strict(t@, k as int, j);
                        }
                    }
                }
            }
            return None;
        }
        if k == t.len() {
            proof {
                assert forall|j: int| !#[trigger] boundary_at(t@, j, b as int) by {
                }
            }
            return None;
        }
        proof {
            assert(t@.take(k + 1 as int).drop_last() =~= t@.take(k as int));
            assert(t@.take(k + 1 as int).last() == t@[k as int]);
        }
        let step = char_utf8_len(t[k]);
        if step > b - off {
            proof {
                assert(utf8_size(t@.take(k + 1 as int)) > b);
                assert forall|j: int| !#[trigger] boundary_at(t@, j, b as int) by {
                    if 0 <= j <= t.len() && utf8_size(t@.take(j)) == b {
                        if j > k + 1 {
                            lemma_utf8_size_prefix_strict(t@, k + 1 as int, j);
                        }
                    }
                }
            }
            return None;
        }
        off = off + step;
        k = k + 1;
    }
    proof {
        assert forall|j: int| !#[trigger] boundary_at(t@, j, b as int) by {
        }
    }
    None
}

/// What `str::get(start..end)` gives on a text.
pub fn get_byte_range(t: &Vec<char>, start: usize, end: usize) -> (r: Option<Vec<char>>)
    ensures
        match r {
            Some(v) => byte_slice(t@, start as int, end as int) == Some(v@),
            None => byte_slice(t@, start as int, end as int) is None,
        },
{
    let a = boundary_index(t, start);
    let b = boundary_index(t, end);
    match (a, b) {
        (Some(a), Some(b)) => {
            if a <= b {
                proof {
                    let (x, y) = choose|x: int, y: int| #[trigger] boundary_at(t@, x, start as int) && #[trigger] boundary_at(t@, y, end as int) && x <= y;
                    if x != a {
                        if x < a { lemma_utf8_size_prefix_strict(t@, x, a as int); } else { lemma_utf8_size_prefix_strict(t@, a as int, x); }
                    }
                    if y != b {
                        if y < b { lemma_utf8_size_prefix_strict(t@, y, b as int); } else { lemma_utf8_size_prefix_strict(t@, b as int, y); }
                    }
                }
                let mut v: Vec<char> = Vec::new();
                let mut i = a;
                while i < b
                    invariant
                        a <= i <= b <= t.len(),
                        v@ == t@.subrange(a as int, i as int),
                    decreases b - i,
                {
                    v.push(t[i]);
                    assert(v@ =~= t@.subrange(a as int, i + 1 as int));
                    i = i + 1;
                }
                Some(v)
            } else {
                proof {
                    if exists|x: int, y: int| #[trigger] boundary_at(t@, x, start as int) && #[trigger] boundary_at(t@, y, end as int) && x <= y {
                        let (x, y) = choose|x: int, y: int| #[trigger] boundary_at(t@, x, start as int) && #[trigger] boundary_at(t@, y, end as int) && x <= y;
                        if x != a {
                            if x < a { lemma_utf8_size_prefix_strict(t@, x, a as int); } else { lemma_utf8_size_prefix_strict(t@, a as int, x); }
                        }
                        if y != b {
                            if y < b { lemma_utf8_size_prefix_strict(t@, y, b as int); } else { lemma_utf8_size_prefix_strict(t@, b as int, y); }
                        }
                    }
                }
                None
            }
        },
        _ => None,
    }
}

/// The localpart of a user ID: what lies between its first character (the
/// sigil) and its first colon.
pub open spec fn localpart_of(uid: Seq<char>) -> Seq<char> {
    if uid.len() == 0 {
        Seq::empty()
    } else if exists|i: int| 0 <= i < uid.len() && uid[i] == ':' {
        let c = choose|i: int| 0 <= i < uid.len() && uid[i] == ':' && forall|j: int| 0 <= j < i ==> uid[j] != ':';
        if c >= 1 {
            uid.subrange(1, c)
        } else {
            Seq::empty()
        }
    } else {
        uid.skip(1)
    }
}

/// The localpart of a user ID.
pub fn localpart(uid: &str) -> (r: String)
    ensures
        r@ == localpart_of(uid@),
{
    let v = chars_of(uid);
    if v.len() == 0 {
        return String::new();
    }
    let mut i: usize = 0;
    while i < v.len()
        invariant
            i <= v.len(),
            v@ == uid@,
            forall|j: int| 0 <= j < i ==> v@[j] != ':',
        decreases v.len() - i,
    {
        if v[i] == ':' {
            proof {
                let c = choose|k: int| 0 <= k < uid@.len() && uid@[k] == ':' && forall|j: int| 0 <= j < k ==> uid@[j] != ':';
                if c < i {
                } else if c > i {
                    assert(uid@[i as int] == ':');
                }
            }
            if i >= 1 {
                return crate::text::string_of_range(&v, 1, i);
            } else {
                return String::new();
            }
        }
        i = i + 1;
    }
    let r = crate::text::string_of_range(&v, 1, v.len());
    assert(v@.subrange(1, v@.len() as int) =~= v@.skip(1));
    r
}

/// Whether a member matches the word being completed: its display name
/// (empty when unset) or the localpart of its user ID starts with it, both
/// in lowercase.
pub open spec fn member_matches(m: MemberView, w: Seq<char>) -> bool {
    starts_with(
        lowercase_of(
            match m.alias {
                Some(a) => a,
                None => Seq::empty(),
            },
        ),
        w,
    ) || starts_with(lowercase_of(localpart_of(m.uid)), w)
}

/// The members matching the word, in the order of the entries.
pub open spec fn matching_members(s: Seq<(Seq<char>, MemberView)>, w: Seq<char>) -> Seq<MemberView>
    decreases s.len(),
{
    if s.len() == 0 {
        Seq::empty()
    } else {
        let p = matching_members(s.drop_last(), w);
        if member_matches(s.last().1, w) {
            p.push(s.last().1)
        } else {
            p
        }
    }
}

/// At most the first five members of a sequence.
pub open spec fn first_five(s: Seq<MemberView>) -> Seq<MemberView> {
    if s.len() > 5 {
        s.take(5)
    } else {
        s
    }
}

/// The word being completed: the text between the start of the name and
/// the cursor (byte offsets), without a leading `@`, in lowercase.
pub open spec fn completion_word(text: Seq<char>, at: int, pos: int) -> Option<Seq<char>> {
    if at < 0 || pos < 0 {
        None
    } else {
        match byte_slice(text, at, pos) {
            Some(last) => Some(
                lowercase_of(
                    if last.len() > 0 && last[0] == '@' {
                        last.skip(1)
                    } else {
                        last
                    },
                ),
            ),
            None => None,
        }
    }
}

/// The members shown to complete the name being typed: up to five of
/// those matching the word between the start of the name and the cursor,
/// in the order of the room's members.
pub fn autocomplete(
    text: &Option<String>,
    pos: i32,
    popover_position: Option<i32>,
    members: &StrMap<Member>,
) -> (r: Vec<Member>)
    ensures
        r.deep_view() == match (text, popover_position) {
            (Some(t), Some(at)) => match completion_word(t@, at as int, pos as int) {
                Some(w) => first_five(matching_members(members.pairs(), w)),
                None => Seq::empty(),
            },
            _ => Seq::empty(),
        },
{
    let mut list: Vec<Member> = Vec::new();
    let empty: Vec<Member> = Vec::new();
    assert(empty.deep_view() =~= Seq::<MemberView>::empty());
    let (t, at) = match (text, popover_position) {
        (Some(t), Some(at)) => (t, at),
        _ => {
            return empty;
        },
    };
    if at < 0 || pos < 0 {
        return empty;
    }
    let tv = chars_of(t.as_str());
    let last = match get_byte_range(&tv, at as usize, pos as usize) {
        Some(l) => l,
        None => {
            return empty;
        },
    };
    let raw = if last.len() > 0 && last[0] == '@' {
        let r = crate::text::string_of_range(&last, 1, last.len());
        assert(last@.subrange(1, last@.len() as int) =~= last@.skip(1));
        r
    } else {
        let r = crate::text::string_of(&last);
        r
    };
    let w = to_lowercase(raw.as_str());
    let ghost wv = w@;
    let n = members.len();
    let mut i: usize = 0;
    let mut count: usize = 0;
    while i < n
        invariant
            i <= n,
            n == members.pairs().len(),
            count == list@.len(),
            count <= 4,
            wv == w@,
            completion_word(t@, at as int, pos as int) == Some(wv),
            *text == Some(*t),
            popover_position == Some(at),
            list.deep_view() == matching_members(members.pairs().take(i as int), wv),
        decreases n - i,
    {
        proof {
            assert(members.pairs().take(i + 1 as int).drop_last() =~= members.pairs().take(i as int));
            assert(members.pairs().take(i + 1 as int).last() == members.pairs()[i as int]);
        }
        let m = members.value_at(i);
        let alias = match &m.alias {
            Some(a) => to_lowercase(a.as_str()),
            None => to_lowercase(""),
        };
        proof {
            if m.alias is None {
                reveal_strlit("");
                assert(""@ =~= Seq::<char>::empty());
            }
        }
        let uid = to_lowercase(localpart(m.uid.as_str()).as_str());
        let ghost prev = list.deep_view();
        if str_starts_with(alias.as_str(), w.as_str()) || str_starts_with(uid.as_str(), w.as_str()) {
            list.push(m.duplicate());
            assert(list.deep_view() =~= prev.push(members.pairs()[i as int].1));
            count = count + 1;
            if count > 4 {
                proof {
                    assert(list.deep_view().len() == list@.len());
                    assert(list.deep_view().len() == 5);
                    assert(list.deep_view() == matching_members(members.pairs().take(i + 1 as int), wv));
                    lemma_matching_prefix(members.pairs(), wv, i + 1 as int);
                }
                return list;
            }
        }
        i = i + 1;
    }
    assert(members.pairs().take(n as int) =~= members.pairs());
    list
}

/// The members matching among a prefix of the entries are the first of
/// those matching among all of them; once five match, the first five of
/// all are those five.
pub proof fn lemma_matching_prefix(s: Seq<(Seq<char>, MemberView)>, w: Seq<char>, k: int)
    requires
        0 <= k <= s.len(),
    ensures
        matching_members(s.take(k), w).len() <= matching_members(s, w).len(),
        matching_members(s, w).take(matching_members(s.take(k), w).len() as int) == matching_members(s.take(k), w),
        matching_members(s.take(k), w).len() == 5 ==> first_five(matching_members(s, w)) == matching_members(s.take(k), w),
    decreases s.len() - k,
{
    if k == s.len() {
        assert(s.take(k) =~= s);
        assert(matching_members(s, w).take(matching_members(s, w).len() as int) =~= matching_members(s, w));
    } else {
        lemma_matching_prefix(s, w, k + 1);
        assert(s.take(k + 1).drop_last() =~= s.take(k));
        let a = matching_members(s.take(k), w);
        let b = matching_members(s.take(k + 1), w);
        let f = matching_members(s, w);
        assert(f.take(a.len() as int) =~= b.take(a.len() as int));
        assert(b.take(a.len() as int) =~= a);
    }
}

/// The row of the list of members an arrow key selects, given the row
/// selected, the move and the number of rows: the row so many away; past
/// the end, the first row; before the start, the last row; with nothing
/// selected, the first row.
pub fn autocomplete_arrow(selected: Option<i32>, direction: i32, rows: i32) -> (r: Option<i32>)
    requires
        rows >= 0,
        selected matches Some(s) ==> 0 <= s < rows,
        -1 <= direction <= 1,
    ensures
        r == match selected {
            Some(s) => if s + direction >= 0 {
                if s + direction < rows {
                    Some((s + direction) as i32)
                } else if rows > 0 {
                    Some(0i32)
                } else {
                    None
                }
            } else if rows > 0 {
                Some((rows - 1) as i32)
            } else {
                None
            },
            None => if rows > 0 {
                Some(0i32)
            } else {
                None
            },
        },
{
    match selected {
        Some(s) => {
            let index = s + direction;
            if index >= 0 {
                if index < rows {
                    Some(index)
                } else if rows > 0 {
                    Some(0)
                } else {
                    None
                }
            } else if rows > 0 {
                Some(rows - 1)
            } else {
                None
            }
        },
        None => {
            if rows > 0 {
                Some(0)
            } else {
                None
            }
        },
    }
}

/// `s` with the suffix `p` removed as often as it ends with it
/// (`str::trim_end_matches`).
pub open spec fn trim_end_all(s: Seq<char>, p: Seq<char>) -> Seq<char>
    decreases s.len(),
{
    if p.len() > 0 && p.len() <= s.len() && s.skip(s.len() - p.len()) == p {
        trim_end_all(s.take(s.len() - p.len()), p)
    } else {
        s
    }
}

/// The name a member is listed under when completing: its display name
/// (empty when unset) without any ` (IRC)` at its end.
pub fn completion_alias(m: &Member) -> (r: String)
    ensures
        r@ == trim_end_all(
            match m@.alias {
                Some(a) => a,
                None => Seq::empty(),
            },
            " (IRC)"@,
        ),
{
    let a = match &m.alias {
        Some(a) => chars_of(a.as_str()),
        None => Vec::new(),
    };
    let suffix = chars_of(" (IRC)");
    proof {
        reveal_strlit(" (IRC)");
    }
    let mut end = a.len();
    assert(a@.take(end as int) =~= a@);
    while end >= suffix.len() && ends_at(&a, &suffix, end)
        invariant
            end <= a.len(),
            suffix@ == " (IRC)"@,
            suffix@.len() == 6,
            trim_end_all(a@, suffix@) == trim_end_all(a@.take(end as int), suffix@),
        decreases end,
    {
        proof {
            let t = a@.take(end as int);
            assert(t.skip(t.len() - 6) == suffix@);
            assert(t.take(t.len() - 6) =~= a@.take(end - 6));
        }
        end = end - suffix.len();
    }
    proof {
        let t = a@.take(end as int);
        if end >= 6 {
            assert(!(t.skip(t.len() - 6) == suffix@));
        }
    }
    crate::text::string_of_range(&a, 0, end)
}

/// Whether `p` ends `a[..end]`.
fn ends_at(a: &Vec<char>, p: &Vec<char>, end: usize) -> (r: bool)
    requires
        p.len() <= end <= a.len(),
    ensures
        r == (a@.take(end as int).skip(end - p.len()) == p@),
{
    let start = end - p.len();
    let mut j: usize = 0;
    while j < p.len()
        invariant
            j <= p.len(),
            start + p.len() == end <= a.len(),
            forall|k: int| 0 <= k < j ==> a@[start + k] == p@[k],
        decreases p.len() - j,
    {
        if a[start + j] != p[j] {
            assert(a@.take(end as int).skip(end - p.len())[j as int] != p@[j as int]);
            return false;
        }
        j = j + 1;
    }
    assert(a@.take(end as int).skip(end - p.len()) =~= p@);
    true
}

} // verus!
