//! How the body of a text message is cut into parts: runs of quoted lines
//! and runs of other lines, each shown as a block of its own.

use crate::outside::{lowercase_of, to_lowercase};
use crate::text::{
    byte_len, chars_of, is_white, leading_white, match_indices, match_positions, string_of, trim_start,
    trim_start_seq, utf8_len, utf8_size,
};
use vstd::prelude::*;

verus! {

/// The kind of a part of a message body.
pub enum MsgPartType {
    Normal,
    Quote,
}

/// A line is quoted when it starts with `>` after leading whitespace.
pub open spec fn line_kind(line: Seq<char>) -> MsgPartType {
    let t = trim_start_seq(line);
    if t.len() > 0 && t[0] == '>' {
        MsgPartType::Quote
    } else {
        MsgPartType::Normal
    }
}

/// The kind of a line.
pub fn kind_of_line(line: &str) -> (k: MsgPartType)
    ensures
        k == line_kind(line@),
{
    let t = chars_of(trim_start(line).as_str());
    if t.len() > 0 && t[0] == '>' {
        MsgPartType::Quote
    } else {
        MsgPartType::Normal
    }
}

/// A quoted line without its quote mark: after leading whitespace, the
/// first character is dropped when it takes one byte (as `>` does), then
/// leading whitespace again.
pub open spec fn quote_trimmed(line: Seq<char>) -> Seq<char> {
    let t = trim_start_seq(line);
    if t.len() > 0 && utf8_len(t[0]) == 1 {
        trim_start_seq(t.skip(1))
    } else {
        t
    }
}

/// A quoted line without its quote mark.
pub fn trim_start_quote(line: &str) -> (r: String)
    ensures
        r@ == quote_trimmed(line@),
{
    let t = trim_start(line);
    let tv = chars_of(t.as_str());
    if tv.len() > 0 && (tv[0] as u32) < 0x80 {
        let rest = crate::text::string_of_range(&tv, 1, tv.len());
        assert(tv@.subrange(1, tv@.len() as int) =~= tv@.skip(1));
        trim_start(rest.as_str())
    } else {
        proof {
            if tv@.len() > 0 {
                assert(utf8_len(tv@[0]) != 1);
            }
        }
        t
    }
}

/// The lines of a text (`str::lines`): split at each `\n`, a `\r` before
/// it dropped, no line after a final `\n`.
pub open spec fn lines_of(s: Seq<char>) -> Seq<Seq<char>> {
    let pieces = split_newlines(s);
    let kept = if pieces.len() > 0 && pieces.last().len() == 0 {
        pieces.drop_last()
    } else {
        pieces
    };
    kept.map_values(|l: Seq<char>| drop_cr(l))
}

/// A line without a `\r` at its end.
pub open spec fn drop_cr(l: Seq<char>) -> Seq<char> {
    if l.len() > 0 && l.last() == '\r' {
        l.drop_last()
    } else {
        l
    }
}

/// The pieces of a text between its `\n`s (one more than there are `\n`s).
pub open spec fn split_newlines(s: Seq<char>) -> Seq<Seq<char>>
    decreases s.len(),
{
    if s.len() == 0 {
        seq![Seq::empty()]
    } else {
        let p = split_newlines(s.drop_last());
        if s.last() == '\n' {
            p.push(Seq::empty())
        } else {
            p.update(p.len() - 1, p.last().push(s.last()))
        }
    }
}

/// The pieces of a text between its `\n`s are never none.
pub proof fn lemma_split_nonempty(s: Seq<char>)
    ensures
        split_newlines(s).len() > 0,
    decreases s.len(),
{
    if s.len() > 0 {
        lemma_split_nonempty(s.drop_last());
    }
}

/// Runs of lines of the same kind, in order.
pub open spec fn group_lines(ls: Seq<Seq<char>>) -> Seq<(MsgPartType, Seq<Seq<char>>)>
    decreases ls.len(),
{
    if ls.len() == 0 {
        Seq::empty()
    } else {
        let g = group_lines(ls.drop_last());
        let k = line_kind(ls.last());
        if g.len() > 0 && g.last().0 == k {
            g.update(g.len() - 1, (k, g.last().1.push(ls.last())))
        } else {
            g.push((k, seq![ls.last()]))
        }
    }
}

/// Lines joined with `\n` between them.
pub open spec fn join_lines(ls: Seq<Seq<char>>) -> Seq<char>
    decreases ls.len(),
{
    if ls.len() == 0 {
        Seq::empty()
    } else if ls.len() == 1 {
        ls[0]
    } else {
        join_lines(ls.drop_last()) + seq!['\n'] + ls.last()
    }
}

/// The lines of a part without an empty first line, then without an empty
/// last line (quotes are written with blank lines around them).
pub open spec fn strip_blank_ends(v: Seq<Seq<char>>) -> Seq<Seq<char>> {
    let a = if v.len() > 0 && v[0].len() == 0 {
        v.drop_first()
    } else {
        v
    };
    if a.len() > 0 && a.last().len() == 0 {
        a.drop_last()
    } else {
        a
    }
}

/// The text of a part: its lines (quote marks removed in a quote), blank
/// ends stripped, joined with `\n`.
pub open spec fn part_text(k: MsgPartType, lines: Seq<Seq<char>>) -> Seq<char> {
    join_lines(
        strip_blank_ends(
            if k == MsgPartType::Quote {
                lines.map_values(|l: Seq<char>| quote_trimmed(l))
            } else {
                lines
            },
        ),
    )
}

/// The parts of a message body.
pub open spec fn body_parts_of(body: Seq<char>) -> Seq<(MsgPartType, Seq<char>)> {
    group_lines(lines_of(body)).map_values(
        |g: (MsgPartType, Seq<Seq<char>>)| (g.0, part_text(g.0, g.1)),
    )
}

impl DeepView for MsgPartType {
    type V = MsgPartType;

    open spec fn deep_view(&self) -> MsgPartType {
        *self
    }
}

/// The same kind of part.
fn same_kind(a: &MsgPartType, b: &MsgPartType) -> (r: bool)
    ensures
        r == (*a == *b),
{
    match (a, b) {
        (MsgPartType::Normal, MsgPartType::Normal) => true,
        (MsgPartType::Quote, MsgPartType::Quote) => true,
        _ => false,
    }
}

/// A copy of a kind.
fn copy_kind(a: &MsgPartType) -> (r: MsgPartType)
    ensures
        r == *a,
{
    match a {
        MsgPartType::Normal => MsgPartType::Normal,
        MsgPartType::Quote => MsgPartType::Quote,
    }
}

/// The lines of a text (`str::lines`).
pub fn lines(text: &str) -> (r: Vec<String>)
    ensures
        r.deep_view() == lines_of(text@),
{
    let v = chars_of(text);
    let mut done: Vec<String> = Vec::new();
    let mut cur = String::new();
    let mut i: usize = 0;
    assert(v@.take(0) =~= Seq::<char>::empty());
    assert(done.deep_view().push(cur@) =~= split_newlines(Seq::<char>::empty()));
    while i < v.len()
        invariant
            i <= v.len(),
            done.deep_view().push(cur@) == split_newlines(v@.take(i as int)),
        decreases v.len() - i,
    {
        proof {
            assert(v@.take(i + 1 as int).drop_last() =~= v@.take(i as int));
            assert(v@.take(i + 1 as int).last() == v@[i as int]);
        }
        let ghost before = done.deep_view();
        let ghost cur0 = cur@;
        if v[i] == '\n' {
            let finished = cur;
            done.push(finished);
            cur = String::new();
            assert(done.deep_view().push(cur@) =~= before.push(cur0).push(Seq::<char>::empty()));
        } else {
            crate::text::push_char(&mut cur, v[i]);
            assert(done.deep_view().push(cur@) =~= before.push(cur0).update(
                before.len() as int,
                cur0.push(v@[i as int]),
            ));
        }
        i = i + 1;
    }
    assert(v@.take(v.len() as int) =~= v@);
    let ghost pieces = split_newlines(text@);
    let ghost d0 = done.deep_view();
    let ghost c0 = cur@;
    if !cur.as_str().is_empty() {
        done.push(cur);
        assert(done.deep_view() =~= d0.push(c0));
    }
    proof {
        assert(v@ == text@);
        assert(d0.push(c0) == pieces);
        assert(pieces.drop_last() =~= d0);
        if pieces.last().len() > 0 {
            assert(done.deep_view() =~= pieces);
        } else {
            assert(done.deep_view() =~= pieces.drop_last());
        }
    }
    let ghost kept = done.deep_view();
    let mut r: Vec<String> = Vec::new();
    let mut j: usize = 0;
    while j < done.len()
        invariant
            j <= done.len(),
            kept == done.deep_view(),
            r.deep_view() == kept.take(j as int).map_values(|l: Seq<char>| drop_cr(l)),
        decreases done.len() - j,
    {
        let lv = chars_of(done[j].as_str());
        let n = lv.len();
        let line = if n > 0 && lv[n - 1] == '\r' {
            let x = crate::text::string_of_range(&lv, 0, n - 1);
            assert(lv@.subrange(0, n - 1) =~= lv@.drop_last());
            x
        } else {
            string_of(&lv)
        };
        let ghost prev = r.deep_view();
        r.push(line);
        assert(r.deep_view() =~= prev.push(drop_cr(kept[j as int])));
        assert(r.deep_view() =~= kept.take(j + 1 as int).map_values(|l: Seq<char>| drop_cr(l)));
        j = j + 1;
    }
    assert(kept.take(done.len() as int) =~= kept);
    r
}

/// Runs of lines of the same kind.
fn group(ls: &Vec<String>) -> (r: Vec<(MsgPartType, Vec<String>)>)
    ensures
        r.deep_view() == group_lines(ls.deep_view()),
{
    let mut g: Vec<(MsgPartType, Vec<String>)> = Vec::new();
    let mut i: usize = 0;
    while i < ls.len()
        invariant
            i <= ls.len(),
            g.deep_view() == group_lines(ls.deep_view().take(i as int)),
        decreases ls.len() - i,
    {
        proof {
            assert(ls.deep_view().take(i + 1 as int).drop_last() =~= ls.deep_view().take(i as int));
            assert(ls.deep_view().take(i + 1 as int).last() == ls.deep_view()[i as int]);
        }
        let k = kind_of_line(ls[i].as_str());
        let ghost before = g.deep_view();
        let n = g.len();
        let extend = n > 0 && same_kind(&g[n - 1].0, &k);
        if extend {
            let (kk, mut lines) = g.pop().unwrap();
            let ghost lv0 = lines.deep_view();
            lines.push(ls[i].clone());
            assert(lines.deep_view() =~= lv0.push(ls.deep_view()[i as int]));
            g.push((kk, lines));
            assert(g.deep_view() =~= before.update(before.len() - 1, (k, before.last().1.push(ls.deep_view()[i as int]))));
        } else {
            let mut one: Vec<String> = Vec::new();
            one.push(ls[i].clone());
            assert(one.deep_view() =~= seq![ls.deep_view()[i as int]]);
            g.push((k, one));
            assert(g.deep_view() =~= before.push((k, seq![ls.deep_view()[i as int]])));
        }
        i = i + 1;
    }
    assert(ls.deep_view().take(ls.len() as int) =~= ls.deep_view());
    g
}

/// Lines joined with `\n` between them.
fn join(ls: &Vec<String>) -> (r: String)
    ensures
        r@ == join_lines(ls.deep_view()),
{
    let mut r = String::new();
    let mut i: usize = 0;
    while i < ls.len()
        invariant
            i <= ls.len(),
            r@ == join_lines(ls.deep_view().take(i as int)),
        decreases ls.len() - i,
    {
        proof {
            assert(ls.deep_view().take(i + 1 as int).drop_last() =~= ls.deep_view().take(i as int));
            assert(ls.deep_view().take(i + 1 as int).last() == ls.deep_view()[i as int]);
            if i == 0 {
                assert(ls.deep_view().take(1)[0] == ls.deep_view()[0]);
            }
        }
        if i > 0 {
            crate::text::push_char(&mut r, '\n');
        }
        let ghost before = r@;
        r.append(ls[i].as_str());
        proof {
            if i == 0 {
                assert(r@ =~= ls.deep_view()[0]);
            } else {
                assert(r@ =~= join_lines(ls.deep_view().take(i as int)) + seq!['\n'] + ls.deep_view()[i as int]);
            }
        }
        i = i + 1;
    }
    assert(ls.deep_view().take(ls.len() as int) =~= ls.deep_view());
    r
}

/// The text of a part.
fn part(k: &MsgPartType, lines: &Vec<String>) -> (r: String)
    ensures
        r@ == part_text(*k, lines.deep_view()),
{
    let ghost src = if *k == MsgPartType::Quote {
        lines.deep_view().map_values(|l: Seq<char>| quote_trimmed(l))
    } else {
        lines.deep_view()
    };
    let mut v: Vec<String> = Vec::new();
    let quote = same_kind(k, &MsgPartType::Quote);
    let mut i: usize = 0;
    while i < lines.len()
        invariant
            i <= lines.len(),
            quote == (*k == MsgPartType::Quote),
            src == (if quote {
                lines.deep_view().map_values(|l: Seq<char>| quote_trimmed(l))
            } else {
                lines.deep_view()
            }),
            v.deep_view() == src.take(i as int),
        decreases lines.len() - i,
    {
        let l = if quote {
            trim_start_quote(lines[i].as_str())
        } else {
            lines[i].clone()
        };
        let ghost prev = v.deep_view();
        v.push(l);
        assert(v.deep_view() =~= prev.push(src[i as int]));
        assert(v.deep_view() =~= src.take(i + 1 as int));
        i = i + 1;
    }
    assert(src.take(lines.len() as int) =~= src);
    if v.len() > 0 && v[0].as_str().is_empty() {
        let ghost before = v.deep_view();
        v.remove(0);
        assert(v.deep_view() =~= before.drop_first());
    }
    let n = v.len();
    if n > 0 && v[n - 1].as_str().is_empty() {
        let ghost before = v.deep_view();
        v.pop();
        assert(v.deep_view() =~= before.drop_last());
    }
    join(&v)
}

/// The parts of a message body: runs of quoted lines and of other lines,
/// each with its text.
pub fn body_parts(body: &str) -> (r: Vec<(MsgPartType, String)>)
    ensures
        r.deep_view() == body_parts_of(body@),
{
    let ls = lines(body);
    let groups = group(&ls);
    let ghost gs = groups.deep_view();
    let mut r: Vec<(MsgPartType, String)> = Vec::new();
    let mut i: usize = 0;
    while i < groups.len()
        invariant
            i <= groups.len(),
            gs == groups.deep_view(),
            r.deep_view() == gs.take(i as int).map_values(
                |g: (MsgPartType, Seq<Seq<char>>)| (g.0, part_text(g.0, g.1)),
            ),
        decreases groups.len() - i,
    {
        let text = part(&groups[i].0, &groups[i].1);
        let ghost prev = r.deep_view();
        r.push((copy_kind(&groups[i].0), text));
        assert(r.deep_view() =~= prev.push((gs[i as int].0, part_text(gs[i as int].0, gs[i as int].1))));
        assert(r.deep_view() =~= gs.take(i + 1 as int).map_values(
            |g: (MsgPartType, Seq<Seq<char>>)| (g.0, part_text(g.0, g.1)),
        ));
        i = i + 1;
    }
    assert(gs.take(groups.len() as int) =~= gs);
    r
}


/// Whether a byte position lies in a range of a text; a range that ends
/// before it starts wraps around.
pub open spec fn in_range(start: int, end: int, x: int) -> bool {
    if start <= end {
        start <= x && end > x
    } else {
        start <= x || end > x
    }
}

/// The ranges coloured for a mention of the user's name from `start` to
/// `end`, given the selected text: the whole mention without a selection;
/// when the selection lies within the mention, the part after it, then the
/// part before it; else the mention without the part the selection covers
/// at its start or at its end.
pub open spec fn mention_ranges(start: int, end: int, bounds: Option<(i32, i32)>) -> Seq<(int, int)> {
    match bounds {
        None => seq![(start, end)],
        Some((bs, be)) => if in_range(start, end, bs as int) && in_range(start, end, be as int) {
            seq![(be as int, end), (start, bs as int)]
        } else {
            let s1 = if in_range(bs as int, be as int, start) {
                be as int
            } else {
                start
            };
            let e1 = if in_range(bs as int, be as int, end - 1) {
                bs as int
            } else {
                end
            };
            seq![(s1, e1)]
        },
    }
}

/// The ranges coloured for the mentions starting at the byte offsets
/// `starts`, each `len` bytes long, in order.
pub open spec fn mentions_ranges(starts: Seq<int>, len: int, bounds: Option<(i32, i32)>) -> Seq<(int, int)>
    decreases starts.len(),
{
    if starts.len() == 0 {
        Seq::empty()
    } else {
        mentions_ranges(starts.drop_last(), len, bounds) + mention_ranges(
            starts.last(),
            starts.last() + len,
            bounds,
        )
    }
}

/// The byte offsets of the mentions of `name` in `text`.
pub open spec fn mention_starts(text: Seq<char>, name: Seq<char>) -> Seq<int> {
    match_positions(text, name, 0).map_values(|i: int| utf8_size(text.take(i)) as int)
}

/// The ranges of a message's text coloured as mentions of the user's
/// name, both already in lowercase: each mention found left to right, less
/// the selected text.
pub fn username_highlights(name: &str, text: &str, bounds: Option<(i32, i32)>) -> (r: Vec<(i32, i32)>)
    requires
        name@.len() > 0,
        utf8_size(text@) <= i32::MAX,
    ensures
        r@.len() == mentions_ranges(mention_starts(text@, name@), utf8_size(name@) as int, bounds).len(),
        forall|k: int|
            0 <= k < r@.len() ==> (#[trigger] r@[k].0 as int, r@[k].1 as int) == mentions_ranges(
                mention_starts(text@, name@),
                utf8_size(name@) as int,
                bounds,
            )[k],
{
    let starts = match_indices(text, name);
    let len = byte_len(name);
    let ghost all = mention_starts(text@, name@);
    let ghost alen = utf8_size(name@) as int;
    let mut r: Vec<(i32, i32)> = Vec::new();
    let mut i: usize = 0;
    assert(all.take(0) =~= Seq::<int>::empty());
    while i < starts.len()
        invariant
            i <= starts@.len(),
            starts@.len() == all.len(),
            all == mention_starts(text@, name@),
            alen == utf8_size(name@),
            len == alen,
            alen > 0,
            utf8_size(text@) <= i32::MAX,
            forall|k: int| 0 <= k < starts@.len() ==> #[trigger] starts@[k] == all[k] && starts@[k] + alen <= utf8_size(text@),
            r@.len() == mentions_ranges(all.take(i as int), alen, bounds).len(),
            forall|k: int|
                0 <= k < r@.len() ==> (#[trigger] r@[k].0 as int, r@[k].1 as int) == mentions_ranges(
                    all.take(i as int),
                    alen,
                    bounds,
                )[k],
        decreases starts@.len() - i,
    {
        let ghost prev = r@;
        proof {
            assert(all.take(i + 1 as int).drop_last() =~= all.take(i as int));
            assert(all.take(i + 1 as int).last() == all[i as int]);
        }
        let start = starts[i] as i32;
        let end = (starts[i] + len) as i32;
        assert(start as int == all[i as int] && end as int == all[i as int] + alen);
        let ghost add = mention_ranges(start as int, end as int, bounds);
        match bounds {
            None => {
                r.push((start, end));
            },
            Some((bs, be)) => {
                if in_span(start, end, bs) && in_span(start, end, be) {
                    r.push((be, end));
                    r.push((start, bs));
                } else {
                    let s1 = if in_span(bs, be, start) {
                        be
                    } else {
                        start
                    };
                    let e1 = if in_span(bs, be, end - 1) {
                        bs
                    } else {
                        end
                    };
                    r.push((s1, e1));
                }
            },
        }
        proof {
            let m = mentions_ranges(all.take(i + 1 as int), alen, bounds);
            assert(m =~= mentions_ranges(all.take(i as int), alen, bounds) + add);
            assert forall|k: int| 0 <= k < r@.len() implies (#[trigger] r@[k].0 as int, r@[k].1 as int) == m[k] by {
                if k < prev.len() {
                    assert(r@[k] == prev[k]);
                }
            }
        }
        i = i + 1;
    }
    assert(all.take(starts@.len() as int) =~= all);
    r
}

/// Whether a position lies in a range, wrapping around when the range ends
/// before it starts.
fn in_span(start: i32, end: i32, x: i32) -> (r: bool)
    ensures
        r == in_range(start as int, end as int, x as int),
{
    if start <= end {
        start <= x && end > x
    } else {
        start <= x || end > x
    }
}

/// The ranges of a message's text coloured as mentions of the user's name,
/// in any case: those of `username_highlights` on the lowercase name and
/// text. Nothing is coloured (`None`) when the lowercase name is empty, for
/// which the search would not end, or when the lowercase text is too long
/// for the label's `i32` positions.
pub fn highlight_username(name: &str, text: &str, bounds: Option<(i32, i32)>) -> (r: Option<Vec<(i32, i32)>>)
    ensures
        r is None <==> (lowercase_of(name@).len() == 0 || utf8_size(lowercase_of(text@)) > i32::MAX),
        r matches Some(v) ==> v@.len() == mentions_ranges(
            mention_starts(lowercase_of(text@), lowercase_of(name@)),
            utf8_size(lowercase_of(name@)) as int,
            bounds,
        ).len() && forall|k: int|
            0 <= k < v@.len() ==> (#[trigger] v@[k].0 as int, v@[k].1 as int) == mentions_ranges(
                mention_starts(lowercase_of(text@), lowercase_of(name@)),
                utf8_size(lowercase_of(name@)) as int,
                bounds,
            )[k],
{
    let name = to_lowercase(name);
    let text = to_lowercase(text);
    if name.as_str().is_empty() {
        return None;
    }
    if byte_len(text.as_str()) > i32::MAX as usize {
        return None;
    }
    Some(username_highlights(name.as_str(), text.as_str(), bounds))
}
/// The decimal digits of a number.
pub open spec fn decimal(n: nat) -> Seq<char>
    decreases n,
{
    if n < 10 {
        seq![(n + 48) as char]
    } else {
        decimal(n / 10) + seq![((n % 10) + 48) as char]
    }
}

/// The decimal digits of a number.
fn decimal_text(n: usize) -> (r: String)
    ensures
        r@ == decimal(n as nat),
    decreases n,
{
    let d = (n % 10) as u32;
    let c = match d {
        0 => '0',
        1 => '1',
        2 => '2',
        3 => '3',
        4 => '4',
        5 => '5',
        6 => '6',
        7 => '7',
        8 => '8',
        _ => '9',
    };
    assert(c == ((n % 10) + 48) as char);
    if n < 10 {
        let mut s = String::new();
        crate::text::push_char(&mut s, c);
        assert(s@ =~= decimal(n as nat));
        s
    } else {
        let mut s = decimal_text(n / 10);
        crate::text::push_char(&mut s, c);
        assert(s@ =~= decimal(n as nat));
        s
    }
}

/// The items of a bulleted list, each after ` • `, one per line.
pub open spec fn ulist_text(items: Seq<Seq<char>>) -> Seq<char> {
    join_lines(items.map_values(|li: Seq<char>| " • "@ + li))
}

/// The items of a numbered list, each after a space, its number from 1
/// and `. `, one per line.
pub open spec fn olist_text(items: Seq<Seq<char>>) -> Seq<char> {
    join_lines(items.map(|i: int, li: Seq<char>| " "@ + decimal((i + 1) as nat) + ". "@ + li))
}

/// The markup of a bulleted list of an HTML message.
pub fn ulist_markup(items: &Vec<String>) -> (r: String)
    ensures
        r@ == ulist_text(items.deep_view()),
{
    let mut lines: Vec<String> = Vec::new();
    let mut i: usize = 0;
    while i < items.len()
        invariant
            i <= items@.len(),
            lines@.len() == i,
            lines.deep_view() == items.deep_view().take(i as int).map_values(|li: Seq<char>| " • "@ + li),
        decreases items@.len() - i,
    {
        let mut l = " • ".to_owned();
        l.append(items[i].as_str());
        let ghost prev = lines.deep_view();
        lines.push(l);
        proof {
            let want = items.deep_view().take(i + 1 as int).map_values(|li: Seq<char>| " • "@ + li);
            assert(want[i as int] == " • "@ + items@[i as int]@);
            assert forall|k: int| 0 <= k < i + 1 implies #[trigger] lines.deep_view()[k] == want[k] by {
                if k < i {
                    assert(lines.deep_view()[k] == prev[k]);
                }
            }
        }
        assert(lines.deep_view() =~= items.deep_view().take(i + 1 as int).map_values(
            |li: Seq<char>| " • "@ + li,
        ));
        i = i + 1;
    }
    assert(items.deep_view().take(items@.len() as int) =~= items.deep_view());
    join(&lines)
}

/// The markup of a numbered list of an HTML message.
pub fn olist_markup(items: &Vec<String>) -> (r: String)
    ensures
        r@ == olist_text(items.deep_view()),
{
    let mut lines: Vec<String> = Vec::new();
    let mut i: usize = 0;
    while i < items.len()
        invariant
            i <= items@.len(),
            lines@.len() == i,
            lines.deep_view() == items.deep_view().take(i as int).map(
                |j: int, li: Seq<char>| " "@ + decimal((j + 1) as nat) + ". "@ + li,
            ),
        decreases items@.len() - i,
    {
        let mut l = " ".to_owned();
        let num = decimal_text(i + 1);
        l.append(num.as_str());
        l.append(". ");
        l.append(items[i].as_str());
        let ghost prev = lines.deep_view();
        lines.push(l);
        proof {
            let want = items.deep_view().take(i + 1 as int).map(
                |j: int, li: Seq<char>| " "@ + decimal((j + 1) as nat) + ". "@ + li,
            );
            assert(want[i as int] == " "@ + decimal((i + 1) as nat) + ". "@ + items@[i as int]@);
            assert forall|k: int| 0 <= k < i + 1 implies #[trigger] lines.deep_view()[k] == want[k] by {
                if k < i {
                    assert(lines.deep_view()[k] == prev[k]);
                }
            }
        }
        assert(lines.deep_view() =~= items.deep_view().take(i + 1 as int).map(
            |j: int, li: Seq<char>| " "@ + decimal((j + 1) as nat) + ". "@ + li,
        ));
        i = i + 1;
    }
    assert(items.deep_view().take(items@.len() as int) =~= items.deep_view());
    join(&lines)
}

} // verus!
