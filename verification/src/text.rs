//! Character-level string helpers used throughout the library.

use vstd::prelude::*;

verus! {

/// `String::push`: appends one character.
#[verifier::external_body]
pub(crate) fn push_char(s: &mut String, c: char)
    ensures
        final(s)@ == old(s)@.push(c),
{
    s.push(c)
}

/// Whether two string slices hold the same characters.
pub fn str_eq(a: &str, b: &str) -> (r: bool)
    ensures
        r == (a@ == b@),
{
    a.to_owned() == b.to_owned()
}

/// A copy of a list of strings.
pub fn clone_strings(v: &Vec<String>) -> (r: Vec<String>)
    ensures
        r.deep_view() == v.deep_view(),
{
    let mut r: Vec<String> = Vec::new();
    let mut i: usize = 0;
    while i < v.len()
        invariant
            i <= v.len(),
            r.deep_view() == v.deep_view().take(i as int),
        decreases v.len() - i,
    {
        let ghost prev = r.deep_view();
        let c = v[i].clone();
        r.push(c);
        assert(r.deep_view() =~= prev.push(v.deep_view()[i as int]));
        assert(r.deep_view() =~= v.deep_view().take(i + 1 as int));
        i = i + 1;
    }
    assert(v.deep_view().take(v.len() as int) =~= v.deep_view());
    r
}

/// Whether a list of strings holds `x`.
pub fn contains_str(v: &Vec<String>, x: &str) -> (r: bool)
    ensures
        r == v.deep_view().contains(x@),
{
    let mut i: usize = 0;
    while i < v.len()
        invariant
            i <= v.len(),
            forall|j: int| 0 <= j < i ==> v.deep_view()[j] != x@,
        decreases v.len() - i,
    {
        if str_eq(v[i].as_str(), x) {
            assert(v.deep_view()[i as int] == x@);
            return true;
        }
        i = i + 1;
    }
    false
}

/// The strings of a list other than `x`.
pub fn without_str(v: &Vec<String>, x: &str) -> (r: Vec<String>)
    ensures
        r.deep_view().to_set() == v.deep_view().to_set().remove(x@),
{
    let mut r: Vec<String> = Vec::new();
    let mut i: usize = 0;
    while i < v.len()
        invariant
            i <= v.len(),
            forall|y: Seq<char>| #[trigger] r.deep_view().contains(y) <==> (y != x@ && v.deep_view().take(i as int).contains(y)),
        decreases v.len() - i,
    {
        let ghost prev = r.deep_view();
        if !str_eq(v[i].as_str(), x) {
            let c = v[i].clone();
            r.push(c);
            assert(r.deep_view() =~= prev.push(v.deep_view()[i as int]));
        }
        proof {
            broadcast use vstd::seq_lib::lemma_seq_contains_after_push;

            assert(v.deep_view().take(i + 1 as int) =~= v.deep_view().take(i as int).push(
                v.deep_view()[i as int],
            ));
        }
        i = i + 1;
    }
    assert(v.deep_view().take(v.len() as int) =~= v.deep_view());
    assert(r.deep_view().to_set() =~= v.deep_view().to_set().remove(x@));
    r
}

/// The characters of a string slice, in order.
pub fn chars_of(s: &str) -> (v: Vec<char>)
    ensures
        v@ == s@,
{
    let mut v: Vec<char> = Vec::new();
    for c in it: s.chars()
        invariant
            v@ == it.seq().take(it.index() as int),
            it.seq() == s@,
    {
        v.push(c);
    }
    v
}

/// Builds a string from a sequence of characters.
pub fn string_of(v: &Vec<char>) -> (s: String)
    ensures
        s@ == v@,
{
    let mut s = String::new();
    let mut i: usize = 0;
    while i < v.len()
        invariant
            i <= v.len(),
            s@ == v@.take(i as int),
        decreases v.len() - i,
    {
        push_char(&mut s, v[i]);
        assert(v@.take(i as int).push(v@[i as int]) =~= v@.take(i + 1 as int));
        i = i + 1;
    }
    assert(v@.take(v.len() as int) =~= v@);
    s
}

/// `s` with every occurrence of the non-empty pattern `p` replaced by `r`,
/// occurrences taken from left to right without overlap.
pub open spec fn replace_all(s: Seq<char>, p: Seq<char>, r: Seq<char>) -> Seq<char>
    decreases s.len(),
{
    if s.len() == 0 {
        Seq::empty()
    } else if p.len() > 0 && s.len() >= p.len() && s.take(p.len() as int) == p {
        r + replace_all(s.skip(p.len() as int), p, r)
    } else {
        seq![s[0]] + replace_all(s.skip(1), p, r)
    }
}

/// Each character of `s` followed by `r`.
pub open spec fn follow_each(s: Seq<char>, r: Seq<char>) -> Seq<char>
    decreases s.len(),
{
    if s.len() == 0 {
        Seq::empty()
    } else {
        seq![s[0]] + r + follow_each(s.skip(1), r)
    }
}

/// What `str::replace` gives: every occurrence of `p` replaced by `r`; an
/// empty pattern matches before each character and at the end.
pub open spec fn str_replace(s: Seq<char>, p: Seq<char>, r: Seq<char>) -> Seq<char> {
    if p.len() == 0 {
        r + follow_each(s, r)
    } else {
        replace_all(s, p, r)
    }
}

/// Whether `p` occurs in `s` at position `i`.
fn occurs_at(s: &Vec<char>, p: &Vec<char>, i: usize) -> (b: bool)
    requires
        i <= s.len(),
    ensures
        b == (s@.len() - i >= p@.len() && s@.skip(i as int).take(p@.len() as int) == p@),
{
    if s.len() - i < p.len() {
        return false;
    }
    let mut j: usize = 0;
    while j < p.len()
        invariant
            j <= p.len(),
            s.len() - i >= p.len(),
            forall|k: int| 0 <= k < j ==> s@[i + k] == p@[k],
        decreases p.len() - j,
    {
        if s[i + j] != p[j] {
            assert(s@.skip(i as int).take(p@.len() as int)[j as int] != p@[j as int]);
            return false;
        }
        j = j + 1;
    }
    assert(s@.skip(i as int).take(p@.len() as int) =~= p@);
    true
}

/// Appends the characters of `r` to `out`.
fn push_all(out: &mut String, r: &Vec<char>)
    ensures
        final(out)@ == old(out)@ + r@,
{
    let mut j: usize = 0;
    while j < r.len()
        invariant
            j <= r.len(),
            out@ == old(out)@ + r@.take(j as int),
        decreases r.len() - j,
    {
        push_char(out, r[j]);
        assert(r@.take(j + 1 as int) =~= r@.take(j as int).push(r@[j as int]));
        j = j + 1;
    }
    assert(r@.take(r.len() as int) =~= r@);
}

/// `str::replace`: every occurrence of `pat` in `s` replaced by `rep`.
pub fn replace(s: &str, pat: &str, rep: &str) -> (out: String)
    ensures
        out@ == str_replace(s@, pat@, rep@),
{
    let sv = chars_of(s);
    let pv = chars_of(pat);
    let rv = chars_of(rep);
    let mut out = String::new();
    let mut i: usize = 0;
    if pv.len() == 0 {
        push_all(&mut out, &rv);
        assert(sv@.skip(0) =~= sv@);
        assert(out@ =~= rv@);
        while i < sv.len()
            invariant
                i <= sv.len(),
                out@ + follow_each(sv@.skip(i as int), rv@) == rv@ + follow_each(sv@, rv@),
            decreases sv.len() - i,
        {
            proof {
                assert(sv@.skip(i as int)[0] == sv@[i as int]);
                assert(sv@.skip(i as int).skip(1) =~= sv@.skip(i + 1 as int));
                assert(follow_each(sv@.skip(i as int), rv@) == seq![sv@[i as int]] + rv@ + follow_each(sv@.skip(i + 1 as int), rv@));
            }
            let ghost before = out@;
            push_char(&mut out, sv[i]);
            push_all(&mut out, &rv);
            assert(out@ + follow_each(sv@.skip(i + 1 as int), rv@) =~= before + (seq![sv@[i as int]] + rv@ + follow_each(sv@.skip(i + 1 as int), rv@)));
            i = i + 1;
        }
        assert(sv@.skip(0) =~= sv@);
        assert(follow_each(sv@.skip(sv.len() as int), rv@) == Seq::<char>::empty());
        assert(out@ =~= rv@ + follow_each(sv@, rv@));
        return out;
    }
    assert(sv@.skip(0) =~= sv@);
    while i < sv.len()
        invariant
            i <= sv.len(),
            pv@.len() > 0,
            out@ + replace_all(sv@.skip(i as int), pv@, rv@) == replace_all(sv@, pv@, rv@),
        decreases sv.len() - i,
    {
        let ghost before = out@;
        let ghost rest = sv@.skip(i as int);
        if occurs_at(&sv, &pv, i) {
            proof {
                assert(rest.skip(pv@.len() as int) =~= sv@.skip(i + pv@.len()));
            }
            push_all(&mut out, &rv);
            assert(out@ + replace_all(sv@.skip(i + pv.len()), pv@, rv@) =~= before + (rv@ + replace_all(rest.skip(pv@.len() as int), pv@, rv@)));
            i = i + pv.len();
        } else {
            proof {
                assert(rest[0] == sv@[i as int]);
                assert(rest.skip(1) =~= sv@.skip(i + 1 as int));
            }
            push_char(&mut out, sv[i]);
            assert(out@ + replace_all(sv@.skip(i + 1 as int), pv@, rv@) =~= before + (seq![rest[0]] + replace_all(rest.skip(1), pv@, rv@)));
            i = i + 1;
        }
    }
    assert(replace_all(sv@.skip(sv.len() as int), pv@, rv@) == Seq::<char>::empty());
    assert(out@ =~= replace_all(sv@, pv@, rv@));
    out
}

/// Whether `s` begins with `p`.
pub open spec fn starts_with(s: Seq<char>, p: Seq<char>) -> bool {
    p.len() <= s.len() && s.take(p.len() as int) == p
}

/// Whether `p` occurs in `s` at position `i`.
pub open spec fn occurs(s: Seq<char>, p: Seq<char>, i: int) -> bool {
    0 <= i && i + p.len() <= s.len() && s.subrange(i, i + p.len()) == p
}

/// Whether `p` occurs somewhere in `s`.
pub open spec fn contains_seq(s: Seq<char>, p: Seq<char>) -> bool {
    exists|i: int| #[trigger] occurs(s, p, i)
}

/// Whether `s` begins with `p`.
pub fn str_starts_with(s: &str, p: &str) -> (r: bool)
    ensures
        r == starts_with(s@, p@),
{
    let sv = chars_of(s);
    let pv = chars_of(p);
    let r = occurs_at(&sv, &pv, 0);
    assert(sv@.skip(0) =~= sv@);
    r
}

/// Whether `p` occurs in `s` at position `i`, over character vectors.
fn occurs_at_pos(s: &Vec<char>, p: &Vec<char>, i: usize) -> (b: bool)
    requires
        i <= s.len(),
    ensures
        b == occurs(s@, p@, i as int),
{
    let b = occurs_at(s, p, i);
    proof {
        if i + p@.len() <= s@.len() {
            assert(s@.skip(i as int).take(p@.len() as int) =~= s@.subrange(i as int, i + p@.len()));
        }
    }
    b
}

/// Whether `p` occurs somewhere in `s`.
pub fn str_contains(s: &str, p: &str) -> (r: bool)
    ensures
        r == contains_seq(s@, p@),
{
    let sv = chars_of(s);
    let pv = chars_of(p);
    let mut i: usize = 0;
    while i < sv.len()
        invariant
            i <= sv.len(),
            sv@ == s@,
            pv@ == p@,
            forall|j: int| 0 <= j < i ==> !occurs(sv@, pv@, j),
        decreases sv.len() - i,
    {
        if occurs_at_pos(&sv, &pv, i) {
            assert(occurs(s@, p@, i as int));
            return true;
        }
        i = i + 1;
    }
    if occurs_at_pos(&sv, &pv, i) {
        assert(occurs(s@, p@, i as int));
        return true;
    }
    proof {
        if contains_seq(sv@, pv@) {
            let j = choose|j: int| occurs(sv@, pv@, j);
            assert(j <= sv.len());
        }
    }
    false
}

/// The characters `char::is_whitespace` accepts: those of Unicode's
/// `White_Space` property.
pub open spec fn is_white(c: char) -> bool {
    ('\u{9}' <= c && c <= '\u{d}') || c == ' ' || c == '\u{85}' || c == '\u{a0}' || c == '\u{1680}' || (
    '\u{2000}' <= c && c <= '\u{200a}') || c == '\u{2028}' || c == '\u{2029}' || c == '\u{202f}'
        || c == '\u{205f}' || c == '\u{3000}'
}

/// `char::is_whitespace`.
pub fn is_whitespace(c: char) -> (r: bool)
    ensures
        r == is_white(c),
{
    ('\u{9}' <= c && c <= '\u{d}') || c == ' ' || c == '\u{85}' || c == '\u{a0}' || c == '\u{1680}' || (
    '\u{2000}' <= c && c <= '\u{200a}') || c == '\u{2028}' || c == '\u{2029}' || c == '\u{202f}'
        || c == '\u{205f}' || c == '\u{3000}'
}

/// The number of leading whitespace characters of `s`.
pub open spec fn leading_white(s: Seq<char>) -> nat
    decreases s.len(),
{
    if s.len() > 0 && is_white(s[0]) {
        1 + leading_white(s.skip(1))
    } else {
        0
    }
}

/// `s` without its leading whitespace (`str::trim_start`).
pub open spec fn trim_start_seq(s: Seq<char>) -> Seq<char> {
    s.skip(leading_white(s) as int)
}

/// The number of leading whitespace characters of `s[i..]`.
fn count_leading_white(s: &Vec<char>, i: usize) -> (n: usize)
    requires
        i <= s.len(),
    ensures
        n == leading_white(s@.skip(i as int)),
        i + n <= s.len(),
{
    let mut j: usize = i;
    while j < s.len() && is_whitespace(s[j])
        invariant
            i <= j <= s.len(),
            leading_white(s@.skip(i as int)) == (j - i) + leading_white(s@.skip(j as int)),
        decreases s.len() - j,
    {
        proof {
            assert(s@.skip(j as int)[0] == s@[j as int]);
            assert(s@.skip(j as int).skip(1) =~= s@.skip(j + 1 as int));
        }
        j = j + 1;
    }
    proof {
        if j < s.len() {
            assert(s@.skip(j as int)[0] == s@[j as int]);
        }
    }
    assert(s@.skip(i as int) =~= s@.skip(i as int));
    j - i
}

/// Builds a string from the characters `v[a..b]`.
pub fn string_of_range(v: &Vec<char>, a: usize, b: usize) -> (s: String)
    requires
        a <= b <= v.len(),
    ensures
        s@ == v@.subrange(a as int, b as int),
{
    let mut s = String::new();
    let mut i: usize = a;
    while i < b
        invariant
            a <= i <= b <= v.len(),
            s@ == v@.subrange(a as int, i as int),
        decreases b - i,
    {
        push_char(&mut s, v[i]);
        assert(v@.subrange(a as int, i + 1 as int) =~= v@.subrange(a as int, i as int).push(v@[i as int]));
        i = i + 1;
    }
    s
}

/// `str::trim_start`: `s` without its leading whitespace.
pub fn trim_start(s: &str) -> (r: String)
    ensures
        r@ == trim_start_seq(s@),
{
    let v = chars_of(s);
    assert(v@.skip(0) =~= v@);
    let n = count_leading_white(&v, 0);
    let r = string_of_range(&v, n, v.len());
    assert(v@.subrange(n as int, v@.len() as int) =~= v@.skip(n as int));
    r
}

/// The number of bytes of a character in UTF-8.
pub open spec fn utf8_len(c: char) -> nat {
    if (c as u32) < 0x80 {
        1
    } else if (c as u32) < 0x800 {
        2
    } else if (c as u32) < 0x10000 {
        3
    } else {
        4
    }
}

/// The number of bytes of a sequence of characters in UTF-8.
pub open spec fn utf8_size(s: Seq<char>) -> nat
    decreases s.len(),
{
    if s.len() == 0 {
        0
    } else {
        utf8_size(s.drop_last()) + utf8_len(s.last())
    }
}

/// The number of bytes of a character in UTF-8.
pub fn char_utf8_len(c: char) -> (n: usize)
    ensures
        n == utf8_len(c),
{
    if (c as u32) < 0x80 {
        1
    } else if (c as u32) < 0x800 {
        2
    } else if (c as u32) < 0x10000 {
        3
    } else {
        4
    }
}

/// A prefix is no larger in UTF-8 than a longer prefix.
pub proof fn lemma_utf8_size_prefix_mono(s: Seq<char>, i: int, j: int)
    requires
        0 <= i <= j <= s.len(),
    ensures
        utf8_size(s.take(i)) <= utf8_size(s.take(j)),
    decreases j - i,
{
    if i < j {
        assert(s.take(j).drop_last() =~= s.take(j - 1));
        lemma_utf8_size_prefix_mono(s, i, j - 1);
    }
}

/// A longer prefix is larger in UTF-8: every character takes a byte or
/// more.
pub proof fn lemma_utf8_size_prefix_strict(s: Seq<char>, i: int, j: int)
    requires
        0 <= i < j <= s.len(),
    ensures
        utf8_size(s.take(i)) < utf8_size(s.take(j)),
    decreases j - i,
{
    assert(s.take(j).drop_last() =~= s.take(j - 1));
    if i < j - 1 {
        lemma_utf8_size_prefix_strict(s, i, j - 1);
    }
}


/// The size in UTF-8 of a sequence is that of its first character and of
/// the rest.
pub proof fn lemma_utf8_size_first(s: Seq<char>)
    requires
        s.len() > 0,
    ensures
        utf8_size(s) == utf8_len(s[0]) + utf8_size(s.drop_first()),
    decreases s.len(),
{
    if s.len() > 1 {
        lemma_utf8_size_first(s.drop_last());
        assert(s.drop_last().drop_first() =~= s.drop_first().drop_last());
        assert(s.drop_first().last() == s.last());
        assert(s.drop_last()[0] == s[0]);
        assert(utf8_size(s) == utf8_size(s.drop_last()) + utf8_len(s.last()));
        assert(utf8_size(s.drop_first()) == utf8_size(s.drop_first().drop_last()) + utf8_len(
            s.drop_first().last(),
        ));
    } else {
        assert(s.drop_first().len() == 0);
        assert(s.drop_last().len() == 0);
        assert(s.last() == s[0]);
        assert(utf8_size(s.drop_last()) == 0);
        assert(utf8_size(s.drop_first()) == 0);
        assert(utf8_size(s) == utf8_size(s.drop_last()) + utf8_len(s.last()));
    }
}

/// The size in UTF-8 of two sequences one after the other is the sum of
/// their sizes.
pub proof fn lemma_utf8_size_concat(a: Seq<char>, b: Seq<char>)
    ensures
        utf8_size(a + b) == utf8_size(a) + utf8_size(b),
    decreases b.len(),
{
    if b.len() == 0 {
        assert(a + b =~= a);
    } else {
        lemma_utf8_size_concat(a, b.drop_last());
        assert((a + b).drop_last() =~= a + b.drop_last());
        assert((a + b).last() == b.last());
    }
}

/// A sequence takes at least a byte per character in UTF-8.
pub proof fn lemma_utf8_size_at_least_len(s: Seq<char>)
    ensures
        s.len() <= utf8_size(s),
    decreases s.len(),
{
    if s.len() > 0 {
        lemma_utf8_size_at_least_len(s.drop_last());
    }
}

/// `utf8_size` counts the bytes of vstd's UTF-8 encoding.
proof fn lemma_utf8_size_encoding(s: Seq<char>)
    ensures
        vstd::utf8::encode_utf8(s).len() == utf8_size(s),
    decreases s.len(),
{
    if s.len() > 0 {
        lemma_utf8_size_encoding(s.drop_first());
        lemma_utf8_size_first(s);
        let c = s[0];
        vstd::utf8::char_is_scalar(c);
        assert(vstd::utf8::encode_scalar(c as u32).len() == utf8_len(c));
    }
}

/// The number of bytes of a text in UTF-8 (`str::len`).
pub fn byte_len(s: &str) -> (n: usize)
    ensures
        n == utf8_size(s@),
{
    let b = s.as_bytes();
    proof {
        lemma_utf8_size_encoding(s@);
    }
    b.len()
}

/// The UTF-8 size of a prefix of a vector of characters, counted on from
/// that of a shorter prefix.
fn bytes_upto(s: &Vec<char>, i: usize, b: usize, j: usize) -> (c: usize)
    requires
        i <= j <= s@.len(),
        b == utf8_size(s@.take(i as int)),
        utf8_size(s@) <= usize::MAX,
    ensures
        c == utf8_size(s@.take(j as int)),
{
    let mut k = i;
    let mut c = b;
    while k < j
        invariant
            i <= k <= j <= s@.len(),
            c == utf8_size(s@.take(k as int)),
            utf8_size(s@) <= usize::MAX,
        decreases j - k,
    {
        proof {
            assert(s@.take(k + 1 as int).drop_last() =~= s@.take(k as int));
            assert(s@.take(k + 1 as int).last() == s@[k as int]);
            lemma_utf8_size_prefix_mono(s@, k + 1 as int, s@.len() as int);
            assert(s@.take(s@.len() as int) =~= s@);
        }
        c = c + char_utf8_len(s[k]);
        k = k + 1;
    }
    c
}

/// Where `p` occurs in `s` from position `i` on, as `str::match_indices`
/// finds it: left to right, each search starting where the last match
/// ended (an empty pattern matches at every position, the end included).
/// Positions count characters.
pub open spec fn match_positions(s: Seq<char>, p: Seq<char>, i: int) -> Seq<int>
    decreases s.len() + 1 - i,
{
    if i < 0 || i > s.len() {
        Seq::empty()
    } else if occurs(s, p, i) {
        seq![i] + match_positions(
            s,
            p,
            i + if p.len() == 0 {
                1
            } else {
                p.len() as int
            },
        )
    } else {
        match_positions(s, p, i + 1)
    }
}

/// The byte offsets at which `p` occurs in `s`, as `str::match_indices`
/// gives them.
pub fn match_indices(s: &str, p: &str) -> (r: Vec<usize>)
    ensures
        r@.len() == match_positions(s@, p@, 0).len(),
        forall|k: int|
            0 <= k < r@.len() ==> #[trigger] r@[k] == utf8_size(s@.take(match_positions(s@, p@, 0)[k]))
                && r@[k] + utf8_size(p@) <= utf8_size(s@),
{
    let n = byte_len(s);
    let sv = chars_of(s);
    proof {
        lemma_utf8_size_at_least_len(s@);
    }
    let pv = chars_of(p);
    let step = if pv.len() == 0 {
        1
    } else {
        pv.len()
    };
    let mut r: Vec<usize> = Vec::new();
    let ghost mut done: Seq<int> = Seq::empty();
    let mut i: usize = 0;
    let mut b: usize = 0;
    let mut finished = false;
    assert(s@.take(0) =~= Seq::<char>::empty());
    assert(match_positions(s@, p@, 0) =~= done + match_positions(s@, p@, 0));
    while !finished
        invariant
            i <= sv@.len(),
            sv@ == s@,
            pv@ == p@,
            n == utf8_size(s@),
            step == (if p@.len() == 0 { 1 } else { p@.len() }),
            b == utf8_size(s@.take(i as int)),
            match_positions(s@, p@, 0) == done + (if finished {
                Seq::empty()
            } else {
                match_positions(s@, p@, i as int)
            }),
            r@.len() == done.len(),
            forall|k: int|
                0 <= k < r@.len() ==> #[trigger] r@[k] == utf8_size(s@.take(done[k])) && r@[k] + utf8_size(p@)
                    <= utf8_size(s@),
        decreases sv@.len() - i + (if finished { 0int } else { 1int }),
    {
        if occurs_at_pos(&sv, &pv, i) {
            proof {
                assert(s@.take(i + p@.len()) =~= s@.take(i as int) + p@);
                lemma_utf8_size_concat(s@.take(i as int), p@);
                lemma_utf8_size_prefix_mono(s@, i + p@.len(), s@.len() as int);
                assert(s@.take(s@.len() as int) =~= s@);
                assert(match_positions(s@, p@, i as int) == seq![i as int] + match_positions(s@, p@, i + step));
                assert(done.push(i as int) + match_positions(s@, p@, i + step) =~= done + (seq![i as int]
                    + match_positions(s@, p@, i + step)));
            }
            r.push(b);
            proof {
                done = done.push(i as int);
            }
            if step <= sv.len() - i {
                b = bytes_upto(&sv, i, b, i + step);
                i = i + step;
            } else {
                assert(done + match_positions(s@, p@, i + step) =~= done + Seq::<int>::empty());
                finished = true;
            }
        } else {
            if i < sv.len() {
                b = bytes_upto(&sv, i, b, i + 1);
                i = i + 1;
            } else {
                assert(match_positions(s@, p@, i + 1) =~= Seq::<int>::empty());
                finished = true;
            }
        }
    }
    assert(done + Seq::<int>::empty() =~= done);
    r
}

/// The number of trailing whitespace characters of `s`.
pub open spec fn trailing_white(s: Seq<char>) -> nat
    decreases s.len(),
{
    if s.len() > 0 && is_white(s.last()) {
        1 + trailing_white(s.drop_last())
    } else {
        0
    }
}

/// `s` without its leading and trailing whitespace (`str::trim`).
pub open spec fn trim_seq(s: Seq<char>) -> Seq<char> {
    let t = trim_start_seq(s);
    t.take(t.len() - trailing_white(t))
}

/// `s` without its leading and trailing whitespace.
pub fn trim(s: &str) -> (r: String)
    ensures
        r@ == trim_seq(s@),
{
    let v = chars_of(s);
    assert(v@.skip(0) =~= v@);
    let a = count_leading_white(&v, 0);
    let ghost t = v@.skip(a as int);
    let mut b: usize = v.len();
    assert(t.take(t.len() as int) =~= t);
    while b > a && is_whitespace(v[b - 1])
        invariant
            a <= b <= v@.len(),
            t == v@.skip(a as int),
            trailing_white(t) == (v@.len() - b) + trailing_white(t.take(b - a)),
        decreases b,
    {
        proof {
            let u = t.take(b - a);
            assert(u.last() == v@[b - 1]);
            assert(u.drop_last() =~= t.take(b - 1 - a));
        }
        b = b - 1;
    }
    proof {
        if b > a {
            assert(t.take(b - a).last() == v@[b - 1]);
        }
        assert(t.take(b - a).len() == b - a);
        assert(v@.subrange(a as int, b as int) =~= t.take(t.len() - trailing_white(t)));
    }
    string_of_range(&v, a, b)
}
} // verus!
