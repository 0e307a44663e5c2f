//! The time shown by the audio and video players.

use vstd::prelude::*;

verus! {

/// The two decimal digits of a number under 100.
pub open spec fn two_digits(n: nat) -> Seq<char> {
    seq![((n / 10) + 48) as char, ((n % 10) + 48) as char]
}

/// A duration as the players show it: `HH:MM:SS` from an hour on,
/// `MM:SS` under it, each field two digits.
pub open spec fn duration_text(seconds: nat) -> Seq<char> {
    if seconds >= 3600 {
        two_digits(seconds / 3600) + seq![':'] + two_digits((seconds % 3600) / 60) + seq![':']
            + two_digits(seconds % 60)
    } else {
        two_digits(seconds / 60) + seq![':'] + two_digits(seconds % 60)
    }
}

/// The two decimal digits of a number under 100.
fn push_two_digits(s: &mut String, n: u32)
    requires
        n < 100,
    ensures
        final(s)@ == old(s)@ + two_digits(n as nat),
{
    let tens = char_of_digit(n / 10);
    let ones = char_of_digit(n % 10);
    crate::text::push_char(s, tens);
    crate::text::push_char(s, ones);
    assert(final(s)@ =~= old(s)@ + two_digits(n as nat));
}

/// The character of a decimal digit.
fn char_of_digit(d: u32) -> (c: char)
    requires
        d < 10,
    ensures
        c == (d + 48) as char,
{
    match d {
        0 => '0',
        1 => '1',
        2 => '2',
        3 => '3',
        4 => '4',
        5 => '5',
        6 => '6',
        7 => '7',
        8 => '8',
        _ => '9',
    }
}

/// A duration in seconds as the players show it, for durations under a
/// day (chrono's `%T` and `%M:%S` of the time that many seconds after
/// midnight).
pub fn format_duration(seconds: u32) -> (r: String)
    requires
        seconds < 86400,
    ensures
        r@ == duration_text(seconds as nat),
{
    let mut s = String::new();
    if seconds >= 3600 {
        push_two_digits(&mut s, seconds / 3600);
        crate::text::push_char(&mut s, ':');
        push_two_digits(&mut s, (seconds % 3600) / 60);
        crate::text::push_char(&mut s, ':');
        push_two_digits(&mut s, seconds % 60);
    } else {
        push_two_digits(&mut s, seconds / 60);
        crate::text::push_char(&mut s, ':');
        push_two_digits(&mut s, seconds % 60);
    }
    assert(s@ =~= duration_text(seconds as nat));
    s
}

/// Integer division as Rust does it: the quotient rounded toward zero.
pub open spec fn trunc_div(a: int, b: int) -> int {
    let q = (if a < 0 { -a } else { a }) / (if b < 0 { -b } else { b });
    if (a < 0) != (b < 0) {
        -q
    } else {
        q
    }
}

/// The height a video is shown at in a given width, keeping its aspect
/// (in whole pixels, rounded toward zero).
pub fn adjusted_height(width: i32, video_width: i32, video_height: i32) -> (h: i32)
    requires
        video_width != 0,
        i32::MIN <= width * video_height <= i32::MAX,
        !(width * video_height == i32::MIN && video_width == -1),
    ensures
        h == trunc_div(width * video_height, video_width as int),
{
    let p = width * video_height;
    let a: i64 = if p < 0 {
        -(p as i64)
    } else {
        p as i64
    };
    let b: i64 = if video_width < 0 {
        -(video_width as i64)
    } else {
        video_width as i64
    };
    let q = a / b;
    proof {
        vstd::arithmetic::div_mod::lemma_div_is_ordered_by_denominator(a as int, 1, b as int);
        vstd::arithmetic::div_mod::lemma_div_basics(a as int);
        if b >= 2 {
            vstd::arithmetic::div_mod::lemma_div_is_ordered_by_denominator(a as int, 2, b as int);
        }
    }
    if (p < 0) != (video_width < 0) {
        (-q) as i32
    } else {
        q as i32
    }
}

} // verus!
