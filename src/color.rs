//! Readable foreground colour for a category's background colour.

use vstd::prelude::*;

verus! {

/// The foreground chosen for light backgrounds.
pub const BLACK_TEXT: &'static str = "#000000";

/// The foreground chosen for dark and middle backgrounds.
pub const WHITE_TEXT: &'static str = "#FFFFFF";

pub open spec fn is_hex_digit(c: char) -> bool {
    ('0' <= c && c <= '9') || ('a' <= c && c <= 'f') || ('A' <= c && c <= 'F')
}

pub open spec fn hex_digit_value(c: char) -> int {
    if '0' <= c && c <= '9' {
        c as int - '0' as int
    } else if 'a' <= c && c <= 'f' {
        c as int - 'a' as int + 10
    } else if 'A' <= c && c <= 'F' {
        c as int - 'A' as int + 10
    } else {
        0
    }
}

/// The colour digits, with one optional leading `#` removed.
pub open spec fn color_digits(s: Seq<char>) -> Seq<char> {
    if s.len() > 0 && s[0] == '#' {
        s.drop_first()
    } else {
        s
    }
}

/// The byte written by the two characters at `i` and `i + 1`; an invalid pair reads as 0.
pub open spec fn channel_value(h: Seq<char>, i: int) -> int {
    if is_hex_digit(h[i]) && is_hex_digit(h[i + 1]) {
        16 * hex_digit_value(h[i]) + hex_digit_value(h[i + 1])
    } else {
        0
    }
}

/// Perceived brightness of six colour digits, truncated towards zero.
pub open spec fn brightness(h: Seq<char>) -> int {
    (299 * channel_value(h, 0) + 587 * channel_value(h, 2) + 114 * channel_value(h, 4)) / 1000
}

/// Whether black text is the readable choice on the background `s`:
/// malformed colours and light backgrounds (brightness above 150) get black text.
pub open spec fn wants_black_text(s: Seq<char>) -> bool {
    let h = color_digits(s);
    h.len() != 6 || brightness(h) > 150
}

fn hex_value(c: char) -> (r: Option<u32>)
    ensures
        r is Some <==> is_hex_digit(c),
        r is Some ==> r->0 as int == hex_digit_value(c) && r->0 < 16,
{
    if '0' <= c && c <= '9' {
        Some((c as u32) - ('0' as u32))
    } else if 'a' <= c && c <= 'f' {
        Some((c as u32) - ('a' as u32) + 10)
    } else if 'A' <= c && c <= 'F' {
        Some((c as u32) - ('A' as u32) + 10)
    } else {
        None
    }
}

fn channel(s: &str, i: usize) -> (r: u32)
    requires
        s@.len() == 6,
        i <= 4,
    ensures
        r as int == channel_value(s@, i as int),
        r < 256,
{
    let hi = hex_value(s.get_char(i));
    let lo = hex_value(s.get_char(i + 1));
    match (hi, lo) {
        (Some(h), Some(l)) => 16 * h + l,
        _ => 0,
    }
}

/// Returns `#000000` or `#FFFFFF`, whichever reads better on the background colour `hex_color`.
pub fn get_text_color_for_bg(hex_color: &str) -> (r: String)
    ensures
        r@ == text_color_of(hex_color@),
{
    let n = hex_color.unicode_len();
    let digits: &str = if n > 0 && hex_color.get_char(0) == '#' {
        hex_color.substring_char(1, n)
    } else {
        hex_color
    };
    assert(digits@ == color_digits(hex_color@));
    if digits.unicode_len() != 6 {
        return String::from_str(BLACK_TEXT);
    }
    let r = channel(digits, 0);
    let g = channel(digits, 2);
    let b = channel(digits, 4);
    let level = (r * 299 + g * 587 + b * 114) / 1000;
    if level > 150 {
        String::from_str(BLACK_TEXT)
    } else {
        String::from_str(WHITE_TEXT)
    }
}

} // verus!

verus! {

/// The text colour chosen for the background `s`.
pub open spec fn text_color_of(s: Seq<char>) -> Seq<char> {
    if wants_black_text(s) {
        BLACK_TEXT@
    } else {
        WHITE_TEXT@
    }
}

} // verus!
