//! Colours written as CSS hex codes: reading `#rrggbb` and writing each
//! channel in lower-case hex without leading zeros.
use crate::error::AppError;
use vstd::prelude::*;
use vstd::string::*;

verus! {

/// The value of an ASCII hex digit, in either case.
pub open spec fn hex_value(c: u8) -> Option<nat> {
    if 48 <= c <= 57 {
        Some((c - 48) as nat)
    } else if 97 <= c <= 102 {
        Some((c - 87) as nat)
    } else if 65 <= c <= 70 {
        Some((c - 55) as nat)
    } else {
        None
    }
}

/// What `u8::from_str_radix(.., 16)` gives for the two bytes at `i` and
/// `i + 1`: two hex digits, or a plus sign and one hex digit.
pub open spec fn pair_value(b: Seq<u8>, i: int) -> Option<u8> {
    if b[i] == 43 {
        match hex_value(b[i + 1]) {
            Some(d) => Some(d as u8),
            None => None,
        }
    } else {
        match (hex_value(b[i]), hex_value(b[i + 1])) {
            (Some(h), Some(l)) => Some((16 * h + l) as u8),
            _ => None,
        }
    }
}

/// Whether byte `c` continues a multi-byte UTF-8 character, so that no
/// character starts at it.
pub open spec fn is_continuation(c: u8) -> bool {
    128 <= c < 192
}

/// The inputs on which reading a colour would cut a character in two:
/// seven bytes starting with `#` where the red pair ends, or the green pair
/// ends once red was read, inside a character.
pub open spec fn parse_cuts_char(b: Seq<u8>) -> bool {
    &&& b.len() == 7
    &&& b[0] == 35
    &&& (is_continuation(b[3]) || (pair_value(b, 1) is Some && is_continuation(b[5])))
}

/// The colour that `b` spells, if it does.
pub open spec fn parse_color(b: Seq<u8>) -> Option<Color> {
    if b.len() == 7 && b[0] == 35 {
        match (pair_value(b, 1), pair_value(b, 3), pair_value(b, 5)) {
            (Some(r), Some(g), Some(bl)) => Some(Color::RGB(r, g, bl)),
            _ => None,
        }
    } else {
        None
    }
}

/// The lower-case hex digit for `d < 16`.
pub open spec fn hex_char(d: nat) -> char {
    if d < 10 {
        (48 + d) as char
    } else {
        (87 + d) as char
    }
}

/// `v` in lower-case hex without leading zeros, as `{:x}` writes it.
pub open spec fn hex_text(v: u8) -> Seq<char> {
    if v < 16 {
        seq![hex_char(v as nat)]
    } else {
        seq![hex_char((v / 16) as nat), hex_char((v % 16) as nat)]
    }
}

/// A colour by its red, green and blue channels.
#[derive(Debug, Clone, Copy, PartialEq, Eq, Structural)]
pub enum Color {
    RGB(u8, u8, u8),
}

/// The text of a colour: `#`, then each channel as `hex_text` writes it.
pub open spec fn color_text(c: Color) -> Seq<char> {
    match c {
        Color::RGB(r, g, b) => seq!['#'] + hex_text(r) + hex_text(g) + hex_text(b),
    }
}

fn hex_digit(d: u8) -> (r: &'static str)
    requires
        d < 16,
    ensures
        r@ == seq![hex_char(d as nat)],
{
    proof {
        reveal_strlit("0");
        reveal_strlit("1");
        reveal_strlit("2");
        reveal_strlit("3");
        reveal_strlit("4");
        reveal_strlit("5");
        reveal_strlit("6");
        reveal_strlit("7");
        reveal_strlit("8");
        reveal_strlit("9");
        reveal_strlit("a");
        reveal_strlit("b");
        reveal_strlit("c");
        reveal_strlit("d");
        reveal_strlit("e");
        reveal_strlit("f");
    }
    match d {
        0 => "0",
        1 => "1",
        2 => "2",
        3 => "3",
        4 => "4",
        5 => "5",
        6 => "6",
        7 => "7",
        8 => "8",
        9 => "9",
        10 => "a",
        11 => "b",
        12 => "c",
        13 => "d",
        14 => "e",
        _ => "f",
    }
}

/// Appends `v` to `s` in lower-case hex without leading zeros.
pub fn push_hex(s: &mut String, v: u8)
    ensures
        final(s)@ == old(s)@ + hex_text(v),
{
    if v < 16 {
        s.append(hex_digit(v));
    } else {
        s.append(hex_digit(v / 16));
        s.append(hex_digit(v % 16));
    }
}

fn hex_value_exec(c: u8) -> (r: Option<u8>)
    ensures
        match hex_value(c) {
            Some(d) => r == Some(d as u8),
            None => r is None,
        },
{
    if 48 <= c && c <= 57 {
        Some(c - 48)
    } else if 97 <= c && c <= 102 {
        Some(c - 87)
    } else if 65 <= c && c <= 70 {
        Some(c - 55)
    } else {
        None
    }
}

fn pair_value_exec(b: &[u8], i: usize) -> (r: Option<u8>)
    requires
        i + 1 < b@.len(),
    ensures
        r == pair_value(b@, i as int),
{
    if b[i] == 43 {
        match hex_value_exec(b[i + 1]) {
            Some(d) => Some(d),
            None => None,
        }
    } else {
        match (hex_value_exec(b[i]), hex_value_exec(b[i + 1])) {
            (Some(h), Some(l)) => Some(16 * h + l),
            _ => None,
        }
    }
}

impl Default for Color {
    fn default() -> (r: Color)
        ensures
            r == Color::RGB(139, 233, 253),
    {
        Color::RGB(139, 233, 253)
    }
}

impl Color {
    /// Reads `#rrggbb`; each pair is what `u8::from_str_radix` accepts in
    /// base 16. Anything else is `InvalidColor`.
    pub fn try_from(value: &str) -> (r: Result<Color, AppError>)
        requires
            !parse_cuts_char(value.spec_bytes()),
        ensures
            match parse_color(value.spec_bytes()) {
                Some(c) => r == Ok::<Color, AppError>(c),
                None => r == Err::<Color, AppError>(AppError::InvalidColor),
            },
    {
        let b = value.as_bytes();
        if b.len() != 7 || b[0] != 35 {
            return Err(AppError::InvalidColor);
        }
        match (pair_value_exec(b, 1), pair_value_exec(b, 3), pair_value_exec(b, 5)) {
            (Some(r), Some(g), Some(bl)) => Ok(Color::RGB(r, g, bl)),
            _ => Err(AppError::InvalidColor),
        }
    }

    /// The colour as `#` and each channel in lower-case hex, without
    /// leading zeros.
    pub fn to_string(&self) -> (r: String)
        ensures
            r@ == color_text(*self),
    {
        let mut s = String::new();
        s.append("#");
        proof {
            reveal_strlit("#");
        }
        match self {
            Color::RGB(r, g, b) => {
                push_hex(&mut s, *r);
                push_hex(&mut s, *g);
                push_hex(&mut s, *b);
            },
        }
        s
    }
}

/// The style that paints a part of the page in the user's accent colour:
/// the CSS variable `--accent` set to the colour.
pub fn use_accent_prefs(accent: Color) -> (r: (&'static str, String))
    ensures
        r.0@ == "--accent"@,
        r.1@ == color_text(accent),
{
    ("--accent", accent.to_string())
}

} // verus!
