//! The account icon: a colour drawn from the first letter of the user name.
use crate::color::hex_char;
use rand::{Rng, SeedableRng};
use vstd::prelude::*;
use vstd::string::*;

verus! {

/// Three hex digits from 6 to f, drawn from a generator seeded with the
/// letter's code point.
///
/// Calls `rand::rngs::StdRng::seed_from_u64` and then `Rng::gen_range(6..=15)`
/// three times. The contract claims only what the documentation of
/// `gen_range` promises: each value lies in the range. Which values come
/// out is left unsaid: the generator is deterministic but documented as not
/// reproducible across configurations and versions.
#[verifier::external_body]
fn seeded_digits(letter: char) -> (r: (u8, u8, u8))
    ensures
        6 <= r.0 <= 15,
        6 <= r.1 <= 15,
        6 <= r.2 <= 15,
{
    let mut rng = rand::rngs::StdRng::seed_from_u64(letter as u64);
    let a: i32 = rng.gen_range(0x6..=0xF);
    let b: i32 = rng.gen_range(0x6..=0xF);
    let c: i32 = rng.gen_range(0x6..=0xF);
    (a as u8, b as u8, c as u8)
}

/// The text of a colour of three hex digits, each written twice.
pub open spec fn doubled_digits(d: (u8, u8, u8)) -> Seq<char> {
    let a = hex_char(d.0 as nat);
    let b = hex_char(d.1 as nat);
    let c = hex_char(d.2 as nat);
    seq![a, a, b, b, c, c]
}

fn digit_text(d: u8) -> (r: &'static str)
    requires
        d < 16,
    ensures
        r@ == seq![hex_char(d as nat)],
{
    proof {
        reveal_strlit("0");
        reveal_strlit("1");
        reveal_strlit("2");
        reveal_strlit("3");
        reveal_strlit("4");
        reveal_strlit("5");
        reveal_strlit("6");
        reveal_strlit("7");
        reveal_strlit("8");
        reveal_strlit("9");
        reveal_strlit("a");
        reveal_strlit("b");
        reveal_strlit("c");
        reveal_strlit("d");
        reveal_strlit("e");
        reveal_strlit("f");
    }
    match d {
        0 => "0",
        1 => "1",
        2 => "2",
        3 => "3",
        4 => "4",
        5 => "5",
        6 => "6",
        7 => "7",
        8 => "8",
        9 => "9",
        10 => "a",
        11 => "b",
        12 => "c",
        13 => "d",
        14 => "e",
        _ => "f",
    }
}

/// Writes three hex digits, each twice, as the six digits of a colour.
pub fn digits_text(d: (u8, u8, u8)) -> (r: String)
    requires
        d.0 < 16,
        d.1 < 16,
        d.2 < 16,
    ensures
        r@ == doubled_digits(d),
{
    let mut s = String::new();
    s.append(digit_text(d.0));
    s.append(digit_text(d.0));
    s.append(digit_text(d.1));
    s.append(digit_text(d.1));
    s.append(digit_text(d.2));
    s.append(digit_text(d.2));
    proof {
        assert(s@ =~= doubled_digits(d));
    }
    s
}

/// The six hex digits of the colour of the icon for names starting with
/// `letter`: three digits from 6 to f, each written twice.
pub fn letter_to_three_digit_hash(letter: char) -> (r: String)
    ensures
        exists|d: (u8, u8, u8)| 6 <= d.0 <= 15 && 6 <= d.1 <= 15 && 6 <= d.2 <= 15 && r@ == doubled_digits(d),
{
    let d = seeded_digits(letter);
    digits_text(d)
}

} // verus!
