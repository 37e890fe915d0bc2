//! Whole numbers as text: reading them as `str::parse` does and writing
//! them in decimal, padded with zeros to a width as `{:0w$}` does.
use vstd::prelude::*;
use vstd::string::*;

verus! {

/// Whether every byte of `b` is an ASCII digit.
pub open spec fn all_digits(b: Seq<u8>) -> bool {
    forall|i: int| 0 <= i < b.len() ==> 48 <= #[trigger] b[i] <= 57
}

/// The number the ASCII digits `b` spell; zero for no digits.
pub open spec fn digits_value(b: Seq<u8>) -> nat
    decreases b.len(),
{
    if b.len() == 0 {
        0
    } else {
        digits_value(b.drop_last()) * 10 + (b.last() - 48) as nat
    }
}

/// The whole number `b` spells: an optional sign, then one digit or more.
pub open spec fn parse_int(b: Seq<u8>) -> Option<int> {
    if b.len() == 0 {
        None
    } else if b[0] == 45 || b[0] == 43 {
        let rest = b.subrange(1, b.len() as int);
        if rest.len() > 0 && all_digits(rest) {
            if b[0] == 45 {
                Some(-(digits_value(rest) as int))
            } else {
                Some(digits_value(rest) as int)
            }
        } else {
            None
        }
    } else if all_digits(b) {
        Some(digits_value(b) as int)
    } else {
        None
    }
}

/// What `i64::from_str` gives for the text whose bytes are `b`.
pub open spec fn parse_i64_spec(b: Seq<u8>) -> Option<i64> {
    match parse_int(b) {
        Some(v) => if i64::MIN <= v <= i64::MAX {
            Some(v as i64)
        } else {
            None
        },
        None => None,
    }
}

/// Where reading digits stops counting: one past the magnitude of `i64::MIN`.
pub open spec fn cap() -> int {
    0x8000_0000_0000_0001
}

/// `v`, or `cap()` where `v` is larger.
pub open spec fn capped(v: nat) -> int {
    if v < cap() {
        v as int
    } else {
        cap()
    }
}

/// Reads the digits `b[start..]` into a value that stops growing at `cap()`.
fn capped_digits(b: &[u8], start: usize) -> (r: Option<u128>)
    requires
        start <= b@.len(),
    ensures
        all_digits(b@.subrange(start as int, b@.len() as int)) ==> r == Some(capped(digits_value(b@.subrange(start as int, b@.len() as int))) as u128),
        !all_digits(b@.subrange(start as int, b@.len() as int)) ==> r is None,
{
    let mut acc: u128 = 0;
    let mut i: usize = start;
    while i < b.len()
        invariant
            start <= i <= b@.len(),
            all_digits(b@.subrange(start as int, i as int)),
            acc == capped(digits_value(b@.subrange(start as int, i as int))),
        decreases b@.len() - i,
    {
        let c = b[i];
        let ghost pre = b@.subrange(start as int, i as int);
        let ghost next = b@.subrange(start as int, i + 1);
        proof {
            assert(next.drop_last() =~= pre);
            assert(next.last() == c);
        }
        if c < 48 || c > 57 {
            proof {
                assert(!all_digits(b@.subrange(start as int, b@.len() as int))) by {
                    let all = b@.subrange(start as int, b@.len() as int);
                    assert(all[i - start] == c);
                }
            }
            return None;
        }
        let grown: u128 = acc * 10 + (c - 48) as u128;
        acc = if grown < 0x8000_0000_0000_0001 {
            grown
        } else {
            0x8000_0000_0000_0001
        };
        proof {
            assert(all_digits(next)) by {
                assert forall|j: int| 0 <= j < next.len() implies 48 <= #[trigger] next[j] <= 57 by {
                    if j < pre.len() {
                        assert(next[j] == pre[j]);
                    }
                }
            }
        }
        i = i + 1;
    }
    proof {
        assert(b@.subrange(start as int, i as int) =~= b@.subrange(start as int, b@.len() as int));
    }
    Some(acc)
}

/// Reads a whole number as `i64::from_str` does: an optional `+` or `-`
/// and then decimal digits, within the range of `i64`.
pub fn parse_i64(s: &str) -> (r: Option<i64>)
    ensures
        r == parse_i64_spec(s.spec_bytes()),
{
    let b = s.as_bytes();
    if b.len() == 0 {
        return None;
    }
    if b[0] == 45 || b[0] == 43 {
        if b.len() == 1 {
            proof {
                assert(b@.subrange(1, b@.len() as int).len() == 0);
            }
            return None;
        }
        match capped_digits(b, 1) {
            Some(v) => {
                if b[0] == 45 {
                    if v <= 0x8000_0000_0000_0000 {
                        Some((0 - (v as i128)) as i64)
                    } else {
                        None
                    }
                } else if v <= 0x7fff_ffff_ffff_ffff {
                    Some(v as i64)
                } else {
                    None
                }
            },
            None => None,
        }
    } else {
        proof {
            assert(b@.subrange(0, b@.len() as int) =~= b@);
        }
        match capped_digits(b, 0) {
            Some(v) => {
                if v <= 0x7fff_ffff_ffff_ffff {
                    Some(v as i64)
                } else {
                    None
                }
            },
            None => None,
        }
    }
}

/// The decimal digit `d < 10`.
pub open spec fn digit_char(d: nat) -> char {
    (48 + d) as char
}

/// `n` in decimal, without leading zeros; `0` for zero.
pub open spec fn digits(n: nat) -> Seq<char>
    decreases n,
{
    if n < 10 {
        seq![digit_char(n)]
    } else {
        digits(n / 10).push(digit_char(n % 10))
    }
}

/// `k` zeros.
pub open spec fn zeros(k: nat) -> Seq<char> {
    Seq::new(k, |i: int| '0')
}

/// `s` with zeros in front up to `w` characters.
pub open spec fn pad_to(s: Seq<char>, w: nat) -> Seq<char> {
    if s.len() < w {
        zeros((w - s.len()) as nat) + s
    } else {
        s
    }
}

/// `v` as `{:0w$}` writes it: a minus sign for a negative number, then
/// the digits with zeros in front so that the whole is `w` characters.
pub open spec fn decimal_padded(v: int, w: nat) -> Seq<char> {
    if v < 0 {
        seq!['-'] + pad_to(digits((-v) as nat), if w >= 1 { (w - 1) as nat } else { 0 })
    } else {
        pad_to(digits(v as nat), w)
    }
}

fn digit_str(d: u8) -> (r: &'static str)
    requires
        d < 10,
    ensures
        r@ == seq![digit_char(d as nat)],
{
    proof {
        reveal_strlit("0");
        reveal_strlit("1");
        reveal_strlit("2");
        reveal_strlit("3");
        reveal_strlit("4");
        reveal_strlit("5");
        reveal_strlit("6");
        reveal_strlit("7");
        reveal_strlit("8");
        reveal_strlit("9");
    }
    match d {
        0 => "0",
        1 => "1",
        2 => "2",
        3 => "3",
        4 => "4",
        5 => "5",
        6 => "6",
        7 => "7",
        8 => "8",
        _ => "9",
    }
}

fn digit_count(n: u64) -> (r: u64)
    ensures
        r == digits(n as nat).len(),
        r <= n / 10 + 1,
    decreases n,
{
    if n < 10 {
        1
    } else {
        let k = digit_count(n / 10);
        k + 1
    }
}

/// Appends the decimal digits of `n`.
fn push_digits(s: &mut String, n: u64)
    ensures
        final(s)@ == old(s)@ + digits(n as nat),
    decreases n,
{
    if n >= 10 {
        push_digits(s, n / 10);
        let ghost mid = s@;
        s.append(digit_str((n % 10) as u8));
        proof {
            assert(mid + seq![digit_char((n % 10) as nat)] =~= old(s)@ + digits(n as nat));
        }
    } else {
        s.append(digit_str(n as u8));
    }
}

/// Appends `k` zeros.
fn push_zeros(s: &mut String, k: usize)
    ensures
        final(s)@ == old(s)@ + zeros(k as nat),
{
    let mut i: usize = 0;
    proof {
        reveal_strlit("0");
        assert(s@ =~= old(s)@ + zeros(0));
    }
    while i < k
        invariant
            i <= k,
            s@ == old(s)@ + zeros(i as nat),
        decreases k - i,
    {
        s.append("0");
        proof {
            reveal_strlit("0");
            assert(old(s)@ + zeros(i as nat) + "0"@ =~= old(s)@ + zeros((i + 1) as nat));
        }
        i = i + 1;
    }
}

/// Appends `v` as `{:0w$}` writes it.
pub fn push_padded(s: &mut String, v: i64, w: usize)
    ensures
        final(s)@ == old(s)@ + decimal_padded(v as int, w as nat),
{
    let (mag, width): (u64, usize) = if v < 0 {
        proof {
            reveal_strlit("-");
        }
        s.append("-");
        let m: u64 = (0 - (v as i128)) as u64;
        (m, if w >= 1 { w - 1 } else { 0 })
    } else {
        (v as u64, w)
    };
    let ghost start = s@;
    let n = digit_count(mag);
    if n < width as u64 {
        push_zeros(s, width - (n as usize));
    }
    let ghost mid = s@;
    push_digits(s, mag);
    proof {
        if v < 0 {
            assert(s@ =~= old(s)@ + decimal_padded(v as int, w as nat));
        } else {
            assert(s@ =~= old(s)@ + decimal_padded(v as int, w as nat));
        }
    }
}

/// `v` as `{:0w$}` writes it.
pub fn padded(v: i64, w: usize) -> (r: String)
    ensures
        r@ == decimal_padded(v as int, w as nat),
{
    let mut s = String::new();
    push_padded(&mut s, v, w);
    proof {
        assert(s@ =~= decimal_padded(v as int, w as nat));
    }
    s
}

} // verus!
