//! The field that edits a time span as hours, minutes, seconds and
//! milliseconds. Spans are whole milliseconds, within `±i64::MAX`.
use crate::error::AppError;
use crate::infobox::trunc_div;
use crate::numtext::{decimal_padded, padded, parse_i64, parse_i64_spec, zeros};
use vstd::prelude::*;
use vstd::string::*;

verus! {

/// The remainder that goes with `trunc_div`: it has the sign of `a`.
pub open spec fn trunc_rem(a: int, b: int) -> int {
    a - b * trunc_div(a, b)
}

/// `a / b` as Rust computes it, for a positive `b`.
pub fn div_toward_zero(a: i64, b: i64) -> (r: i64)
    requires
        b > 0,
    ensures
        r == trunc_div(a as int, b as int),
{
    let t: i128 = a as i128;
    let d: i128 = b as i128;
    let m: i128 = if t >= 0 {
        t
    } else {
        -t
    };
    proof {
        assert(0 <= m / d <= m) by (nonlinear_arith)
            requires
                d >= 1,
                m >= 0,
        ;
    }
    let q: i128 = m / d;
    if t >= 0 {
        q as i64
    } else {
        (-q) as i64
    }
}

/// `a % b` as Rust computes it, for a positive `b`.
pub fn rem_toward_zero(a: i64, b: i64) -> (r: i64)
    requires
        b > 0,
    ensures
        r == trunc_rem(a as int, b as int),
{
    let t: i128 = a as i128;
    let d: i128 = b as i128;
    let m: i128 = if t >= 0 {
        t
    } else {
        -t
    };
    proof {
        assert(0 <= m % d < d) by (nonlinear_arith)
            requires
                d >= 1,
                m >= 0,
        ;
        assert(m == d * (m / d) + m % d) by (nonlinear_arith)
            requires
                d >= 1,
                m >= 0,
        ;
    }
    let r0: i128 = m % d;
    proof {
        let q: int = trunc_div(a as int, b as int);
        assert(q == (if a >= 0 { m / d } else { -(m / d) }));
        assert(b * q == (if a >= 0 { d * (m / d) } else { -(d * (m / d)) })) by (nonlinear_arith)
            requires
                q == (if a >= 0 { m / d } else { -(m / d) }),
                b == d,
        ;
    }
    if t >= 0 {
        r0 as i64
    } else {
        (-r0) as i64
    }
}

/// The parts of the time field.
#[derive(Debug, Clone, Copy, PartialEq, Eq, Structural)]
pub enum TimeDeltaSubField {
    Hour,
    Minute,
    Second,
    Milli,
}

/// The milliseconds in one unit of `f`.
pub open spec fn unit_ms(f: TimeDeltaSubField) -> int {
    match f {
        TimeDeltaSubField::Hour => 3_600_000,
        TimeDeltaSubField::Minute => 60_000,
        TimeDeltaSubField::Second => 1_000,
        TimeDeltaSubField::Milli => 1,
    }
}

/// The value that part `f` of the field shows for a span of `ms`: the
/// whole hours, and the minutes, seconds and milliseconds left over.
pub open spec fn part_value(ms: int, f: TimeDeltaSubField) -> int {
    match f {
        TimeDeltaSubField::Hour => trunc_div(ms, 3_600_000),
        TimeDeltaSubField::Minute => trunc_rem(trunc_div(ms, 60_000), 60),
        TimeDeltaSubField::Second => trunc_rem(trunc_div(ms, 1_000), 60),
        TimeDeltaSubField::Milli => trunc_rem(ms, 1_000),
    }
}

/// The digits part `f` is padded to.
pub open spec fn part_width(f: TimeDeltaSubField) -> nat {
    match f {
        TimeDeltaSubField::Milli => 3,
        _ => 2,
    }
}

/// Whether a span of `d` units of `f` can be made: whole seconds up to
/// `i64::MAX / 1000` either way, milliseconds up to `i64::MAX` either way.
pub open spec fn unit_span_fits(d: int, f: TimeDeltaSubField) -> bool {
    if f is Milli {
        -i64::MAX <= d <= i64::MAX
    } else {
        -(i64::MAX / 1000) <= d * (unit_ms(f) / 1000) <= i64::MAX / 1000
    }
}

/// What typing `input` into part `f` of a field that holds `ms` makes of
/// it: the span moved by the difference between `input` and the part.
pub open spec fn changed_span(ms: int, f: TimeDeltaSubField, input: int) -> int {
    ms + (input - part_value(ms, f)) * unit_ms(f)
}

impl TimeDeltaSubField {
    /// The milliseconds in one unit of this part.
    pub fn unit(self) -> (r: i64)
        ensures
            r == unit_ms(self),
    {
        match self {
            TimeDeltaSubField::Hour => 3_600_000,
            TimeDeltaSubField::Minute => 60_000,
            TimeDeltaSubField::Second => 1_000,
            TimeDeltaSubField::Milli => 1,
        }
    }

    /// The digits this part is padded to.
    pub fn width(self) -> (r: usize)
        ensures
            r == part_width(self),
    {
        match self {
            TimeDeltaSubField::Milli => 3,
            _ => 2,
        }
    }

    /// The name of this part in a form.
    pub fn form_name(self) -> (r: &'static str)
        ensures
            r@ == (match self {
                TimeDeltaSubField::Hour => "hour"@,
                TimeDeltaSubField::Minute => "mins"@,
                TimeDeltaSubField::Second => "secs"@,
                TimeDeltaSubField::Milli => "millis"@,
            }),
    {
        match self {
            TimeDeltaSubField::Hour => "hour",
            TimeDeltaSubField::Minute => "mins",
            TimeDeltaSubField::Second => "secs",
            TimeDeltaSubField::Milli => "millis",
        }
    }
}

/// The value part `f` shows for a span of `ms`.
pub fn time_part(ms: i64, f: TimeDeltaSubField) -> (r: i64)
    ensures
        r == part_value(ms as int, f),
{
    match f {
        TimeDeltaSubField::Hour => div_toward_zero(ms, 3_600_000),
        TimeDeltaSubField::Minute => rem_toward_zero(div_toward_zero(ms, 60_000), 60),
        TimeDeltaSubField::Second => rem_toward_zero(div_toward_zero(ms, 1_000), 60),
        TimeDeltaSubField::Milli => rem_toward_zero(ms, 1_000),
    }
}

/// The text part `f` shows: its value padded with zeros.
pub fn part_text(ms: i64, f: TimeDeltaSubField) -> (r: String)
    ensures
        r@ == decimal_padded(part_value(ms as int, f), part_width(f)),
{
    padded(time_part(ms, f), f.width())
}

/// The span after `input` was typed into part `f` of a field holding
/// `ms`. The span must stay within its bounds, as must the difference.
pub fn change_part(ms: i64, f: TimeDeltaSubField, input: i64) -> (r: i64)
    requires
        unit_span_fits(input - part_value(ms as int, f), f),
        -i64::MAX <= changed_span(ms as int, f, input as int) <= i64::MAX,
    ensures
        r == changed_span(ms as int, f, input as int),
{
    let p = time_part(ms, f);
    let diff: i128 = input as i128 - p as i128;
    let unit: i128 = f.unit() as i128;
    proof {
        assert(-i64::MAX <= diff * unit <= i64::MAX) by (nonlinear_arith)
            requires
                unit == unit_ms(f),
                unit_span_fits(diff as int, f),
                unit == 1 || unit == 1000 || unit == 60000 || unit == 3600000,
                f is Milli <==> unit == 1,
                unit_ms(f) / 1000 == unit / 1000,
        ;
    }
    let delta: i128 = diff * unit;
    (ms as i128 + delta) as i64
}

/// Whether the text typed into a part is kept: a number from `min` up to
/// but not including `max`.
pub open spec fn input_accepted(b: Seq<u8>, min: i64, max: i64) -> bool {
    match parse_i64_spec(b) {
        Some(v) => min <= v < max,
        None => false,
    }
}

/// Checks what was typed into a part: `None` keeps it, `Some` gives the
/// text without its last byte when it is not a number in range. Removing
/// the last byte must not cut a character in two.
pub fn limit_input(text: &str, min: i64, max: i64) -> (r: Option<String>)
    requires
        !input_accepted(text.spec_bytes(), min, max) && text.spec_bytes().len() > 0 ==> text.spec_bytes().last() < 128,
    ensures
        input_accepted(text.spec_bytes(), min, max) || text.spec_bytes().len() == 0 ==> r is None,
        !input_accepted(text.spec_bytes(), min, max) && text.spec_bytes().len() > 0 ==> (r matches Some(s)
            && s@ =~= text@.drop_last()),
{
    let ok = match parse_i64(text) {
        Some(v) => min <= v && v < max,
        None => false,
    };
    if ok || text.as_bytes().len() == 0 {
        None
    } else {
        let cut = text.as_bytes().len() - 1;
        proof {
            assert(text.spec_bytes() == vstd::utf8::encode_utf8(text@));
            lemma_cut_last_ascii(text@, text.spec_bytes());
        }
        let (front, _) = text.split_at(cut);
        proof {
            lemma_front_chars(text@, front@, text.spec_bytes(), front.spec_bytes());
        }
        Some(front.to_owned())
    }
}

/// Cutting off a last byte that is ASCII leaves whole characters.
proof fn lemma_cut_last_ascii(s: Seq<char>, b: Seq<u8>)
    requires
        b == vstd::utf8::encode_utf8(s),
        b.len() > 0,
        b.last() < 128,
    ensures
        vstd::utf8::is_char_boundary(b, b.len() - 1),
{
    broadcast use vstd::utf8::group_utf8_lib;

    assert(vstd::utf8::valid_utf8(b));
    assert(!vstd::utf8::is_continuation_byte(b[b.len() - 1]));
}

/// The characters before a last ASCII byte are all but the last character.
proof fn lemma_front_chars(s: Seq<char>, f: Seq<char>, b: Seq<u8>, fb: Seq<u8>)
    requires
        b == vstd::utf8::encode_utf8(s),
        fb == vstd::utf8::encode_utf8(f),
        b.len() > 0,
        b.last() < 128,
        fb =~= b.subrange(0, b.len() - 1),
    ensures
        f =~= s.drop_last(),
{
    broadcast use vstd::utf8::group_utf8_lib;

    lemma_cut_last_ascii(s, b);
    let tail = b.subrange(b.len() - 1, b.len() as int);
    assert(vstd::utf8::decode_utf8(b) =~= vstd::utf8::decode_utf8(fb) + vstd::utf8::decode_utf8(tail));
    assert(vstd::utf8::decode_utf8(tail).len() == 1) by {
        reveal_with_fuel(vstd::utf8::decode_utf8, 2);
        assert(vstd::utf8::valid_utf8(tail));
    }
}

/// What leaving a part does to its text: a number is padded with zeros to
/// `w` digits, an empty part becomes `w` zeros, anything else stays.
pub fn pad_input(text: &str, w: usize) -> (r: Option<String>)
    ensures
        match parse_i64_spec(text.spec_bytes()) {
            Some(v) if i32::MIN <= v <= i32::MAX => (r matches Some(s) && s@ == decimal_padded(v as int, w as nat)),
            _ => if text@.len() == 0 {
                (r matches Some(s) && s@ == zeros(w as nat))
            } else {
                r is None
            },
        },
{
    match parse_i64(text) {
        Some(v) => {
            if i32::MIN as i64 <= v && v <= i32::MAX as i64 {
                return Some(padded(v, w));
            }
        },
        None => {},
    }
    if text.is_empty() {
        let mut s = String::new();
        let mut i: usize = 0;
        while i < w
            invariant
                i <= w,
                s@ == zeros(i as nat),
            decreases w - i,
        {
            proof {
                reveal_strlit("0");
            }
            s.append("0");
            proof {
                assert(zeros(i as nat) + "0"@ =~= zeros((i + 1) as nat));
            }
            i = i + 1;
        }
        Some(s)
    } else {
        None
    }
}

/// The form name of part `part` of the field `name`: `name[part]`, or
/// nothing when the field sends one value for the whole span.
pub fn part_name(name: &str, part: &str, single_value: bool) -> (r: String)
    ensures
        r@ == (if single_value {
            Seq::<char>::empty()
        } else {
            name@ + "["@ + part@ + "]"@
        }),
{
    if single_value {
        String::new()
    } else {
        let mut s = name.to_owned();
        s.append("[");
        s.append(part);
        s.append("]");
        s
    }
}

/// What the field calls with the new span, in milliseconds, when one of
/// its parts changed: `Ok` accepts the span, an error turns it down.
pub struct OnChange<F: Fn(i64) -> Result<(), AppError>>(pub F);

impl<F: Fn(i64) -> Result<(), AppError>> OnChange<F> {
    /// Hands `val` to the callback and gives back its answer.
    pub fn call(&self, val: i64) -> (r: Result<(), AppError>)
        requires
            call_requires(self.0, (val,)),
        ensures
            call_ensures(self.0, (val,), r),
    {
        (self.0)(val)
    }

    /// Offers the span `val` to the callback for a field that shows `old`,
    /// and gives back what the field shows afterwards: `val` where the
    /// callback accepts it, `old` again where it turns it down.
    pub fn change(&self, old: i64, val: i64) -> (r: i64)
        requires
            call_requires(self.0, (val,)),
        ensures
            exists|answer: Result<(), AppError>|
                call_ensures(self.0, (val,), answer) && r == (if answer is Ok { val } else { old }),
    {
        let answer = self.call(val);
        match answer {
            Ok(()) => val,
            Err(_) => old,
        }
    }
}

/// Extra attributes for the hour input, as name and value.
#[derive(Debug, Clone, Default)]
pub struct DeltaHour {
    pub attrs: Vec<(String, String)>,
}

/// Extra attributes for the minute input.
#[derive(Debug, Clone, Default)]
pub struct DeltaMinute {
    pub attrs: Vec<(String, String)>,
}

/// Extra attributes for the second input.
#[derive(Debug, Clone, Default)]
pub struct DeltaSecond {
    pub attrs: Vec<(String, String)>,
}

/// Extra attributes for the millisecond input.
#[derive(Debug, Clone, Default)]
pub struct DeltaMilli {
    pub attrs: Vec<(String, String)>,
}

/// The span in milliseconds that an edit form's hours, minutes, seconds
/// and milliseconds add up to.
pub open spec fn form_span(hours: int, mins: int, secs: int, millis: int) -> int {
    ((hours * 60 + mins) * 60 + secs) * 1000 + millis
}

/// Whether every step of adding up an edit form's time stays within
/// `i64`.
pub open spec fn form_span_fits(hours: int, mins: int, secs: int, millis: int) -> bool {
    &&& i64::MIN <= hours * 60 <= i64::MAX
    &&& i64::MIN <= hours * 60 + mins <= i64::MAX
    &&& i64::MIN <= (hours * 60 + mins) * 60 <= i64::MAX
    &&& i64::MIN <= (hours * 60 + mins) * 60 + secs <= i64::MAX
    &&& i64::MIN <= ((hours * 60 + mins) * 60 + secs) * 1000 <= i64::MAX
    &&& i64::MIN <= form_span(hours, mins, secs, millis) <= i64::MAX
}

/// The time an edit form sends, in milliseconds.
pub fn form_time(hours: i64, mins: i64, secs: i64, millis: i64) -> (r: i64)
    requires
        form_span_fits(hours as int, mins as int, secs as int, millis as int),
    ensures
        r == form_span(hours as int, mins as int, secs as int, millis as int),
{
    ((hours * 60 + mins) * 60 + secs) * 1000 + millis
}

/// A span of `ms >= 0` splits into whole hours, and minutes and seconds
/// below 60 and milliseconds below 1000 left over, which add up to the span
/// again; a negative span shows the parts of its size, negated.
pub proof fn lemma_parts_of_span(ms: int)
    ensures
        part_value(-ms, TimeDeltaSubField::Hour) == -part_value(ms, TimeDeltaSubField::Hour),
        part_value(-ms, TimeDeltaSubField::Minute) == -part_value(ms, TimeDeltaSubField::Minute),
        part_value(-ms, TimeDeltaSubField::Second) == -part_value(ms, TimeDeltaSubField::Second),
        part_value(-ms, TimeDeltaSubField::Milli) == -part_value(ms, TimeDeltaSubField::Milli),
        ms >= 0 ==> {
            &&& 0 <= part_value(ms, TimeDeltaSubField::Hour)
            &&& 0 <= part_value(ms, TimeDeltaSubField::Minute) < 60
            &&& 0 <= part_value(ms, TimeDeltaSubField::Second) < 60
            &&& 0 <= part_value(ms, TimeDeltaSubField::Milli) < 1000
            &&& part_value(ms, TimeDeltaSubField::Hour) * 3_600_000 + part_value(ms, TimeDeltaSubField::Minute)
                * 60_000 + part_value(ms, TimeDeltaSubField::Second) * 1_000 + part_value(
                ms,
                TimeDeltaSubField::Milli,
            ) == ms
        },
{
    let a: int = if ms >= 0 { ms } else { -ms };
    let s: int = a / 1_000;
    let mi: int = s / 60;
    let h: int = mi / 60;
    vstd::arithmetic::div_mod::lemma_div_denominator(a, 1_000, 60);
    vstd::arithmetic::div_mod::lemma_div_denominator(a, 60_000, 60);
    vstd::arithmetic::div_mod::lemma_fundamental_div_mod(a, 1_000);
    vstd::arithmetic::div_mod::lemma_fundamental_div_mod(s, 60);
    vstd::arithmetic::div_mod::lemma_fundamental_div_mod(mi, 60);
    vstd::arithmetic::div_mod::lemma_mod_pos_bound(a, 1_000);
    vstd::arithmetic::div_mod::lemma_mod_pos_bound(s, 60);
    vstd::arithmetic::div_mod::lemma_mod_pos_bound(mi, 60);
    assert(a / 60_000 == mi);
    assert(a / 3_600_000 == h);
    assert(s >= 0 && mi >= 0 && h >= 0) by {
        vstd::arithmetic::div_mod::lemma_div_pos_is_pos(a, 1_000);
        vstd::arithmetic::div_mod::lemma_div_pos_is_pos(s, 60);
        vstd::arithmetic::div_mod::lemma_div_pos_is_pos(mi, 60);
    }
    assert(trunc_div(a, 1_000) == s && trunc_div(-a, 1_000) == -s);
    assert(trunc_div(a, 60_000) == mi && trunc_div(-a, 60_000) == -mi);
    assert(trunc_div(a, 3_600_000) == h && trunc_div(-a, 3_600_000) == -h);
    assert(trunc_div(s, 60) == mi && trunc_div(-s, 60) == -mi);
    assert(trunc_div(mi, 60) == h && trunc_div(-mi, 60) == -h);
    assert(trunc_rem(a, 1_000) == a % 1_000);
    assert(trunc_rem(s, 60) == s % 60);
    assert(trunc_rem(mi, 60) == mi % 60);
    assert(a == 3_600_000 * h + 60_000 * (mi % 60) + 1_000 * (s % 60) + a % 1_000);
}

/// A span made of `h` hours, `mi` minutes, `s` seconds and `l`
/// milliseconds, each part in its range, shows exactly those parts.
proof fn lemma_span_of_parts(h: int, mi: int, s: int, l: int)
    requires
        h >= 0,
        0 <= mi < 60,
        0 <= s < 60,
        0 <= l < 1000,
    ensures
        part_value(h * 3_600_000 + mi * 60_000 + s * 1_000 + l, TimeDeltaSubField::Hour) == h,
        part_value(h * 3_600_000 + mi * 60_000 + s * 1_000 + l, TimeDeltaSubField::Minute) == mi,
        part_value(h * 3_600_000 + mi * 60_000 + s * 1_000 + l, TimeDeltaSubField::Second) == s,
        part_value(h * 3_600_000 + mi * 60_000 + s * 1_000 + l, TimeDeltaSubField::Milli) == l,
{
    let x: int = h * 3_600_000 + mi * 60_000 + s * 1_000 + l;
    let secs: int = h * 3_600 + mi * 60 + s;
    let mins: int = h * 60 + mi;
    vstd::arithmetic::div_mod::lemma_fundamental_div_mod_converse(x, 1_000, secs, l);
    vstd::arithmetic::div_mod::lemma_fundamental_div_mod_converse(secs, 60, mins, s);
    vstd::arithmetic::div_mod::lemma_fundamental_div_mod_converse(mins, 60, h, mi);
    vstd::arithmetic::div_mod::lemma_div_denominator(x, 1_000, 60);
    vstd::arithmetic::div_mod::lemma_div_denominator(x, 60_000, 60);
    assert(x / 60_000 == mins);
    assert(x / 3_600_000 == h);
    assert(trunc_div(x, 1_000) == secs);
    assert(trunc_div(secs, 60) == mins);
}

/// Typing a number into one part of the field of a span `ms >= 0` makes
/// that part show the number and leaves the other parts as they were,
/// where the number lies in the part's range: any whole number of hours,
/// minutes and seconds below 60, milliseconds below 1000.
pub proof fn lemma_change_part_sets(ms: int, f: TimeDeltaSubField, input: int, g: TimeDeltaSubField)
    requires
        ms >= 0,
        f is Hour ==> input >= 0,
        f is Minute || f is Second ==> 0 <= input < 60,
        f is Milli ==> 0 <= input < 1000,
    ensures
        part_value(changed_span(ms, f, input), g) == if g == f {
            input
        } else {
            part_value(ms, g)
        },
{
    lemma_parts_of_span(ms);
    let h = part_value(ms, TimeDeltaSubField::Hour);
    let mi = part_value(ms, TimeDeltaSubField::Minute);
    let s = part_value(ms, TimeDeltaSubField::Second);
    let l = part_value(ms, TimeDeltaSubField::Milli);
    match f {
        TimeDeltaSubField::Hour => {
            assert(changed_span(ms, f, input) == input * 3_600_000 + mi * 60_000 + s * 1_000 + l);
            lemma_span_of_parts(input, mi, s, l);
        },
        TimeDeltaSubField::Minute => {
            assert(changed_span(ms, f, input) == h * 3_600_000 + input * 60_000 + s * 1_000 + l);
            lemma_span_of_parts(h, input, s, l);
        },
        TimeDeltaSubField::Second => {
            assert(changed_span(ms, f, input) == h * 3_600_000 + mi * 60_000 + input * 1_000 + l);
            lemma_span_of_parts(h, mi, input, l);
        },
        TimeDeltaSubField::Milli => {
            assert(changed_span(ms, f, input) == h * 3_600_000 + mi * 60_000 + s * 1_000 + input);
            lemma_span_of_parts(h, mi, s, input);
        },
    }
}

} // verus!
