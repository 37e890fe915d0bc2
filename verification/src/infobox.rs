//! The info box of an element: which of its fields are shown, whether it is
//! running, and the numbers its fields display.
use crate::icon::IconKind;
use crate::numtext::{decimal_padded, push_padded};
use crate::time_delta::{div_toward_zero, rem_toward_zero, trunc_rem};
use vstd::string::*;
use vstd::prelude::*;

verus! {

/// The fields of the info box that can be shown or hidden.
#[derive(Debug, Clone, Copy, PartialEq, Eq, Structural)]
pub enum VisibleField {
    Count,
    Time,
    Progress,
    LastStep,
    AvgStep,
}

impl VisibleField {
    /// The name of the field as the header lists it.
    pub fn name(self) -> (r: &'static str)
        ensures
            r@ == (match self {
                VisibleField::Count => "Count"@,
                VisibleField::Time => "Time"@,
                VisibleField::Progress => "Progress"@,
                VisibleField::LastStep => "LastStep"@,
                VisibleField::AvgStep => "AvgStep"@,
            }),
    {
        match self {
            VisibleField::Count => "Count",
            VisibleField::Time => "Time",
            VisibleField::Progress => "Progress",
            VisibleField::LastStep => "LastStep",
            VisibleField::AvgStep => "AvgStep",
        }
    }
}

/// Which fields of the info box are shown. A field the user never
/// toggled follows its default: count and time are shown, the others only
/// away from small screens.
#[derive(Debug, Clone, Copy, PartialEq, Eq, Structural)]
pub struct VisibleInfo {
    pub count: Option<bool>,
    pub time: Option<bool>,
    pub progress: Option<bool>,
    pub last_step: Option<bool>,
    pub avg_step: Option<bool>,
    /// Whether the screen is small.
    pub on_mobile: bool,
}

/// Whether `field` is shown in `v`.
pub open spec fn shows(v: VisibleInfo, field: VisibleField) -> bool {
    match field {
        VisibleField::Count => v.count.unwrap_or(true),
        VisibleField::Time => v.time.unwrap_or(true),
        VisibleField::Progress => v.progress.unwrap_or(!v.on_mobile),
        VisibleField::LastStep => v.last_step.unwrap_or(!v.on_mobile),
        VisibleField::AvgStep => v.avg_step.unwrap_or(!v.on_mobile),
    }
}

/// `v` with `field` fixed to `shown`.
pub open spec fn with_field(v: VisibleInfo, field: VisibleField, shown: bool) -> VisibleInfo {
    match field {
        VisibleField::Count => VisibleInfo { count: Some(shown), ..v },
        VisibleField::Time => VisibleInfo { time: Some(shown), ..v },
        VisibleField::Progress => VisibleInfo { progress: Some(shown), ..v },
        VisibleField::LastStep => VisibleInfo { last_step: Some(shown), ..v },
        VisibleField::AvgStep => VisibleInfo { avg_step: Some(shown), ..v },
    }
}

impl VisibleInfo {
    /// Nothing toggled yet, on a screen of size `screen`: small where it is
    /// not larger than `Small`.
    pub fn for_screen(screen: crate::screen::ViewPort) -> (r: VisibleInfo)
        ensures
            r == (VisibleInfo {
                count: None,
                time: None,
                progress: None,
                last_step: None,
                avg_step: None,
                on_mobile: !(crate::screen::rank(screen) > crate::screen::rank(crate::screen::ViewPort::Small)),
            }),
    {
        VisibleInfo::new(crate::screen::use_breakpoint(screen, crate::screen::ViewPort::Small, true))
    }

    /// Nothing toggled yet, on a screen that is small or not.
    pub fn new(on_mobile: bool) -> (r: VisibleInfo)
        ensures
            r == (VisibleInfo {
                count: None,
                time: None,
                progress: None,
                last_step: None,
                avg_step: None,
                on_mobile,
            }),
    {
        VisibleInfo { count: None, time: None, progress: None, last_step: None, avg_step: None, on_mobile }
    }

    pub fn count(&self) -> (r: bool)
        ensures
            r == shows(*self, VisibleField::Count),
    {
        match self.count {
            Some(b) => b,
            None => true,
        }
    }

    pub fn toggle_count(&mut self)
        ensures
            *final(self) == with_field(*old(self), VisibleField::Count, !shows(*old(self), VisibleField::Count)),
    {
        self.count = Some(!self.count());
    }

    pub fn time(&self) -> (r: bool)
        ensures
            r == shows(*self, VisibleField::Time),
    {
        match self.time {
            Some(b) => b,
            None => true,
        }
    }

    pub fn toggle_time(&mut self)
        ensures
            *final(self) == with_field(*old(self), VisibleField::Time, !shows(*old(self), VisibleField::Time)),
    {
        self.time = Some(!self.time());
    }

    pub fn progress(&self) -> (r: bool)
        ensures
            r == shows(*self, VisibleField::Progress),
    {
        match self.progress {
            Some(b) => b,
            None => !self.on_mobile,
        }
    }

    pub fn toggle_progress(&mut self)
        ensures
            *final(self) == with_field(*old(self), VisibleField::Progress, !shows(*old(self), VisibleField::Progress)),
    {
        self.progress = Some(!self.progress());
    }

    pub fn last_step(&self) -> (r: bool)
        ensures
            r == shows(*self, VisibleField::LastStep),
    {
        match self.last_step {
            Some(b) => b,
            None => !self.on_mobile,
        }
    }

    pub fn toggle_last_step(&mut self)
        ensures
            *final(self) == with_field(*old(self), VisibleField::LastStep, !shows(*old(self), VisibleField::LastStep)),
    {
        self.last_step = Some(!self.last_step());
    }

    pub fn avg_step(&self) -> (r: bool)
        ensures
            r == shows(*self, VisibleField::AvgStep),
    {
        match self.avg_step {
            Some(b) => b,
            None => !self.on_mobile,
        }
    }

    pub fn toggle_avg_step(&mut self)
        ensures
            *final(self) == with_field(*old(self), VisibleField::AvgStep, !shows(*old(self), VisibleField::AvgStep)),
    {
        self.avg_step = Some(!self.avg_step());
    }

    /// Whether `field` is shown.
    pub fn get(&self, field: VisibleField) -> (r: bool)
        ensures
            r == shows(*self, field),
    {
        match field {
            VisibleField::Count => self.count(),
            VisibleField::Time => self.time(),
            VisibleField::Progress => self.progress(),
            VisibleField::LastStep => self.last_step(),
            VisibleField::AvgStep => self.avg_step(),
        }
    }

    /// The icon that tells whether `field` is shown.
    pub fn icon(&self, field: VisibleField) -> (r: IconKind)
        ensures
            r == (if shows(*self, field) { IconKind::Visible } else { IconKind::NotVisible }),
    {
        if self.get(field) {
            IconKind::Visible
        } else {
            IconKind::NotVisible
        }
    }

    /// Shows `field` if it was hidden and hides it if it was shown.
    pub fn toggle(&mut self, field: VisibleField)
        ensures
            *final(self) == with_field(*old(self), field, !shows(*old(self), field)),
    {
        match field {
            VisibleField::Count => self.toggle_count(),
            VisibleField::Time => self.toggle_time(),
            VisibleField::Progress => self.toggle_progress(),
            VisibleField::LastStep => self.toggle_last_step(),
            VisibleField::AvgStep => self.toggle_avg_step(),
        }
    }
}

/// Toggling a field flips whether it is shown and leaves every other
/// field as it was; toggling it twice shows it exactly as before.
pub proof fn lemma_toggle_field(v: VisibleInfo, field: VisibleField, other: VisibleField)
    ensures
        shows(with_field(v, field, !shows(v, field)), field) == !shows(v, field),
        other != field ==> shows(with_field(v, field, !shows(v, field)), other) == shows(v, other),
        shows(
            with_field(with_field(v, field, !shows(v, field)), field, !shows(with_field(v, field, !shows(v, field)), field)),
            other,
        ) == shows(v, other),
{
}

/// `v` after toggling the fields `toggles`, the first first.
pub open spec fn after_toggles(v: VisibleInfo, toggles: Seq<VisibleField>) -> VisibleInfo
    decreases toggles.len(),
{
    if toggles.len() == 0 {
        v
    } else {
        let w = after_toggles(v, toggles.drop_last());
        with_field(w, toggles.last(), !shows(w, toggles.last()))
    }
}

/// How many of `toggles` toggle `field`.
pub open spec fn times_toggled(toggles: Seq<VisibleField>, field: VisibleField) -> nat
    decreases toggles.len(),
{
    if toggles.len() == 0 {
        0
    } else {
        times_toggled(toggles.drop_last(), field) + if toggles.last() == field {
            1nat
        } else {
            0nat
        }
    }
}

/// After any sequence of toggles a field is shown as it was before exactly
/// when it was toggled an even number of times; so on a new info box the
/// count and the time are shown exactly when toggled an even number of
/// times, on any screen.
pub proof fn lemma_toggle_parity(v: VisibleInfo, toggles: Seq<VisibleField>, field: VisibleField)
    ensures
        shows(after_toggles(v, toggles), field) == (shows(v, field) == (times_toggled(toggles, field) % 2 == 0)),
    decreases toggles.len(),
{
    if toggles.len() > 0 {
        let w = after_toggles(v, toggles.drop_last());
        lemma_toggle_parity(v, toggles.drop_last(), field);
        lemma_toggle_field(w, toggles.last(), field);
    }
}

/// Whether the info box has changes that are not saved yet.
#[derive(Debug, Clone, Copy, PartialEq, Eq, Structural)]
pub struct HasChange(pub bool);

impl HasChange {
    pub fn set(&mut self, set: bool)
        ensures
            final(self).0 == set,
    {
        self.0 = set;
    }

    pub fn get(&self) -> (r: bool)
        ensures
            r == self.0,
    {
        self.0
    }
}

/// Whether the timer of the info box is running.
#[derive(Debug, Clone, Copy, PartialEq, Eq, Structural)]
pub struct IsActive(pub bool);

impl IsActive {
    pub fn toggle(&mut self)
        ensures
            final(self).0 == !old(self).0,
    {
        self.0 = !self.0;
    }

    pub fn set(&mut self, set: bool)
        ensures
            final(self).0 == set,
    {
        if self.0 != set {
            self.0 = set;
        }
    }

    pub fn get(&self) -> (r: bool)
        ensures
            r == self.0,
    {
        self.0
    }
}

/// What a key pressed outside a text input does to the count box.
#[derive(Debug, Clone, Copy, PartialEq, Eq, Structural)]
pub enum KeyAction {
    /// Start the timer and count one up.
    Increase,
    /// Count one down.
    Decrease,
    /// Start or stop the timer.
    ToggleActive,
    Nothing,
}

/// The action of the key with code `code`; keys typed into an input do
/// nothing.
pub fn count_key_action(code: &str, in_input: bool) -> (r: KeyAction)
    ensures
        r == (if in_input {
            KeyAction::Nothing
        } else if code@ == "Equal"@ {
            KeyAction::Increase
        } else if code@ == "Minus"@ {
            KeyAction::Decrease
        } else if code@ == "KeyP"@ {
            KeyAction::ToggleActive
        } else {
            KeyAction::Nothing
        }),
{
    if in_input {
        return KeyAction::Nothing;
    }
    let c = code.to_owned();
    if c == "Equal".to_owned() {
        KeyAction::Increase
    } else if c == "Minus".to_owned() {
        KeyAction::Decrease
    } else if c == "KeyP".to_owned() {
        KeyAction::ToggleActive
    } else {
        KeyAction::Nothing
    }
}

/// The milliseconds the timer moved on between two readings of the
/// millisecond part of the clock, `old` and then `now`.
pub fn timer_interval(now: u32, old: u32) -> (r: u32)
    requires
        now < 1000,
        old <= now + 1000,
    ensures
        r == (1000 + now - old) % 1000,
{
    (1000 + now - old) % 1000
}

/// Milliseconds in an hour and in a minute.
pub const HOUR_MS: i64 = 3_600_000;

pub const MINUTE_MS: i64 = 60_000;

/// The clock format a step of `ms` milliseconds is shown in: hours and
/// minutes from an hour up, minutes and seconds from a minute up, else
/// seconds and milliseconds.
pub fn step_format(ms: i64) -> (r: &'static str)
    ensures
        r@ == (if ms >= HOUR_MS {
            "%Hh %M"@
        } else if ms >= MINUTE_MS {
            "%Mm %S"@
        } else {
            "%Ss %3f"@
        }),
{
    if ms >= HOUR_MS {
        "%Hh %M"
    } else if ms >= MINUTE_MS {
        "%Mm %S"
    } else {
        "%Ss %3f"
    }
}

/// Division that rounds toward zero, as Rust's `/` does.
pub open spec fn trunc_div(a: int, b: int) -> int
    recommends
        b > 0,
{
    if a >= 0 {
        a / b
    } else {
        -((-a) / b)
    }
}

/// The average time of a step: the time split over the count, a count
/// below one counting as one.
pub fn average_step(time_ms: i64, count: i32) -> (r: i64)
    ensures
        r == trunc_div(time_ms as int, if count < 1 { 1 } else { count as int }),
{
    let d: i128 = if count < 1 {
        1
    } else {
        count as i128
    };
    let t: i128 = time_ms as i128;
    let a: i128 = if t >= 0 {
        t
    } else {
        -t
    };
    proof {
        assert(0 <= a / d <= a) by (nonlinear_arith)
            requires
                d >= 1,
                a >= 0,
        ;
    }
    let q0: i128 = a / d;
    let q: i128 = if t >= 0 {
        q0
    } else {
        -q0
    };
    q as i64
}

/// The time of the last step: the time now less the time at the count
/// before, when there was one.
pub fn last_step(time_ms: i64, before: Option<i64>) -> (r: Option<i64>)
    requires
        before matches Some(b) ==> i64::MIN <= time_ms - b <= i64::MAX,
    ensures
        r == (match before {
            Some(b) => Some((time_ms - b) as i64),
            None => None::<i64>,
        }),
{
    match before {
        Some(b) => Some(time_ms - b),
        None => None,
    }
}

/// A span of `ms` milliseconds written short: hours and minutes from an
/// hour up, minutes and seconds from a minute up, else seconds and
/// milliseconds; each part padded with zeros.
pub open spec fn short_time_text(ms: int) -> Seq<char> {
    let hours = trunc_div(ms, 3_600_000);
    let minutes = trunc_div(ms, 60_000);
    let seconds = trunc_div(ms, 1_000);
    if hours > 0 {
        decimal_padded(hours, 2) + "h "@ + decimal_padded(trunc_rem(minutes, 60), 2) + "m"@
    } else if minutes > 0 {
        decimal_padded(minutes, 2) + "m "@ + decimal_padded(trunc_rem(seconds, 60), 2) + "s"@
    } else {
        decimal_padded(seconds, 2) + "s "@ + decimal_padded(trunc_rem(ms, 1_000), 3)
    }
}

/// Writes a span of `ms` milliseconds short, as `short_time_text` says.
pub fn short_format_time(ms: i64) -> (r: String)
    ensures
        r@ == short_time_text(ms as int),
{
    let hours = div_toward_zero(ms, 3_600_000);
    let minutes = div_toward_zero(ms, 60_000);
    let seconds = div_toward_zero(ms, 1_000);
    let mut s = String::new();
    proof {
        reveal_strlit("h ");
        reveal_strlit("m");
        reveal_strlit("m ");
        reveal_strlit("s");
        reveal_strlit("s ");
    }
    if hours > 0 {
        push_padded(&mut s, hours, 2);
        s.append("h ");
        push_padded(&mut s, rem_toward_zero(minutes, 60), 2);
        s.append("m");
    } else if minutes > 0 {
        push_padded(&mut s, minutes, 2);
        s.append("m ");
        push_padded(&mut s, rem_toward_zero(seconds, 60), 2);
        s.append("s");
    } else {
        push_padded(&mut s, seconds, 2);
        s.append("s ");
        push_padded(&mut s, rem_toward_zero(ms, 1_000), 3);
    }
    proof {
        assert(s@ =~= short_time_text(ms as int));
    }
    s
}

/// How the info box lays out the elements it shows: several side by side,
/// with titles only when one element fills a wide screen.
#[derive(Debug, Clone, Copy, PartialEq, Eq, Structural)]
pub struct InfoBoxLayout {
    /// More than one element is shown, each headed by its name.
    pub show_multiple: bool,
    /// Each part of the box shows its title.
    pub show_title: bool,
    /// The progress and step parts are shown: not for several elements on
    /// a portrait screen.
    pub multi_narrow: bool,
}

/// The layout for `selected` elements on a screen held upright or not.
pub fn infobox_layout(selected: usize, portrait: bool) -> (r: InfoBoxLayout)
    ensures
        r == (InfoBoxLayout {
            show_multiple: selected > 1,
            show_title: !(portrait || selected > 1),
            multi_narrow: !(selected > 1 && portrait),
        }),
{
    let show_multiple = selected > 1;
    InfoBoxLayout { show_multiple, show_title: !(portrait || show_multiple), multi_narrow: !(show_multiple && portrait) }
}

/// How the box places its rows: stacked when the narrow parts are left
/// out, else in a row.
pub fn infobox_display(layout: InfoBoxLayout) -> (r: &'static str)
    ensures
        r@ == (if layout.multi_narrow { "flex"@ } else { "block"@ }),
{
    if !layout.multi_narrow {
        "block"
    } else {
        "flex"
    }
}

/// How a part's title is displayed.
pub fn title_display(show_title: bool) -> (r: &'static str)
    ensures
        r@ == (if show_title { "block"@ } else { "none"@ }),
{
    if show_title {
        "block"
    } else {
        "none"
    }
}

/// Whether the element is saved when its timer runs or stops: when it
/// stands still and the user asked for saving on pause.
pub fn saves_on_pause(is_active: bool, save_on_pause: bool) -> (r: bool)
    ensures
        r == (!is_active && save_on_pause),
{
    !is_active && save_on_pause
}

} // verus!
