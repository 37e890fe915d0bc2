use tallyweb::color::Color;
use tallyweb::confirm::{ConfirmHandler, Reason};
use tallyweb::history::History;
use tallyweb::icon::{Icon, IconColor, IconKind};
use tallyweb::infobox::{average_step, count_key_action, step_format, timer_interval, KeyAction, VisibleField, VisibleInfo};
use tallyweb::screen::{use_breakpoint, ViewPort};
use tallyweb::sort::{SortKey, SortMethod};
use tallyweb::AppError;
use std::cmp::Ordering;

#[test]
fn color_parses_hex_codes() {
    assert_eq!(Color::try_from("#8be9fd"), Ok(Color::RGB(139, 233, 253)));
    assert_eq!(Color::try_from("#FFFFFF"), Ok(Color::RGB(255, 255, 255)));
    assert_eq!(Color::try_from("#+f0a0b"), Ok(Color::RGB(15, 10, 11)));
    assert_eq!(Color::try_from("8be9fd"), Err(AppError::InvalidColor));
    assert_eq!(Color::try_from("#8be9f"), Err(AppError::InvalidColor));
    assert_eq!(Color::try_from("#8g0000"), Err(AppError::InvalidColor));
}

#[test]
fn color_writes_hex_without_padding() {
    assert_eq!(Color::RGB(139, 233, 253).to_string(), "#8be9fd");
    assert_eq!(Color::RGB(1, 2, 255).to_string(), "#12ff");
    assert_eq!(Color::default(), Color::RGB(139, 233, 253));
}

#[test]
fn icon_style_and_color() {
    let s = Icon(IconKind::SidebarOpen, IconColor::Accent);
    assert_eq!(s.class, "sidebar_left_open");
    assert_eq!(s.background, "var(--accent)");
    assert_eq!(IconColor::RGB(0, 16, 255).to_string(), "#010ff");
    assert_eq!(IconColor::default().to_string(), "white");
}

#[test]
fn visible_info_defaults_and_toggles() {
    let mut v = VisibleInfo::new(true);
    assert!(v.count());
    assert!(v.time());
    assert!(!v.progress());
    assert!(!v.last_step());
    assert!(!v.avg_step());
    v.toggle_progress();
    assert!(v.progress());
    v.toggle(VisibleField::Count);
    assert!(!v.count());
    assert_eq!(v.icon(VisibleField::Count), IconKind::NotVisible);
    v.toggle(VisibleField::Count);
    assert!(v.count());
    let desk = VisibleInfo::new(false);
    assert!(desk.progress() && desk.last_step() && desk.avg_step());
}

#[test]
fn info_box_numbers() {
    assert_eq!(timer_interval(10, 990), 20);
    assert_eq!(timer_interval(500, 200), 300);
    assert_eq!(step_format(3_600_000), "%Hh %M");
    assert_eq!(step_format(59_999), "%Ss %3f");
    assert_eq!(step_format(60_000), "%Mm %S");
    assert_eq!(average_step(10_000, 4), 2_500);
    assert_eq!(average_step(10_000, 0), 10_000);
    assert_eq!(average_step(-7, 2), -3);
    assert_eq!(count_key_action("Equal", false), KeyAction::Increase);
    assert_eq!(count_key_action("Minus", false), KeyAction::Decrease);
    assert_eq!(count_key_action("KeyP", false), KeyAction::ToggleActive);
    assert_eq!(count_key_action("Equal", true), KeyAction::Nothing);
    assert_eq!(count_key_action("KeyQ", false), KeyAction::Nothing);
}

#[test]
fn history_goes_back_to_saved_location() {
    let mut h = History::default();
    assert!(h.back().is_none());
    h.save_location("/u/ash", "", "");
    h.save_location("/u/ash/edit", "tab=1", "top");
    assert_eq!(h.back().unwrap().to_string(), "/u/ash/edit?tab=1#top");
    assert_eq!(h.history.len(), 2);
}

#[test]
fn confirm_answers_by_button() {
    let mut h = ConfirmHandler::default();
    assert_eq!(h.poll(), None);
    assert!(h.on_event(Reason::OkButton));
    assert_eq!(h.poll(), Some(true));
    let mut c = ConfirmHandler::default();
    assert!(!c.on_event(Reason::Background));
    assert_eq!(c.poll(), Some(false));
}

#[test]
fn breakpoints() {
    assert!(use_breakpoint(ViewPort::Large, ViewPort::Medium, false));
    assert!(!use_breakpoint(ViewPort::Large, ViewPort::Medium, true));
    assert!(use_breakpoint(ViewPort::Small, ViewPort::Medium, true));
    assert!(!use_breakpoint(ViewPort::Medium, ViewPort::Medium, false));
}

#[test]
fn sort_method_orders() {
    let a = SortKey { id: 1, name: "abc".to_string(), count: 5, time: 10, created_at: 3 };
    let b = SortKey { id: 2, name: "abd".to_string(), count: 5, time: 1, created_at: 2 };
    assert_eq!(SortMethod::Id(false).compare(&a, &b), Ordering::Less);
    assert_eq!(SortMethod::Id(true).compare(&a, &b), Ordering::Greater);
    assert_eq!(SortMethod::Name(false).compare(&a, &b), Ordering::Less);
    assert_eq!(SortMethod::Count(false).compare(&a, &b), Ordering::Equal);
    assert_eq!(SortMethod::Time(false).compare(&a, &b), Ordering::Greater);
    assert_eq!(SortMethod::CreatedAt(true).compare(&a, &b), Ordering::Less);
    assert_eq!(SortMethod::default(), SortMethod::CreatedAt(false));
    assert_eq!(SortMethod::from_key("Count"), SortMethod::Count(false));
    assert_eq!(SortMethod::from_key("bogus"), SortMethod::CreatedAt(false));
    assert_eq!(SortMethod::Name(true).toggle(), SortMethod::Name(false));
    assert!(SortMethod::Time(true).is_reversed());
    assert_eq!(SortMethod::Time(true).key(), "Time");
}
