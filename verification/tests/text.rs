use tallyweb::legacy::{CountableKind as LegacyKind, Hunttype as LegacyHunttype, Masuda as LegacyMasuda, SortCountable};
use tallyweb::message::{message_look, split_lines, MessageFn, NoticeKind, ServerFnError, Severity};
use tallyweb::numtext::{padded, parse_i64};
use tallyweb::sort::SortKey;
use tallyweb::time_delta::{change_part, limit_input, pad_input, part_name, part_text, time_part, TimeDeltaSubField};
use std::cmp::Ordering;

#[test]
fn parses_whole_numbers_like_std() {
    for s in ["0", "42", "-17", "+8", "9223372036854775807", "-9223372036854775808", "", "-", "+", "1a", "9223372036854775808", " 1", "٣"] {
        assert_eq!(parse_i64(s), s.parse::<i64>().ok(), "{s:?}");
    }
}

#[test]
fn pads_numbers_like_format() {
    for (v, w) in [(5i64, 2usize), (123, 2), (0, 3), (-5, 3), (-5, 1), (7, 0), (i64::MIN, 4), (1234567, 10)] {
        assert_eq!(padded(v, w), format!("{:0w$}", v, w = w));
    }
}

#[test]
fn time_parts_of_a_span() {
    let ms = 3 * 3_600_000 + 25 * 60_000 + 7 * 1_000 + 42;
    assert_eq!(time_part(ms, TimeDeltaSubField::Hour), 3);
    assert_eq!(time_part(ms, TimeDeltaSubField::Minute), 25);
    assert_eq!(time_part(ms, TimeDeltaSubField::Second), 7);
    assert_eq!(time_part(ms, TimeDeltaSubField::Milli), 42);
    assert_eq!(part_text(ms, TimeDeltaSubField::Hour), "03");
    assert_eq!(part_text(ms, TimeDeltaSubField::Milli), "042");
    assert_eq!(time_part(-61_500, TimeDeltaSubField::Minute), -1);
    assert_eq!(time_part(-61_500, TimeDeltaSubField::Milli), -500);
}

#[test]
fn typing_into_a_part_moves_the_span() {
    let ms = 3 * 3_600_000 + 25 * 60_000 + 7 * 1_000 + 42;
    assert_eq!(change_part(ms, TimeDeltaSubField::Minute, 30), ms + 5 * 60_000);
    assert_eq!(change_part(ms, TimeDeltaSubField::Hour, 0), ms - 3 * 3_600_000);
    assert_eq!(change_part(ms, TimeDeltaSubField::Milli, 999), ms + 957);
}

#[test]
fn inputs_are_limited_and_padded() {
    assert_eq!(limit_input("59", 0, 60), None);
    assert_eq!(limit_input("60", 0, 60), Some("6".to_string()));
    assert_eq!(limit_input("5x", 0, 60), Some("5".to_string()));
    assert_eq!(limit_input("", 0, 60), None);
    assert_eq!(pad_input("7", 2), Some("07".to_string()));
    assert_eq!(pad_input("", 3), Some("000".to_string()));
    assert_eq!(pad_input("abc", 2), None);
    assert_eq!(part_name("delta", "hour", false), "delta[hour]");
    assert_eq!(part_name("delta", "hour", true), "");
}

#[test]
fn server_errors_become_message_lines() {
    let f = MessageFn { available: true };
    let (lines, sev) = f.server_err(&ServerFnError::ServerError("first\nsecond\n".to_string())).unwrap();
    assert_eq!(lines, vec!["first".to_string(), "second".to_string(), String::new()]);
    assert_eq!(sev, Severity::Error);
    let (lines, _) = f.server_err(&ServerFnError::Request("x".to_string())).unwrap();
    assert_eq!(lines, vec!["Failed to connect to the server".to_string()]);
    let (lines, _) = f.server_err(&ServerFnError::Response("x".to_string())).unwrap();
    assert_eq!(lines, vec!["The server failed to respond".to_string()]);
    assert!(MessageFn { available: false }.server_err(&ServerFnError::Args("a".to_string())).is_none());
    assert_eq!(split_lines("é\nü"), vec!["é".to_string(), "ü".to_string()]);
}

#[test]
fn legacy_hunt_types() {
    assert_eq!(LegacyHunttype::OldOdds.get_rolls(10, true), 30);
    assert_eq!(LegacyHunttype::SOS.get_rolls(5, false), 5);
    assert_eq!(LegacyHunttype::SOS.get_rolls(15, false), 35);
    assert_eq!(LegacyHunttype::SOS.get_rolls(25, true), 105 + 50);
    assert_eq!(LegacyHunttype::SOS.get_rolls(40, false), 280);
    assert_eq!(LegacyHunttype::Masuda(LegacyMasuda::GenIV).get_rolls(2, false), 10);
    assert_eq!(LegacyHunttype::Masuda(LegacyMasuda::GenVI).get_rolls(2, true), 16);
    assert_eq!(LegacyHunttype::Masuda(LegacyMasuda::GenV).get_odds(), 8192);
    assert_eq!(LegacyHunttype::NewOdds.get_odds(), 4096);
    assert_eq!(LegacyHunttype::DexNav(3).repr(), "DexNav");
    assert_eq!(LegacyHunttype::try_from(String::from("DexNav")), Ok(LegacyHunttype::DexNav(0)));
    assert_eq!(
        LegacyHunttype::try_from(String::from("Mixed")),
        Err("Hunttype should be one of the following: OldOdds, NewOdds, SOS, Masuda".to_string())
    );
    assert_eq!(LegacyHunttype::Masuda(LegacyMasuda::GenVI).key(), "MasudaGenVI");
    assert_eq!(LegacyKind::default().to_string(), "Counter");
}

#[test]
fn legacy_sort_order() {
    assert_eq!(SortCountable::from_key("Time"), SortCountable::Time(false));
    assert_eq!(SortCountable::from_key("other"), SortCountable::Id(false));
    assert_eq!(SortCountable::Count(false).toggle(), SortCountable::Count(true));
    assert!(SortCountable::Count(true).is_reversed());
    let a = SortKey { id: 1, name: "b".to_string(), count: 1, time: 1, created_at: 1 };
    let b = SortKey { id: 2, name: "a".to_string(), count: 1, time: 1, created_at: 1 };
    assert_eq!(SortCountable::Name(false).compare(&a, &b), Ordering::Greater);
    assert_eq!(SortCountable::Name(false).compare(&a, &b), a.name.cmp(&b.name));
}

#[test]
fn notifications_look_by_kind() {
    let l = message_look(NoticeKind::Error(true), false);
    assert!(l.is_modal && !l.fade);
    assert_eq!(l.tone, "error");
    let l = message_look(NoticeKind::Message(false), true);
    assert!(!l.is_modal && l.fade);
    assert_eq!(l.tone, "info");
    assert_eq!(message_look(NoticeKind::Success(false), false).tone, "success");
}
