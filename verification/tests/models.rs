use tallyweb::time_delta::OnChange;
use tallyweb::AppError;
use tallyweb::infobox::VisibleField;
use tallyweb::account::{digits_text, letter_to_three_digit_hash};
use tallyweb::color::{use_accent_prefs, Color};
use tallyweb::infobox::{last_step, short_format_time, VisibleInfo};
use tallyweb::legacy::{Hunttype as LegacyHunttype, Masuda as LegacyMasuda, Phase as LegacyPhase, SerCounter};
use tallyweb::nodes::{CountableDiff, CountableId, Hunttype, Masuda};
use tallyweb::screen::ViewPort;
use tallyweb::time_delta::form_time;

fn legacy_phase(uuid: u128, count: i32, time: i64) -> LegacyPhase {
    let mut p = LegacyPhase::new_with(format!("phase {uuid}"), 1, 2, uuid, 0);
    p.count = count;
    p.time = time;
    p
}

fn ser_counter(counts: &[(i32, i64)]) -> SerCounter {
    SerCounter {
        uuid: 1,
        owner_uuid: 2,
        name: "counter".to_string(),
        phase_list: counts.iter().enumerate().map(|(i, (c, t))| legacy_phase(10 + i as u128, *c, *t)).collect(),
        created_at: 0,
    }
}

fn counts_of(c: &SerCounter) -> Vec<i32> {
    c.phase_list.iter().map(|p| p.count).collect()
}

fn times_of(c: &SerCounter) -> Vec<i64> {
    c.phase_list.iter().map(|p| p.time).collect()
}

#[test]
fn short_time_picks_the_largest_unit() {
    assert_eq!(short_format_time(3_600_000 + 2 * 60_000 + 5_000), "01h 02m");
    assert_eq!(short_format_time(26 * 3_600_000 + 59 * 60_000), "26h 59m");
    assert_eq!(short_format_time(65_000), "01m 05s");
    assert_eq!(short_format_time(5_042), "05s 042");
    assert_eq!(short_format_time(0), "00s 000");
    assert_eq!(short_format_time(-1_500), "-1s -500");
}

#[test]
fn last_step_is_time_since_the_count_before() {
    assert_eq!(last_step(10_000, Some(7_500)), Some(2_500));
    assert_eq!(last_step(10_000, None), None);
}

#[test]
fn edit_form_adds_up_its_parts() {
    assert_eq!(form_time(1, 2, 3, 4), 3_723_004);
    assert_eq!(form_time(0, 0, 0, 0), 0);
    assert_eq!(form_time(0, 61, 0, 0), 3_660_000);
    assert_eq!(form_time(-1, 0, 0, 500), -3_599_500);
}

#[test]
fn countable_diff_collects_steps() {
    let mut d = CountableDiff::new(CountableId(9));
    assert_eq!(d, CountableDiff { id: CountableId(9), count: 0, time: 0, has_change: false });
    assert!(!d.has_change());
    let after = d.increase(3);
    assert_eq!(after.count, 3);
    let after = d.increase(-5);
    assert_eq!(after, d);
    assert_eq!(d.count, -2);
    assert_eq!(d.id, CountableId(9));
}

#[test]
fn accent_style_sets_the_variable() {
    let (name, value) = use_accent_prefs(Color::RGB(255, 0, 16));
    assert_eq!(name, "--accent");
    assert_eq!(value, "#ff010");
    assert_eq!(use_accent_prefs(Color::default()).1, "#8be9fd");
}

#[test]
fn visible_info_follows_the_screen() {
    let small = VisibleInfo::for_screen(ViewPort::Small);
    assert!(!small.progress() && !small.last_step() && !small.avg_step());
    assert!(small.count() && small.time());
    let large = VisibleInfo::for_screen(ViewPort::Large);
    assert!(large.progress() && large.last_step() && large.avg_step());
    let medium = VisibleInfo::for_screen(ViewPort::Medium);
    assert!(medium.progress());
}

#[test]
fn hunt_types_combine_with_bitor() {
    assert_eq!(Hunttype::SOS | Hunttype::SOS, Hunttype::SOS);
    assert_eq!(Hunttype::SOS | Hunttype::NewOdds, Hunttype::Mixed);
    assert_eq!(Hunttype::Mixed | Hunttype::Masuda(Masuda::GenV), Hunttype::Mixed);
    let a = Hunttype::Masuda(Masuda::GenIV);
    let b = Hunttype::Masuda(Masuda::GenVI);
    assert_eq!(a | b, b | a);
    assert_eq!((a | b) | a, a | (b | a));
    for ht in [Hunttype::OldOdds, Hunttype::NewOdds, Hunttype::SOS, a, b, Hunttype::Masuda(Masuda::GenV)] {
        assert_eq!(Hunttype::try_from(String::from(ht.key())), Ok(ht));
    }
}

#[test]
fn account_icon_colour() {
    assert_eq!(digits_text((6, 10, 15)), "66aaff");
    let h = letter_to_three_digit_hash('a');
    assert_eq!(h.len(), 6);
    let b = h.as_bytes();
    for pair in b.chunks(2) {
        assert_eq!(pair[0], pair[1]);
        assert!(matches!(pair[0], b'6'..=b'9' | b'a'..=b'f'));
    }
    assert_eq!(letter_to_three_digit_hash('a'), h);
}

#[test]
fn legacy_phase_changes() {
    let mut p = legacy_phase(1, 4, 100);
    assert_eq!(p.hunt_type, LegacyHunttype::NewOdds);
    p.add_count(3);
    p.add_time(50);
    assert_eq!((p.count, p.time), (7, 150));
    p.has_charm = true;
    assert_eq!(p.get_rolls(), 21);
    assert_eq!(p.get_completed(), 0);
    p.toggle_success();
    assert_eq!(p.get_completed(), 1);
    p.toggle_active();
    assert!(p.is_active);
}

#[test]
fn legacy_counter_sums_its_phases() {
    let c = ser_counter(&[(5, 1_000), (3, 2_000), (2, 3_000)]);
    assert_eq!(c.get_count(), 10);
    assert_eq!(c.get_time(), 6_000);
    assert_eq!(c.get_rolls(), 10);
    assert_eq!(c.get_odds(), 2);
    assert_eq!(c.get_hunt_type(), LegacyHunttype::NewOdds);
    assert!(!c.has_charm());
    let empty = ser_counter(&[]);
    assert_eq!(empty.get_odds(), 8192);
    assert_eq!(empty.get_hunt_type(), LegacyHunttype::OldOdds);
    assert_eq!(empty.get_count(), 0);
}

#[test]
fn legacy_counter_takes_counts_from_the_last_phases() {
    let mut c = ser_counter(&[(5, 1_000), (3, 2_000), (2, 3_000)]);
    c.set_count(4);
    assert_eq!(counts_of(&c), vec![4, 0, 0]);
    let mut c = ser_counter(&[(5, 1_000), (3, 2_000), (2, 3_000)]);
    c.set_count(12);
    assert_eq!(counts_of(&c), vec![5, 3, 4]);
    let mut c = ser_counter(&[(5, 1_000), (3, 2_000), (2, 3_000)]);
    c.add_count(3);
    assert_eq!(counts_of(&c), vec![5, 2, 0]);
}

#[test]
fn legacy_counter_times() {
    let mut c = ser_counter(&[(5, 1_000), (3, 2_000), (2, 3_000)]);
    c.set_time(2_500);
    assert_eq!(times_of(&c), vec![1_000, 1_500, 0]);
    let mut c = ser_counter(&[(5, 1_000), (3, 2_000)]);
    c.add_time(700);
    assert_eq!(times_of(&c), vec![1_000, 2_700]);
    let mut empty = ser_counter(&[]);
    empty.add_time(700);
    assert!(empty.phase_list.is_empty());
}

#[test]
fn legacy_counter_marks_every_phase() {
    let mut c = ser_counter(&[(5, 1_000), (3, 2_000)]);
    c.set_hunt_type(LegacyHunttype::Masuda(LegacyMasuda::GenV));
    assert!(c.phase_list.iter().all(|p| p.hunt_type == LegacyHunttype::Masuda(LegacyMasuda::GenV)));
    c.set_charm(true);
    assert!(c.has_charm());
    assert_eq!(c.get_rolls(), (5 + 3) * 8);
    c.toggle_success();
    assert!(c.phase_list.iter().all(|p| p.success));
    c.toggle_success();
    assert!(c.phase_list.iter().all(|p| !p.success));
}

#[test]
fn time_field_keeps_a_refused_span() {
    let f = OnChange(|v: i64| if v < 0 { Err(AppError::Internal) } else { Ok(()) });
    assert_eq!(f.call(5), Ok(()));
    assert_eq!(f.change(1_000, 2_000), 2_000);
    assert_eq!(f.change(1_000, -1), 1_000);
}

#[test]
fn toggling_a_field_an_even_number_of_times_restores_it() {
    for mobile in [true, false] {
        let mut v = VisibleInfo::new(mobile);
        for k in 1..=5 {
            v.toggle_count();
            v.toggle(VisibleField::Progress);
            v.toggle(VisibleField::Progress);
            assert_eq!(v.count(), k % 2 == 0);
        }
        assert_eq!(v.progress(), !mobile);
    }
}

#[test]
fn first_model_hunt_type_keys_round_trip() {
    for ht in [
        LegacyHunttype::OldOdds,
        LegacyHunttype::NewOdds,
        LegacyHunttype::SOS,
        LegacyHunttype::DexNav(0),
        LegacyHunttype::Masuda(LegacyMasuda::GenIV),
        LegacyHunttype::Masuda(LegacyMasuda::GenV),
        LegacyHunttype::Masuda(LegacyMasuda::GenVI),
    ] {
        assert_eq!(LegacyHunttype::try_from(String::from(ht.key())), Ok(ht));
    }
    assert_eq!(LegacyHunttype::try_from(String::from(LegacyHunttype::DexNav(7).key())), Ok(LegacyHunttype::DexNav(0)));
    assert!(LegacyHunttype::try_from(String::from("Mixed")).is_err());
}
