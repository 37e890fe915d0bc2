use tallyweb::legacy::{Hunttype, Masuda, Phase};
use tallyweb::legacy_counter::Counter;

fn counter_with(phases: &[(i32, i64)]) -> Counter {
    let mut c = Counter::new_with("counter".to_string(), 9, 1, 0);
    for (i, (count, made)) in phases.iter().enumerate() {
        c.new_phase_with(format!("phase {i}"), 10 + i as u128, *made);
        c.phase_list[i].count = *count;
    }
    c
}

fn counts(c: &Counter) -> Vec<i32> {
    c.phase_list.iter().map(|p| p.count).collect()
}

#[test]
fn setting_the_count_orders_phases_by_creation() {
    let mut c = counter_with(&[(5, 30), (3, 10), (2, 20)]);
    assert_eq!(c.get_count(), 10);
    c.set_count(12);
    assert_eq!(counts(&c), vec![3, 2, 7]);
    let made: Vec<i64> = c.phase_list.iter().map(|p| p.created_at).collect();
    assert_eq!(made, vec![10, 20, 30]);
    let mut c = counter_with(&[(5, 30), (3, 10), (2, 20)]);
    c.set_count(4);
    assert_eq!(counts(&c), vec![0, 0, 0]);
    let mut c = counter_with(&[(5, 10), (3, 10)]);
    c.set_count(6);
    assert_eq!(counts(&c), vec![5, 1]);
}

#[test]
fn counting_and_timing_go_to_the_last_phase() {
    let mut c = counter_with(&[(1, 0), (2, 1)]);
    c.add_count(5);
    assert_eq!(counts(&c), vec![1, 7]);
    c.add_time(300);
    assert_eq!(c.get_time(), 300);
    c.set_time(100);
    let times: Vec<i64> = c.phase_list.iter().map(|p| p.time).collect();
    assert_eq!(times, vec![0, 100]);
    let mut empty = counter_with(&[]);
    empty.add_count(3);
    assert!(empty.phase_list.is_empty());
}

#[test]
fn odds_are_averaged_over_the_phases() {
    let mut c = counter_with(&[(1, 0), (1, 1)]);
    assert_eq!(c.get_odds(), 4096);
    c.phase_list[0].hunt_type = Hunttype::OldOdds;
    assert_eq!(c.get_odds(), (8192 + 4096) / 2);
    c.set_hunt_type(Hunttype::Masuda(Masuda::GenVI));
    assert_eq!(c.get_hunt_type(), Hunttype::Masuda(Masuda::GenVI));
    c.set_charm(true);
    assert!(c.has_charm());
    assert_eq!(c.get_rolls(), 8 + 8);
}

#[test]
fn running_and_success_marks() {
    let mut c = counter_with(&[(1, 0), (2, 1)]);
    assert!(!c.is_active());
    c.toggle_active();
    assert!(c.phase_list[1].is_active && !c.phase_list[0].is_active);
    c.phase_list[0].is_active = true;
    c.toggle_active();
    assert!(!c.is_active());
    assert_eq!(c.get_completed(), 0);
    c.toggle_success();
    assert_eq!(c.get_completed(), 2);
    c.phase_list[0].success = false;
    assert_eq!(c.get_completed(), 1);
}

#[test]
fn new_phases_and_storage() {
    let mut c = Counter::new("fresh".to_string(), 4);
    c.new_phase("first".to_string());
    let p: &Phase = &c.phase_list[0];
    assert_eq!(p.parent_uuid, c.uuid);
    assert_eq!(p.owner_uuid, 4);
    assert_eq!(p.hunt_type, Hunttype::NewOdds);
    let uuid = c.uuid;
    let s = c.into_ser();
    assert_eq!(s.uuid, uuid);
    assert_eq!(s.phase_list.len(), 1);
}

#[test]
fn search_reaches_into_phases() {
    let mut c = Counter::new_with("Pikachu".to_string(), 9, 1, 0);
    c.new_phase_with("Route One".to_string(), 2, 0);
    assert!(c.has_child_starts_with("pika"));
    assert!(c.has_child_starts_with("route"));
    assert!(!c.has_child_starts_with("Pika"));
    assert!(c.has_child_contains("one"));
    assert!(c.has_child_contains("kach"));
    assert!(!c.has_child_contains("two"));
}

#[test]
fn new_counter_button_makes_a_numbered_counter() {
    let c = tallyweb::legacy_counter::starter_counter(2, 5);
    assert_eq!(c.name, "Counter 3");
    assert_eq!(c.owner_uuid, 5);
    assert_eq!(c.phase_list.len(), 1);
    assert_eq!(c.phase_list[0].name, "Phase 1");
    assert_eq!(c.phase_list[0].parent_uuid, c.uuid);
}
