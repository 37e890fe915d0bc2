use std::collections::HashMap;
use tallyweb::nodes::{Counter, Countable, CountableId, CountableKind, Hunttype, Masuda, Phase};
use tallyweb::store::{Checked, CountableStore, Level, Recursive, UnChecked};
use tallyweb::AppError;

const OWNER: u128 = 7;

fn counter(uuid: u128, parent: Option<u128>, children: &[u128]) -> Countable {
    let mut c = Counter::new_with("counter".to_string(), OWNER, parent.map(CountableId), uuid, 100);
    c.children = children.iter().map(|c| CountableId(*c)).collect();
    Countable::Counter(c)
}

fn phase(uuid: u128, parent: u128, count: i32, time: i64) -> Countable {
    let mut p = Phase::new_with(format!("phase {uuid}"), OWNER, CountableId(parent), uuid, 200 + uuid as i64);
    p.count = count;
    p.time = time;
    Countable::Phase(p)
}

/// A counter 1 with phases 2, 3 and 4, and a second root counter 5 with
/// phase 6.
fn tree() -> HashMap<u128, Countable> {
    let mut m = HashMap::new();
    m.insert(1, counter(1, None, &[2, 3, 4]));
    m.insert(2, phase(2, 1, 5, 1_000));
    m.insert(3, phase(3, 1, 3, 2_000));
    m.insert(4, phase(4, 1, 2, 3_000));
    m.insert(5, counter(5, None, &[6]));
    m.insert(6, phase(6, 5, 10, 500));
    m
}

fn recursive() -> CountableStore<Recursive, Checked> {
    CountableStore::new(OWNER, tree())
}

fn level() -> CountableStore<Level, Checked> {
    CountableStore::new(OWNER, tree())
}

fn count_of(s: &CountableStore<Level, Checked>, id: u128) -> i32 {
    s.count(&CountableId(id)).unwrap()
}

#[test]
fn recursive_count_and_time_sum_the_phases() {
    let s = recursive();
    assert_eq!(s.count(&CountableId(1)), Ok(10));
    assert_eq!(s.time(&CountableId(1)), Ok(6_000));
    assert_eq!(s.count(&CountableId(3)), Ok(3));
    assert_eq!(s.count(&CountableId(99)), Err(AppError::CountableNotFound));
}

#[test]
fn recursive_set_count_takes_from_the_last_phases() {
    let mut s = recursive();
    assert_eq!(s.set_count(&CountableId(1), 4), Ok(()));
    assert_eq!(s.count(&CountableId(1)), Ok(4));
    let l = s.level();
    assert_eq!(count_of(&l, 2), 4);
    assert_eq!(count_of(&l, 3), 0);
    assert_eq!(count_of(&l, 4), 0);
    assert!(l.has_change());
}

#[test]
fn recursive_set_count_up_goes_to_the_last_phase() {
    let mut s = recursive();
    assert_eq!(s.set_count(&CountableId(1), 15), Ok(()));
    assert_eq!(s.count(&CountableId(1)), Ok(15));
    let l = s.level();
    assert_eq!(count_of(&l, 4), 7);
    assert_eq!(count_of(&l, 2), 5);
}

#[test]
fn recursive_add_count_and_time() {
    let mut s = recursive();
    assert_eq!(s.add_count(&CountableId(1), 3), Ok(()));
    assert_eq!(s.count(&CountableId(1)), Ok(13));
    assert_eq!(s.add_count(&CountableId(1), -4), Ok(()));
    assert_eq!(s.count(&CountableId(1)), Ok(9));
    assert_eq!(s.add_time(&CountableId(1), 250), Ok(()));
    assert_eq!(s.time(&CountableId(1)), Ok(6_250));
    assert_eq!(s.add_count(&CountableId(42), 1), Err(AppError::CountableNotFound));
}

#[test]
fn recursive_tree_walks() {
    let s = recursive();
    assert_eq!(s.children(&CountableId(1)).unwrap(), vec![CountableId(2), CountableId(3), CountableId(4)]);
    assert_eq!(s.has_child(&CountableId(1), &CountableId(3)), Ok(true));
    assert_eq!(s.has_child(&CountableId(1), &CountableId(6)), Ok(false));
    assert_eq!(s.last_child(&CountableId(1)), Ok(CountableId(4)));
    assert_eq!(s.root_parent(&CountableId(4)), Ok(CountableId(1)));
    assert_eq!(s.all_parents(&CountableId(4)), Ok(vec![CountableId(1)]));
    assert_eq!(s.all_parents(&CountableId(1)), Ok(vec![]));
    assert_eq!(s.hunttype(&CountableId(1)), Ok(Hunttype::OldOdds));
    assert_eq!(s.rolls(&CountableId(1)), Ok(10));
    assert_eq!(s.completed(&CountableId(1)), Ok(0));
}

#[test]
fn level_reads_and_writes_single_elements() {
    let mut s = level();
    assert_eq!(s.count(&CountableId(1)), Ok(0));
    assert_eq!(s.count(&CountableId(2)), Ok(5));
    assert_eq!(s.set_count(&CountableId(2), 9), Ok(()));
    assert_eq!(s.count(&CountableId(2)), Ok(9));
    assert_eq!(s.add_count(&CountableId(2), 1), Ok(()));
    assert_eq!(s.count(&CountableId(2)), Ok(10));
    assert_eq!(s.set_time(&CountableId(3), 77), Ok(()));
    assert_eq!(s.time(&CountableId(3)), Ok(77));
    assert_eq!(s.parent(&CountableId(3)), Ok(Some(CountableId(1))));
    assert_eq!(s.parent(&CountableId(1)), Ok(None));
    assert_eq!(s.last_child(&CountableId(1)), Ok(Some(CountableId(4))));
    assert_eq!(s.last_child(&CountableId(2)), Ok(None));
    assert_eq!(s.odds(&CountableId(2)), Ok(8192));
    assert_eq!(s.odds(&CountableId(1)), Ok(0));
    assert_eq!(s.completed(&CountableId(2)), Ok(false));
}

#[test]
fn unchecked_defaults_for_missing_elements() {
    let s: CountableStore<Recursive, UnChecked> = recursive().unchecked();
    assert_eq!(s.count(&CountableId(99)), 0);
    assert_eq!(s.time(&CountableId(99)), 0);
    assert_eq!(s.last_child(&CountableId(99)), CountableId(99));
    assert_eq!(s.parent(&CountableId(99)), CountableId(99));
    assert!(s.all_parents(&CountableId(99)).is_empty());
    let mut m = tree();
    m.insert(10, counter(10, None, &[]));
    let e: CountableStore<Recursive, UnChecked> = CountableStore::<Recursive, Checked>::new(OWNER, m).unchecked();
    assert_eq!(e.hunttype(&CountableId(10)), Hunttype::Mixed);
    assert_eq!(s.name(&CountableId(99)), "");
    assert_eq!(s.count(&CountableId(1)), 10);
    let l: CountableStore<Level, UnChecked> = s.level();
    assert!(l.children(&CountableId(99)).is_empty());
    assert_eq!(l.parent(&CountableId(99)), None);
    assert_eq!(l.rolls(&CountableId(99)), 0);
}

#[test]
fn success_marks_toggle() {
    let mut s = recursive();
    assert_eq!(s.is_success_checked(&CountableId(1)), Ok(false));
    assert_eq!(s.toggle_success_checked(&CountableId(4)), Ok(()));
    assert_eq!(s.is_success_checked(&CountableId(1)), Ok(true));
    assert_eq!(s.completed(&CountableId(1)), Ok(1));
    assert_eq!(s.toggle_success_checked(&CountableId(4)), Ok(()));
    assert_eq!(s.is_success_checked(&CountableId(4)), Ok(false));
}

#[test]
fn names_kinds_and_new_elements() {
    let mut s = recursive();
    assert_eq!(s.kind(&CountableId(1)), Ok(CountableKind::Counter));
    assert_eq!(s.kind(&CountableId(2)), Ok(CountableKind::Phase));
    assert_eq!(s.set_name(&CountableId(2), "first"), Ok(()));
    assert_eq!(s.name(&CountableId(2)), Ok("first".to_string()));
    let id = s.new_countable_with("new", CountableKind::Phase, Some(CountableId(5)), 50, 900).unwrap();
    assert_eq!(id, CountableId(50));
    assert_eq!(s.children(&CountableId(5)).unwrap(), vec![CountableId(6), CountableId(50)]);
    assert_eq!(s.created_at(&CountableId(50)), 900);
    let r = s.new_countable_with("orphan", CountableKind::Phase, Some(CountableId(2)), 51, 901);
    assert_eq!(r, Err(AppError::CannotContainChildren("Phase".to_string())));
    assert!(s.contains(&CountableId(51)));
    let fresh = s.new_countable("root", CountableKind::Counter, None).unwrap();
    assert!(s.contains(&fresh));
}

#[test]
fn archive_marks_element_and_descendants() {
    let mut s = recursive();
    let archived = s.archive(&CountableId(1)).unwrap();
    match archived {
        Countable::Counter(c) => assert!(c.is_deleted),
        _ => panic!("expected a counter"),
    }
    for id in [2u128, 3, 4] {
        match s.get(&CountableId(id)).unwrap() {
            Countable::Phase(p) => assert!(p.is_deleted),
            _ => panic!("expected a phase"),
        }
    }
    match s.get(&CountableId(6)).unwrap() {
        Countable::Phase(p) => assert!(!p.is_deleted),
        _ => panic!("expected a phase"),
    }
}

#[test]
fn merge_keeps_later_edits_and_archived_elements() {
    let mut mine = recursive();
    let mut theirs_map = HashMap::new();
    let mut newer = Phase::new_with("newer".to_string(), OWNER, CountableId(1), 2, 999);
    newer.count = 42;
    theirs_map.insert(2, Countable::Phase(newer));
    let mut old = Phase::new_with("older".to_string(), OWNER, CountableId(1), 3, 1);
    old.count = 1;
    theirs_map.insert(3, Countable::Phase(old));
    theirs_map.insert(70, phase(70, 5, 1, 1));
    let theirs: CountableStore<Recursive, Checked> = CountableStore::new(OWNER, theirs_map);
    assert_eq!(mine.merge(theirs), Ok(()));
    let l = mine.level();
    assert_eq!(count_of(&l, 2), 42);
    assert_eq!(count_of(&l, 3), 3);
    assert!(l.contains(&CountableId(70)));
    assert!(l.has_change());
}

#[test]
fn filter_keeps_parents_of_matches() {
    let s = recursive();
    let f = s.filter(|c: &Countable| matches!(c, Countable::Phase(p) if p.count == 3)).unwrap();
    assert!(f.contains(&CountableId(3)));
    assert!(f.contains(&CountableId(1)));
    assert!(!f.contains(&CountableId(2)));
    assert!(!f.contains(&CountableId(5)));
    assert_eq!(f.len(), 2);
}

#[test]
fn filter_fails_on_missing_parent() {
    let mut m = tree();
    m.insert(8, phase(8, 77, 3, 0));
    let s: CountableStore<Recursive, Checked> = CountableStore::new(OWNER, m);
    let r = s.filter(|c: &Countable| matches!(c, Countable::Phase(p) if p.uuid == 8));
    assert!(matches!(r, Err(AppError::CountableNotFound)));
}

#[test]
fn raw_filter_keeps_only_matches() {
    let s = recursive();
    let f = s.raw_filter(|c: &Countable| matches!(c, Countable::Counter(_)));
    assert_eq!(f.len(), 2);
    assert!(f.contains(&CountableId(1)) && f.contains(&CountableId(5)));
}

#[test]
fn root_nodes_are_the_counters_without_parents() {
    let s = recursive();
    let mut roots: Vec<u128> = s
        .root_nodes()
        .iter()
        .map(|c| match c {
            Countable::Counter(c) => c.uuid,
            Countable::Phase(p) => p.uuid,
            Countable::Chain(_) => 0,
        })
        .collect();
    roots.sort();
    assert_eq!(roots, vec![1, 5]);
    assert_eq!(s.nodes().len(), 6);
}

#[test]
fn hunt_types_of_the_tree() {
    assert_eq!(Hunttype::SOS.rolls(25, false), 60 + 5 * 9);
    assert_eq!(Hunttype::SOS.rolls(35, true), 50 + 5 * 16);
    assert_eq!(Hunttype::Masuda(Masuda::GenIV).rolls(10, true), 70);
    assert_eq!(Hunttype::Masuda(Masuda::GenV).odds(), 4096);
    assert_eq!(Hunttype::OldOdds.odds(), 8192);
    assert_eq!(Hunttype::Masuda(Masuda::GenVI).repr(), "Masuda (gen VI+)");
    assert_eq!(Hunttype::try_from(String::from("MasudaGenV")), Ok(Hunttype::Masuda(Masuda::GenV)));
    assert!(Hunttype::try_from(String::from("Mixed")).is_err());
    assert_eq!(Hunttype::NewOdds.combine(Hunttype::NewOdds), Hunttype::NewOdds);
    assert_eq!(Hunttype::NewOdds.combine(Hunttype::SOS), Hunttype::Mixed);
}

#[test]
fn a_phase_never_goes_below_zero() {
    let mut s = recursive();
    assert_eq!(s.set_count(&CountableId(3), -5), Ok(()));
    assert_eq!(s.count(&CountableId(3)), Ok(0));
    let mut s = recursive();
    assert_eq!(s.add_count(&CountableId(3), -5), Ok(()));
    assert_eq!(s.count(&CountableId(3)), Ok(0));
    assert_eq!(s.add_count(&CountableId(2), -1), Ok(()));
    assert_eq!(s.count(&CountableId(2)), Ok(4));
    let mut s = recursive();
    assert_eq!(s.add_time(&CountableId(4), -5_000), Ok(()));
    assert_eq!(s.time(&CountableId(4)), Ok(0));
}

#[test]
fn all_parents_of_a_missing_element_is_an_error() {
    let s = recursive();
    assert_eq!(s.all_parents(&CountableId(99)), Err(AppError::CountableNotFound));
    assert_eq!(s.all_parents(&CountableId(2)), Ok(vec![CountableId(1)]));
    assert_eq!(s.all_parents(&CountableId(1)), Ok(vec![]));
}

#[test]
fn new_elements_answer_by_their_parent() {
    let mut s = recursive();
    let id = s.new_countable("top", CountableKind::Counter, None).unwrap();
    assert!(s.contains(&id));
    assert_eq!(s.new_countable("p", CountableKind::Phase, Some(CountableId(99))), Err(AppError::CountableNotFound));
    assert!(s.new_countable("p", CountableKind::Phase, Some(CountableId(2))).is_err());
    let child = s.new_countable("p", CountableKind::Phase, Some(id)).unwrap();
    assert_eq!(s.all_parents(&child), Ok(vec![id]));
}

#[test]
fn setting_through_an_empty_subcounter_loses_the_difference() {
    let mut m = HashMap::new();
    m.insert(1, counter(1, None, &[2, 3]));
    m.insert(2, phase(2, 1, 5, 0));
    m.insert(3, counter(3, Some(1), &[]));
    let mut s: CountableStore<Recursive, Checked> = CountableStore::new(OWNER, m);
    assert_eq!(s.set_count(&CountableId(1), 8), Ok(()));
    assert_eq!(s.count(&CountableId(1)), Ok(5));
    let mut deep = HashMap::new();
    deep.insert(1, counter(1, None, &[3, 2]));
    deep.insert(3, counter(3, Some(1), &[4]));
    deep.insert(4, phase(4, 3, 4, 0));
    deep.insert(2, phase(2, 1, 1, 0));
    let mut s: CountableStore<Recursive, Checked> = CountableStore::new(OWNER, deep);
    assert_eq!(s.set_count(&CountableId(1), 2), Ok(()));
    assert_eq!(s.count(&CountableId(1)), Ok(2));
    assert_eq!(s.count(&CountableId(2)), Ok(1));
    assert_eq!(s.count(&CountableId(4)), Ok(1));
}

#[test]
fn new_ids_are_version_four() {
    let mut s = recursive();
    let id = s.new_countable("top", CountableKind::Counter, None).unwrap();
    assert_eq!((id.0 >> 76) & 0xf, 4);
    assert_eq!((id.0 >> 62) & 3, 2);
}
