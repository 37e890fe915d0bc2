use std::collections::HashMap;
use tallyweb::nodes::{Counter, Countable, CountableId, Hunttype, Phase};
use tallyweb::v2::CountableStore;
use tallyweb::AppError;

fn counter(uuid: u128, parent: Option<u128>, children: &[u128]) -> Countable {
    let mut c = Counter::new_with("c".to_string(), 1, parent.map(CountableId), uuid, 0);
    c.children = children.iter().map(|c| CountableId(*c)).collect();
    Countable::Counter(c)
}

fn phase(uuid: u128, parent: u128, count: i32, ht: Hunttype) -> Countable {
    let mut p = Phase::new_with("p".to_string(), 1, CountableId(parent), uuid, 0);
    p.count = count;
    p.time = count as i64 * 100;
    p.hunt_type = ht;
    Countable::Phase(p)
}

fn store() -> CountableStore {
    let mut m = HashMap::new();
    m.insert(1, counter(1, None, &[2, 3, 4]));
    m.insert(2, phase(2, 1, 5, Hunttype::NewOdds));
    m.insert(3, phase(3, 1, 3, Hunttype::NewOdds));
    m.insert(4, phase(4, 1, 2, Hunttype::NewOdds));
    CountableStore::new(1, m)
}

#[test]
fn current_store_sums_and_sets_through_children() {
    let mut s = store();
    assert_eq!(s.count_checked(&CountableId(1)), Ok(10));
    // Zeroed children give back nothing to the running difference, so the
    // whole difference is taken from the first child that can bear it.
    assert_eq!(s.set_count_checked(&CountableId(1), 6), Ok(()));
    assert_eq!(s.count(&CountableId(1)), 1);
    assert_eq!(s.count(&CountableId(4)), 0);
    assert_eq!(s.count(&CountableId(3)), 0);
    assert_eq!(s.count(&CountableId(2)), 1);
    assert_eq!(s.add_count_checked(&CountableId(1), 2), Ok(()));
    assert_eq!(s.count(&CountableId(4)), 2);
    assert_eq!(s.count_checked(&CountableId(9)), Err(AppError::CountableNotFound));
}

#[test]
fn current_store_time_walks_every_child() {
    let mut s = store();
    assert_eq!(s.time_checked(&CountableId(1)), Ok(1_000));
    assert_eq!(s.add_time_checked(&CountableId(1), 50), Ok(()));
    assert_eq!(s.time(&CountableId(2)), 550);
    assert_eq!(s.time(&CountableId(3)), 350);
    assert_eq!(s.time(&CountableId(4)), 250);
}

#[test]
fn current_store_hunt_type_and_rolls() {
    let mut s = store();
    assert_eq!(s.hunttype_checked(&CountableId(1)), Ok(Hunttype::NewOdds));
    assert_eq!(s.rolls_checked(&CountableId(1)), Ok(10));
    s.toggle_success(&CountableId(4));
    assert_eq!(s.is_success(&CountableId(1)), true);
    assert_eq!(s.completed_checked(&CountableId(1)), Ok(1));
    assert_eq!(s.has_charm(&CountableId(1)), false);
    let mut m = HashMap::new();
    m.insert(1, counter(1, None, &[2, 3]));
    m.insert(2, phase(2, 1, 1, Hunttype::NewOdds));
    m.insert(3, phase(3, 1, 1, Hunttype::SOS));
    let mixed = CountableStore::new(1, m);
    assert_eq!(mixed.hunttype(&CountableId(1)), Hunttype::Mixed);
}

#[test]
fn current_store_relations() {
    let mut s = store();
    assert_eq!(s.children(&CountableId(1)).len(), 3);
    assert!(s.parent(&CountableId(1)).is_none());
    assert!(s.parent(&CountableId(2)).is_some());
    assert_eq!(s.root_nodes().len(), 1);
    let id = s.new_countable("next", tallyweb::nodes::CountableKind::Phase, Some(CountableId(1)));
    assert!(s.contains(&id));
    assert_eq!(s.children(&CountableId(1)).len(), 4);
    s.set_name(&id, "renamed");
    assert_eq!(s.name(&id), "renamed");
}

#[test]
fn current_store_writes_keep_owner_and_selection() {
    let mut s = store();
    s.inner.selection.push(CountableId(2));
    assert_eq!(s.set_count_checked(&CountableId(1), 4), Ok(()));
    s.toggle_success(&CountableId(2));
    s.set_name(&CountableId(1), "x");
    assert_eq!(s.inner.owner, 1);
    assert_eq!(s.inner.selection, vec![CountableId(2)]);
}
