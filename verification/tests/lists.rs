use tallyweb::sort_search::{key_opens_search, search_input_key, sort_arrow, stays_searching, SearchKeyResponse};
use std::cmp::Ordering;
use std::collections::HashMap;
use tallyweb::context_menu::{after_delete, edit_href, menu_rows, success_label, DeleteFollowUp, MenuRow};
use tallyweb::counter_list::CounterList;
use tallyweb::infobox::{infobox_display, infobox_layout, saves_on_pause, title_display, InfoBoxLayout};
use tallyweb::legacy::{Phase as LegacyPhase, SerCounter, SortCountable};
use tallyweb::message::ServerFnError;
use tallyweb::nodes::{Counter, Countable, CountableId, Phase};
use tallyweb::page::{about_border_style, about_button_style, page_css_vars, page_layout, resize_step, sidebar_icon, PageLayout, ResizeStep, SidebarProps, SIDEBAR_MIN_WIDTH};
use tallyweb::sort::{SortKey, SortMethod};
use tallyweb::sorting::sort_stable;
use tallyweb::color::Color;
use tallyweb::v2::CountableStore;

fn key(id: u128, name: &str, count: i32) -> SortKey {
    SortKey { id, name: name.to_string(), count, time: 0, created_at: 0 }
}

fn legacy_counter(uuid: u128, name: &str, phases: &[(&str, i32)]) -> SerCounter {
    SerCounter {
        uuid,
        owner_uuid: 1,
        name: name.to_string(),
        phase_list: phases
            .iter()
            .enumerate()
            .map(|(i, (n, c))| {
                let mut p = LegacyPhase::new_with(n.to_string(), uuid, 1, uuid * 100 + i as u128, 0);
                p.count = *c;
                p
            })
            .collect(),
        created_at: uuid as i64,
    }
}

#[test]
fn stable_sort_keeps_level_entries_in_order() {
    let items = vec![(key(1, "b", 3), 'a'), (key(2, "a", 1), 'b'), (key(3, "c", 3), 'c'), (key(4, "d", 1), 'd')];
    let sorted = sort_stable(SortMethod::Count(false), items);
    let order: Vec<char> = sorted.iter().map(|(_, t)| *t).collect();
    assert_eq!(order, vec!['b', 'd', 'a', 'c']);
    let items = vec![(key(1, "b", 3), 'a'), (key(2, "a", 1), 'b'), (key(3, "c", 3), 'c'), (key(4, "d", 1), 'd')];
    let sorted = sort_stable(SortMethod::Count(true), items);
    let order: Vec<char> = sorted.iter().map(|(_, t)| *t).collect();
    assert_eq!(order, vec!['a', 'c', 'b', 'd']);
    let items = vec![(key(1, "b", 3), 1), (key(2, "a", 1), 2), (key(3, "c", 3), 3)];
    let sorted = SortCountable::Name(false).apply(items);
    let ids: Vec<u128> = sorted.iter().map(|(k, _)| k.id).collect();
    assert_eq!(ids, vec![2, 1, 3]);
    let empty: Vec<(SortKey, u8)> = Vec::new();
    assert!(sort_stable(SortMethod::Id(false), empty).is_empty());
}

#[test]
fn counter_list_sorts_and_searches() {
    let counters = vec![
        legacy_counter(1, "Eevee", &[("first", 1)]),
        legacy_counter(2, "Bulbasaur", &[("Rapid", 4)]),
        legacy_counter(3, "Spinda", &[]),
        legacy_counter(4, "Charmander", &[("pika phase", 2)]),
        legacy_counter(5, "Pikachu", &[("shiny", 9)]),
    ];
    let mut list = CounterList::new(counters);
    assert_eq!(list.get_filtered_list(), vec![2, 4, 1, 5, 3]);
    list.search("PI");
    assert_eq!(list.get_filtered_list(), vec![5, 4, 3, 2]);
    list.sort = SortCountable::Count(true);
    list.search("");
    assert_eq!(list.get_filtered_list(), vec![5, 2, 4, 1, 3]);
    list.sort = SortCountable::Id(false);
    list.search("zz");
    assert!(list.get_filtered_list().is_empty());
    let mut items = list.get_items();
    items.sort();
    assert_eq!(items, vec![1, 2, 3, 4, 5]);
    let flat = list.flat();
    let mut all = flat.clone();
    all.sort();
    assert_eq!(all, vec![1, 2, 3, 4, 5, 100, 200, 400, 500]);
    for (counter, phase) in [(1, 100), (2, 200), (4, 400), (5, 500)] {
        let at = flat.iter().position(|x| *x == counter).unwrap();
        assert_eq!(flat[at + 1], phase);
    }
}

#[test]
fn counter_list_keeps_the_last_counter_of_an_id() {
    let counters = vec![
        legacy_counter(1, "old", &[]),
        legacy_counter(2, "other", &[]),
        legacy_counter(1, "new", &[]),
    ];
    let list = CounterList::new(counters);
    assert_eq!(list.list.len(), 2);
    assert_eq!(list.list[&1].name, "new");
    assert_eq!(list.list[&2].name, "other");
    let mut list = CounterList::default();
    assert!(list.get_filtered_list().is_empty());
    list.load_offline(vec![legacy_counter(7, "seven", &[])]);
    assert_eq!(list.get_items(), vec![7]);
    assert_eq!(list.into_counters()[0].name, "seven");
}

#[test]
fn sort_by_reads_the_store() {
    let mut c = Counter::new_with("b counter".to_string(), 1, None, 1, 30);
    c.children = vec![CountableId(2)];
    let mut p = Phase::new_with("a phase".to_string(), 1, CountableId(1), 2, 10);
    p.count = 7;
    let mut m = HashMap::new();
    m.insert(1, Countable::Counter(c));
    m.insert(2, Countable::Phase(p));
    let s = CountableStore::new(1, m);
    let (a, b) = (CountableId(1), CountableId(2));
    assert_eq!(SortMethod::Id(false).sort_by(&s, &a, &b), Ordering::Less);
    assert_eq!(SortMethod::Name(false).sort_by(&s, &a, &b), Ordering::Greater);
    assert_eq!(SortMethod::Count(false).sort_by(&s, &a, &b), Ordering::Equal);
    assert_eq!(SortMethod::CreatedAt(true).sort_by(&s, &a, &b), Ordering::Less);
    assert_eq!(SortMethod::Time(false).sort_by(&s, &a, &a), Ordering::Equal);
}

#[test]
fn elements_compare_by_value() {
    let a = Countable::Phase(Phase::new_with("p".to_string(), 1, CountableId(3), 2, 10));
    let b = Countable::Phase(Phase::new_with("p".to_string(), 1, CountableId(3), 2, 10));
    let c = Countable::Phase(Phase::new_with("q".to_string(), 1, CountableId(3), 2, 10));
    assert!(a == b);
    assert!(a != c);
    let mut x = Counter::new_with("c".to_string(), 1, None, 5, 0);
    let y = Counter::new_with("c".to_string(), 1, None, 5, 0);
    assert!(x == y);
    x.children.push(CountableId(2));
    assert!(x != y);
    assert!(Countable::Counter(y) != a);
}

#[test]
fn page_follows_the_drag() {
    assert_eq!(SIDEBAR_MIN_WIDTH, 280);
    assert_eq!(resize_step(500), ResizeStep::Follow(500));
    assert_eq!(resize_step(280), ResizeStep::Hold);
    assert_eq!(resize_step(0), ResizeStep::Hold);
    assert_eq!(page_css_vars(Color::RGB(255, 0, 16)), "--accent: #ff010;");
    assert_eq!(
        page_layout(Some(SidebarProps { is_shown: true, auto_hide: false, width: 320 })),
        PageLayout { sidebar_in_view: true, content_full_width: false, auto_hide: false, resize_position: 320 }
    );
    assert_eq!(
        page_layout(None),
        PageLayout { sidebar_in_view: false, content_full_width: true, auto_hide: false, resize_position: 0 }
    );
    assert_eq!(SidebarProps::default().width, 400);
    assert_eq!(about_border_style(Some("#fff")), "border: 2px solid #fff;");
    assert_eq!(about_button_style(Some("#fff")), "background: #fff;");
    assert_eq!(about_border_style(None), "");
    assert_eq!(sidebar_icon(true), "/icons/sidebar-left-closed-svgrepo-com-white.svg");
    assert_eq!(sidebar_icon(false), "/icons/sidebar-left-svgrepo-com-white.svg");
}

#[test]
fn info_box_layout() {
    assert_eq!(
        infobox_layout(1, false),
        InfoBoxLayout { show_multiple: false, show_title: true, multi_narrow: true }
    );
    let l = infobox_layout(3, true);
    assert_eq!(l, InfoBoxLayout { show_multiple: true, show_title: false, multi_narrow: false });
    assert_eq!(infobox_display(l), "block");
    assert_eq!(infobox_display(infobox_layout(3, false)), "flex");
    assert_eq!(title_display(false), "none");
    assert!(saves_on_pause(false, true));
    assert!(!saves_on_pause(true, true));
}

#[test]
fn context_menu_rows_and_links() {
    assert_eq!(edit_href(0x67e5504410b1426f9247bb680e5fe0c8), "edit/67e55044-10b1-426f-9247-bb680e5fe0c8");
    assert_eq!(edit_href(1), "edit/00000000-0000-0000-0000-000000000001");
    assert_eq!(success_label(true), "Unmark Success");
    assert_eq!(success_label(false), "Mark Success");
    assert_eq!(menu_rows(true), vec![MenuRow::Edit, MenuRow::ToggleSuccess, MenuRow::Delete]);
    assert_eq!(menu_rows(false), vec![MenuRow::Edit, MenuRow::Delete]);
    assert_eq!(after_delete(None), DeleteFollowUp::Wait);
    assert_eq!(after_delete(Some(Ok(()))), DeleteFollowUp::Navigate("/"));
    let e = ServerFnError::ServerError("no".to_string());
    assert_eq!(after_delete(Some(Err(e.clone()))), DeleteFollowUp::ShowError(e));
}

#[test]
fn element_accessors() {
    let mut c = Countable::Counter(Counter::new_with("c".to_string(), 1, None, 5, 40));
    assert_eq!(c.uuid(), 5);
    assert_eq!(c.uuid_checked(), Ok(5));
    assert_eq!(c.name(), "c");
    assert_eq!(c.created_at(), 40);
    assert_eq!(c.last_edit_checked(), Ok(40));
    assert_eq!(c.is_archived(), false);
    assert_eq!(c.set_name_checked("renamed"), Ok(()));
    assert_eq!(c.name_checked(), Ok("renamed".to_string()));
    c.add_child(CountableId(9));
    match &c {
        Countable::Counter(k) => assert_eq!(k.children, vec![CountableId(9)]),
        _ => panic!("not a counter"),
    }
    let mut p = Countable::Phase(Phase::new_with("p".to_string(), 1, CountableId(5), 6, 50));
    p.set_name("q");
    assert_eq!(p.name(), "q");
    assert_eq!(p.is_archived_checked(), Ok(false));
    assert_eq!(p.created_at_checked(), Ok(50));
}

#[test]
fn search_bar_keys_and_arrow() {
    assert_eq!(
        search_input_key("Escape", true),
        SearchKeyResponse { clear_search: true, blur: true, forward: true }
    );
    assert_eq!(
        search_input_key("Enter", true),
        SearchKeyResponse { clear_search: false, blur: true, forward: true }
    );
    assert_eq!(
        search_input_key("a", true),
        SearchKeyResponse { clear_search: false, blur: false, forward: true }
    );
    assert_eq!(
        search_input_key("Escape", false),
        SearchKeyResponse { clear_search: false, blur: false, forward: true }
    );
    assert!(key_opens_search("/"));
    assert!(!key_opens_search("?"));
    assert!(stays_searching("pi"));
    assert!(!stays_searching(""));
    assert_eq!(sort_arrow(SortMethod::Name(true)), "fa-solid fa-arrow-down");
    assert_eq!(sort_arrow(SortMethod::Name(false)), "fa-solid fa-arrow-up");
}
