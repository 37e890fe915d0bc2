//! What the operations of the store promise together: what a read gives
//! back after a write, and what a second toggle or a merge with itself
//! leaves.
use crate::nodes::{CountableId, CountableView, Hunttype};
use crate::store::{
    apply_diff, archive_all, combine_hunttypes, desc_children, distribute, fits, level_value, level_write, lookup, merged, name_of, phase_value, rec_archive, rec_desc, rec_hunttype, rec_set,
    rec_success, rec_sum, rename, sum_children, toggle_success_of, with_value, Outcome, Quantity,
};
use vstd::prelude::*;

verus! {

/// Whether the element under `id` is a phase.
pub open spec fn is_phase_at(m: Map<u128, CountableView>, id: CountableId) -> bool {
    m.contains_key(id.0) && m[id.0] is Phase
}

/// Whether `ids` are distinct phases of `m`.
pub open spec fn distinct_phases(m: Map<u128, CountableView>, ids: Seq<CountableId>) -> bool {
    &&& ids.no_duplicates()
    &&& forall|i: int| 0 <= i < ids.len() ==> #[trigger] is_phase_at(m, ids[i])
}

/// Whether the element under `id` is a phase, or a counter whose children
/// are distinct phases and that has at least one.
pub open spec fn simple_tree(m: Map<u128, CountableView>, id: CountableId) -> bool {
    match lookup(m, id) {
        Some(CountableView::Phase(_)) => true,
        Some(CountableView::Counter(c)) => c.children.len() > 0 && distinct_phases(m, c.children),
        _ => false,
    }
}

/// A sum over a prefix of `ids` reads only the elements in that prefix.
proof fn lemma_sum_children_frame(
    m: Map<u128, CountableView>,
    m2: Map<u128, CountableView>,
    ids: Seq<CountableId>,
    n: nat,
    q: Quantity,
    fuel: nat,
)
    requires
        n <= ids.len(),
        forall|i: int| 0 <= i < n ==> #[trigger] lookup(m, ids[i]) == lookup(m2, ids[i]),
        forall|i: int| 0 <= i < n ==> #[trigger] is_phase_at(m, ids[i]),
    ensures
        sum_children(m, ids, n, q, fuel) == sum_children(m2, ids, n, q, fuel),
    decreases n,
{
    if n > 0 && fuel > 0 {
        lemma_sum_children_frame(m, m2, ids, (n - 1) as nat, q, fuel);
        assert(lookup(m, ids[n - 1]) == lookup(m2, ids[n - 1]));
        assert(is_phase_at(m, ids[n - 1]));
        assert(rec_sum(m, ids[n - 1], q, (fuel - 1) as nat) == rec_sum(m2, ids[n - 1], q, (fuel - 1) as nat));
    }
}

/// The descendants of distinct phases are none at all.
proof fn lemma_desc_of_phases(m: Map<u128, CountableView>, ids: Seq<CountableId>, n: nat, fuel: nat)
    requires
        n <= ids.len(),
        fuel > 0,
        distinct_phases(m, ids),
    ensures
        desc_children(m, ids, n, fuel) == Outcome::<Seq<CountableId>>::Done(Seq::empty()),
    decreases n,
{
    if n > 0 {
        lemma_desc_of_phases(m, ids, (n - 1) as nat, fuel);
        assert(is_phase_at(m, ids[n - 1]));
        assert(rec_desc(m, ids[n - 1], (fuel - 1) as nat) == Outcome::<Seq<CountableId>>::Done(Seq::empty()));
        assert(Seq::<CountableId>::empty() + Seq::<CountableId>::empty() =~= Seq::<CountableId>::empty());
    }
}

/// Handing `diff` to the last `n` of distinct phases, when it does not
/// take more than they hold, moves their sum by exactly `diff`, keeps them
/// phases and leaves every other element as it was.
proof fn lemma_distribute_phases(
    m: Map<u128, CountableView>,
    ids: Seq<CountableId>,
    n: nat,
    diff: int,
    s: int,
    q: Quantity,
    fuel: nat,
)
    requires
        n <= ids.len(),
        fuel > 0,
        distinct_phases(m, ids),
        sum_children(m, ids, n, q, fuel) == Outcome::<int>::Done(s),
        diff >= -s,
        n > 0 || diff == 0,
        fits(q, s + diff),
        distribute(m, ids, n, diff, q, fuel).result is Done,
    ensures
        ({
            let nodes = distribute(m, ids, n, diff, q, fuel).nodes;
            &&& nodes.dom() == m.dom()
            &&& distinct_phases(nodes, ids)
            &&& forall|k: u128| !ids.take(n as int).contains(CountableId(k)) ==> #[trigger] nodes.get(k) == m.get(k)
            &&& sum_children(nodes, ids, n, q, fuel) == Outcome::<int>::Done(s + diff)
        }),
    decreases n,
{
    if n == 0 {
        return;
    }
    let last = ids[n - 1];
    assert(is_phase_at(m, last));
    let v = phase_value(m[last.0], q);
    let s0 = sum_children(m, ids, (n - 1) as nat, q, fuel)->Done_0;
    assert(sum_children(m, ids, (n - 1) as nat, q, fuel) is Done);
    assert(s == s0 + v);
    assert(rec_sum(m, last, q, fuel) == Outcome::<int>::Done(v));
    let nd = diff + v;
    assert(fits(q, nd)) by {
        assert(fits(q, s0)) by {
            lemma_prefix_fits(m, ids, (n - 1) as nat, q, fuel);
        }
    }
    assert forall|i: int| 0 <= i < n - 1 implies ids[i] != last by {
        assert(ids[i] != ids[n - 1]);
    }
    if nd < 0 {
        let u = rec_set(m, last, 0, q, (fuel - 1) as nat);
        assert(rec_sum(m, last, q, (fuel - 1) as nat) == Outcome::<int>::Done(v));
        let m1 = u.nodes;
        assert(m1 == m.insert(last.0, with_value(m[last.0], q, 0)));
        assert(distinct_phases(m1, ids)) by {
            assert forall|i: int| 0 <= i < ids.len() implies #[trigger] is_phase_at(m1, ids[i]) by {
                assert(is_phase_at(m, ids[i]));
            }
        }
        assert forall|i: int| 0 <= i < n - 1 implies #[trigger] lookup(m, ids[i]) == lookup(m1, ids[i]) by {
            assert(ids[i].0 != last.0);
        }
        assert forall|i: int| 0 <= i < n - 1 implies #[trigger] is_phase_at(m, ids[i]) by {
            assert(is_phase_at(m, ids[i]));
        }
        lemma_sum_children_frame(m, m1, ids, (n - 1) as nat, q, fuel);
        assert(n - 1 > 0) by {
            if n - 1 == 0 {
                assert(s0 == 0);
            }
        }
        lemma_distribute_phases(m1, ids, (n - 1) as nat, nd, s0, q, fuel);
        let nodes = distribute(m1, ids, (n - 1) as nat, nd, q, fuel).nodes;
        assert(distribute(m, ids, n, diff, q, fuel).nodes == nodes);
        assert(!ids.take(n - 1).contains(last)) by {
            if ids.take(n - 1).contains(last) {
                let j = choose|j: int| 0 <= j < n - 1 && #[trigger] ids.take(n - 1)[j] == last;
                assert(ids[j] == last);
            }
        }
        assert(nodes.get(last.0) == m1.get(last.0));
        assert forall|k: u128| !ids.take(n as int).contains(CountableId(k)) implies #[trigger] nodes.get(k) == m.get(k) by {
            assert(!ids.take(n - 1).contains(CountableId(k))) by {
                if ids.take(n - 1).contains(CountableId(k)) {
                    let j = choose|j: int| 0 <= j < n - 1 && #[trigger] ids.take(n - 1)[j] == CountableId(k);
                    assert(ids.take(n as int)[j] == CountableId(k));
                }
            }
            assert(k != last.0) by {
                assert(ids.take(n as int)[n - 1] == last);
            }
        }
        assert(lookup(nodes, last) == lookup(m1, last));
        assert(rec_sum(nodes, last, q, (fuel - 1) as nat) == Outcome::<int>::Done(0));
    } else {
        let u = rec_set(m, last, nd, q, (fuel - 1) as nat);
        assert(rec_sum(m, last, q, (fuel - 1) as nat) == Outcome::<int>::Done(v));
        let nodes = u.nodes;
        assert(nodes == m.insert(last.0, with_value(m[last.0], q, nd)));
        assert(distinct_phases(nodes, ids)) by {
            assert forall|i: int| 0 <= i < ids.len() implies #[trigger] is_phase_at(nodes, ids[i]) by {
                assert(is_phase_at(m, ids[i]));
            }
        }
        assert forall|i: int| 0 <= i < n - 1 implies #[trigger] lookup(m, ids[i]) == lookup(nodes, ids[i]) by {
            assert(ids[i].0 != last.0);
        }
        assert forall|i: int| 0 <= i < n - 1 implies #[trigger] is_phase_at(m, ids[i]) by {
            assert(is_phase_at(m, ids[i]));
        }
        lemma_sum_children_frame(m, nodes, ids, (n - 1) as nat, q, fuel);
        assert forall|k: u128| !ids.take(n as int).contains(CountableId(k)) implies #[trigger] nodes.get(k) == m.get(k) by {
            assert(k != last.0) by {
                assert(ids.take(n as int)[n - 1] == last);
            }
        }
        assert(rec_sum(nodes, last, q, (fuel - 1) as nat) == Outcome::<int>::Done(nd));
    }
}

/// Every partial sum that a finished sum went through fits the quantity.
proof fn lemma_prefix_fits(m: Map<u128, CountableView>, ids: Seq<CountableId>, n: nat, q: Quantity, fuel: nat)
    requires
        sum_children(m, ids, n, q, fuel) is Done,
    ensures
        fits(q, sum_children(m, ids, n, q, fuel)->Done_0),
    decreases n,
{
    if n > 0 {
        lemma_prefix_fits(m, ids, (n - 1) as nat, q, fuel);
    }
}

/// Setting the count or time of a phase, or of a counter of phases, to a
/// value that is not negative, and then reading it, gives that value back.
pub proof fn lemma_set_then_read(m: Map<u128, CountableView>, id: CountableId, target: int, q: Quantity, fuel: nat)
    requires
        simple_tree(m, id),
        target >= 0,
        fits(q, target),
        rec_set(m, id, target, q, fuel).result is Done,
    ensures
        rec_sum(rec_set(m, id, target, q, fuel).nodes, id, q, fuel) == Outcome::<int>::Done(target),
{
    let cur = rec_sum(m, id, q, fuel)->Done_0;
    let diff = target - cur;
    match lookup(m, id) {
        Some(CountableView::Phase(p)) => {
        },
        Some(CountableView::Counter(c)) => {
            let ids = c.children;
            let n = ids.len();
            assert(fuel > 0);
            lemma_desc_of_phases(m, ids, n, fuel);
            assert(ids + Seq::<CountableId>::empty() =~= ids);
            assert(rec_desc(m, id, fuel) == Outcome::<Seq<CountableId>>::Done(ids));
            let u = distribute(m, ids, n, diff, q, fuel);
            lemma_distribute_phases(m, ids, n, diff, cur, q, fuel);
            assert(!ids.take(n as int).contains(id)) by {
                if ids.take(n as int).contains(id) {
                    let j = choose|j: int| 0 <= j < n && #[trigger] ids.take(n as int)[j] == id;
                    assert(ids[j] == id);
                    assert(is_phase_at(m, ids[j]));
                }
            }
            assert(u.nodes.get(id.0) == m.get(id.0));
            assert(lookup(u.nodes, id) == lookup(m, id));
        },
        _ => {
        },
    }
}

/// Setting or adding to the count or time of a phase never leaves it below
/// zero: a value that would go below zero reads back as zero.
pub proof fn lemma_phase_clamps_at_zero(m: Map<u128, CountableView>, id: CountableId, target: int, diff: int, q: Quantity, fuel: nat)
    requires
        is_phase_at(m, id),
    ensures
        rec_set(m, id, target, q, fuel).result is Done ==> rec_sum(rec_set(m, id, target, q, fuel).nodes, id, q, fuel)
            == Outcome::<int>::Done(if target < 0 { 0 } else { target }),
        apply_diff(m, id, diff, q, fuel).result is Done ==> rec_sum(apply_diff(m, id, diff, q, fuel).nodes, id, q, fuel)
            == Outcome::<int>::Done(
            if rec_sum(m, id, q, fuel)->Done_0 + diff < 0 {
                0
            } else {
                rec_sum(m, id, q, fuel)->Done_0 + diff
            },
        ),
{
}

/// Adding to the count or time of a phase, or of a counter of phases, an
/// amount that does not take it below zero, and then reading it, gives
/// the old value and the addition.
pub proof fn lemma_add_then_read(m: Map<u128, CountableView>, id: CountableId, diff: int, q: Quantity, fuel: nat)
    requires
        simple_tree(m, id),
        rec_sum(m, id, q, fuel) is Done,
        rec_sum(m, id, q, fuel)->Done_0 + diff >= 0,
        fits(q, rec_sum(m, id, q, fuel)->Done_0 + diff),
        apply_diff(m, id, diff, q, fuel).result is Done,
    ensures
        rec_sum(apply_diff(m, id, diff, q, fuel).nodes, id, q, fuel) == Outcome::<int>::Done(
            rec_sum(m, id, q, fuel)->Done_0 + diff,
        ),
{
    let cur = rec_sum(m, id, q, fuel)->Done_0;
    match lookup(m, id) {
        Some(CountableView::Phase(p)) => {
        },
        Some(CountableView::Counter(c)) => {
            let ids = c.children;
            let n = ids.len();
            assert(fuel > 0);
            lemma_desc_of_phases(m, ids, n, fuel);
            assert(ids + Seq::<CountableId>::empty() =~= ids);
            assert(rec_desc(m, id, fuel) == Outcome::<Seq<CountableId>>::Done(ids));
            let u = distribute(m, ids, n, diff, q, fuel);
            lemma_distribute_phases(m, ids, n, diff, cur, q, fuel);
            assert(!ids.take(n as int).contains(id)) by {
                if ids.take(n as int).contains(id) {
                    let j = choose|j: int| 0 <= j < n && #[trigger] ids.take(n as int)[j] == id;
                    assert(ids[j] == id);
                    assert(is_phase_at(m, ids[j]));
                }
            }
            assert(u.nodes.get(id.0) == m.get(id.0));
            assert(lookup(u.nodes, id) == lookup(m, id));
        },
        _ => {
        },
    }
}

/// Writing the count or time of a phase alone and reading it gives the
/// value written, or the old value and the addition.
pub proof fn lemma_level_write_then_read(m: Map<u128, CountableView>, id: CountableId, value: int, add: bool, q: Quantity)
    requires
        is_phase_at(m, id),
        level_write(m, id, value, add, q).result is Done,
    ensures
        level_value(level_write(m, id, value, add, q).nodes, id, q) == Outcome::<int>::Done(
            if add { level_value(m, id, q)->Done_0 + value } else { value },
        ),
{
}

/// A phase marked successful twice is back as it was, and each toggle
/// flips whether it reads as successful.
pub proof fn lemma_toggle_success_twice(m: Map<u128, CountableView>, id: CountableId, fuel: nat)
    requires
        is_phase_at(m, id),
    ensures
        toggle_success_of(toggle_success_of(m, id).nodes, id).nodes == m,
        rec_success(toggle_success_of(m, id).nodes, id, fuel) == Outcome::<bool>::Done(
            !rec_success(m, id, fuel)->Done_0,
        ),
{
    let m1 = toggle_success_of(m, id).nodes;
    let m2 = toggle_success_of(m1, id).nodes;
    assert(m2 =~= m);
}

/// Renaming an element and reading its name gives the new name.
pub proof fn lemma_rename_then_name(m: Map<u128, CountableView>, id: CountableId, name: Seq<char>)
    requires
        rename(m, id, name).result is Done,
    ensures
        name_of(rename(m, id, name).nodes, id) == Outcome::<Seq<char>>::Done(name),
        rename(m, id, name).nodes.dom() == m.dom(),
{
    let v = m[id.0];
    assert(rename(m, id, name).nodes.dom() =~= m.dom());
    match v {
        CountableView::Counter(c) => {},
        CountableView::Phase(p) => {},
        CountableView::Chain => {},
    }
}

/// Archiving keeps every key and every mark already set; when it
/// succeeds the element itself is marked.
proof fn lemma_archive_keeps(m: Map<u128, CountableView>, id: CountableId, fuel: nat)
    ensures
        rec_archive(m, id, fuel).nodes.dom() == m.dom(),
        forall|k: u128| #[trigger] m.contains_key(k) && m[k].is_archived() ==> rec_archive(m, id, fuel).nodes[k].is_archived(),
        rec_archive(m, id, fuel).result is Done ==> rec_archive(m, id, fuel).nodes.contains_key(id.0)
            && rec_archive(m, id, fuel).nodes[id.0].is_archived(),
    decreases fuel, 1nat, 0nat,
{
    match rec_desc(m, id, fuel) {
        Outcome::Done(d) => {
            lemma_archive_all_keeps(m, d, d.len(), fuel);
            let u = archive_all(m, d, d.len(), fuel);
            if u.result is Done {
                match lookup(u.nodes, id) {
                    Some(CountableView::Counter(c)) => {
                        assert(u.nodes.insert(id.0, u.nodes[id.0].archived()).dom() =~= u.nodes.dom());
                    },
                    Some(CountableView::Phase(p)) => {
                        assert(u.nodes.insert(id.0, u.nodes[id.0].archived()).dom() =~= u.nodes.dom());
                    },
                    _ => {},
                }
            }
        },
        _ => {},
    }
}

/// Archiving a list of elements one after the other keeps every key and
/// mark, and when it succeeds marks each element of the list.
proof fn lemma_archive_all_keeps(m: Map<u128, CountableView>, d: Seq<CountableId>, n: nat, fuel: nat)
    ensures
        archive_all(m, d, n, fuel).nodes.dom() == m.dom(),
        forall|k: u128| #[trigger] m.contains_key(k) && m[k].is_archived() ==> archive_all(m, d, n, fuel).nodes[k].is_archived(),
        archive_all(m, d, n, fuel).result is Done ==> forall|i: int| 0 <= i < n ==> archive_all(m, d, n, fuel).nodes.contains_key(#[trigger] d[i].0)
            && archive_all(m, d, n, fuel).nodes[d[i].0].is_archived(),
    decreases fuel, 0nat, n,
{
    if n > 0 && fuel > 0 {
        lemma_archive_all_keeps(m, d, (n - 1) as nat, fuel);
        let u = archive_all(m, d, (n - 1) as nat, fuel);
        if u.result is Done {
            lemma_archive_keeps(u.nodes, d[n - 1], (fuel - 1) as nat);
            let u2 = rec_archive(u.nodes, d[n - 1], (fuel - 1) as nat);
            if u2.result is Done {
                assert forall|i: int| 0 <= i < n implies u2.nodes.contains_key(#[trigger] d[i].0) && u2.nodes[d[i].0].is_archived() by {
                    if i < n - 1 {
                        assert(u.nodes.contains_key(d[i].0) && u.nodes[d[i].0].is_archived());
                    }
                }
            }
        }
    }
}

/// Archiving an element marks it and every one of its descendants, and
/// keeps every element in the store.
pub proof fn lemma_archive_descendants(m: Map<u128, CountableView>, id: CountableId, fuel: nat)
    requires
        rec_archive(m, id, fuel).result is Done,
    ensures
        rec_archive(m, id, fuel).nodes.dom() == m.dom(),
        rec_archive(m, id, fuel).nodes[id.0].is_archived(),
        rec_desc(m, id, fuel) is Done,
        forall|i: int| 0 <= i < rec_desc(m, id, fuel)->Done_0.len() ==> #[trigger] rec_archive(m, id, fuel).nodes[rec_desc(m, id, fuel)->Done_0[i].0].is_archived(),
{
    lemma_archive_keeps(m, id, fuel);
    let d = rec_desc(m, id, fuel)->Done_0;
    lemma_archive_all_keeps(m, d, d.len(), fuel);
    let u = archive_all(m, d, d.len(), fuel);
    let v = u.nodes[id.0];
    let r = rec_archive(m, id, fuel).nodes;
    assert forall|i: int| 0 <= i < d.len() implies #[trigger] r[d[i].0].is_archived() by {
        assert(u.nodes.contains_key(d[i].0) && u.nodes[d[i].0].is_archived());
        assert(u.nodes.contains_key(d[i].0) && u.nodes[d[i].0].is_archived() ==> r[d[i].0].is_archived());
    }
}

/// Merging a store with itself changes nothing; a merge keeps the keys
/// of both sides; an incoming archived element always wins.
pub proof fn lemma_merge(mine: Map<u128, CountableView>, other: Map<u128, CountableView>, k: u128)
    ensures
        merged(mine, mine) == mine,
        merged(mine, other).dom() == mine.dom() + other.dom(),
        other.contains_key(k) && other[k].is_archived() ==> merged(mine, other)[k] == other[k],
        !other.contains_key(k) && mine.contains_key(k) ==> merged(mine, other)[k] == mine[k],
{
    assert(merged(mine, mine) =~= mine);
    assert(merged(mine, other).dom() =~= mine.dom() + other.dom());
}

/// What a merge keeps under a key that both stores hold: an element
/// archived here stays archived, whatever comes in; an element that comes
/// in archived is taken; otherwise the one here stays when it was edited
/// later than the incoming one or is archived, and the incoming one is
/// taken when it was edited at the same time or later and neither is
/// archived.
pub proof fn lemma_merge_keeps(mine: Map<u128, CountableView>, other: Map<u128, CountableView>, k: u128)
    requires
        mine.contains_key(k),
        other.contains_key(k),
    ensures
        mine[k].is_archived() ==> merged(mine, other)[k].is_archived(),
        mine[k].is_archived() && !other[k].is_archived() ==> merged(mine, other)[k] == mine[k],
        !other[k].is_archived() && mine[k].last_edit() > other[k].last_edit() ==> merged(mine, other)[k]
            == mine[k],
        !other[k].is_archived() && !mine[k].is_archived() && mine[k].last_edit() <= other[k].last_edit()
            ==> merged(mine, other)[k] == other[k],
{
}

/// Combining the hunt types of the first `n` of `d` reads each of them, and
/// gives one only when `n > 0`: a hunt type other than `Mixed` only when all
/// of them have it, and the one they share when they agree.
proof fn lemma_combine_hunttypes_agree(m: Map<u128, CountableView>, d: Seq<CountableId>, n: nat, fuel: nat)
    requires
        combine_hunttypes(m, d, n, fuel) is Done,
    ensures
        forall|i: int| #![trigger d[i]] 0 <= i < n ==> rec_hunttype(m, d[i], (fuel - 1) as nat) is Done,
        (combine_hunttypes(m, d, n, fuel)->Done_0 is None) == (n == 0),
        combine_hunttypes(m, d, n, fuel)->Done_0 is Some && combine_hunttypes(m, d, n, fuel)->Done_0->0
            != Hunttype::Mixed ==> forall|i: int|
            #![trigger d[i]]
            0 <= i < n ==> rec_hunttype(m, d[i], (fuel - 1) as nat)->Done_0 == combine_hunttypes(m, d, n, fuel)->Done_0->0,
        n > 0 && (forall|i: int|
            #![trigger d[i]]
            0 <= i < n ==> rec_hunttype(m, d[i], (fuel - 1) as nat)->Done_0 == rec_hunttype(m, d[0], (fuel - 1) as nat)->Done_0)
            ==> combine_hunttypes(m, d, n, fuel)->Done_0 == Some(rec_hunttype(m, d[0], (fuel - 1) as nat)->Done_0),
    decreases n,
{
    if n > 0 {
        lemma_combine_hunttypes_agree(m, d, (n - 1) as nat, fuel);
        let last = rec_hunttype(m, d[n - 1], (fuel - 1) as nat);
        assert(last is Done);
        assert forall|i: int| #![trigger d[i]] 0 <= i < n implies rec_hunttype(m, d[i], (fuel - 1) as nat) is Done by {
            if i < n - 1 {
                assert(d[i] == d[i]);
            }
        }
        let h = combine_hunttypes(m, d, n, fuel)->Done_0->0;
        if h != Hunttype::Mixed {
            assert forall|i: int| #![trigger d[i]] 0 <= i < n implies rec_hunttype(m, d[i], (fuel - 1) as nat)->Done_0 == h by {
                if i < n - 1 {
                    assert(d[i] == d[i]);
                }
            }
        }
        if forall|i: int|
            #![trigger d[i]]
            0 <= i < n ==> rec_hunttype(m, d[i], (fuel - 1) as nat)->Done_0 == rec_hunttype(m, d[0], (fuel - 1) as nat)->Done_0 {
            assert(d[n - 1] == d[n - 1]);
            if n > 1 {
                assert forall|i: int| #![trigger d[i]] 0 <= i < n - 1 implies rec_hunttype(m, d[i], (fuel - 1) as nat)->Done_0
                    == rec_hunttype(m, d[0], (fuel - 1) as nat)->Done_0 by {
                    assert(d[i] == d[i]);
                }
            }
        }
    }
}

/// The hunt type of a counter is the hunt types of all its descendants
/// combined: it reads each of them, it is `Mixed` when two of them differ,
/// it is a hunt type other than `Mixed` only when every descendant has it,
/// and it is the one they share when they all agree.
pub proof fn lemma_counter_hunttype(m: Map<u128, CountableView>, id: CountableId, fuel: nat)
    requires
        lookup(m, id) matches Some(CountableView::Counter(_)),
        rec_hunttype(m, id, fuel) is Done,
    ensures
        rec_desc(m, id, fuel) is Done,
        rec_desc(m, id, fuel)->Done_0.len() > 0,
        forall|i: int|
            #![trigger rec_desc(m, id, fuel)->Done_0[i]]
            0 <= i < rec_desc(m, id, fuel)->Done_0.len() ==> rec_hunttype(m, rec_desc(m, id, fuel)->Done_0[i], (fuel - 1) as nat) is Done,
        forall|i: int, j: int|
            #![trigger rec_desc(m, id, fuel)->Done_0[i], rec_desc(m, id, fuel)->Done_0[j]]
            0 <= i < rec_desc(m, id, fuel)->Done_0.len() && 0 <= j < rec_desc(m, id, fuel)->Done_0.len()
                && rec_hunttype(m, rec_desc(m, id, fuel)->Done_0[i], (fuel - 1) as nat) != rec_hunttype(
                m,
                rec_desc(m, id, fuel)->Done_0[j],
                (fuel - 1) as nat,
            ) ==> rec_hunttype(m, id, fuel)->Done_0 == Hunttype::Mixed,
        rec_hunttype(m, id, fuel)->Done_0 != Hunttype::Mixed ==> forall|i: int|
            #![trigger rec_desc(m, id, fuel)->Done_0[i]]
            0 <= i < rec_desc(m, id, fuel)->Done_0.len() ==> rec_hunttype(m, rec_desc(m, id, fuel)->Done_0[i], (fuel - 1) as nat)
                == Outcome::Done(rec_hunttype(m, id, fuel)->Done_0),
        (forall|i: int|
            #![trigger rec_desc(m, id, fuel)->Done_0[i]]
            0 <= i < rec_desc(m, id, fuel)->Done_0.len() ==> rec_hunttype(m, rec_desc(m, id, fuel)->Done_0[i], (fuel - 1) as nat)
                == rec_hunttype(m, rec_desc(m, id, fuel)->Done_0[0], (fuel - 1) as nat)) ==> rec_hunttype(m, id, fuel)
            == rec_hunttype(m, rec_desc(m, id, fuel)->Done_0[0], (fuel - 1) as nat),
{
    let d = rec_desc(m, id, fuel)->Done_0;
    lemma_combine_hunttypes_agree(m, d, d.len(), fuel);
}

} // verus!
