//! The first model's list of counters: each id kept once, sorted in the
//! chosen order and narrowed down by a search text.
use crate::legacy::{as_method, counts, sums_within, times, total, Phase, SerCounter, SortCountable};
use crate::sort::{not_after, tied, KeyView, SortKey, SortMethod};
use crate::sorting::{is_permutation, key_of, sort_stable, stably_sorted};
use vstd::prelude::*;
use vstd::utf8::encode_utf8;
use std::collections::HashMap;
use vstd::std_specs::iter::IteratorSpec;

verus! {

broadcast use vstd::std_specs::hash::group_hash_axioms;

/// What `str::to_lowercase` makes of a text.
pub uninterp spec fn lowercase(s: Seq<char>) -> Seq<char>;

/// Calls `str::to_lowercase`, which maps each character to its lower case
/// as Unicode defines it. The result depends on the text alone; it is named
/// `lowercase` and nothing more of it is claimed.
#[verifier::external_body]
fn to_lowercase(s: &str) -> (r: String)
    ensures
        r@ == lowercase(s@),
{
    s.to_lowercase()
}

/// Whether the bytes `s` start with the bytes `p`.
pub open spec fn bytes_start_with(s: Seq<u8>, p: Seq<u8>) -> bool {
    p.len() <= s.len() && s.subrange(0, p.len() as int) == p
}

/// Whether the bytes `p` stand somewhere in the bytes `s`.
pub open spec fn bytes_contain(s: Seq<u8>, p: Seq<u8>) -> bool {
    exists|i: int| 0 <= i && i + p.len() <= s.len() && #[trigger] s.subrange(i, i + p.len()) == p
}

/// Whether the lower-cased `name` starts with the search text `q`.
pub open spec fn name_starts(name: Seq<char>, q: Seq<char>) -> bool {
    bytes_start_with(encode_utf8(lowercase(name)), encode_utf8(q))
}

/// Whether the lower-cased `name` holds the search text `q`.
pub open spec fn name_contains(name: Seq<char>, q: Seq<char>) -> bool {
    bytes_contain(encode_utf8(lowercase(name)), encode_utf8(q))
}

/// Whether the name of one of `ps` starts with `q`.
pub open spec fn some_phase_starts(ps: Seq<Phase>, q: Seq<char>) -> bool {
    exists|i: int| 0 <= i < ps.len() && name_starts(#[trigger] ps[i].name@, q)
}

/// Whether the name of one of `ps` holds `q`.
pub open spec fn some_phase_contains(ps: Seq<Phase>, q: Seq<char>) -> bool {
    exists|i: int| 0 <= i < ps.len() && name_contains(#[trigger] ps[i].name@, q)
}

/// The group a counter falls in for the search text `q`, the best first:
/// its name starts with `q`, a phase's name does, its name holds `q`, a
/// phase's name does; 4 when none does and it is left out.
pub open spec fn search_group(c: SerCounter, q: Seq<char>) -> int {
    if name_starts(c.name@, q) {
        0
    } else if some_phase_starts(c.phase_list@, q) {
        1
    } else if name_contains(c.name@, q) {
        2
    } else if some_phase_contains(c.phase_list@, q) {
        3
    } else {
        4
    }
}

/// What a counter is sorted by under `m`: its id, name and creation time,
/// and its phases' count or time added up where `m` sorts by them.
pub open spec fn counter_key(m: SortMethod, c: SerCounter) -> KeyView {
    KeyView {
        id: c.uuid,
        name: c.name@,
        count: if m is Count {
            total(counts(c.phase_list@), c.phase_list@.len())
        } else {
            0
        },
        time: if m is Time {
            total(times(c.phase_list@), c.phase_list@.len())
        } else {
            0
        },
        created_at: c.created_at as int,
    }
}

/// Whether adding up what `m` sorts by stays within its type.
pub open spec fn key_fits(m: SortMethod, c: SerCounter) -> bool {
    &&& m is Count ==> sums_within(counts(c.phase_list@), c.phase_list@.len(), i32::MIN as int, i32::MAX as int)
    &&& m is Time ==> sums_within(times(c.phase_list@), c.phase_list@.len(), -i64::MAX as int, i64::MAX as int)
}

/// Whether `p` lists the positions of `list` in the order `m`, counters
/// that stand level in the order they have in `list`.
pub open spec fn sorted_order(m: SortMethod, list: Seq<SerCounter>, p: Seq<int>) -> bool {
    &&& is_permutation(p, list.len())
    &&& forall|i: int, j: int|
        0 <= i < j < p.len() ==> not_after(m, counter_key(m, list[#[trigger] p[i]]), counter_key(m, list[#[trigger] p[j]]))
    &&& forall|i: int, j: int|
        0 <= i < j < p.len() && tied(m, counter_key(m, list[#[trigger] p[i]]), counter_key(m, list[#[trigger] p[j]]))
            ==> p[i] < p[j]
}

/// The ids of the counters of `list` at the positions `p`, in that order.
pub open spec fn ids_at(list: Seq<SerCounter>, p: Seq<int>) -> Seq<u128> {
    p.map_values(|i: int| list[i].uuid)
}

/// The ids of the counters of `list` at the positions `p` that fall in
/// group `g` for the search text `q`, in that order.
pub open spec fn group_ids(list: Seq<SerCounter>, p: Seq<int>, q: Seq<char>, g: int) -> Seq<u128>
    decreases p.len(),
{
    if p.len() == 0 {
        Seq::empty()
    } else {
        let rest = group_ids(list, p.drop_last(), q, g);
        if search_group(list[p.last()], q) == g {
            rest.push(list[p.last()].uuid)
        } else {
            rest
        }
    }
}

/// The ids that the list shows when its counters come in the order `p`:
/// all of them without a search, else those whose name or a phase's name
/// starts with the search text, then those where a name holds it, each
/// group in the order `p`.
pub open spec fn shown_ids(list: Seq<SerCounter>, p: Seq<int>, search: Option<Seq<char>>) -> Seq<u128> {
    match search {
        None => ids_at(list, p),
        Some(q) => group_ids(list, p, q, 0) + group_ids(list, p, q, 1) + group_ids(list, p, q, 2) + group_ids(
            list,
            p,
            q,
            3,
        ),
    }
}

/// The ids of the phases `ps`, in order.
pub open spec fn phase_ids(ps: Seq<Phase>) -> Seq<u128> {
    ps.map_values(|p: Phase| p.uuid)
}

/// The ids of the first `n` counters of `list` and of their phases, each
/// counter followed by its phases.
pub open spec fn deep_ids(list: Seq<SerCounter>, n: nat) -> Seq<u128>
    decreases n,
{
    if n == 0 {
        Seq::empty()
    } else {
        deep_ids(list, (n - 1) as nat).push(list[n - 1].uuid) + phase_ids(list[n - 1].phase_list@)
    }
}

/// The counters of `cs` by their ids, a later counter of an id taking the
/// place of an earlier one.
pub open spec fn by_id(cs: Seq<SerCounter>) -> Map<u128, SerCounter>
    decreases cs.len(),
{
    if cs.len() == 0 {
        Map::empty()
    } else {
        by_id(cs.drop_last()).insert(cs.last().uuid, cs.last())
    }
}

/// Whether `ks` lists the ids of `m`, each once.
pub open spec fn enumerates(m: Map<u128, SerCounter>, ks: Seq<u128>) -> bool {
    ks.no_duplicates() && ks.to_set() == m.dom()
}

/// The counters of `m` in the order `ks` lists their ids.
pub open spec fn listing(m: Map<u128, SerCounter>, ks: Seq<u128>) -> Seq<SerCounter> {
    ks.map_values(|k: u128| m[k])
}

/// Whether the bytes `s` start with the bytes `p`.
fn starts_with_bytes(s: &[u8], p: &[u8]) -> (r: bool)
    ensures
        r == bytes_start_with(s@, p@),
{
    if p.len() > s.len() {
        return false;
    }
    let mut i: usize = 0;
    while i < p.len()
        invariant
            i <= p@.len(),
            p@.len() <= s@.len(),
            forall|j: int| 0 <= j < i ==> s@[j] == p@[j],
        decreases p@.len() - i,
    {
        if s[i] != p[i] {
            proof {
                assert(s@.subrange(0, p@.len() as int)[i as int] != p@[i as int]);
            }
            return false;
        }
        i = i + 1;
    }
    proof {
        assert(s@.subrange(0, p@.len() as int) =~= p@);
    }
    true
}

/// Whether the bytes `p` stand in `s` from index `start` on.
fn matches_at(s: &[u8], p: &[u8], start: usize) -> (r: bool)
    requires
        start + p@.len() <= s@.len(),
    ensures
        r == (s@.subrange(start as int, start + p@.len()) == p@),
{
    let n: usize = s.len();
    let mut i: usize = 0;
    while i < p.len()
        invariant
            i <= p@.len(),
            n == s@.len(),
            start + p@.len() <= s@.len(),
            forall|j: int| 0 <= j < i ==> s@[start + j] == p@[j],
        decreases p@.len() - i,
    {
        if s[start + i] != p[i] {
            proof {
                assert(s@.subrange(start as int, start + p@.len())[i as int] != p@[i as int]);
            }
            return false;
        }
        i = i + 1;
    }
    proof {
        assert(s@.subrange(start as int, start + p@.len()) =~= p@);
    }
    true
}

/// Whether the bytes `p` stand somewhere in `s`.
fn contains_bytes(s: &[u8], p: &[u8]) -> (r: bool)
    ensures
        r == bytes_contain(s@, p@),
{
    if p.len() > s.len() {
        return false;
    }
    let last = s.len() - p.len();
    let mut i: usize = 0;
    loop
        invariant
            last == s@.len() - p@.len(),
            i <= last,
            forall|j: int| 0 <= j < i ==> #[trigger] s@.subrange(j, j + p@.len()) != p@,
        decreases last - i,
    {
        if matches_at(s, p, i) {
            return true;
        }
        if i == last {
            return false;
        }
        i = i + 1;
    }
}

/// Whether the lower-cased `name` starts with `q`.
pub(crate) fn lower_starts(name: &String, q: &str) -> (r: bool)
    ensures
        r == name_starts(name@, q@),
{
    let lower = to_lowercase(name.as_str());
    starts_with_bytes(lower.as_str().as_bytes(), q.as_bytes())
}

/// Whether the lower-cased `name` holds `q`.
pub(crate) fn lower_contains(name: &String, q: &str) -> (r: bool)
    ensures
        r == name_contains(name@, q@),
{
    let lower = to_lowercase(name.as_str());
    contains_bytes(lower.as_str().as_bytes(), q.as_bytes())
}

/// Whether the name of a phase of `ps` starts with `q`, or holds it.
pub(crate) fn phase_matches(ps: &Vec<Phase>, q: &str, at_start: bool) -> (r: bool)
    ensures
        r == (if at_start {
            some_phase_starts(ps@, q@)
        } else {
            some_phase_contains(ps@, q@)
        }),
{
    let mut i: usize = 0;
    while i < ps.len()
        invariant
            i <= ps@.len(),
            forall|j: int|
                0 <= j < i ==> !(if at_start {
                    name_starts(#[trigger] ps@[j].name@, q@)
                } else {
                    name_contains(ps@[j].name@, q@)
                }),
        decreases ps@.len() - i,
    {
        let hit = if at_start {
            lower_starts(&ps[i].name, q)
        } else {
            lower_contains(&ps[i].name, q)
        };
        if hit {
            return true;
        }
        i = i + 1;
    }
    false
}

/// The group `c` falls in for the search text `q`.
fn group_of(c: &SerCounter, q: &str) -> (r: u8)
    ensures
        r == search_group(*c, q@),
{
    if lower_starts(&c.name, q) {
        0
    } else if phase_matches(&c.phase_list, q, true) {
        1
    } else if lower_contains(&c.name, q) {
        2
    } else if phase_matches(&c.phase_list, q, false) {
        3
    } else {
        4
    }
}

/// The key `c` is sorted by under `m`.
fn counter_sort_key(m: SortMethod, c: &SerCounter) -> (r: SortKey)
    requires
        key_fits(m, *c),
    ensures
        r@ == counter_key(m, *c),
{
    let count = match m {
        SortMethod::Count(_) => c.get_count(),
        _ => 0,
    };
    let time = match m {
        SortMethod::Time(_) => c.get_time(),
        _ => 0,
    };
    SortKey { id: c.uuid, name: c.name.clone(), count, time, created_at: c.created_at }
}

/// The counters of the first model by id, with the order they are listed
/// in and the text they are searched for.
pub struct CounterList {
    pub list: HashMap<u128, SerCounter>,
    search: Option<String>,
    pub sort: SortCountable,
}

/// The ids of `m`, each once, in the map's own order.
fn ids_of(m: &HashMap<u128, SerCounter>) -> (r: Vec<u128>)
    ensures
        enumerates(m@, r@),
        r@.len() == m@.dom().len(),
{
    let mut out: Vec<u128> = Vec::new();
    let ghost all = vstd::std_specs::hash::spec_keys_iter(m).remaining();
    for k in it: m.keys()
        invariant
            it.seq() == all,
            out@.len() == it.index(),
            forall|i: int| 0 <= i < it.index() ==> out@[i] == *all[i],
    {
        out.push(*k);
    }
    proof {
        assert(out@ =~= all.unref());
    }
    out
}

/// The counters of `counters` by id, a later one of an id taking the place
/// of an earlier one.
fn by_id_exec(counters: Vec<SerCounter>) -> (r: HashMap<u128, SerCounter>)
    ensures
        r@ == by_id(counters@),
{
    let ghost input = counters@;
    let n: usize = counters.len();
    let mut rest = counters;
    let mut m: HashMap<u128, SerCounter> = HashMap::new();
    let mut k: usize = 0;
    proof {
        assert(rest@ =~= input.subrange(0, n as int));
        assert(input.take(0) =~= Seq::<SerCounter>::empty());
    }
    while rest.len() > 0
        invariant
            n == input.len(),
            k <= n,
            rest@ == input.subrange(k as int, n as int),
            m@ == by_id(input.take(k as int)),
        decreases rest@.len(),
    {
        let c = rest.remove(0);
        proof {
            assert(input[k as int] == c);
            assert(input.take(k + 1).drop_last() =~= input.take(k as int));
        }
        let id = c.uuid;
        m.insert(id, c);
        k = k + 1;
        proof {
            assert(rest@ =~= input.subrange(k as int, n as int));
        }
    }
    proof {
        assert(input.take(n as int) =~= input);
    }
    m
}

impl CounterList {
    /// The counters, by id.
    pub closed spec fn items(&self) -> Map<u128, SerCounter> {
        self.list@
    }

    /// The order the counters are listed in.
    pub closed spec fn order(&self) -> SortCountable {
        self.sort
    }

    /// The search text, lower-cased, if there is one.
    pub closed spec fn query(&self) -> Option<Seq<char>> {
        match self.search {
            Some(s) => Some(s@),
            None => None,
        }
    }

    /// A list of `counters` by id, a later counter of an id taking the place
    /// of an earlier one, sorted by name and not searched.
    pub fn new(counters: Vec<SerCounter>) -> (r: CounterList)
        ensures
            r.items() == by_id(counters@),
            r.query() == None::<Seq<char>>,
            r.order() == SortCountable::Name(false),
    {
        CounterList { list: by_id_exec(counters), search: None, sort: SortCountable::Name(false) }
    }

    /// The counters, in the map's own order.
    pub fn into_counters(self) -> (r: Vec<SerCounter>)
        ensures
            exists|ks: Seq<u128>| enumerates(self.items(), ks) && r@ == listing(self.items(), ks),
    {
        let ghost m0 = self.list@;
        let ks = ids_of(&self.list);
        let mut m = self.list;
        let mut out: Vec<SerCounter> = Vec::new();
        let mut i: usize = 0;
        while i < ks.len()
            invariant
                i <= ks@.len(),
                enumerates(m0, ks@),
                m@ == m0.remove_keys(ks@.take(i as int).to_set()),
                out@ == listing(m0, ks@.take(i as int)),
            decreases ks@.len() - i,
        {
            let k = ks[i];
            proof {
                assert(m0.contains_key(k)) by {
                    assert(ks@.to_set().contains(ks@[i as int]));
                }
                assert(!ks@.take(i as int).to_set().contains(k)) by {
                    if ks@.take(i as int).to_set().contains(k) {
                        let j = choose|j: int| 0 <= j < i && ks@.take(i as int)[j] == k;
                        assert(ks@[j] == ks@[i as int]);
                    }
                }
            }
            let c = m.remove(&k).unwrap();
            out.push(c);
            i = i + 1;
            proof {
                assert(ks@.take(i as int) =~= ks@.take(i - 1).push(k));
                ks@.take(i - 1).lemma_push_to_set_commute(k);
                assert(ks@.take(i as int).to_set() =~= ks@.take(i - 1).to_set().insert(k));
                assert(m@ =~= m0.remove_keys(ks@.take(i as int).to_set()));
                assert(out@ =~= listing(m0, ks@.take(i as int)));
            }
        }
        proof {
            assert(ks@.take(i as int) =~= ks@);
            assert(enumerates(self.items(), ks@) && out@ == listing(self.items(), ks@));
        }
        out
    }

    /// Searches for `value`, lower-cased.
    pub fn search(&mut self, value: &str)
        ensures
            final(self).query() == Some(lowercase(value@)),
            final(self).items() == old(self).items(),
            final(self).order() == old(self).order(),
    {
        self.search = Some(to_lowercase(value));
    }

    /// The ids of the counters, each once, in the map's own order.
    pub fn get_items(&self) -> (r: Vec<u128>)
        ensures
            enumerates(self.items(), r@),
    {
        ids_of(&self.list)
    }

    /// The ids of every counter and of every phase in them, each counter
    /// followed by its phases, the counters in the map's own order.
    pub fn flat(&self) -> (r: Vec<u128>)
        ensures
            exists|ks: Seq<u128>|
                enumerates(self.items(), ks) && r@ == deep_ids(listing(self.items(), ks), ks.len()),
    {
        let ks = ids_of(&self.list);
        let ghost l = listing(self.list@, ks@);
        let mut r: Vec<u128> = Vec::new();
        let mut i: usize = 0;
        while i < ks.len()
            invariant
                i <= ks@.len(),
                enumerates(self.list@, ks@),
                l == listing(self.list@, ks@),
                r@ == deep_ids(l, i as nat),
            decreases ks@.len() - i,
        {
            proof {
                assert(ks@.to_set().contains(ks@[i as int]));
            }
            let c = self.list.get(&ks[i]).unwrap();
            proof {
                assert(*c == l[i as int]);
            }
            r.push(c.uuid);
            let ghost base = r@;
            let mut j: usize = 0;
            while j < c.phase_list.len()
                invariant
                    j <= c.phase_list@.len(),
                    r@ == base + phase_ids(c.phase_list@.take(j as int)),
                decreases c.phase_list@.len() - j,
            {
                r.push(c.phase_list[j].uuid);
                j = j + 1;
                proof {
                    assert(phase_ids(c.phase_list@.take(j as int)) =~= phase_ids(c.phase_list@.take(j - 1)).push(
                        c.phase_list@[j - 1].uuid,
                    ));
                    assert(r@ =~= base + phase_ids(c.phase_list@.take(j as int)));
                }
            }
            proof {
                assert(c.phase_list@.take(j as int) =~= c.phase_list@);
            }
            i = i + 1;
        }
        proof {
            assert(l.len() == ks@.len());
            assert(enumerates(self.items(), ks@) && r@ == deep_ids(listing(self.items(), ks@), ks@.len()));
        }
        r
    }

    /// Replaces the counters with `data`, by id.
    pub fn load_offline(&mut self, data: Vec<SerCounter>)
        ensures
            final(self).items() == by_id(data@),
            final(self).query() == old(self).query(),
            final(self).order() == old(self).order(),
    {
        self.list = by_id_exec(data);
    }

    /// The ids of the counters as the list shows them: the counters taken in
    /// the map's own order and sorted in the list's order, counters that
    /// stand level kept in that order; with a search, only those that match,
    /// the best matches first.
    pub fn get_filtered_list(&self) -> (r: Vec<u128>)
        requires
            forall|k: u128| #[trigger] self.items().contains_key(k) ==> key_fits(as_method(self.order()), self.items()[k]),
        ensures
            exists|ks: Seq<u128>, p: Seq<int>|
                enumerates(self.items(), ks) && sorted_order(as_method(self.order()), listing(self.items(), ks), p)
                    && r@ == shown_ids(listing(self.items(), ks), p, self.query()),
    {
        let m = self.sort.method();
        let ks = ids_of(&self.list);
        let ghost l = listing(self.list@, ks@);
        let n = ks.len();
        let mut items: Vec<(SortKey, usize)> = Vec::new();
        let mut i: usize = 0;
        proof {
            assert forall|j: int| 0 <= j < n implies key_fits(m, #[trigger] l[j]) by {
                assert(ks@.to_set().contains(ks@[j]));
                assert(self.items().contains_key(ks@[j]));
            }
        }
        while i < n
            invariant
                n == ks@.len(),
                i <= n,
                m == as_method(self.sort),
                enumerates(self.list@, ks@),
                l == listing(self.list@, ks@),
                forall|j: int| 0 <= j < n ==> key_fits(m, #[trigger] l[j]),
                items@.len() == i,
                forall|j: int| 0 <= j < i ==> (#[trigger] items@[j]).1 == j && key_of(items@[j]) == counter_key(m, l[j]),
            decreases n - i,
        {
            proof {
                assert(ks@.to_set().contains(ks@[i as int]));
            }
            let c = self.list.get(&ks[i]).unwrap();
            proof {
                assert(*c == l[i as int]);
            }
            let key = counter_sort_key(m, c);
            items.push((key, i));
            i = i + 1;
        }
        let ghost input = items@;
        let sorted = sort_stable(m, items);
        let ghost p = choose|p: Seq<int>| stably_sorted(m, input, sorted@, p);
        proof {
            lemma_sorted_positions(m, l, input, sorted@, p);
        }
        let r = match &self.search {
            None => self.ids_in(&ks, &sorted, Ghost(p)),
            Some(q) => {
                let mut g0 = self.group_in(&ks, &sorted, Ghost(p), q.as_str(), 0);
                let mut g1 = self.group_in(&ks, &sorted, Ghost(p), q.as_str(), 1);
                let mut g2 = self.group_in(&ks, &sorted, Ghost(p), q.as_str(), 2);
                let mut g3 = self.group_in(&ks, &sorted, Ghost(p), q.as_str(), 3);
                let ghost (b0, b1, b2, b3) = (g0@, g1@, g2@, g3@);
                g0.append(&mut g1);
                g0.append(&mut g2);
                g0.append(&mut g3);
                proof {
                    assert(g0@ == b0 + b1 + b2 + b3);
                }
                g0
            },
        };
        proof {
            assert(enumerates(self.items(), ks@) && sorted_order(as_method(self.order()), listing(self.items(), ks@), p)
                && r@ == shown_ids(listing(self.items(), ks@), p, self.query()));
        }
        r
    }

    /// The ids of the counters at the positions that `sorted` carries in
    /// the listing `ks`.
    fn ids_in(&self, ks: &Vec<u128>, sorted: &Vec<(SortKey, usize)>, Ghost(p): Ghost<Seq<int>>) -> (r: Vec<u128>)
        requires
            enumerates(self.list@, ks@),
            sorted@.len() == p.len(),
            forall|i: int| 0 <= i < p.len() ==> (#[trigger] sorted@[i]).1 == p[i] && 0 <= p[i] < ks@.len(),
        ensures
            r@ == ids_at(listing(self.list@, ks@), p),
    {
        let ghost l = listing(self.list@, ks@);
        let mut r: Vec<u128> = Vec::new();
        let mut k: usize = 0;
        proof {
            assert forall|i: int| 0 <= i < p.len() implies 0 <= #[trigger] p[i] < l.len() by {
                assert(sorted@[i].1 == p[i]);
            }
        }
        while k < sorted.len()
            invariant
                k <= sorted@.len(),
                sorted@.len() == p.len(),
                enumerates(self.list@, ks@),
                l == listing(self.list@, ks@),
                forall|i: int| 0 <= i < p.len() ==> (#[trigger] sorted@[i]).1 == p[i],
                forall|i: int| 0 <= i < p.len() ==> 0 <= #[trigger] p[i] < l.len(),
                l.len() == ks@.len(),
                r@ == ids_at(l, p.take(k as int)),
            decreases sorted@.len() - k,
        {
            let idx = sorted[k].1;
            proof {
                assert(ks@.to_set().contains(ks@[idx as int]));
            }
            let c = self.list.get(&ks[idx]).unwrap();
            r.push(c.uuid);
            k = k + 1;
            proof {
                assert(p.take(k as int) =~= p.take(k - 1).push(p[k - 1]));
                assert(r@ =~= ids_at(l, p.take(k as int)));
            }
        }
        proof {
            assert(p.take(k as int) =~= p);
        }
        r
    }

    /// The ids of the counters at the positions that `sorted` carries in
    /// the listing `ks` that fall in group `g` for the search text `q`.
    fn group_in(&self, ks: &Vec<u128>, sorted: &Vec<(SortKey, usize)>, Ghost(p): Ghost<Seq<int>>, q: &str, g: u8) -> (r: Vec<u128>)
        requires
            enumerates(self.list@, ks@),
            sorted@.len() == p.len(),
            forall|i: int| 0 <= i < p.len() ==> (#[trigger] sorted@[i]).1 == p[i] && 0 <= p[i] < ks@.len(),
        ensures
            r@ == group_ids(listing(self.list@, ks@), p, q@, g as int),
    {
        let ghost l = listing(self.list@, ks@);
        let mut r: Vec<u128> = Vec::new();
        let mut k: usize = 0;
        proof {
            assert forall|i: int| 0 <= i < p.len() implies 0 <= #[trigger] p[i] < l.len() by {
                assert(sorted@[i].1 == p[i]);
            }
        }
        while k < sorted.len()
            invariant
                k <= sorted@.len(),
                sorted@.len() == p.len(),
                enumerates(self.list@, ks@),
                l == listing(self.list@, ks@),
                forall|i: int| 0 <= i < p.len() ==> (#[trigger] sorted@[i]).1 == p[i],
                forall|i: int| 0 <= i < p.len() ==> 0 <= #[trigger] p[i] < l.len(),
                l.len() == ks@.len(),
                r@ == group_ids(l, p.take(k as int), q@, g as int),
            decreases sorted@.len() - k,
        {
            let idx = sorted[k].1;
            proof {
                assert(ks@.to_set().contains(ks@[idx as int]));
            }
            let c = self.list.get(&ks[idx]).unwrap();
            proof {
                assert(*c == l[idx as int]);
            }
            let got = group_of(c, q);
            proof {
                assert(p.take(k + 1).drop_last() =~= p.take(k as int));
                assert(p.take(k + 1).last() == p[k as int]);
            }
            if got == g {
                r.push(c.uuid);
            }
            k = k + 1;
        }
        proof {
            assert(p.take(k as int) =~= p);
        }
        r
    }
}

impl Default for CounterList {
    /// An empty list sorted by name and not searched.
    fn default() -> (r: CounterList)
        ensures
            r.items() == Map::<u128, SerCounter>::empty(),
            r.query() == None::<Seq<char>>,
            r.order() == SortCountable::Name(false),
    {
        CounterList { list: HashMap::new(), search: None, sort: SortCountable::Name(false) }
    }
}

/// Searching for nothing shows every counter, in the order of the list.
pub proof fn lemma_empty_search(list: Seq<SerCounter>, p: Seq<int>)
    ensures
        shown_ids(list, p, Some(Seq::<char>::empty())) == ids_at(list, p),
{
    lemma_empty_search_groups(list, p);
    assert(group_ids(list, p, Seq::<char>::empty(), 0) + group_ids(list, p, Seq::<char>::empty(), 1) + group_ids(
        list,
        p,
        Seq::<char>::empty(),
        2,
    ) + group_ids(list, p, Seq::<char>::empty(), 3) =~= ids_at(list, p));
}

/// With an empty search text every counter falls in the first group.
proof fn lemma_empty_search_groups(list: Seq<SerCounter>, p: Seq<int>)
    ensures
        group_ids(list, p, Seq::<char>::empty(), 0) == ids_at(list, p),
        group_ids(list, p, Seq::<char>::empty(), 1) == Seq::<u128>::empty(),
        group_ids(list, p, Seq::<char>::empty(), 2) == Seq::<u128>::empty(),
        group_ids(list, p, Seq::<char>::empty(), 3) == Seq::<u128>::empty(),
    decreases p.len(),
{
    let q = Seq::<char>::empty();
    if p.len() > 0 {
        lemma_empty_search_groups(list, p.drop_last());
        let c = list[p.last()];
        let b = encode_utf8(lowercase(c.name@));
        assert(encode_utf8(q) =~= Seq::<u8>::empty());
        assert(b.subrange(0, 0) =~= Seq::<u8>::empty());
        assert(name_starts(c.name@, q));
        assert(ids_at(list, p) =~= ids_at(list, p.drop_last()).push(list[p.last()].uuid));
    } else {
        assert(ids_at(list, p) =~= Seq::<u128>::empty());
    }
}

/// The entries that sorting `input` gives carry the positions `p`, and the
/// counters at those positions come in the order `m`.
proof fn lemma_sorted_positions(
    m: SortMethod,
    list: Seq<SerCounter>,
    input: Seq<(SortKey, usize)>,
    sorted: Seq<(SortKey, usize)>,
    p: Seq<int>,
)
    requires
        input.len() == list.len(),
        forall|j: int| 0 <= j < input.len() ==> (#[trigger] input[j]).1 == j && key_of(input[j]) == counter_key(m, list[j]),
        stably_sorted(m, input, sorted, p),
    ensures
        sorted.len() == p.len(),
        forall|i: int| 0 <= i < p.len() ==> (#[trigger] sorted[i]).1 == p[i] && 0 <= p[i] < list.len(),
        sorted_order(m, list, p),
{
    assert forall|i: int| 0 <= i < p.len() implies (#[trigger] sorted[i]).1 == p[i] && 0 <= p[i] < list.len()
        && key_of(sorted[i]) == counter_key(m, list[p[i]]) by {
        assert(sorted[i] == input[p[i]]);
    }
    assert forall|i: int, j: int| 0 <= i < j < p.len() implies not_after(
        m,
        counter_key(m, list[#[trigger] p[i]]),
        counter_key(m, list[#[trigger] p[j]]),
    ) by {
        assert(key_of(sorted[i]) == counter_key(m, list[p[i]]));
        assert(key_of(sorted[j]) == counter_key(m, list[p[j]]));
    }
    assert forall|i: int, j: int|
        0 <= i < j < p.len() && tied(m, counter_key(m, list[#[trigger] p[i]]), counter_key(m, list[#[trigger] p[j]]))
            implies p[i] < p[j] by {
        assert(key_of(sorted[i]) == counter_key(m, list[p[i]]));
        assert(key_of(sorted[j]) == counter_key(m, list[p[j]]));
    }
}

} // verus!
