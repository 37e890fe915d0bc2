//! The store the application works with: one kind of store that reports
//! failures as errors in its `_checked` operations and expects them not to
//! happen in the others. Counts and times of a counter are adjusted
//! through its direct children.
use crate::error::AppError;
use crate::store::{
    child_adjust, child_set, created_at_of, kind_of, lookup, name_of, rec_charm, rec_completed, rec_success,
    rec_sum, rename, add_new, new_outcome, toggle_success_of, usize_rolls, Checked, Outcome, Quantity,
    Recursive,
};
use vstd::prelude::*;
use std::collections::HashMap;

pub use crate::nodes::{Chain, Countable, CountableId, CountableKind, CountableView, Hunttype, Masuda};
use crate::nodes::spec_new_countable;

verus! {

/// The elements of a user, keyed by the bits of their ids.
pub struct CountableStore {
    pub inner: crate::store::CountableStore<Recursive, Checked>,
}

impl View for CountableStore {
    type V = Map<u128, CountableView>;

    open spec fn view(&self) -> Map<u128, CountableView> {
        self.inner@
    }
}

/// The parent of the element under `id`, where the store holds it: none
/// for a root, a missing element or a parent that is not in the store.
pub open spec fn parent_view(m: Map<u128, CountableView>, id: CountableId) -> Outcome<Option<CountableView>> {
    match lookup(m, id) {
        None => Outcome::Done(None),
        Some(CountableView::Counter(c)) => Outcome::Done(
            match c.parent {
                Some(p) => lookup(m, p),
                None => None,
            },
        ),
        Some(CountableView::Phase(p)) => Outcome::Done(lookup(m, p.parent)),
        Some(CountableView::Chain) => Outcome::Stuck,
    }
}

/// The children of the element under `id` that the store holds, in order.
pub open spec fn children_view(m: Map<u128, CountableView>, id: CountableId) -> Outcome<Seq<CountableView>> {
    match lookup(m, id) {
        None => Outcome::Fail(AppError::CountableNotFound),
        Some(CountableView::Counter(c)) => Outcome::Done(present(m, c.children, c.children.len())),
        Some(_) => Outcome::Done(Seq::empty()),
    }
}

/// The elements under the first `n` of `ids` that `m` holds, in order.
pub open spec fn present(m: Map<u128, CountableView>, ids: Seq<CountableId>, n: nat) -> Seq<CountableView>
    decreases n,
{
    if n == 0 {
        Seq::empty()
    } else {
        let r = present(m, ids, (n - 1) as nat);
        if m.contains_key(ids[n - 1].0) {
            r.push(m[ids[n - 1].0])
        } else {
            r
        }
    }
}

/// The hunt type of the element under `id`: a phase's own; for a counter
/// the hunt type of its first child (the default where it has none or it
/// fails), or `Mixed` where any child differs from it.
pub open spec fn hunttype_of(m: Map<u128, CountableView>, id: CountableId, fuel: nat) -> Outcome<Hunttype>
    decreases fuel, 1nat, 0nat,
{
    match lookup(m, id) {
        None => Outcome::Fail(AppError::CountableNotFound),
        Some(CountableView::Phase(p)) => Outcome::Done(p.hunt_type),
        Some(CountableView::Chain) => Outcome::Stuck,
        Some(CountableView::Counter(c)) => if c.children.len() == 0 {
            Outcome::Done(Hunttype::OldOdds)
        } else if fuel == 0 {
            Outcome::Stuck
        } else {
            match hunttype_of(m, c.children[0], (fuel - 1) as nat) {
                Outcome::Done(h) => scan_hunttypes(m, c.children, 0, h, fuel),
                Outcome::Fail(_) => scan_hunttypes(m, c.children, 0, Hunttype::OldOdds, fuel),
                Outcome::Stuck => Outcome::Stuck,
            }
        },
    }
}

/// Compares the hunt types of `ids` from index `i` on with `ht`, in order:
/// `Mixed` at the first that differs, `ht` where none does.
pub open spec fn scan_hunttypes(m: Map<u128, CountableView>, ids: Seq<CountableId>, i: nat, ht: Hunttype, fuel: nat) -> Outcome<Hunttype>
    decreases fuel, 0nat, ids.len() - i,
{
    if i >= ids.len() {
        Outcome::Done(ht)
    } else if fuel == 0 {
        Outcome::Stuck
    } else {
        match hunttype_of(m, ids[i as int], (fuel - 1) as nat) {
            Outcome::Done(h) => if h != ht {
                Outcome::Done(Hunttype::Mixed)
            } else {
                scan_hunttypes(m, ids, i + 1, ht, fuel)
            },
            Outcome::Fail(e) => Outcome::Fail(e),
            Outcome::Stuck => Outcome::Stuck,
        }
    }
}

/// Whether the element under `k` is listed among the roots: the parent
/// of the element its own id names is none.
pub open spec fn is_top(m: Map<u128, CountableView>, k: u128) -> bool {
    m.contains_key(k) && parent_view(m, CountableId(m[k].uuid())) == Outcome::<Option<CountableView>>::Done(None)
}

/// The keys of `ks` whose elements are listed among the roots, in order.
pub open spec fn keep_tops(m: Map<u128, CountableView>, ks: Seq<u128>) -> Seq<u128>
    decreases ks.len(),
{
    if ks.len() == 0 {
        Seq::empty()
    } else {
        let r = keep_tops(m, ks.drop_last());
        if is_top(m, ks.last()) {
            r.push(ks.last())
        } else {
            r
        }
    }
}

proof fn lemma_keep_tops(m: Map<u128, CountableView>, ks: Seq<u128>)
    requires
        ks.no_duplicates(),
    ensures
        keep_tops(m, ks).no_duplicates(),
        forall|x: u128| keep_tops(m, ks).contains(x) <==> (ks.contains(x) && is_top(m, x)),
    decreases ks.len(),
{
    if ks.len() > 0 {
        let init = ks.drop_last();
        assert(init.no_duplicates()) by {
            assert forall|a: int, b: int| 0 <= a < b < init.len() implies init[a] != init[b] by {
                assert(ks[a] == init[a] && ks[b] == init[b]);
            }
        }
        lemma_keep_tops(m, init);
        let r = keep_tops(m, init);
        let last = ks.last();
        assert(!init.contains(last)) by {
            if init.contains(last) {
                let j = choose|j: int| 0 <= j < init.len() && init[j] == last;
                assert(ks[j] == ks[ks.len() - 1]);
            }
        }
        assert forall|x: u128| ks.contains(x) <==> (init.contains(x) || x == last) by {
            if ks.contains(x) && x != last {
                let j = choose|j: int| 0 <= j < ks.len() && ks[j] == x;
                assert(init[j] == x);
            }
            if init.contains(x) {
                let j = choose|j: int| 0 <= j < init.len() && init[j] == x;
                assert(ks[j] == x);
            }
            if x == last {
                assert(ks[ks.len() - 1] == x);
            }
        }
        if !is_top(m, last) {
            assert(keep_tops(m, ks) == r);
        } else {
            let r2 = r.push(last);
            assert(keep_tops(m, ks) == r2);
            assert forall|x: u128| r2.contains(x) <==> (r.contains(x) || x == last) by {
                if r2.contains(x) && x != last {
                    let j = choose|j: int| 0 <= j < r2.len() && r2[j] == x;
                    assert(r[j] == x);
                }
                if r.contains(x) {
                    let j = choose|j: int| 0 <= j < r.len() && r[j] == x;
                    assert(r2[j] == x);
                }
                if x == last {
                    assert(r2[r.len() as int] == x);
                }
            }
            assert(r2.no_duplicates()) by {
                assert forall|a: int, b: int| 0 <= a < b < r2.len() implies r2[a] != r2[b] by {
                    if b == r.len() {
                        assert(r2[a] == r[a]);
                        assert(r.contains(r[a]));
                    } else {
                        assert(r2[a] == r[a] && r2[b] == r[b]);
                    }
                }
            }
        }
    }
}

impl CountableStore {
    /// The number of elements, which bounds how deep a walk down the tree
    /// can go before it meets an element twice.
    pub open spec fn fuel(&self) -> nat {
        self.inner.fuel()
    }

    /// A store of `owner` that holds `store`, with nothing selected.
    pub fn new(owner: u128, store: HashMap<u128, Countable>) -> (r: Self)
        ensures
            r.inner.owner == owner,
            r.inner.store@ == store@,
            r.inner.selection@.len() == 0,
    {
        CountableStore { inner: crate::store::CountableStore::new(owner, store) }
    }

    pub fn contains(&self, countable: &CountableId) -> (r: bool)
        ensures
            r == self@.contains_key(countable.0),
    {
        self.inner.contains(countable)
    }

    /// A copy of the element under `countable`, if there is one.
    pub fn get(&self, countable: &CountableId) -> (r: Option<Countable>)
        ensures
            match r {
                Some(c) => self@.contains_key(countable.0) && c@ == self@[countable.0],
                None => !self@.contains_key(countable.0),
            },
    {
        self.inner.get(countable)
    }

    pub fn len(&self) -> (r: usize)
        ensures
            r == self@.dom().len(),
    {
        self.inner.len()
    }

    /// Adds a new element under a fresh random id, created now, and appends
    /// it to the children of `parent` where one is given. The element is
    /// stored even when the parent is missing or cannot hold children.
    pub fn new_countable_checked(&mut self, name: &str, kind: CountableKind, parent: Option<CountableId>) -> (r: Result<
        CountableId,
        AppError,
    >)
        requires
            kind is Phase ==> parent is Some,
            !(kind is Chain),
        ensures
            exists|uuid: u128, now: i64|
                final(self)@ == add_new(old(self)@, spec_new_countable(name@, kind, old(self).inner.owner, parent, uuid, now), uuid, parent)
                && new_outcome(old(self)@, spec_new_countable(name@, kind, old(self).inner.owner, parent, uuid, now), uuid, parent, r),
            final(self).inner.is_changed == (old(self).inner.is_changed || r is Ok),
            final(self).inner.owner == old(self).inner.owner,
            final(self).inner.selection@ == old(self).inner.selection@,
    {
        self.inner.new_countable(name, kind, parent)
    }

    /// `new_countable_checked` for a parent that is a counter in the store.
    pub fn new_countable(&mut self, name: &str, kind: CountableKind, parent: Option<CountableId>) -> (r: CountableId)
        requires
            kind is Phase ==> parent is Some,
            !(kind is Chain),
            parent matches Some(p) ==> old(self)@.contains_key(p.0) && old(self)@[p.0] is Counter,
        ensures
            exists|uuid: u128, now: i64|
                final(self)@ == add_new(old(self)@, spec_new_countable(name@, kind, old(self).inner.owner, parent, uuid, now), uuid, parent)
                && r == CountableId(uuid),
            final(self).inner.owner == old(self).inner.owner,
            final(self).inner.selection@ == old(self).inner.selection@,
    {
        let uuid = crate::clock::new_uuid();
        let now = crate::clock::now_micros();
        let _ = self.inner.new_countable_with(name, kind, parent, uuid, now);
        CountableId(uuid)
    }

    /// The elements whose parents the store does not hold, in the store's
    /// own order.
    pub fn root_nodes(&self) -> (r: Vec<Countable>)
        requires
            forall|k: u128| #[trigger] self@.contains_key(k) ==> !(self@[k] is Chain)
                && !parent_view(self@, CountableId(self@[k].uuid())).is_stuck(),
        ensures
            crate::store::lists_elements(r@, self@, self@.dom().filter(|k: u128| is_top(self@, k))),
    {
        let keys = crate::store::keys_of(&self.inner.store);
        let ghost m = self@;
        let mut out: Vec<Countable> = Vec::new();
        let ghost mut ks: Seq<u128> = Seq::empty();
        let mut i: usize = 0;
        while i < keys.len()
            invariant
                i <= keys@.len(),
                m == self@,
                keys@.no_duplicates(),
                keys@.to_set() == self.inner.store@.dom(),
                forall|k: u128| #[trigger] self@.contains_key(k) ==> !(self@[k] is Chain)
                    && !parent_view(self@, CountableId(self@[k].uuid())).is_stuck(),
                ks == keep_tops(m, keys@.take(i as int)),
                ks.len() == out@.len(),
                forall|j: int| 0 <= j < ks.len() ==> m.contains_key(#[trigger] ks[j]),
                forall|j: int| 0 <= j < out@.len() ==> (#[trigger] out@[j])@ == m[ks[j]],
            decreases keys@.len() - i,
        {
            let k = keys[i];
            proof {
                assert(keys@.to_set().contains(k));
                assert(self@.contains_key(k));
                assert(keys@.take(i + 1).drop_last() =~= keys@.take(i as int));
                assert(keys@.take(i + 1).last() == k);
            }
            let c = self.inner.store.get(&k).unwrap();
            let uuid = match c {
                Countable::Counter(x) => x.uuid,
                Countable::Phase(x) => x.uuid,
                Countable::Chain(_) => 0,
            };
            let top = match self.parent_checked(&CountableId(uuid)) {
                Ok(None) => true,
                _ => false,
            };
            proof {
                assert(m[k] == c@);
                assert(top == is_top(m, k));
            }
            let ghost old_out = out@;
            let ghost old_ks = ks;
            if top {
                let cc = c.clone();
                out.push(cc);
                proof {
                    ks = ks.push(k);
                }
            }
            proof {
                assert forall|j: int| 0 <= j < out@.len() implies (#[trigger] out@[j])@ == m[ks[j]] by {
                    if j < old_out.len() {
                        assert(out@[j] == old_out[j]);
                        assert(ks[j] == old_ks[j]);
                    }
                }
                assert forall|j: int| 0 <= j < ks.len() implies m.contains_key(#[trigger] ks[j]) by {
                    if j < old_ks.len() {
                        assert(ks[j] == old_ks[j]);
                    }
                }
            }
            i = i + 1;
        }
        proof {
            assert(keys@.take(keys@.len() as int) =~= keys@);
            let target = self@.dom().filter(|k: u128| is_top(self@, k));
            lemma_keep_tops(m, keys@);
            assert(ks.to_set() =~= target) by {
                assert forall|x: u128| ks.to_set().contains(x) <==> target.contains(x) by {
                    assert(keys@.to_set().contains(x) <==> keys@.contains(x));
                }
            }
            assert(crate::store::lists_elements(out@, self@, target));
        }
        out
    }

    /// The children of `countable` that the store holds, in order.
    pub fn children_checked(&self, countable: &CountableId) -> (r: Result<Vec<Countable>, AppError>)
        ensures
            match children_view(self@, *countable) {
                Outcome::Done(cs) => r is Ok && r->Ok_0@.len() == cs.len()
                    && forall|i: int| 0 <= i < cs.len() ==> (#[trigger] r->Ok_0@[i])@ == cs[i],
                Outcome::Fail(e) => r == Err::<Vec<Countable>, AppError>(e),
                Outcome::Stuck => false,
            },
    {
        let ghost m = self@;
        match self.inner.store.get(&countable.0) {
            None => Err(AppError::CountableNotFound),
            Some(Countable::Counter(c)) => {
                let ghost ids = c.children@;
                let mut out: Vec<Countable> = Vec::new();
                let mut i: usize = 0;
                while i < c.children.len()
                    invariant
                        m == self@,
                        ids == c.children@,
                        i <= ids.len(),
                        out@.len() == present(m, ids, i as nat).len(),
                        forall|j: int| 0 <= j < out@.len() ==> (#[trigger] out@[j])@ == present(m, ids, i as nat)[j],
                    decreases ids.len() - i,
                {
                    let child = c.children[i];
                    let ghost before = out@;
                    match self.inner.store.get(&child.0) {
                        Some(n) => {
                            let cn = n.clone();
                            out.push(cn);
                            proof {
                                assert(m[child.0] == n@);
                                assert forall|j: int| 0 <= j < out@.len() implies (#[trigger] out@[j])@ == present(m, ids, (i + 1) as nat)[j] by {
                                    if j < before.len() {
                                        assert(out@[j] == before[j]);
                                    }
                                }
                            }
                        },
                        None => {},
                    }
                    i = i + 1;
                }
                Ok(out)
            },
            Some(_) => Ok(Vec::new()),
        }
    }

    /// `children_checked` for an element that the store holds.
    pub fn children(&self, countable: &CountableId) -> (r: Vec<Countable>)
        requires
            self@.contains_key(countable.0),
        ensures
            r@.len() == children_view(self@, *countable)->Done_0.len(),
            forall|i: int| 0 <= i < r@.len() ==> (#[trigger] r@[i])@ == children_view(self@, *countable)->Done_0[i],
    {
        match self.children_checked(countable) {
            Ok(v) => v,
            Err(_) => Vec::new(),
        }
    }

    /// The parent of `countable`, where the store holds it.
    pub fn parent_checked(&self, countable: &CountableId) -> (r: Result<Option<Countable>, AppError>)
        requires
            !parent_view(self@, *countable).is_stuck(),
        ensures
            r matches Ok(o) && match parent_view(self@, *countable) {
                Outcome::Done(Some(v)) => o matches Some(c) && c@ == v,
                _ => o is None,
            },
    {
        let pid: Option<CountableId> = match self.inner.store.get(&countable.0) {
            None => None,
            Some(Countable::Counter(c)) => c.parent,
            Some(Countable::Phase(p)) => Some(p.parent),
            Some(Countable::Chain(_)) => None,
        };
        match pid {
            Some(p) => Ok(self.inner.get(&p)),
            None => Ok(None),
        }
    }

    /// `parent_checked`, which cannot fail.
    pub fn parent(&self, countable: &CountableId) -> (r: Option<Countable>)
        requires
            !parent_view(self@, *countable).is_stuck(),
        ensures
            match parent_view(self@, *countable) {
                Outcome::Done(Some(v)) => r matches Some(c) && c@ == v,
                _ => r is None,
            },
    {
        match self.parent_checked(countable) {
            Ok(o) => o,
            Err(_) => None,
        }
    }

    /// The kind of `countable`.
    pub fn kind_checked(&self, countable: &CountableId) -> (r: Result<CountableKind, AppError>)
        ensures
            r == kind_of(self@, *countable).as_result(),
    {
        self.inner.kind(countable)
    }

    /// The kind of an element that the store holds.
    pub fn kind(&self, countable: &CountableId) -> (r: CountableKind)
        requires
            self@.contains_key(countable.0),
        ensures
            kind_of(self@, *countable) == Outcome::<CountableKind>::Done(r),
    {
        match self.kind_checked(countable) {
            Ok(k) => k,
            Err(_) => CountableKind::Counter,
        }
    }

    /// The name of `countable`.
    pub fn name_checked(&self, countable: &CountableId) -> (r: Result<String, AppError>)
        requires
            !name_of(self@, *countable).is_stuck(),
        ensures
            match name_of(self@, *countable) {
                Outcome::Done(n) => r is Ok && r->Ok_0@ == n,
                Outcome::Fail(e) => r == Err::<String, AppError>(e),
                Outcome::Stuck => false,
            },
    {
        self.inner.name(countable)
    }

    /// The name of an element that the store holds.
    pub fn name(&self, countable: &CountableId) -> (r: String)
        requires
            name_of(self@, *countable) is Done,
        ensures
            r@ == name_of(self@, *countable)->Done_0,
    {
        match self.name_checked(countable) {
            Ok(n) => n,
            Err(_) => String::new(),
        }
    }

    /// Renames `countable`.
    pub fn set_name_checked(&mut self, countable: &CountableId, name: &str) -> (r: Result<(), AppError>)
        requires
            !rename(old(self)@, *countable, name@).result.is_stuck(),
        ensures
            final(self)@ == rename(old(self)@, *countable, name@).nodes,
            r == rename(old(self)@, *countable, name@).result.as_result(),
            final(self).inner.owner == old(self).inner.owner,
            final(self).inner.selection@ == old(self).inner.selection@,
    {
        self.inner.set_name(countable, name)
    }

    /// Renames an element that the store holds.
    pub fn set_name(&mut self, countable: &CountableId, name: &str)
        requires
            rename(old(self)@, *countable, name@).result is Done,
        ensures
            final(self)@ == rename(old(self)@, *countable, name@).nodes,
            final(self).inner.owner == old(self).inner.owner,
            final(self).inner.selection@ == old(self).inner.selection@,
    {
        let _ = self.set_name_checked(countable, name);
    }

    /// The count of `countable`: a phase's own, the sum over the children
    /// for a counter.
    pub fn count_checked(&self, countable: &CountableId) -> (r: Result<i32, AppError>)
        requires
            !rec_sum(self@, *countable, Quantity::Count, self.fuel()).is_stuck(),
        ensures
            r == rec_sum(self@, *countable, Quantity::Count, self.fuel()).as_i32_result(),
    {
        match self.inner.sum_of(*countable, Quantity::Count, Ghost(self.fuel())) {
            Ok(v) => Ok(v as i32),
            Err(e) => Err(e),
        }
    }

    /// The count of an element whose count can be read.
    pub fn count(&self, countable: &CountableId) -> (r: i32)
        requires
            rec_sum(self@, *countable, Quantity::Count, self.fuel()) is Done,
        ensures
            r == rec_sum(self@, *countable, Quantity::Count, self.fuel())->Done_0,
    {
        match self.count_checked(countable) {
            Ok(v) => v,
            Err(_) => 0,
        }
    }

    /// Sets the count of `countable` by adding the difference to the
    /// current count, as `child_set` describes.
    pub fn set_count_checked(&mut self, countable: &CountableId, count: i32) -> (r: Result<(), AppError>)
        requires
            !child_set(old(self)@, *countable, count as int, Quantity::Count, old(self).fuel()).result.is_stuck(),
        ensures
            final(self)@ == child_set(old(self)@, *countable, count as int, Quantity::Count, old(self).fuel()).nodes,
            r == child_set(old(self)@, *countable, count as int, Quantity::Count, old(self).fuel()).result.as_result(),
            final(self).inner.owner == old(self).inner.owner,
            final(self).inner.selection@ == old(self).inner.selection@,
    {
        let fuel = Ghost(self.fuel());
        self.inner.child_set_exec(*countable, count as i64, Quantity::Count, fuel)
    }

    /// `set_count_checked` where it succeeds.
    pub fn set_count(&mut self, countable: &CountableId, count: i32)
        requires
            child_set(old(self)@, *countable, count as int, Quantity::Count, old(self).fuel()).result is Done,
        ensures
            final(self)@ == child_set(old(self)@, *countable, count as int, Quantity::Count, old(self).fuel()).nodes,
            final(self).inner.owner == old(self).inner.owner,
            final(self).inner.selection@ == old(self).inner.selection@,
    {
        let _ = self.set_count_checked(countable, count);
    }

    /// Adds `add` to the count of `countable`, as `child_adjust` describes.
    pub fn add_count_checked(&mut self, countable: &CountableId, add: i32) -> (r: Result<(), AppError>)
        requires
            !child_adjust(old(self)@, *countable, add as int, Quantity::Count, old(self).fuel()).result.is_stuck(),
        ensures
            final(self)@ == child_adjust(old(self)@, *countable, add as int, Quantity::Count, old(self).fuel()).nodes,
            r == child_adjust(old(self)@, *countable, add as int, Quantity::Count, old(self).fuel()).result.as_result(),
            final(self).inner.owner == old(self).inner.owner,
            final(self).inner.selection@ == old(self).inner.selection@,
    {
        let fuel = Ghost(self.fuel());
        self.inner.child_adjust_exec(*countable, add as i64, Quantity::Count, fuel)
    }

    /// `add_count_checked` where it succeeds.
    pub fn add_count(&mut self, countable: &CountableId, add: i32)
        requires
            child_adjust(old(self)@, *countable, add as int, Quantity::Count, old(self).fuel()).result is Done,
        ensures
            final(self)@ == child_adjust(old(self)@, *countable, add as int, Quantity::Count, old(self).fuel()).nodes,
            final(self).inner.owner == old(self).inner.owner,
            final(self).inner.selection@ == old(self).inner.selection@,
    {
        let _ = self.add_count_checked(countable, add);
    }

    /// The time of `countable` in milliseconds: a phase's own, the sum
    /// over the children for a counter.
    pub fn time_checked(&self, countable: &CountableId) -> (r: Result<i64, AppError>)
        requires
            !rec_sum(self@, *countable, Quantity::Time, self.fuel()).is_stuck(),
        ensures
            r == rec_sum(self@, *countable, Quantity::Time, self.fuel()).as_i64_result(),
    {
        self.inner.sum_of(*countable, Quantity::Time, Ghost(self.fuel()))
    }

    /// The time of an element whose time can be read.
    pub fn time(&self, countable: &CountableId) -> (r: i64)
        requires
            rec_sum(self@, *countable, Quantity::Time, self.fuel()) is Done,
        ensures
            r == rec_sum(self@, *countable, Quantity::Time, self.fuel())->Done_0,
    {
        match self.time_checked(countable) {
            Ok(v) => v,
            Err(_) => 0,
        }
    }

    /// Sets the time of `countable`, as `child_set` describes.
    pub fn set_time_checked(&mut self, countable: &CountableId, time: i64) -> (r: Result<(), AppError>)
        requires
            !child_set(old(self)@, *countable, time as int, Quantity::Time, old(self).fuel()).result.is_stuck(),
        ensures
            final(self)@ == child_set(old(self)@, *countable, time as int, Quantity::Time, old(self).fuel()).nodes,
            r == child_set(old(self)@, *countable, time as int, Quantity::Time, old(self).fuel()).result.as_result(),
            final(self).inner.owner == old(self).inner.owner,
            final(self).inner.selection@ == old(self).inner.selection@,
    {
        let fuel = Ghost(self.fuel());
        self.inner.child_set_exec(*countable, time, Quantity::Time, fuel)
    }

    /// `set_time_checked` where it succeeds.
    pub fn set_time(&mut self, countable: &CountableId, time: i64)
        requires
            child_set(old(self)@, *countable, time as int, Quantity::Time, old(self).fuel()).result is Done,
        ensures
            final(self)@ == child_set(old(self)@, *countable, time as int, Quantity::Time, old(self).fuel()).nodes,
            final(self).inner.owner == old(self).inner.owner,
            final(self).inner.selection@ == old(self).inner.selection@,
    {
        let _ = self.set_time_checked(countable, time);
    }

    /// Adds `add` milliseconds to the time of `countable`, as
    /// `child_adjust` describes.
    pub fn add_time_checked(&mut self, countable: &CountableId, add: i64) -> (r: Result<(), AppError>)
        requires
            !child_adjust(old(self)@, *countable, add as int, Quantity::Time, old(self).fuel()).result.is_stuck(),
        ensures
            final(self)@ == child_adjust(old(self)@, *countable, add as int, Quantity::Time, old(self).fuel()).nodes,
            r == child_adjust(old(self)@, *countable, add as int, Quantity::Time, old(self).fuel()).result.as_result(),
            final(self).inner.owner == old(self).inner.owner,
            final(self).inner.selection@ == old(self).inner.selection@,
    {
        let fuel = Ghost(self.fuel());
        self.inner.child_adjust_exec(*countable, add, Quantity::Time, fuel)
    }

    /// `add_time_checked` where it succeeds.
    pub fn add_time(&mut self, countable: &CountableId, add: i64)
        requires
            child_adjust(old(self)@, *countable, add as int, Quantity::Time, old(self).fuel()).result is Done,
        ensures
            final(self)@ == child_adjust(old(self)@, *countable, add as int, Quantity::Time, old(self).fuel()).nodes,
            final(self).inner.owner == old(self).inner.owner,
            final(self).inner.selection@ == old(self).inner.selection@,
    {
        let _ = self.add_time_checked(countable, add);
    }

    fn hunttype_exec(&self, id: CountableId, Ghost(fuel): Ghost<nat>) -> (r: Result<Hunttype, AppError>)
        requires
            !hunttype_of(self@, id, fuel).is_stuck(),
        ensures
            r == hunttype_of(self@, id, fuel).as_result(),
        decreases fuel, 1nat,
    {
        let ghost m = self@;
        match self.inner.store.get(&id.0) {
            None => Err(AppError::CountableNotFound),
            Some(Countable::Phase(p)) => Ok(p.hunt_type),
            Some(Countable::Chain(_)) => {
                proof {
                    assert(false);
                }
                Err(AppError::Internal)
            },
            Some(Countable::Counter(c)) => {
                let n = c.children.len();
                if n == 0 {
                    return Ok(Hunttype::OldOdds);
                }
                let first = match self.hunttype_exec(c.children[0], Ghost((fuel - 1) as nat)) {
                    Ok(h) => h,
                    Err(_) => Hunttype::OldOdds,
                };
                let ghost ids = c.children@;
                let mut i: usize = 0;
                while i < n
                    invariant
                        m == self@,
                        ids == c.children@,
                        n == ids.len(),
                        i <= n,
                        fuel > 0,
                        hunttype_of(m, id, fuel) == scan_hunttypes(m, ids, i as nat, first, fuel),
                        !hunttype_of(m, id, fuel).is_stuck(),
                    decreases n - i,
                {
                    match self.hunttype_exec(c.children[i], Ghost((fuel - 1) as nat)) {
                        Ok(h) => {
                            if h != first {
                                return Ok(Hunttype::Mixed);
                            }
                        },
                        Err(e) => {
                            return Err(e);
                        },
                    }
                    i = i + 1;
                }
                Ok(first)
            },
        }
    }

    /// The hunt type of `countable`, as `hunttype_of` describes.
    pub fn hunttype_checked(&self, countable: &CountableId) -> (r: Result<Hunttype, AppError>)
        requires
            !hunttype_of(self@, *countable, self.fuel()).is_stuck(),
        ensures
            r == hunttype_of(self@, *countable, self.fuel()).as_result(),
    {
        self.hunttype_exec(*countable, Ghost(self.fuel()))
    }

    /// The hunt type of an element whose hunt type can be read.
    pub fn hunttype(&self, countable: &CountableId) -> (r: Hunttype)
        requires
            hunttype_of(self@, *countable, self.fuel()) is Done,
        ensures
            r == hunttype_of(self@, *countable, self.fuel())->Done_0,
    {
        match self.hunttype_checked(countable) {
            Ok(h) => h,
            Err(_) => Hunttype::Mixed,
        }
    }

    /// The rolls of `countable`: a phase's own as a `usize`, the total over
    /// the children for a counter.
    pub fn rolls_checked(&self, countable: &CountableId) -> (r: Result<usize, AppError>)
        requires
            !usize_rolls(self@, *countable, self.fuel()).is_stuck(),
        ensures
            match usize_rolls(self@, *countable, self.fuel()) {
                Outcome::Done(v) => r == Ok::<usize, AppError>(v as usize),
                Outcome::Fail(e) => r == Err::<usize, AppError>(e),
                Outcome::Stuck => false,
            },
    {
        self.inner.usize_rolls_exec(*countable, Ghost(self.fuel()))
    }

    /// The rolls of an element whose rolls can be read.
    pub fn rolls(&self, countable: &CountableId) -> (r: usize)
        requires
            usize_rolls(self@, *countable, self.fuel()) is Done,
        ensures
            r == usize_rolls(self@, *countable, self.fuel())->Done_0,
    {
        match self.rolls_checked(countable) {
            Ok(v) => v,
            Err(_) => 0,
        }
    }

    /// The number of phases below `countable` (itself, for a phase) that
    /// are marked a success.
    pub fn completed_checked(&self, countable: &CountableId) -> (r: Result<usize, AppError>)
        requires
            !rec_completed(self@, *countable, self.fuel()).is_stuck(),
        ensures
            match rec_completed(self@, *countable, self.fuel()) {
                Outcome::Done(v) => r == Ok::<usize, AppError>(v as usize),
                Outcome::Fail(e) => r == Err::<usize, AppError>(e),
                Outcome::Stuck => false,
            },
    {
        self.inner.completed_of(*countable, Ghost(self.fuel()))
    }

    /// Whether every phase below `countable` has the charm.
    pub fn has_charm_checked(&self, countable: &CountableId) -> (r: Result<bool, AppError>)
        requires
            !rec_charm(self@, *countable, self.fuel()).is_stuck(),
        ensures
            r == rec_charm(self@, *countable, self.fuel()).as_result(),
    {
        self.inner.charm_of(*countable, Ghost(self.fuel()))
    }

    /// `has_charm_checked` where it succeeds.
    pub fn has_charm(&self, countable: &CountableId) -> (r: bool)
        requires
            rec_charm(self@, *countable, self.fuel()) is Done,
        ensures
            r == rec_charm(self@, *countable, self.fuel())->Done_0,
    {
        match self.has_charm_checked(countable) {
            Ok(b) => b,
            Err(_) => false,
        }
    }

    /// Whether `countable` is marked a success: a phase's own mark, that of
    /// the last child for a counter.
    pub fn is_success_checked(&self, countable: &CountableId) -> (r: Result<bool, AppError>)
        requires
            !rec_success(self@, *countable, self.fuel()).is_stuck(),
        ensures
            r == rec_success(self@, *countable, self.fuel()).as_result(),
    {
        self.inner.success_of(*countable, Ghost(self.fuel()))
    }

    /// `is_success_checked` where it succeeds.
    pub fn is_success(&self, countable: &CountableId) -> (r: bool)
        requires
            rec_success(self@, *countable, self.fuel()) is Done,
        ensures
            r == rec_success(self@, *countable, self.fuel())->Done_0,
    {
        match self.is_success_checked(countable) {
            Ok(b) => b,
            Err(_) => false,
        }
    }

    /// Flips the success mark of `countable` where it is a phase.
    pub fn toggle_success_checked(&mut self, countable: &CountableId) -> (r: Result<(), AppError>)
        requires
            !toggle_success_of(old(self)@, *countable).result.is_stuck(),
        ensures
            final(self)@ == toggle_success_of(old(self)@, *countable).nodes,
            r == toggle_success_of(old(self)@, *countable).result.as_result(),
            final(self).inner.owner == old(self).inner.owner,
            final(self).inner.selection@ == old(self).inner.selection@,
    {
        self.inner.toggle_success_checked(countable)
    }

    /// `toggle_success_checked` where it succeeds.
    pub fn toggle_success(&mut self, countable: &CountableId)
        requires
            toggle_success_of(old(self)@, *countable).result is Done,
        ensures
            final(self)@ == toggle_success_of(old(self)@, *countable).nodes,
            final(self).inner.owner == old(self).inner.owner,
            final(self).inner.selection@ == old(self).inner.selection@,
    {
        let _ = self.toggle_success_checked(countable);
    }

    /// When `countable` was created, in microseconds since the Unix epoch.
    pub fn created_at_checked(&self, countable: &CountableId) -> (r: Result<i64, AppError>)
        requires
            !created_at_of(self@, *countable).is_stuck(),
        ensures
            r == created_at_of(self@, *countable).as_result(),
    {
        self.inner.created_at_checked(countable)
    }

    /// `created_at_checked` where it succeeds.
    pub fn created_at(&self, countable: &CountableId) -> (r: i64)
        requires
            created_at_of(self@, *countable) is Done,
        ensures
            r == created_at_of(self@, *countable)->Done_0,
    {
        match self.created_at_checked(countable) {
            Ok(t) => t,
            Err(_) => 0,
        }
    }
}

} // verus!
