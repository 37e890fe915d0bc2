//! The store of all elements of a user, keyed by id, and the operations
//! on the tree that the elements' children and parents form.
//!
//! A store is read in one of two ways, chosen by its first type parameter:
//! `Level` looks at one element alone, `Recursive` takes its descendants
//! into account. Its second parameter chooses how failures are reported:
//! `Checked` returns them as errors, `UnChecked` falls back to a default.
use crate::error::AppError;
use crate::nodes::{Countable, CountableId, CountableKind, CountableView, Hunttype, fits_i32, spec_new_countable, spec_rolls};
use std::collections::HashMap;
use std::marker::PhantomData;
use vstd::prelude::*;
use vstd::std_specs::iter::IteratorSpec;

verus! {

broadcast use vstd::std_specs::hash::group_hash_axioms;

/// How a store reads an element: alone or with its descendants.
pub trait StoreMethod: Sized {}

/// Reading an element together with its descendants.
#[derive(Debug, Default, Clone, Copy)]
pub struct Recursive;

impl StoreMethod for Recursive {}

/// Reading an element alone.
#[derive(Debug, Default, Clone, Copy)]
pub struct Level;

impl StoreMethod for Level {}

/// How a store reports a failure: as an error or by a default value.
pub trait StoreCheck: Sized {}

/// Failures are returned as errors.
#[derive(Debug, Default, Clone, Copy)]
pub struct Checked;

impl StoreCheck for Checked {}

/// Failures fall back to a default value.
#[derive(Debug, Default, Clone, Copy)]
pub struct UnChecked;

impl StoreCheck for UnChecked {}

/// The outcome of an operation of the store, as the specifications model
/// it: a value, an error, or `Stuck` where the operation would not return
/// (a cycle among the elements, an element of a kind that the operation
/// cannot handle yet, an arithmetic overflow).
pub enum Outcome<T> {
    Done(T),
    Fail(AppError),
    Stuck,
}

impl<T> Outcome<T> {
    pub open spec fn is_stuck(self) -> bool {
        self is Stuck
    }

    /// The result that an operation of a `Checked` store gives back for
    /// this outcome.
    pub open spec fn as_result(self) -> Result<T, AppError> {
        match self {
            Outcome::Done(v) => Ok(v),
            Outcome::Fail(e) => Err(e),
            Outcome::Stuck => Err(AppError::Internal),
        }
    }
}

impl<T> Outcome<T> {
    /// Whether the only error this outcome can be is a missing element.
    pub open spec fn fails_only_missing(self) -> bool {
        self matches Outcome::Fail(e) ==> e is CountableNotFound
    }

    /// Whether the only errors this outcome can be are a missing element
    /// and a counter without children.
    pub open spec fn fails_only_missing_or_childless(self) -> bool {
        self matches Outcome::Fail(e) ==> (e is CountableNotFound || e is RequiresChild)
    }
}

impl Outcome<int> {
    /// The value, or zero for an error.
    pub open spec fn value_or_zero(self) -> int {
        match self {
            Outcome::Done(v) => v,
            _ => 0,
        }
    }
}

impl Outcome<Seq<CountableId>> {
    /// The list, or an empty one for an error.
    pub open spec fn list_or_empty(self) -> Seq<CountableId> {
        match self {
            Outcome::Done(d) => d,
            _ => Seq::empty(),
        }
    }

    /// The result of asking whether `id` occurs in the list.
    pub open spec fn contains_result(self, id: CountableId) -> Result<bool, AppError> {
        match self {
            Outcome::Done(d) => Ok(d.contains(id)),
            Outcome::Fail(e) => Err(e),
            Outcome::Stuck => Err(AppError::Internal),
        }
    }
}

impl Outcome<int> {
    /// `as_result` for a value that an `i32` carries.
    pub open spec fn as_i32_result(self) -> Result<i32, AppError> {
        match self {
            Outcome::Done(v) => Ok(v as i32),
            Outcome::Fail(e) => Err(e),
            Outcome::Stuck => Err(AppError::Internal),
        }
    }

    /// `as_result` for a value that an `i64` carries.
    pub open spec fn as_i64_result(self) -> Result<i64, AppError> {
        match self {
            Outcome::Done(v) => Ok(v as i64),
            Outcome::Fail(e) => Err(e),
            Outcome::Stuck => Err(AppError::Internal),
        }
    }
}

/// The elements of a user, keyed by the bits of their ids.
pub struct CountableStore<M: StoreMethod, C: StoreCheck> {
    pub owner: u128,
    pub store: HashMap<u128, Countable>,
    pub selection: Vec<CountableId>,
    pub is_changed: bool,
    pub phantom_data: PhantomData<(M, C)>,
}

/// The elements of a store as plain values.
pub open spec fn view_of(m: Map<u128, Countable>) -> Map<u128, CountableView> {
    Map::new(|k: u128| m.contains_key(k), |k: u128| m[k]@)
}

impl<M: StoreMethod, C: StoreCheck> View for CountableStore<M, C> {
    type V = Map<u128, CountableView>;

    /// The elements, keyed by the bits of their ids.
    open spec fn view(&self) -> Map<u128, CountableView> {
        view_of(self.store@)
    }
}

impl<M: StoreMethod, C: StoreCheck> CountableStore<M, C> {
    /// The number of elements, which bounds how deep a walk down the tree
    /// can go before it meets an element twice.
    pub open spec fn fuel(&self) -> nat {
        self.store@.dom().len()
    }

    /// A store of `owner` that holds `store`, with nothing selected and no
    /// change recorded.
    pub fn new(owner: u128, store: HashMap<u128, Countable>) -> (r: Self)
        ensures
            r.owner == owner,
            r.store@ == store@,
            r.selection@.len() == 0,
            !r.is_changed,
    {
        CountableStore {
            owner,
            store,
            selection: Vec::new(),
            is_changed: false,
            phantom_data: PhantomData,
        }
    }

    pub fn owner(&self) -> (r: u128)
        ensures
            r == self.owner,
    {
        self.owner
    }

    pub fn contains(&self, countable: &CountableId) -> (r: bool)
        ensures
            r == self@.contains_key(countable.0),
    {
        self.store.contains_key(&countable.0)
    }

    /// A copy of the element under `countable`, if there is one.
    pub fn get(&self, countable: &CountableId) -> (r: Option<Countable>)
        ensures
            match r {
                Some(c) => self@.contains_key(countable.0) && c@ == self@[countable.0],
                None => !self@.contains_key(countable.0),
            },
    {
        match self.store.get(&countable.0) {
            Some(c) => Some(c.clone()),
            None => None,
        }
    }

    pub fn len(&self) -> (r: usize)
        ensures
            r == self@.dom().len(),
    {
        proof {
            assert(self@.dom() =~= self.store@.dom());
        }
        self.store.len()
    }

    pub fn is_empty(&self) -> (r: bool)
        ensures
            r == (self@.dom().len() == 0),
    {
        proof {
            assert(self@.dom() =~= self.store@.dom());
        }
        self.store.is_empty()
    }

    /// Whether something changed since the store was last saved.
    pub fn has_change(&self) -> (r: bool)
        ensures
            r == self.is_changed,
    {
        self.is_changed
    }

    /// Every element, in the store's own order.
    pub fn nodes(&self) -> (r: Vec<Countable>)
        ensures
            lists_elements(r@, self@, self@.dom()),
    {
        let keys = keys_of(&self.store);
        let mut out: Vec<Countable> = Vec::new();
        let mut i: usize = 0;
        while i < keys.len()
            invariant
                i <= keys@.len(),
                keys@.no_duplicates(),
                keys@.to_set() == self.store@.dom(),
                out@.len() == i,
                forall|j: int| 0 <= j < i ==> self@.contains_key(keys@[j]) && (#[trigger] out@[j])@ == self@[keys@[j]],
            decreases keys@.len() - i,
        {
            let k = keys[i];
            proof {
                assert(keys@.to_set().contains(k));
            }
            let c = self.store.get(&k).unwrap().clone();
            out.push(c);
            i = i + 1;
        }
        proof {
            assert(self@.dom() =~= self.store@.dom());
            assert(lists_elements(out@, self@, self@.dom())) by {
                assert(keys@.len() == out@.len());
            }
        }
        out
    }

    /// The elements that are their own roots, in the store's own order.
    pub fn root_nodes(&self) -> (r: Vec<Countable>)
        requires
            forall|k: u128| #[trigger] self@.contains_key(k) ==> !(self@[k] is Chain)
                && !rec_root(self@, CountableId(self@[k].uuid()), self.fuel()).is_stuck(),
        ensures
            lists_elements(r@, self@, self@.dom().filter(|k: u128| is_root_entry(self@, k, self.fuel()))),
    {
        let keys = keys_of(&self.store);
        let ghost fuel = self.fuel();
        let ghost m = self@;
        let mut out: Vec<Countable> = Vec::new();
        let ghost mut ks: Seq<u128> = Seq::empty();
        let mut i: usize = 0;
        while i < keys.len()
            invariant
                i <= keys@.len(),
                fuel == self.fuel(),
                m == self@,
                keys@.no_duplicates(),
                keys@.to_set() == self.store@.dom(),
                forall|k: u128| #[trigger] self@.contains_key(k) ==> !(self@[k] is Chain)
                    && !rec_root(self@, CountableId(self@[k].uuid()), fuel).is_stuck(),
                ks == keep_roots(m, keys@.take(i as int), fuel),
                ks.len() == out@.len(),
                forall|j: int| 0 <= j < ks.len() ==> m.contains_key(#[trigger] ks[j]),
                forall|j: int| 0 <= j < out@.len() ==> (#[trigger] out@[j])@ == m[ks[j]],
            decreases keys@.len() - i,
        {
            let k = keys[i];
            proof {
                assert(keys@.to_set().contains(k));
                assert(self@.contains_key(k));
                assert(keys@.take(i + 1).drop_last() =~= keys@.take(i as int));
            }
            let c = self.store.get(&k).unwrap();
            let uuid = match c {
                Countable::Counter(x) => x.uuid,
                Countable::Phase(x) => x.uuid,
                Countable::Chain(_) => 0,
            };
            let is_root = match self.rec_root_exec(CountableId(uuid), Ghost(fuel)) {
                Ok(p) => p.0 == uuid,
                Err(_) => false,
            };
            proof {
                assert(is_root == is_root_entry(m, k, fuel));
                assert(keys@.take(i + 1).last() == k);
                assert(m[k] == c@);
            }
            let ghost old_out = out@;
            let ghost old_ks = ks;
            if is_root {
                let cc = c.clone();
                assert(cc@ == m[k]);
                out.push(cc);
                proof {
                    ks = ks.push(k);
                }
            }
            proof {
                assert forall|j: int| 0 <= j < out@.len() implies (#[trigger] out@[j])@ == m[ks[j]] by {
                    if j < old_out.len() {
                        assert(out@[j] == old_out[j]);
                        assert(ks[j] == old_ks[j]);
                    }
                }
                assert forall|j: int| 0 <= j < ks.len() implies m.contains_key(#[trigger] ks[j]) by {
                    if j < old_ks.len() {
                        assert(ks[j] == old_ks[j]);
                    }
                }
            }
            i = i + 1;
        }
        proof {
            assert(keys@.take(keys@.len() as int) =~= keys@);
            let target = self@.dom().filter(|k: u128| is_root_entry(self@, k, fuel));
            lemma_keep_roots(m, keys@, fuel);
            assert(ks.to_set() =~= target) by {
                assert forall|x: u128| ks.to_set().contains(x) <==> target.contains(x) by {
                    assert(keys@.to_set().contains(x) <==> keys@.contains(x));
                }
            }
            assert(lists_elements(out@, self@, target));
        }
        out
    }

    /// A store with only the elements that `filter` accepts, without their
    /// parents; it keeps the owner and the selection and records no change.
    pub fn raw_filter<F: Fn(&Countable) -> bool>(&self, filter: F) -> (r: Self)
        requires
            forall|c: &Countable| #[trigger] filter.requires((c,)),
        ensures
            r.owner == self.owner,
            r.selection@ == self.selection@,
            !r.is_changed,
            exists|kept: Set<u128>| #[trigger] kept.subset_of(self@.dom()) && r@ == self@.restrict(kept)
                && forall|k: u128| #[trigger] self.store@.contains_key(k) ==> (if kept.contains(k) {
                    filter.ensures((&self.store@[k],), true)
                } else {
                    filter.ensures((&self.store@[k],), false)
                }),
    {
        let keys = keys_of(&self.store);
        let mut store: HashMap<u128, Countable> = HashMap::new();
        let ghost mut kept: Set<u128> = Set::empty();
        let mut i: usize = 0;
        while i < keys.len()
            invariant
                i <= keys@.len(),
                keys@.no_duplicates(),
                keys@.to_set() == self.store@.dom(),
                forall|c: &Countable| #[trigger] filter.requires((c,)),
                kept.subset_of(keys@.take(i as int).to_set()),
                view_of(store@) == self@.restrict(kept),
                forall|k: u128| #[trigger] keys@.take(i as int).contains(k) ==> (if kept.contains(k) {
                    filter.ensures((&self.store@[k],), true)
                } else {
                    filter.ensures((&self.store@[k],), false)
                }),
            decreases keys@.len() - i,
        {
            let k = keys[i];
            proof {
                assert(keys@.to_set().contains(k));
            }
            let c = self.store.get(&k).unwrap();
            let keep = filter(c);
            let ghost t0 = keys@.take(i as int);
            let ghost t1 = keys@.take(i + 1);
            proof {
                assert(t1 =~= t0.push(k));
                assert forall|x: u128| t1.contains(x) == (t0.contains(x) || x == k) by {
                    if t1.contains(x) && x != k {
                        let j = choose|j: int| 0 <= j < t1.len() && t1[j] == x;
                        assert(t0[j] == x);
                    }
                    if t0.contains(x) {
                        let j = choose|j: int| 0 <= j < t0.len() && t0[j] == x;
                        assert(t1[j] == x);
                    }
                    if x == k {
                        assert(t1[i as int] == k);
                    }
                }
                assert(!t0.contains(k)) by {
                    if t0.contains(k) {
                        let j = choose|j: int| 0 <= j < t0.len() && t0[j] == k;
                        assert(keys@[j] == keys@[i as int]);
                    }
                }
            }
            if keep {
                let cc = c.clone();
                let ghost before = view_of(store@);
                proof {
                    assert(self.store@.contains_key(k));
                    assert(self@[k] == cc@);
                }
                store.insert(k, cc);
                proof {
                    assert(view_of(store@) =~= before.insert(k, cc@));
                    kept = kept.insert(k);
                    assert(before.insert(k, cc@) =~= self@.restrict(kept));
                }
            }
            proof {
                assert(kept.subset_of(t1.to_set())) by {
                    assert forall|x: u128| kept.contains(x) implies t1.to_set().contains(x) by {
                        if x != k {
                            assert(t0.to_set().contains(x));
                        }
                    }
                }
            }
            i = i + 1;
        }
        proof {
            assert(keys@.take(keys@.len() as int) =~= keys@);
            assert forall|k: u128| #[trigger] self.store@.contains_key(k) implies keys@.take(keys@.len() as int).contains(k) by {
                assert(keys@.to_set().contains(k));
            }
            assert(kept.subset_of(self@.dom())) by {
                assert forall|x: u128| kept.contains(x) implies self@.dom().contains(x) by {
                    assert(keys@.to_set().contains(x));
                }
            }
        }
        let r = CountableStore {
            owner: self.owner,
            store,
            selection: self.selection.clone(),
            is_changed: false,
            phantom_data: PhantomData,
        };
        proof {
            assert(r.selection@ =~= self.selection@);
        }
        r
    }

    /// Whether every phase below `countable` (itself, for a phase) has the
    /// charm.
    pub fn has_charm_checked(&self, countable: &CountableId) -> (r: Result<bool, AppError>)
        requires
            !rec_charm(self@, *countable, self.fuel()).is_stuck(),
        ensures
            r == rec_charm(self@, *countable, self.fuel()).as_result(),
    {
        self.rec_charm_exec(*countable, Ghost(self.fuel()))
    }

    /// `has_charm_checked` for an element that the store holds.
    pub fn has_charm(&self, countable: &CountableId) -> (r: bool)
        requires
            rec_charm(self@, *countable, self.fuel()) is Done,
        ensures
            rec_charm(self@, *countable, self.fuel()) == Outcome::<bool>::Done(r),
    {
        match self.rec_charm_exec(*countable, Ghost(self.fuel())) {
            Ok(b) => b,
            Err(_) => false,
        }
    }

    /// Whether `countable` is marked a success: a phase's own mark, for a
    /// counter that of its last child.
    pub fn is_success_checked(&self, countable: &CountableId) -> (r: Result<bool, AppError>)
        requires
            !rec_success(self@, *countable, self.fuel()).is_stuck(),
        ensures
            r == rec_success(self@, *countable, self.fuel()).as_result(),
    {
        self.rec_success_exec(*countable, Ghost(self.fuel()))
    }

    /// `is_success_checked` for an element that the store holds.
    pub fn is_success(&self, countable: &CountableId) -> (r: bool)
        requires
            rec_success(self@, *countable, self.fuel()) is Done,
        ensures
            rec_success(self@, *countable, self.fuel()) == Outcome::<bool>::Done(r),
    {
        match self.rec_success_exec(*countable, Ghost(self.fuel())) {
            Ok(b) => b,
            Err(_) => false,
        }
    }

    /// Flips the success mark of `countable` where it is a phase.
    pub fn toggle_success_checked(&mut self, countable: &CountableId) -> (r: Result<(), AppError>)
        requires
            !toggle_success_of(old(self)@, *countable).result.is_stuck(),
        ensures
            final(self)@ == toggle_success_of(old(self)@, *countable).nodes,
            final(self).is_changed == (old(self).is_changed || r is Ok),
            r == toggle_success_of(old(self)@, *countable).result.as_result(),
            final(self).owner == old(self).owner,
            final(self).selection == old(self).selection,
    {
        let n: Countable = match self.store.get(&countable.0) {
            None => {
                return Err(AppError::CountableNotFound);
            },
            Some(Countable::Chain(_)) => {
                proof {
                    assert(false);
                }
                return Err(AppError::Internal);
            },
            Some(c) => c.clone(),
        };
        match n {
            Countable::Phase(mut p) => {
                p.success = !p.success;
                let ghost before = self@;
                self.store.insert(countable.0, Countable::Phase(p));
                proof {
                    assert(self@ =~= toggle_success_of(before, *countable).nodes);
                }
            },
            _ => {},
        }
        self.is_changed = true;
        Ok(())
    }

    /// `toggle_success_checked` for an element that the store holds.
    pub fn toggle_success(&mut self, countable: &CountableId)
        requires
            toggle_success_of(old(self)@, *countable).result is Done,
        ensures
            final(self)@ == toggle_success_of(old(self)@, *countable).nodes,
            final(self).is_changed,
            final(self).owner == old(self).owner,
            final(self).selection == old(self).selection,
    {
        let _ = self.toggle_success_checked(countable);
    }

    /// When `countable` was created, in microseconds since the Unix epoch.
    pub fn created_at_checked(&self, countable: &CountableId) -> (r: Result<i64, AppError>)
        requires
            !created_at_of(self@, *countable).is_stuck(),
        ensures
            r == created_at_of(self@, *countable).as_result(),
    {
        match self.store.get(&countable.0) {
            None => Err(AppError::CountableNotFound),
            Some(Countable::Counter(c)) => Ok(c.created_at),
            Some(Countable::Phase(p)) => Ok(p.created_at),
            Some(Countable::Chain(_)) => {
                proof {
                    assert(false);
                }
                Err(AppError::Internal)
            },
        }
    }

    /// `created_at_checked` for an element that the store holds.
    pub fn created_at(&self, countable: &CountableId) -> (r: i64)
        requires
            created_at_of(self@, *countable) is Done,
        ensures
            created_at_of(self@, *countable) == Outcome::<i64>::Done(r),
    {
        match self.created_at_checked(countable) {
            Ok(t) => t,
            Err(_) => 0,
        }
    }
}

/// The two quantities that phases hold and counters sum up.
#[derive(Debug, Clone, Copy, PartialEq, Eq, Structural)]
pub enum Quantity {
    /// The number of encounters, an `i32`.
    Count,
    /// The time spent, in milliseconds, within the range of a `chrono::TimeDelta`.
    Time,
}

/// The largest time a `chrono::TimeDelta` holds, in milliseconds.
pub const TIME_MAX: i64 = 9223372036854775807;

/// Whether `v` is a value that quantity `q` can hold.
pub open spec fn fits(q: Quantity, v: int) -> bool {
    match q {
        Quantity::Count => fits_i32(v),
        Quantity::Time => -TIME_MAX <= v <= TIME_MAX,
    }
}

/// The element under `id`, if there is one.
pub open spec fn lookup(m: Map<u128, CountableView>, id: CountableId) -> Option<CountableView> {
    if m.contains_key(id.0) {
        Some(m[id.0])
    } else {
        None
    }
}

/// The quantity `q` that a phase holds.
pub open spec fn phase_value(v: CountableView, q: Quantity) -> int {
    match v {
        CountableView::Phase(p) => match q {
            Quantity::Count => p.count as int,
            Quantity::Time => p.time as int,
        },
        _ => 0,
    }
}

/// Quantity `q` of the element under `id` summed over its descendants:
/// a phase holds its own, a counter sums its children in order.
pub open spec fn rec_sum(m: Map<u128, CountableView>, id: CountableId, q: Quantity, fuel: nat) -> Outcome<int>
    decreases fuel, 1nat, 0nat,
{
    match lookup(m, id) {
        None => Outcome::Fail(AppError::CountableNotFound),
        Some(CountableView::Phase(p)) => Outcome::Done(phase_value(CountableView::Phase(p), q)),
        Some(CountableView::Chain) => Outcome::Stuck,
        Some(CountableView::Counter(c)) => sum_children(m, c.children, c.children.len(), q, fuel),
    }
}

/// The sum of quantity `q` over the first `n` of `ids`, added up from the
/// first on; every partial sum must fit the quantity.
pub open spec fn sum_children(m: Map<u128, CountableView>, ids: Seq<CountableId>, n: nat, q: Quantity, fuel: nat) -> Outcome<int>
    decreases fuel, 0nat, n,
{
    if n == 0 {
        Outcome::Done(0)
    } else if fuel == 0 {
        Outcome::Stuck
    } else {
        match sum_children(m, ids, (n - 1) as nat, q, fuel) {
            Outcome::Done(s) => match rec_sum(m, ids[n - 1], q, (fuel - 1) as nat) {
                Outcome::Done(v) => if fits(q, s + v) {
                    Outcome::Done(s + v)
                } else {
                    Outcome::Stuck
                },
                Outcome::Fail(e) => Outcome::Fail(e),
                Outcome::Stuck => Outcome::Stuck,
            },
            Outcome::Fail(e) => Outcome::Fail(e),
            Outcome::Stuck => Outcome::Stuck,
        }
    }
}

/// A sum that failed or got stuck on a prefix fails or gets stuck the same
/// way on the whole list.
proof fn lemma_sum_children_prefix(m: Map<u128, CountableView>, ids: Seq<CountableId>, k: nat, n: nat, q: Quantity, fuel: nat)
    requires
        k <= n,
        !(sum_children(m, ids, k, q, fuel) is Done),
    ensures
        sum_children(m, ids, n, q, fuel) == sum_children(m, ids, k, q, fuel),
    decreases n - k,
{
    if k < n {
        lemma_sum_children_prefix(m, ids, k, (n - 1) as nat, q, fuel);
    }
}

/// Quantity `q` of the element under `id` alone: a phase's own value, zero
/// for a counter.
pub open spec fn level_value(m: Map<u128, CountableView>, id: CountableId, q: Quantity) -> Outcome<int> {
    match lookup(m, id) {
        None => Outcome::Fail(AppError::CountableNotFound),
        Some(CountableView::Counter(_)) => Outcome::Done(0),
        Some(CountableView::Phase(p)) => Outcome::Done(phase_value(CountableView::Phase(p), q)),
        Some(CountableView::Chain) => Outcome::Stuck,
    }
}

/// Sets (`add` false) or adds to (`add` true) quantity `q` of the element
/// under `id` alone: a phase takes the value, a counter stays as it is.
pub open spec fn level_write(m: Map<u128, CountableView>, id: CountableId, value: int, add: bool, q: Quantity) -> Update {
    match lookup(m, id) {
        None => Update { nodes: m, changed: false, result: Outcome::Fail(AppError::CountableNotFound) },
        Some(CountableView::Counter(_)) => Update { nodes: m, changed: true, result: Outcome::Done(()) },
        Some(CountableView::Phase(p)) => {
            let nv = if add { phase_value(CountableView::Phase(p), q) + value } else { value };
            if fits(q, nv) {
                Update {
                    nodes: m.insert(id.0, with_value(CountableView::Phase(p), q, nv)),
                    changed: true,
                    result: Outcome::Done(()),
                }
            } else {
                Update { nodes: m, changed: false, result: Outcome::Stuck }
            }
        },
        Some(CountableView::Chain) => Update { nodes: m, changed: false, result: Outcome::Stuck },
    }
}

/// The descendants of the element under `id`: the children of a counter
/// in order, followed by the descendants of each child in turn; phases and
/// chains have none.
pub open spec fn rec_desc(m: Map<u128, CountableView>, id: CountableId, fuel: nat) -> Outcome<Seq<CountableId>>
    decreases fuel, 1nat, 0nat,
{
    match lookup(m, id) {
        None => Outcome::Fail(AppError::CountableNotFound),
        Some(CountableView::Counter(c)) => match desc_children(m, c.children, c.children.len(), fuel) {
            Outcome::Done(d) => Outcome::Done(c.children + d),
            Outcome::Fail(e) => Outcome::Fail(e),
            Outcome::Stuck => Outcome::Stuck,
        },
        Some(_) => Outcome::Done(Seq::empty()),
    }
}

/// The descendants of the first `n` of `ids`, one list after the other.
pub open spec fn desc_children(m: Map<u128, CountableView>, ids: Seq<CountableId>, n: nat, fuel: nat) -> Outcome<Seq<CountableId>>
    decreases fuel, 0nat, n,
{
    if n == 0 {
        Outcome::Done(Seq::empty())
    } else if fuel == 0 {
        Outcome::Stuck
    } else {
        match desc_children(m, ids, (n - 1) as nat, fuel) {
            Outcome::Done(s) => match rec_desc(m, ids[n - 1], (fuel - 1) as nat) {
                Outcome::Done(d) => Outcome::Done(s + d),
                Outcome::Fail(e) => Outcome::Fail(e),
                Outcome::Stuck => Outcome::Stuck,
            },
            Outcome::Fail(e) => Outcome::Fail(e),
            Outcome::Stuck => Outcome::Stuck,
        }
    }
}

proof fn lemma_desc_children_prefix(m: Map<u128, CountableView>, ids: Seq<CountableId>, k: nat, n: nat, fuel: nat)
    requires
        k <= n,
        !(desc_children(m, ids, k, fuel) is Done),
    ensures
        desc_children(m, ids, n, fuel) == desc_children(m, ids, k, fuel),
    decreases n - k,
{
    if k < n {
        lemma_desc_children_prefix(m, ids, k, (n - 1) as nat, fuel);
    }
}

/// What an operation that changes quantities leaves behind: the elements
/// afterwards, whether any step of it recorded a change, and its outcome.
pub struct Update {
    pub nodes: Map<u128, CountableView>,
    pub changed: bool,
    pub result: Outcome<()>,
}

/// The element `v` with quantity `q` set to `value`, where it is a phase.
pub open spec fn with_value(v: CountableView, q: Quantity, value: int) -> CountableView {
    match v {
        CountableView::Phase(p) => match q {
            Quantity::Count => CountableView::Phase(crate::nodes::PhaseView { count: value as i32, ..p }),
            Quantity::Time => CountableView::Phase(crate::nodes::PhaseView { time: value as i64, ..p }),
        },
        _ => v,
    }
}

/// Sets quantity `q` of the element under `id`, summed over its
/// descendants, to `target`: the difference to the current sum is handed
/// to `apply_diff`.
pub open spec fn rec_set(m: Map<u128, CountableView>, id: CountableId, target: int, q: Quantity, fuel: nat) -> Update
    decreases fuel, 3nat, 0nat,
{
    match rec_sum(m, id, q, fuel) {
        Outcome::Done(cur) => if fits(q, target - cur) {
            apply_diff(m, id, target - cur, q, fuel)
        } else {
            Update { nodes: m, changed: false, result: Outcome::Stuck }
        },
        Outcome::Fail(e) => Update { nodes: m, changed: false, result: Outcome::Fail(e) },
        Outcome::Stuck => Update { nodes: m, changed: false, result: Outcome::Stuck },
    }
}

/// Adds `diff` to quantity `q` of the element under `id`: a phase takes
/// it, a value that would go below zero set to zero; a counter hands it to
/// its descendants from the last one backwards, as `distribute` describes.
pub open spec fn apply_diff(m: Map<u128, CountableView>, id: CountableId, diff: int, q: Quantity, fuel: nat) -> Update
    decreases fuel, 2nat, 0nat,
{
    match lookup(m, id) {
        None => Update { nodes: m, changed: false, result: Outcome::Fail(AppError::CountableNotFound) },
        Some(CountableView::Chain) => Update { nodes: m, changed: false, result: Outcome::Stuck },
        Some(CountableView::Phase(p)) => {
            let nv = phase_value(CountableView::Phase(p), q) + diff;
            if fits(q, nv) {
                Update {
                    nodes: m.insert(id.0, with_value(CountableView::Phase(p), q, if nv < 0 { 0 } else { nv })),
                    changed: true,
                    result: Outcome::Done(()),
                }
            } else {
                Update { nodes: m, changed: false, result: Outcome::Stuck }
            }
        },
        Some(CountableView::Counter(_)) => match rec_desc(m, id, fuel) {
            Outcome::Done(d) => {
                let u = distribute(m, d, d.len(), diff, q, fuel);
                if u.result is Done {
                    Update { nodes: u.nodes, changed: true, result: Outcome::Done(()) }
                } else {
                    u
                }
            },
            Outcome::Fail(e) => Update { nodes: m, changed: false, result: Outcome::Fail(e) },
            Outcome::Stuck => Update { nodes: m, changed: false, result: Outcome::Stuck },
        },
    }
}

/// Hands `diff` to the first `n` of the descendants `d`, the last first:
/// the running difference takes in the descendant's current sum; while it
/// stays below zero the descendant is set to zero and the next one is
/// tried, otherwise the descendant is set to it and the walk stops.
pub open spec fn distribute(m: Map<u128, CountableView>, d: Seq<CountableId>, n: nat, diff: int, q: Quantity, fuel: nat) -> Update
    decreases fuel, 1nat, n,
{
    if n == 0 {
        Update { nodes: m, changed: false, result: Outcome::Done(()) }
    } else if fuel == 0 {
        Update { nodes: m, changed: false, result: Outcome::Stuck }
    } else {
        match rec_sum(m, d[n - 1], q, fuel) {
            Outcome::Done(v) => {
                let nd = diff + v;
                if !fits(q, nd) {
                    Update { nodes: m, changed: false, result: Outcome::Stuck }
                } else if nd < 0 {
                    let u = rec_set(m, d[n - 1], 0, q, (fuel - 1) as nat);
                    if u.result is Done {
                        let u2 = distribute(u.nodes, d, (n - 1) as nat, nd, q, fuel);
                        Update { nodes: u2.nodes, changed: u.changed || u2.changed, result: u2.result }
                    } else {
                        u
                    }
                } else {
                    rec_set(m, d[n - 1], nd, q, (fuel - 1) as nat)
                }
            },
            Outcome::Fail(e) => Update { nodes: m, changed: false, result: Outcome::Fail(e) },
            Outcome::Stuck => Update { nodes: m, changed: false, result: Outcome::Stuck },
        }
    }
}

/// Whether `id` occurs in `v`.
pub fn contains_id(v: &Vec<CountableId>, id: &CountableId) -> (r: bool)
    ensures
        r == v@.contains(*id),
{
    let mut i: usize = 0;
    while i < v.len()
        invariant
            i <= v@.len(),
            forall|j: int| 0 <= j < i ==> v@[j] != *id,
        decreases v@.len() - i,
    {
        if v[i] == *id {
            return true;
        }
        i = i + 1;
    }
    false
}

/// Whether an executable list of ids carries the outcome `o`.
pub open spec fn ids_match(r: Result<Vec<CountableId>, AppError>, o: Outcome<Seq<CountableId>>) -> bool {
    match o {
        Outcome::Done(d) => r is Ok && r->Ok_0@ == d,
        Outcome::Fail(e) => r == Err::<Vec<CountableId>, AppError>(e),
        Outcome::Stuck => false,
    }
}

/// The direct children of the element under `id`; phases and chains have
/// none.
pub open spec fn level_children(m: Map<u128, CountableView>, id: CountableId) -> Outcome<Seq<CountableId>> {
    match lookup(m, id) {
        None => Outcome::Fail(AppError::CountableNotFound),
        Some(CountableView::Counter(c)) => Outcome::Done(c.children),
        Some(_) => Outcome::Done(Seq::empty()),
    }
}

/// The last direct child of the element under `id`, if it has one.
pub open spec fn level_last_child(m: Map<u128, CountableView>, id: CountableId) -> Outcome<Option<CountableId>> {
    match lookup(m, id) {
        None => Outcome::Fail(AppError::CountableNotFound),
        Some(CountableView::Counter(c)) => Outcome::Done(
            if c.children.len() == 0 {
                None
            } else {
                Some(c.children.last())
            },
        ),
        Some(CountableView::Phase(_)) => Outcome::Done(None),
        Some(CountableView::Chain) => Outcome::Stuck,
    }
}

/// The parent of the element under `id`; an id that the store does not
/// hold has none.
pub open spec fn level_parent(m: Map<u128, CountableView>, id: CountableId) -> Outcome<Option<CountableId>> {
    match lookup(m, id) {
        None => Outcome::Done(None),
        Some(CountableView::Counter(c)) => Outcome::Done(c.parent),
        Some(CountableView::Phase(p)) => Outcome::Done(Some(p.parent)),
        Some(CountableView::Chain) => Outcome::Stuck,
    }
}

/// The rolls of the element under `id` alone: zero for a counter, for a
/// phase the rolls of its own hunt type, count and charm.
pub open spec fn level_rolls(m: Map<u128, CountableView>, id: CountableId) -> Outcome<int> {
    match lookup(m, id) {
        None => Outcome::Fail(AppError::CountableNotFound),
        Some(CountableView::Counter(_)) => Outcome::Done(0),
        Some(CountableView::Phase(p)) => phase_rolls(p),
        Some(CountableView::Chain) => Outcome::Stuck,
    }
}

/// The rolls of phase `p`; a phase marked `Mixed` has none to give.
pub open spec fn phase_rolls(p: crate::nodes::PhaseView) -> Outcome<int> {
    if p.hunt_type is Mixed {
        Outcome::Stuck
    } else {
        let r = spec_rolls(p.hunt_type, p.count as int, p.has_charm);
        if fits_i32(r) {
            Outcome::Done(r)
        } else {
            Outcome::Stuck
        }
    }
}

/// The odds (one in N, as N) of the element under `id` alone: zero for a
/// counter.
pub open spec fn level_odds(m: Map<u128, CountableView>, id: CountableId) -> Outcome<u32> {
    match lookup(m, id) {
        None => Outcome::Fail(AppError::CountableNotFound),
        Some(CountableView::Counter(_)) => Outcome::Done(0),
        Some(CountableView::Phase(p)) => Outcome::Done(crate::nodes::spec_odds(p.hunt_type)),
        Some(CountableView::Chain) => Outcome::Stuck,
    }
}

/// Whether the element under `id` alone is marked completed; counters are
/// not.
pub open spec fn level_completed(m: Map<u128, CountableView>, id: CountableId) -> Outcome<bool> {
    match lookup(m, id) {
        None => Outcome::Fail(AppError::CountableNotFound),
        Some(CountableView::Counter(_)) => Outcome::Done(false),
        Some(CountableView::Phase(p)) => Outcome::Done(p.success),
        Some(CountableView::Chain) => Outcome::Stuck,
    }
}

/// The leaf reached from `id` by taking the last child again and again.
pub open spec fn rec_last_child(m: Map<u128, CountableView>, id: CountableId, fuel: nat) -> Outcome<CountableId>
    decreases fuel,
{
    match lookup(m, id) {
        None => Outcome::Fail(AppError::CountableNotFound),
        Some(CountableView::Counter(c)) => if c.children.len() == 0 {
            Outcome::Done(id)
        } else if fuel == 0 {
            Outcome::Stuck
        } else {
            rec_last_child(m, c.children.last(), (fuel - 1) as nat)
        },
        Some(CountableView::Phase(_)) => Outcome::Done(id),
        Some(CountableView::Chain) => Outcome::Stuck,
    }
}

/// The root reached from `id` by following parents up.
pub open spec fn rec_root(m: Map<u128, CountableView>, id: CountableId, fuel: nat) -> Outcome<CountableId>
    decreases fuel,
{
    match lookup(m, id) {
        None => Outcome::Fail(AppError::CountableNotFound),
        Some(CountableView::Counter(c)) => match c.parent {
            None => Outcome::Done(id),
            Some(p) => if fuel == 0 {
                Outcome::Stuck
            } else {
                rec_root(m, p, (fuel - 1) as nat)
            },
        },
        Some(CountableView::Phase(p)) => if fuel == 0 {
            Outcome::Stuck
        } else {
            rec_root(m, p.parent, (fuel - 1) as nat)
        },
        Some(CountableView::Chain) => Outcome::Stuck,
    }
}

/// `id` followed by its parents up to one without a parent (or one the
/// store does not hold).
pub open spec fn parents_from(m: Map<u128, CountableView>, id: CountableId, fuel: nat) -> Outcome<Seq<CountableId>>
    decreases fuel,
{
    match level_parent(m, id) {
        Outcome::Done(None) => Outcome::Done(seq![id]),
        Outcome::Done(Some(p)) => if fuel == 0 {
            Outcome::Stuck
        } else {
            match parents_from(m, p, (fuel - 1) as nat) {
                Outcome::Done(rest) => Outcome::Done(seq![id] + rest),
                Outcome::Fail(e) => Outcome::Fail(e),
                Outcome::Stuck => Outcome::Stuck,
            }
        },
        Outcome::Fail(e) => Outcome::Fail(e),
        Outcome::Stuck => Outcome::Stuck,
    }
}

/// What adding the element `v` under `uuid` to `m` answers: its id without
/// a parent or under a counter; `CountableNotFound` for a parent the store
/// does not hold; that the parent cannot hold children otherwise.
pub open spec fn new_outcome(
    m: Map<u128, CountableView>,
    v: CountableView,
    uuid: u128,
    parent: Option<CountableId>,
    r: Result<CountableId, AppError>,
) -> bool {
    match parent {
        None => r == Ok::<CountableId, AppError>(CountableId(uuid)),
        Some(p) => {
            let m1 = m.insert(uuid, v);
            if !m1.contains_key(p.0) {
                r == Err::<CountableId, AppError>(AppError::CountableNotFound)
            } else if m1[p.0] is Counter {
                r == Ok::<CountableId, AppError>(CountableId(uuid))
            } else {
                r matches Err(e) && is_cannot_contain(e, m1[p.0].kind())
            }
        },
    }
}

/// The parents of `id` up to the root, the nearest first, without `id`;
/// an id that the store does not hold is an error.
pub open spec fn all_parents_of(m: Map<u128, CountableView>, id: CountableId, fuel: nat) -> Outcome<Seq<CountableId>> {
    if lookup(m, id) is None {
        Outcome::Fail(AppError::CountableNotFound)
    } else {
    match level_parent(m, id) {
        Outcome::Done(None) => Outcome::Done(Seq::empty()),
        Outcome::Done(Some(p)) => parents_from(m, p, fuel),
        Outcome::Fail(e) => Outcome::Fail(e),
        Outcome::Stuck => Outcome::Stuck,
    }
    }
}

/// Whether every partial sum of `vals`, added from the first on, fits an
/// `i32` (`unsigned` false) or a `u32` (`unsigned` true).
pub open spec fn partial_sums_fit(vals: Seq<int>, n: nat, unsigned: bool) -> bool
    decreases n,
{
    if n == 0 {
        true
    } else {
        partial_sums_fit(vals, (n - 1) as nat, unsigned) && if unsigned {
            0 <= seq_sum(vals, n) <= u32::MAX
        } else {
            fits_i32(seq_sum(vals, n))
        }
    }
}

/// The sum of the first `n` of `vals`.
pub open spec fn seq_sum(vals: Seq<int>, n: nat) -> int
    decreases n,
{
    if n == 0 {
        0
    } else {
        seq_sum(vals, (n - 1) as nat) + vals[n - 1]
    }
}

/// A list of values summed as `Iterator::sum` does: stuck where a partial
/// sum overflows.
pub open spec fn checked_total(o: Outcome<Seq<int>>, unsigned: bool) -> Outcome<int> {
    match o {
        Outcome::Done(vals) => if partial_sums_fit(vals, vals.len(), unsigned) {
            Outcome::Done(seq_sum(vals, vals.len()))
        } else {
            Outcome::Stuck
        },
        Outcome::Fail(e) => Outcome::Fail(e),
        Outcome::Stuck => Outcome::Stuck,
    }
}

/// The rolls of the element under `id`: a phase's own, the total over its
/// children for a counter.
pub open spec fn rec_rolls(m: Map<u128, CountableView>, id: CountableId, fuel: nat) -> Outcome<int>
    decreases fuel, 1nat, 0nat,
{
    match lookup(m, id) {
        None => Outcome::Fail(AppError::CountableNotFound),
        Some(CountableView::Counter(c)) => checked_total(collect_rolls(m, c.children, c.children.len(), fuel), false),
        Some(CountableView::Phase(p)) => phase_rolls(p),
        Some(CountableView::Chain) => Outcome::Stuck,
    }
}

/// The rolls of the first `n` of `ids`, in order, up to the first failure.
pub open spec fn collect_rolls(m: Map<u128, CountableView>, ids: Seq<CountableId>, n: nat, fuel: nat) -> Outcome<Seq<int>>
    decreases fuel, 0nat, n,
{
    if n == 0 {
        Outcome::Done(Seq::empty())
    } else if fuel == 0 {
        Outcome::Stuck
    } else {
        match collect_rolls(m, ids, (n - 1) as nat, fuel) {
            Outcome::Done(s) => match rec_rolls(m, ids[n - 1], (fuel - 1) as nat) {
                Outcome::Done(v) => Outcome::Done(s.push(v)),
                Outcome::Fail(e) => Outcome::Fail(e),
                Outcome::Stuck => Outcome::Stuck,
            },
            Outcome::Fail(e) => Outcome::Fail(e),
            Outcome::Stuck => Outcome::Stuck,
        }
    }
}

/// The number of completed phases below the element under `id` (itself,
/// for a phase).
pub open spec fn rec_completed(m: Map<u128, CountableView>, id: CountableId, fuel: nat) -> Outcome<int>
    decreases fuel, 1nat, 0nat,
{
    match lookup(m, id) {
        None => Outcome::Fail(AppError::CountableNotFound),
        Some(CountableView::Counter(c)) => checked_total(collect_completed(m, c.children, c.children.len(), fuel), true),
        Some(CountableView::Phase(p)) => Outcome::Done(if p.success { 1 } else { 0 }),
        Some(CountableView::Chain) => Outcome::Stuck,
    }
}

/// The completed counts of the first `n` of `ids`, in order, up to the
/// first failure.
pub open spec fn collect_completed(m: Map<u128, CountableView>, ids: Seq<CountableId>, n: nat, fuel: nat) -> Outcome<Seq<int>>
    decreases fuel, 0nat, n,
{
    if n == 0 {
        Outcome::Done(Seq::empty())
    } else if fuel == 0 {
        Outcome::Stuck
    } else {
        match collect_completed(m, ids, (n - 1) as nat, fuel) {
            Outcome::Done(s) => match rec_completed(m, ids[n - 1], (fuel - 1) as nat) {
                Outcome::Done(v) => Outcome::Done(s.push(v)),
                Outcome::Fail(e) => Outcome::Fail(e),
                Outcome::Stuck => Outcome::Stuck,
            },
            Outcome::Fail(e) => Outcome::Fail(e),
            Outcome::Stuck => Outcome::Stuck,
        }
    }
}

/// Whether every phase below the element under `id` (itself, for a phase)
/// has the charm; a counter without children counts as having it.
pub open spec fn rec_charm(m: Map<u128, CountableView>, id: CountableId, fuel: nat) -> Outcome<bool>
    decreases fuel, 1nat, 0nat,
{
    match lookup(m, id) {
        None => Outcome::Fail(AppError::CountableNotFound),
        Some(CountableView::Counter(c)) => all_charm(m, c.children, c.children.len(), fuel),
        Some(CountableView::Phase(p)) => Outcome::Done(p.has_charm),
        Some(CountableView::Chain) => Outcome::Stuck,
    }
}

/// Whether each of the first `n` of `ids` has the charm, asked in order up
/// to the first failure.
pub open spec fn all_charm(m: Map<u128, CountableView>, ids: Seq<CountableId>, n: nat, fuel: nat) -> Outcome<bool>
    decreases fuel, 0nat, n,
{
    if n == 0 {
        Outcome::Done(true)
    } else if fuel == 0 {
        Outcome::Stuck
    } else {
        match all_charm(m, ids, (n - 1) as nat, fuel) {
            Outcome::Done(b) => match rec_charm(m, ids[n - 1], (fuel - 1) as nat) {
                Outcome::Done(v) => Outcome::Done(b && v),
                Outcome::Fail(e) => Outcome::Fail(e),
                Outcome::Stuck => Outcome::Stuck,
            },
            Outcome::Fail(e) => Outcome::Fail(e),
            Outcome::Stuck => Outcome::Stuck,
        }
    }
}

/// Whether the element under `id` is marked a success: a phase's own mark,
/// for a counter that of its last child (false where that one is missing).
pub open spec fn rec_success(m: Map<u128, CountableView>, id: CountableId, fuel: nat) -> Outcome<bool>
    decreases fuel,
{
    match lookup(m, id) {
        None => Outcome::Fail(AppError::CountableNotFound),
        Some(CountableView::Counter(c)) => if c.children.len() == 0 {
            Outcome::Done(false)
        } else if fuel == 0 {
            Outcome::Stuck
        } else {
            match rec_success(m, c.children.last(), (fuel - 1) as nat) {
                Outcome::Done(b) => Outcome::Done(b),
                Outcome::Fail(_) => Outcome::Done(false),
                Outcome::Stuck => Outcome::Stuck,
            }
        },
        Some(CountableView::Phase(p)) => Outcome::Done(p.success),
        Some(CountableView::Chain) => Outcome::Stuck,
    }
}

/// The hunt type of the element under `id`: a phase's own; for a counter
/// the hunt types of all its descendants combined, `Mixed` where they
/// differ, and an error where it has none.
pub open spec fn rec_hunttype(m: Map<u128, CountableView>, id: CountableId, fuel: nat) -> Outcome<Hunttype>
    decreases fuel, 1nat, 0nat,
{
    match lookup(m, id) {
        None => Outcome::Fail(AppError::CountableNotFound),
        Some(CountableView::Counter(_)) => match rec_desc(m, id, fuel) {
            Outcome::Done(d) => match combine_hunttypes(m, d, d.len(), fuel) {
                Outcome::Done(None) => Outcome::Fail(AppError::RequiresChild),
                Outcome::Done(Some(h)) => Outcome::Done(h),
                Outcome::Fail(e) => Outcome::Fail(e),
                Outcome::Stuck => Outcome::Stuck,
            },
            Outcome::Fail(e) => Outcome::Fail(e),
            Outcome::Stuck => Outcome::Stuck,
        },
        Some(CountableView::Phase(p)) => Outcome::Done(p.hunt_type),
        Some(CountableView::Chain) => Outcome::Stuck,
    }
}

/// The hunt types of the first `n` of `d` combined in order; `None` for none.
pub open spec fn combine_hunttypes(m: Map<u128, CountableView>, d: Seq<CountableId>, n: nat, fuel: nat) -> Outcome<Option<Hunttype>>
    decreases fuel, 0nat, n,
{
    if n == 0 {
        Outcome::Done(None)
    } else if fuel == 0 {
        Outcome::Stuck
    } else {
        match combine_hunttypes(m, d, (n - 1) as nat, fuel) {
            Outcome::Done(acc) => match rec_hunttype(m, d[n - 1], (fuel - 1) as nat) {
                Outcome::Done(h) => Outcome::Done(Some(
                    match acc {
                        Some(a) => crate::nodes::spec_combine(a, h),
                        None => h,
                    },
                )),
                Outcome::Fail(e) => Outcome::Fail(e),
                Outcome::Stuck => Outcome::Stuck,
            },
            Outcome::Fail(e) => Outcome::Fail(e),
            Outcome::Stuck => Outcome::Stuck,
        }
    }
}

proof fn lemma_collect_prefix(m: Map<u128, CountableView>, ids: Seq<CountableId>, k: nat, n: nat, fuel: nat, which: nat)
    requires
        k <= n,
        which == 0 ==> !(collect_rolls(m, ids, k, fuel) is Done),
        which == 1 ==> !(collect_completed(m, ids, k, fuel) is Done),
        which == 2 ==> !(all_charm(m, ids, k, fuel) is Done),
        which == 3 ==> !(combine_hunttypes(m, ids, k, fuel) is Done),
    ensures
        which == 0 ==> collect_rolls(m, ids, n, fuel) == collect_rolls(m, ids, k, fuel),
        which == 1 ==> collect_completed(m, ids, n, fuel) == collect_completed(m, ids, k, fuel),
        which == 2 ==> all_charm(m, ids, n, fuel) == all_charm(m, ids, k, fuel),
        which == 3 ==> combine_hunttypes(m, ids, n, fuel) == combine_hunttypes(m, ids, k, fuel),
    decreases n - k,
{
    if k < n {
        lemma_collect_prefix(m, ids, k, (n - 1) as nat, fuel, which);
    }
}

/// The values of `v` as integers.
pub open spec fn ints(v: Seq<i64>) -> Seq<int> {
    v.map_values(|x: i64| x as int)
}

proof fn lemma_partial_fit(vals: Seq<int>, k: nat, n: nat, unsigned: bool)
    requires
        k <= n,
        partial_sums_fit(vals, n, unsigned),
    ensures
        partial_sums_fit(vals, k, unsigned),
    decreases n - k,
{
    if k < n {
        lemma_partial_fit(vals, k, (n - 1) as nat, unsigned);
    }
}

/// Adds up `vals` from the first on.
fn checked_sum_exec(vals: &Vec<i64>, unsigned: bool) -> (r: i64)
    requires
        partial_sums_fit(ints(vals@), vals@.len(), unsigned),
    ensures
        r == seq_sum(ints(vals@), vals@.len()),
{
    let ghost xs = ints(vals@);
    let mut total: i64 = 0;
    let mut j: usize = 0;
    while j < vals.len()
        invariant
            xs == ints(vals@),
            j <= vals@.len(),
            total == seq_sum(xs, j as nat),
            partial_sums_fit(xs, vals@.len(), unsigned),
        decreases vals@.len() - j,
    {
        proof {
            lemma_partial_fit(xs, (j + 1) as nat, vals@.len(), unsigned);
            assert(xs[j as int] == vals@[j as int] as int);
        }
        total = total + vals[j];
        j = j + 1;
    }
    total
}

/// Flips the success mark of the element under `id` where it is a phase.
pub open spec fn toggle_success_of(m: Map<u128, CountableView>, id: CountableId) -> Update {
    match lookup(m, id) {
        None => Update { nodes: m, changed: false, result: Outcome::Fail(AppError::CountableNotFound) },
        Some(CountableView::Counter(_)) => Update { nodes: m, changed: true, result: Outcome::Done(()) },
        Some(CountableView::Phase(p)) => Update {
            nodes: m.insert(id.0, CountableView::Phase(crate::nodes::PhaseView { success: !p.success, ..p })),
            changed: true,
            result: Outcome::Done(()),
        },
        Some(CountableView::Chain) => Update { nodes: m, changed: false, result: Outcome::Stuck },
    }
}

/// When the element under `id` was created.
pub open spec fn created_at_of(m: Map<u128, CountableView>, id: CountableId) -> Outcome<i64> {
    match lookup(m, id) {
        None => Outcome::Fail(AppError::CountableNotFound),
        Some(CountableView::Chain) => Outcome::Stuck,
        Some(v) => Outcome::Done(v.created_at()),
    }
}

/// The keys of `m`, each once, in the map's own order.
pub(crate) fn keys_of(m: &HashMap<u128, Countable>) -> (r: Vec<u128>)
    ensures
        r@.no_duplicates(),
        r@.to_set() == m@.dom(),
        r@.len() == m@.dom().len(),
{
    let mut out: Vec<u128> = Vec::new();
    let ghost all = vstd::std_specs::hash::spec_keys_iter(m).remaining();
    for k in it: m.keys()
        invariant
            it.seq() == all,
            out@.len() == it.index(),
            forall|i: int| 0 <= i < it.index() ==> out@[i] == *all[i],
    {
        out.push(*k);
    }
    proof {
        assert(out@ =~= all.unref());
    }
    out
}

/// The kind of the element under `id`.
pub open spec fn kind_of(m: Map<u128, CountableView>, id: CountableId) -> Outcome<CountableKind> {
    match lookup(m, id) {
        None => Outcome::Fail(AppError::CountableNotFound),
        Some(v) => Outcome::Done(v.kind()),
    }
}

/// The name of the element under `id`.
pub open spec fn name_of(m: Map<u128, CountableView>, id: CountableId) -> Outcome<Seq<char>> {
    match lookup(m, id) {
        None => Outcome::Fail(AppError::CountableNotFound),
        Some(CountableView::Chain) => Outcome::Stuck,
        Some(v) => Outcome::Done(v.name()),
    }
}

/// Renames the element under `id`.
pub open spec fn rename(m: Map<u128, CountableView>, id: CountableId, name: Seq<char>) -> Update {
    match lookup(m, id) {
        None => Update { nodes: m, changed: false, result: Outcome::Fail(AppError::CountableNotFound) },
        Some(CountableView::Chain) => Update { nodes: m, changed: false, result: Outcome::Stuck },
        Some(v) => Update { nodes: m.insert(id.0, v.with_name(name)), changed: true, result: Outcome::Done(()) },
    }
}

/// Whether `r` is the error that a parent of `kind` gives when a child is
/// added to it.
pub open spec fn is_cannot_contain(r: AppError, kind: CountableKind) -> bool {
    r matches AppError::CannotContainChildren(s) && s@ == crate::nodes::spec_kind_name(kind)
}

/// The elements after the new element `v` is stored under `uuid` and, when
/// it has a parent, appended to the parent's children.
pub open spec fn add_new(m: Map<u128, CountableView>, v: CountableView, uuid: u128, parent: Option<CountableId>) -> Map<u128, CountableView> {
    let m1 = m.insert(uuid, v);
    match parent {
        Some(p) => if m1.contains_key(p.0) && m1[p.0] is Counter {
            m1.insert(p.0, m1[p.0].with_child(CountableId(uuid)))
        } else {
            m1
        },
        None => m1,
    }
}

/// Archives the element under `id` after archiving each of its
/// descendants in turn.
pub open spec fn rec_archive(m: Map<u128, CountableView>, id: CountableId, fuel: nat) -> Update
    decreases fuel, 1nat, 0nat,
{
    match rec_desc(m, id, fuel) {
        Outcome::Done(d) => {
            let u = archive_all(m, d, d.len(), fuel);
            if u.result is Done {
                match lookup(u.nodes, id) {
                    None => Update { nodes: u.nodes, changed: u.changed, result: Outcome::Fail(AppError::CountableNotFound) },
                    Some(CountableView::Chain) => Update { nodes: u.nodes, changed: u.changed, result: Outcome::Stuck },
                    Some(v) => Update { nodes: u.nodes.insert(id.0, v.archived()), changed: true, result: Outcome::Done(()) },
                }
            } else {
                u
            }
        },
        Outcome::Fail(e) => Update { nodes: m, changed: false, result: Outcome::Fail(e) },
        Outcome::Stuck => Update { nodes: m, changed: false, result: Outcome::Stuck },
    }
}

/// Archives the first `n` of `d`, the first first.
pub open spec fn archive_all(m: Map<u128, CountableView>, d: Seq<CountableId>, n: nat, fuel: nat) -> Update
    decreases fuel, 0nat, n,
{
    if n == 0 {
        Update { nodes: m, changed: false, result: Outcome::Done(()) }
    } else if fuel == 0 {
        Update { nodes: m, changed: false, result: Outcome::Stuck }
    } else {
        let u = archive_all(m, d, (n - 1) as nat, fuel);
        if u.result is Done {
            let u2 = rec_archive(u.nodes, d[n - 1], (fuel - 1) as nat);
            Update { nodes: u2.nodes, changed: u.changed || u2.changed, result: u2.result }
        } else {
            u
        }
    }
}

/// The element that a merge keeps under a key that `other` holds: an
/// archived incoming one always; otherwise the one already there when it is
/// archived or was edited later; otherwise the incoming one.
pub open spec fn merge_pick(mine: Option<CountableView>, incoming: CountableView) -> CountableView {
    if incoming.is_archived() {
        incoming
    } else {
        match mine {
            Some(c) => if c.last_edit() > incoming.last_edit() || c.is_archived() {
                c
            } else {
                incoming
            },
            None => incoming,
        }
    }
}

/// The elements after merging `other` into `mine`.
pub open spec fn merged(mine: Map<u128, CountableView>, other: Map<u128, CountableView>) -> Map<u128, CountableView> {
    Map::new(
        |k: u128| mine.contains_key(k) || other.contains_key(k),
        |k: u128| if other.contains_key(k) {
            merge_pick(if mine.contains_key(k) { Some(mine[k]) } else { None }, other[k])
        } else {
            mine[k]
        },
    )
}

/// Whether a merge of `other` into `mine` can read every element it
/// compares: no incoming chain, and no chain already there under a key that
/// a non-archived incoming element shares.
pub open spec fn merge_ok(mine: Map<u128, CountableView>, other: Map<u128, CountableView>) -> bool {
    forall|k: u128| #[trigger] other.contains_key(k) ==> !(other[k] is Chain) && (!other[k].is_archived()
        && mine.contains_key(k) ==> !(mine[k] is Chain))
}

proof fn lemma_archive_all_prefix(m: Map<u128, CountableView>, d: Seq<CountableId>, k: nat, n: nat, fuel: nat)
    requires
        k <= n,
        !archive_all(m, d, n, fuel).result.is_stuck(),
    ensures
        !archive_all(m, d, k, fuel).result.is_stuck(),
        !(archive_all(m, d, k, fuel).result is Done) ==> archive_all(m, d, n, fuel) == archive_all(m, d, k, fuel),
    decreases n - k,
{
    if k < n {
        lemma_archive_all_prefix(m, d, k, (n - 1) as nat, fuel);
    }
}

/// Whether `k` is an id of `m` whose element is its own root.
pub open spec fn is_root_entry(m: Map<u128, CountableView>, k: u128, fuel: nat) -> bool {
    m.contains_key(k) && rec_root(m, CountableId(m[k].uuid()), fuel) == Outcome::<CountableId>::Done(CountableId(m[k].uuid()))
}

/// Whether the list `r` holds, in some order and once each, the elements
/// of `m` under the keys `keys`.
pub open spec fn lists_elements(r: Seq<Countable>, m: Map<u128, CountableView>, keys: Set<u128>) -> bool {
    exists|ks: Seq<u128>|
        #![trigger ks.to_set()]
        ks.no_duplicates() && ks.to_set() == keys && ks.len() == r.len() && forall|i: int|
            0 <= i < r.len() ==> m.contains_key(ks[i]) && (#[trigger] r[i])@ == m[ks[i]]
}

/// The ids that `parents` lists for some key of `keys`: the ancestors of
/// each, as `all_parents_of` walks up to them.
pub open spec fn ancestors_of(m: Map<u128, CountableView>, keys: Set<u128>, fuel: nat) -> Set<u128> {
    Set::new(|a: u128| exists|k: u128| #[trigger] keys.contains(k)
        && (all_parents_of(m, CountableId(k), fuel) matches Outcome::Done(ps) && ps.contains(CountableId(a))))
}

/// The keys of `ks` whose elements are their own roots, in order.
pub open spec fn keep_roots(m: Map<u128, CountableView>, ks: Seq<u128>, fuel: nat) -> Seq<u128>
    decreases ks.len(),
{
    if ks.len() == 0 {
        Seq::empty()
    } else {
        let r = keep_roots(m, ks.drop_last(), fuel);
        if is_root_entry(m, ks.last(), fuel) {
            r.push(ks.last())
        } else {
            r
        }
    }
}

proof fn lemma_keep_roots(m: Map<u128, CountableView>, ks: Seq<u128>, fuel: nat)
    requires
        ks.no_duplicates(),
    ensures
        keep_roots(m, ks, fuel).no_duplicates(),
        forall|x: u128| keep_roots(m, ks, fuel).contains(x) <==> (ks.contains(x) && is_root_entry(m, x, fuel)),
    decreases ks.len(),
{
    if ks.len() > 0 {
        let init = ks.drop_last();
        assert(init.no_duplicates()) by {
            assert forall|a: int, b: int| 0 <= a < b < init.len() implies init[a] != init[b] by {
                assert(ks[a] == init[a] && ks[b] == init[b]);
            }
        }
        lemma_keep_roots(m, init, fuel);
        let r = keep_roots(m, init, fuel);
        let last = ks.last();
        assert(!init.contains(last)) by {
            if init.contains(last) {
                let j = choose|j: int| 0 <= j < init.len() && init[j] == last;
                assert(ks[j] == ks[ks.len() - 1]);
            }
        }
        assert forall|x: u128| ks.contains(x) <==> (init.contains(x) || x == last) by {
            if ks.contains(x) && x != last {
                let j = choose|j: int| 0 <= j < ks.len() && ks[j] == x;
                assert(init[j] == x);
            }
            if init.contains(x) {
                let j = choose|j: int| 0 <= j < init.len() && init[j] == x;
                assert(ks[j] == x);
            }
            if x == last {
                assert(ks[ks.len() - 1] == x);
            }
        }
        if !is_root_entry(m, last, fuel) {
            assert(keep_roots(m, ks, fuel) == r);
        }
        if is_root_entry(m, last, fuel) {
            let r2 = r.push(last);
            assert(keep_roots(m, ks, fuel) == r2);
            assert forall|x: u128| r2.contains(x) <==> (r.contains(x) || x == last) by {
                if r2.contains(x) && x != last {
                    let j = choose|j: int| 0 <= j < r2.len() && r2[j] == x;
                    assert(r[j] == x);
                }
                if r.contains(x) {
                    let j = choose|j: int| 0 <= j < r.len() && r[j] == x;
                    assert(r2[j] == x);
                }
                if x == last {
                    assert(r2[r.len() as int] == x);
                }
            }
            assert(r2.no_duplicates()) by {
                assert forall|a: int, b: int| 0 <= a < b < r2.len() implies r2[a] != r2[b] by {
                    if b == r.len() {
                        assert(r2[a] == r[a]);
                        assert(r.contains(r[a]));
                    } else {
                        assert(r2[a] == r[a] && r2[b] == r[b]);
                    }
                }
            }
        }
    }
}

impl<M: StoreMethod, C: StoreCheck> CountableStore<M, C> {
    /// Reads quantity `q` of `p`.
    fn read_value(p: &crate::nodes::Phase, q: Quantity) -> (r: i64)
        ensures
            r == phase_value(CountableView::Phase(p@), q),
    {
        match q {
            Quantity::Count => p.count as i64,
            Quantity::Time => p.time,
        }
    }

    /// Quantity `q` of `id` summed over its descendants.
    fn rec_sum_exec(&self, id: CountableId, q: Quantity, Ghost(fuel): Ghost<nat>) -> (r: Result<i64, AppError>)
        requires
            !rec_sum(self@, id, q, fuel).is_stuck(),
        ensures
            match rec_sum(self@, id, q, fuel) {
                Outcome::Done(v) => r == Ok::<i64, AppError>(v as i64) && i64::MIN <= v <= i64::MAX
                    && (q is Count ==> fits_i32(v)),
                Outcome::Fail(e) => r == Err::<i64, AppError>(e),
                Outcome::Stuck => false,
            },
        decreases fuel, 1nat,
    {
        let ghost m = self@;
        match self.store.get(&id.0) {
            None => Err(AppError::CountableNotFound),
            Some(Countable::Phase(p)) => {
                let v = Self::read_value(p, q);
                Ok(v)
            },
            Some(Countable::Chain(_)) => {
                proof {
                    assert(false);
                }
                Err(AppError::Internal)
            },
            Some(Countable::Counter(c)) => {
                let ghost ids = c.children@;
                assert(m[id.0] == CountableView::Counter(c@));
                assert(rec_sum(m, id, q, fuel) == sum_children(m, ids, ids.len(), q, fuel));
                let mut sum: i64 = 0;
                let mut i: usize = 0;
                while i < c.children.len()
                    invariant
                        m == self@,
                        ids == c.children@,
                        i <= ids.len(),
                        rec_sum(m, id, q, fuel) == sum_children(m, ids, ids.len(), q, fuel),
                        sum_children(m, ids, i as nat, q, fuel) == Outcome::<int>::Done(sum as int),
                        !sum_children(m, ids, ids.len(), q, fuel).is_stuck(),
                        fits(q, sum as int),
                    decreases ids.len() - i,
                {
                    proof {
                        if !(sum_children(m, ids, (i + 1) as nat, q, fuel) is Done) {
                            lemma_sum_children_prefix(m, ids, (i + 1) as nat, ids.len(), q, fuel);
                        }
                    }
                    let child = c.children[i];
                    let v = self.rec_sum_exec(child, q, Ghost((fuel - 1) as nat));
                    match v {
                        Ok(v) => {
                            sum = sum + v;
                        },
                        Err(e) => {
                            proof {
                                assert(sum_children(m, ids, (i + 1) as nat, q, fuel) == Outcome::<int>::Fail(e));
                                lemma_sum_children_prefix(m, ids, (i + 1) as nat, ids.len(), q, fuel);
                                assert(rec_sum(m, id, q, fuel) == sum_children(m, ids, ids.len(), q, fuel));
                            }
                            return Err(e);
                        },
                    }
                    i = i + 1;
                }
                Ok(sum)
            },
        }
    }

    /// The descendants of `id`, as `rec_desc` lists them.
    fn rec_desc_exec(&self, id: CountableId, Ghost(fuel): Ghost<nat>) -> (r: Result<Vec<CountableId>, AppError>)
        requires
            !rec_desc(self@, id, fuel).is_stuck(),
        ensures
            match rec_desc(self@, id, fuel) {
                Outcome::Done(d) => r is Ok && r->Ok_0@ == d,
                Outcome::Fail(e) => r == Err::<Vec<CountableId>, AppError>(e),
                Outcome::Stuck => false,
            },
        decreases fuel, 1nat,
    {
        let ghost m = self@;
        match self.store.get(&id.0) {
            None => Err(AppError::CountableNotFound),
            Some(Countable::Counter(c)) => {
                let ghost ids = c.children@;
                assert(m[id.0] == CountableView::Counter(c@));
                let mut out: Vec<CountableId> = c.children.clone();
                let mut i: usize = 0;
                while i < c.children.len()
                    invariant
                        m == self@,
                        ids == c.children@,
                        i <= ids.len(),
                        lookup(m, id) == Some(CountableView::Counter(c@)),
                        desc_children(m, ids, i as nat, fuel) matches Outcome::Done(s) && out@ == ids + s,
                        !desc_children(m, ids, ids.len(), fuel).is_stuck(),
                        !rec_desc(m, id, fuel).is_stuck(),
                    decreases ids.len() - i,
                {
                    proof {
                        if !(desc_children(m, ids, (i + 1) as nat, fuel) is Done) {
                            lemma_desc_children_prefix(m, ids, (i + 1) as nat, ids.len(), fuel);
                        }
                    }
                    let child = c.children[i];
                    let sub = self.rec_desc_exec(child, Ghost((fuel - 1) as nat));
                    match sub {
                        Ok(mut d) => {
                            let ghost before = out@;
                            out.append(&mut d);
                            proof {
                                let s = desc_children(m, ids, i as nat, fuel)->Done_0;
                                assert(out@ == ids + (s + rec_desc(m, child, (fuel - 1) as nat)->Done_0));
                            }
                        },
                        Err(e) => {
                            proof {
                                assert(desc_children(m, ids, (i + 1) as nat, fuel) == Outcome::<Seq<CountableId>>::Fail(e));
                                lemma_desc_children_prefix(m, ids, (i + 1) as nat, ids.len(), fuel);
                            }
                            return Err(e);
                        },
                    }
                    i = i + 1;
                }
                Ok(out)
            },
            Some(_) => Ok(Vec::new()),
        }
    }

    /// Writes `value` into quantity `q` of the phase under `id`.
    fn write_phase_value(&mut self, id: CountableId, value: i64, q: Quantity)
        requires
            old(self)@.contains_key(id.0),
            old(self)@[id.0] is Phase,
            q is Count ==> fits_i32(value as int),
        ensures
            final(self)@ == old(self)@.insert(id.0, with_value(old(self)@[id.0], q, value as int)),
            final(self).owner == old(self).owner,
            final(self).selection == old(self).selection,
            final(self).is_changed == old(self).is_changed,
    {
        let n = self.store.get(&id.0).unwrap().clone();
        let n2 = match n {
            Countable::Phase(mut p) => {
                match q {
                    Quantity::Count => {
                        p.count = value as i32;
                    },
                    Quantity::Time => {
                        p.time = value;
                    },
                }
                Countable::Phase(p)
            },
            other => other,
        };
        let ghost before = self@;
        self.store.insert(id.0, n2);
        proof {
            assert(self@ =~= before.insert(id.0, with_value(before[id.0], q, value as int)));
        }
    }

    /// Sets quantity `q` of `id`, summed over its descendants, to `target`.
    fn rec_set_exec(&mut self, id: CountableId, target: i64, q: Quantity, Ghost(fuel): Ghost<nat>) -> (r: Result<(), AppError>)
        requires
            !rec_set(old(self)@, id, target as int, q, fuel).result.is_stuck(),
        ensures
            final(self)@ == rec_set(old(self)@, id, target as int, q, fuel).nodes,
            final(self).is_changed == (old(self).is_changed || rec_set(old(self)@, id, target as int, q, fuel).changed),
            r == rec_set(old(self)@, id, target as int, q, fuel).result.as_result(),
            final(self).owner == old(self).owner,
            final(self).selection == old(self).selection,
        decreases fuel, 3nat,
    {
        let cur = self.rec_sum_exec(id, q, Ghost(fuel));
        match cur {
            Ok(cur) => {
                let diff = target - cur;
                self.apply_diff_exec(id, diff, q, Ghost(fuel))
            },
            Err(e) => Err(e),
        }
    }

    /// Adds `diff` to quantity `q` of `id`, as `apply_diff` describes.
    fn apply_diff_exec(&mut self, id: CountableId, diff: i64, q: Quantity, Ghost(fuel): Ghost<nat>) -> (r: Result<(), AppError>)
        requires
            !apply_diff(old(self)@, id, diff as int, q, fuel).result.is_stuck(),
        ensures
            final(self)@ == apply_diff(old(self)@, id, diff as int, q, fuel).nodes,
            final(self).is_changed == (old(self).is_changed || apply_diff(old(self)@, id, diff as int, q, fuel).changed),
            r == apply_diff(old(self)@, id, diff as int, q, fuel).result.as_result(),
            final(self).owner == old(self).owner,
            final(self).selection == old(self).selection,
        decreases fuel, 2nat,
    {
        let ghost m0 = self@;
        let is_phase: Option<i64> = match self.store.get(&id.0) {
            None => {
                return Err(AppError::CountableNotFound);
            },
            Some(Countable::Chain(_)) => {
                proof {
                    assert(false);
                }
                return Err(AppError::Internal);
            },
            Some(Countable::Phase(p)) => Some(Self::read_value(p, q)),
            Some(Countable::Counter(_)) => None,
        };
        match is_phase {
            Some(v) => {
                let sum = v + diff;
                let nv = if sum < 0 {
                    0
                } else {
                    sum
                };
                self.write_phase_value(id, nv, q);
                self.is_changed = true;
                Ok(())
            },
            None => {
                let d = match self.rec_desc_exec(id, Ghost(fuel)) {
                    Ok(d) => d,
                    Err(e) => {
                        return Err(e);
                    },
                };
                let ghost dseq = d@;
                let ghost total = distribute(m0, dseq, dseq.len(), diff as int, q, fuel);
                assert(apply_diff(m0, id, diff as int, q, fuel) == (if total.result is Done {
                    Update { nodes: total.nodes, changed: true, result: Outcome::Done(()) }
                } else {
                    total
                }));
                let ghost old_changed = self.is_changed;
                let ghost mut acc: bool = false;
                let mut i: usize = d.len();
                let mut run: i64 = diff;
                while i > 0
                    invariant
                        dseq == d@,
                        i <= dseq.len(),
                        total == distribute(m0, dseq, dseq.len(), diff as int, q, fuel),
                        m0 == old(self)@,
                        apply_diff(m0, id, diff as int, q, fuel) == (if total.result is Done {
                            Update { nodes: total.nodes, changed: true, result: Outcome::Done(()) }
                        } else {
                            total
                        }),
                        total.nodes == distribute(self@, dseq, i as nat, run as int, q, fuel).nodes,
                        total.result == distribute(self@, dseq, i as nat, run as int, q, fuel).result,
                        total.changed == (acc || distribute(self@, dseq, i as nat, run as int, q, fuel).changed),
                        self.is_changed == (old_changed || acc),
                        old_changed == old(self).is_changed,
                        !total.result.is_stuck(),
                        self.owner == old(self).owner,
                        self.selection == old(self).selection,
                    decreases i,
                {
                    let child = d[i - 1];
                    let v = match self.rec_sum_exec(child, q, Ghost(fuel)) {
                        Ok(v) => v,
                        Err(e) => {
                            return Err(e);
                        },
                    };
                    let nd = run + v;
                    if nd < 0 {
                        match self.rec_set_exec(child, 0, q, Ghost((fuel - 1) as nat)) {
                            Ok(()) => {},
                            Err(e) => {
                                return Err(e);
                            },
                        }
                        proof {
                            acc = true;
                        }
                        run = nd;
                        i = i - 1;
                    } else {
                        let r = self.rec_set_exec(child, nd, q, Ghost((fuel - 1) as nat));
                        match r {
                            Ok(()) => {
                                self.is_changed = true;
                                return Ok(());
                            },
                            Err(e) => {
                                return Err(e);
                            },
                        }
                    }
                }
                self.is_changed = true;
                Ok(())
            },
        }
    }

    /// The direct children of `id`.
    fn level_children_exec(&self, id: CountableId) -> (r: Result<Vec<CountableId>, AppError>)
        ensures
            ids_match(r, level_children(self@, id)),
    {
        match self.store.get(&id.0) {
            None => Err(AppError::CountableNotFound),
            Some(Countable::Counter(c)) => Ok(c.children.clone()),
            Some(_) => Ok(Vec::new()),
        }
    }

    /// The parent of `id`.
    fn level_parent_exec(&self, id: CountableId) -> (r: Option<CountableId>)
        requires
            !level_parent(self@, id).is_stuck(),
        ensures
            level_parent(self@, id) == Outcome::<Option<CountableId>>::Done(r),
    {
        match self.store.get(&id.0) {
            None => None,
            Some(Countable::Counter(c)) => c.parent,
            Some(Countable::Phase(p)) => Some(p.parent),
            Some(Countable::Chain(_)) => {
                proof {
                    assert(false);
                }
                None
            },
        }
    }

    /// Appends `id` and its parents up to the root to `list`.
    fn parents_from_exec(&self, id: CountableId, list: &mut Vec<CountableId>, Ghost(fuel): Ghost<nat>)
        requires
            !parents_from(self@, id, fuel).is_stuck(),
        ensures
            parents_from(self@, id, fuel) matches Outcome::Done(ps) && final(list)@ == old(list)@ + ps,
        decreases fuel,
    {
        list.push(id);
        match self.level_parent_exec(id) {
            Some(p) => {
                let ghost before = list@;
                self.parents_from_exec(p, list, Ghost((fuel - 1) as nat));
                proof {
                    assert(list@ =~= old(list)@ + parents_from(self@, id, fuel)->Done_0);
                }
            },
            None => {},
        }
    }

    /// The leaf below `id` along last children.
    fn rec_last_child_exec(&self, id: CountableId, Ghost(fuel): Ghost<nat>) -> (r: Result<CountableId, AppError>)
        requires
            !rec_last_child(self@, id, fuel).is_stuck(),
        ensures
            r == rec_last_child(self@, id, fuel).as_result(),
        decreases fuel,
    {
        let next: Option<CountableId> = match self.store.get(&id.0) {
            None => {
                return Err(AppError::CountableNotFound);
            },
            Some(Countable::Counter(c)) => {
                let n = c.children.len();
                if n == 0 {
                    None
                } else {
                    Some(c.children[n - 1])
                }
            },
            Some(Countable::Phase(_)) => None,
            Some(Countable::Chain(_)) => {
                proof {
                    assert(false);
                }
                return Err(AppError::Internal);
            },
        };
        match next {
            Some(last) => self.rec_last_child_exec(last, Ghost((fuel - 1) as nat)),
            None => Ok(id),
        }
    }

    /// The root above `id`.
    fn rec_root_exec(&self, id: CountableId, Ghost(fuel): Ghost<nat>) -> (r: Result<CountableId, AppError>)
        requires
            !rec_root(self@, id, fuel).is_stuck(),
        ensures
            r == rec_root(self@, id, fuel).as_result(),
        decreases fuel,
    {
        let up: Option<CountableId> = match self.store.get(&id.0) {
            None => {
                return Err(AppError::CountableNotFound);
            },
            Some(Countable::Counter(c)) => c.parent,
            Some(Countable::Phase(p)) => Some(p.parent),
            Some(Countable::Chain(_)) => {
                proof {
                    assert(false);
                }
                return Err(AppError::Internal);
            },
        };
        match up {
            Some(p) => self.rec_root_exec(p, Ghost((fuel - 1) as nat)),
            None => Ok(id),
        }
    }

    /// The rolls of `id`, as `rec_rolls` describes.
    fn rec_rolls_exec(&self, id: CountableId, Ghost(fuel): Ghost<nat>) -> (r: Result<i64, AppError>)
        requires
            !rec_rolls(self@, id, fuel).is_stuck(),
        ensures
            match rec_rolls(self@, id, fuel) {
                Outcome::Done(v) => r == Ok::<i64, AppError>(v as i64) && fits_i32(v),
                Outcome::Fail(e) => r == Err::<i64, AppError>(e),
                Outcome::Stuck => false,
            },
        decreases fuel, 1nat,
    {
        let ghost m = self@;
        match self.store.get(&id.0) {
            None => Err(AppError::CountableNotFound),
            Some(Countable::Phase(p)) => Ok(p.hunt_type.rolls(p.count, p.has_charm) as i64),
            Some(Countable::Chain(_)) => {
                proof {
                    assert(false);
                }
                Err(AppError::Internal)
            },
            Some(Countable::Counter(c)) => {
                let ghost ids = c.children@;
                assert(rec_rolls(m, id, fuel) == checked_total(collect_rolls(m, ids, ids.len(), fuel), false));
                let mut vals: Vec<i64> = Vec::new();
                proof {
                    assert(ints(vals@) =~= Seq::<int>::empty());
                }
                let mut i: usize = 0;
                while i < c.children.len()
                    invariant
                        m == self@,
                        ids == c.children@,
                        i <= ids.len(),
                        rec_rolls(m, id, fuel) == checked_total(collect_rolls(m, ids, ids.len(), fuel), false),
                        collect_rolls(m, ids, i as nat, fuel) == Outcome::<Seq<int>>::Done(ints(vals@)),
                        !checked_total(collect_rolls(m, ids, ids.len(), fuel), false).is_stuck(),
                    decreases ids.len() - i,
                {
                    proof {
                        if !(collect_rolls(m, ids, (i + 1) as nat, fuel) is Done) {
                            lemma_collect_prefix(m, ids, (i + 1) as nat, ids.len(), fuel, 0);
                        }
                    }
                    let child = c.children[i];
                    match self.rec_rolls_exec(child, Ghost((fuel - 1) as nat)) {
                        Ok(v) => {
                            let ghost prev = vals@;
                            vals.push(v);
                            proof {
                                assert(ints(vals@) =~= ints(prev).push(v as int));
                            }
                        },
                        Err(e) => {
                            proof {
                                lemma_collect_prefix(m, ids, (i + 1) as nat, ids.len(), fuel, 0);
                            }
                            return Err(e);
                        },
                    }
                    i = i + 1;
                }
                Ok(checked_sum_exec(&vals, false))
            },
        }
    }

    /// The completed count of `id`, as `rec_completed` describes.
    fn rec_completed_exec(&self, id: CountableId, Ghost(fuel): Ghost<nat>) -> (r: Result<i64, AppError>)
        requires
            !rec_completed(self@, id, fuel).is_stuck(),
        ensures
            match rec_completed(self@, id, fuel) {
                Outcome::Done(v) => r == Ok::<i64, AppError>(v as i64) && 0 <= v <= u32::MAX,
                Outcome::Fail(e) => r == Err::<i64, AppError>(e),
                Outcome::Stuck => false,
            },
        decreases fuel, 1nat,
    {
        let ghost m = self@;
        match self.store.get(&id.0) {
            None => Err(AppError::CountableNotFound),
            Some(Countable::Phase(p)) => Ok(if p.success { 1 } else { 0 }),
            Some(Countable::Chain(_)) => {
                proof {
                    assert(false);
                }
                Err(AppError::Internal)
            },
            Some(Countable::Counter(c)) => {
                let ghost ids = c.children@;
                assert(rec_completed(m, id, fuel) == checked_total(collect_completed(m, ids, ids.len(), fuel), true));
                let mut vals: Vec<i64> = Vec::new();
                proof {
                    assert(ints(vals@) =~= Seq::<int>::empty());
                }
                let mut i: usize = 0;
                while i < c.children.len()
                    invariant
                        m == self@,
                        ids == c.children@,
                        i <= ids.len(),
                        rec_completed(m, id, fuel) == checked_total(collect_completed(m, ids, ids.len(), fuel), true),
                        collect_completed(m, ids, i as nat, fuel) == Outcome::<Seq<int>>::Done(ints(vals@)),
                        !checked_total(collect_completed(m, ids, ids.len(), fuel), true).is_stuck(),
                    decreases ids.len() - i,
                {
                    proof {
                        if !(collect_completed(m, ids, (i + 1) as nat, fuel) is Done) {
                            lemma_collect_prefix(m, ids, (i + 1) as nat, ids.len(), fuel, 1);
                        }
                    }
                    let child = c.children[i];
                    match self.rec_completed_exec(child, Ghost((fuel - 1) as nat)) {
                        Ok(v) => {
                            let ghost prev = vals@;
                            vals.push(v);
                            proof {
                                assert(ints(vals@) =~= ints(prev).push(v as int));
                            }
                        },
                        Err(e) => {
                            proof {
                                lemma_collect_prefix(m, ids, (i + 1) as nat, ids.len(), fuel, 1);
                            }
                            return Err(e);
                        },
                    }
                    i = i + 1;
                }
                Ok(checked_sum_exec(&vals, true))
            },
        }
    }

    /// Whether every phase below `id` has the charm, as `rec_charm` describes.
    fn rec_charm_exec(&self, id: CountableId, Ghost(fuel): Ghost<nat>) -> (r: Result<bool, AppError>)
        requires
            !rec_charm(self@, id, fuel).is_stuck(),
        ensures
            r == rec_charm(self@, id, fuel).as_result(),
        decreases fuel, 1nat,
    {
        let ghost m = self@;
        match self.store.get(&id.0) {
            None => Err(AppError::CountableNotFound),
            Some(Countable::Phase(p)) => Ok(p.has_charm),
            Some(Countable::Chain(_)) => {
                proof {
                    assert(false);
                }
                Err(AppError::Internal)
            },
            Some(Countable::Counter(c)) => {
                let ghost ids = c.children@;
                assert(rec_charm(m, id, fuel) == all_charm(m, ids, ids.len(), fuel));
                let mut has = true;
                let mut i: usize = 0;
                while i < c.children.len()
                    invariant
                        m == self@,
                        ids == c.children@,
                        i <= ids.len(),
                        rec_charm(m, id, fuel) == all_charm(m, ids, ids.len(), fuel),
                        all_charm(m, ids, i as nat, fuel) == Outcome::<bool>::Done(has),
                        !all_charm(m, ids, ids.len(), fuel).is_stuck(),
                    decreases ids.len() - i,
                {
                    proof {
                        if !(all_charm(m, ids, (i + 1) as nat, fuel) is Done) {
                            lemma_collect_prefix(m, ids, (i + 1) as nat, ids.len(), fuel, 2);
                        }
                    }
                    let child = c.children[i];
                    match self.rec_charm_exec(child, Ghost((fuel - 1) as nat)) {
                        Ok(v) => {
                            has = has && v;
                        },
                        Err(e) => {
                            proof {
                                lemma_collect_prefix(m, ids, (i + 1) as nat, ids.len(), fuel, 2);
                            }
                            return Err(e);
                        },
                    }
                    i = i + 1;
                }
                Ok(has)
            },
        }
    }

    /// Whether `id` is marked a success, as `rec_success` describes.
    fn rec_success_exec(&self, id: CountableId, Ghost(fuel): Ghost<nat>) -> (r: Result<bool, AppError>)
        requires
            !rec_success(self@, id, fuel).is_stuck(),
        ensures
            r == rec_success(self@, id, fuel).as_result(),
        decreases fuel,
    {
        let last: Option<CountableId> = match self.store.get(&id.0) {
            None => {
                return Err(AppError::CountableNotFound);
            },
            Some(Countable::Phase(p)) => {
                return Ok(p.success);
            },
            Some(Countable::Chain(_)) => {
                proof {
                    assert(false);
                }
                return Err(AppError::Internal);
            },
            Some(Countable::Counter(c)) => {
                let n = c.children.len();
                if n == 0 {
                    None
                } else {
                    Some(c.children[n - 1])
                }
            },
        };
        match last {
            None => Ok(false),
            Some(l) => match self.rec_success_exec(l, Ghost((fuel - 1) as nat)) {
                Ok(b) => Ok(b),
                Err(_) => Ok(false),
            },
        }
    }

    /// The hunt type of `id`, as `rec_hunttype` describes.
    fn rec_hunttype_exec(&self, id: CountableId, Ghost(fuel): Ghost<nat>) -> (r: Result<Hunttype, AppError>)
        requires
            !rec_hunttype(self@, id, fuel).is_stuck(),
        ensures
            r == rec_hunttype(self@, id, fuel).as_result(),
        decreases fuel, 1nat,
    {
        let ghost m = self@;
        let is_counter: bool = match self.store.get(&id.0) {
            None => {
                return Err(AppError::CountableNotFound);
            },
            Some(Countable::Phase(p)) => {
                return Ok(p.hunt_type);
            },
            Some(Countable::Chain(_)) => {
                proof {
                    assert(false);
                }
                return Err(AppError::Internal);
            },
            Some(Countable::Counter(_)) => true,
        };
        let d = match self.rec_desc_exec(id, Ghost(fuel)) {
            Ok(d) => d,
            Err(e) => {
                return Err(e);
            },
        };
        let ghost ds = d@;
        let mut acc: Option<Hunttype> = None;
        let mut i: usize = 0;
        while i < d.len()
            invariant
                m == self@,
                ds == d@,
                i <= ds.len(),
                rec_desc(m, id, fuel) == Outcome::<Seq<CountableId>>::Done(ds),
                lookup(m, id) is Some && lookup(m, id)->Some_0 is Counter,
                combine_hunttypes(m, ds, i as nat, fuel) == Outcome::<Option<Hunttype>>::Done(acc),
                !rec_hunttype(m, id, fuel).is_stuck(),
            decreases ds.len() - i,
        {
            proof {
                if !(combine_hunttypes(m, ds, (i + 1) as nat, fuel) is Done) {
                    lemma_collect_prefix(m, ds, (i + 1) as nat, ds.len(), fuel, 3);
                }
            }
            let child = d[i];
            match self.rec_hunttype_exec(child, Ghost((fuel - 1) as nat)) {
                Ok(h) => {
                    acc = match acc {
                        Some(a) => Some(a.combine(h)),
                        None => Some(h),
                    };
                },
                Err(e) => {
                    proof {
                        lemma_collect_prefix(m, ds, (i + 1) as nat, ds.len(), fuel, 3);
                    }
                    return Err(e);
                },
            }
            i = i + 1;
        }
        match acc {
            Some(h) => Ok(h),
            None => Err(AppError::RequiresChild),
        }
    }

    /// Archives `id` and its descendants, as `rec_archive` describes.
    fn rec_archive_exec(&mut self, id: CountableId, Ghost(fuel): Ghost<nat>) -> (r: Result<(), AppError>)
        requires
            !rec_archive(old(self)@, id, fuel).result.is_stuck(),
        ensures
            final(self)@ == rec_archive(old(self)@, id, fuel).nodes,
            final(self).is_changed == (old(self).is_changed || rec_archive(old(self)@, id, fuel).changed),
            r == rec_archive(old(self)@, id, fuel).result.as_result(),
            final(self).owner == old(self).owner,
            final(self).selection == old(self).selection,
        decreases fuel, 1nat,
    {
        let ghost m0 = self@;
        let d = match self.rec_desc_exec(id, Ghost(fuel)) {
            Ok(d) => d,
            Err(e) => {
                return Err(e);
            },
        };
        let ghost ds = d@;
        let ghost old_changed = self.is_changed;
        let ghost mut acc = false;
        let mut i: usize = 0;
        while i < d.len()
            invariant
                ds == d@,
                i <= ds.len(),
                m0 == old(self)@,
                rec_desc(m0, id, fuel) == Outcome::<Seq<CountableId>>::Done(ds),
                archive_all(m0, ds, i as nat, fuel).result is Done,
                archive_all(m0, ds, i as nat, fuel).nodes == self@,
                archive_all(m0, ds, i as nat, fuel).changed == acc,
                self.is_changed == (old_changed || acc),
                old_changed == old(self).is_changed,
                !rec_archive(m0, id, fuel).result.is_stuck(),
                self.owner == old(self).owner,
                self.selection == old(self).selection,
            decreases ds.len() - i,
        {
            proof {
                lemma_archive_all_prefix(m0, ds, (i + 1) as nat, ds.len(), fuel);
            }
            let child = d[i];
            let r = self.rec_archive_exec(child, Ghost((fuel - 1) as nat));
            proof {
                acc = acc || archive_all(m0, ds, (i + 1) as nat, fuel).changed;
            }
            match r {
                Ok(()) => {},
                Err(e) => {
                    proof {
                        lemma_archive_all_prefix(m0, ds, (i + 1) as nat, ds.len(), fuel);
                    }
                    return Err(e);
                },
            }
            i = i + 1;
        }
        let n: Countable = match self.store.get(&id.0) {
            None => {
                return Err(AppError::CountableNotFound);
            },
            Some(Countable::Chain(_)) => {
                proof {
                    assert(false);
                }
                return Err(AppError::Internal);
            },
            Some(c) => c.clone(),
        };
        let marked = match n {
            Countable::Counter(mut c) => {
                c.is_deleted = true;
                Countable::Counter(c)
            },
            Countable::Phase(mut p) => {
                p.is_deleted = true;
                Countable::Phase(p)
            },
            other => other,
        };
        let ghost before = self@;
        self.store.insert(id.0, marked);
        proof {
            assert(self@ =~= before.insert(id.0, before[id.0].archived()));
        }
        self.is_changed = true;
        Ok(())
    }

    /// Quantity `q` of `id` alone.
    fn level_value_exec(&self, id: CountableId, q: Quantity) -> (r: Result<i64, AppError>)
        requires
            !level_value(self@, id, q).is_stuck(),
        ensures
            match level_value(self@, id, q) {
                Outcome::Done(v) => r == Ok::<i64, AppError>(v as i64) && (q is Count ==> fits_i32(v)),
                Outcome::Fail(e) => r == Err::<i64, AppError>(e),
                Outcome::Stuck => false,
            },
    {
        match self.store.get(&id.0) {
            None => Err(AppError::CountableNotFound),
            Some(Countable::Counter(_)) => Ok(0),
            Some(Countable::Phase(p)) => Ok(Self::read_value(p, q)),
            Some(Countable::Chain(_)) => {
                proof {
                    assert(false);
                }
                Err(AppError::Internal)
            },
        }
    }

    /// Sets or adds to quantity `q` of `id` alone, as `level_write` describes.
    fn level_write_exec(&mut self, id: CountableId, value: i64, add: bool, q: Quantity) -> (r: Result<(), AppError>)
        requires
            !level_write(old(self)@, id, value as int, add, q).result.is_stuck(),
        ensures
            final(self)@ == level_write(old(self)@, id, value as int, add, q).nodes,
            final(self).is_changed == (old(self).is_changed || level_write(old(self)@, id, value as int, add, q).changed),
            r == level_write(old(self)@, id, value as int, add, q).result.as_result(),
            final(self).owner == old(self).owner,
            final(self).selection == old(self).selection,
    {
        let cur: Option<i64> = match self.store.get(&id.0) {
            None => {
                return Err(AppError::CountableNotFound);
            },
            Some(Countable::Counter(_)) => None,
            Some(Countable::Phase(p)) => Some(Self::read_value(p, q)),
            Some(Countable::Chain(_)) => {
                proof {
                    assert(false);
                }
                return Err(AppError::Internal);
            },
        };
        match cur {
            Some(v) => {
                let nv = if add { v + value } else { value };
                self.write_phase_value(id, nv, q);
            },
            None => {},
        }
        self.is_changed = true;
        Ok(())
    }
}

/// Reading and writing one element alone, reporting failures as errors.
impl CountableStore<Level, Checked> {
    /// The count of `countable` itself: a phase's count, zero for a counter.
    pub fn count(&self, countable: &CountableId) -> (r: Result<i32, AppError>)
        requires
            !level_value(self@, *countable, Quantity::Count).is_stuck(),
        ensures
            r == level_value(self@, *countable, Quantity::Count).as_i32_result(),
    {
        match self.level_value_exec(*countable, Quantity::Count) {
            Ok(v) => Ok(v as i32),
            Err(e) => Err(e),
        }
    }

    /// Sets the count of `countable` where it is a phase; a counter keeps
    /// its descendants' counts.
    pub fn set_count(&mut self, countable: &CountableId, count: i32) -> (r: Result<(), AppError>)
        requires
            !level_write(old(self)@, *countable, count as int, false, Quantity::Count).result.is_stuck(),
        ensures
            final(self)@ == level_write(old(self)@, *countable, count as int, false, Quantity::Count).nodes,
            final(self).is_changed == (old(self).is_changed || r is Ok),
            r == level_write(old(self)@, *countable, count as int, false, Quantity::Count).result.as_result(),
            final(self).owner == old(self).owner,
            final(self).selection == old(self).selection,
    {
        self.level_write_exec(*countable, count as i64, false, Quantity::Count)
    }

    /// Adds `count` to the count of `countable` where it is a phase.
    pub fn add_count(&mut self, countable: &CountableId, count: i32) -> (r: Result<(), AppError>)
        requires
            !level_write(old(self)@, *countable, count as int, true, Quantity::Count).result.is_stuck(),
        ensures
            final(self)@ == level_write(old(self)@, *countable, count as int, true, Quantity::Count).nodes,
            final(self).is_changed == (old(self).is_changed || r is Ok),
            r == level_write(old(self)@, *countable, count as int, true, Quantity::Count).result.as_result(),
            final(self).owner == old(self).owner,
            final(self).selection == old(self).selection,
    {
        self.level_write_exec(*countable, count as i64, true, Quantity::Count)
    }

    /// The time of `countable` itself in milliseconds: a phase's time, zero
    /// for a counter.
    pub fn time(&self, countable: &CountableId) -> (r: Result<i64, AppError>)
        requires
            !level_value(self@, *countable, Quantity::Time).is_stuck(),
        ensures
            r == level_value(self@, *countable, Quantity::Time).as_i64_result(),
    {
        self.level_value_exec(*countable, Quantity::Time)
    }

    /// Sets the time (milliseconds) of `countable` where it is a phase.
    pub fn set_time(&mut self, countable: &CountableId, time: i64) -> (r: Result<(), AppError>)
        requires
            !level_write(old(self)@, *countable, time as int, false, Quantity::Time).result.is_stuck(),
        ensures
            final(self)@ == level_write(old(self)@, *countable, time as int, false, Quantity::Time).nodes,
            final(self).is_changed == (old(self).is_changed || r is Ok),
            r == level_write(old(self)@, *countable, time as int, false, Quantity::Time).result.as_result(),
            final(self).owner == old(self).owner,
            final(self).selection == old(self).selection,
    {
        self.level_write_exec(*countable, time, false, Quantity::Time)
    }

    /// Adds `time` (milliseconds) to the time of `countable` where it is a
    /// phase.
    pub fn add_time(&mut self, countable: &CountableId, time: i64) -> (r: Result<(), AppError>)
        requires
            !level_write(old(self)@, *countable, time as int, true, Quantity::Time).result.is_stuck(),
        ensures
            final(self)@ == level_write(old(self)@, *countable, time as int, true, Quantity::Time).nodes,
            final(self).is_changed == (old(self).is_changed || r is Ok),
            r == level_write(old(self)@, *countable, time as int, true, Quantity::Time).result.as_result(),
            final(self).owner == old(self).owner,
            final(self).selection == old(self).selection,
    {
        self.level_write_exec(*countable, time, true, Quantity::Time)
    }

    /// The direct children of `countable`, in order.
    pub fn children(&self, countable: &CountableId) -> (r: Result<Vec<CountableId>, AppError>)
        ensures
            ids_match(r, level_children(self@, *countable)),
    {
        self.level_children_exec(*countable)
    }

    /// Whether `child` is a direct child of `countable`.
    pub fn has_child(&self, countable: &CountableId, child: &CountableId) -> (r: Result<bool, AppError>)
        ensures
            r == level_children(self@, *countable).contains_result(*child),
    {
        match self.level_children_exec(*countable) {
            Ok(v) => Ok(contains_id(&v, child)),
            Err(e) => Err(e),
        }
    }

    /// The last direct child of `countable`, if it has any.
    pub fn last_child(&self, countable: &CountableId) -> (r: Result<Option<CountableId>, AppError>)
        requires
            !level_last_child(self@, *countable).is_stuck(),
        ensures
            r == level_last_child(self@, *countable).as_result(),
    {
        match self.store.get(&countable.0) {
            None => Err(AppError::CountableNotFound),
            Some(Countable::Counter(c)) => {
                let n = c.children.len();
                if n == 0 {
                    Ok(None)
                } else {
                    Ok(Some(c.children[n - 1]))
                }
            },
            Some(Countable::Phase(_)) => Ok(None),
            Some(Countable::Chain(_)) => {
                proof {
                    assert(false);
                }
                Err(AppError::Internal)
            },
        }
    }

    /// The parent of `countable`; `None` for a root and for an id that the
    /// store does not hold.
    pub fn parent(&self, countable: &CountableId) -> (r: Result<Option<CountableId>, AppError>)
        requires
            !level_parent(self@, *countable).is_stuck(),
        ensures
            r == level_parent(self@, *countable).as_result(),
    {
        Ok(self.level_parent_exec(*countable))
    }

    /// The rolls of `countable` alone: a phase's rolls, zero for a counter.
    pub fn rolls(&self, countable: &CountableId) -> (r: Result<i32, AppError>)
        requires
            !level_rolls(self@, *countable).is_stuck(),
        ensures
            r == level_rolls(self@, *countable).as_i32_result(),
    {
        match self.store.get(&countable.0) {
            None => Err(AppError::CountableNotFound),
            Some(Countable::Counter(_)) => Ok(0),
            Some(Countable::Phase(p)) => Ok(p.hunt_type.rolls(p.count, p.has_charm)),
            Some(Countable::Chain(_)) => {
                proof {
                    assert(false);
                }
                Err(AppError::Internal)
            },
        }
    }

    /// The odds of `countable` alone, as the N of one in N: a phase's odds,
    /// zero for a counter.
    pub fn odds(&self, countable: &CountableId) -> (r: Result<u32, AppError>)
        requires
            !level_odds(self@, *countable).is_stuck(),
        ensures
            r == level_odds(self@, *countable).as_result(),
    {
        match self.store.get(&countable.0) {
            None => Err(AppError::CountableNotFound),
            Some(Countable::Counter(_)) => Ok(0),
            Some(Countable::Phase(p)) => Ok(p.hunt_type.odds()),
            Some(Countable::Chain(_)) => {
                proof {
                    assert(false);
                }
                Err(AppError::Internal)
            },
        }
    }

    /// Whether `countable` alone is marked completed; counters are not.
    pub fn completed(&self, countable: &CountableId) -> (r: Result<bool, AppError>)
        requires
            !level_completed(self@, *countable).is_stuck(),
        ensures
            r == level_completed(self@, *countable).as_result(),
    {
        match self.store.get(&countable.0) {
            None => Err(AppError::CountableNotFound),
            Some(Countable::Counter(_)) => Ok(false),
            Some(Countable::Phase(p)) => Ok(p.success),
            Some(Countable::Chain(_)) => {
                proof {
                    assert(false);
                }
                Err(AppError::Internal)
            },
        }
    }
}

/// Reading and writing an element with its descendants, reporting failures
/// as errors. The walks down the tree must end: `fuel()` bounds how deep
/// they may go, and an element met again on the way (a cycle) or a chain
/// makes the outcome `Stuck`, which the `requires` clauses rule out.
impl CountableStore<Recursive, Checked> {
    /// The count of `countable` summed over its descendants' phases.
    pub fn count(&self, countable: &CountableId) -> (r: Result<i32, AppError>)
        requires
            !rec_sum(self@, *countable, Quantity::Count, self.fuel()).is_stuck(),
        ensures
            r == rec_sum(self@, *countable, Quantity::Count, self.fuel()).as_i32_result(),
    {
        match self.rec_sum_exec(*countable, Quantity::Count, Ghost(self.fuel())) {
            Ok(v) => Ok(v as i32),
            Err(e) => Err(e),
        }
    }

    /// Sets the summed count of `countable` to `count`, taking the
    /// difference out of or into its descendants from the last one back.
    pub fn set_count(&mut self, countable: &CountableId, count: i32) -> (r: Result<(), AppError>)
        requires
            !rec_set(old(self)@, *countable, count as int, Quantity::Count, old(self).fuel()).result.is_stuck(),
        ensures
            final(self)@ == rec_set(old(self)@, *countable, count as int, Quantity::Count, old(self).fuel()).nodes,
            final(self).is_changed == (old(self).is_changed || rec_set(old(self)@, *countable, count as int, Quantity::Count, old(self).fuel()).changed),
            r == rec_set(old(self)@, *countable, count as int, Quantity::Count, old(self).fuel()).result.as_result(),
            final(self).owner == old(self).owner,
            final(self).selection == old(self).selection,
    {
        self.rec_set_exec(*countable, count as i64, Quantity::Count, Ghost(self.fuel()))
    }

    /// Adds `count` to the summed count of `countable`, as `apply_diff`
    /// describes.
    pub fn add_count(&mut self, countable: &CountableId, count: i32) -> (r: Result<(), AppError>)
        requires
            !apply_diff(old(self)@, *countable, count as int, Quantity::Count, old(self).fuel()).result.is_stuck(),
        ensures
            final(self)@ == apply_diff(old(self)@, *countable, count as int, Quantity::Count, old(self).fuel()).nodes,
            final(self).is_changed == (old(self).is_changed || apply_diff(old(self)@, *countable, count as int, Quantity::Count, old(self).fuel()).changed),
            r == apply_diff(old(self)@, *countable, count as int, Quantity::Count, old(self).fuel()).result.as_result(),
            final(self).owner == old(self).owner,
            final(self).selection == old(self).selection,
    {
        self.apply_diff_exec(*countable, count as i64, Quantity::Count, Ghost(self.fuel()))
    }

    /// The time (milliseconds) of `countable` summed over its descendants'
    /// phases.
    pub fn time(&self, countable: &CountableId) -> (r: Result<i64, AppError>)
        requires
            !rec_sum(self@, *countable, Quantity::Time, self.fuel()).is_stuck(),
        ensures
            r == rec_sum(self@, *countable, Quantity::Time, self.fuel()).as_i64_result(),
    {
        self.rec_sum_exec(*countable, Quantity::Time, Ghost(self.fuel()))
    }

    /// Sets the summed time (milliseconds) of `countable` to `time`.
    pub fn set_time(&mut self, countable: &CountableId, time: i64) -> (r: Result<(), AppError>)
        requires
            !rec_set(old(self)@, *countable, time as int, Quantity::Time, old(self).fuel()).result.is_stuck(),
        ensures
            final(self)@ == rec_set(old(self)@, *countable, time as int, Quantity::Time, old(self).fuel()).nodes,
            final(self).is_changed == (old(self).is_changed || rec_set(old(self)@, *countable, time as int, Quantity::Time, old(self).fuel()).changed),
            r == rec_set(old(self)@, *countable, time as int, Quantity::Time, old(self).fuel()).result.as_result(),
            final(self).owner == old(self).owner,
            final(self).selection == old(self).selection,
    {
        self.rec_set_exec(*countable, time, Quantity::Time, Ghost(self.fuel()))
    }

    /// Adds `time` (milliseconds) to the summed time of `countable`.
    pub fn add_time(&mut self, countable: &CountableId, time: i64) -> (r: Result<(), AppError>)
        requires
            !apply_diff(old(self)@, *countable, time as int, Quantity::Time, old(self).fuel()).result.is_stuck(),
        ensures
            final(self)@ == apply_diff(old(self)@, *countable, time as int, Quantity::Time, old(self).fuel()).nodes,
            final(self).is_changed == (old(self).is_changed || apply_diff(old(self)@, *countable, time as int, Quantity::Time, old(self).fuel()).changed),
            r == apply_diff(old(self)@, *countable, time as int, Quantity::Time, old(self).fuel()).result.as_result(),
            final(self).owner == old(self).owner,
            final(self).selection == old(self).selection,
    {
        self.apply_diff_exec(*countable, time, Quantity::Time, Ghost(self.fuel()))
    }

    /// All descendants of `countable`: its children, then the descendants
    /// of each child in turn.
    pub fn children(&self, countable: &CountableId) -> (r: Result<Vec<CountableId>, AppError>)
        requires
            !rec_desc(self@, *countable, self.fuel()).is_stuck(),
        ensures
            ids_match(r, rec_desc(self@, *countable, self.fuel())),
    {
        self.rec_desc_exec(*countable, Ghost(self.fuel()))
    }

    /// Whether `child` is a descendant of `countable`.
    pub fn has_child(&self, countable: &CountableId, child: &CountableId) -> (r: Result<bool, AppError>)
        requires
            !rec_desc(self@, *countable, self.fuel()).is_stuck(),
        ensures
            r == rec_desc(self@, *countable, self.fuel()).contains_result(*child),
    {
        match self.rec_desc_exec(*countable, Ghost(self.fuel())) {
            Ok(v) => Ok(contains_id(&v, child)),
            Err(e) => Err(e),
        }
    }

    /// The leaf reached from `countable` by taking the last child again and
    /// again; `countable` itself when it has no children.
    pub fn last_child(&self, countable: &CountableId) -> (r: Result<CountableId, AppError>)
        requires
            !rec_last_child(self@, *countable, self.fuel()).is_stuck(),
        ensures
            r == rec_last_child(self@, *countable, self.fuel()).as_result(),
    {
        self.rec_last_child_exec(*countable, Ghost(self.fuel()))
    }

    /// The root above `countable`; `countable` itself when it is a root.
    pub fn root_parent(&self, countable: &CountableId) -> (r: Result<CountableId, AppError>)
        requires
            !rec_root(self@, *countable, self.fuel()).is_stuck(),
        ensures
            r == rec_root(self@, *countable, self.fuel()).as_result(),
    {
        self.rec_root_exec(*countable, Ghost(self.fuel()))
    }

    /// The parents of `countable` up to the root, the nearest first,
    /// without `countable` itself; an id the store does not hold is an
    /// error.
    pub fn all_parents(&self, countable: &CountableId) -> (r: Result<Vec<CountableId>, AppError>)
        requires
            !all_parents_of(self@, *countable, self.fuel()).is_stuck(),
        ensures
            ids_match(r, all_parents_of(self@, *countable, self.fuel())),
    {
        if !self.contains(countable) {
            return Err(AppError::CountableNotFound);
        }
        let mut list: Vec<CountableId> = Vec::new();
        match self.level_parent_exec(*countable) {
            Some(p) => {
                self.parents_from_exec(p, &mut list, Ghost(self.fuel()));
                proof {
                    assert(list@ =~= all_parents_of(self@, *countable, self.fuel())->Done_0);
                }
            },
            None => {},
        }
        Ok(list)
    }

    /// The hunt type of `countable`: a phase's own; for a counter that of
    /// all its descendants combined, `Mixed` where they differ.
    pub fn hunttype(&self, countable: &CountableId) -> (r: Result<Hunttype, AppError>)
        requires
            !rec_hunttype(self@, *countable, self.fuel()).is_stuck(),
        ensures
            r == rec_hunttype(self@, *countable, self.fuel()).as_result(),
    {
        self.rec_hunttype_exec(*countable, Ghost(self.fuel()))
    }

    /// The rolls of `countable`: a phase's own, the total over the children
    /// for a counter.
    pub fn rolls(&self, countable: &CountableId) -> (r: Result<i32, AppError>)
        requires
            !rec_rolls(self@, *countable, self.fuel()).is_stuck(),
        ensures
            r == rec_rolls(self@, *countable, self.fuel()).as_i32_result(),
    {
        match self.rec_rolls_exec(*countable, Ghost(self.fuel())) {
            Ok(v) => Ok(v as i32),
            Err(e) => Err(e),
        }
    }

    /// The number of phases below `countable` (itself, for a phase) that
    /// are marked completed.
    pub fn completed(&self, countable: &CountableId) -> (r: Result<u32, AppError>)
        requires
            !rec_completed(self@, *countable, self.fuel()).is_stuck(),
        ensures
            match rec_completed(self@, *countable, self.fuel()) {
                Outcome::Done(v) => r == Ok::<u32, AppError>(v as u32),
                Outcome::Fail(e) => r == Err::<u32, AppError>(e),
                Outcome::Stuck => false,
            },
    {
        match self.rec_completed_exec(*countable, Ghost(self.fuel())) {
            Ok(v) => Ok(v as u32),
            Err(e) => Err(e),
        }
    }
}

/// Operations on the whole store that report failures as errors.
impl<M: StoreMethod> CountableStore<M, Checked> {
    /// The kind of `countable`.
    pub fn kind(&self, countable: &CountableId) -> (r: Result<CountableKind, AppError>)
        ensures
            r == kind_of(self@, *countable).as_result(),
    {
        match self.store.get(&countable.0) {
            None => Err(AppError::CountableNotFound),
            Some(Countable::Counter(_)) => Ok(CountableKind::Counter),
            Some(Countable::Phase(_)) => Ok(CountableKind::Phase),
            Some(Countable::Chain(_)) => Ok(CountableKind::Chain),
        }
    }

    /// The name of `countable`.
    pub fn name(&self, countable: &CountableId) -> (r: Result<String, AppError>)
        requires
            !name_of(self@, *countable).is_stuck(),
        ensures
            match name_of(self@, *countable) {
                Outcome::Done(n) => r is Ok && r->Ok_0@ == n,
                Outcome::Fail(e) => r == Err::<String, AppError>(e),
                Outcome::Stuck => false,
            },
    {
        match self.store.get(&countable.0) {
            None => Err(AppError::CountableNotFound),
            Some(Countable::Counter(c)) => Ok(c.name.clone()),
            Some(Countable::Phase(p)) => Ok(p.name.clone()),
            Some(Countable::Chain(_)) => {
                proof {
                    assert(false);
                }
                Err(AppError::Internal)
            },
        }
    }

    /// Renames `countable`.
    pub fn set_name(&mut self, countable: &CountableId, name: &str) -> (r: Result<(), AppError>)
        requires
            !rename(old(self)@, *countable, name@).result.is_stuck(),
        ensures
            final(self)@ == rename(old(self)@, *countable, name@).nodes,
            final(self).is_changed == (old(self).is_changed || r is Ok),
            r == rename(old(self)@, *countable, name@).result.as_result(),
            final(self).owner == old(self).owner,
            final(self).selection == old(self).selection,
    {
        let n: Countable = match self.store.get(&countable.0) {
            None => {
                return Err(AppError::CountableNotFound);
            },
            Some(Countable::Chain(_)) => {
                proof {
                    assert(false);
                }
                return Err(AppError::Internal);
            },
            Some(c) => c.clone(),
        };
        let renamed = match n {
            Countable::Counter(mut c) => {
                c.name = name.to_owned();
                Countable::Counter(c)
            },
            Countable::Phase(mut p) => {
                p.name = name.to_owned();
                Countable::Phase(p)
            },
            other => other,
        };
        let ghost before = self@;
        self.store.insert(countable.0, renamed);
        proof {
            assert(self@ =~= rename(before, *countable, name@).nodes);
        }
        self.is_changed = true;
        Ok(())
    }

    /// Adds a new element of `kind` named `name` under the id `uuid`,
    /// created at `now` (microseconds since the Unix epoch), and appends it
    /// to the children of `parent` where one is given. The new element is
    /// stored even when the parent turns out to be missing or unable to
    /// hold children.
    pub fn new_countable_with(
        &mut self,
        name: &str,
        kind: CountableKind,
        parent: Option<CountableId>,
        uuid: u128,
        now: i64,
    ) -> (r: Result<CountableId, AppError>)
        requires
            kind is Phase ==> parent is Some,
            !(kind is Chain),
        ensures
            final(self)@ == add_new(old(self)@, spec_new_countable(name@, kind, old(self).owner, parent, uuid, now), uuid, parent),
            new_outcome(old(self)@, spec_new_countable(name@, kind, old(self).owner, parent, uuid, now), uuid, parent, r),
            final(self).is_changed == (old(self).is_changed || r is Ok),
            final(self).owner == old(self).owner,
            final(self).selection == old(self).selection,
    {
        let countable = Countable::new_with(name, kind, self.owner, parent, uuid, now);
        let key = CountableId(uuid);
        let ghost before = self@;
        self.store.insert(uuid, countable);
        proof {
            assert(self@ =~= before.insert(uuid, spec_new_countable(name@, kind, old(self).owner, parent, uuid, now)));
        }
        match parent {
            Some(p) => {
                let pn = match self.store.get(&p.0) {
                    None => {
                        return Err(AppError::CountableNotFound);
                    },
                    Some(c) => c.clone(),
                };
                let mut pn = pn;
                let added = pn.add_child_checked(key);
                match added {
                    Ok(()) => {
                        let ghost mid = self@;
                        self.store.insert(p.0, pn);
                        proof {
                            assert(self@ =~= mid.insert(p.0, mid[p.0].with_child(key)));
                        }
                    },
                    Err(e) => {
                        return Err(e);
                    },
                }
            },
            None => {},
        }
        self.is_changed = true;
        Ok(key)
    }

    /// Adds a new element of `kind` named `name` under a fresh random id,
    /// created now, as `new_countable_with` does.
    pub fn new_countable(&mut self, name: &str, kind: CountableKind, parent: Option<CountableId>) -> (r: Result<CountableId, AppError>)
        requires
            kind is Phase ==> parent is Some,
            !(kind is Chain),
        ensures
            exists|uuid: u128, now: i64|
                final(self)@ == add_new(old(self)@, spec_new_countable(name@, kind, old(self).owner, parent, uuid, now), uuid, parent)
                && new_outcome(old(self)@, spec_new_countable(name@, kind, old(self).owner, parent, uuid, now), uuid, parent, r),
            final(self).is_changed == (old(self).is_changed || r is Ok),
            final(self).owner == old(self).owner,
            final(self).selection == old(self).selection,
    {
        let uuid = crate::clock::new_uuid();
        let now = crate::clock::now_micros();
        self.new_countable_with(name, kind, parent, uuid, now)
    }

    /// Archives `countable` together with all its descendants, and hands
    /// back the archived element.
    pub fn archive(&mut self, countable: &CountableId) -> (r: Result<Countable, AppError>)
        requires
            !rec_archive(old(self)@, *countable, old(self).fuel()).result.is_stuck(),
        ensures
            final(self)@ == rec_archive(old(self)@, *countable, old(self).fuel()).nodes,
            final(self).is_changed == (old(self).is_changed || rec_archive(old(self)@, *countable, old(self).fuel()).changed),
            match rec_archive(old(self)@, *countable, old(self).fuel()).result {
                Outcome::Done(_) => r is Ok && final(self)@.contains_key(countable.0) && r->Ok_0@ == final(self)@[countable.0],
                Outcome::Fail(e) => r == Err::<Countable, AppError>(e),
                Outcome::Stuck => false,
            },
            final(self).owner == old(self).owner,
            final(self).selection == old(self).selection,
    {
        let fuel = Ghost(self.fuel());
        match self.rec_archive_exec(*countable, fuel) {
            Ok(()) => match self.get(countable) {
                Some(c) => Ok(c),
                None => Err(AppError::CountableNotFound),
            },
            Err(e) => Err(e),
        }
    }

    /// Merges `other` into this store, key by key as `merged` describes.
    pub fn merge(&mut self, other: Self) -> (r: Result<(), AppError>)
        requires
            merge_ok(old(self)@, other@),
        ensures
            final(self)@ == merged(old(self)@, other@),
            r is Ok,
            final(self).is_changed,
            final(self).owner == old(self).owner,
            final(self).selection == old(self).selection,
    {
        let ghost mine = self@;
        let ghost theirs = other@;
        let keys = keys_of(&other.store);
        let mut i: usize = 0;
        while i < keys.len()
            invariant
                mine == old(self)@,
                theirs == other@,
                merge_ok(mine, theirs),
                keys@.no_duplicates(),
                keys@.to_set() == other.store@.dom(),
                i <= keys@.len(),
                self@ == Map::new(
                    |k: u128| mine.contains_key(k) || keys@.take(i as int).contains(k),
                    |k: u128| if keys@.take(i as int).contains(k) { merged(mine, theirs)[k] } else { mine[k] },
                ),
                self.owner == old(self).owner,
                self.selection == old(self).selection,
            decreases keys@.len() - i,
        {
            let k = keys[i];
            proof {
                assert(keys@.to_set().contains(k));
                assert(!keys@.take(i as int).contains(k)) by {
                    if keys@.take(i as int).contains(k) {
                        let j = choose|j: int| 0 <= j < i && keys@.take(i as int)[j] == k;
                        assert(keys@[j] == keys@[i as int]);
                    }
                }
            }
            let incoming = other.store.get(&k).unwrap().clone();
            proof {
                assert(theirs.contains_key(k));
                assert(theirs[k] == incoming@);
                if mine.contains_key(k) {
                    assert(self@.contains_key(k) && self@[k] == mine[k]);
                } else {
                    assert(!self@.contains_key(k));
                }
            }
            let incoming_archived = match &incoming {
                Countable::Counter(c) => c.is_deleted,
                Countable::Phase(p) => p.is_deleted,
                Countable::Chain(_) => {
                    proof {
                        assert(false);
                    }
                    false
                },
            };
            let keep_mine = if incoming_archived {
                false
            } else {
                let incoming_edit = match &incoming {
                    Countable::Counter(c) => c.last_edit,
                    Countable::Phase(p) => p.last_edit,
                    Countable::Chain(_) => 0,
                };
                match self.store.get(&k) {
                    Some(Countable::Counter(c)) => c.last_edit > incoming_edit || c.is_deleted,
                    Some(Countable::Phase(p)) => p.last_edit > incoming_edit || p.is_deleted,
                    Some(Countable::Chain(_)) => {
                        proof {
                            assert(false);
                        }
                        false
                    },
                    None => false,
                }
            };
            let ghost before = self@;
            proof {
                assert(merged(mine, theirs)[k] == (if keep_mine { mine[k] } else { incoming@ }));
            }
            if !keep_mine {
                self.store.insert(k, incoming);
            }
            proof {
                let t0 = keys@.take(i as int);
                let t1 = keys@.take(i + 1);
                assert(t1 =~= t0.push(k));
                assert(t1[i as int] == k);
                assert(t1.contains(k));
                assert forall|x: u128| x != k implies (t1.contains(x) == t0.contains(x)) by {
                    if t1.contains(x) {
                        let j = choose|j: int| 0 <= j < t1.len() && t1[j] == x;
                        assert(j < i);
                        assert(t0[j] == x);
                    }
                    if t0.contains(x) {
                        let j = choose|j: int| 0 <= j < t0.len() && t0[j] == x;
                        assert(t1[j] == x);
                    }
                }
                let target = Map::new(
                    |x: u128| mine.contains_key(x) || t1.contains(x),
                    |x: u128| if t1.contains(x) { merged(mine, theirs)[x] } else { mine[x] },
                );
                assert forall|x: u128| #[trigger] self@.contains_key(x) == target.contains_key(x) by {
                    if x == k {
                    } else {
                        assert(self@.contains_key(x) == before.contains_key(x));
                    }
                }
                assert forall|x: u128| #[trigger] self@.contains_key(x) implies self@[x] == target[x] by {
                    if x == k {
                    } else {
                        assert(self@[x] == before[x]);
                    }
                }
                assert(self@ =~= target);
            }
            i = i + 1;
        }
        proof {
            assert(keys@.take(keys@.len() as int) =~= keys@);
            assert forall|k: u128| keys@.contains(k) <==> theirs.contains_key(k) by {
                assert(keys@.to_set().contains(k) <==> keys@.contains(k));
            }
            assert(self@ =~= merged(mine, theirs));
        }
        self.is_changed = true;
        Ok(())
    }
}

/// Turning a store into one that reports failures as errors.
impl<M: StoreMethod> CountableStore<M, UnChecked> {
    pub fn checked(self) -> (r: CountableStore<M, Checked>)
        ensures
            r.store@ == self.store@,
            r@ == self@,
            r.owner == self.owner,
            r.selection == self.selection,
            r.is_changed == self.is_changed,
    {
        CountableStore {
            owner: self.owner,
            store: self.store,
            selection: self.selection,
            is_changed: self.is_changed,
            phantom_data: PhantomData,
        }
    }
}

/// Turning a store into one that hides failures behind defaults.
impl<M: StoreMethod> CountableStore<M, Checked> {
    pub fn unchecked(self) -> (r: CountableStore<M, UnChecked>)
        ensures
            r.store@ == self.store@,
            r@ == self@,
            r.owner == self.owner,
            r.selection == self.selection,
            r.is_changed == self.is_changed,
    {
        CountableStore {
            owner: self.owner,
            store: self.store,
            selection: self.selection,
            is_changed: self.is_changed,
            phantom_data: PhantomData,
        }
    }
}

/// Turning a store into one that works on elements with their descendants.
impl<C: StoreCheck> CountableStore<Level, C> {
    pub fn recursive(self) -> (r: CountableStore<Recursive, C>)
        ensures
            r.store@ == self.store@,
            r@ == self@,
            r.owner == self.owner,
            r.selection == self.selection,
            r.is_changed == self.is_changed,
    {
        CountableStore {
            owner: self.owner,
            store: self.store,
            selection: self.selection,
            is_changed: self.is_changed,
            phantom_data: PhantomData,
        }
    }
}

/// Turning a store into one that works on single elements.
impl<C: StoreCheck> CountableStore<Recursive, C> {
    pub fn level(self) -> (r: CountableStore<Level, C>)
        ensures
            r.store@ == self.store@,
            r@ == self@,
            r.owner == self.owner,
            r.selection == self.selection,
            r.is_changed == self.is_changed,
    {
        CountableStore {
            owner: self.owner,
            store: self.store,
            selection: self.selection,
            is_changed: self.is_changed,
            phantom_data: PhantomData,
        }
    }
}

/// Operations on the whole store that answer with a default where an
/// element is missing. Other failures would be programming errors; the
/// `requires` clauses rule them out.
impl<M: StoreMethod> CountableStore<M, UnChecked> {
    /// The kind of `countable`, which must be in the store.
    pub fn kind(&self, countable: &CountableId) -> (r: CountableKind)
        requires
            kind_of(self@, *countable) is Done,
        ensures
            kind_of(self@, *countable) == Outcome::<CountableKind>::Done(r),
    {
        match self.store.get(&countable.0) {
            None => CountableKind::Counter,
            Some(Countable::Counter(_)) => CountableKind::Counter,
            Some(Countable::Phase(_)) => CountableKind::Phase,
            Some(Countable::Chain(_)) => CountableKind::Chain,
        }
    }

    /// The name of `countable`; empty where it is missing.
    pub fn name(&self, countable: &CountableId) -> (r: String)
        requires
            !name_of(self@, *countable).is_stuck(),
        ensures
            r@ == (match name_of(self@, *countable) {
                Outcome::Done(n) => n,
                _ => Seq::<char>::empty(),
            }),
    {
        match self.store.get(&countable.0) {
            None => String::new(),
            Some(Countable::Counter(c)) => c.name.clone(),
            Some(Countable::Phase(p)) => p.name.clone(),
            Some(Countable::Chain(_)) => String::new(),
        }
    }

    /// Renames `countable`; nothing happens where it is missing. The store
    /// records a change either way.
    pub fn set_name(&mut self, countable: &CountableId, name: &str)
        requires
            !rename(old(self)@, *countable, name@).result.is_stuck(),
        ensures
            final(self)@ == rename(old(self)@, *countable, name@).nodes,
            final(self).is_changed,
            final(self).owner == old(self).owner,
            final(self).selection == old(self).selection,
    {
        let n: Countable = match self.store.get(&countable.0) {
            None => {
                self.is_changed = true;
                return;
            },
            Some(c) => c.clone(),
        };
        let renamed = match n {
            Countable::Counter(mut c) => {
                c.name = name.to_owned();
                Countable::Counter(c)
            },
            Countable::Phase(mut p) => {
                p.name = name.to_owned();
                Countable::Phase(p)
            },
            other => other,
        };
        let ghost before = self@;
        self.store.insert(countable.0, renamed);
        proof {
            assert(self@ =~= rename(before, *countable, name@).nodes);
        }
        self.is_changed = true;
    }

    /// Archives `countable` with its descendants; `None` where that fails.
    pub fn archive(&mut self, countable: &CountableId) -> (r: Option<Countable>)
        requires
            !rec_archive(old(self)@, *countable, old(self).fuel()).result.is_stuck(),
        ensures
            final(self)@ == rec_archive(old(self)@, *countable, old(self).fuel()).nodes,
            final(self).is_changed == (old(self).is_changed || rec_archive(old(self)@, *countable, old(self).fuel()).changed),
            match rec_archive(old(self)@, *countable, old(self).fuel()).result {
                Outcome::Done(_) => r is Some && final(self)@.contains_key(countable.0) && r->Some_0@ == final(self)@[countable.0],
                _ => r is None,
            },
            final(self).owner == old(self).owner,
            final(self).selection == old(self).selection,
    {
        let fuel = Ghost(self.fuel());
        match self.rec_archive_exec(*countable, fuel) {
            Ok(()) => self.get(countable),
            Err(_) => None,
        }
    }

    /// Merges `other` into this store, key by key as `merged` describes.
    pub fn merge(&mut self, other: Self) -> (r: ())
        requires
            merge_ok(old(self)@, other@),
        ensures
            final(self)@ == merged(old(self)@, other@),
            final(self).is_changed,
            final(self).owner == old(self).owner,
            final(self).selection == old(self).selection,
    {
        let mut me = CountableStore::<M, Checked> {
            owner: self.owner,
            store: HashMap::new(),
            selection: Vec::new(),
            is_changed: self.is_changed,
            phantom_data: PhantomData,
        };
        std::mem::swap(&mut me.store, &mut self.store);
        let theirs = other.checked();
        let _ = me.merge(theirs);
        std::mem::swap(&mut me.store, &mut self.store);
        self.is_changed = true;
    }
}

/// Reading and writing single elements, with defaults for missing ones.
impl CountableStore<Level, UnChecked> {
    /// The direct children of `countable`; none where it is missing.
    pub fn children(&self, countable: &CountableId) -> (r: Vec<CountableId>)
        ensures
            r@ == level_children(self@, *countable).list_or_empty(),
    {
        match self.level_children_exec(*countable) {
            Ok(v) => v,
            Err(_) => Vec::new(),
        }
    }

    /// Whether `child` is a direct child of `countable`.
    pub fn has_child(&self, countable: &CountableId, child: &CountableId) -> (r: bool)
        ensures
            r == level_children(self@, *countable).list_or_empty().contains(*child),
    {
        let v = self.children(countable);
        contains_id(&v, child)
    }

    /// The last direct child of `countable`, which must be in the store.
    pub fn last_child(&self, countable: &CountableId) -> (r: Option<CountableId>)
        requires
            level_last_child(self@, *countable) is Done,
        ensures
            level_last_child(self@, *countable) == Outcome::<Option<CountableId>>::Done(r),
    {
        match self.store.get(&countable.0) {
            Some(Countable::Counter(c)) => {
                let n = c.children.len();
                if n == 0 {
                    None
                } else {
                    Some(c.children[n - 1])
                }
            },
            _ => None,
        }
    }

    /// The parent of `countable`; `None` for a root or a missing element.
    pub fn parent(&self, countable: &CountableId) -> (r: Option<CountableId>)
        requires
            !level_parent(self@, *countable).is_stuck(),
        ensures
            level_parent(self@, *countable) == Outcome::<Option<CountableId>>::Done(r),
    {
        self.level_parent_exec(*countable)
    }

    /// The count of `countable` itself; zero where it is missing.
    pub fn count(&self, countable: &CountableId) -> (r: i32)
        requires
            !level_value(self@, *countable, Quantity::Count).is_stuck(),
        ensures
            r == level_value(self@, *countable, Quantity::Count).value_or_zero(),
    {
        match self.level_value_exec(*countable, Quantity::Count) {
            Ok(v) => v as i32,
            Err(_) => 0,
        }
    }

    /// Sets the count of `countable` where it is a phase.
    pub fn set_count(&mut self, countable: &CountableId, count: i32)
        requires
            !level_write(old(self)@, *countable, count as int, false, Quantity::Count).result.is_stuck(),
        ensures
            final(self)@ == level_write(old(self)@, *countable, count as int, false, Quantity::Count).nodes,
            final(self).is_changed == (old(self).is_changed || level_write(old(self)@, *countable, count as int, false, Quantity::Count).result is Done),
            final(self).owner == old(self).owner,
            final(self).selection == old(self).selection,
    {
        let _ = self.level_write_exec(*countable, count as i64, false, Quantity::Count);
    }

    /// Adds `count` to the count of `countable` where it is a phase.
    pub fn add_count(&mut self, countable: &CountableId, count: i32)
        requires
            !level_write(old(self)@, *countable, count as int, true, Quantity::Count).result.is_stuck(),
        ensures
            final(self)@ == level_write(old(self)@, *countable, count as int, true, Quantity::Count).nodes,
            final(self).is_changed == (old(self).is_changed || level_write(old(self)@, *countable, count as int, true, Quantity::Count).result is Done),
            final(self).owner == old(self).owner,
            final(self).selection == old(self).selection,
    {
        let _ = self.level_write_exec(*countable, count as i64, true, Quantity::Count);
    }

    /// The time of `countable` itself in milliseconds; zero where it is
    /// missing.
    pub fn time(&self, countable: &CountableId) -> (r: i64)
        requires
            !level_value(self@, *countable, Quantity::Time).is_stuck(),
        ensures
            r == level_value(self@, *countable, Quantity::Time).value_or_zero(),
    {
        match self.level_value_exec(*countable, Quantity::Time) {
            Ok(v) => v,
            Err(_) => 0,
        }
    }

    /// Sets the time of `countable` where it is a phase.
    pub fn set_time(&mut self, countable: &CountableId, time: i64)
        requires
            !level_write(old(self)@, *countable, time as int, false, Quantity::Time).result.is_stuck(),
        ensures
            final(self)@ == level_write(old(self)@, *countable, time as int, false, Quantity::Time).nodes,
            final(self).is_changed == (old(self).is_changed || level_write(old(self)@, *countable, time as int, false, Quantity::Time).result is Done),
            final(self).owner == old(self).owner,
            final(self).selection == old(self).selection,
    {
        let _ = self.level_write_exec(*countable, time, false, Quantity::Time);
    }

    /// Adds `time` (milliseconds) to the time of `countable` where it is a
    /// phase.
    pub fn add_time(&mut self, countable: &CountableId, time: i64)
        requires
            !level_write(old(self)@, *countable, time as int, true, Quantity::Time).result.is_stuck(),
        ensures
            final(self)@ == level_write(old(self)@, *countable, time as int, true, Quantity::Time).nodes,
            final(self).is_changed == (old(self).is_changed || level_write(old(self)@, *countable, time as int, true, Quantity::Time).result is Done),
            final(self).owner == old(self).owner,
            final(self).selection == old(self).selection,
    {
        let _ = self.level_write_exec(*countable, time, true, Quantity::Time);
    }

    /// The rolls of `countable` alone; zero where it is missing.
    pub fn rolls(&self, countable: &CountableId) -> (r: i32)
        requires
            !level_rolls(self@, *countable).is_stuck(),
        ensures
            r == level_rolls(self@, *countable).value_or_zero(),
    {
        match self.store.get(&countable.0) {
            Some(Countable::Phase(p)) => p.hunt_type.rolls(p.count, p.has_charm),
            _ => 0,
        }
    }

    /// The odds of `countable` alone as the N of one in N; zero where it
    /// is missing.
    pub fn odds(&self, countable: &CountableId) -> (r: u32)
        requires
            !level_odds(self@, *countable).is_stuck(),
        ensures
            r == (match level_odds(self@, *countable) {
                Outcome::Done(v) => v,
                _ => 0,
            }),
    {
        match self.store.get(&countable.0) {
            Some(Countable::Phase(p)) => p.hunt_type.odds(),
            _ => 0,
        }
    }

    /// Whether `countable` alone is marked completed; not where it is
    /// missing.
    pub fn completed(&self, countable: &CountableId) -> (r: bool)
        requires
            !level_completed(self@, *countable).is_stuck(),
        ensures
            r == (level_completed(self@, *countable) == Outcome::<bool>::Done(true)),
    {
        match self.store.get(&countable.0) {
            Some(Countable::Phase(p)) => p.success,
            _ => false,
        }
    }
}

/// Reading and writing elements with their descendants, with defaults for
/// missing ones.
impl CountableStore<Recursive, UnChecked> {
    /// All descendants of `countable`; none where that fails.
    pub fn children(&self, countable: &CountableId) -> (r: Vec<CountableId>)
        requires
            !rec_desc(self@, *countable, self.fuel()).is_stuck(),
        ensures
            r@ == rec_desc(self@, *countable, self.fuel()).list_or_empty(),
    {
        match self.rec_desc_exec(*countable, Ghost(self.fuel())) {
            Ok(v) => v,
            Err(_) => Vec::new(),
        }
    }

    /// Whether `child` is a descendant of `countable`.
    pub fn has_child(&self, countable: &CountableId, child: &CountableId) -> (r: bool)
        requires
            !rec_desc(self@, *countable, self.fuel()).is_stuck(),
        ensures
            r == rec_desc(self@, *countable, self.fuel()).list_or_empty().contains(*child),
    {
        let v = self.children(countable);
        contains_id(&v, child)
    }

    /// The leaf reached by taking last children; `countable` itself where
    /// it is missing.
    pub fn last_child(&self, countable: &CountableId) -> (r: CountableId)
        requires
            !rec_last_child(self@, *countable, self.fuel()).is_stuck(),
            rec_last_child(self@, *countable, self.fuel()).fails_only_missing(),
        ensures
            r == (match rec_last_child(self@, *countable, self.fuel()) {
                Outcome::Done(c) => c,
                _ => *countable,
            }),
    {
        match self.rec_last_child_exec(*countable, Ghost(self.fuel())) {
            Ok(c) => c,
            Err(_) => *countable,
        }
    }

    /// The root above `countable`; `countable` itself where it is missing.
    pub fn parent(&self, countable: &CountableId) -> (r: CountableId)
        requires
            !rec_root(self@, *countable, self.fuel()).is_stuck(),
            rec_root(self@, *countable, self.fuel()).fails_only_missing(),
        ensures
            r == (match rec_root(self@, *countable, self.fuel()) {
                Outcome::Done(c) => c,
                _ => *countable,
            }),
    {
        match self.rec_root_exec(*countable, Ghost(self.fuel())) {
            Ok(c) => c,
            Err(_) => *countable,
        }
    }

    /// The parents of `countable` up to the root, the nearest first.
    pub fn all_parents(&self, countable: &CountableId) -> (r: Vec<CountableId>)
        requires
            !all_parents_of(self@, *countable, self.fuel()).is_stuck(),
        ensures
            r@ == all_parents_of(self@, *countable, self.fuel()).list_or_empty(),
    {
        let mut list: Vec<CountableId> = Vec::new();
        match self.level_parent_exec(*countable) {
            Some(p) => {
                self.parents_from_exec(p, &mut list, Ghost(self.fuel()));
                proof {
                    assert(list@ =~= all_parents_of(self@, *countable, self.fuel())->Done_0);
                }
            },
            None => {},
        }
        list
    }

    /// The count of `countable` over its descendants; zero where it is
    /// missing.
    pub fn count(&self, countable: &CountableId) -> (r: i32)
        requires
            !rec_sum(self@, *countable, Quantity::Count, self.fuel()).is_stuck(),
            rec_sum(self@, *countable, Quantity::Count, self.fuel()).fails_only_missing(),
        ensures
            r == rec_sum(self@, *countable, Quantity::Count, self.fuel()).value_or_zero(),
    {
        match self.rec_sum_exec(*countable, Quantity::Count, Ghost(self.fuel())) {
            Ok(v) => v as i32,
            Err(_) => 0,
        }
    }

    /// Sets the summed count of `countable`; nothing happens where it is
    /// missing.
    pub fn set_count(&mut self, countable: &CountableId, count: i32)
        requires
            !rec_set(old(self)@, *countable, count as int, Quantity::Count, old(self).fuel()).result.is_stuck(),
            rec_set(old(self)@, *countable, count as int, Quantity::Count, old(self).fuel()).result.fails_only_missing(),
        ensures
            final(self)@ == rec_set(old(self)@, *countable, count as int, Quantity::Count, old(self).fuel()).nodes,
            final(self).is_changed == (old(self).is_changed || rec_set(old(self)@, *countable, count as int, Quantity::Count, old(self).fuel()).changed),
            final(self).owner == old(self).owner,
            final(self).selection == old(self).selection,
    {
        let _ = self.rec_set_exec(*countable, count as i64, Quantity::Count, Ghost(self.fuel()));
    }

    /// Adds `count` to the summed count of `countable`; nothing happens
    /// where it is missing.
    pub fn add_count(&mut self, countable: &CountableId, count: i32)
        requires
            !apply_diff(old(self)@, *countable, count as int, Quantity::Count, old(self).fuel()).result.is_stuck(),
            apply_diff(old(self)@, *countable, count as int, Quantity::Count, old(self).fuel()).result.fails_only_missing(),
        ensures
            final(self)@ == apply_diff(old(self)@, *countable, count as int, Quantity::Count, old(self).fuel()).nodes,
            final(self).is_changed == (old(self).is_changed || apply_diff(old(self)@, *countable, count as int, Quantity::Count, old(self).fuel()).changed),
            final(self).owner == old(self).owner,
            final(self).selection == old(self).selection,
    {
        let _ = self.apply_diff_exec(*countable, count as i64, Quantity::Count, Ghost(self.fuel()));
    }

    /// The time of `countable` over its descendants; zero where it is
    /// missing.
    pub fn time(&self, countable: &CountableId) -> (r: i64)
        requires
            !rec_sum(self@, *countable, Quantity::Time, self.fuel()).is_stuck(),
            rec_sum(self@, *countable, Quantity::Time, self.fuel()).fails_only_missing(),
        ensures
            r == rec_sum(self@, *countable, Quantity::Time, self.fuel()).value_or_zero(),
    {
        match self.rec_sum_exec(*countable, Quantity::Time, Ghost(self.fuel())) {
            Ok(v) => v,
            Err(_) => 0,
        }
    }

    /// Sets the summed time of `countable`; nothing happens where it is
    /// missing.
    pub fn set_time(&mut self, countable: &CountableId, time: i64)
        requires
            !rec_set(old(self)@, *countable, time as int, Quantity::Time, old(self).fuel()).result.is_stuck(),
            rec_set(old(self)@, *countable, time as int, Quantity::Time, old(self).fuel()).result.fails_only_missing(),
        ensures
            final(self)@ == rec_set(old(self)@, *countable, time as int, Quantity::Time, old(self).fuel()).nodes,
            final(self).is_changed == (old(self).is_changed || rec_set(old(self)@, *countable, time as int, Quantity::Time, old(self).fuel()).changed),
            final(self).owner == old(self).owner,
            final(self).selection == old(self).selection,
    {
        let _ = self.rec_set_exec(*countable, time, Quantity::Time, Ghost(self.fuel()));
    }

    /// Adds `time` to the summed time of `countable`; nothing happens
    /// where it is missing.
    pub fn add_time(&mut self, countable: &CountableId, time: i64)
        requires
            !apply_diff(old(self)@, *countable, time as int, Quantity::Time, old(self).fuel()).result.is_stuck(),
            apply_diff(old(self)@, *countable, time as int, Quantity::Time, old(self).fuel()).result.fails_only_missing(),
        ensures
            final(self)@ == apply_diff(old(self)@, *countable, time as int, Quantity::Time, old(self).fuel()).nodes,
            final(self).is_changed == (old(self).is_changed || apply_diff(old(self)@, *countable, time as int, Quantity::Time, old(self).fuel()).changed),
            final(self).owner == old(self).owner,
            final(self).selection == old(self).selection,
    {
        let _ = self.apply_diff_exec(*countable, time, Quantity::Time, Ghost(self.fuel()));
    }

    /// The hunt type of `countable`; `Mixed` for a counter without
    /// children. The element and all its descendants must be in the store.
    pub fn hunttype(&self, countable: &CountableId) -> (r: Hunttype)
        requires
            !rec_hunttype(self@, *countable, self.fuel()).is_stuck(),
            rec_hunttype(self@, *countable, self.fuel()) matches Outcome::Fail(e) ==> e is RequiresChild,
        ensures
            r == (match rec_hunttype(self@, *countable, self.fuel()) {
                Outcome::Done(h) => h,
                _ => Hunttype::Mixed,
            }),
    {
        match self.rec_hunttype_exec(*countable, Ghost(self.fuel())) {
            Ok(h) => h,
            Err(_) => Hunttype::Mixed,
        }
    }

    /// The rolls of `countable` over its descendants; zero where it is
    /// missing or a counter without children.
    pub fn rolls(&self, countable: &CountableId) -> (r: i32)
        requires
            !rec_rolls(self@, *countable, self.fuel()).is_stuck(),
            rec_rolls(self@, *countable, self.fuel()).fails_only_missing_or_childless(),
        ensures
            r == rec_rolls(self@, *countable, self.fuel()).value_or_zero(),
    {
        match self.rec_rolls_exec(*countable, Ghost(self.fuel())) {
            Ok(v) => v as i32,
            Err(_) => 0,
        }
    }

    /// The number of completed phases below `countable`; zero where it is
    /// missing.
    pub fn completed(&self, countable: &CountableId) -> (r: u32)
        requires
            !rec_completed(self@, *countable, self.fuel()).is_stuck(),
            rec_completed(self@, *countable, self.fuel()).fails_only_missing(),
        ensures
            r == rec_completed(self@, *countable, self.fuel()).value_or_zero(),
    {
        match self.rec_completed_exec(*countable, Ghost(self.fuel())) {
            Ok(v) => v as u32,
            Err(_) => 0,
        }
    }
}

/// The ids in the list `ps`.
pub open spec fn ids_in(ps: Seq<CountableId>) -> Set<u128> {
    Set::new(|a: u128| ps.contains(CountableId(a)))
}

/// The ancestors of the first `n` keys of `ks`.
pub open spec fn ancestors_upto(m: Map<u128, CountableView>, ks: Seq<u128>, n: int, fuel: nat) -> Set<u128> {
    Set::new(|a: u128| exists|j: int| 0 <= j < n && #[trigger] ancestor_at(m, ks, j, fuel, a))
}

/// Whether `a` is an ancestor of the key at index `j` of `ks`.
pub open spec fn ancestor_at(m: Map<u128, CountableView>, ks: Seq<u128>, j: int, fuel: nat, a: u128) -> bool {
    all_parents_of(m, CountableId(ks[j]), fuel) matches Outcome::Done(ps) && ps.contains(CountableId(a))
}

impl<M: StoreMethod> CountableStore<M, Checked> {
    /// A store with the elements that `filter` accepts and all their
    /// parents up to the roots. It fails with `CountableNotFound` where a
    /// parent is missing from the store.
    pub fn filter<F: Fn(&Countable) -> bool>(self, filter: F) -> (r: Result<Self, AppError>)
        requires
            forall|c: &Countable| #[trigger] filter.requires((c,)),
            forall|k: u128| #[trigger] self.store@.contains_key(k) && filter.ensures((&self.store@[k],), true)
                ==> !all_parents_of(self@, CountableId(k), self.fuel()).is_stuck(),
        ensures
            exists|kept: Set<u128>| #[trigger] kept.subset_of(self@.dom())
                && (forall|k: u128| #[trigger] self.store@.contains_key(k) ==> (if kept.contains(k) {
                    filter.ensures((&self.store@[k],), true)
                } else {
                    filter.ensures((&self.store@[k],), false)
                }))
                && if ancestors_of(self@, kept, self.fuel()).subset_of(self@.dom()) {
                    r matches Ok(s) && s@ == self@.restrict(kept + ancestors_of(self@, kept, self.fuel()))
                        && s.owner == self.owner && s.selection@ == self.selection@ && !s.is_changed
                } else {
                    r == Err::<Self, AppError>(AppError::CountableNotFound)
                },
    {
        let ghost m = self@;
        let ghost fuel = self.fuel();
        let mut out = self.raw_filter(&filter);
        let ghost kept = out@.dom();
        proof {
            let w = choose|kept: Set<u128>| #[trigger] kept.subset_of(self@.dom()) && out@ == self@.restrict(kept)
                && forall|k: u128| #[trigger] self.store@.contains_key(k) ==> (if kept.contains(k) {
                    filter.ensures((&self.store@[k],), true)
                } else {
                    filter.ensures((&self.store@[k],), false)
                });
            assert(w =~= kept);
        }
        let keys = keys_of(&out.store);
        let mut i: usize = 0;
        while i < keys.len()
            invariant
                m == self@,
                fuel == self.fuel(),
                kept.subset_of(m.dom()),
                keys@.to_set() == kept,
                i <= keys@.len(),
                forall|k: u128| #[trigger] self.store@.contains_key(k) ==> (if kept.contains(k) {
                    filter.ensures((&self.store@[k],), true)
                } else {
                    filter.ensures((&self.store@[k],), false)
                }),
                forall|k: u128| #[trigger] self.store@.contains_key(k) && filter.ensures((&self.store@[k],), true)
                    ==> !all_parents_of(self@, CountableId(k), self.fuel()).is_stuck(),
                ancestors_upto(m, keys@, i as int, fuel).subset_of(m.dom()),
                out@ == m.restrict(kept + ancestors_upto(m, keys@, i as int, fuel)),
                out.owner == self.owner,
                out.selection@ == self.selection@,
                !out.is_changed,
            decreases keys@.len() - i,
        {
            let k = keys[i];
            proof {
                assert(keys@.to_set().contains(k));
                assert(self.store@.contains_key(k));
            }
            let mut ps: Vec<CountableId> = Vec::new();
            match self.level_parent_exec(CountableId(k)) {
                Some(p) => {
                    self.parents_from_exec(p, &mut ps, Ghost(fuel));
                },
                None => {},
            }
            proof {
                assert(all_parents_of(m, CountableId(k), fuel) == Outcome::Done(ps@));
            }
            let ghost before = out@;
            let mut j: usize = 0;
            while j < ps.len()
                invariant
                    m == self@,
                    fuel == self.fuel(),
                    kept.subset_of(m.dom()),
                    keys@.to_set() == kept,
                    forall|k: u128| #[trigger] self.store@.contains_key(k) ==> (if kept.contains(k) {
                        filter.ensures((&self.store@[k],), true)
                    } else {
                        filter.ensures((&self.store@[k],), false)
                    }),
                    j <= ps@.len(),
                    all_parents_of(m, CountableId(keys@[i as int]), fuel) == Outcome::Done(ps@),
                    k == keys@[i as int],
                    i < keys@.len(),
                    ancestors_upto(m, keys@, i as int, fuel).subset_of(m.dom()),
                    ids_in(ps@.take(j as int)).subset_of(m.dom()),
                    before == m.restrict(kept + ancestors_upto(m, keys@, i as int, fuel)),
                    out@ == m.restrict(kept + ancestors_upto(m, keys@, i as int, fuel) + ids_in(ps@.take(j as int))),
                    out.owner == self.owner,
                    out.selection@ == self.selection@,
                    !out.is_changed,
                decreases ps@.len() - j,
            {
                let p = ps[j];
                match self.store.get(&p.0) {
                    None => {
                        proof {
                            assert(ancestor_at(m, keys@, i as int, fuel, p.0)) by {
                                assert(ps@[j as int] == p);
                            }
                            assert(keys@.contains(k)) by {
                                assert(keys@[i as int] == k);
                            }
                            assert(keys@.to_set().contains(k));
                            assert(kept.contains(k));
                            assert(all_parents_of(m, CountableId(k), fuel) matches Outcome::Done(ps2) && ps2.contains(CountableId(p.0))) by {
                                assert(ps@[j as int] == p);
                            }
                            assert(ancestors_of(m, kept, fuel).contains(p.0));
                            assert(!m.dom().contains(p.0));
                            assert(!ancestors_of(m, kept, fuel).subset_of(m.dom()));
                            assert(kept.subset_of(self@.dom()));
                        }
                        return Err(AppError::CountableNotFound);
                    },
                    Some(c) => {
                        let cc = c.clone();
                        let ghost mid = out@;
                        out.store.insert(p.0, cc);
                        proof {
                            assert(ids_in(ps@.take(j + 1)) =~= ids_in(ps@.take(j as int)).insert(p.0)) by {
                                assert forall|a: u128| ids_in(ps@.take(j + 1)).contains(a) <==> ids_in(ps@.take(j as int)).insert(p.0).contains(a) by {
                                    if ps@.take(j + 1).contains(CountableId(a)) {
                                        let x = choose|x: int| 0 <= x < j + 1 && #[trigger] ps@.take(j + 1)[x] == CountableId(a);
                                        if x < j {
                                            assert(ps@.take(j as int)[x] == CountableId(a));
                                        }
                                    }
                                    if ps@.take(j as int).contains(CountableId(a)) {
                                        let x = choose|x: int| 0 <= x < j && #[trigger] ps@.take(j as int)[x] == CountableId(a);
                                        assert(ps@.take(j + 1)[x] == CountableId(a));
                                    }
                                    if a == p.0 {
                                        assert(ps@.take(j + 1)[j as int] == CountableId(a));
                                    }
                                }
                            }
                            assert(m[p.0] == cc@);
                            assert(out@ =~= mid.insert(p.0, m[p.0]));
                            assert(out@ =~= m.restrict(kept + ancestors_upto(m, keys@, i as int, fuel) + ids_in(ps@.take(j + 1))));
                        }
                    },
                }
                j = j + 1;
            }
            proof {
                assert(ps@.take(ps@.len() as int) =~= ps@);
                assert(ancestors_upto(m, keys@, i + 1, fuel) =~= ancestors_upto(m, keys@, i as int, fuel) + ids_in(ps@)) by {
                    assert forall|a: u128| ancestors_upto(m, keys@, i + 1, fuel).contains(a) <==> (ancestors_upto(m, keys@, i as int, fuel) + ids_in(ps@)).contains(a) by {
                        if ancestors_upto(m, keys@, i + 1, fuel).contains(a) {
                            let x = choose|x: int| 0 <= x < i + 1 && #[trigger] ancestor_at(m, keys@, x, fuel, a);
                            if x < i {
                                assert(ancestors_upto(m, keys@, i as int, fuel).contains(a));
                            }
                        }
                        if ids_in(ps@).contains(a) {
                            assert(ancestor_at(m, keys@, i as int, fuel, a));
                        }
                    }
                }
            }
            i = i + 1;
        }
        proof {
            assert(ancestors_upto(m, keys@, keys@.len() as int, fuel) =~= ancestors_of(m, kept, fuel)) by {
                assert forall|a: u128| ancestors_upto(m, keys@, keys@.len() as int, fuel).contains(a) <==> ancestors_of(m, kept, fuel).contains(a) by {
                    if ancestors_upto(m, keys@, keys@.len() as int, fuel).contains(a) {
                        let x = choose|x: int| 0 <= x < keys@.len() && #[trigger] ancestor_at(m, keys@, x, fuel, a);
                        assert(keys@.to_set().contains(keys@[x]));
                        assert(kept.contains(keys@[x]));
                    }
                    if ancestors_of(m, kept, fuel).contains(a) {
                        let k2 = choose|k2: u128| #[trigger] kept.contains(k2)
                            && (all_parents_of(m, CountableId(k2), fuel) matches Outcome::Done(ps) && ps.contains(CountableId(a)));
                        assert(keys@.to_set().contains(k2));
                        let x = choose|x: int| 0 <= x < keys@.len() && #[trigger] keys@[x] == k2;
                        assert(ancestor_at(m, keys@, x, fuel, a));
                    }
                }
            }
            assert(kept.subset_of(self@.dom()));
        }
        Ok(out)
    }
}

/// Whether every parent of `k`, up to the root, is in `m`.
pub open spec fn ancestors_present(m: Map<u128, CountableView>, k: u128, fuel: nat) -> bool {
    all_parents_of(m, CountableId(k), fuel) matches Outcome::Done(ps) && ids_in(ps).subset_of(m.dom())
}

impl<M: StoreMethod> CountableStore<M, UnChecked> {
    /// A store with the elements that `filter` accepts and all their
    /// parents up to the roots. Every element the filter may accept must
    /// have all its parents in the store.
    pub fn filter<F: Fn(&Countable) -> bool>(self, filter: F) -> (r: Self)
        requires
            forall|c: &Countable| #[trigger] filter.requires((c,)),
            forall|k: u128| #[trigger] self.store@.contains_key(k) && filter.ensures((&self.store@[k],), true)
                ==> ancestors_present(self@, k, self.fuel()),
        ensures
            exists|kept: Set<u128>| #[trigger] kept.subset_of(self@.dom())
                && (forall|k: u128| #[trigger] self.store@.contains_key(k) ==> (if kept.contains(k) {
                    filter.ensures((&self.store@[k],), true)
                } else {
                    filter.ensures((&self.store@[k],), false)
                }))
                && r@ == self@.restrict(kept + ancestors_of(self@, kept, self.fuel())),
            r.owner == self.owner,
            r.selection@ == self.selection@,
            !r.is_changed,
    {
        let ghost m = self@;
        let ghost fuel = self.fuel();
        let ghost store = self.store@;
        let owner = self.owner;
        let sel = self.selection.clone();
        let checked = self.checked();
        proof {
            assert forall|k: u128| #[trigger] checked.store@.contains_key(k) && filter.ensures((&checked.store@[k],), true)
                implies !all_parents_of(checked@, CountableId(k), checked.fuel()).is_stuck() by {
                assert(store.contains_key(k));
                assert(ancestors_present(m, k, fuel));
            }
        }
        let res = checked.filter(filter);
        proof {
            assert(res is Ok) by {
                if res is Err {
                    let kept = choose|kept: Set<u128>| #[trigger] kept.subset_of(m.dom())
                        && (forall|k: u128| #[trigger] store.contains_key(k) ==> (if kept.contains(k) {
                            filter.ensures((&store[k],), true)
                        } else {
                            filter.ensures((&store[k],), false)
                        }))
                        && !ancestors_of(m, kept, fuel).subset_of(m.dom());
                    assert forall|a: u128| ancestors_of(m, kept, fuel).contains(a) implies m.dom().contains(a) by {
                        let k2 = choose|k2: u128| #[trigger] kept.contains(k2)
                            && (all_parents_of(m, CountableId(k2), fuel) matches Outcome::Done(ps) && ps.contains(CountableId(a)));
                        assert(store.contains_key(k2));
                        assert(filter.ensures((&store[k2],), true));
                        assert(ancestors_present(m, k2, fuel));
                        assert(ids_in(all_parents_of(m, CountableId(k2), fuel)->Done_0).contains(a));
                    }
                }
            }
        }
        match res {
            Ok(s) => s.unchecked(),
            Err(_) => CountableStore { owner, store: HashMap::new(), selection: sel, is_changed: false, phantom_data: PhantomData },
        }
    }

    /// Adds a new element of `kind` named `name` under a fresh random id,
    /// created now, and appends it to the children of `parent` where one is
    /// given; the parent must be a counter in the store.
    pub fn new_countable(&mut self, name: &str, kind: CountableKind, parent: Option<CountableId>) -> (r: CountableId)
        requires
            kind is Phase ==> parent is Some,
            !(kind is Chain),
            parent matches Some(p) ==> old(self)@.contains_key(p.0) && old(self)@[p.0] is Counter,
        ensures
            exists|uuid: u128, now: i64|
                final(self)@ == add_new(old(self)@, spec_new_countable(name@, kind, old(self).owner, parent, uuid, now), uuid, parent)
                && r == CountableId(uuid),
            final(self).owner == old(self).owner,
            final(self).selection == old(self).selection,
    {
        let uuid = crate::clock::new_uuid();
        let now = crate::clock::now_micros();
        let mut me = CountableStore::<M, Checked> {
            owner: self.owner,
            store: HashMap::new(),
            selection: Vec::new(),
            is_changed: self.is_changed,
            phantom_data: PhantomData,
        };
        std::mem::swap(&mut me.store, &mut self.store);
        let _ = me.new_countable_with(name, kind, parent, uuid, now);
        std::mem::swap(&mut me.store, &mut self.store);
        self.is_changed = me.is_changed;
        CountableId(uuid)
    }
}

/// Sets quantity `q` of the element under `id`, summed over its
/// descendants, to `target` by handing the difference to `child_adjust`.
pub open spec fn child_set(m: Map<u128, CountableView>, id: CountableId, target: int, q: Quantity, fuel: nat) -> Update
    decreases fuel, 2nat, 0nat,
{
    match rec_sum(m, id, q, fuel) {
        Outcome::Done(cur) => if fits(q, target - cur) {
            child_adjust(m, id, target - cur, q, fuel)
        } else {
            Update { nodes: m, changed: false, result: Outcome::Stuck }
        },
        Outcome::Fail(e) => Update { nodes: m, changed: false, result: Outcome::Fail(e) },
        Outcome::Stuck => Update { nodes: m, changed: false, result: Outcome::Stuck },
    }
}

/// Adds `add` to quantity `q` of the element under `id`: a phase takes it
/// whole; a counter walks its direct children from the last one back, as
/// `walk_back` describes.
pub open spec fn child_adjust(m: Map<u128, CountableView>, id: CountableId, add: int, q: Quantity, fuel: nat) -> Update
    decreases fuel, 1nat, 0nat,
{
    match lookup(m, id) {
        None => Update { nodes: m, changed: false, result: Outcome::Fail(AppError::CountableNotFound) },
        Some(CountableView::Chain) => Update { nodes: m, changed: false, result: Outcome::Stuck },
        Some(CountableView::Phase(p)) => {
            let nv = phase_value(CountableView::Phase(p), q) + add;
            if fits(q, nv) {
                Update { nodes: m.insert(id.0, with_value(CountableView::Phase(p), q, nv)), changed: false, result: Outcome::Done(()) }
            } else {
                Update { nodes: m, changed: false, result: Outcome::Stuck }
            }
        },
        Some(CountableView::Counter(c)) => walk_back(m, c.children, c.children.len(), add, q, fuel),
    }
}

/// Hands `add` to the first `n` of the children `ids`, the last first. A
/// child whose sum would not stay above zero is set to zero and `add`
/// takes in what the child holds afterwards; otherwise the child is set to
/// its sum and `add`, which ends the walk for counts while times go on to
/// the next child with the same `add`.
pub open spec fn walk_back(m: Map<u128, CountableView>, ids: Seq<CountableId>, n: nat, add: int, q: Quantity, fuel: nat) -> Update
    decreases fuel, 0nat, n,
{
    if n == 0 {
        Update { nodes: m, changed: false, result: Outcome::Done(()) }
    } else if fuel == 0 {
        Update { nodes: m, changed: false, result: Outcome::Stuck }
    } else {
        let child = ids[n - 1];
        match rec_sum(m, child, q, (fuel - 1) as nat) {
            Outcome::Done(cc) => if !fits(q, cc + add) {
                Update { nodes: m, changed: false, result: Outcome::Stuck }
            } else if cc + add <= 0 {
                let u = child_set(m, child, 0, q, (fuel - 1) as nat);
                if u.result is Done {
                    match rec_sum(u.nodes, child, q, (fuel - 1) as nat) {
                        Outcome::Done(c2) => if fits(q, add + c2) {
                            walk_back(u.nodes, ids, (n - 1) as nat, add + c2, q, fuel)
                        } else {
                            Update { nodes: u.nodes, changed: false, result: Outcome::Stuck }
                        },
                        Outcome::Fail(e) => Update { nodes: u.nodes, changed: false, result: Outcome::Fail(e) },
                        Outcome::Stuck => Update { nodes: u.nodes, changed: false, result: Outcome::Stuck },
                    }
                } else {
                    u
                }
            } else {
                let u = child_set(m, child, cc + add, q, (fuel - 1) as nat);
                if q is Count || !(u.result is Done) {
                    u
                } else {
                    walk_back(u.nodes, ids, (n - 1) as nat, add, q, fuel)
                }
            },
            Outcome::Fail(e) => Update { nodes: m, changed: false, result: Outcome::Fail(e) },
            Outcome::Stuck => Update { nodes: m, changed: false, result: Outcome::Stuck },
        }
    }
}

impl<M: StoreMethod, C: StoreCheck> CountableStore<M, C> {
    /// Quantity `q` of `id` summed over its descendants, for other modules
    /// of the crate.
    pub(crate) fn sum_of(&self, id: CountableId, q: Quantity, Ghost(fuel): Ghost<nat>) -> (r: Result<i64, AppError>)
        requires
            !rec_sum(self@, id, q, fuel).is_stuck(),
        ensures
            match rec_sum(self@, id, q, fuel) {
                Outcome::Done(v) => r == Ok::<i64, AppError>(v as i64) && i64::MIN <= v <= i64::MAX
                    && (q is Count ==> fits_i32(v)),
                Outcome::Fail(e) => r == Err::<i64, AppError>(e),
                Outcome::Stuck => false,
            },
    {
        self.rec_sum_exec(id, q, Ghost(fuel))
    }

    /// Sets quantity `q` of `id` to `target`, as `child_set` describes.
    pub(crate) fn child_set_exec(&mut self, id: CountableId, target: i64, q: Quantity, Ghost(fuel): Ghost<nat>) -> (r: Result<(), AppError>)
        requires
            !child_set(old(self)@, id, target as int, q, fuel).result.is_stuck(),
        ensures
            final(self)@ == child_set(old(self)@, id, target as int, q, fuel).nodes,
            r == child_set(old(self)@, id, target as int, q, fuel).result.as_result(),
            final(self).is_changed == old(self).is_changed,
            final(self).owner == old(self).owner,
            final(self).selection == old(self).selection,
        decreases fuel, 2nat,
    {
        match self.rec_sum_exec(id, q, Ghost(fuel)) {
            Ok(cur) => {
                let diff = target - cur;
                self.child_adjust_exec(id, diff, q, Ghost(fuel))
            },
            Err(e) => Err(e),
        }
    }

    /// Adds `add` to quantity `q` of `id`, as `child_adjust` describes.
    pub(crate) fn child_adjust_exec(&mut self, id: CountableId, add: i64, q: Quantity, Ghost(fuel): Ghost<nat>) -> (r: Result<(), AppError>)
        requires
            !child_adjust(old(self)@, id, add as int, q, fuel).result.is_stuck(),
        ensures
            final(self)@ == child_adjust(old(self)@, id, add as int, q, fuel).nodes,
            r == child_adjust(old(self)@, id, add as int, q, fuel).result.as_result(),
            final(self).is_changed == old(self).is_changed,
            final(self).owner == old(self).owner,
            final(self).selection == old(self).selection,
        decreases fuel, 1nat,
    {
        let ghost m0 = self@;
        let kids: Option<Vec<CountableId>> = match self.store.get(&id.0) {
            None => {
                return Err(AppError::CountableNotFound);
            },
            Some(Countable::Chain(_)) => {
                proof {
                    assert(false);
                }
                return Err(AppError::Internal);
            },
            Some(Countable::Phase(p)) => {
                let v = Self::read_value(p, q);
                let nv = v + add;
                self.write_phase_value(id, nv, q);
                return Ok(());
            },
            Some(Countable::Counter(c)) => Some(c.children.clone()),
        };
        let ids = match kids {
            Some(v) => v,
            None => Vec::new(),
        };
        let ghost total = walk_back(m0, ids@, ids@.len(), add as int, q, fuel);
        let mut i: usize = ids.len();
        let mut run: i64 = add;
        while i > 0
            invariant
                i <= ids@.len(),
                total == walk_back(m0, ids@, ids@.len(), add as int, q, fuel),
                m0 == old(self)@,
                child_adjust(m0, id, add as int, q, fuel) == total,
                total.nodes == walk_back(self@, ids@, i as nat, run as int, q, fuel).nodes,
                total.result == walk_back(self@, ids@, i as nat, run as int, q, fuel).result,
                !total.result.is_stuck(),
                self.is_changed == old(self).is_changed,
                self.owner == old(self).owner,
                self.selection == old(self).selection,
            decreases i,
        {
            let child = ids[i - 1];
            let cc = match self.rec_sum_exec(child, q, Ghost((fuel - 1) as nat)) {
                Ok(v) => v,
                Err(e) => {
                    return Err(e);
                },
            };
            let next = cc + run;
            if next <= 0 {
                match self.child_set_exec(child, 0, q, Ghost((fuel - 1) as nat)) {
                    Ok(()) => {},
                    Err(e) => {
                        return Err(e);
                    },
                }
                let c2 = match self.rec_sum_exec(child, q, Ghost((fuel - 1) as nat)) {
                    Ok(v) => v,
                    Err(e) => {
                        return Err(e);
                    },
                };
                run = run + c2;
                i = i - 1;
            } else {
                match self.child_set_exec(child, next, q, Ghost((fuel - 1) as nat)) {
                    Ok(()) => {},
                    Err(e) => {
                        return Err(e);
                    },
                }
                match q {
                    Quantity::Count => {
                        return Ok(());
                    },
                    Quantity::Time => {},
                }
                i = i - 1;
            }
        }
        Ok(())
    }
}

/// The rolls of a phase as a count of rolls: its rolls in `i32`, turned
/// into a `usize` as `as` does.
pub open spec fn usize_phase_rolls(p: crate::nodes::PhaseView) -> Outcome<int> {
    if p.hunt_type is Mixed {
        Outcome::Stuck
    } else {
        let r = spec_rolls(p.hunt_type, p.count as int, p.has_charm);
        if fits_i32(r) {
            Outcome::Done(((r as i32) as usize) as int)
        } else {
            Outcome::Stuck
        }
    }
}

/// The rolls of the element under `id` as counts of rolls: a phase's own,
/// the total over the children for a counter, within `usize`.
pub open spec fn usize_rolls(m: Map<u128, CountableView>, id: CountableId, fuel: nat) -> Outcome<int>
    decreases fuel, 1nat, 0nat,
{
    match lookup(m, id) {
        None => Outcome::Fail(AppError::CountableNotFound),
        Some(CountableView::Counter(c)) => match collect_usize_rolls(m, c.children, c.children.len(), fuel) {
            Outcome::Done(vals) => if usize_sums_fit(vals, vals.len()) {
                Outcome::Done(seq_sum(vals, vals.len()))
            } else {
                Outcome::Stuck
            },
            Outcome::Fail(e) => Outcome::Fail(e),
            Outcome::Stuck => Outcome::Stuck,
        },
        Some(CountableView::Phase(p)) => usize_phase_rolls(p),
        Some(CountableView::Chain) => Outcome::Stuck,
    }
}

/// The counts of rolls of the first `n` of `ids`, in order, up to the
/// first failure.
pub open spec fn collect_usize_rolls(m: Map<u128, CountableView>, ids: Seq<CountableId>, n: nat, fuel: nat) -> Outcome<Seq<int>>
    decreases fuel, 0nat, n,
{
    if n == 0 {
        Outcome::Done(Seq::empty())
    } else if fuel == 0 {
        Outcome::Stuck
    } else {
        match collect_usize_rolls(m, ids, (n - 1) as nat, fuel) {
            Outcome::Done(s) => match usize_rolls(m, ids[n - 1], (fuel - 1) as nat) {
                Outcome::Done(v) => Outcome::Done(s.push(v)),
                Outcome::Fail(e) => Outcome::Fail(e),
                Outcome::Stuck => Outcome::Stuck,
            },
            Outcome::Fail(e) => Outcome::Fail(e),
            Outcome::Stuck => Outcome::Stuck,
        }
    }
}

/// Whether every partial sum of `vals`, added from the first on, fits a
/// `usize`.
pub open spec fn usize_sums_fit(vals: Seq<int>, n: nat) -> bool
    decreases n,
{
    if n == 0 {
        true
    } else {
        usize_sums_fit(vals, (n - 1) as nat) && 0 <= seq_sum(vals, n) <= usize::MAX
    }
}

proof fn lemma_usize_fit_prefix(vals: Seq<int>, k: nat, n: nat)
    requires
        k <= n,
        usize_sums_fit(vals, n),
    ensures
        usize_sums_fit(vals, k),
    decreases n - k,
{
    if k < n {
        lemma_usize_fit_prefix(vals, k, (n - 1) as nat);
    }
}

proof fn lemma_collect_usize_prefix(m: Map<u128, CountableView>, ids: Seq<CountableId>, k: nat, n: nat, fuel: nat)
    requires
        k <= n,
        !(collect_usize_rolls(m, ids, k, fuel) is Done),
    ensures
        collect_usize_rolls(m, ids, n, fuel) == collect_usize_rolls(m, ids, k, fuel),
    decreases n - k,
{
    if k < n {
        lemma_collect_usize_prefix(m, ids, k, (n - 1) as nat, fuel);
    }
}

/// The values of `v` as integers.
pub open spec fn usize_ints(v: Seq<usize>) -> Seq<int> {
    v.map_values(|x: usize| x as int)
}

impl<M: StoreMethod, C: StoreCheck> CountableStore<M, C> {
    /// The counts of rolls of `id`, as `usize_rolls` describes.
    pub(crate) fn usize_rolls_exec(&self, id: CountableId, Ghost(fuel): Ghost<nat>) -> (r: Result<usize, AppError>)
        requires
            !usize_rolls(self@, id, fuel).is_stuck(),
        ensures
            match usize_rolls(self@, id, fuel) {
                Outcome::Done(v) => r == Ok::<usize, AppError>(v as usize) && 0 <= v <= usize::MAX,
                Outcome::Fail(e) => r == Err::<usize, AppError>(e),
                Outcome::Stuck => false,
            },
        decreases fuel, 1nat,
    {
        let ghost m = self@;
        match self.store.get(&id.0) {
            None => Err(AppError::CountableNotFound),
            Some(Countable::Phase(p)) => {
                let v = p.hunt_type.rolls(p.count, p.has_charm);
                Ok(v as usize)
            },
            Some(Countable::Chain(_)) => {
                proof {
                    assert(false);
                }
                Err(AppError::Internal)
            },
            Some(Countable::Counter(c)) => {
                let ghost ids = c.children@;
                let mut vals: Vec<usize> = Vec::new();
                proof {
                    assert(usize_ints(vals@) =~= Seq::<int>::empty());
                }
                let mut i: usize = 0;
                while i < c.children.len()
                    invariant
                        m == self@,
                        ids == c.children@,
                        i <= ids.len(),
                        lookup(m, id) == Some(CountableView::Counter(c@)),
                        collect_usize_rolls(m, ids, i as nat, fuel) == Outcome::<Seq<int>>::Done(usize_ints(vals@)),
                        !usize_rolls(m, id, fuel).is_stuck(),
                    decreases ids.len() - i,
                {
                    proof {
                        if !(collect_usize_rolls(m, ids, (i + 1) as nat, fuel) is Done) {
                            lemma_collect_usize_prefix(m, ids, (i + 1) as nat, ids.len(), fuel);
                        }
                    }
                    let child = c.children[i];
                    match self.usize_rolls_exec(child, Ghost((fuel - 1) as nat)) {
                        Ok(v) => {
                            let ghost prev = vals@;
                            vals.push(v);
                            proof {
                                assert(usize_ints(vals@) =~= usize_ints(prev).push(v as int));
                            }
                        },
                        Err(e) => {
                            proof {
                                lemma_collect_usize_prefix(m, ids, (i + 1) as nat, ids.len(), fuel);
                            }
                            return Err(e);
                        },
                    }
                    i = i + 1;
                }
                let ghost xs = usize_ints(vals@);
                let mut total: usize = 0;
                let mut j: usize = 0;
                while j < vals.len()
                    invariant
                        xs == usize_ints(vals@),
                        j <= vals@.len(),
                        total == seq_sum(xs, j as nat),
                        usize_sums_fit(xs, vals@.len()),
                    decreases vals@.len() - j,
                {
                    proof {
                        lemma_usize_fit_prefix(xs, (j + 1) as nat, vals@.len());
                        assert(xs[j as int] == vals@[j as int] as int);
                    }
                    total = total + vals[j];
                    j = j + 1;
                }
                Ok(total)
            },
        }
    }

    /// Whether `id` is marked a success, as `rec_success` describes.
    pub(crate) fn success_of(&self, id: CountableId, Ghost(fuel): Ghost<nat>) -> (r: Result<bool, AppError>)
        requires
            !rec_success(self@, id, fuel).is_stuck(),
        ensures
            r == rec_success(self@, id, fuel).as_result(),
    {
        self.rec_success_exec(id, Ghost(fuel))
    }

    /// Whether every phase below `id` has the charm, as `rec_charm`
    /// describes.
    pub(crate) fn charm_of(&self, id: CountableId, Ghost(fuel): Ghost<nat>) -> (r: Result<bool, AppError>)
        requires
            !rec_charm(self@, id, fuel).is_stuck(),
        ensures
            r == rec_charm(self@, id, fuel).as_result(),
    {
        self.rec_charm_exec(id, Ghost(fuel))
    }

    /// The completed phases below `id`, as `rec_completed` describes.
    pub(crate) fn completed_of(&self, id: CountableId, Ghost(fuel): Ghost<nat>) -> (r: Result<usize, AppError>)
        requires
            !rec_completed(self@, id, fuel).is_stuck(),
        ensures
            match rec_completed(self@, id, fuel) {
                Outcome::Done(v) => r == Ok::<usize, AppError>(v as usize) && 0 <= v <= u32::MAX,
                Outcome::Fail(e) => r == Err::<usize, AppError>(e),
                Outcome::Stuck => false,
            },
    {
        match self.rec_completed_exec(id, Ghost(fuel)) {
            Ok(v) => Ok(v as usize),
            Err(e) => Err(e),
        }
    }
}

} // verus!
