//! The order in which the list of elements is shown, and how two elements
//! compare in it.
use vstd::prelude::*;
use vstd::string::*;
use vstd::utf8::*;
use std::cmp::Ordering;
use crate::nodes::{CountableId, CountableView};
use crate::store::{created_at_of, name_of, rec_sum, Quantity};
use crate::v2::CountableStore;

verus! {

/// What the list is sorted by, and whether the order is reversed.
#[derive(Debug, Clone, Copy, PartialEq, Eq, Structural)]
pub enum SortMethod {
    Id(bool),
    Name(bool),
    Count(bool),
    Time(bool),
    CreatedAt(bool),
}

/// Whether the order of `m` is reversed.
pub open spec fn reversed(m: SortMethod) -> bool {
    match m {
        SortMethod::Id(b) => b,
        SortMethod::Name(b) => b,
        SortMethod::Count(b) => b,
        SortMethod::Time(b) => b,
        SortMethod::CreatedAt(b) => b,
    }
}

/// `m` with its order reversed.
pub open spec fn toggled(m: SortMethod) -> SortMethod {
    match m {
        SortMethod::Id(b) => SortMethod::Id(!b),
        SortMethod::Name(b) => SortMethod::Name(!b),
        SortMethod::Count(b) => SortMethod::Count(!b),
        SortMethod::Time(b) => SortMethod::Time(!b),
        SortMethod::CreatedAt(b) => SortMethod::CreatedAt(!b),
    }
}

/// The name of what `m` sorts by.
pub open spec fn method_key(m: SortMethod) -> Seq<char> {
    match m {
        SortMethod::Id(_) => "Id"@,
        SortMethod::Name(_) => "Name"@,
        SortMethod::Count(_) => "Count"@,
        SortMethod::Time(_) => "Time"@,
        SortMethod::CreatedAt(_) => "CreatedAt"@,
    }
}

/// The method a name stands for, in ascending order; anything else is the
/// default, creation time ascending.
pub open spec fn method_of(s: Seq<char>) -> SortMethod {
    if s == "Name"@ {
        SortMethod::Name(false)
    } else if s == "Count"@ {
        SortMethod::Count(false)
    } else if s == "Time"@ {
        SortMethod::Time(false)
    } else if s == "Id"@ {
        SortMethod::Id(false)
    } else {
        SortMethod::CreatedAt(false)
    }
}

impl Default for SortMethod {
    fn default() -> (r: SortMethod)
        ensures
            r == SortMethod::CreatedAt(false),
    {
        SortMethod::CreatedAt(false)
    }
}

impl SortMethod {
    /// The same method in the other direction.
    pub fn toggle(&self) -> (r: SortMethod)
        ensures
            r == toggled(*self),
    {
        match self {
            SortMethod::Id(b) => SortMethod::Id(!*b),
            SortMethod::Name(b) => SortMethod::Name(!*b),
            SortMethod::Count(b) => SortMethod::Count(!*b),
            SortMethod::Time(b) => SortMethod::Time(!*b),
            SortMethod::CreatedAt(b) => SortMethod::CreatedAt(!*b),
        }
    }

    pub fn is_reversed(&self) -> (r: bool)
        ensures
            r == reversed(*self),
    {
        match self {
            SortMethod::Id(b) => *b,
            SortMethod::Name(b) => *b,
            SortMethod::Count(b) => *b,
            SortMethod::Time(b) => *b,
            SortMethod::CreatedAt(b) => *b,
        }
    }

    /// The method that a name stands for, ascending.
    pub fn from_key(value: &str) -> (r: SortMethod)
        ensures
            r == method_of(value@),
    {
        let v = value.to_owned();
        if v == "Name".to_owned() {
            SortMethod::Name(false)
        } else if v == "Count".to_owned() {
            SortMethod::Count(false)
        } else if v == "Time".to_owned() {
            SortMethod::Time(false)
        } else if v == "Id".to_owned() {
            SortMethod::Id(false)
        } else {
            SortMethod::CreatedAt(false)
        }
    }

    /// The name of what this method sorts by.
    pub fn key(self) -> (r: &'static str)
        ensures
            r@ == method_key(self),
    {
        match self {
            SortMethod::Id(_) => "Id",
            SortMethod::Name(_) => "Name",
            SortMethod::Count(_) => "Count",
            SortMethod::Time(_) => "Time",
            SortMethod::CreatedAt(_) => "CreatedAt",
        }
    }
}

/// Reversing twice gives the method back; reversing flips the direction;
/// a method's name gives it back in ascending order.
pub proof fn lemma_toggle(m: SortMethod)
    ensures
        toggled(toggled(m)) == m,
        reversed(toggled(m)) == !reversed(m),
        method_key(toggled(m)) == method_key(m),
        method_of(method_key(m)) == (match m {
            SortMethod::Id(_) => SortMethod::Id(false),
            SortMethod::Name(_) => SortMethod::Name(false),
            SortMethod::Count(_) => SortMethod::Count(false),
            SortMethod::Time(_) => SortMethod::Time(false),
            SortMethod::CreatedAt(_) => SortMethod::CreatedAt(false),
        }),
{
    reveal_strlit("Id");
    reveal_strlit("Name");
    reveal_strlit("Count");
    reveal_strlit("Time");
    reveal_strlit("CreatedAt");
    assert("Id"@[0] != "Name"@[0] && "Id"@[0] != "Count"@[0] && "Id"@[0] != "Time"@[0]);
    assert("Count"@[0] != "Name"@[0]);
    assert("Time"@[0] != "Name"@[0] && "Time"@[0] != "Count"@[0]);
    assert("CreatedAt"@[1] != "Name"@[1] && "CreatedAt"@[1] != "Count"@[1] && "CreatedAt"@[0] != "Time"@[0]
        && "CreatedAt"@[0] != "Id"@[0]);
}

/// What an element is sorted by: its id, name, count, time in
/// milliseconds and creation time in microseconds.
#[derive(Debug, Clone, PartialEq, Eq)]
pub struct SortKey {
    pub id: u128,
    pub name: String,
    pub count: i32,
    pub time: i64,
    pub created_at: i64,
}

/// What a sort key holds, as plain values.
pub struct KeyView {
    pub id: u128,
    pub name: Seq<char>,
    pub count: int,
    pub time: int,
    pub created_at: int,
}

impl View for SortKey {
    type V = KeyView;

    open spec fn view(&self) -> KeyView {
        KeyView {
            id: self.id,
            name: self.name@,
            count: self.count as int,
            time: self.time as int,
            created_at: self.created_at as int,
        }
    }
}

/// The number an element is sorted by under a method that sorts by a
/// number: its id, count, time or creation time.
pub open spec fn key_number(m: SortMethod, k: KeyView) -> int {
    match m {
        SortMethod::Id(_) => k.id as int,
        SortMethod::Count(_) => k.count,
        SortMethod::Time(_) => k.time,
        SortMethod::CreatedAt(_) => k.created_at,
        SortMethod::Name(_) => 0,
    }
}

/// The bytes of an element's name.
pub open spec fn name_bytes(k: KeyView) -> Seq<u8> {
    encode_utf8(k.name)
}

/// `s` from index `i` on.
pub open spec fn bytes_from(s: Seq<u8>, i: usize) -> Seq<u8> {
    s.subrange(i as int, s.len() as int)
}

/// The byte of `s` at index `i`.
pub open spec fn byte_at(s: Seq<u8>, i: usize) -> u8 {
    s[i as int]
}

proof fn lemma_bytes_from_step(s: Seq<u8>, i: usize)
    requires
        i < s.len(),
        s.len() <= usize::MAX,
    ensures
        bytes_from(s, i).len() > 0,
        bytes_from(s, i)[0] == byte_at(s, i),
        bytes_from(s, i).drop_first() =~= bytes_from(s, (i + 1) as usize),
{
}

proof fn lemma_bytes_from_start(s: Seq<u8>)
    ensures
        bytes_from(s, 0) =~= s,
{
}

proof fn lemma_bytes_from_end(s: Seq<u8>, i: usize)
    requires
        i == s.len(),
    ensures
        bytes_from(s, i).len() == 0,
{
}

/// The order of two whole numbers.
pub open spec fn int_order(a: int, b: int) -> Ordering {
    if a < b {
        Ordering::Less
    } else if a == b {
        Ordering::Equal
    } else {
        Ordering::Greater
    }
}

/// The order of two byte strings, byte by byte, a prefix first.
pub open spec fn bytes_order(a: Seq<u8>, b: Seq<u8>) -> Ordering
    decreases a.len(),
{
    if a.len() == 0 {
        if b.len() == 0 {
            Ordering::Equal
        } else {
            Ordering::Less
        }
    } else if b.len() == 0 {
        Ordering::Greater
    } else if a[0] < b[0] {
        Ordering::Less
    } else if a[0] > b[0] {
        Ordering::Greater
    } else {
        bytes_order(a.drop_first(), b.drop_first())
    }
}

/// `o` the other way round when `rev`.
pub open spec fn flip_if(rev: bool, o: Ordering) -> Ordering {
    if rev {
        match o {
            Ordering::Less => Ordering::Greater,
            Ordering::Equal => Ordering::Equal,
            Ordering::Greater => Ordering::Less,
        }
    } else {
        o
    }
}

/// Where `a` stands against `b` under method `m`. Names compare by their
/// UTF-8 bytes, as strings do.
pub open spec fn order_by(m: SortMethod, a: KeyView, b: KeyView) -> Ordering {
    flip_if(
        reversed(m),
        if m is Name {
            bytes_order(name_bytes(a), name_bytes(b))
        } else {
            int_order(key_number(m, a), key_number(m, b))
        },
    )
}

/// Compares two elements by the number `m` sorts by.
fn order_numbers(m: &SortMethod, a: &SortKey, b: &SortKey) -> (r: Ordering)
    requires
        !(*m is Name),
    ensures
        r == int_order(key_number(*m, a@), key_number(*m, b@)),
{
    match m {
        SortMethod::Id(_) => if a.id < b.id {
            Ordering::Less
        } else if a.id == b.id {
            Ordering::Equal
        } else {
            Ordering::Greater
        },
        SortMethod::Count(_) => if a.count < b.count {
            Ordering::Less
        } else if a.count == b.count {
            Ordering::Equal
        } else {
            Ordering::Greater
        },
        SortMethod::Time(_) => if a.time < b.time {
            Ordering::Less
        } else if a.time == b.time {
            Ordering::Equal
        } else {
            Ordering::Greater
        },
        SortMethod::CreatedAt(_) => if a.created_at < b.created_at {
            Ordering::Less
        } else if a.created_at == b.created_at {
            Ordering::Equal
        } else {
            Ordering::Greater
        },
        SortMethod::Name(_) => Ordering::Equal,
    }
}

/// Compares two byte strings byte by byte.
pub fn bytes_compare(a: &[u8], b: &[u8]) -> (r: Ordering)
    ensures
        r == bytes_order(a@, b@),
{
    let mut i: usize = 0;
    proof {
        lemma_bytes_from_start(a@);
        lemma_bytes_from_start(b@);
    }
    while i < a.len() && i < b.len()
        invariant
            i <= a@.len(),
            i <= b@.len(),
            bytes_order(a@, b@) == bytes_order(bytes_from(a@, i), bytes_from(b@, i)),
        decreases a@.len() - i,
    {
        proof {
            lemma_bytes_from_step(a@, i);
            lemma_bytes_from_step(b@, i);
        }
        if a[i] < b[i] {
            return Ordering::Less;
        } else if a[i] > b[i] {
            return Ordering::Greater;
        }
        i = i + 1;
    }
    if i < a.len() {
        proof {
            lemma_bytes_from_step(a@, i);
            lemma_bytes_from_end(b@, i);
        }
        Ordering::Greater
    } else if i < b.len() {
        proof {
            lemma_bytes_from_step(b@, i);
            lemma_bytes_from_end(a@, i);
        }
        Ordering::Less
    } else {
        proof {
            lemma_bytes_from_end(a@, i);
            lemma_bytes_from_end(b@, i);
        }
        Ordering::Equal
    }
}

fn flip(rev: bool, o: Ordering) -> (r: Ordering)
    ensures
        r == flip_if(rev, o),
{
    if rev {
        match o {
            Ordering::Less => Ordering::Greater,
            Ordering::Equal => Ordering::Equal,
            Ordering::Greater => Ordering::Less,
        }
    } else {
        o
    }
}

impl SortMethod {
    /// Where `a` stands against `b` in this order.
    pub fn compare(&self, a: &SortKey, b: &SortKey) -> (r: Ordering)
        ensures
            r == order_by(*self, a@, b@),
    {
        let base = match self {
            SortMethod::Name(_) => bytes_compare(a.name.as_str().as_bytes(), b.name.as_str().as_bytes()),
            _ => order_numbers(self, a, b),
        };
        flip(self.is_reversed(), base)
    }
}

/// Byte strings compare the other way round when swapped.
proof fn lemma_bytes_swap(a: Seq<u8>, b: Seq<u8>)
    ensures
        bytes_order(a, b) == flip_if(true, bytes_order(b, a)),
    decreases a.len(),
{
    if a.len() > 0 && b.len() > 0 && a[0] == b[0] {
        lemma_bytes_swap(a.drop_first(), b.drop_first());
    }
}

/// Byte strings are equal in the order only when they are equal.
proof fn lemma_bytes_equal(a: Seq<u8>, b: Seq<u8>)
    requires
        bytes_order(a, b) == Ordering::Equal,
    ensures
        a == b,
    decreases a.len(),
{
    if a.len() > 0 && b.len() > 0 {
        lemma_bytes_equal(a.drop_first(), b.drop_first());
        assert(a =~= seq![a[0]] + a.drop_first());
        assert(b =~= seq![b[0]] + b.drop_first());
    } else {
        assert(a =~= b);
    }
}

/// The order of byte strings is transitive.
proof fn lemma_bytes_trans(a: Seq<u8>, b: Seq<u8>, c: Seq<u8>)
    requires
        bytes_order(a, b) != Ordering::Greater,
        bytes_order(b, c) != Ordering::Greater,
    ensures
        bytes_order(a, c) != Ordering::Greater,
    decreases a.len(),
{
    if a.len() > 0 && b.len() > 0 && c.len() > 0 && a[0] == b[0] && b[0] == c[0] {
        lemma_bytes_trans(a.drop_first(), b.drop_first(), c.drop_first());
    }
}

/// Each order is a total order on the keys: swapping two keys flips the
/// answer, and two steps that do not go down do not go down together.
pub proof fn lemma_order_total(m: SortMethod, a: KeyView, b: KeyView, c: KeyView)
    ensures
        order_by(m, a, b) == flip_if(true, order_by(m, b, a)),
        order_by(m, a, b) != Ordering::Greater && order_by(m, b, c) != Ordering::Greater
            ==> order_by(m, a, c) != Ordering::Greater,
{
    lemma_bytes_swap(name_bytes(a), name_bytes(b));
    if order_by(m, a, b) != Ordering::Greater && order_by(m, b, c) != Ordering::Greater {
        if m is Name {
            if reversed(m) {
                lemma_bytes_swap(name_bytes(b), name_bytes(a));
                lemma_bytes_swap(name_bytes(c), name_bytes(b));
                lemma_bytes_swap(name_bytes(c), name_bytes(a));
                lemma_bytes_trans(name_bytes(c), name_bytes(b), name_bytes(a));
            } else {
                lemma_bytes_trans(name_bytes(a), name_bytes(b), name_bytes(c));
            }
        }
    }
}

/// Under the methods that sort by a number, two keys compare as their ids,
/// counts, times or creation times do, smaller first, and the other way
/// round when the method is reversed; no other field of the keys matters.
pub proof fn lemma_number_orders(rev: bool, a: KeyView, b: KeyView)
    ensures
        (order_by(SortMethod::Id(rev), a, b) == Ordering::Equal) == (a.id == b.id),
        (order_by(SortMethod::Id(rev), a, b) == Ordering::Less) == (if rev { a.id > b.id } else { a.id < b.id }),
        (order_by(SortMethod::Count(rev), a, b) == Ordering::Equal) == (a.count == b.count),
        (order_by(SortMethod::Count(rev), a, b) == Ordering::Less) == (if rev {
            a.count > b.count
        } else {
            a.count < b.count
        }),
        (order_by(SortMethod::Time(rev), a, b) == Ordering::Equal) == (a.time == b.time),
        (order_by(SortMethod::Time(rev), a, b) == Ordering::Less) == (if rev {
            a.time > b.time
        } else {
            a.time < b.time
        }),
        (order_by(SortMethod::CreatedAt(rev), a, b) == Ordering::Equal) == (a.created_at == b.created_at),
        (order_by(SortMethod::CreatedAt(rev), a, b) == Ordering::Less) == (if rev {
            a.created_at > b.created_at
        } else {
            a.created_at < b.created_at
        }),
{
}

/// Whether `a` comes strictly before `b` under `m`.
pub open spec fn before(m: SortMethod, a: KeyView, b: KeyView) -> bool {
    order_by(m, a, b) == Ordering::Less
}

/// Whether `a` does not come after `b` under `m`.
pub open spec fn not_after(m: SortMethod, a: KeyView, b: KeyView) -> bool {
    order_by(m, a, b) != Ordering::Greater
}

/// Whether `a` and `b` stand level under `m`.
pub open spec fn tied(m: SortMethod, a: KeyView, b: KeyView) -> bool {
    order_by(m, a, b) == Ordering::Equal
}

/// What the order says of two keys the other way round, and of three in a
/// row: a key not before another does not come after it the other way
/// round, a key strictly before another is neither level with it nor after
/// it, and not coming after is transitive.
pub proof fn lemma_order_steps(m: SortMethod, a: KeyView, b: KeyView, c: KeyView)
    ensures
        !before(m, a, b) ==> not_after(m, b, a),
        before(m, a, b) ==> not_after(m, a, b) && !tied(m, a, b) && !tied(m, b, a) && !not_after(m, b, a),
        not_after(m, a, b) && not_after(m, b, c) ==> not_after(m, a, c),
{
    lemma_order_total(m, a, b, c);
}

/// Whether `a` comes strictly before `b` under `m`.
pub(crate) fn precedes(m: &SortMethod, a: &SortKey, b: &SortKey) -> (r: bool)
    ensures
        r == before(*m, a@, b@),
{
    match m.compare(a, b) {
        Ordering::Less => true,
        _ => false,
    }
}

/// What element `id` of the store `nodes` is sorted by under `m`: its id,
/// and the one value `m` reads of it from the store.
pub open spec fn store_key(m: SortMethod, nodes: Map<u128, CountableView>, fuel: nat, id: CountableId) -> KeyView {
    KeyView {
        id: id.0,
        name: if m is Name {
            name_of(nodes, id)->Done_0
        } else {
            Seq::empty()
        },
        count: if m is Count {
            rec_sum(nodes, id, Quantity::Count, fuel)->Done_0
        } else {
            0
        },
        time: if m is Time {
            rec_sum(nodes, id, Quantity::Time, fuel)->Done_0
        } else {
            0
        },
        created_at: if m is CreatedAt {
            (created_at_of(nodes, id)->Done_0) as int
        } else {
            0
        },
    }
}

/// Whether the value `m` sorts by can be read of element `id`.
pub open spec fn store_key_readable(m: SortMethod, nodes: Map<u128, CountableView>, fuel: nat, id: CountableId) -> bool {
    match m {
        SortMethod::Id(_) => true,
        SortMethod::Name(_) => name_of(nodes, id) is Done,
        SortMethod::Count(_) => rec_sum(nodes, id, Quantity::Count, fuel) is Done,
        SortMethod::Time(_) => rec_sum(nodes, id, Quantity::Time, fuel) is Done,
        SortMethod::CreatedAt(_) => created_at_of(nodes, id) is Done,
    }
}

impl SortMethod {
    /// The key element `id` of `store` is sorted by under this method.
    fn key_in(&self, store: &CountableStore, id: &CountableId) -> (r: SortKey)
        requires
            store_key_readable(*self, store@, store.fuel(), *id),
        ensures
            r@ == store_key(*self, store@, store.fuel(), *id),
    {
        match self {
            SortMethod::Id(_) => SortKey { id: id.0, name: String::new(), count: 0, time: 0, created_at: 0 },
            SortMethod::Name(_) => SortKey { id: id.0, name: store.name(id), count: 0, time: 0, created_at: 0 },
            SortMethod::Count(_) => SortKey { id: id.0, name: String::new(), count: store.count(id), time: 0, created_at: 0 },
            SortMethod::Time(_) => SortKey { id: id.0, name: String::new(), count: 0, time: store.time(id), created_at: 0 },
            SortMethod::CreatedAt(_) => SortKey {
                id: id.0,
                name: String::new(),
                count: 0,
                time: 0,
                created_at: store.created_at(id),
            },
        }
    }

    /// Where element `a` of `store` stands against element `b` in this
    /// order.
    pub fn sort_by(&self, store: &CountableStore, a: &CountableId, b: &CountableId) -> (r: Ordering)
        requires
            store_key_readable(*self, store@, store.fuel(), *a),
            store_key_readable(*self, store@, store.fuel(), *b),
        ensures
            r == order_by(*self, store_key(*self, store@, store.fuel(), *a), store_key(*self, store@, store.fuel(), *b)),
    {
        let ka = self.key_in(store, a);
        let kb = self.key_in(store, b);
        self.compare(&ka, &kb)
    }
}

/// Comparing elements of a store is a total order too: swapping two
/// elements flips the answer, and two steps that do not go down do not go
/// down together, so a list sorted by it is sorted.
pub proof fn lemma_sort_by_total(
    m: SortMethod,
    nodes: Map<u128, CountableView>,
    fuel: nat,
    a: CountableId,
    b: CountableId,
    c: CountableId,
)
    ensures
        order_by(m, store_key(m, nodes, fuel, a), store_key(m, nodes, fuel, b)) == flip_if(
            true,
            order_by(m, store_key(m, nodes, fuel, b), store_key(m, nodes, fuel, a)),
        ),
        not_after(m, store_key(m, nodes, fuel, a), store_key(m, nodes, fuel, b)) && not_after(
            m,
            store_key(m, nodes, fuel, b),
            store_key(m, nodes, fuel, c),
        ) ==> not_after(m, store_key(m, nodes, fuel, a), store_key(m, nodes, fuel, c)),
{
    lemma_order_total(m, store_key(m, nodes, fuel, a), store_key(m, nodes, fuel, b), store_key(m, nodes, fuel, c));
}

} // verus!
