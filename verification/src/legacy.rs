//! The first model of counting: counters that hold a list of phases
//! directly, hunt types with a DexNav variant, and the order of the
//! counter list.
use crate::sort::{SortKey, SortMethod, order_by};
use crate::sorting::{sort_stable, stably_sorted};
use vstd::prelude::*;
use std::cmp::Ordering;

verus! {

/// The generation of a Masuda hunt.
#[derive(Debug, Clone, Copy, PartialEq, Eq, Structural)]
pub enum Masuda {
    GenIV,
    GenV,
    GenVI,
}

impl Default for Masuda {
    fn default() -> (r: Masuda)
        ensures
            r == Masuda::GenVI,
    {
        Masuda::GenVI
    }
}

/// How a phase is hunted; it decides the rolls per encounter and the odds.
#[derive(Debug, Clone, Copy, PartialEq, Eq, Structural)]
pub enum Hunttype {
    OldOdds,
    NewOdds,
    SOS,
    DexNav(i32),
    Masuda(Masuda),
}

impl Default for Hunttype {
    fn default() -> (r: Hunttype)
        ensures
            r == Hunttype::OldOdds,
    {
        Hunttype::OldOdds
    }
}

/// The rolls of `count` encounters of hunt type `ht`, with or without
/// the shiny charm. DexNav hunts have no rule for them.
pub open spec fn legacy_rolls(ht: Hunttype, count: int, has_charm: bool) -> int {
    match ht {
        Hunttype::OldOdds | Hunttype::NewOdds => if has_charm {
            count * 3
        } else {
            count
        },
        Hunttype::SOS => (if count < 10 {
            count
        } else if count < 20 {
            10 + (count - 10) * 5
        } else if count < 30 {
            60 + (count - 20) * 9
        } else {
            150 + (count - 30) * 13
        }) + (if has_charm {
            count * 2
        } else {
            0
        }),
        Hunttype::DexNav(_) => 0,
        Hunttype::Masuda(Masuda::GenIV) => if has_charm {
            count * 7
        } else {
            count * 5
        },
        Hunttype::Masuda(_) => if has_charm {
            count * 8
        } else {
            count * 6
        },
    }
}

/// Whether every step of computing the rolls stays within `i32`.
pub open spec fn rolls_fit(ht: Hunttype, count: int, has_charm: bool) -> bool {
    let fits = |v: int| i32::MIN <= v <= i32::MAX;
    match ht {
        Hunttype::SOS => {
            let base = if count < 10 {
                count
            } else if count < 20 {
                10 + (count - 10) * 5
            } else if count < 30 {
                60 + (count - 20) * 9
            } else {
                150 + (count - 30) * 13
            };
            &&& fits(count - 30) && fits((count - 30) * 13)
            &&& fits(base)
            &&& fits(count * 2)
            &&& fits(legacy_rolls(ht, count, has_charm))
        },
        _ => fits(legacy_rolls(ht, count, has_charm)),
    }
}

/// The denominator N of the one-in-N odds of `ht`.
pub open spec fn legacy_odds(ht: Hunttype) -> i32 {
    match ht {
        Hunttype::OldOdds => 8192,
        Hunttype::Masuda(Masuda::GenIV) | Hunttype::Masuda(Masuda::GenV) => 8192,
        _ => 4096,
    }
}

/// The name of `ht` as it is shown.
pub open spec fn legacy_repr(ht: Hunttype) -> Seq<char> {
    match ht {
        Hunttype::OldOdds => "Old Odds"@,
        Hunttype::NewOdds => "New Odds"@,
        Hunttype::SOS => "SOS"@,
        Hunttype::DexNav(_) => "DexNav"@,
        Hunttype::Masuda(Masuda::GenIV) => "Masuda (gen IV)"@,
        Hunttype::Masuda(Masuda::GenV) => "Masuda (gen V)"@,
        Hunttype::Masuda(Masuda::GenVI) => "Masuda (gen VI+)"@,
    }
}

/// The name of `ht` as it is stored.
pub open spec fn legacy_key(ht: Hunttype) -> Seq<char> {
    match ht {
        Hunttype::OldOdds => "OldOdds"@,
        Hunttype::NewOdds => "NewOdds"@,
        Hunttype::SOS => "SOS"@,
        Hunttype::DexNav(_) => "DexNav"@,
        Hunttype::Masuda(Masuda::GenIV) => "MasudaGenIV"@,
        Hunttype::Masuda(Masuda::GenV) => "MasudaGenV"@,
        Hunttype::Masuda(Masuda::GenVI) => "MasudaGenVI"@,
    }
}

/// The hunt type a stored name stands for; a DexNav hunt starts at
/// chain zero.
pub open spec fn legacy_from_key(s: Seq<char>) -> Option<Hunttype> {
    if s == "OldOdds"@ {
        Some(Hunttype::OldOdds)
    } else if s == "NewOdds"@ {
        Some(Hunttype::NewOdds)
    } else if s == "SOS"@ {
        Some(Hunttype::SOS)
    } else if s == "DexNav"@ {
        Some(Hunttype::DexNav(0))
    } else if s == "MasudaGenIV"@ {
        Some(Hunttype::Masuda(Masuda::GenIV))
    } else if s == "MasudaGenV"@ {
        Some(Hunttype::Masuda(Masuda::GenV))
    } else if s == "MasudaGenVI"@ {
        Some(Hunttype::Masuda(Masuda::GenVI))
    } else {
        None
    }
}

/// The message for a name that stands for no hunt type.
pub open spec fn legacy_key_error() -> Seq<char> {
    "Hunttype should be one of the following: OldOdds, NewOdds, SOS, Masuda"@
}

impl Hunttype {
    /// The rolls of `count` encounters.
    pub fn get_rolls(&self, count: i32, has_charm: bool) -> (r: i32)
        requires
            !(*self is DexNav),
            rolls_fit(*self, count as int, has_charm),
        ensures
            r == legacy_rolls(*self, count as int, has_charm),
    {
        match self {
            Hunttype::OldOdds | Hunttype::NewOdds => {
                if has_charm {
                    count * 3
                } else {
                    count
                }
            },
            Hunttype::SOS => {
                let mut rolls = if count < 10 {
                    count
                } else if count < 20 {
                    10 + (count - 10) * 5
                } else if count < 30 {
                    60 + (count - 20) * 9
                } else {
                    150 + (count - 30) * 13
                };
                if has_charm {
                    rolls = rolls + count * 2;
                }
                rolls
            },
            Hunttype::DexNav(_) => 0,
            Hunttype::Masuda(Masuda::GenIV) => {
                if has_charm {
                    count * 7
                } else {
                    count * 5
                }
            },
            Hunttype::Masuda(_) => {
                if has_charm {
                    count * 8
                } else {
                    count * 6
                }
            },
        }
    }

    /// The denominator N of the one-in-N odds.
    pub fn get_odds(&self) -> (r: i32)
        ensures
            r == legacy_odds(*self),
    {
        match self {
            Hunttype::OldOdds => 8192,
            Hunttype::Masuda(Masuda::GenIV) | Hunttype::Masuda(Masuda::GenV) => 8192,
            _ => 4096,
        }
    }

    /// The name as it is shown.
    pub fn repr(&self) -> (r: &'static str)
        ensures
            r@ == legacy_repr(*self),
    {
        match self {
            Hunttype::OldOdds => "Old Odds",
            Hunttype::NewOdds => "New Odds",
            Hunttype::SOS => "SOS",
            Hunttype::DexNav(_) => "DexNav",
            Hunttype::Masuda(Masuda::GenIV) => "Masuda (gen IV)",
            Hunttype::Masuda(Masuda::GenV) => "Masuda (gen V)",
            Hunttype::Masuda(Masuda::GenVI) => "Masuda (gen VI+)",
        }
    }

    /// The name as it is stored.
    pub fn key(&self) -> (r: &'static str)
        ensures
            r@ == legacy_key(*self),
    {
        match self {
            Hunttype::OldOdds => "OldOdds",
            Hunttype::NewOdds => "NewOdds",
            Hunttype::SOS => "SOS",
            Hunttype::DexNav(_) => "DexNav",
            Hunttype::Masuda(Masuda::GenIV) => "MasudaGenIV",
            Hunttype::Masuda(Masuda::GenV) => "MasudaGenV",
            Hunttype::Masuda(Masuda::GenVI) => "MasudaGenVI",
        }
    }

    /// The hunt type a stored name stands for.
    pub fn try_from(value: String) -> (r: Result<Hunttype, String>)
        ensures
            match legacy_from_key(value@) {
                Some(h) => r == Ok::<Hunttype, String>(h),
                None => r matches Err(e) && e@ == legacy_key_error(),
            },
    {
        let v = value;
        if v == "OldOdds".to_owned() {
            Ok(Hunttype::OldOdds)
        } else if v == "NewOdds".to_owned() {
            Ok(Hunttype::NewOdds)
        } else if v == "SOS".to_owned() {
            Ok(Hunttype::SOS)
        } else if v == "DexNav".to_owned() {
            Ok(Hunttype::DexNav(0))
        } else if v == "MasudaGenIV".to_owned() {
            Ok(Hunttype::Masuda(Masuda::GenIV))
        } else if v == "MasudaGenV".to_owned() {
            Ok(Hunttype::Masuda(Masuda::GenV))
        } else if v == "MasudaGenVI".to_owned() {
            Ok(Hunttype::Masuda(Masuda::GenVI))
        } else {
            Err("Hunttype should be one of the following: OldOdds, NewOdds, SOS, Masuda".to_owned())
        }
    }
}

/// A stored name gives back the hunt type it was taken from, but for the
/// chain of a DexNav hunt, which starts again at zero.
pub proof fn lemma_key_round_trip(ht: Hunttype)
    ensures
        legacy_from_key(legacy_key(ht)) == Some(match ht {
            Hunttype::DexNav(_) => Hunttype::DexNav(0),
            _ => ht,
        }),
{
    reveal_strlit("OldOdds");
    reveal_strlit("NewOdds");
    reveal_strlit("SOS");
    reveal_strlit("DexNav");
    reveal_strlit("MasudaGenIV");
    reveal_strlit("MasudaGenV");
    reveal_strlit("MasudaGenVI");
    assert("MasudaGenVI"@.len() != "MasudaGenV"@.len() && "MasudaGenVI"@[9] != "MasudaGenIV"@[9]);
    assert("MasudaGenV"@.len() != "MasudaGenIV"@.len());
    assert("OldOdds"@[0] != "NewOdds"@[0] && "OldOdds"@[0] != "DexNav"@[0] && "NewOdds"@[0] != "DexNav"@[0]);
    assert("OldOdds"@[0] != "MasudaGenIV"@[0] && "NewOdds"@[0] != "MasudaGenIV"@[0] && "DexNav"@[0] != "MasudaGenIV"@[0]);
    assert("OldOdds"@.len() != "SOS"@.len() && "SOS"@.len() != "DexNav"@.len() && "SOS"@.len() != "MasudaGenV"@.len());
    assert("OldOdds"@[0] != "MasudaGenV"@[0] && "NewOdds"@[0] != "MasudaGenV"@[0] && "DexNav"@[0] != "MasudaGenV"@[0]);
    assert("OldOdds"@[0] != "MasudaGenVI"@[0] && "NewOdds"@[0] != "MasudaGenVI"@[0] && "DexNav"@[0] != "MasudaGenVI"@[0]);
    assert("SOS"@.len() != "MasudaGenIV"@.len() && "SOS"@.len() != "MasudaGenVI"@.len());
}

/// The kinds of element of the first model.
#[derive(Debug, Clone, Copy, PartialEq, Eq, Structural)]
pub enum CountableKind {
    Counter,
    Phase,
}

impl Default for CountableKind {
    fn default() -> (r: CountableKind)
        ensures
            r == CountableKind::Counter,
    {
        CountableKind::Counter
    }
}

impl CountableKind {
    /// The name of the kind.
    pub fn to_string(&self) -> (r: String)
        ensures
            r@ == (match *self {
                CountableKind::Counter => "Counter"@,
                CountableKind::Phase => "Phase"@,
            }),
    {
        match self {
            CountableKind::Counter => "Counter".to_owned(),
            CountableKind::Phase => "Phase".to_owned(),
        }
    }
}

/// The order of the counter list, and whether it is reversed.
#[derive(Debug, Clone, Copy, PartialEq, Eq, Structural)]
pub enum SortCountable {
    Id(bool),
    Name(bool),
    Count(bool),
    Time(bool),
    CreatedAt(bool),
}

/// The same order as a method of the newer list.
pub open spec fn as_method(s: SortCountable) -> SortMethod {
    match s {
        SortCountable::Id(b) => SortMethod::Id(b),
        SortCountable::Name(b) => SortMethod::Name(b),
        SortCountable::Count(b) => SortMethod::Count(b),
        SortCountable::Time(b) => SortMethod::Time(b),
        SortCountable::CreatedAt(b) => SortMethod::CreatedAt(b),
    }
}

/// Whether `s` is reversed.
pub open spec fn sort_reversed(s: SortCountable) -> bool {
    match s {
        SortCountable::Id(b) => b,
        SortCountable::Name(b) => b,
        SortCountable::Count(b) => b,
        SortCountable::Time(b) => b,
        SortCountable::CreatedAt(b) => b,
    }
}

/// `s` the other way round.
pub open spec fn sort_toggled(s: SortCountable) -> SortCountable {
    match s {
        SortCountable::Id(b) => SortCountable::Id(!b),
        SortCountable::Name(b) => SortCountable::Name(!b),
        SortCountable::Count(b) => SortCountable::Count(!b),
        SortCountable::Time(b) => SortCountable::Time(!b),
        SortCountable::CreatedAt(b) => SortCountable::CreatedAt(!b),
    }
}

/// The order a stored name stands for, ascending; anything else is by id.
pub open spec fn sort_of(s: Seq<char>) -> SortCountable {
    if s == "Name"@ {
        SortCountable::Name(false)
    } else if s == "Count"@ {
        SortCountable::Count(false)
    } else if s == "Time"@ {
        SortCountable::Time(false)
    } else if s == "CreatedAt"@ {
        SortCountable::CreatedAt(false)
    } else {
        SortCountable::Id(false)
    }
}

impl SortCountable {
    pub fn toggle(&self) -> (r: SortCountable)
        ensures
            r == sort_toggled(*self),
    {
        match self {
            SortCountable::Id(b) => SortCountable::Id(!*b),
            SortCountable::Name(b) => SortCountable::Name(!*b),
            SortCountable::Count(b) => SortCountable::Count(!*b),
            SortCountable::Time(b) => SortCountable::Time(!*b),
            SortCountable::CreatedAt(b) => SortCountable::CreatedAt(!*b),
        }
    }

    pub fn is_reversed(&self) -> (r: bool)
        ensures
            r == sort_reversed(*self),
    {
        match self {
            SortCountable::Id(b) => *b,
            SortCountable::Name(b) => *b,
            SortCountable::Count(b) => *b,
            SortCountable::Time(b) => *b,
            SortCountable::CreatedAt(b) => *b,
        }
    }

    /// The order a stored name stands for.
    pub fn from_key(value: &str) -> (r: SortCountable)
        ensures
            r == sort_of(value@),
    {
        let v = value.to_owned();
        if v == "Name".to_owned() {
            SortCountable::Name(false)
        } else if v == "Count".to_owned() {
            SortCountable::Count(false)
        } else if v == "Time".to_owned() {
            SortCountable::Time(false)
        } else if v == "CreatedAt".to_owned() {
            SortCountable::CreatedAt(false)
        } else {
            SortCountable::Id(false)
        }
    }

    /// The stored name of the order.
    pub fn key(self) -> (r: &'static str)
        ensures
            r@ == (match self {
                SortCountable::Id(_) => "Id"@,
                SortCountable::Name(_) => "Name"@,
                SortCountable::Count(_) => "Count"@,
                SortCountable::Time(_) => "Time"@,
                SortCountable::CreatedAt(_) => "CreatedAt"@,
            }),
    {
        match self {
            SortCountable::Id(_) => "Id",
            SortCountable::Name(_) => "Name",
            SortCountable::Count(_) => "Count",
            SortCountable::Time(_) => "Time",
            SortCountable::CreatedAt(_) => "CreatedAt",
        }
    }

    pub(crate) fn method(self) -> (r: SortMethod)
        ensures
            r == as_method(self),
    {
        match self {
            SortCountable::Id(b) => SortMethod::Id(b),
            SortCountable::Name(b) => SortMethod::Name(b),
            SortCountable::Count(b) => SortMethod::Count(b),
            SortCountable::Time(b) => SortMethod::Time(b),
            SortCountable::CreatedAt(b) => SortMethod::CreatedAt(b),
        }
    }

    /// Where `a` stands against `b` in this order.
    pub fn compare(&self, a: &SortKey, b: &SortKey) -> (r: Ordering)
        ensures
            r == order_by(as_method(*self), a@, b@),
    {
        self.method().compare(a, b)
    }

    /// The entries of `list` in this order, entries that stand level kept
    /// in the order they came.
    pub fn apply<T>(&self, list: Vec<(SortKey, T)>) -> (r: Vec<(SortKey, T)>)
        ensures
            exists|p: Seq<int>| stably_sorted(as_method(*self), list@, r@, p),
    {
        sort_stable(self.method(), list)
    }
}

/// Reversing twice gives the order back, and reversing flips the
/// direction.
pub proof fn lemma_sort_toggle(s: SortCountable)
    ensures
        sort_toggled(sort_toggled(s)) == s,
        sort_reversed(sort_toggled(s)) == !sort_reversed(s),
{
}

/// A phase of the first model: its own count, time in milliseconds and
/// hunt.
#[derive(Debug)]
pub struct Phase {
    pub uuid: u128,
    pub owner_uuid: u128,
    pub parent_uuid: u128,
    pub name: String,
    pub count: i32,
    pub time: i64,
    pub is_active: bool,
    pub hunt_type: Hunttype,
    pub has_charm: bool,
    pub success: bool,
    pub created_at: i64,
}

impl Clone for Phase {
    fn clone(&self) -> (r: Self)
        ensures
            r == *self,
    {
        Phase {
            uuid: self.uuid,
            owner_uuid: self.owner_uuid,
            parent_uuid: self.parent_uuid,
            name: self.name.clone(),
            count: self.count,
            time: self.time,
            is_active: self.is_active,
            hunt_type: self.hunt_type,
            has_charm: self.has_charm,
            success: self.success,
            created_at: self.created_at,
        }
    }
}

impl Phase {
    /// A new phase named `name` under the counter `parent_uuid`, with the
    /// id `uuid`, created at `now`: nothing counted, hunted at new odds.
    pub fn new_with(name: String, parent_uuid: u128, owner_uuid: u128, uuid: u128, now: i64) -> (r: Phase)
        ensures
            r.uuid == uuid && r.owner_uuid == owner_uuid && r.parent_uuid == parent_uuid,
            r.name@ == name@,
            r.count == 0 && r.time == 0 && !r.is_active && !r.has_charm && !r.success,
            r.hunt_type == Hunttype::NewOdds,
            r.created_at == now,
    {
        Phase {
            uuid,
            owner_uuid,
            parent_uuid,
            name,
            count: 0,
            time: 0,
            is_active: false,
            hunt_type: Hunttype::NewOdds,
            has_charm: false,
            success: false,
            created_at: now,
        }
    }

    /// The rolls of this phase's count under its hunt type and charm.
    pub fn get_rolls(&self) -> (r: i32)
        requires
            !(self.hunt_type is DexNav),
            rolls_fit(self.hunt_type, self.count as int, self.has_charm),
        ensures
            r == legacy_rolls(self.hunt_type, self.count as int, self.has_charm),
    {
        self.hunt_type.get_rolls(self.count, self.has_charm)
    }

    pub fn add_count(&mut self, count: i32)
        requires
            i32::MIN <= old(self).count + count <= i32::MAX,
        ensures
            *final(self) == (Phase { count: (old(self).count + count) as i32, ..*old(self) }),
    {
        self.count = self.count + count;
    }

    /// Adds `dur` milliseconds; a span holds at most `i64::MAX` either way.
    pub fn add_time(&mut self, dur: i64)
        requires
            -i64::MAX <= old(self).time + dur <= i64::MAX,
        ensures
            *final(self) == (Phase { time: (old(self).time + dur) as i64, ..*old(self) }),
    {
        self.time = self.time + dur;
    }

    pub fn toggle_active(&mut self)
        ensures
            *final(self) == (Phase { is_active: !old(self).is_active, ..*old(self) }),
    {
        self.is_active = !self.is_active;
    }

    pub fn toggle_success(&mut self)
        ensures
            *final(self) == (Phase { success: !old(self).success, ..*old(self) }),
    {
        self.success = !self.success;
    }

    /// One for a phase marked a success, zero otherwise.
    pub fn get_completed(&self) -> (r: usize)
        ensures
            r == (if self.success { 1usize } else { 0usize }),
    {
        if self.success {
            1
        } else {
            0
        }
    }
}

/// The counts of `ps`.
pub open spec fn counts(ps: Seq<Phase>) -> Seq<int> {
    ps.map_values(|p: Phase| p.count as int)
}

/// The times of `ps`, in milliseconds.
pub open spec fn times(ps: Seq<Phase>) -> Seq<int> {
    ps.map_values(|p: Phase| p.time as int)
}

/// The sum of the first `n` of `v`.
pub open spec fn total(v: Seq<int>, n: nat) -> int
    decreases n,
{
    if n == 0 {
        0
    } else {
        total(v, (n - 1) as nat) + v[n - 1]
    }
}

/// Whether every partial sum of the first `n` of `v` lies within `lo` and
/// `hi`.
pub open spec fn sums_within(v: Seq<int>, n: nat, lo: int, hi: int) -> bool
    decreases n,
{
    if n == 0 {
        true
    } else {
        sums_within(v, (n - 1) as nat, lo, hi) && lo <= total(v, n) <= hi
    }
}

/// What taking `diff` from the first `n` of `v`, the last first, leaves:
/// a value below the running difference becomes zero and the difference
/// shrinks by it; the first value that can bear the rest takes it.
pub open spec fn take_back(v: Seq<int>, n: nat, diff: int) -> Seq<int>
    decreases n,
{
    if n == 0 {
        v
    } else if v[n - 1] < diff {
        take_back(v.update(n - 1, 0), (n - 1) as nat, diff - v[n - 1])
    } else {
        v.update(n - 1, v[n - 1] - diff)
    }
}

/// Whether each step of `take_back` stays within `lo` and `hi`.
pub open spec fn take_back_fits(v: Seq<int>, n: nat, diff: int, lo: int, hi: int) -> bool
    decreases n,
{
    if n == 0 {
        true
    } else if v[n - 1] < diff {
        lo <= diff - v[n - 1] <= hi && take_back_fits(v.update(n - 1, 0), (n - 1) as nat, diff - v[n - 1], lo, hi)
    } else {
        lo <= v[n - 1] - diff <= hi
    }
}

/// `ps` with their counts set to `v`.
pub open spec fn with_counts(ps: Seq<Phase>, v: Seq<int>) -> Seq<Phase> {
    Seq::new(ps.len(), |i: int| Phase { count: v[i] as i32, ..ps[i] })
}

/// `ps` with their times set to `v`.
pub open spec fn with_times(ps: Seq<Phase>, v: Seq<int>) -> Seq<Phase> {
    Seq::new(ps.len(), |i: int| Phase { time: v[i] as i64, ..ps[i] })
}

/// A counter of the first model as it is stored: its phases in order.
#[derive(Debug)]
pub struct SerCounter {
    pub uuid: u128,
    pub owner_uuid: u128,
    pub name: String,
    pub phase_list: Vec<Phase>,
    pub created_at: i64,
}

proof fn lemma_sums_prefix(v: Seq<int>, k: nat, n: nat, lo: int, hi: int)
    requires
        k <= n,
        sums_within(v, n, lo, hi),
    ensures
        sums_within(v, k, lo, hi),
    decreases n - k,
{
    if k < n {
        lemma_sums_prefix(v, k, (n - 1) as nat, lo, hi);
    }
}

/// The counts of the phases added up.
pub(crate) fn phases_count(ps: &Vec<Phase>) -> (r: i32)
    requires
        sums_within(counts(ps@), ps@.len(), i32::MIN as int, i32::MAX as int),
    ensures
        r == total(counts(ps@), ps@.len()),
{
    let ghost v = counts(ps@);
    let mut sum: i32 = 0;
    let mut i: usize = 0;
    while i < ps.len()
        invariant
            v == counts(ps@),
            i <= ps@.len(),
            sum == total(v, i as nat),
            sums_within(v, ps@.len(), i32::MIN as int, i32::MAX as int),
        decreases ps@.len() - i,
    {
        proof {
            lemma_sums_prefix(v, (i + 1) as nat, ps@.len(), i32::MIN as int, i32::MAX as int);
        }
        sum = sum + ps[i].count;
        i = i + 1;
    }
    sum
}

/// The times of the phases added up, in milliseconds.
pub(crate) fn phases_time(ps: &Vec<Phase>) -> (r: i64)
    requires
        sums_within(times(ps@), ps@.len(), -i64::MAX as int, i64::MAX as int),
    ensures
        r == total(times(ps@), ps@.len()),
{
    let ghost v = times(ps@);
    let mut sum: i64 = 0;
    let mut i: usize = 0;
    while i < ps.len()
        invariant
            v == times(ps@),
            i <= ps@.len(),
            sum == total(v, i as nat),
            sums_within(v, ps@.len(), -i64::MAX as int, i64::MAX as int),
        decreases ps@.len() - i,
    {
        proof {
            lemma_sums_prefix(v, (i + 1) as nat, ps@.len(), -i64::MAX as int, i64::MAX as int);
        }
        sum = sum + ps[i].time;
        i = i + 1;
    }
    sum
}

/// Takes `diff` out of the counts of the phases, the last first, as
/// `take_back` describes.
pub(crate) fn take_counts(ps: &mut Vec<Phase>, diff: i32)
    requires
        take_back_fits(counts(old(ps)@), old(ps)@.len(), diff as int, i32::MIN as int, i32::MAX as int),
    ensures
        final(ps)@ == with_counts(old(ps)@, take_back(counts(old(ps)@), old(ps)@.len(), diff as int)),
{
    let ghost ps0 = ps@;
    let ghost target = take_back(counts(ps0), ps0.len(), diff as int);
    let mut i: usize = ps.len();
    proof {
        assert forall|j: int| 0 <= j < ps0.len() implies #[trigger] ps@[j] == (Phase { count: ps@[j].count, ..ps0[j] }) by {
        }
    }
    let mut d: i32 = diff;
    while i > 0
        invariant
            ps0 == old(ps)@,
            target == take_back(counts(ps0), ps0.len(), diff as int),
            i <= ps0.len(),
            ps@.len() == ps0.len(),
            target == take_back(counts(ps@), i as nat, d as int),
            take_back_fits(counts(ps@), i as nat, d as int, i32::MIN as int, i32::MAX as int),
            forall|j: int| 0 <= j < ps0.len() ==> #[trigger] ps@[j] == (Phase { count: ps@[j].count, ..ps0[j] }),
        decreases i,
    {
        let c = ps[i - 1].count;
        let mut p = ps[i - 1].clone();
        let ghost before = ps@;
        if c < d {
            p.count = 0;
            ps.set(i - 1, p);
            proof {
                assert(counts(ps@) =~= counts(before).update(i - 1, 0));
            }
            d = d - c;
            i = i - 1;
        } else {
            p.count = c - d;
            ps.set(i - 1, p);
            proof {
                assert(counts(ps@) =~= counts(before).update(i - 1, c - d));
                assert(target == counts(ps@));
            }
            proof {
                assert(ps@ =~= with_counts(ps0, target));
                assert(ps0 == old(ps)@);
            }
            return;
        }
    }
    proof {
        assert(target == counts(ps@));
        assert(ps@ =~= with_counts(ps0, target));
    }
}

/// Takes `diff` out of the times of the phases, the last first, as
/// `take_back` describes.
pub(crate) fn take_times(ps: &mut Vec<Phase>, diff: i64)
    requires
        take_back_fits(times(old(ps)@), old(ps)@.len(), diff as int, -i64::MAX as int, i64::MAX as int),
    ensures
        final(ps)@ == with_times(old(ps)@, take_back(times(old(ps)@), old(ps)@.len(), diff as int)),
{
    let ghost ps0 = ps@;
    let ghost target = take_back(times(ps0), ps0.len(), diff as int);
    let mut i: usize = ps.len();
    proof {
        assert forall|j: int| 0 <= j < ps0.len() implies #[trigger] ps@[j] == (Phase { time: ps@[j].time, ..ps0[j] }) by {
        }
    }
    let mut d: i64 = diff;
    while i > 0
        invariant
            ps0 == old(ps)@,
            target == take_back(times(ps0), ps0.len(), diff as int),
            i <= ps0.len(),
            ps@.len() == ps0.len(),
            target == take_back(times(ps@), i as nat, d as int),
            take_back_fits(times(ps@), i as nat, d as int, -i64::MAX as int, i64::MAX as int),
            forall|j: int| 0 <= j < ps0.len() ==> #[trigger] ps@[j] == (Phase { time: ps@[j].time, ..ps0[j] }),
        decreases i,
    {
        let c = ps[i - 1].time;
        let mut p = ps[i - 1].clone();
        let ghost before = ps@;
        if c < d {
            p.time = 0;
            ps.set(i - 1, p);
            proof {
                assert(times(ps@) =~= times(before).update(i - 1, 0));
            }
            d = d - c;
            i = i - 1;
        } else {
            p.time = c - d;
            ps.set(i - 1, p);
            proof {
                assert(times(ps@) =~= times(before).update(i - 1, c - d));
                assert(target == times(ps@));
            }
            proof {
                assert(ps@ =~= with_times(ps0, target));
                assert(ps0 == old(ps)@);
            }
            return;
        }
    }
    proof {
        assert(target == times(ps@));
        assert(ps@ =~= with_times(ps0, target));
    }
}

/// The rolls of the phases added up.
pub(crate) fn phases_rolls(ps: &Vec<Phase>) -> (r: i32)
    requires
        forall|i: int| 0 <= i < ps@.len() ==> !(#[trigger] ps@[i].hunt_type is DexNav)
            && rolls_fit(ps@[i].hunt_type, ps@[i].count as int, ps@[i].has_charm),
        sums_within(rolls_of(ps@), ps@.len(), i32::MIN as int, i32::MAX as int),
    ensures
        r == total(rolls_of(ps@), ps@.len()),
{
    let ghost v = rolls_of(ps@);
    let mut sum: i32 = 0;
    let mut i: usize = 0;
    while i < ps.len()
        invariant
            v == rolls_of(ps@),
            i <= ps@.len(),
            sum == total(v, i as nat),
            sums_within(v, ps@.len(), i32::MIN as int, i32::MAX as int),
            forall|i: int| 0 <= i < ps@.len() ==> !(#[trigger] ps@[i].hunt_type is DexNav)
                && rolls_fit(ps@[i].hunt_type, ps@[i].count as int, ps@[i].has_charm),
        decreases ps@.len() - i,
    {
        proof {
            lemma_sums_prefix(v, (i + 1) as nat, ps@.len(), i32::MIN as int, i32::MAX as int);
        }
        let r = ps[i].get_rolls();
        sum = sum + r;
        i = i + 1;
    }
    sum
}

/// Gives every phase the hunt type `hunt_type`.
pub(crate) fn set_phases_hunt_type(ps: &mut Vec<Phase>, hunt_type: Hunttype)
    ensures
        final(ps)@.len() == old(ps)@.len(),
        forall|i: int| 0 <= i < old(ps)@.len() ==> #[trigger] final(ps)@[i] == (Phase { hunt_type, ..old(ps)@[i] }),
{
    let mut i: usize = 0;
    while i < ps.len()
        invariant
            i <= ps@.len(),
            ps@.len() == old(ps)@.len(),
            forall|j: int| 0 <= j < i ==> #[trigger] ps@[j] == (Phase { hunt_type, ..old(ps)@[j] }),
            forall|j: int| i <= j < ps@.len() ==> #[trigger] ps@[j] == old(ps)@[j],
        decreases ps@.len() - i,
    {
        let mut p = ps[i].clone();
        p.hunt_type = hunt_type;
        ps.set(i, p);
        i = i + 1;
    }
}

/// Gives every phase the charm or takes it away.
pub(crate) fn set_phases_charm(ps: &mut Vec<Phase>, set: bool)
    ensures
        final(ps)@.len() == old(ps)@.len(),
        forall|i: int| 0 <= i < old(ps)@.len() ==> #[trigger] final(ps)@[i] == (Phase { has_charm: set, ..old(ps)@[i] }),
{
    let mut i: usize = 0;
    while i < ps.len()
        invariant
            i <= ps@.len(),
            ps@.len() == old(ps)@.len(),
            forall|j: int| 0 <= j < i ==> #[trigger] ps@[j] == (Phase { has_charm: set, ..old(ps)@[j] }),
            forall|j: int| i <= j < ps@.len() ==> #[trigger] ps@[j] == old(ps)@[j],
        decreases ps@.len() - i,
    {
        let mut p = ps[i].clone();
        p.has_charm = set;
        ps.set(i, p);
        i = i + 1;
    }
}

/// Flips the success mark of every phase.
pub(crate) fn toggle_phases_success(ps: &mut Vec<Phase>)
    ensures
        final(ps)@.len() == old(ps)@.len(),
        forall|i: int| 0 <= i < old(ps)@.len() ==> #[trigger] final(ps)@[i] == (Phase {
            success: !old(ps)@[i].success,
            ..old(ps)@[i]
        }),
{
    let mut i: usize = 0;
    while i < ps.len()
        invariant
            i <= ps@.len(),
            ps@.len() == old(ps)@.len(),
            forall|j: int| 0 <= j < i ==> #[trigger] ps@[j] == (Phase { success: !old(ps)@[j].success, ..old(ps)@[j] }),
            forall|j: int| i <= j < ps@.len() ==> #[trigger] ps@[j] == old(ps)@[j],
        decreases ps@.len() - i,
    {
        let mut p = ps[i].clone();
        p.toggle_success();
        ps.set(i, p);
        i = i + 1;
    }
}

/// Adds `dur` milliseconds to the last phase, where there is one.
pub(crate) fn add_last_time(ps: &mut Vec<Phase>, dur: i64)
    requires
        old(ps)@.len() > 0 ==> -i64::MAX <= old(ps)@.last().time + dur <= i64::MAX,
    ensures
        old(ps)@.len() == 0 ==> final(ps)@ == old(ps)@,
        old(ps)@.len() > 0 ==> final(ps)@ == old(ps)@.update(
            old(ps)@.len() - 1,
            Phase { time: (old(ps)@.last().time + dur) as i64, ..old(ps)@.last() },
        ),
{
    let n = ps.len();
    if n > 0 {
        let mut p = ps[n - 1].clone();
        p.add_time(dur);
        ps.set(n - 1, p);
    }
}

/// The hunt type of the last phase, the default where there is none.
pub(crate) fn last_hunt_type(ps: &Vec<Phase>) -> (r: Hunttype)
    ensures
        r == (if ps@.len() > 0 { ps@.last().hunt_type } else { Hunttype::OldOdds }),
{
    let n = ps.len();
    if n > 0 {
        ps[n - 1].hunt_type
    } else {
        Hunttype::OldOdds
    }
}

/// Whether the last phase has the charm; not where there is none.
pub(crate) fn last_charm(ps: &Vec<Phase>) -> (r: bool)
    ensures
        r == (ps@.len() > 0 && ps@.last().has_charm),
{
    let n = ps.len();
    n > 0 && ps[n - 1].has_charm
}

/// The rolls of the last phase, or 8192 where there is none; the
/// counter's odds are read this way.
pub(crate) fn last_rolls(ps: &Vec<Phase>) -> (r: i32)
    requires
        ps@.len() > 0 ==> !(ps@.last().hunt_type is DexNav)
            && rolls_fit(ps@.last().hunt_type, ps@.last().count as int, ps@.last().has_charm),
    ensures
        r == (if ps@.len() > 0 {
            legacy_rolls(ps@.last().hunt_type, ps@.last().count as int, ps@.last().has_charm)
        } else {
            8192
        }),
{
    let n = ps.len();
    if n > 0 {
        ps[n - 1].get_rolls()
    } else {
        8192
    }
}

impl SerCounter {
    /// The counts of the phases added up.
    pub fn get_count(&self) -> (r: i32)
        requires
            sums_within(counts(self.phase_list@), self.phase_list@.len(), i32::MIN as int, i32::MAX as int),
        ensures
            r == total(counts(self.phase_list@), self.phase_list@.len()),
    {
        phases_count(&self.phase_list)
    }

    /// The times of the phases added up, in milliseconds.
    pub fn get_time(&self) -> (r: i64)
        requires
            sums_within(times(self.phase_list@), self.phase_list@.len(), -i64::MAX as int, i64::MAX as int),
        ensures
            r == total(times(self.phase_list@), self.phase_list@.len()),
    {
        phases_time(&self.phase_list)
    }

    /// Sets the count of the counter to `count` by taking the difference
    /// out of its phases from the last one back.
    pub fn set_count(&mut self, count: i32)
        requires
            sums_within(counts(old(self).phase_list@), old(self).phase_list@.len(), i32::MIN as int, i32::MAX as int),
            i32::MIN <= total(counts(old(self).phase_list@), old(self).phase_list@.len()) - count <= i32::MAX,
            take_back_fits(counts(old(self).phase_list@), old(self).phase_list@.len(),
                total(counts(old(self).phase_list@), old(self).phase_list@.len()) - count, i32::MIN as int, i32::MAX as int),
        ensures
            final(self).phase_list@ == with_counts(old(self).phase_list@, take_back(counts(old(self).phase_list@),
                old(self).phase_list@.len(), total(counts(old(self).phase_list@), old(self).phase_list@.len()) - count)),
    {
        let diff = phases_count(&self.phase_list) - count;
        take_counts(&mut self.phase_list, diff);
    }

    /// Takes `count` out of the phases from the last one back, as
    /// `set_count` does with its difference.
    pub fn add_count(&mut self, count: i32)
        requires
            take_back_fits(counts(old(self).phase_list@), old(self).phase_list@.len(), count as int, i32::MIN as int, i32::MAX as int),
        ensures
            final(self).phase_list@ == with_counts(old(self).phase_list@, take_back(counts(old(self).phase_list@),
                old(self).phase_list@.len(), count as int)),
    {
        take_counts(&mut self.phase_list, count);
    }

    /// Sets the time of the counter to `dur` milliseconds by taking the
    /// difference out of its phases from the last one back.
    pub fn set_time(&mut self, dur: i64)
        requires
            sums_within(times(old(self).phase_list@), old(self).phase_list@.len(), -i64::MAX as int, i64::MAX as int),
            -i64::MAX <= total(times(old(self).phase_list@), old(self).phase_list@.len()) - dur <= i64::MAX,
            take_back_fits(times(old(self).phase_list@), old(self).phase_list@.len(),
                total(times(old(self).phase_list@), old(self).phase_list@.len()) - dur, -i64::MAX as int, i64::MAX as int),
        ensures
            final(self).phase_list@ == with_times(old(self).phase_list@, take_back(times(old(self).phase_list@),
                old(self).phase_list@.len(), total(times(old(self).phase_list@), old(self).phase_list@.len()) - dur)),
    {
        let diff = phases_time(&self.phase_list) - dur;
        take_times(&mut self.phase_list, diff);
    }

    /// Adds `dur` milliseconds to the last phase, where there is one.
    pub fn add_time(&mut self, dur: i64)
        requires
            old(self).phase_list@.len() > 0 ==> -i64::MAX <= old(self).phase_list@.last().time + dur <= i64::MAX,
        ensures
            old(self).phase_list@.len() == 0 ==> final(self).phase_list@ == old(self).phase_list@,
            old(self).phase_list@.len() > 0 ==> final(self).phase_list@ == old(self).phase_list@.update(
                old(self).phase_list@.len() - 1,
                Phase { time: (old(self).phase_list@.last().time + dur) as i64, ..old(self).phase_list@.last() },
            ),
    {
        add_last_time(&mut self.phase_list, dur);
    }

    /// The rolls of the phases added up.
    pub fn get_rolls(&self) -> (r: i32)
        requires
            forall|i: int| 0 <= i < self.phase_list@.len() ==> !(#[trigger] self.phase_list@[i].hunt_type is DexNav)
                && rolls_fit(self.phase_list@[i].hunt_type, self.phase_list@[i].count as int, self.phase_list@[i].has_charm),
            sums_within(rolls_of(self.phase_list@), self.phase_list@.len(), i32::MIN as int, i32::MAX as int),
        ensures
            r == total(rolls_of(self.phase_list@), self.phase_list@.len()),
    {
        phases_rolls(&self.phase_list)
    }

    /// The rolls of the last phase, or 8192 where there is none; the
    /// counter's odds are read this way.
    pub fn get_odds(&self) -> (r: i32)
        requires
            self.phase_list@.len() > 0 ==> !(self.phase_list@.last().hunt_type is DexNav)
                && rolls_fit(self.phase_list@.last().hunt_type, self.phase_list@.last().count as int, self.phase_list@.last().has_charm),
        ensures
            r == (if self.phase_list@.len() > 0 {
                legacy_rolls(self.phase_list@.last().hunt_type, self.phase_list@.last().count as int, self.phase_list@.last().has_charm)
            } else {
                8192
            }),
    {
        last_rolls(&self.phase_list)
    }

    /// The hunt type of the last phase, the default where there is none.
    pub fn get_hunt_type(&self) -> (r: Hunttype)
        ensures
            r == (if self.phase_list@.len() > 0 { self.phase_list@.last().hunt_type } else { Hunttype::OldOdds }),
    {
        last_hunt_type(&self.phase_list)
    }

    /// Whether the last phase has the charm; not where there is none.
    pub fn has_charm(&self) -> (r: bool)
        ensures
            r == (self.phase_list@.len() > 0 && self.phase_list@.last().has_charm),
    {
        last_charm(&self.phase_list)
    }

    /// Gives every phase the hunt type `hunt_type`.
    pub fn set_hunt_type(&mut self, hunt_type: Hunttype)
        ensures
            final(self).phase_list@.len() == old(self).phase_list@.len(),
            forall|i: int| 0 <= i < old(self).phase_list@.len() ==> #[trigger] final(self).phase_list@[i] == (Phase { hunt_type, ..old(self).phase_list@[i] }),
    {
        set_phases_hunt_type(&mut self.phase_list, hunt_type);
    }

    /// Gives every phase the charm or takes it away.
    pub fn set_charm(&mut self, set: bool)
        ensures
            final(self).phase_list@.len() == old(self).phase_list@.len(),
            forall|i: int| 0 <= i < old(self).phase_list@.len() ==> #[trigger] final(self).phase_list@[i] == (Phase { has_charm: set, ..old(self).phase_list@[i] }),
    {
        set_phases_charm(&mut self.phase_list, set);
    }

    /// Flips the success mark of every phase.
    pub fn toggle_success(&mut self)
        ensures
            final(self).phase_list@.len() == old(self).phase_list@.len(),
            forall|i: int| 0 <= i < old(self).phase_list@.len() ==> #[trigger] final(self).phase_list@[i] == (Phase {
                success: !old(self).phase_list@[i].success,
                ..old(self).phase_list@[i]
            }),
    {
        toggle_phases_success(&mut self.phase_list);
    }
}

/// The rolls of `ps`.
pub open spec fn rolls_of(ps: Seq<Phase>) -> Seq<int> {
    ps.map_values(|p: Phase| legacy_rolls(p.hunt_type, p.count as int, p.has_charm))
}

} // verus!
