//! The elements of the counting tree: counters that group other elements,
//! phases that hold the actual count and time, and the hunt types that
//! decide the odds of a phase.
use crate::clock;
use crate::error::AppError;
use vstd::prelude::*;
use vstd::std_specs::cmp::PartialEqSpecImpl;

verus! {

/// The id of an element of the tree: the 128 bits of its UUID.
#[derive(Debug, Clone, Copy, Default, PartialEq, Eq, Structural, Hash, PartialOrd, Ord)]
pub struct CountableId(pub u128);

impl From<u128> for CountableId {
    fn from(value: u128) -> (r: CountableId)
        ensures
            r.0 == value,
    {
        CountableId(value)
    }
}

impl vstd::std_specs::convert::FromSpecImpl<u128> for CountableId {
    open spec fn obeys_from_spec() -> bool {
        true
    }

    open spec fn from_spec(v: u128) -> CountableId {
        CountableId(v)
    }
}

/// The generation whose Masuda method a hunt uses.
#[derive(Debug, Clone, Copy, Default, PartialEq, Eq, Structural)]
pub enum Masuda {
    GenIV,
    GenV,
    #[default]
    GenVI,
}

/// How a phase is hunted; `Mixed` stands for a counter whose phases differ.
#[derive(Debug, Clone, Copy, Default, PartialEq, Eq, Structural)]
pub enum Hunttype {
    #[default]
    OldOdds,
    NewOdds,
    SOS,
    Masuda(Masuda),
    Mixed,
}

/// The number of rolls that `count` encounters give under hunt type `ht`.
pub open spec fn spec_rolls(ht: Hunttype, count: int, has_charm: bool) -> int {
    let charm: int = if has_charm { 3 } else { 1 };
    match ht {
        Hunttype::OldOdds | Hunttype::NewOdds => count * charm,
        Hunttype::SOS => if count < 10 {
            count * charm
        } else if count < 20 {
            10 + (count - 10) * (charm + 4)
        } else if count < 30 {
            60 + (count - 20) * (charm + 8)
        } else {
            50 + (count - 30) * (if has_charm { 16int } else { 13int })
        },
        Hunttype::Masuda(Masuda::GenIV) => count * (charm + 4),
        Hunttype::Masuda(_) => count * (charm + 5),
        Hunttype::Mixed => 0,
    }
}

/// The denominator N of the one-in-N odds of hunt type `ht`.
pub open spec fn spec_odds(ht: Hunttype) -> u32 {
    match ht {
        Hunttype::OldOdds | Hunttype::Masuda(Masuda::GenIV) => 8192,
        _ => 4096,
    }
}

pub open spec fn fits_i32(v: int) -> bool {
    i32::MIN <= v <= i32::MAX
}

impl Hunttype {
    /// The rolls for `count` encounters; `Mixed` has no rolls of its own.
    pub fn rolls(&self, count: i32, has_charm: bool) -> (r: i32)
        requires
            !(*self is Mixed),
            fits_i32(spec_rolls(*self, count as int, has_charm)),
        ensures
            r == spec_rolls(*self, count as int, has_charm),
    {
        let charm: i32 = if has_charm { 3 } else { 1 };
        match self {
            Hunttype::OldOdds | Hunttype::NewOdds => count * charm,
            Hunttype::SOS => {
                if count < 10 {
                    count * charm
                } else if count < 20 {
                    10 + (count - 10) * (charm + 4)
                } else if count < 30 {
                    60 + (count - 20) * (charm + 8)
                } else {
                    let step: i32 = if has_charm { 16 } else { 13 };
                    50 + (count - 30) * step
                }
            },
            Hunttype::Masuda(Masuda::GenIV) => count * (charm + 4),
            Hunttype::Masuda(_) => count * (charm + 5),
            Hunttype::Mixed => 0,
        }
    }

    /// The odds of one shiny in N encounters, as N.
    pub fn odds(&self) -> (r: u32)
        ensures
            r == spec_odds(*self),
    {
        match self {
            Hunttype::OldOdds | Hunttype::Masuda(Masuda::GenIV) => 8192,
            _ => 4096,
        }
    }

    /// The name shown to users.
    pub fn repr(&self) -> (r: &'static str)
        ensures
            r@ == spec_repr(*self),
    {
        match self {
            Hunttype::OldOdds => "Old Odds",
            Hunttype::NewOdds => "New Odds",
            Hunttype::SOS => "SOS",
            Hunttype::Masuda(Masuda::GenIV) => "Masuda (gen IV)",
            Hunttype::Masuda(Masuda::GenV) => "Masuda (gen V)",
            Hunttype::Masuda(Masuda::GenVI) => "Masuda (gen VI+)",
            Hunttype::Mixed => "Mixed",
        }
    }

    /// The key under which the hunt type is stored and sent in forms.
    pub fn key(&self) -> (r: &'static str)
        ensures
            r@ == spec_key(*self),
    {
        match self {
            Hunttype::OldOdds => "OldOdds",
            Hunttype::NewOdds => "NewOdds",
            Hunttype::SOS => "SOS",
            Hunttype::Masuda(Masuda::GenIV) => "MasudaGenIV",
            Hunttype::Masuda(Masuda::GenV) => "MasudaGenV",
            Hunttype::Masuda(Masuda::GenVI) => "MasudaGenVI",
            Hunttype::Mixed => "Mixed",
        }
    }

    /// Parses a key as `key` writes it; `Mixed` has no key that parses.
    pub fn try_from(value: String) -> (r: Result<Hunttype, String>)
        ensures
            match r {
                Ok(ht) => !(ht is Mixed) && spec_key(ht) == value@,
                Err(msg) => (forall|ht: Hunttype| !(ht is Mixed) ==> spec_key(ht) != value@)
                    && msg@ == spec_parse_error(),
            },
    {
        proof {
            reveal_strlit("OldOdds");
            reveal_strlit("NewOdds");
            reveal_strlit("SOS");
            reveal_strlit("MasudaGenIV");
            reveal_strlit("MasudaGenV");
            reveal_strlit("MasudaGenVI");
        }
        let v = value;
        if v == "OldOdds".to_owned() {
            Ok(Hunttype::OldOdds)
        } else if v == "NewOdds".to_owned() {
            Ok(Hunttype::NewOdds)
        } else if v == "SOS".to_owned() {
            Ok(Hunttype::SOS)
        } else if v == "MasudaGenIV".to_owned() {
            Ok(Hunttype::Masuda(Masuda::GenIV))
        } else if v == "MasudaGenV".to_owned() {
            Ok(Hunttype::Masuda(Masuda::GenV))
        } else if v == "MasudaGenVI".to_owned() {
            Ok(Hunttype::Masuda(Masuda::GenVI))
        } else {
            let msg = "Hunttype should be one of the following: OldOdds, NewOdds, SOS, Masuda".to_owned();
            Err(msg)
        }
    }

    /// Two hunt types combined: the same one when they agree, else `Mixed`.
    pub fn combine(self, rhs: Hunttype) -> (r: Hunttype)
        ensures
            r == spec_combine(self, rhs),
    {
        if self == rhs {
            self
        } else {
            Hunttype::Mixed
        }
    }
}

impl std::ops::BitOr for Hunttype {
    type Output = Hunttype;

    /// The hunt type of two elements together, as `combine` gives it.
    fn bitor(self, rhs: Hunttype) -> (r: Hunttype) {
        self.combine(rhs)
    }
}

impl vstd::std_specs::ops::BitOrSpecImpl for Hunttype {
    open spec fn obeys_bitor_spec() -> bool {
        true
    }

    open spec fn bitor_req(self, rhs: Hunttype) -> bool {
        true
    }

    open spec fn bitor_spec(self, rhs: Hunttype) -> Hunttype {
        spec_combine(self, rhs)
    }
}

pub open spec fn spec_combine(a: Hunttype, b: Hunttype) -> Hunttype {
    if a == b {
        a
    } else {
        Hunttype::Mixed
    }
}

/// How many rolls each encounter gives: one, or three with the charm, under
/// the odds hunts; five, or seven with the charm, under a Masuda hunt of
/// generation IV; six, or eight with the charm, under a Masuda hunt of
/// generation V or VI; and under SOS one (three) for the first ten, then
/// five (seven), then nine (eleven) for the next tens, and thirteen
/// (sixteen) from the thirtieth on.
pub proof fn lemma_rolls_per_encounter(count: int, has_charm: bool)
    ensures
        spec_rolls(Hunttype::OldOdds, count, has_charm) == count * (if has_charm { 3int } else { 1int }),
        spec_rolls(Hunttype::NewOdds, count, has_charm) == count * (if has_charm { 3int } else { 1int }),
        spec_rolls(Hunttype::Masuda(Masuda::GenIV), count, has_charm) == count * (if has_charm { 7int } else { 5int }),
        spec_rolls(Hunttype::Masuda(Masuda::GenV), count, has_charm) == count * (if has_charm { 8int } else { 6int }),
        spec_rolls(Hunttype::Masuda(Masuda::GenVI), count, has_charm) == count * (if has_charm { 8int } else { 6int }),
        count < 10 ==> spec_rolls(Hunttype::SOS, count, has_charm) == count * (if has_charm { 3int } else { 1int }),
        10 <= count < 20 ==> spec_rolls(Hunttype::SOS, count, has_charm) == 10 + (count - 10) * (if has_charm {
            7int
        } else {
            5int
        }),
        20 <= count < 30 ==> spec_rolls(Hunttype::SOS, count, has_charm) == 60 + (count - 20) * (if has_charm {
            11int
        } else {
            9int
        }),
        30 <= count ==> spec_rolls(Hunttype::SOS, count, has_charm) == 50 + (count - 30) * (if has_charm {
            16int
        } else {
            13int
        }),
{
}

/// The odds of a shiny are one in 8192 under the old odds and a Masuda
/// hunt of generation IV, and one in 4096 under every other hunt type.
pub proof fn lemma_odds_by_hunt(ht: Hunttype)
    ensures
        spec_odds(ht) == (if ht == Hunttype::OldOdds || ht == Hunttype::Masuda(Masuda::GenIV) {
            8192u32
        } else {
            4096u32
        }),
{
}

/// Combining hunt types does not depend on their order, gives a type back
/// when it meets itself, and stays `Mixed` once it is.
pub proof fn lemma_combine(a: Hunttype, b: Hunttype, c: Hunttype)
    ensures
        spec_combine(a, b) == spec_combine(b, a),
        spec_combine(a, a) == a,
        spec_combine(spec_combine(a, b), c) == spec_combine(a, spec_combine(b, c)),
        spec_combine(Hunttype::Mixed, a) == Hunttype::Mixed,
{
}

/// Different hunt types are stored under different names, so reading a
/// stored name gives back the hunt type it was written from.
pub proof fn lemma_key_injective(a: Hunttype, b: Hunttype)
    requires
        spec_key(a) == spec_key(b),
    ensures
        a == b,
{
    reveal_strlit("OldOdds");
    reveal_strlit("NewOdds");
    reveal_strlit("SOS");
    reveal_strlit("MasudaGenIV");
    reveal_strlit("MasudaGenV");
    reveal_strlit("MasudaGenVI");
    reveal_strlit("Mixed");
    assert("OldOdds"@[0] != "NewOdds"@[0] && "OldOdds"@[0] != "MasudaGenIV"@[0] && "NewOdds"@[0] != "MasudaGenIV"@[0]);
    assert("OldOdds"@[0] != "Mixed"@[0] && "NewOdds"@[0] != "Mixed"@[0] && "SOS"@[0] != "Mixed"@[0]);
    assert("MasudaGenVI"@[9] != "MasudaGenIV"@[9] && "MasudaGenV"@.len() != "MasudaGenIV"@.len());
    assert("MasudaGenV"@.len() != "MasudaGenVI"@.len() && "MasudaGenV"@[1] != "Mixed"@[1]);
    assert("MasudaGenIV"@[1] != "Mixed"@[1] && "MasudaGenVI"@[1] != "Mixed"@[1]);
    assert("SOS"@.len() != "OldOdds"@.len() && "SOS"@.len() != "NewOdds"@.len() && "SOS"@.len() != "MasudaGenV"@.len());
    assert("SOS"@.len() != "MasudaGenIV"@.len() && "SOS"@.len() != "MasudaGenVI"@.len());
    assert("OldOdds"@[0] != "MasudaGenV"@[0] && "NewOdds"@[0] != "MasudaGenV"@[0]);
    assert("OldOdds"@[0] != "MasudaGenVI"@[0] && "NewOdds"@[0] != "MasudaGenVI"@[0]);
}

pub open spec fn spec_repr(ht: Hunttype) -> Seq<char> {
    match ht {
        Hunttype::OldOdds => "Old Odds"@,
        Hunttype::NewOdds => "New Odds"@,
        Hunttype::SOS => "SOS"@,
        Hunttype::Masuda(Masuda::GenIV) => "Masuda (gen IV)"@,
        Hunttype::Masuda(Masuda::GenV) => "Masuda (gen V)"@,
        Hunttype::Masuda(Masuda::GenVI) => "Masuda (gen VI+)"@,
        Hunttype::Mixed => "Mixed"@,
    }
}

pub open spec fn spec_key(ht: Hunttype) -> Seq<char> {
    match ht {
        Hunttype::OldOdds => "OldOdds"@,
        Hunttype::NewOdds => "NewOdds"@,
        Hunttype::SOS => "SOS"@,
        Hunttype::Masuda(Masuda::GenIV) => "MasudaGenIV"@,
        Hunttype::Masuda(Masuda::GenV) => "MasudaGenV"@,
        Hunttype::Masuda(Masuda::GenVI) => "MasudaGenVI"@,
        Hunttype::Mixed => "Mixed"@,
    }
}

pub open spec fn spec_parse_error() -> Seq<char> {
    "Hunttype should be one of the following: OldOdds, NewOdds, SOS, Masuda"@
}

/// The three kinds of elements.
#[derive(Debug, Clone, Copy, Default, PartialEq, Eq, Structural)]
pub enum CountableKind {
    #[default]
    Counter,
    Phase,
    Chain,
}

impl CountableKind {
    /// The kind's name as it is displayed.
    pub fn to_display_string(&self) -> (r: String)
        ensures
            r@ == spec_kind_name(*self),
    {
        match self {
            CountableKind::Counter => "Counter".to_owned(),
            CountableKind::Phase => "Phase".to_owned(),
            CountableKind::Chain => "Chain".to_owned(),
        }
    }
}

pub open spec fn spec_kind_name(k: CountableKind) -> Seq<char> {
    match k {
        CountableKind::Counter => "Counter"@,
        CountableKind::Phase => "Phase"@,
        CountableKind::Chain => "Chain"@,
    }
}

/// An element that groups other elements, its children, in order.
/// Times are microseconds since the Unix epoch.
#[derive(Debug)]
pub struct Counter {
    pub uuid: u128,
    pub owner_uuid: u128,
    pub parent: Option<CountableId>,
    pub children: Vec<CountableId>,
    pub name: String,
    pub last_edit: i64,
    pub created_at: i64,
    pub is_deleted: bool,
}

/// What a counter holds, as plain values.
pub struct CounterView {
    pub uuid: u128,
    pub owner_uuid: u128,
    pub parent: Option<CountableId>,
    pub children: Seq<CountableId>,
    pub name: Seq<char>,
    pub last_edit: i64,
    pub created_at: i64,
    pub is_deleted: bool,
}

impl View for Counter {
    type V = CounterView;

    open spec fn view(&self) -> CounterView {
        CounterView {
            uuid: self.uuid,
            owner_uuid: self.owner_uuid,
            parent: self.parent,
            children: self.children@,
            name: self.name@,
            last_edit: self.last_edit,
            created_at: self.created_at,
            is_deleted: self.is_deleted,
        }
    }
}

impl Clone for Counter {
    fn clone(&self) -> (r: Self)
        ensures
            r@ == self@,
    {
        Counter {
            uuid: self.uuid,
            owner_uuid: self.owner_uuid,
            parent: self.parent,
            children: self.children.clone(),
            name: self.name.clone(),
            last_edit: self.last_edit,
            created_at: self.created_at,
            is_deleted: self.is_deleted,
        }
    }
}

impl Counter {
    /// A counter without children, created at `now` under the id `uuid`.
    pub fn new_with(name: String, owner_uuid: u128, parent: Option<CountableId>, uuid: u128, now: i64) -> (r: Counter)
        ensures
            r@ == (CounterView {
                uuid,
                owner_uuid,
                parent,
                children: Seq::empty(),
                name: name@,
                last_edit: now,
                created_at: now,
                is_deleted: false,
            }),
    {
        Counter {
            uuid,
            owner_uuid,
            parent,
            children: Vec::new(),
            name,
            last_edit: now,
            created_at: now,
            is_deleted: false,
        }
    }
}

/// An element that holds a count of encounters and the time spent on them.
/// `time` is in milliseconds; the other times are microseconds since the
/// Unix epoch.
#[derive(Debug)]
pub struct Phase {
    pub uuid: u128,
    pub owner_uuid: u128,
    pub parent: CountableId,
    pub name: String,
    pub count: i32,
    pub time: i64,
    pub hunt_type: Hunttype,
    pub has_charm: bool,
    pub success: bool,
    pub last_edit: i64,
    pub created_at: i64,
    pub is_deleted: bool,
}

/// What a phase holds, as plain values.
pub struct PhaseView {
    pub uuid: u128,
    pub owner_uuid: u128,
    pub parent: CountableId,
    pub name: Seq<char>,
    pub count: i32,
    pub time: i64,
    pub hunt_type: Hunttype,
    pub has_charm: bool,
    pub success: bool,
    pub last_edit: i64,
    pub created_at: i64,
    pub is_deleted: bool,
}

impl View for Phase {
    type V = PhaseView;

    open spec fn view(&self) -> PhaseView {
        PhaseView {
            uuid: self.uuid,
            owner_uuid: self.owner_uuid,
            parent: self.parent,
            name: self.name@,
            count: self.count,
            time: self.time,
            hunt_type: self.hunt_type,
            has_charm: self.has_charm,
            success: self.success,
            last_edit: self.last_edit,
            created_at: self.created_at,
            is_deleted: self.is_deleted,
        }
    }
}

impl Clone for Phase {
    fn clone(&self) -> (r: Self)
        ensures
            r@ == self@,
    {
        Phase {
            uuid: self.uuid,
            owner_uuid: self.owner_uuid,
            parent: self.parent,
            name: self.name.clone(),
            count: self.count,
            time: self.time,
            hunt_type: self.hunt_type,
            has_charm: self.has_charm,
            success: self.success,
            last_edit: self.last_edit,
            created_at: self.created_at,
            is_deleted: self.is_deleted,
        }
    }
}

impl Phase {
    /// A phase with nothing counted yet, created at `now` under the id `uuid`.
    pub fn new_with(name: String, owner_uuid: u128, parent: CountableId, uuid: u128, now: i64) -> (r: Phase)
        ensures
            r@ == (PhaseView {
                uuid,
                owner_uuid,
                parent,
                name: name@,
                count: 0,
                time: 0,
                hunt_type: Hunttype::OldOdds,
                has_charm: false,
                success: false,
                last_edit: now,
                created_at: now,
                is_deleted: false,
            }),
    {
        Phase {
            uuid,
            owner_uuid,
            parent,
            name,
            count: 0,
            time: 0,
            hunt_type: Hunttype::OldOdds,
            has_charm: false,
            success: false,
            last_edit: now,
            created_at: now,
            is_deleted: false,
        }
    }
}

/// A chain of hunts; it holds nothing yet.
#[derive(Debug, Clone, Copy, PartialEq, Eq, Structural)]
pub struct Chain {}

/// An element of the tree.
#[derive(Debug)]
pub enum Countable {
    Counter(Counter),
    Phase(Phase),
    Chain(Chain),
}

/// What an element holds, as plain values.
pub enum CountableView {
    Counter(CounterView),
    Phase(PhaseView),
    Chain,
}

impl View for Countable {
    type V = CountableView;

    open spec fn view(&self) -> CountableView {
        match self {
            Countable::Counter(c) => CountableView::Counter(c@),
            Countable::Phase(p) => CountableView::Phase(p@),
            Countable::Chain(_) => CountableView::Chain,
        }
    }
}

impl Clone for Countable {
    fn clone(&self) -> (r: Self)
        ensures
            r@ == self@,
    {
        match self {
            Countable::Counter(c) => Countable::Counter(c.clone()),
            Countable::Phase(p) => Countable::Phase(p.clone()),
            Countable::Chain(c) => Countable::Chain(*c),
        }
    }
}

/// Whether two lists of ids hold the same ids in the same order.
fn same_ids(a: &Vec<CountableId>, b: &Vec<CountableId>) -> (r: bool)
    ensures
        r == (a@ == b@),
{
    if a.len() != b.len() {
        return false;
    }
    let mut i: usize = 0;
    while i < a.len()
        invariant
            a@.len() == b@.len(),
            i <= a@.len(),
            forall|j: int| 0 <= j < i ==> a@[j] == b@[j],
        decreases a@.len() - i,
    {
        if a[i].0 != b[i].0 {
            return false;
        }
        i = i + 1;
    }
    proof {
        assert(a@ =~= b@);
    }
    true
}

/// Whether two optional parents are the same.
fn same_parent(a: Option<CountableId>, b: Option<CountableId>) -> (r: bool)
    ensures
        r == (a == b),
{
    match (a, b) {
        (Some(x), Some(y)) => x.0 == y.0,
        (None, None) => true,
        _ => false,
    }
}

impl PartialEq for Counter {
    /// Counters are equal when every field is.
    fn eq(&self, other: &Counter) -> (r: bool) {
        self.uuid == other.uuid && self.owner_uuid == other.owner_uuid && same_parent(self.parent, other.parent)
            && same_ids(&self.children, &other.children) && self.name == other.name && self.last_edit
            == other.last_edit && self.created_at == other.created_at && self.is_deleted == other.is_deleted
    }
}

impl PartialEqSpecImpl for Counter {
    open spec fn obeys_eq_spec() -> bool {
        true
    }

    open spec fn eq_spec(&self, other: &Counter) -> bool {
        self@ == other@
    }
}

impl PartialEq for Phase {
    /// Phases are equal when every field is.
    fn eq(&self, other: &Phase) -> (r: bool) {
        self.uuid == other.uuid && self.owner_uuid == other.owner_uuid && self.parent.0 == other.parent.0
            && self.name == other.name && self.count == other.count && self.time == other.time && self.hunt_type
            == other.hunt_type && self.has_charm == other.has_charm && self.success == other.success
            && self.last_edit == other.last_edit && self.created_at == other.created_at && self.is_deleted
            == other.is_deleted
    }
}

impl PartialEqSpecImpl for Phase {
    open spec fn obeys_eq_spec() -> bool {
        true
    }

    open spec fn eq_spec(&self, other: &Phase) -> bool {
        self@ == other@
    }
}

impl PartialEq for Countable {
    /// Elements are equal when they are of the same kind and hold the same
    /// values.
    fn eq(&self, other: &Countable) -> (r: bool) {
        match (self, other) {
            (Countable::Counter(a), Countable::Counter(b)) => a.eq(b),
            (Countable::Phase(a), Countable::Phase(b)) => a.eq(b),
            (Countable::Chain(_), Countable::Chain(_)) => true,
            _ => false,
        }
    }
}

impl PartialEqSpecImpl for Countable {
    open spec fn obeys_eq_spec() -> bool {
        true
    }

    open spec fn eq_spec(&self, other: &Countable) -> bool {
        self@ == other@
    }
}

impl Eq for Countable {}

impl CountableView {
    pub open spec fn uuid(self) -> u128 {
        match self {
            CountableView::Counter(c) => c.uuid,
            CountableView::Phase(p) => p.uuid,
            CountableView::Chain => 0,
        }
    }

    pub open spec fn name(self) -> Seq<char> {
        match self {
            CountableView::Counter(c) => c.name,
            CountableView::Phase(p) => p.name,
            CountableView::Chain => Seq::empty(),
        }
    }

    pub open spec fn created_at(self) -> i64 {
        match self {
            CountableView::Counter(c) => c.created_at,
            CountableView::Phase(p) => p.created_at,
            CountableView::Chain => 0,
        }
    }

    pub open spec fn last_edit(self) -> i64 {
        match self {
            CountableView::Counter(c) => c.last_edit,
            CountableView::Phase(p) => p.last_edit,
            CountableView::Chain => 0,
        }
    }

    pub open spec fn is_archived(self) -> bool {
        match self {
            CountableView::Counter(c) => c.is_deleted,
            CountableView::Phase(p) => p.is_deleted,
            CountableView::Chain => false,
        }
    }

    pub open spec fn kind(self) -> CountableKind {
        match self {
            CountableView::Counter(_) => CountableKind::Counter,
            CountableView::Phase(_) => CountableKind::Phase,
            CountableView::Chain => CountableKind::Chain,
        }
    }

    /// The same element with another name.
    pub open spec fn with_name(self, name: Seq<char>) -> CountableView {
        match self {
            CountableView::Counter(c) => CountableView::Counter(CounterView { name, ..c }),
            CountableView::Phase(p) => CountableView::Phase(PhaseView { name, ..p }),
            CountableView::Chain => CountableView::Chain,
        }
    }

    /// The same element marked as archived.
    pub open spec fn archived(self) -> CountableView {
        match self {
            CountableView::Counter(c) => CountableView::Counter(CounterView { is_deleted: true, ..c }),
            CountableView::Phase(p) => CountableView::Phase(PhaseView { is_deleted: true, ..p }),
            CountableView::Chain => CountableView::Chain,
        }
    }

    /// The same element with `child` appended to its children, where it is
    /// a counter.
    pub open spec fn with_child(self, child: CountableId) -> CountableView {
        match self {
            CountableView::Counter(c) => CountableView::Counter(
                CounterView { children: c.children.push(child), ..c },
            ),
            _ => self,
        }
    }
}

impl Countable {
    /// A new element of `kind` with the given id and creation time; a phase
    /// must have a parent, and chains cannot be created yet.
    pub fn new_with(
        name: &str,
        kind: CountableKind,
        owner_uuid: u128,
        parent: Option<CountableId>,
        uuid: u128,
        now: i64,
    ) -> (r: Countable)
        requires
            kind is Phase ==> parent is Some,
            !(kind is Chain),
        ensures
            r@ == spec_new_countable(name@, kind, owner_uuid, parent, uuid, now),
    {
        match kind {
            CountableKind::Counter => Countable::Counter(
                Counter::new_with(name.to_owned(), owner_uuid, parent, uuid, now),
            ),
            CountableKind::Phase => {
                let p = match parent {
                    Some(p) => p,
                    None => CountableId(0),
                };
                Countable::Phase(Phase::new_with(name.to_owned(), owner_uuid, p, uuid, now))
            },
            CountableKind::Chain => Countable::Chain(Chain {  }),
        }
    }

    /// A new element of `kind` under a fresh random id, created now.
    pub fn new(name: &str, kind: CountableKind, owner_uuid: u128, parent: Option<CountableId>) -> (r: Countable)
        requires
            kind is Phase ==> parent is Some,
            !(kind is Chain),
        ensures
            exists|uuid: u128, now: i64|
                r@ == spec_new_countable(name@, kind, owner_uuid, parent, uuid, now),
    {
        let uuid = clock::new_uuid();
        let now = clock::now_micros();
        Countable::new_with(name, kind, owner_uuid, parent, uuid, now)
    }

    /// Appends `child` to the children of a counter; other kinds cannot
    /// hold children.
    pub fn add_child_checked(&mut self, child: CountableId) -> (r: Result<(), AppError>)
        ensures
            final(self)@ == old(self)@.with_child(child),
            match old(self)@ {
                CountableView::Counter(_) => r is Ok,
                CountableView::Phase(_) => r matches Err(AppError::CannotContainChildren(s))
                    && s@ == "Phase"@,
                CountableView::Chain => r matches Err(AppError::CannotContainChildren(s))
                    && s@ == "Chain"@,
            },
    {
        match self {
            Countable::Counter(c) => {
                c.children.push(child);
                Ok(())
            },
            Countable::Phase(_) => Err(AppError::CannotContainChildren("Phase".to_owned())),
            Countable::Chain(_) => Err(AppError::CannotContainChildren("Chain".to_owned())),
        }
    }

    /// Appends `child` to the children of a counter.
    pub fn add_child(&mut self, child: CountableId)
        requires
            old(self)@ is Counter,
        ensures
            final(self)@ == old(self)@.with_child(child),
    {
        let _ = self.add_child_checked(child);
    }

    /// The id of a counter or phase; reading it cannot fail.
    pub fn uuid_checked(&self) -> (r: Result<u128, AppError>)
        requires
            !(self@ is Chain),
        ensures
            r == Ok::<u128, AppError>(self@.uuid()),
    {
        match self {
            Countable::Counter(c) => Ok(c.uuid),
            Countable::Phase(p) => Ok(p.uuid),
            Countable::Chain(_) => Ok(0),
        }
    }

    /// The id of a counter or phase.
    pub fn uuid(&self) -> (r: u128)
        requires
            !(self@ is Chain),
        ensures
            r == self@.uuid(),
    {
        match self {
            Countable::Counter(c) => c.uuid,
            Countable::Phase(p) => p.uuid,
            Countable::Chain(_) => 0,
        }
    }

    /// The name of a counter or phase; reading it cannot fail.
    pub fn name_checked(&self) -> (r: Result<String, AppError>)
        requires
            !(self@ is Chain),
        ensures
            r matches Ok(n) && n@ == self@.name(),
    {
        Ok(self.name())
    }

    /// The name of a counter or phase.
    pub fn name(&self) -> (r: String)
        requires
            !(self@ is Chain),
        ensures
            r@ == self@.name(),
    {
        match self {
            Countable::Counter(c) => c.name.clone(),
            Countable::Phase(p) => p.name.clone(),
            Countable::Chain(_) => String::new(),
        }
    }

    /// Renames a counter or phase; renaming cannot fail.
    pub fn set_name_checked(&mut self, name: &str) -> (r: Result<(), AppError>)
        requires
            !(old(self)@ is Chain),
        ensures
            final(self)@ == old(self)@.with_name(name@),
            r is Ok,
    {
        self.set_name(name);
        Ok(())
    }

    /// Renames a counter or phase.
    pub fn set_name(&mut self, name: &str)
        requires
            !(old(self)@ is Chain),
        ensures
            final(self)@ == old(self)@.with_name(name@),
    {
        match self {
            Countable::Counter(c) => c.name = name.to_owned(),
            Countable::Phase(p) => p.name = name.to_owned(),
            Countable::Chain(_) => {},
        }
    }

    /// When a counter or phase was made; reading it cannot fail.
    pub fn created_at_checked(&self) -> (r: Result<i64, AppError>)
        requires
            !(self@ is Chain),
        ensures
            r == Ok::<i64, AppError>(self@.created_at()),
    {
        Ok(self.created_at())
    }

    /// When a counter or phase was made, in microseconds since the Unix
    /// epoch.
    pub fn created_at(&self) -> (r: i64)
        requires
            !(self@ is Chain),
        ensures
            r == self@.created_at(),
    {
        match self {
            Countable::Counter(c) => c.created_at,
            Countable::Phase(p) => p.created_at,
            Countable::Chain(_) => 0,
        }
    }

    /// When a counter or phase was last changed; reading it cannot fail.
    pub fn last_edit_checked(&self) -> (r: Result<i64, AppError>)
        requires
            !(self@ is Chain),
        ensures
            r == Ok::<i64, AppError>(self@.last_edit()),
    {
        Ok(self.last_edit())
    }

    /// When a counter or phase was last changed, in microseconds since the
    /// Unix epoch.
    pub fn last_edit(&self) -> (r: i64)
        requires
            !(self@ is Chain),
        ensures
            r == self@.last_edit(),
    {
        match self {
            Countable::Counter(c) => c.last_edit,
            Countable::Phase(p) => p.last_edit,
            Countable::Chain(_) => 0,
        }
    }

    /// Whether a counter or phase is archived; reading it cannot fail.
    pub fn is_archived_checked(&self) -> (r: Result<bool, AppError>)
        requires
            !(self@ is Chain),
        ensures
            r == Ok::<bool, AppError>(self@.is_archived()),
    {
        Ok(self.is_archived())
    }

    /// Whether a counter or phase is archived.
    pub fn is_archived(&self) -> (r: bool)
        requires
            !(self@ is Chain),
        ensures
            r == self@.is_archived(),
    {
        match self {
            Countable::Counter(c) => c.is_deleted,
            Countable::Phase(p) => p.is_deleted,
            Countable::Chain(_) => false,
        }
    }
}

/// The element that `new_with` makes from these values.
pub open spec fn spec_new_countable(
    name: Seq<char>,
    kind: CountableKind,
    owner_uuid: u128,
    parent: Option<CountableId>,
    uuid: u128,
    now: i64,
) -> CountableView {
    match kind {
        CountableKind::Counter => CountableView::Counter(CounterView {
            uuid,
            owner_uuid,
            parent,
            children: Seq::empty(),
            name,
            last_edit: now,
            created_at: now,
            is_deleted: false,
        }),
        CountableKind::Phase => CountableView::Phase(PhaseView {
            uuid,
            owner_uuid,
            parent: parent.unwrap(),
            name,
            count: 0,
            time: 0,
            hunt_type: Hunttype::OldOdds,
            has_charm: false,
            success: false,
            last_edit: now,
            created_at: now,
            is_deleted: false,
        }),
        CountableKind::Chain => CountableView::Chain,
    }
}

/// Changes to an element that wait to be saved: counts added and time
/// spent since the last save.
#[derive(Debug, Clone, Copy, PartialEq, Eq, Structural)]
pub struct CountableDiff {
    pub id: CountableId,
    pub count: i32,
    pub time: i64,
    pub has_change: bool,
}

impl CountableDiff {
    /// No change yet to `countable`.
    pub fn new(countable: CountableId) -> (r: CountableDiff)
        ensures
            r == (CountableDiff { id: countable, count: 0, time: 0, has_change: false }),
    {
        CountableDiff { id: countable, count: 0, time: 0, has_change: false }
    }

    /// Adds `step_size` to the count and hands back the diff as it is then.
    pub fn increase(&mut self, step_size: i32) -> (r: CountableDiff)
        requires
            fits_i32(old(self).count + step_size),
        ensures
            *final(self) == (CountableDiff { count: (old(self).count + step_size) as i32, ..*old(self) }),
            r == *final(self),
    {
        self.count = self.count + step_size;
        *self
    }

    pub fn has_change(&self) -> (r: bool)
        ensures
            r == self.has_change,
    {
        self.has_change
    }
}

} // verus!
