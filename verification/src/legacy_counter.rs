//! The first model's counter as the running page holds it: its phases in
//! a list, the last of them the one that is counted and timed.
use crate::clock;
use crate::counter_list::{
    lower_contains, lower_starts, name_contains, name_starts, phase_matches, some_phase_contains, some_phase_starts,
};
use crate::legacy::{
    add_last_time, counts, last_charm, last_hunt_type, legacy_odds, phases_count, phases_rolls,
    phases_time, rolls_fit, rolls_of, set_phases_charm, set_phases_hunt_type, sums_within, take_back, take_back_fits,
    take_times, times, toggle_phases_success, total, with_counts, with_times, CountableKind, Hunttype, Phase,
    SerCounter,
};
use crate::sort::{SortKey, SortMethod};
use crate::sorting::{is_permutation, key_of, sort_stable, stably_sorted};
use crate::numtext::{decimal_padded, push_padded};
use vstd::prelude::*;
use vstd::string::*;

verus! {

/// A counter of the first model: its phases in the order they were made.
/// `created_at` is in microseconds since the Unix epoch.
#[derive(Debug)]
pub struct Counter {
    pub uuid: u128,
    pub owner_uuid: u128,
    pub name: String,
    pub phase_list: Vec<Phase>,
    pub created_at: i64,
}

/// The counts that setting a counter hands its phases, the phases `v` in
/// the order they were made: from the last back, a phase whose count with
/// `diff` added would not be above zero drops to zero, and the first whose
/// count with `diff` is above zero takes that sum; the phases before it
/// keep theirs.
pub open spec fn spread_back(v: Seq<int>, n: nat, diff: int) -> Seq<int>
    decreases n,
{
    if n == 0 {
        v
    } else if v[n - 1] + diff <= 0 {
        spread_back(v.update(n - 1, 0), (n - 1) as nat, diff)
    } else {
        v.update(n - 1, v[n - 1] + diff)
    }
}

/// Whether each count that `spread_back` adds `diff` to stays within `i32`.
pub open spec fn spread_back_fits(v: Seq<int>, n: nat, diff: int) -> bool
    decreases n,
{
    if n == 0 {
        true
    } else {
        &&& i32::MIN <= v[n - 1] + diff <= i32::MAX
        &&& (v[n - 1] + diff <= 0 ==> spread_back_fits(v.update(n - 1, 0), (n - 1) as nat, diff))
    }
}

/// Whether `out` is `ps` ordered by the time each was made, phases made at
/// the same time kept in the order they had.
pub open spec fn by_creation(ps: Seq<Phase>, out: Seq<Phase>) -> bool {
    exists|p: Seq<int>|
        {
            &&& is_permutation(p, ps.len())
            &&& out.len() == ps.len()
            &&& forall|i: int| 0 <= i < out.len() ==> #[trigger] out[i] == ps[p[i]]
            &&& forall|i: int, j: int|
                0 <= i < j < out.len() ==> (#[trigger] out[i]).created_at <= (#[trigger] out[j]).created_at
            &&& forall|i: int, j: int|
                0 <= i < j < out.len() && (#[trigger] out[i]).created_at == (#[trigger] out[j]).created_at ==> p[i] < p[j]
        }
}

/// The odds of each of `ps`.
pub open spec fn odds_of(ps: Seq<Phase>) -> Seq<int> {
    ps.map_values(|p: Phase| legacy_odds(p.hunt_type) as int)
}

/// How many of the first `n` of `ps` are marked a success.
pub open spec fn successes(ps: Seq<Phase>, n: nat) -> nat
    decreases n,
{
    if n == 0 {
        0
    } else {
        successes(ps, (n - 1) as nat) + if ps[n - 1].success {
            1nat
        } else {
            0nat
        }
    }
}

/// The key that orders a phase by the time it was made.
fn creation_key(p: &Phase) -> (r: SortKey)
    ensures
        r@.created_at == p.created_at,
{
    SortKey { id: 0, name: String::new(), count: 0, time: 0, created_at: p.created_at }
}

/// `ps` ordered by the time each was made, as a stable sort leaves them.
fn sort_by_creation(ps: Vec<Phase>) -> (r: Vec<Phase>)
    ensures
        by_creation(ps@, r@),
{
    let ghost input = ps@;
    let n: usize = ps.len();
    let mut rest = ps;
    let mut items: Vec<(SortKey, Phase)> = Vec::new();
    let mut k: usize = 0;
    proof {
        assert(rest@ =~= input.subrange(0, n as int));
    }
    while rest.len() > 0
        invariant
            n == input.len(),
            k <= n,
            rest@ == input.subrange(k as int, n as int),
            items@.len() == k,
            forall|j: int| 0 <= j < k ==> (#[trigger] items@[j]).1 == input[j] && key_of(items@[j]).created_at == input[j].created_at,
        decreases rest@.len(),
    {
        let p = rest.remove(0);
        let key = creation_key(&p);
        items.push((key, p));
        k = k + 1;
        proof {
            assert(rest@ =~= input.subrange(k as int, n as int));
        }
    }
    let ghost keyed = items@;
    let sorted = sort_stable(SortMethod::CreatedAt(false), items);
    let ghost perm = choose|p: Seq<int>| stably_sorted(SortMethod::CreatedAt(false), keyed, sorted@, p);
    let mut rest2 = sorted;
    let mut out: Vec<Phase> = Vec::new();
    let ghost sorted_seq = rest2@;
    let mut i: usize = 0;
    proof {
        assert(rest2@ =~= sorted_seq.subrange(0, n as int));
    }
    while rest2.len() > 0
        invariant
            sorted_seq.len() == n,
            i <= n,
            rest2@ == sorted_seq.subrange(i as int, n as int),
            out@.len() == i,
            forall|j: int| 0 <= j < i ==> #[trigger] out@[j] == sorted_seq[j].1,
        decreases rest2@.len(),
    {
        let (_, p) = rest2.remove(0);
        out.push(p);
        i = i + 1;
        proof {
            assert(rest2@ =~= sorted_seq.subrange(i as int, n as int));
        }
    }
    proof {
        assert forall|j: int| 0 <= j < out@.len() implies #[trigger] out@[j] == input[perm[j]] && key_of(sorted_seq[j]).created_at
            == out@[j].created_at by {
            assert(sorted_seq[j] == keyed[perm[j]]);
        }
        assert forall|a: int, b: int| 0 <= a < b < out@.len() implies (#[trigger] out@[a]).created_at
            <= (#[trigger] out@[b]).created_at by {
            assert(key_of(sorted_seq[a]).created_at == out@[a].created_at);
            assert(key_of(sorted_seq[b]).created_at == out@[b].created_at);
        }
        assert forall|a: int, b: int|
            0 <= a < b < out@.len() && (#[trigger] out@[a]).created_at == (#[trigger] out@[b]).created_at implies perm[a]
            < perm[b] by {
            assert(key_of(sorted_seq[a]).created_at == out@[a].created_at);
            assert(key_of(sorted_seq[b]).created_at == out@[b].created_at);
        }
        assert(by_creation(input, out@));
    }
    out
}

impl Counter {
    /// A counter named `name` of `owner_uuid`, with the id `uuid`, made at
    /// `now`, without phases.
    pub fn new_with(name: String, owner_uuid: u128, uuid: u128, now: i64) -> (r: Counter)
        ensures
            r.uuid == uuid && r.owner_uuid == owner_uuid && r.name@ == name@ && r.created_at == now,
            r.phase_list@.len() == 0,
    {
        Counter { uuid, owner_uuid, name, phase_list: Vec::new(), created_at: now }
    }

    /// A new counter named `name` of `owner_uuid`, with a fresh id, made now.
    pub fn new(name: String, owner_uuid: u128) -> (r: Counter)
        ensures
            r.owner_uuid == owner_uuid && r.name@ == name@ && r.phase_list@.len() == 0,
    {
        let uuid = clock::new_uuid();
        let now = clock::now_micros();
        Counter::new_with(name, owner_uuid, uuid, now)
    }

    pub fn kind(&self) -> (r: CountableKind)
        ensures
            r == CountableKind::Counter,
    {
        CountableKind::Counter
    }

    /// The counts of the phases added up.
    pub fn get_count(&self) -> (r: i32)
        requires
            sums_within(counts(self.phase_list@), self.phase_list@.len(), i32::MIN as int, i32::MAX as int),
        ensures
            r == total(counts(self.phase_list@), self.phase_list@.len()),
    {
        phases_count(&self.phase_list)
    }

    /// Sets the count of the counter to `count`: the phases are put in the
    /// order they were made, and the difference goes to them from the last
    /// back as `spread_back` describes.
    pub fn set_count(&mut self, count: i32)
        requires
            sums_within(counts(old(self).phase_list@), old(self).phase_list@.len(), i32::MIN as int, i32::MAX as int),
            i32::MIN <= count - total(counts(old(self).phase_list@), old(self).phase_list@.len()) <= i32::MAX,
            forall|ps: Seq<Phase>|
                by_creation(old(self).phase_list@, ps) ==> #[trigger] spread_back_fits(
                    counts(ps),
                    ps.len(),
                    count - total(counts(old(self).phase_list@), old(self).phase_list@.len()),
                ),
        ensures
            exists|ps: Seq<Phase>|
                by_creation(old(self).phase_list@, ps) && final(self).phase_list@ == with_counts(
                    ps,
                    spread_back(
                        counts(ps),
                        ps.len(),
                        count - total(counts(old(self).phase_list@), old(self).phase_list@.len()),
                    ),
                ),
            final(self).uuid == old(self).uuid && final(self).name@ == old(self).name@,
    {
        let diff = count - phases_count(&self.phase_list);
        let mut list: Vec<Phase> = Vec::new();
        std::mem::swap(&mut list, &mut self.phase_list);
        let mut sorted = sort_by_creation(list);
        let ghost ps = sorted@;
        spread_counts(&mut sorted, diff);
        self.phase_list = sorted;
        proof {
            assert(by_creation(old(self).phase_list@, ps) && self.phase_list@ == with_counts(
                ps,
                spread_back(counts(ps), ps.len(), count - total(counts(old(self).phase_list@), old(self).phase_list@.len())),
            ));
        }
    }

    /// Adds `count` to the last phase, where there is one.
    pub fn add_count(&mut self, count: i32)
        requires
            old(self).phase_list@.len() > 0 ==> i32::MIN <= old(self).phase_list@.last().count + count <= i32::MAX,
        ensures
            old(self).phase_list@.len() == 0 ==> final(self).phase_list@ == old(self).phase_list@,
            old(self).phase_list@.len() > 0 ==> final(self).phase_list@ == old(self).phase_list@.update(
                old(self).phase_list@.len() - 1,
                Phase { count: (old(self).phase_list@.last().count + count) as i32, ..old(self).phase_list@.last() },
            ),
            final(self).uuid == old(self).uuid && final(self).name@ == old(self).name@,
    {
        let n = self.phase_list.len();
        if n > 0 {
            let mut p = self.phase_list[n - 1].clone();
            p.add_count(count);
            self.phase_list.set(n - 1, p);
        }
    }

    /// The rolls of the phases added up.
    pub fn get_rolls(&self) -> (r: i32)
        requires
            forall|i: int| 0 <= i < self.phase_list@.len() ==> !(#[trigger] self.phase_list@[i].hunt_type is DexNav)
                && rolls_fit(self.phase_list@[i].hunt_type, self.phase_list@[i].count as int, self.phase_list@[i].has_charm),
            sums_within(rolls_of(self.phase_list@), self.phase_list@.len(), i32::MIN as int, i32::MAX as int),
        ensures
            r == total(rolls_of(self.phase_list@), self.phase_list@.len()),
    {
        phases_rolls(&self.phase_list)
    }

    /// The odds of the phases averaged, rounded down.
    pub fn get_odds(&self) -> (r: i32)
        requires
            self.phase_list@.len() > 0,
            sums_within(odds_of(self.phase_list@), self.phase_list@.len(), i32::MIN as int, i32::MAX as int),
        ensures
            r == total(odds_of(self.phase_list@), self.phase_list@.len()) / (self.phase_list@.len() as int),
    {
        let ghost v = odds_of(self.phase_list@);
        let n = self.phase_list.len();
        let mut sum: i32 = 0;
        let mut i: usize = 0;
        while i < n
            invariant
                n == self.phase_list@.len(),
                v == odds_of(self.phase_list@),
                i <= n,
                sum == total(v, i as nat),
                sums_within(v, n as nat, i32::MIN as int, i32::MAX as int),
            decreases n - i,
        {
            proof {
                lemma_sums_prefix_at(v, (i + 1) as nat, n as nat, i32::MIN as int, i32::MAX as int);
            }
            sum = sum + self.phase_list[i].hunt_type.get_odds();
            i = i + 1;
        }
        proof {
            lemma_odds_total(self.phase_list@, n as nat);
        }
        let len: i32 = n as i32;
        sum / len
    }

    /// The times of the phases added up, in milliseconds.
    pub fn get_time(&self) -> (r: i64)
        requires
            sums_within(times(self.phase_list@), self.phase_list@.len(), -i64::MAX as int, i64::MAX as int),
        ensures
            r == total(times(self.phase_list@), self.phase_list@.len()),
    {
        phases_time(&self.phase_list)
    }

    /// Sets the time of the counter to `dur` milliseconds by taking the
    /// difference out of its phases from the last one back.
    pub fn set_time(&mut self, dur: i64)
        requires
            sums_within(times(old(self).phase_list@), old(self).phase_list@.len(), -i64::MAX as int, i64::MAX as int),
            -i64::MAX <= total(times(old(self).phase_list@), old(self).phase_list@.len()) - dur <= i64::MAX,
            take_back_fits(times(old(self).phase_list@), old(self).phase_list@.len(),
                total(times(old(self).phase_list@), old(self).phase_list@.len()) - dur, -i64::MAX as int, i64::MAX as int),
        ensures
            final(self).phase_list@ == with_times(old(self).phase_list@, take_back(times(old(self).phase_list@),
                old(self).phase_list@.len(), total(times(old(self).phase_list@), old(self).phase_list@.len()) - dur)),
    {
        let diff = phases_time(&self.phase_list) - dur;
        take_times(&mut self.phase_list, diff);
    }

    /// Adds `dur` milliseconds to the last phase, where there is one.
    pub fn add_time(&mut self, dur: i64)
        requires
            old(self).phase_list@.len() > 0 ==> -i64::MAX <= old(self).phase_list@.last().time + dur <= i64::MAX,
        ensures
            old(self).phase_list@.len() == 0 ==> final(self).phase_list@ == old(self).phase_list@,
            old(self).phase_list@.len() > 0 ==> final(self).phase_list@ == old(self).phase_list@.update(
                old(self).phase_list@.len() - 1,
                Phase { time: (old(self).phase_list@.last().time + dur) as i64, ..old(self).phase_list@.last() },
            ),
    {
        add_last_time(&mut self.phase_list, dur);
    }

    /// Whether one of the phases is running.
    pub fn is_active(&self) -> (r: bool)
        ensures
            r == exists|i: int| 0 <= i < self.phase_list@.len() && (#[trigger] self.phase_list@[i]).is_active,
    {
        let mut i: usize = 0;
        while i < self.phase_list.len()
            invariant
                i <= self.phase_list@.len(),
                forall|j: int| 0 <= j < i ==> !(#[trigger] self.phase_list@[j]).is_active,
            decreases self.phase_list@.len() - i,
        {
            if self.phase_list[i].is_active {
                return true;
            }
            i = i + 1;
        }
        false
    }

    /// Stops every phase, or starts the last one.
    pub fn set_active(&mut self, active: bool)
        ensures
            final(self).phase_list@.len() == old(self).phase_list@.len(),
            !active ==> forall|i: int| 0 <= i < old(self).phase_list@.len() ==> #[trigger] final(self).phase_list@[i] == (Phase {
                is_active: false,
                ..old(self).phase_list@[i]
            }),
            active && old(self).phase_list@.len() > 0 ==> final(self).phase_list@ == old(self).phase_list@.update(
                old(self).phase_list@.len() - 1,
                Phase { is_active: true, ..old(self).phase_list@.last() },
            ),
            active && old(self).phase_list@.len() == 0 ==> final(self).phase_list@ == old(self).phase_list@,
            final(self).uuid == old(self).uuid && final(self).name@ == old(self).name@,
    {
        if !active {
            let mut i: usize = 0;
            while i < self.phase_list.len()
                invariant
                    i <= self.phase_list@.len(),
                    self.phase_list@.len() == old(self).phase_list@.len(),
                    self.uuid == old(self).uuid && self.name@ == old(self).name@,
                    forall|j: int| 0 <= j < i ==> #[trigger] self.phase_list@[j] == (Phase { is_active: false, ..old(self).phase_list@[j] }),
                    forall|j: int| i <= j < self.phase_list@.len() ==> #[trigger] self.phase_list@[j] == old(self).phase_list@[j],
                decreases self.phase_list@.len() - i,
            {
                let mut p = self.phase_list[i].clone();
                p.is_active = false;
                self.phase_list.set(i, p);
                i = i + 1;
            }
        } else {
            let n = self.phase_list.len();
            if n > 0 {
                let mut p = self.phase_list[n - 1].clone();
                p.is_active = true;
                self.phase_list.set(n - 1, p);
            }
        }
    }

    /// Stops the counter when one of its phases runs, else starts its last
    /// phase.
    pub fn toggle_active(&mut self)
        ensures
            final(self).phase_list@.len() == old(self).phase_list@.len(),
            (exists|i: int| 0 <= i < old(self).phase_list@.len() && (#[trigger] old(self).phase_list@[i]).is_active)
                ==> forall|i: int| 0 <= i < old(self).phase_list@.len() ==> #[trigger] final(self).phase_list@[i] == (Phase {
                    is_active: false,
                    ..old(self).phase_list@[i]
                }),
            !(exists|i: int| 0 <= i < old(self).phase_list@.len() && (#[trigger] old(self).phase_list@[i]).is_active)
                && old(self).phase_list@.len() > 0 ==> final(self).phase_list@ == old(self).phase_list@.update(
                old(self).phase_list@.len() - 1,
                Phase { is_active: true, ..old(self).phase_list@.last() },
            ),
    {
        if self.is_active() {
            self.set_active(false);
        } else {
            self.set_active(true);
        }
    }

    /// The hunt type of the last phase, the default where there is none.
    pub fn get_hunt_type(&self) -> (r: Hunttype)
        ensures
            r == (if self.phase_list@.len() > 0 { self.phase_list@.last().hunt_type } else { Hunttype::OldOdds }),
    {
        last_hunt_type(&self.phase_list)
    }

    /// Sets the hunt type of every phase.
    pub fn set_hunt_type(&mut self, hunt_type: Hunttype)
        ensures
            final(self).phase_list@.len() == old(self).phase_list@.len(),
            forall|i: int| 0 <= i < old(self).phase_list@.len() ==> #[trigger] final(self).phase_list@[i] == (Phase { hunt_type, ..old(self).phase_list@[i] }),
    {
        set_phases_hunt_type(&mut self.phase_list, hunt_type);
    }

    /// Whether the last phase has the charm; not where there is none.
    pub fn has_charm(&self) -> (r: bool)
        ensures
            r == (self.phase_list@.len() > 0 && self.phase_list@.last().has_charm),
    {
        last_charm(&self.phase_list)
    }

    /// Gives or takes the charm of every phase.
    pub fn set_charm(&mut self, set: bool)
        ensures
            final(self).phase_list@.len() == old(self).phase_list@.len(),
            forall|i: int| 0 <= i < old(self).phase_list@.len() ==> #[trigger] final(self).phase_list@[i] == (Phase { has_charm: set, ..old(self).phase_list@[i] }),
    {
        set_phases_charm(&mut self.phase_list, set);
    }

    /// The number of phases marked a success.
    pub fn get_completed(&self) -> (r: usize)
        ensures
            r == successes(self.phase_list@, self.phase_list@.len()),
    {
        let mut sum: usize = 0;
        let mut i: usize = 0;
        while i < self.phase_list.len()
            invariant
                i <= self.phase_list@.len(),
                sum == successes(self.phase_list@, i as nat),
                sum <= i,
            decreases self.phase_list@.len() - i,
        {
            if self.phase_list[i].success {
                sum = sum + 1;
            }
            i = i + 1;
        }
        sum
    }

    /// Marks every phase a success, or takes the mark away.
    pub fn toggle_success(&mut self)
        ensures
            final(self).phase_list@.len() == old(self).phase_list@.len(),
            forall|i: int| 0 <= i < old(self).phase_list@.len() ==> #[trigger] final(self).phase_list@[i] == (Phase {
                success: !old(self).phase_list@[i].success,
                ..old(self).phase_list@[i]
            }),
    {
        toggle_phases_success(&mut self.phase_list);
    }

    /// Adds a phase named `name` with the id `uuid`, made at `now`.
    pub fn new_phase_with(&mut self, name: String, uuid: u128, now: i64)
        ensures
            final(self).phase_list@.len() == old(self).phase_list@.len() + 1,
            final(self).phase_list@.drop_last() == old(self).phase_list@,
            final(self).phase_list@.last().uuid == uuid,
            final(self).phase_list@.last().name@ == name@,
            final(self).phase_list@.last().parent_uuid == old(self).uuid,
            final(self).phase_list@.last().owner_uuid == old(self).owner_uuid,
            final(self).phase_list@.last().created_at == now,
            final(self).phase_list@.last().count == 0 && final(self).phase_list@.last().time == 0,
            final(self).phase_list@.last().hunt_type == Hunttype::NewOdds,
            final(self).uuid == old(self).uuid && final(self).name@ == old(self).name@,
            final(self).owner_uuid == old(self).owner_uuid,
    {
        let p = Phase::new_with(name, self.uuid, self.owner_uuid, uuid, now);
        self.phase_list.push(p);
        proof {
            assert(self.phase_list@.drop_last() =~= old(self).phase_list@);
        }
    }

    /// Adds a phase named `name` with a fresh id, made now.
    pub fn new_phase(&mut self, name: String)
        ensures
            final(self).phase_list@.len() == old(self).phase_list@.len() + 1,
            final(self).phase_list@.drop_last() == old(self).phase_list@,
            final(self).phase_list@.last().name@ == name@,
            final(self).phase_list@.last().parent_uuid == old(self).uuid,
            final(self).phase_list@.last().count == 0 && final(self).phase_list@.last().time == 0,
            final(self).uuid == old(self).uuid && final(self).name@ == old(self).name@,
            final(self).owner_uuid == old(self).owner_uuid,
    {
        let uuid = clock::new_uuid();
        let now = clock::now_micros();
        self.new_phase_with(name, uuid, now);
    }

    /// Whether the lower-cased name of the counter or of one of its phases
    /// starts with `pat`.
    pub fn has_child_starts_with(&self, pat: &str) -> (r: bool)
        ensures
            r == (name_starts(self.name@, pat@) || some_phase_starts(self.phase_list@, pat@)),
    {
        lower_starts(&self.name, pat) || phase_matches(&self.phase_list, pat, true)
    }

    /// Whether the lower-cased name of the counter or of one of its phases
    /// holds `pat`.
    pub fn has_child_contains(&self, pat: &str) -> (r: bool)
        ensures
            r == (name_contains(self.name@, pat@) || some_phase_contains(self.phase_list@, pat@)),
    {
        lower_contains(&self.name, pat) || phase_matches(&self.phase_list, pat, false)
    }

    /// The counter as it is stored: the same fields and phases.
    pub fn into_ser(self) -> (r: SerCounter)
        ensures
            r.uuid == self.uuid && r.owner_uuid == self.owner_uuid && r.name == self.name,
            r.phase_list@ == self.phase_list@ && r.created_at == self.created_at,
    {
        SerCounter {
            uuid: self.uuid,
            owner_uuid: self.owner_uuid,
            name: self.name,
            phase_list: self.phase_list,
            created_at: self.created_at,
        }
    }
}

/// The counter the new-counter button makes when the list holds
/// `state_len` counters: named `Counter` and the next number, with a phase
/// named `Phase 1`, both with fresh ids.
pub fn starter_counter(state_len: usize, owner_uuid: u128) -> (r: Counter)
    requires
        state_len < i64::MAX,
    ensures
        r.owner_uuid == owner_uuid,
        r.name@ == "Counter "@ + decimal_padded(state_len + 1, 0),
        r.phase_list@.len() == 1,
        r.phase_list@[0].name@ == "Phase 1"@,
        r.phase_list@[0].parent_uuid == r.uuid,
        r.phase_list@[0].count == 0 && r.phase_list@[0].time == 0,
{
    let mut name = String::new();
    proof {
        reveal_strlit("Counter ");
    }
    name.append("Counter ");
    let next: i64 = state_len as i64 + 1;
    push_padded(&mut name, next, 0);
    let mut c = Counter::new(name, owner_uuid);
    c.new_phase("Phase 1".to_owned());
    c
}

/// Hands `diff` to the counts of `ps` from the last back, as `spread_back`
/// describes.
fn spread_counts(ps: &mut Vec<Phase>, diff: i32)
    requires
        spread_back_fits(counts(old(ps)@), old(ps)@.len(), diff as int),
    ensures
        final(ps)@ == with_counts(old(ps)@, spread_back(counts(old(ps)@), old(ps)@.len(), diff as int)),
{
    let ghost ps0 = ps@;
    let ghost target = spread_back(counts(ps0), ps0.len(), diff as int);
    let mut i: usize = ps.len();
    while i > 0
        invariant
            ps0 == old(ps)@,
            target == spread_back(counts(ps0), ps0.len(), diff as int),
            i <= ps0.len(),
            ps@.len() == ps0.len(),
            target == spread_back(counts(ps@), i as nat, diff as int),
            spread_back_fits(counts(ps@), i as nat, diff as int),
            forall|j: int| 0 <= j < ps0.len() ==> #[trigger] ps@[j] == (Phase { count: ps@[j].count, ..ps0[j] }),
        decreases i,
    {
        let c = ps[i - 1].count;
        let mut p = ps[i - 1].clone();
        let ghost before = ps@;
        if c + diff <= 0 {
            p.count = 0;
            ps.set(i - 1, p);
            proof {
                assert(counts(ps@) =~= counts(before).update(i - 1, 0));
            }
            i = i - 1;
        } else {
            p.count = c + diff;
            ps.set(i - 1, p);
            proof {
                assert(counts(ps@) =~= counts(before).update(i - 1, c + diff));
                assert(target == counts(ps@));
                assert(ps@ =~= with_counts(ps0, target));
            }
            return;
        }
    }
    proof {
        assert(target == counts(ps@));
        assert(ps@ =~= with_counts(ps0, target));
    }
}

/// Every partial sum of a list that stays within bounds up to `n` does up
/// to any `k` before it.
proof fn lemma_sums_prefix_at(v: Seq<int>, k: nat, n: nat, lo: int, hi: int)
    requires
        k <= n,
        sums_within(v, n, lo, hi),
    ensures
        sums_within(v, k, lo, hi),
    decreases n - k,
{
    if k < n {
        lemma_sums_prefix_at(v, k, (n - 1) as nat, lo, hi);
    }
}

/// The odds of the first `n` of `ps` add up to at least 4096 each.
proof fn lemma_odds_total(ps: Seq<Phase>, n: nat)
    requires
        n <= ps.len(),
    ensures
        total(odds_of(ps), n) >= 4096 * n,
    decreases n,
{
    if n > 0 {
        lemma_odds_total(ps, (n - 1) as nat);
        assert(odds_of(ps)[n - 1] >= 4096);
    }
}

} // verus!
