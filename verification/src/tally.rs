//! Per-party seat tallies.
//!
//! A tally is a mapping from party identifier to a seat count, kept as a
//! vector of entries with distinct parties in first-seen order, so the
//! result of a run is a value determined by the input alone. Counters
//! start at zero for any party not yet seen — only parties that actually
//! won a seat have an entry — and seats are only ever added, never
//! removed. Plurality seats and proportional seats are counted
//! separately; the combined total per party is their sum.

use vstd::prelude::*;

use crate::order::str_eq;

verus! {

/// One tally entry: a party and how many seats it holds.
#[derive(Debug)]
pub struct PartyCount {
    pub party: String,
    pub count: usize,
}

/// A tally, read as a sequence of (party identifier, seat count) pairs.
pub open spec fn counter_view(s: Seq<PartyCount>) -> Seq<(Seq<char>, nat)> {
    s.map_values(|pc: PartyCount| (pc.party@, pc.count as nat))
}

/// The index of the first entry for `k`, or `-1` if there is none.
pub open spec fn find_key(v: Seq<(Seq<char>, nat)>, k: Seq<char>) -> int
    decreases v.len(),
{
    if v.len() == 0 {
        -1
    } else if v[0].0 == k {
        0
    } else {
        let r = find_key(v.drop_first(), k);
        if r == -1 {
            -1
        } else {
            r + 1
        }
    }
}

/// The seat count recorded for `k`: zero if `k` has no entry.
pub open spec fn count_of(v: Seq<(Seq<char>, nat)>, k: Seq<char>) -> nat {
    let i = find_key(v, k);
    if i == -1 {
        0
    } else {
        v[i].1
    }
}

/// A well-formed tally: parties are distinct and every recorded count is
/// at least one.
pub open spec fn counter_wf(v: Seq<(Seq<char>, nat)>) -> bool {
    &&& forall|i: int, j: int| 0 <= i < j < v.len() ==> v[i].0 != v[j].0
    &&& forall|i: int| 0 <= i < v.len() ==> (#[trigger] v[i]).1 >= 1
}

/// Awards `n` further seats to party `k`: its entry grows by `n`, or a
/// new entry is appended if the party has none yet.
pub open spec fn bump_n(v: Seq<(Seq<char>, nat)>, k: Seq<char>, n: nat) -> Seq<(Seq<char>, nat)> {
    if n == 0 {
        v
    } else {
        let i = find_key(v, k);
        if i == -1 {
            v.push((k, n))
        } else {
            v.update(i, (k, v[i].1 + n))
        }
    }
}

/// The total number of seats recorded across all parties.
pub open spec fn counter_total(v: Seq<(Seq<char>, nat)>) -> nat
    decreases v.len(),
{
    if v.len() == 0 {
        0
    } else {
        counter_total(v.drop_last()) + v.last().1
    }
}

pub proof fn lemma_find_key_props(v: Seq<(Seq<char>, nat)>, k: Seq<char>)
    ensures
        -1 <= find_key(v, k) < v.len(),
        find_key(v, k) != -1 ==> v[find_key(v, k)].0 == k && (forall|j: int|
            0 <= j < find_key(v, k) ==> v[j].0 != k),
        find_key(v, k) == -1 ==> (forall|j: int| 0 <= j < v.len() ==> v[j].0 != k),
    decreases v.len(),
{
    if v.len() > 0 && v[0].0 != k {
        lemma_find_key_props(v.drop_first(), k);
        let r = find_key(v.drop_first(), k);
        if r != -1 {
            assert(v[r + 1] == v.drop_first()[r]);
            assert forall|j: int| 0 <= j < r + 1 implies v[j].0 != k by {
                if j >= 1 {
                    assert(v[j] == v.drop_first()[j - 1]);
                }
            }
        } else {
            assert forall|j: int| 0 <= j < v.len() implies v[j].0 != k by {
                if j >= 1 {
                    assert(v[j] == v.drop_first()[j - 1]);
                }
            }
        }
    }
}

proof fn lemma_counter_total_update(v: Seq<(Seq<char>, nat)>, i: int, e: (Seq<char>, nat))
    requires
        0 <= i < v.len(),
    ensures
        counter_total(v.update(i, e)) + v[i].1 == counter_total(v) + e.1,
    decreases v.len(),
{
    if i == v.len() - 1 {
        assert(v.update(i, e).drop_last() =~= v.drop_last());
    } else {
        lemma_counter_total_update(v.drop_last(), i, e);
        assert(v.update(i, e).drop_last() =~= v.drop_last().update(i, e));
    }
}

/// Awarding `n` seats raises the recorded total by exactly `n`.
pub proof fn lemma_bump_total(v: Seq<(Seq<char>, nat)>, k: Seq<char>, n: nat)
    ensures
        counter_total(bump_n(v, k, n)) == counter_total(v) + n,
{
    if n > 0 {
        lemma_find_key_props(v, k);
        let i = find_key(v, k);
        if i == -1 {
            assert(v.push((k, n)).drop_last() =~= v);
        } else {
            lemma_counter_total_update(v, i, (k, v[i].1 + n));
        }
    }
}

proof fn lemma_elem_le_total(v: Seq<(Seq<char>, nat)>, i: int)
    requires
        0 <= i < v.len(),
    ensures
        v[i].1 <= counter_total(v),
    decreases v.len(),
{
    if i < v.len() - 1 {
        lemma_elem_le_total(v.drop_last(), i);
    }
}

/// No single party's count exceeds the recorded total.
pub proof fn lemma_count_le_total(v: Seq<(Seq<char>, nat)>, k: Seq<char>)
    ensures
        count_of(v, k) <= counter_total(v),
{
    lemma_find_key_props(v, k);
    let i = find_key(v, k);
    if i != -1 {
        lemma_elem_le_total(v, i);
    }
}

/// In a well-formed tally, a party has an entry exactly when its count
/// is nonzero.
pub proof fn lemma_key_iff_count(v: Seq<(Seq<char>, nat)>, k: Seq<char>)
    requires
        counter_wf(v),
    ensures
        (exists|i: int| 0 <= i < v.len() && v[i].0 == k) <==> count_of(v, k) > 0,
{
    lemma_find_key_props(v, k);
    let f = find_key(v, k);
    if exists|i: int| 0 <= i < v.len() && v[i].0 == k {
        let i = choose|i: int| 0 <= i < v.len() && v[i].0 == k;
        if f == -1 {
            assert(v[i].0 != k);
        }
        assert(v[f].1 >= 1);
    }
}

/// Adds `n` seats for `party` to a tally vector.
fn counter_add(entries: &mut Vec<PartyCount>, party: String, n: usize)
    requires
        counter_wf(counter_view(old(entries)@)),
        count_of(counter_view(old(entries)@), party@) + n <= usize::MAX,
    ensures
        counter_view(final(entries)@) == bump_n(counter_view(old(entries)@), party@, n as nat),
        counter_wf(counter_view(final(entries)@)),
{
    if n == 0 {
        return ;
    }
    let len = entries.len();
    let mut i: usize = 0;
    while i < len
        invariant
            i <= len,
            len == entries@.len(),
            entries@ == old(entries)@,
            n >= 1,
            counter_wf(counter_view(entries@)),
            count_of(counter_view(entries@), party@) + n <= usize::MAX,
            forall|j: int| 0 <= j < i ==> counter_view(entries@)[j].0 != party@,
        decreases len - i,
    {
        if str_eq(entries[i].party.as_str(), party.as_str()) {
            proof {
                let v = counter_view(entries@);
                assert(v[i as int].0 == party@);
                lemma_find_key_props(v, party@);
                let f = find_key(v, party@);
                if f == -1 {
                    assert(v[i as int].0 != party@);
                }
                if f < i as int {
                    assert(v[f].0 == party@);
                }
                if f > i as int {
                    assert(v[i as int].0 != party@);
                }
                assert(f == i as int);
            }
            let c = entries[i].count;
            let p = entries[i].party.clone();
            entries.set(
                i,
                PartyCount { party: p, count: c + n },
            );
            proof {
                let v0 = counter_view(old(entries)@);
                assert(counter_view(entries@) =~= bump_n(v0, party@, n as nat));
                assert(forall|x: int|
                    0 <= x < v0.len() ==> counter_view(entries@)[x].0 == v0[x].0);
            }
            return ;
        }
        i = i + 1;
    }
    proof {
        lemma_find_key_props(counter_view(entries@), party@);
        assert(find_key(counter_view(entries@), party@) == -1);
    }
    entries.push(PartyCount { party, count: n });
    proof {
        let v0 = counter_view(old(entries)@);
        assert(counter_view(entries@) =~= bump_n(v0, party@, n as nat));
    }
}

/// Reads the seat count recorded for `party` in a tally vector.
fn counter_count(entries: &Vec<PartyCount>, party: &str) -> (r: usize)
    ensures
        r as nat == count_of(counter_view(entries@), party@),
{
    let len = entries.len();
    let mut i: usize = 0;
    while i < len
        invariant
            i <= len,
            len == entries@.len(),
            forall|j: int| 0 <= j < i ==> counter_view(entries@)[j].0 != party@,
        decreases len - i,
    {
        if str_eq(entries[i].party.as_str(), party) {
            proof {
                let v = counter_view(entries@);
                assert(v[i as int].0 == party@);
                lemma_find_key_props(v, party@);
                let f = find_key(v, party@);
                if f == -1 {
                    assert(v[i as int].0 != party@);
                }
                if f < i as int {
                    assert(v[f].0 == party@);
                }
                if f > i as int {
                    assert(v[i as int].0 != party@);
                }
                assert(f == i as int);
            }
            return entries[i].count;
        }
        i = i + 1;
    }
    proof {
        lemma_find_key_props(counter_view(entries@), party@);
        assert(find_key(counter_view(entries@), party@) == -1);
    }
    0
}

/// Lists the parties recorded in a tally vector, in entry order.
fn counter_parties(entries: &Vec<PartyCount>) -> (r: Vec<String>)
    ensures
        r@.len() == entries@.len(),
        forall|i: int| 0 <= i < r@.len() ==> r@[i]@ == counter_view(entries@)[i].0,
{
    let len = entries.len();
    let mut r: Vec<String> = Vec::new();
    let mut i: usize = 0;
    while i < len
        invariant
            i <= len,
            len == entries@.len(),
            r@.len() == i,
            forall|j: int| 0 <= j < i ==> r@[j]@ == counter_view(entries@)[j].0,
        decreases len - i,
    {
        r.push(entries[i].party.clone());
        i = i + 1;
    }
    r
}

/// Seats won in single-member plurality districts, counted per party.
#[derive(Debug)]
pub struct FptpSeats {
    entries: Vec<PartyCount>,
}

impl View for FptpSeats {
    type V = Seq<(Seq<char>, nat)>;

    closed spec fn view(&self) -> Seq<(Seq<char>, nat)> {
        counter_view(self.entries@)
    }
}

impl FptpSeats {
    /// Distinct parties, every entry holding at least one seat.
    pub open spec fn wf(self) -> bool {
        counter_wf(self@)
    }

    /// An empty tally: every party has zero seats.
    pub fn new() -> (r: Self)
        ensures
            r@ == Seq::<(Seq<char>, nat)>::empty(),
            r.wf(),
    {
        let r = FptpSeats { entries: Vec::new() };
        proof {
            assert(r@ =~= Seq::<(Seq<char>, nat)>::empty());
        }
        r
    }

    /// Records one more district seat for `party`.
    pub fn add_seat(&mut self, party: String)
        requires
            old(self).wf(),
            count_of(old(self)@, party@) < usize::MAX,
        ensures
            final(self)@ == bump_n(old(self)@, party@, 1),
            final(self).wf(),
    {
        counter_add(&mut self.entries, party, 1);
    }

    /// Records `n` more seats for `party` at once.
    pub(crate) fn add_seats(&mut self, party: String, n: usize)
        requires
            old(self).wf(),
            count_of(old(self)@, party@) + n <= usize::MAX,
        ensures
            final(self)@ == bump_n(old(self)@, party@, n as nat),
            final(self).wf(),
    {
        counter_add(&mut self.entries, party, n);
    }

    /// The number of district seats `party` holds.
    pub fn count(&self, party: &str) -> (r: usize)
        ensures
            r as nat == count_of(self@, party@),
    {
        counter_count(&self.entries, party)
    }

    /// The parties holding at least one district seat, in first-seen
    /// order.
    pub fn parties(&self) -> (r: Vec<String>)
        ensures
            r@.len() == self@.len(),
            forall|i: int| 0 <= i < r@.len() ==> r@[i]@ == self@[i].0,
    {
        counter_parties(&self.entries)
    }
}

/// Seats won in proportional blocks, counted per party.
#[derive(Debug)]
pub struct PrSeats {
    entries: Vec<PartyCount>,
}

impl View for PrSeats {
    type V = Seq<(Seq<char>, nat)>;

    closed spec fn view(&self) -> Seq<(Seq<char>, nat)> {
        counter_view(self.entries@)
    }
}

impl PrSeats {
    /// Distinct parties, every entry holding at least one seat.
    pub open spec fn wf(self) -> bool {
        counter_wf(self@)
    }

    /// An empty tally: every party has zero seats.
    pub fn new() -> (r: Self)
        ensures
            r@ == Seq::<(Seq<char>, nat)>::empty(),
            r.wf(),
    {
        let r = PrSeats { entries: Vec::new() };
        proof {
            assert(r@ =~= Seq::<(Seq<char>, nat)>::empty());
        }
        r
    }

    /// Records one more proportional seat for `party`.
    pub fn add_seat(&mut self, party: String)
        requires
            old(self).wf(),
            count_of(old(self)@, party@) < usize::MAX,
        ensures
            final(self)@ == bump_n(old(self)@, party@, 1),
            final(self).wf(),
    {
        counter_add(&mut self.entries, party, 1);
    }

    /// Records `n` more seats for `party` at once.
    pub(crate) fn add_seats(&mut self, party: String, n: usize)
        requires
            old(self).wf(),
            count_of(old(self)@, party@) + n <= usize::MAX,
        ensures
            final(self)@ == bump_n(old(self)@, party@, n as nat),
            final(self).wf(),
    {
        counter_add(&mut self.entries, party, n);
    }

    /// The number of proportional seats `party` holds.
    pub fn count(&self, party: &str) -> (r: usize)
        ensures
            r as nat == count_of(self@, party@),
    {
        counter_count(&self.entries, party)
    }

    /// The parties holding at least one proportional seat, in first-seen
    /// order.
    pub fn parties(&self) -> (r: Vec<String>)
        ensures
            r@.len() == self@.len(),
            forall|i: int| 0 <= i < r@.len() ==> r@[i]@ == self@[i].0,
    {
        counter_parties(&self.entries)
    }
}

/// The aggregated result of one full run: plurality and proportional
/// seats per party, with the combined total derived as their sum.
#[derive(Debug)]
pub struct Seats {
    pub fptp: FptpSeats,
    pub pr: PrSeats,
}

impl Seats {
    /// The number of district seats `party` holds.
    pub fn fptp_seats(&self, party: &str) -> (r: usize)
        ensures
            r as nat == count_of(self.fptp@, party@),
    {
        self.fptp.count(party)
    }

    /// The number of proportional seats `party` holds.
    pub fn pr_seats(&self, party: &str) -> (r: usize)
        ensures
            r as nat == count_of(self.pr@, party@),
    {
        self.pr.count(party)
    }

    /// The parties with a nonzero combined seat total, each exactly
    /// once: every party holding a district seat, in first-seen order,
    /// then every party holding only proportional seats.
    #[verifier::rlimit(50)]
    pub fn parties(&self) -> (r: Vec<String>)
        requires
            self.fptp.wf(),
            self.pr.wf(),
        ensures
            forall|k: Seq<char>|
                #![trigger count_of(self.fptp@, k), count_of(self.pr@, k)]
                (exists|i: int| 0 <= i < r@.len() && (#[trigger] r@[i])@ == k) <==> count_of(
                    self.fptp@,
                    k,
                ) + count_of(self.pr@, k) > 0,
            forall|i: int, j: int| 0 <= i < j < r@.len() ==> r@[i]@ != r@[j]@,
    {
        let mut r = self.fptp.parties();
        let fl = r.len();
        let m = self.pr.entries.len();
        let mut j: usize = 0;
        while j < m
            invariant
                j <= m,
                m == self.pr@.len(),
                fl == self.fptp@.len(),
                fl <= r@.len(),
                self.fptp.wf(),
                self.pr.wf(),
                forall|x: int| 0 <= x < fl ==> (#[trigger] r@[x])@ == self.fptp@[x].0,
                forall|x: int|
                    fl <= x < r@.len() ==> count_of(self.fptp@, (#[trigger] r@[x])@) == 0 && (
                    exists|y: int| 0 <= y < j && (#[trigger] self.pr@[y]).0 == r@[x]@),
                forall|y: int|
                    0 <= y < j && count_of(self.fptp@, (#[trigger] self.pr@[y]).0) == 0 ==> (
                    exists|x: int| fl <= x < r@.len() && (#[trigger] r@[x])@ == self.pr@[y].0),
                forall|i: int, x: int| 0 <= i < x < r@.len() ==> r@[i]@ != r@[x]@,
            decreases m - j,
        {
            let c = self.fptp.count(self.pr.entries[j].party.as_str());
            proof {
                assert(self.pr@[j as int].0 == self.pr.entries@[j as int].party@);
            }
            if c == 0 {
                let ghost before = r@;
                r.push(self.pr.entries[j].party.clone());
                proof {
                    let nw = r@.len() - 1;
                    assert(r@[nw]@ == self.pr@[j as int].0);
                    assert(forall|x: int| 0 <= x < nw ==> r@[x] == before[x]);
                    assert forall|i: int, x: int| 0 <= i < x < r@.len() implies r@[i]@ != r@[x]@ by {
                        if x == nw && i < fl {
                            lemma_key_iff_count(self.fptp@, self.fptp@[i].0);
                        }
                    }
                    assert forall|y: int|
                        0 <= y < j + 1 && count_of(self.fptp@, (#[trigger] self.pr@[y]).0)
                            == 0 implies (exists|x: int|
                        fl <= x < r@.len() && (#[trigger] r@[x])@ == self.pr@[y].0) by {
                        if y == j {
                            assert(fl <= nw < r@.len() && r@[nw]@ == self.pr@[y].0);
                        } else {
                            let x = choose|x: int|
                                fl <= x < before.len() && (#[trigger] before[x])@ == self.pr@[y].0;
                            assert(fl <= x < r@.len() && r@[x]@ == self.pr@[y].0);
                        }
                    }
                }
            } else {
                proof {
                    assert(count_of(self.fptp@, self.pr@[j as int].0) != 0);
                }
            }
            j = j + 1;
        }
        proof {
            assert forall|k: Seq<char>|
                (exists|i: int| 0 <= i < r@.len() && (#[trigger] r@[i])@ == k) <==> count_of(
                self.fptp@,
                k,
            ) + count_of(self.pr@, k) > 0 by {
                lemma_key_iff_count(self.fptp@, k);
                lemma_key_iff_count(self.pr@, k);
                if count_of(self.fptp@, k) + count_of(self.pr@, k) > 0 {
                    if count_of(self.fptp@, k) > 0 {
                        let i = choose|i: int| 0 <= i < self.fptp@.len() && self.fptp@[i].0 == k;
                        assert(r@[i]@ == k);
                    } else {
                        let y = choose|y: int| 0 <= y < self.pr@.len() && self.pr@[y].0 == k;
                        assert(exists|x: int|
                            fl <= x < r@.len() && (#[trigger] r@[x])@ == self.pr@[y].0);
                    }
                }
                if exists|i: int| 0 <= i < r@.len() && (#[trigger] r@[i])@ == k {
                    let i = choose|i: int| 0 <= i < r@.len() && (#[trigger] r@[i])@ == k;
                    if i < fl {
                        assert(self.fptp@[i].0 == k);
                    } else {
                        let y = choose|y: int|
                            0 <= y < m && (#[trigger] self.pr@[y]).0 == r@[i as int]@;
                        assert(self.pr@[y].0 == k);
                    }
                }
            }
        }
        r
    }

    /// The combined seat total of `party`: always exactly its district
    /// seats plus its proportional seats.
    pub fn total_seats(&self, party: &str) -> (r: usize)
        requires
            count_of(self.fptp@, party@) + count_of(self.pr@, party@) <= usize::MAX,
        ensures
            r as nat == count_of(self.fptp@, party@) + count_of(self.pr@, party@),
    {
        let f = self.fptp.count(party);
        let p = self.pr.count(party);
        f + p
    }
}

} // verus!
