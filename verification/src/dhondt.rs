//! Proportional apportionment of one multi-seat block by the D'Hondt
//! highest-averages method.
//!
//! Every party's vote count is divided by the successive divisors 1, 2, 3,
//! ... and the block's seats go, one per round, to the largest remaining
//! quotient. Quotients are compared exactly, as rationals, by cross
//! multiplication, so no rounding or floating point enters the result.
//! Ties are broken deterministically: equal quotients are ordered by
//! higher original party vote total first, then by lower divisor, then by
//! party identifier in ascending lexicographic order.

use vstd::prelude::*;

use crate::errors::ElectionError;
use crate::order::lex_lt;
use crate::order::str_lt;

verus! {

/// One party's raw vote count within a proportional block.
#[derive(Debug)]
pub struct PartyVotes {
    pub party: String,
    pub votes: u64,
}

/// One proportional block: its identifier and the vote count of every
/// party that ran in it.
#[derive(Debug)]
pub struct PrBlockResult {
    pub block: String,
    pub votes: Vec<PartyVotes>,
}

impl PrBlockResult {
    /// The block is a mapping from party to vote count: party
    /// identifiers are distinct.
    pub open spec fn wf(self) -> bool {
        forall|i: int, j: int|
            0 <= i < j < self.votes@.len() ==> self.votes@[i].party@ != self.votes@[j].party@
    }
}

/// At least one party in the block received at least one vote.
pub open spec fn has_positive_votes(votes: Seq<PartyVotes>) -> bool {
    exists|i: int| 0 <= i < votes.len() && votes[i].votes > 0
}

/// The D'Hondt candidate entry `(v1, d1, p1)` — party `p1` with vote
/// total `v1` at divisor `d1` — is strictly preferred to `(v2, d2, p2)`:
/// its quotient `v1 / d1` is larger as an exact rational (compared by
/// cross multiplication), or the quotients are equal and the tie is
/// broken by higher vote total, then lower divisor, then party
/// identifier in ascending lexicographic order.
pub open spec fn entry_precedes(
    v1: int,
    d1: int,
    p1: Seq<char>,
    v2: int,
    d2: int,
    p2: Seq<char>,
) -> bool {
    v1 * d2 > v2 * d1 || (v1 * d2 == v2 * d1 && (v1 > v2 || (v1 == v2 && (d1 < d2 || (d1 == d2
        && lex_lt(p1, p2))))))
}

/// The index of the party that wins the next seat, given the seats each
/// party holds so far: its current entry — vote total over divisor
/// `alloc[i] + 1` — is preferred to every other party's current entry.
/// The scan keeps the earlier party unless a later one is strictly
/// preferred, which together with the total tie-break order makes the
/// winner independent of everything but the values themselves.
pub open spec fn round_winner(votes: Seq<PartyVotes>, alloc: Seq<nat>) -> int
    recommends
        votes.len() > 0,
        alloc.len() == votes.len(),
    decreases votes.len(),
{
    if votes.len() <= 1 {
        0
    } else {
        let rest = round_winner(votes.drop_last(), alloc.drop_last());
        let last = votes.len() - 1;
        if entry_precedes(
            votes[last].votes as int,
            alloc[last] as int + 1,
            votes[last].party@,
            votes[rest].votes as int,
            alloc[rest] as int + 1,
            votes[rest].party@,
        ) {
            last
        } else {
            rest
        }
    }
}

/// Per-party seat counts after the given number of D'Hondt rounds, each
/// round awarding exactly one seat to that round's winner. The result is
/// aligned with `votes`: entry `i` is the seat count of `votes[i].party`.
pub open spec fn dhondt_alloc(votes: Seq<PartyVotes>, rounds: nat) -> Seq<nat>
    decreases rounds,
{
    if rounds == 0 || votes.len() == 0 {
        Seq::new(votes.len(), |i: int| 0nat)
    } else {
        let prev = dhondt_alloc(votes, (rounds - 1) as nat);
        let w = round_winner(votes, prev);
        prev.update(w, prev[w] + 1)
    }
}

/// The sum of a sequence of seat counts.
pub open spec fn seq_sum(s: Seq<nat>) -> nat
    decreases s.len(),
{
    if s.len() == 0 {
        0
    } else {
        seq_sum(s.drop_last()) + s.last()
    }
}

/// A sequence of machine seat counts, read as mathematical counts.
pub open spec fn counts_of(s: Seq<usize>) -> Seq<nat> {
    s.map_values(|x: usize| x as nat)
}

pub proof fn lemma_round_winner_in_range(votes: Seq<PartyVotes>, alloc: Seq<nat>)
    requires
        votes.len() > 0,
    ensures
        0 <= round_winner(votes, alloc) < votes.len(),
    decreases votes.len(),
{
    if votes.len() > 1 {
        lemma_round_winner_in_range(votes.drop_last(), alloc.drop_last());
    }
}

/// A party with no votes at all never wins a round while any party with
/// votes is present: the winner always holds a strictly positive vote
/// count.
pub proof fn lemma_round_winner_positive(votes: Seq<PartyVotes>, alloc: Seq<nat>)
    requires
        votes.len() > 0,
        alloc.len() == votes.len(),
        has_positive_votes(votes),
    ensures
        votes[round_winner(votes, alloc)].votes > 0,
    decreases votes.len(),
{
    lemma_round_winner_in_range(votes, alloc);
    if votes.len() <= 1 {
        assert(votes[0].votes > 0);
    } else {
        lemma_round_winner_in_range(votes.drop_last(), alloc.drop_last());
        let rest = round_winner(votes.drop_last(), alloc.drop_last());
        let last = votes.len() - 1;
        assert(0 <= rest < last);
        let vl = votes[last].votes as int;
        let vr = votes[rest].votes as int;
        let dl: int = alloc[last] as int + 1;
        let dr: int = alloc[rest] as int + 1;
        let precedes = entry_precedes(
            vl,
            dl,
            votes[last].party@,
            vr,
            dr,
            votes[rest].party@,
        );
        assert(round_winner(votes, alloc) == if precedes {
            last
        } else {
            rest
        });
        if has_positive_votes(votes.drop_last()) {
            lemma_round_winner_positive(votes.drop_last(), alloc.drop_last());
            assert(votes.drop_last()[rest] == votes[rest]);
            assert(vr > 0);
            if round_winner(votes, alloc) == last && votes[last].votes == 0 {
                // a zero quotient can neither exceed nor equal a positive one
                assert(vr * dl > 0) by (nonlinear_arith)
                    requires
                        vr >= 1,
                        dl >= 1,
                ;
                assert(vl * dr == 0) by (nonlinear_arith)
                    requires
                        vl == 0,
                ;
                assert(!precedes);
                assert(false);
            }
        } else {
            // the only positive party is the last one
            let j = choose|j: int| 0 <= j < votes.len() && votes[j].votes > 0;
            assert(votes[j].votes > 0);
            if j < votes.len() - 1 {
                assert(votes.drop_last()[j].votes > 0);
                assert(false);
            }
            assert(vl > 0);
            if round_winner(votes, alloc) == rest {
                assert(votes.drop_last()[rest] == votes[rest]);
                if vr > 0 {
                    assert(has_positive_votes(votes.drop_last()));
                    assert(false);
                }
                assert(vr == 0);
                assert(vl * dr > 0) by (nonlinear_arith)
                    requires
                        vl >= 1,
                        dr >= 1,
                ;
                assert(vr * dl == 0) by (nonlinear_arith)
                    requires
                        vr == 0,
                ;
                assert(precedes);
                assert(false);
            }
        }
    }
}

pub proof fn lemma_dhondt_alloc_len(votes: Seq<PartyVotes>, rounds: nat)
    ensures
        dhondt_alloc(votes, rounds).len() == votes.len(),
    decreases rounds,
{
    if rounds > 0 {
        lemma_dhondt_alloc_len(votes, (rounds - 1) as nat);
        if votes.len() > 0 {
            lemma_round_winner_in_range(votes, dhondt_alloc(votes, (rounds - 1) as nat));
        }
    }
}

proof fn lemma_seq_sum_zeros(n: nat)
    ensures
        seq_sum(Seq::new(n, |i: int| 0nat)) == 0,
    decreases n,
{
    if n > 0 {
        lemma_seq_sum_zeros((n - 1) as nat);
        assert(Seq::new(n, |i: int| 0nat).drop_last() =~= Seq::new((n - 1) as nat, |i: int| 0nat));
    }
}

proof fn lemma_seq_sum_update(s: Seq<nat>, i: int, v: nat)
    requires
        0 <= i < s.len(),
    ensures
        seq_sum(s.update(i, v)) + s[i] == seq_sum(s) + v,
    decreases s.len(),
{
    if i == s.len() - 1 {
        assert(s.update(i, v).drop_last() =~= s.drop_last());
    } else {
        lemma_seq_sum_update(s.drop_last(), i, v);
        assert(s.update(i, v).drop_last() =~= s.drop_last().update(i, v));
    }
}

/// Conservation: after any number of D'Hondt rounds the per-party seat
/// counts sum to exactly the number of rounds, one seat per round.
pub proof fn lemma_dhondt_conservation(votes: Seq<PartyVotes>, rounds: nat)
    requires
        votes.len() > 0,
    ensures
        seq_sum(dhondt_alloc(votes, rounds)) == rounds,
    decreases rounds,
{
    if rounds == 0 {
        lemma_seq_sum_zeros(votes.len());
    } else {
        lemma_dhondt_conservation(votes, (rounds - 1) as nat);
        let prev = dhondt_alloc(votes, (rounds - 1) as nat);
        let w = round_winner(votes, prev);
        lemma_round_winner_in_range(votes, prev);
        lemma_dhondt_alloc_len(votes, (rounds - 1) as nat);
        lemma_seq_sum_update(prev, w, prev[w] + 1);
    }
}

/// No seats from zero votes: a party with zero votes in a block never
/// receives a seat there, as long as any party with votes is present.
pub proof fn lemma_no_seats_from_zero(votes: Seq<PartyVotes>, rounds: nat, i: int)
    requires
        0 <= i < votes.len(),
        votes[i].votes == 0,
        has_positive_votes(votes),
    ensures
        dhondt_alloc(votes, rounds)[i] == 0,
    decreases rounds,
{
    lemma_dhondt_alloc_len(votes, rounds);
    if rounds > 0 {
        lemma_no_seats_from_zero(votes, (rounds - 1) as nat, i);
        let prev = dhondt_alloc(votes, (rounds - 1) as nat);
        lemma_dhondt_alloc_len(votes, (rounds - 1) as nat);
        lemma_round_winner_in_range(votes, prev);
        lemma_round_winner_positive(votes, prev);
        assert(round_winner(votes, prev) != i);
    }
}

/// Compares two D'Hondt entries exactly. The quotients `v1 / d1` and
/// `v2 / d2` are compared as rationals by cross multiplication in 128-bit
/// arithmetic, which cannot overflow for 64-bit operands.
fn entry_precedes_exec(v1: u64, d1: usize, p1: &str, v2: u64, d2: usize, p2: &str) -> (r: bool)
    ensures
        r == entry_precedes(v1 as int, d1 as int, p1@, v2 as int, d2 as int, p2@),
{
    proof {
        assert((v1 as int) * (d2 as int) <= u128::MAX && (v2 as int) * (d1 as int) <= u128::MAX)
            by (nonlinear_arith)
            requires
                0 <= v1 as int <= u64::MAX,
                0 <= v2 as int <= u64::MAX,
                0 <= d1 as int <= u64::MAX,
                0 <= d2 as int <= u64::MAX,
        ;
    }
    let lhs: u128 = (v1 as u128) * (d2 as u128);
    let rhs: u128 = (v2 as u128) * (d1 as u128);
    if lhs > rhs {
        true
    } else if lhs < rhs {
        false
    } else if v1 > v2 {
        true
    } else if v1 < v2 {
        false
    } else if d1 < d2 {
        true
    } else if d1 > d2 {
        false
    } else {
        str_lt(p1, p2)
    }
}

/// Finds the winner of the next round: the index whose current entry is
/// preferred to every other, scanning left to right.
fn find_round_winner(votes: &Vec<PartyVotes>, alloc: &Vec<usize>) -> (w: usize)
    requires
        votes@.len() > 0,
        alloc@.len() == votes@.len(),
        forall|i: int| 0 <= i < alloc@.len() ==> alloc@[i] < usize::MAX,
    ensures
        w < votes@.len(),
        w as int == round_winner(votes@, counts_of(alloc@)),
{
    let n = votes.len();
    let mut best: usize = 0;
    let mut i: usize = 1;
    while i < n
        invariant
            1 <= i <= n,
            best < i,
            n == votes@.len(),
            alloc@.len() == n,
            forall|k: int| 0 <= k < n ==> alloc@[k] < usize::MAX,
            best as int == round_winner(votes@.take(i as int), counts_of(alloc@).take(i as int)),
        decreases n - i,
    {
        let d_i = alloc[i] + 1;
        let d_best = alloc[best] + 1;
        let prefer = entry_precedes_exec(
            votes[i].votes,
            d_i,
            votes[i].party.as_str(),
            votes[best].votes,
            d_best,
            votes[best].party.as_str(),
        );
        proof {
            let vt = votes@.take(i + 1);
            let at = counts_of(alloc@).take(i + 1);
            assert(vt.drop_last() =~= votes@.take(i as int));
            assert(at.drop_last() =~= counts_of(alloc@).take(i as int));
            assert(vt[i as int] == votes@[i as int]);
            assert(vt[best as int] == votes@[best as int]);
            assert(at[i as int] == alloc@[i as int] as nat);
            assert(at[best as int] == alloc@[best as int] as nat);
        }
        if prefer {
            best = i;
        }
        i = i + 1;
    }
    proof {
        assert(votes@.take(n as int) =~= votes@);
        assert(counts_of(alloc@).take(n as int) =~= counts_of(alloc@));
    }
    best
}

/// Apportions one block's seats among its parties by the D'Hondt method.
///
/// On success the result is aligned with `block.votes`: entry `i` is the
/// number of seats of `block.votes[i].party`, the counts follow exactly
/// the round-by-round highest-averages allocation, and they sum to
/// exactly `seats`. A block with zero total votes has no defined
/// apportionment and is rejected.
pub fn apportion_block(block: &PrBlockResult, seats: usize) -> (r: Result<
    Vec<usize>,
    ElectionError,
>)
    requires
        seats >= 1,
    ensures
        (r is Ok) == has_positive_votes(block.votes@),
        r matches Ok(alloc) ==> {
            &&& alloc@.len() == block.votes@.len()
            &&& counts_of(alloc@) == dhondt_alloc(block.votes@, seats as nat)
            &&& seq_sum(counts_of(alloc@)) == seats
        },
        r matches Err(e) ==> (e matches ElectionError::NoVotes { block: b } && b@
            == block.block@),
{
    let n = block.votes.len();
    let mut any: bool = false;
    let mut k: usize = 0;
    while k < n
        invariant
            k <= n,
            n == block.votes@.len(),
            any == exists|j: int| 0 <= j < k && block.votes@[j].votes > 0,
        decreases n - k,
    {
        if block.votes[k].votes > 0 {
            any = true;
        }
        k = k + 1;
    }
    if !any {
        return Err(ElectionError::NoVotes { block: block.block.clone() });
    }
    let mut alloc: Vec<usize> = Vec::new();
    let mut z: usize = 0;
    while z < n
        invariant
            z <= n,
            alloc@.len() == z,
            forall|i: int| 0 <= i < z ==> alloc@[i] == 0,
        decreases n - z,
    {
        alloc.push(0);
        z = z + 1;
    }
    proof {
        assert(counts_of(alloc@) =~= dhondt_alloc(block.votes@, 0));
    }
    let mut round: usize = 0;
    while round < seats
        invariant
            round <= seats,
            n == block.votes@.len(),
            n > 0,
            alloc@.len() == n,
            counts_of(alloc@) == dhondt_alloc(block.votes@, round as nat),
            forall|i: int| 0 <= i < n ==> alloc@[i] <= round,
        decreases seats - round,
    {
        proof {
            lemma_dhondt_alloc_len(block.votes@, round as nat);
        }
        let w = find_round_winner(&block.votes, &alloc);
        let cur = alloc[w];
        alloc.set(w, cur + 1);
        proof {
            assert(counts_of(alloc@) =~= dhondt_alloc(block.votes@, (round + 1) as nat));
        }
        round = round + 1;
    }
    proof {
        lemma_dhondt_conservation(block.votes@, seats as nat);
    }
    Ok(alloc)
}

} // verus!
