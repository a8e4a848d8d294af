//! Vote monotonicity of the D'Hondt apportionment.
//!
//! Raising one party's vote count, with the block's seat count and every
//! other party's votes fixed, never lowers that party's awarded seats.
//! The proof rests on a separation property of the round-by-round
//! allocation: after any number of rounds, every awarded entry — a party
//! at one of its used divisors — is strictly preferred to every entry
//! not yet awarded. Raising a party's votes strictly improves each of
//! its entries against every other party's entries and leaves all other
//! comparisons unchanged, so no seat the party held can move elsewhere.

use vstd::prelude::*;

use crate::dhondt::dhondt_alloc;
use crate::dhondt::entry_precedes;
use crate::dhondt::lemma_dhondt_alloc_len;
use crate::dhondt::lemma_dhondt_conservation;
use crate::dhondt::lemma_round_winner_in_range;
use crate::dhondt::round_winner;
use crate::dhondt::seq_sum;
use crate::dhondt::PartyVotes;
use crate::order::lemma_lex_lt_irreflexive;
use crate::order::lemma_lex_lt_total;
use crate::order::lemma_lex_lt_transitive;

verus! {

/// Every party appears at most once in the block.
pub open spec fn distinct_parties(votes: Seq<PartyVotes>) -> bool {
    forall|i: int, j: int|
        0 <= i < j < votes.len() ==> votes[i].party@ != votes[j].party@
}

/// No entry is strictly preferred to itself.
proof fn lemma_entry_irrefl(v: int, d: int, p: Seq<char>)
    ensures
        !entry_precedes(v, d, p, v, d, p),
{
    lemma_lex_lt_irreflexive(p);
}

/// The entry preference is asymmetric.
proof fn lemma_entry_asym(v1: int, d1: int, p1: Seq<char>, v2: int, d2: int, p2: Seq<char>)
    requires
        entry_precedes(v1, d1, p1, v2, d2, p2),
    ensures
        !entry_precedes(v2, d2, p2, v1, d1, p1),
{
    if entry_precedes(v2, d2, p2, v1, d1, p1) {
        if v1 == v2 && d1 == d2 && lex_both(p1, p2) {
            lemma_lex_lt_transitive(p1, p2, p1);
            lemma_lex_lt_irreflexive(p1);
        }
        assert(false);
    }
}

/// Both directions of the lexicographic order at once.
spec fn lex_both(p1: Seq<char>, p2: Seq<char>) -> bool {
    crate::order::lex_lt(p1, p2) && crate::order::lex_lt(p2, p1)
}

/// Entries of parties with different identifiers are always strictly
/// ordered one way or the other.
proof fn lemma_entry_total(v1: int, d1: int, p1: Seq<char>, v2: int, d2: int, p2: Seq<char>)
    requires
        p1 != p2,
    ensures
        entry_precedes(v1, d1, p1, v2, d2, p2) || entry_precedes(v2, d2, p2, v1, d1, p1),
{
    if !entry_precedes(v1, d1, p1, v2, d2, p2) && !entry_precedes(v2, d2, p2, v1, d1, p1) {
        lemma_lex_lt_total(p1, p2);
        assert(false);
    }
}

/// The entry preference is transitive.
proof fn lemma_entry_trans(
    v1: int,
    d1: int,
    p1: Seq<char>,
    v2: int,
    d2: int,
    p2: Seq<char>,
    v3: int,
    d3: int,
    p3: Seq<char>,
)
    requires
        1 <= d1,
        1 <= d2,
        1 <= d3,
        entry_precedes(v1, d1, p1, v2, d2, p2),
        entry_precedes(v2, d2, p2, v3, d3, p3),
    ensures
        entry_precedes(v1, d1, p1, v3, d3, p3),
{
    if v1 * d2 > v2 * d1 {
        if v2 * d3 > v3 * d2 {
            assert(v1 * d3 > v3 * d1) by (nonlinear_arith)
                requires
                    1 <= d1,
                    1 <= d2,
                    1 <= d3,
                    v1 * d2 > v2 * d1,
                    v2 * d3 > v3 * d2,
            ;
        } else {
            assert(v1 * d3 > v3 * d1) by (nonlinear_arith)
                requires
                    1 <= d1,
                    1 <= d2,
                    1 <= d3,
                    v1 * d2 > v2 * d1,
                    v2 * d3 == v3 * d2,
            ;
        }
    } else {
        if v2 * d3 > v3 * d2 {
            assert(v1 * d3 > v3 * d1) by (nonlinear_arith)
                requires
                    1 <= d1,
                    1 <= d2,
                    1 <= d3,
                    v1 * d2 == v2 * d1,
                    v2 * d3 > v3 * d2,
            ;
        } else {
            assert(v1 * d3 == v3 * d1) by (nonlinear_arith)
                requires
                    1 <= d1,
                    1 <= d2,
                    1 <= d3,
                    v1 * d2 == v2 * d1,
                    v2 * d3 == v3 * d2,
            ;
            if v1 == v2 && v2 == v3 && d1 == d2 && d2 == d3 && crate::order::lex_lt(p1, p2)
                && crate::order::lex_lt(p2, p3) {
                lemma_lex_lt_transitive(p1, p2, p3);
            }
        }
    }
}

/// For one party, a lower divisor is always strictly preferred.
proof fn lemma_entry_divisor_mono(v: int, p: Seq<char>, e: int, e2: int)
    requires
        0 <= v,
        1 <= e < e2,
    ensures
        entry_precedes(v, e, p, v, e2, p),
{
    if v >= 1 {
        assert(v * e2 > v * e) by (nonlinear_arith)
            requires
                v >= 1,
                e < e2,
        ;
    } else {
        assert(v * e2 == 0 && v * e == 0) by (nonlinear_arith)
            requires
                v == 0,
        ;
    }
}

/// Raising an entry's vote total strictly improves it against any entry
/// it was already at least tied with.
proof fn lemma_entry_boost(
    v: int,
    d: int,
    p: Seq<char>,
    vb: int,
    u: int,
    e: int,
    pu: Seq<char>,
)
    requires
        0 <= v < vb,
        1 <= d,
        1 <= e,
        entry_precedes(v, d, p, u, e, pu),
    ensures
        entry_precedes(vb, d, p, u, e, pu),
{
    assert(vb * e > v * e) by (nonlinear_arith)
        requires
            v < vb,
            1 <= e,
    ;
}

/// The round winner's current entry is preferred or equal to every
/// party's current entry: no current entry strictly precedes it.
proof fn lemma_round_winner_maximal(votes: Seq<PartyVotes>, alloc: Seq<nat>)
    requires
        votes.len() > 0,
        alloc.len() == votes.len(),
    ensures
        forall|q: int|
            #![trigger votes[q], alloc[q]]
            0 <= q < votes.len() ==> !entry_precedes(
                votes[q].votes as int,
                alloc[q] as int + 1,
                votes[q].party@,
                votes[round_winner(votes, alloc)].votes as int,
                alloc[round_winner(votes, alloc)] as int + 1,
                votes[round_winner(votes, alloc)].party@,
            ),
    decreases votes.len(),
{
    lemma_round_winner_in_range(votes, alloc);
    let w = round_winner(votes, alloc);
    if votes.len() <= 1 {
        lemma_entry_irrefl(votes[0].votes as int, alloc[0] as int + 1, votes[0].party@);
    } else {
        lemma_round_winner_maximal(votes.drop_last(), alloc.drop_last());
        lemma_round_winner_in_range(votes.drop_last(), alloc.drop_last());
        let rest = round_winner(votes.drop_last(), alloc.drop_last());
        let last = votes.len() - 1;
        assert(forall|k: int| 0 <= k < last ==> votes.drop_last()[k] == votes[k]);
        assert(forall|k: int| 0 <= k < last ==> alloc.drop_last()[k] == alloc[k]);
        if entry_precedes(
            votes[last].votes as int,
            alloc[last] as int + 1,
            votes[last].party@,
            votes[rest].votes as int,
            alloc[rest] as int + 1,
            votes[rest].party@,
        ) {
            assert forall|q: int|
                0 <= q < votes.len() implies !entry_precedes(
                votes[q].votes as int,
                alloc[q] as int + 1,
                votes[q].party@,
                votes[last].votes as int,
                alloc[last] as int + 1,
                votes[last].party@,
            ) by {
                if q == last {
                    lemma_entry_irrefl(
                        votes[last].votes as int,
                        alloc[last] as int + 1,
                        votes[last].party@,
                    );
                } else if entry_precedes(
                    votes[q].votes as int,
                    alloc[q] as int + 1,
                    votes[q].party@,
                    votes[last].votes as int,
                    alloc[last] as int + 1,
                    votes[last].party@,
                ) {
                    lemma_entry_trans(
                        votes[q].votes as int,
                        alloc[q] as int + 1,
                        votes[q].party@,
                        votes[last].votes as int,
                        alloc[last] as int + 1,
                        votes[last].party@,
                        votes[rest].votes as int,
                        alloc[rest] as int + 1,
                        votes[rest].party@,
                    );
                    assert(false);
                }
            }
        }
    }
}

/// Separation: after any number of rounds, every awarded entry — a party
/// at a divisor it has already used — is strictly preferred to every
/// entry not yet awarded.
proof fn lemma_dhondt_separation(votes: Seq<PartyVotes>, k: nat)
    requires
        votes.len() > 0,
        distinct_parties(votes),
    ensures
        forall|q: int, q2: int, e: int, e2: int|
            0 <= q < votes.len() && 0 <= q2 < votes.len() && 1 <= e && e <= dhondt_alloc(
                votes,
                k,
            )[q] && e2 > dhondt_alloc(votes, k)[q2] ==> #[trigger] entry_precedes(
                votes[q].votes as int,
                e,
                votes[q].party@,
                votes[q2].votes as int,
                e2,
                votes[q2].party@,
            ),
    decreases k,
{
    if k > 0 {
        lemma_dhondt_separation(votes, (k - 1) as nat);
        let prev = dhondt_alloc(votes, (k - 1) as nat);
        lemma_dhondt_alloc_len(votes, (k - 1) as nat);
        lemma_dhondt_alloc_len(votes, k);
        let w = round_winner(votes, prev);
        lemma_round_winner_in_range(votes, prev);
        lemma_round_winner_maximal(votes, prev);
        let alloc = dhondt_alloc(votes, k);
        assert(alloc == prev.update(w, prev[w] + 1));
        assert forall|q: int, q2: int, e: int, e2: int|
            0 <= q < votes.len() && 0 <= q2 < votes.len() && 1 <= e && e <= alloc[q] && e2
                > alloc[q2] implies entry_precedes(
            votes[q].votes as int,
            e,
            votes[q].party@,
            votes[q2].votes as int,
            e2,
            votes[q2].party@,
        ) by {
            if q == w && e == prev[w] + 1 {
                if q2 == w {
                    lemma_entry_divisor_mono(votes[q].votes as int, votes[q].party@, e, e2);
                } else {
                    lemma_entry_total(
                        votes[w].votes as int,
                        prev[w] as int + 1,
                        votes[w].party@,
                        votes[q2].votes as int,
                        prev[q2] as int + 1,
                        votes[q2].party@,
                    );
                    assert(entry_precedes(
                        votes[w].votes as int,
                        prev[w] as int + 1,
                        votes[w].party@,
                        votes[q2].votes as int,
                        prev[q2] as int + 1,
                        votes[q2].party@,
                    ));
                    if e2 > prev[q2] + 1 {
                        lemma_entry_divisor_mono(
                            votes[q2].votes as int,
                            votes[q2].party@,
                            prev[q2] as int + 1,
                            e2,
                        );
                        lemma_entry_trans(
                            votes[w].votes as int,
                            prev[w] as int + 1,
                            votes[w].party@,
                            votes[q2].votes as int,
                            prev[q2] as int + 1,
                            votes[q2].party@,
                            votes[q2].votes as int,
                            e2,
                            votes[q2].party@,
                        );
                    }
                }
            } else {
                assert(e <= prev[q]);
                assert(e2 > prev[q2]);
                assert(entry_precedes(
                    votes[q].votes as int,
                    e,
                    votes[q].party@,
                    votes[q2].votes as int,
                    e2,
                    votes[q2].party@,
                ));
            }
        }
    }
}

proof fn lemma_seq_sum_pointwise_le(s2: Seq<nat>, s: Seq<nat>)
    requires
        s2.len() == s.len(),
        forall|q: int| 0 <= q < s.len() ==> s2[q] <= s[q],
    ensures
        seq_sum(s2) <= seq_sum(s),
    decreases s.len(),
{
    if s.len() > 0 {
        assert(forall|q: int| 0 <= q < s.len() - 1 ==> s2.drop_last()[q] == s2[q]);
        assert(forall|q: int| 0 <= q < s.len() - 1 ==> s.drop_last()[q] == s[q]);
        lemma_seq_sum_pointwise_le(s2.drop_last(), s.drop_last());
    }
}

proof fn lemma_seq_sum_pointwise_except(s2: Seq<nat>, s: Seq<nat>, i: int)
    requires
        s2.len() == s.len(),
        0 <= i < s.len(),
        forall|q: int| 0 <= q < s.len() && q != i ==> s2[q] <= s[q],
    ensures
        seq_sum(s2) + s[i] <= seq_sum(s) + s2[i],
    decreases s.len(),
{
    assert(forall|q: int| 0 <= q < s.len() - 1 ==> s2.drop_last()[q] == s2[q]);
    assert(forall|q: int| 0 <= q < s.len() - 1 ==> s.drop_last()[q] == s[q]);
    if i == s.len() - 1 {
        lemma_seq_sum_pointwise_le(s2.drop_last(), s.drop_last());
    } else {
        lemma_seq_sum_pointwise_except(s2.drop_last(), s.drop_last(), i);
    }
}

/// Monotonicity: for a fixed block — fixed seat count and fixed votes of
/// every other party — strictly raising one party's vote count never
/// lowers that party's awarded seats.
pub proof fn lemma_dhondt_monotonicity(
    votes: Seq<PartyVotes>,
    boosted: Seq<PartyVotes>,
    rounds: nat,
    i: int,
)
    requires
        votes.len() == boosted.len(),
        0 <= i < votes.len(),
        forall|q: int| 0 <= q < votes.len() && q != i ==> boosted[q] == votes[q],
        boosted[i].party@ == votes[i].party@,
        boosted[i].votes > votes[i].votes,
        distinct_parties(votes),
    ensures
        dhondt_alloc(boosted, rounds)[i] >= dhondt_alloc(votes, rounds)[i],
{
    let n = votes.len() as int;
    let a = dhondt_alloc(votes, rounds);
    let a2 = dhondt_alloc(boosted, rounds);
    lemma_dhondt_alloc_len(votes, rounds);
    lemma_dhondt_alloc_len(boosted, rounds);
    assert(forall|q: int| 0 <= q < n ==> boosted[q].party@ == votes[q].party@);
    assert(distinct_parties(boosted));
    if a2[i] < a[i] {
        lemma_dhondt_separation(votes, rounds);
        lemma_dhondt_separation(boosted, rounds);
        let ei: int = a2[i] as int + 1;
        assert(ei <= a[i]);
        assert forall|q: int| 0 <= q < n && q != i implies a2[q] <= a[q] by {
            if a2[q] > a[q] {
                let e: int = a[q] as int + 1;
                assert(e <= a2[q]);
                // under the boosted votes, (q, e) is awarded while the
                // raised party's entry (i, ei) is not
                assert(entry_precedes(
                    boosted[q].votes as int,
                    e,
                    boosted[q].party@,
                    boosted[i].votes as int,
                    ei,
                    boosted[i].party@,
                ));
                // under the original votes, (i, ei) is awarded while
                // (q, e) is not
                assert(entry_precedes(
                    votes[i].votes as int,
                    ei,
                    votes[i].party@,
                    votes[q].votes as int,
                    e,
                    votes[q].party@,
                ));
                // raising the vote total preserves that preference
                lemma_entry_boost(
                    votes[i].votes as int,
                    ei,
                    votes[i].party@,
                    boosted[i].votes as int,
                    votes[q].votes as int,
                    e,
                    votes[q].party@,
                );
                lemma_entry_asym(
                    boosted[i].votes as int,
                    ei,
                    boosted[i].party@,
                    boosted[q].votes as int,
                    e,
                    boosted[q].party@,
                );
                assert(false);
            }
        }
        lemma_dhondt_conservation(votes, rounds);
        lemma_dhondt_conservation(boosted, rounds);
        lemma_seq_sum_pointwise_except(a2, a, i);
        assert(false);
    }
}

} // verus!
