//! Plurality winner selection for single-member districts.
//!
//! Each district awards its one seat to the candidate with the highest
//! vote count. Ties are broken deterministically: among candidates with
//! the maximum count, the one whose identifier — name first, then party —
//! is lexicographically smallest wins, so the same input always yields
//! the same winner regardless of storage or iteration order.

use vstd::prelude::*;

use crate::errors::ElectionError;
use crate::order::lemma_lex_lt_irreflexive;
use crate::order::lemma_lex_lt_transitive;
use crate::order::lex_lt;
use crate::order::str_eq;
use crate::order::str_lt;

verus! {

/// One candidacy in a plurality district: the candidate's name (unique
/// within the district), their party, and their vote count.
#[derive(Debug)]
pub struct Candidate {
    pub name: String,
    pub party: String,
    pub votes: u64,
}

/// One single-member district: its identifier and all its candidacies.
#[derive(Debug)]
pub struct FptpDistrictResult {
    pub district: String,
    pub candidates: Vec<Candidate>,
}

/// Candidate `a` is strictly preferred to candidate `b`: more votes, or
/// the same votes and an identifier — name, then party — that is
/// lexicographically smaller.
pub open spec fn cand_precedes(a: Candidate, b: Candidate) -> bool {
    a.votes > b.votes || (a.votes == b.votes && (lex_lt(a.name@, b.name@) || (a.name@ == b.name@
        && lex_lt(a.party@, b.party@))))
}

/// The index of the district's winner: the candidate preferred to every
/// other. The scan keeps the earlier candidate unless a later one is
/// strictly preferred.
pub open spec fn winner_idx(s: Seq<Candidate>) -> int
    recommends
        s.len() > 0,
    decreases s.len(),
{
    if s.len() <= 1 {
        0
    } else {
        let rest = winner_idx(s.drop_last());
        let last = s.len() - 1;
        if cand_precedes(s[last], s[rest]) {
            last
        } else {
            rest
        }
    }
}

/// No candidate is strictly preferred to itself.
proof fn lemma_cand_precedes_irreflexive(a: Candidate)
    ensures
        !cand_precedes(a, a),
{
    lemma_lex_lt_irreflexive(a.name@);
    lemma_lex_lt_irreflexive(a.party@);
}

/// The candidate preference is transitive.
proof fn lemma_cand_precedes_transitive(a: Candidate, b: Candidate, c: Candidate)
    requires
        cand_precedes(a, b),
        cand_precedes(b, c),
    ensures
        cand_precedes(a, c),
{
    if a.votes == b.votes && b.votes == c.votes {
        if lex_lt(a.name@, b.name@) && lex_lt(b.name@, c.name@) {
            lemma_lex_lt_transitive(a.name@, b.name@, c.name@);
        } else if a.name@ == b.name@ && b.name@ == c.name@ {
            lemma_lex_lt_transitive(a.party@, b.party@, c.party@);
        }
    }
}

/// The winner is maximal: no candidate in the district is strictly
/// preferred to it.
pub proof fn lemma_winner_maximal(s: Seq<Candidate>)
    requires
        s.len() > 0,
    ensures
        0 <= winner_idx(s) < s.len(),
        forall|k: int| 0 <= k < s.len() ==> !cand_precedes(s[k], s[winner_idx(s)]),
    decreases s.len(),
{
    if s.len() <= 1 {
        lemma_cand_precedes_irreflexive(s[0]);
    } else {
        lemma_winner_maximal(s.drop_last());
        let rest = winner_idx(s.drop_last());
        let last = s.len() - 1;
        assert(forall|k: int| 0 <= k < last ==> s.drop_last()[k] == s[k]);
        if cand_precedes(s[last], s[rest]) {
            assert forall|k: int| 0 <= k < s.len() implies !cand_precedes(s[k], s[last]) by {
                if k == last {
                    lemma_cand_precedes_irreflexive(s[last]);
                } else if cand_precedes(s[k], s[last]) {
                    lemma_cand_precedes_transitive(s[k], s[last], s[rest]);
                    assert(false);
                }
            }
        }
    }
}

/// Compares two candidates in the preference order of `cand_precedes`.
fn cand_precedes_exec(a: &Candidate, b: &Candidate) -> (r: bool)
    ensures
        r == cand_precedes(*a, *b),
{
    if a.votes > b.votes {
        true
    } else if a.votes < b.votes {
        false
    } else if str_lt(a.name.as_str(), b.name.as_str()) {
        true
    } else if str_eq(a.name.as_str(), b.name.as_str()) {
        str_lt(a.party.as_str(), b.party.as_str())
    } else {
        false
    }
}

/// Determines the party that wins one district's single seat: the party
/// of the candidate with the highest vote count, ties broken by the
/// lexicographically smallest candidate identifier (name, then party).
/// A district with no candidates at all has no winner and is rejected.
pub fn resolve_district(district: &FptpDistrictResult) -> (r: Result<String, ElectionError>)
    ensures
        (r is Ok) == (district.candidates@.len() > 0),
        r matches Ok(p) ==> p@ == district.candidates@[winner_idx(district.candidates@)].party@,
        r matches Err(e) ==> (e matches ElectionError::EmptyDistrict { district: d } && d@
            == district.district@),
{
    let n = district.candidates.len();
    if n == 0 {
        return Err(ElectionError::EmptyDistrict { district: district.district.clone() });
    }
    let mut best: usize = 0;
    let mut i: usize = 1;
    while i < n
        invariant
            1 <= i <= n,
            best < i,
            n == district.candidates@.len(),
            best as int == winner_idx(district.candidates@.take(i as int)),
        decreases n - i,
    {
        let prefer = cand_precedes_exec(&district.candidates[i], &district.candidates[best]);
        proof {
            let ct = district.candidates@.take(i + 1);
            assert(ct.drop_last() =~= district.candidates@.take(i as int));
            assert(ct[i as int] == district.candidates@[i as int]);
            assert(ct[best as int] == district.candidates@[best as int]);
        }
        if prefer {
            best = i;
        }
        i = i + 1;
    }
    proof {
        assert(district.candidates@.take(n as int) =~= district.candidates@);
    }
    Ok(district.candidates[best].party.clone())
}

} // verus!
