use seat_alloc::apportion_block;
use seat_alloc::resolve_district;
use seat_alloc::Candidate;
use seat_alloc::ElectionError;
use seat_alloc::FptpDistrictResult;
use seat_alloc::PartyVotes;
use seat_alloc::PrBlockResult;

fn candidate(name: &str, party: &str, votes: u64) -> Candidate {
    Candidate { name: name.to_owned(), party: party.to_owned(), votes }
}

fn district(name: &str, candidates: Vec<Candidate>) -> FptpDistrictResult {
    FptpDistrictResult { district: name.to_owned(), candidates }
}

fn block(name: &str, votes: Vec<(&str, u64)>) -> PrBlockResult {
    PrBlockResult {
        block: name.to_owned(),
        votes: votes
            .into_iter()
            .map(|(party, votes)| PartyVotes { party: party.to_owned(), votes })
            .collect(),
    }
}

#[test]
fn fptp_winner_by_plurality() {
    let d = district(
        "district1",
        vec![candidate("a", "cdp", 100_000), candidate("b", "ldp", 200_000)],
    );
    assert_eq!(resolve_district(&d).unwrap(), "ldp");
}

#[test]
fn fptp_empty_district_fails() {
    let d = district("empty", vec![]);
    let e = resolve_district(&d).unwrap_err();
    assert_eq!(e, ElectionError::EmptyDistrict { district: "empty".to_owned() });
}

#[test]
fn fptp_tie_breaks_by_smallest_name() {
    let d = district(
        "tied",
        vec![candidate("zeta", "p2", 5000), candidate("alpha", "p1", 5000)],
    );
    assert_eq!(resolve_district(&d).unwrap(), "p1");
    // same candidates in the other storage order: same winner
    let d2 = district(
        "tied",
        vec![candidate("alpha", "p1", 5000), candidate("zeta", "p2", 5000)],
    );
    assert_eq!(resolve_district(&d2).unwrap(), "p1");
}

#[test]
fn fptp_tie_breaks_by_party_when_names_equal() {
    let d = district(
        "tied",
        vec![candidate("same", "zzz", 7), candidate("same", "aaa", 7)],
    );
    assert_eq!(resolve_district(&d).unwrap(), "aaa");
}

#[test]
fn dhondt_hokkaido_example() {
    // quotients for ldp (divisors 1..=8): 200000, 100000, 66666.67, ...
    // and for cdp: 120000, 60000, 40000, ...; the eight largest pick
    // ldp's divisors 1-5 and cdp's divisors 1-3
    let b = block("Hokkaido", vec![("cdp", 120_000), ("ldp", 200_000)]);
    let alloc = apportion_block(&b, 8).unwrap();
    assert_eq!(alloc, vec![3, 5]);
}

#[test]
fn dhondt_conserves_seat_total() {
    let b = block("B", vec![("a", 17), ("b", 23), ("c", 5), ("d", 0)]);
    for seats in 1..=20 {
        let alloc = apportion_block(&b, seats).unwrap();
        assert_eq!(alloc.iter().sum::<usize>(), seats);
    }
}

#[test]
fn dhondt_zero_vote_party_gets_no_seat() {
    let b = block("B", vec![("a", 0), ("b", 100)]);
    let alloc = apportion_block(&b, 5).unwrap();
    assert_eq!(alloc, vec![0, 5]);
}

#[test]
fn dhondt_all_zero_votes_fails() {
    let b = block("Hokkaido", vec![("cdp", 0), ("ldp", 0)]);
    let e = apportion_block(&b, 8).unwrap_err();
    assert_eq!(e, ElectionError::NoVotes { block: "Hokkaido".to_owned() });
}

#[test]
fn dhondt_no_parties_fails() {
    let b = block("empty", vec![]);
    let e = apportion_block(&b, 3).unwrap_err();
    assert_eq!(e, ElectionError::NoVotes { block: "empty".to_owned() });
}

#[test]
fn dhondt_equal_quotient_tie_prefers_higher_vote_total() {
    // 200000/5 == 120000/3 == 40000: the party with the higher original
    // total is ranked first on the tied quotient
    let b = block("B", vec![("low", 120_000), ("high", 200_000)]);
    // seven seats: high takes divisors 1-4, low takes 1-2; the eighth
    // entry in order is the tied 40000, which goes to high first
    let alloc = apportion_block(&b, 7).unwrap();
    assert_eq!(alloc, vec![2, 5]);
}

#[test]
fn dhondt_tie_at_equal_votes_breaks_by_party_name() {
    // identical vote counts at the same divisor: ascending party
    // identifier wins the odd seat
    let b = block("B", vec![("bbb", 1000), ("aaa", 1000)]);
    let alloc = apportion_block(&b, 3).unwrap();
    assert_eq!(alloc, vec![1, 2]);
}

#[test]
fn dhondt_monotone_in_own_votes() {
    // raising one party's votes, all else fixed, never lowers its seats
    let seats = 6;
    let mut prev: usize = 0;
    for v in [0u64, 10, 40, 55, 120, 300, 1000] {
        let b = block("B", vec![("a", v), ("b", 100), ("c", 60)]);
        let alloc = apportion_block(&b, seats).unwrap();
        assert!(alloc[0] >= prev);
        prev = alloc[0];
    }
}
