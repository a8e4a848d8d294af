use seat_alloc::default_block_seats;
use seat_alloc::BlockSeats;
use seat_alloc::Candidate;
use seat_alloc::ElectionError;
use seat_alloc::FptpDistrictResult;
use seat_alloc::FptpSeats;
use seat_alloc::FptpVotes;
use seat_alloc::PartyVotes;
use seat_alloc::PrBlockResult;
use seat_alloc::PrDistrict;
use seat_alloc::PrSeats;
use seat_alloc::PrVotes;
use seat_alloc::SeatConfig;
use seat_alloc::Votes;

fn snapshot() -> Votes {
    Votes {
        fptp: FptpVotes {
            districts: vec![FptpDistrictResult {
                district: "district1".to_owned(),
                candidates: vec![
                    Candidate { name: "a".to_owned(), party: "cdp".to_owned(), votes: 100_000 },
                    Candidate { name: "b".to_owned(), party: "ldp".to_owned(), votes: 200_000 },
                ],
            }],
        },
        pr: PrVotes {
            blocks: vec![PrBlockResult {
                block: "Hokkaido".to_owned(),
                votes: vec![
                    PartyVotes { party: "cdp".to_owned(), votes: 120_000 },
                    PartyVotes { party: "ldp".to_owned(), votes: 200_000 },
                ],
            }],
        },
    }
}

fn config() -> SeatConfig {
    SeatConfig {
        blocks: vec![BlockSeats { block: "Hokkaido".to_owned(), seats: 8 }],
        districts: vec!["district1".to_owned()],
        pr_seat_total: 8,
    }
}

#[test]
fn combined_snapshot_tally() {
    let seats = snapshot().get_seats(&config()).unwrap();
    assert_eq!(seats.fptp_seats("ldp"), 1);
    assert_eq!(seats.pr_seats("ldp"), 5);
    assert_eq!(seats.total_seats("ldp"), 6);
    assert_eq!(seats.fptp_seats("cdp"), 0);
    assert_eq!(seats.pr_seats("cdp"), 3);
    assert_eq!(seats.total_seats("cdp"), 3);
}

#[test]
fn combined_tally_party_enumeration() {
    let seats = snapshot().get_seats(&config()).unwrap();
    let mut parties = seats.parties();
    parties.sort();
    assert_eq!(parties, vec!["cdp".to_owned(), "ldp".to_owned()]);
}

#[test]
fn pipeline_is_deterministic() {
    let first = snapshot().get_seats(&config()).unwrap();
    let second = snapshot().get_seats(&config()).unwrap();
    let mut parties = first.fptp.parties();
    parties.extend(first.pr.parties());
    assert!(!parties.is_empty());
    for p in &parties {
        assert_eq!(first.fptp_seats(p), second.fptp_seats(p));
        assert_eq!(first.pr_seats(p), second.pr_seats(p));
        assert_eq!(first.total_seats(p), second.total_seats(p));
    }
    assert_eq!(first.fptp.parties(), second.fptp.parties());
    assert_eq!(first.pr.parties(), second.pr.parties());
}

#[test]
fn pipeline_no_votes_block_fails() {
    let mut v = snapshot();
    v.pr.blocks[0].votes[0].votes = 0;
    v.pr.blocks[0].votes[1].votes = 0;
    let e = v.get_seats(&config()).unwrap_err();
    assert_eq!(e, ElectionError::NoVotes { block: "Hokkaido".to_owned() });
}

#[test]
fn pipeline_empty_district_fails() {
    let mut v = snapshot();
    v.fptp.districts[0].candidates.clear();
    let e = v.get_seats(&config()).unwrap_err();
    assert_eq!(e, ElectionError::EmptyDistrict { district: "district1".to_owned() });
}

#[test]
fn pipeline_unknown_district_fails() {
    let v = snapshot();
    let mut cfg = config();
    cfg.districts.clear();
    let e = v.get_seats(&cfg).unwrap_err();
    assert_eq!(e, ElectionError::UnknownRegion { region: "district1".to_owned() });
}

#[test]
fn pipeline_unknown_block_fails() {
    let mut v = snapshot();
    v.pr.blocks[0].block = "Atlantis".to_owned();
    let e = v.get_seats(&config()).unwrap_err();
    assert_eq!(e, ElectionError::UnknownRegion { region: "Atlantis".to_owned() });
}

#[test]
fn pipeline_seat_config_mismatch_fails() {
    let v = snapshot();
    let mut cfg = config();
    cfg.pr_seat_total = 176;
    let e = v.get_seats(&cfg).unwrap_err();
    assert_eq!(e, ElectionError::SeatConfigMismatch { configured: 8, expected: 176 });
}

#[test]
fn pipeline_conserves_block_seats() {
    let seats = snapshot().get_seats(&config()).unwrap();
    assert_eq!(seats.pr_seats("ldp") + seats.pr_seats("cdp"), 8);
    assert_eq!(seats.fptp_seats("ldp") + seats.fptp_seats("cdp"), 1);
}

#[test]
fn tally_counters_accumulate() {
    let mut f = FptpSeats::new();
    assert_eq!(f.count("x"), 0);
    f.add_seat("x".to_owned());
    f.add_seat("x".to_owned());
    f.add_seat("y".to_owned());
    assert_eq!(f.count("x"), 2);
    assert_eq!(f.count("y"), 1);
    assert_eq!(f.count("z"), 0);
    assert_eq!(f.parties(), vec!["x".to_owned(), "y".to_owned()]);

    let mut p = PrSeats::new();
    p.add_seat("x".to_owned());
    assert_eq!(p.count("x"), 1);
    assert_eq!(p.parties(), vec!["x".to_owned()]);
}

#[test]
fn default_blocks_sum_to_house_total() {
    let blocks = default_block_seats();
    assert_eq!(blocks.len(), 11);
    assert_eq!(blocks.iter().map(|b| b.seats).sum::<usize>(), 176);
    assert_eq!(blocks[0].block, "Hokkaido");
    assert_eq!(blocks[0].seats, 8);
    assert_eq!(PrDistrict::Kinki.seats(), 28);
    assert_eq!(PrDistrict::Shikoku.seats(), 6);
    assert_eq!(PrDistrict::Tokyo.name(), "Tokyo");
}

#[test]
fn full_default_config_run() {
    // a snapshot against the full current block table
    let mut blocks = Vec::new();
    for b in default_block_seats() {
        blocks.push(PrBlockResult {
            block: b.block.clone(),
            votes: vec![
                PartyVotes { party: "ldp".to_owned(), votes: 1000 + b.seats as u64 },
                PartyVotes { party: "cdp".to_owned(), votes: 800 },
            ],
        });
    }
    let v = Votes { fptp: FptpVotes { districts: vec![] }, pr: PrVotes { blocks } };
    let cfg = SeatConfig {
        blocks: default_block_seats(),
        districts: vec![],
        pr_seat_total: 176,
    };
    let seats = v.get_seats(&cfg).unwrap();
    assert_eq!(seats.pr_seats("ldp") + seats.pr_seats("cdp"), 176);
    assert_eq!(seats.fptp_seats("ldp"), 0);
}

#[test]
fn string_order_is_lexicographic() {
    assert!(seat_alloc::str_lt("a", "b"));
    assert!(seat_alloc::str_lt("ab", "b"));
    assert!(seat_alloc::str_lt("", "a"));
    assert!(seat_alloc::str_lt("abc", "abd"));
    assert!(!seat_alloc::str_lt("a", "a"));
    assert!(!seat_alloc::str_lt("b", "ab"));
}
