//! The orchestrated pipeline: from a complete vote snapshot to the final
//! per-party seat tally.
//!
//! A snapshot is processed in one pass: every plurality district is
//! resolved to its single winner, every proportional block is apportioned
//! by the D'Hondt method, and the results are accumulated into one seat
//! tally. Districts and blocks are independent of one another. The
//! pipeline fails fast: if the configuration or any district or block is
//! invalid, the whole computation fails with that error and no tally is
//! produced.

use vstd::prelude::*;

use crate::config::spec_seat_sum;
use crate::config::SeatConfig;
use crate::dhondt::apportion_block;
use crate::dhondt::counts_of;
use crate::dhondt::dhondt_alloc;
use crate::dhondt::has_positive_votes;
use crate::dhondt::seq_sum;
use crate::dhondt::PartyVotes;
use crate::dhondt::PrBlockResult;
use crate::errors::ElectionError;
use crate::fptp::resolve_district;
use crate::fptp::winner_idx;
use crate::fptp::FptpDistrictResult;
use crate::tally::bump_n;
use crate::tally::counter_total;
use crate::tally::counter_wf;
use crate::tally::lemma_bump_total;
use crate::tally::lemma_count_le_total;
use crate::tally::FptpSeats;
use crate::tally::PrSeats;
use crate::tally::Seats;

verus! {

/// All plurality districts of one snapshot.
#[derive(Debug)]
pub struct FptpVotes {
    pub districts: Vec<FptpDistrictResult>,
}

/// All proportional blocks of one snapshot.
#[derive(Debug)]
pub struct PrVotes {
    pub blocks: Vec<PrBlockResult>,
}

/// One complete, immutable vote snapshot: every district's and every
/// block's raw vote counts. It is consumed read-only; the pipeline never
/// mutates it.
#[derive(Debug)]
pub struct Votes {
    pub fptp: FptpVotes,
    pub pr: PrVotes,
}

/// The party of a district's winning candidate.
pub open spec fn winner_party(d: FptpDistrictResult) -> Seq<char> {
    d.candidates@[winner_idx(d.candidates@)].party@
}

/// A district can be resolved: it has a candidate and its identifier is
/// configured.
pub open spec fn district_ok(d: FptpDistrictResult, cfg: SeatConfig) -> bool {
    d.candidates@.len() > 0 && cfg.has_district(d.district@)
}

/// The error reported for an invalid district: an empty district is
/// reported as empty, a district missing from the configuration as an
/// unknown region.
pub open spec fn district_error(d: FptpDistrictResult, e: ElectionError) -> bool {
    if d.candidates@.len() == 0 {
        e matches ElectionError::EmptyDistrict { district } && district@ == d.district@
    } else {
        e matches ElectionError::UnknownRegion { region } && region@ == d.district@
    }
}

/// The plurality tally of a sequence of districts: one seat per
/// district, awarded to its winner's party, in order.
pub open spec fn fptp_tally(ds: Seq<FptpDistrictResult>) -> Seq<(Seq<char>, nat)>
    decreases ds.len(),
{
    if ds.len() == 0 {
        Seq::empty()
    } else {
        bump_n(fptp_tally(ds.drop_last()), winner_party(ds.last()), 1)
    }
}

/// One seat per district: the plurality tally of any district sequence
/// totals exactly one seat for each district.
pub proof fn lemma_fptp_tally_total(ds: Seq<FptpDistrictResult>)
    ensures
        counter_total(fptp_tally(ds)) == ds.len(),
    decreases ds.len(),
{
    if ds.len() > 0 {
        lemma_fptp_tally_total(ds.drop_last());
        lemma_bump_total(fptp_tally(ds.drop_last()), winner_party(ds.last()), 1);
    }
}

/// A block can be apportioned: its identifier is configured and at least
/// one of its parties has votes.
pub open spec fn block_ok(b: PrBlockResult, cfg: SeatConfig) -> bool {
    cfg.has_block(b.block@) && has_positive_votes(b.votes@)
}

/// The error reported for an invalid block: a block missing from the
/// configuration is reported as an unknown region, one with zero total
/// votes as having no votes.
pub open spec fn block_error(b: PrBlockResult, cfg: SeatConfig, e: ElectionError) -> bool {
    if !cfg.has_block(b.block@) {
        e matches ElectionError::UnknownRegion { region } && region@ == b.block@
    } else {
        e matches ElectionError::NoVotes { block } && block@ == b.block@
    }
}

/// Merges one block's apportionment into a tally: party `i` of the block
/// receives `alloc[i]` further seats.
pub open spec fn merge_alloc(
    t: Seq<(Seq<char>, nat)>,
    votes: Seq<PartyVotes>,
    alloc: Seq<nat>,
) -> Seq<(Seq<char>, nat)>
    decreases votes.len(),
{
    if votes.len() == 0 {
        t
    } else {
        bump_n(merge_alloc(t, votes.drop_last(), alloc.drop_last()), votes.last().party@,
            alloc.last())
    }
}

proof fn lemma_merge_alloc_total(t: Seq<(Seq<char>, nat)>, votes: Seq<PartyVotes>, alloc: Seq<nat>)
    requires
        alloc.len() == votes.len(),
    ensures
        counter_total(merge_alloc(t, votes, alloc)) == counter_total(t) + seq_sum(alloc),
    decreases votes.len(),
{
    if votes.len() > 0 {
        lemma_merge_alloc_total(t, votes.drop_last(), alloc.drop_last());
        lemma_bump_total(merge_alloc(t, votes.drop_last(), alloc.drop_last()),
            votes.last().party@, alloc.last());
    }
}

/// The proportional tally of a sequence of blocks under a configuration:
/// each block's D'Hondt apportionment at its configured seat count,
/// merged in order.
pub open spec fn pr_tally(bs: Seq<PrBlockResult>, cfg: SeatConfig) -> Seq<(Seq<char>, nat)>
    decreases bs.len(),
{
    if bs.len() == 0 {
        Seq::empty()
    } else {
        let b = bs.last();
        merge_alloc(pr_tally(bs.drop_last(), cfg), b.votes@, dhondt_alloc(b.votes@, cfg.seats_of(
            b.block@,
        )))
    }
}

/// The number of proportional seats a sequence of blocks distributes:
/// the configured seat count of each, counting an unconfigured block as
/// zero since it is rejected before apportionment.
pub open spec fn total_block_seats(bs: Seq<PrBlockResult>, cfg: SeatConfig) -> nat
    decreases bs.len(),
{
    if bs.len() == 0 {
        0
    } else {
        total_block_seats(bs.drop_last(), cfg) + if cfg.has_block(bs.last().block@) {
            cfg.seats_of(bs.last().block@)
        } else {
            0
        }
    }
}

/// The seats of any prefix of the blocks are at most the whole total.
pub proof fn lemma_total_block_seats_prefix_le(bs: Seq<PrBlockResult>, cfg: SeatConfig, j: int)
    requires
        0 <= j <= bs.len(),
    ensures
        total_block_seats(bs.take(j), cfg) <= total_block_seats(bs, cfg),
    decreases bs.len() - j,
{
    if j < bs.len() {
        assert(bs.take(j + 1).drop_last() =~= bs.take(j));
        lemma_total_block_seats_prefix_le(bs, cfg, j + 1);
    } else {
        assert(bs.take(j) =~= bs);
    }
}

proof fn lemma_seq_sum_take_le(s: Seq<nat>, j: int)
    requires
        0 <= j <= s.len(),
    ensures
        seq_sum(s.take(j)) <= seq_sum(s),
    decreases s.len() - j,
{
    if j < s.len() {
        assert(s.take(j + 1).drop_last() =~= s.take(j));
        lemma_seq_sum_take_le(s, j + 1);
    } else {
        assert(s.take(j) =~= s);
    }
}

impl FptpVotes {
    /// Resolves every district and returns the per-party count of
    /// plurality seats, one seat per district. Fails fast with the first
    /// invalid district, in input order.
    pub fn get_seats(&self, config: &SeatConfig) -> (r: Result<FptpSeats, ElectionError>)
        ensures
            (r is Ok) == (forall|i: int|
                0 <= i < self.districts@.len() ==> district_ok(#[trigger] self.districts@[i],
                *config)),
            r matches Ok(t) ==> t@ == fptp_tally(self.districts@) && counter_wf(t@),
            r matches Err(e) ==> exists|i: int|
                0 <= i < self.districts@.len() && !district_ok(#[trigger] self.districts@[i],
                *config) && (forall|j: int|
                    0 <= j < i ==> district_ok(#[trigger] self.districts@[j], *config))
                    && district_error(self.districts@[i], e),
    {
        let n = self.districts.len();
        let mut seats = FptpSeats::new();
        let mut i: usize = 0;
        proof {
            assert(self.districts@.take(0) =~= Seq::<FptpDistrictResult>::empty());
        }
        while i < n
            invariant
                i <= n,
                n == self.districts@.len(),
                forall|j: int| 0 <= j < i ==> district_ok(#[trigger] self.districts@[j], *config),
                seats.wf(),
                seats@ == fptp_tally(self.districts@.take(i as int)),
                counter_total(seats@) == i,
            decreases n - i,
        {
            let d = &self.districts[i];
            match resolve_district(d) {
                Err(e) => {
                    proof {
                        assert(!district_ok(self.districts@[i as int], *config));
                        assert(district_error(self.districts@[i as int], e));
                    }
                    return Err(e);
                },
                Ok(party) => {
                    if !config.contains_district(d.district.as_str()) {
                        let e = ElectionError::UnknownRegion { region: d.district.clone() };
                        proof {
                            assert(!district_ok(self.districts@[i as int], *config));
                            assert(district_error(self.districts@[i as int], e));
                        }
                        return Err(e);
                    }
                    proof {
                        lemma_count_le_total(seats@, party@);
                        lemma_bump_total(seats@, party@, 1);
                        assert(self.districts@.take(i + 1).drop_last() =~= self.districts@.take(
                            i as int,
                        ));
                        assert(self.districts@.take(i + 1).last() == self.districts@[i as int]);
                    }
                    seats.add_seat(party);
                },
            }
            i = i + 1;
        }
        proof {
            assert(self.districts@.take(n as int) =~= self.districts@);
        }
        Ok(seats)
    }
}

impl PrVotes {
    /// Apportions every block and returns the per-party count of
    /// proportional seats. Fails fast with the first invalid block, in
    /// input order.
    ///
    /// The bound on the total of the configured seat counts is a machine
    /// limit: more seats than a machine word can count cannot be
    /// tallied.
    pub fn get_seats(&self, config: &SeatConfig) -> (r: Result<PrSeats, ElectionError>)
        requires
            config.wf(),
            total_block_seats(self.blocks@, *config) <= usize::MAX,
        ensures
            (r is Ok) == (forall|i: int|
                0 <= i < self.blocks@.len() ==> block_ok(#[trigger] self.blocks@[i], *config)),
            r matches Ok(t) ==> t@ == pr_tally(self.blocks@, *config) && counter_wf(t@)
                && counter_total(t@) == total_block_seats(self.blocks@, *config),
            r matches Err(e) ==> exists|i: int|
                0 <= i < self.blocks@.len() && !block_ok(#[trigger] self.blocks@[i], *config) && (
                forall|j: int| 0 <= j < i ==> block_ok(#[trigger] self.blocks@[j], *config))
                    && block_error(self.blocks@[i], *config, e),
    {
        let n = self.blocks.len();
        let mut seats = PrSeats::new();
        let mut i: usize = 0;
        proof {
            assert(self.blocks@.take(0) =~= Seq::<PrBlockResult>::empty());
        }
        while i < n
            invariant
                i <= n,
                n == self.blocks@.len(),
                config.wf(),
                total_block_seats(self.blocks@, *config) <= usize::MAX,
                forall|j: int| 0 <= j < i ==> block_ok(#[trigger] self.blocks@[j], *config),
                seats.wf(),
                seats@ == pr_tally(self.blocks@.take(i as int), *config),
                counter_total(seats@) == total_block_seats(self.blocks@.take(i as int), *config),
            decreases n - i,
        {
            let b = &self.blocks[i];
            match config.lookup_block_seats(b.block.as_str()) {
                None => {
                    let e = ElectionError::UnknownRegion { region: b.block.clone() };
                    proof {
                        assert(!block_ok(self.blocks@[i as int], *config));
                        assert(block_error(self.blocks@[i as int], *config, e));
                    }
                    return Err(e);
                },
                Some(sb) => {
                    proof {
                        crate::config::lemma_block_index_props(config.blocks@, b.block@);
                    }
                    match apportion_block(b, sb) {
                        Err(e) => {
                            proof {
                                assert(!block_ok(self.blocks@[i as int], *config));
                                assert(block_error(self.blocks@[i as int], *config, e));
                            }
                            return Err(e);
                        },
                        Ok(alloc) => {
                            let m = b.votes.len();
                            let ghost t0 = seats@;
                            let ghost av = counts_of(alloc@);
                            proof {
                                assert(b.votes@.take(0) =~= Seq::<PartyVotes>::empty());
                                assert(av.take(0) =~= Seq::<nat>::empty());
                                assert(self.blocks@.take(i + 1).drop_last() =~= self.blocks@.take(
                                    i as int,
                                ));
                                assert(self.blocks@.take(i + 1).last() == self.blocks@[i as int]);
                                lemma_total_block_seats_prefix_le(self.blocks@, *config, i + 1);
                            }
                            let mut j: usize = 0;
                            while j < m
                                invariant
                                    j <= m,
                                    m == b.votes@.len(),
                                    alloc@.len() == m,
                                    av == counts_of(alloc@),
                                    seq_sum(av) == sb,
                                    seats.wf(),
                                    seats@ == merge_alloc(t0, b.votes@.take(j as int), av.take(
                                        j as int,
                                    )),
                                    counter_total(seats@) == counter_total(t0) + seq_sum(av.take(
                                        j as int,
                                    )),
                                    counter_total(t0) + sb <= usize::MAX,
                                decreases m - j,
                            {
                                let p = b.votes[j].party.clone();
                                let cnt = alloc[j];
                                proof {
                                    assert(av[j as int] == alloc@[j as int] as nat);
                                    assert(av.take(j + 1).drop_last() =~= av.take(j as int));
                                    assert(b.votes@.take(j + 1).drop_last() =~= b.votes@.take(
                                        j as int,
                                    ));
                                    assert(b.votes@.take(j + 1).last() == b.votes@[j as int]);
                                    lemma_seq_sum_take_le(av, j + 1);
                                    lemma_count_le_total(seats@, p@);
                                    lemma_bump_total(seats@, p@, cnt as nat);
                                }
                                seats.add_seats(p, cnt);
                                j = j + 1;
                            }
                            proof {
                                assert(b.votes@.take(m as int) =~= b.votes@);
                                assert(av.take(m as int) =~= av);
                            }
                        },
                    }
                },
            }
            i = i + 1;
        }
        proof {
            assert(self.blocks@.take(n as int) =~= self.blocks@);
        }
        Ok(seats)
    }
}

impl Votes {
    /// Runs the whole pipeline on one snapshot: validates the
    /// configuration's seat total, resolves every district, apportions
    /// every block, and returns the aggregated tally. Fails fast, in
    /// this order: a configuration mismatch first, then the first
    /// invalid district, then the first invalid block; on failure no
    /// tally is produced.
    pub fn get_seats(&self, config: &SeatConfig) -> (r: Result<Seats, ElectionError>)
        requires
            config.wf(),
            total_block_seats(self.pr.blocks@, *config) <= usize::MAX,
        ensures
            (r is Ok) == ({
                &&& spec_seat_sum(config.blocks@) == config.pr_seat_total as nat
                &&& forall|i: int|
                    0 <= i < self.fptp.districts@.len() ==> district_ok(
                        #[trigger] self.fptp.districts@[i],
                        *config,
                    )
                &&& forall|i: int|
                    0 <= i < self.pr.blocks@.len() ==> block_ok(#[trigger] self.pr.blocks@[i],
                    *config)
            }),
            r matches Ok(s) ==> {
                &&& s.fptp@ == fptp_tally(self.fptp.districts@)
                &&& s.pr@ == pr_tally(self.pr.blocks@, *config)
                &&& counter_wf(s.fptp@)
                &&& counter_wf(s.pr@)
                &&& counter_total(s.fptp@) == self.fptp.districts@.len()
                &&& counter_total(s.pr@) == total_block_seats(self.pr.blocks@, *config)
            },
            r matches Err(e) ==> {
                if spec_seat_sum(config.blocks@) != config.pr_seat_total as nat {
                    e matches ElectionError::SeatConfigMismatch { configured, expected }
                        && expected == config.pr_seat_total
                } else if !(forall|i: int|
                    0 <= i < self.fptp.districts@.len() ==> district_ok(
                        #[trigger] self.fptp.districts@[i],
                        *config,
                    )) {
                    exists|i: int|
                        0 <= i < self.fptp.districts@.len() && !district_ok(
                            #[trigger] self.fptp.districts@[i],
                            *config,
                        ) && (forall|j: int|
                            0 <= j < i ==> district_ok(#[trigger] self.fptp.districts@[j],
                            *config)) && district_error(self.fptp.districts@[i], e)
                } else {
                    exists|i: int|
                        0 <= i < self.pr.blocks@.len() && !block_ok(
                            #[trigger] self.pr.blocks@[i],
                            *config,
                        ) && (forall|j: int|
                            0 <= j < i ==> block_ok(#[trigger] self.pr.blocks@[j], *config))
                            && block_error(self.pr.blocks@[i], *config, e)
                }
            },
    {
        match config.check_seat_total() {
            Err(e) => Err(e),
            Ok(()) => {
                let fptp = match self.fptp.get_seats(config) {
                    Err(e) => {
                        return Err(e);
                    },
                    Ok(t) => t,
                };
                let pr = match self.pr.get_seats(config) {
                    Err(e) => {
                        return Err(e);
                    },
                    Ok(t) => t,
                };
                proof {
                    lemma_fptp_tally_total(self.fptp.districts@);
                }
                Ok(Seats { fptp, pr })
            },
        }
    }
}

/// Determinism: the tally of a run is a function of the snapshot and the
/// configuration alone, so any two successful runs over the same
/// snapshot — whatever their internal arrangement — produce identical
/// tallies, entry for entry.
pub proof fn lemma_pipeline_deterministic(v: Votes, cfg: SeatConfig, t1: Seats, t2: Seats)
    requires
        t1.fptp@ == fptp_tally(v.fptp.districts@),
        t1.pr@ == pr_tally(v.pr.blocks@, cfg),
        t2.fptp@ == fptp_tally(v.fptp.districts@),
        t2.pr@ == pr_tally(v.pr.blocks@, cfg),
    ensures
        t1.fptp@ == t2.fptp@,
        t1.pr@ == t2.pr@,
{
}

/// The proportional tally distributes exactly the configured seats of
/// every block, when every block is valid.
pub proof fn lemma_pr_tally_total(bs: Seq<PrBlockResult>, cfg: SeatConfig)
    requires
        forall|i: int| 0 <= i < bs.len() ==> block_ok(#[trigger] bs[i], cfg),
    ensures
        counter_total(pr_tally(bs, cfg)) == total_block_seats(bs, cfg),
    decreases bs.len(),
{
    if bs.len() > 0 {
        assert(forall|i: int| 0 <= i < bs.drop_last().len() ==> bs.drop_last()[i] == bs[i]);
        lemma_pr_tally_total(bs.drop_last(), cfg);
        let b = bs.last();
        let alloc = dhondt_alloc(b.votes@, cfg.seats_of(b.block@));
        crate::dhondt::lemma_dhondt_alloc_len(b.votes@, cfg.seats_of(b.block@));
        assert(b.votes@.len() > 0) by {
            assert(block_ok(bs[bs.len() - 1], cfg));
        }
        crate::dhondt::lemma_dhondt_conservation(b.votes@, cfg.seats_of(b.block@));
        lemma_merge_alloc_total(pr_tally(bs.drop_last(), cfg), b.votes@, alloc);
    }
}

} // verus!
