//! Static region configuration.
//!
//! The set of valid blocks with their seat counts, and the set of valid
//! district identifiers, are external configuration: they change with
//! redistricting, not with vote data, so they are supplied as a
//! data-driven lookup table rather than baked into the allocation logic.
//! The eleven proportional blocks of the current apportionment base are
//! provided as a convenience, with their fixed seat counts.

use vstd::prelude::*;

use crate::errors::ElectionError;
use crate::order::str_eq;

verus! {

/// One of the eleven proportional blocks of the current apportionment
/// base.
#[derive(Debug, PartialEq, Eq, Hash, Clone, Copy)]
pub enum PrDistrict {
    Hokkaido,
    Tohoku,
    KitaKanto,
    Tokyo,
    MinamiKanto,
    HokurikuShinetsu,
    Tokai,
    Kinki,
    Chugoku,
    Shikoku,
    Kyushu,
}

impl PrDistrict {
    /// The block's configured seat count.
    pub open spec fn spec_seats(self) -> usize {
        match self {
            PrDistrict::Hokkaido => 8,
            PrDistrict::Tohoku => 13,
            PrDistrict::KitaKanto => 19,
            PrDistrict::Tokyo => 17,
            PrDistrict::MinamiKanto => 22,
            PrDistrict::HokurikuShinetsu => 11,
            PrDistrict::Tokai => 21,
            PrDistrict::Kinki => 28,
            PrDistrict::Chugoku => 11,
            PrDistrict::Shikoku => 6,
            PrDistrict::Kyushu => 20,
        }
    }

    /// The number of seats this block distributes, under the
    /// apportionment base last revised with the most recent
    /// redistricting.
    pub fn seats(&self) -> (r: usize)
        ensures
            r == self.spec_seats(),
            r >= 1,
    {
        match *self {
            PrDistrict::Hokkaido => 8,
            PrDistrict::Tohoku => 13,
            PrDistrict::KitaKanto => 19,
            PrDistrict::Tokyo => 17,
            PrDistrict::MinamiKanto => 22,
            PrDistrict::HokurikuShinetsu => 11,
            PrDistrict::Tokai => 21,
            PrDistrict::Kinki => 28,
            PrDistrict::Chugoku => 11,
            PrDistrict::Shikoku => 6,
            PrDistrict::Kyushu => 20,
        }
    }

    /// The block's canonical identifier.
    pub open spec fn spec_name(self) -> Seq<char> {
        match self {
            PrDistrict::Hokkaido => "Hokkaido"@,
            PrDistrict::Tohoku => "Tohoku"@,
            PrDistrict::KitaKanto => "KitaKanto"@,
            PrDistrict::Tokyo => "Tokyo"@,
            PrDistrict::MinamiKanto => "MinamiKanto"@,
            PrDistrict::HokurikuShinetsu => "HokurikuShinetsu"@,
            PrDistrict::Tokai => "Tokai"@,
            PrDistrict::Kinki => "Kinki"@,
            PrDistrict::Chugoku => "Chugoku"@,
            PrDistrict::Shikoku => "Shikoku"@,
            PrDistrict::Kyushu => "Kyushu"@,
        }
    }

    /// The block's canonical identifier, as a string.
    pub fn name(&self) -> (r: String)
        ensures
            r@ == self.spec_name(),
    {
        match *self {
            PrDistrict::Hokkaido => "Hokkaido".to_owned(),
            PrDistrict::Tohoku => "Tohoku".to_owned(),
            PrDistrict::KitaKanto => "KitaKanto".to_owned(),
            PrDistrict::Tokyo => "Tokyo".to_owned(),
            PrDistrict::MinamiKanto => "MinamiKanto".to_owned(),
            PrDistrict::HokurikuShinetsu => "HokurikuShinetsu".to_owned(),
            PrDistrict::Tokai => "Tokai".to_owned(),
            PrDistrict::Kinki => "Kinki".to_owned(),
            PrDistrict::Chugoku => "Chugoku".to_owned(),
            PrDistrict::Shikoku => "Shikoku".to_owned(),
            PrDistrict::Kyushu => "Kyushu".to_owned(),
        }
    }
}

/// One row of the block configuration table: a block identifier and its
/// fixed seat count.
#[derive(Debug)]
pub struct BlockSeats {
    pub block: String,
    pub seats: usize,
}

/// The index of the first configuration row for `name`, or `-1` if the
/// block is not configured.
pub open spec fn block_index(blocks: Seq<BlockSeats>, name: Seq<char>) -> int
    decreases blocks.len(),
{
    if blocks.len() == 0 {
        -1
    } else if blocks[0].block@ == name {
        0
    } else {
        let r = block_index(blocks.drop_first(), name);
        if r == -1 {
            -1
        } else {
            r + 1
        }
    }
}

/// The sum of all configured per-block seat counts.
pub open spec fn spec_seat_sum(blocks: Seq<BlockSeats>) -> nat
    decreases blocks.len(),
{
    if blocks.len() == 0 {
        0
    } else {
        spec_seat_sum(blocks.drop_last()) + blocks.last().seats as nat
    }
}

/// The static configuration one run is validated against: the block
/// table, the valid district identifiers, and the expected total of
/// proportional seats that the block table must sum to.
#[derive(Debug)]
pub struct SeatConfig {
    pub blocks: Vec<BlockSeats>,
    pub districts: Vec<String>,
    pub pr_seat_total: usize,
}

impl SeatConfig {
    /// Well-formed configuration: block and district identifiers are
    /// distinct and every block distributes at least one seat.
    pub open spec fn wf(self) -> bool {
        &&& forall|i: int, j: int|
            0 <= i < j < self.blocks@.len() ==> self.blocks@[i].block@ != self.blocks@[j].block@
        &&& forall|i: int| 0 <= i < self.blocks@.len() ==> (#[trigger] self.blocks@[i]).seats >= 1
        &&& forall|i: int, j: int|
            0 <= i < j < self.districts@.len() ==> self.districts@[i]@ != self.districts@[j]@
    }

    /// The block is configured.
    pub open spec fn has_block(self, name: Seq<char>) -> bool {
        block_index(self.blocks@, name) != -1
    }

    /// The configured seat count of a block.
    pub open spec fn seats_of(self, name: Seq<char>) -> nat
        recommends
            self.has_block(name),
    {
        let i = block_index(self.blocks@, name);
        if i == -1 {
            0
        } else {
            self.blocks@[i].seats as nat
        }
    }

    /// The district identifier is configured.
    pub open spec fn has_district(self, name: Seq<char>) -> bool {
        exists|i: int| 0 <= i < self.districts@.len() && self.districts@[i]@ == name
    }

    /// Looks up the configured seat count of a block, or nothing if the
    /// block is unknown.
    pub fn lookup_block_seats(&self, name: &str) -> (r: Option<usize>)
        ensures
            (r is Some) == self.has_block(name@),
            r matches Some(s) ==> s as nat == self.seats_of(name@),
    {
        let len = self.blocks.len();
        let mut i: usize = 0;
        while i < len
            invariant
                i <= len,
                len == self.blocks@.len(),
                forall|j: int| 0 <= j < i ==> self.blocks@[j].block@ != name@,
            decreases len - i,
        {
            if str_eq(self.blocks[i].block.as_str(), name) {
                proof {
                    lemma_block_index_props(self.blocks@, name@);
                    let f = block_index(self.blocks@, name@);
                    if f == -1 {
                        assert(self.blocks@[i as int].block@ != name@);
                    }
                    if f < i as int {
                        assert(self.blocks@[f].block@ == name@);
                    }
                    if f > i as int {
                        assert(self.blocks@[i as int].block@ != name@);
                    }
                    assert(f == i as int);
                }
                return Some(self.blocks[i].seats);
            }
            i = i + 1;
        }
        proof {
            lemma_block_index_props(self.blocks@, name@);
        }
        None
    }

    /// Whether a district identifier is configured.
    pub fn contains_district(&self, name: &str) -> (r: bool)
        ensures
            r == self.has_district(name@),
    {
        let len = self.districts.len();
        let mut i: usize = 0;
        while i < len
            invariant
                i <= len,
                len == self.districts@.len(),
                forall|j: int| 0 <= j < i ==> self.districts@[j]@ != name@,
            decreases len - i,
        {
            if str_eq(self.districts[i].as_str(), name) {
                return true;
            }
            i = i + 1;
        }
        false
    }

    /// Validates that the configured per-block seat counts sum to
    /// exactly the expected proportional total, failing with the
    /// mismatch otherwise.
    pub fn check_seat_total(&self) -> (r: Result<(), ElectionError>)
        ensures
            (r is Ok) == (spec_seat_sum(self.blocks@) == self.pr_seat_total as nat),
            r matches Err(e) ==> (e matches ElectionError::SeatConfigMismatch {
                configured: c,
                expected: x,
            } && x == self.pr_seat_total && (spec_seat_sum(self.blocks@) <= usize::MAX ==> c as nat
                == spec_seat_sum(self.blocks@))),
{
        let len = self.blocks.len();
        let mut sum: usize = 0;
        let mut i: usize = 0;
        while i < len
            invariant
                i <= len,
                len == self.blocks@.len(),
                sum as nat == spec_seat_sum(self.blocks@.take(i as int)),
            decreases len - i,
        {
            proof {
                assert(self.blocks@.take(i + 1).drop_last() =~= self.blocks@.take(i as int));
                lemma_spec_seat_sum_prefix_le(self.blocks@, i + 1);
            }
            let s = self.blocks[i].seats;
            if s > usize::MAX - sum {
                // the true sum exceeds the machine range, so it cannot
                // equal the expected total
                proof {
                    assert(spec_seat_sum(self.blocks@.take(i + 1)) > usize::MAX);
                }
                return Err(
                    ElectionError::SeatConfigMismatch {
                        configured: usize::MAX,
                        expected: self.pr_seat_total,
                    },
                );
            }
            sum = sum + s;
            i = i + 1;
        }
        proof {
            assert(self.blocks@.take(len as int) =~= self.blocks@);
        }
        if sum == self.pr_seat_total {
            Ok(())
        } else {
            Err(ElectionError::SeatConfigMismatch { configured: sum, expected: self.pr_seat_total })
        }
    }
}

pub proof fn lemma_block_index_props(blocks: Seq<BlockSeats>, name: Seq<char>)
    ensures
        -1 <= block_index(blocks, name) < blocks.len(),
        block_index(blocks, name) != -1 ==> blocks[block_index(blocks, name)].block@ == name && (
        forall|j: int| 0 <= j < block_index(blocks, name) ==> blocks[j].block@ != name),
        block_index(blocks, name) == -1 ==> (forall|j: int|
            0 <= j < blocks.len() ==> blocks[j].block@ != name),
    decreases blocks.len(),
{
    if blocks.len() > 0 && blocks[0].block@ != name {
        lemma_block_index_props(blocks.drop_first(), name);
        let r = block_index(blocks.drop_first(), name);
        if r != -1 {
            assert(blocks[r + 1] == blocks.drop_first()[r]);
            assert forall|j: int| 0 <= j < r + 1 implies blocks[j].block@ != name by {
                if j >= 1 {
                    assert(blocks[j] == blocks.drop_first()[j - 1]);
                }
            }
        } else {
            assert forall|j: int| 0 <= j < blocks.len() implies blocks[j].block@ != name by {
                if j >= 1 {
                    assert(blocks[j] == blocks.drop_first()[j - 1]);
                }
            }
        }
    }
}

/// The sum of any prefix of the block table is at most the whole sum.
pub proof fn lemma_spec_seat_sum_prefix_le(blocks: Seq<BlockSeats>, j: int)
    requires
        0 <= j <= blocks.len(),
    ensures
        spec_seat_sum(blocks.take(j)) <= spec_seat_sum(blocks),
    decreases blocks.len() - j,
{
    if j < blocks.len() {
        assert(blocks.take(j + 1).drop_last() =~= blocks.take(j));
        lemma_spec_seat_sum_prefix_le(blocks, j + 1);
    } else {
        assert(blocks.take(j) =~= blocks);
    }
}

/// The block table of the current apportionment base: the eleven blocks
/// with their fixed seat counts, which sum to the proportional house
/// total of 176.
pub fn default_block_seats() -> (r: Vec<BlockSeats>)
    ensures
        r@.len() == 11,
        forall|i: int|
            0 <= i < 11 ==> (#[trigger] r@[i]).block@ == default_block(i).spec_name() && r@[i].seats
                == default_block(i).spec_seats(),
{
    let mut r: Vec<BlockSeats> = Vec::new();
    r.push(BlockSeats { block: PrDistrict::Hokkaido.name(), seats: PrDistrict::Hokkaido.seats() });
    r.push(BlockSeats { block: PrDistrict::Tohoku.name(), seats: PrDistrict::Tohoku.seats() });
    r.push(
        BlockSeats { block: PrDistrict::KitaKanto.name(), seats: PrDistrict::KitaKanto.seats() },
    );
    r.push(BlockSeats { block: PrDistrict::Tokyo.name(), seats: PrDistrict::Tokyo.seats() });
    r.push(
        BlockSeats {
            block: PrDistrict::MinamiKanto.name(),
            seats: PrDistrict::MinamiKanto.seats(),
        },
    );
    r.push(
        BlockSeats {
            block: PrDistrict::HokurikuShinetsu.name(),
            seats: PrDistrict::HokurikuShinetsu.seats(),
        },
    );
    r.push(BlockSeats { block: PrDistrict::Tokai.name(), seats: PrDistrict::Tokai.seats() });
    r.push(BlockSeats { block: PrDistrict::Kinki.name(), seats: PrDistrict::Kinki.seats() });
    r.push(BlockSeats { block: PrDistrict::Chugoku.name(), seats: PrDistrict::Chugoku.seats() });
    r.push(BlockSeats { block: PrDistrict::Shikoku.name(), seats: PrDistrict::Shikoku.seats() });
    r.push(BlockSeats { block: PrDistrict::Kyushu.name(), seats: PrDistrict::Kyushu.seats() });
    r
}

/// The block at a given position of the default table.
pub open spec fn default_block(i: int) -> PrDistrict {
    if i == 0 {
        PrDistrict::Hokkaido
    } else if i == 1 {
        PrDistrict::Tohoku
    } else if i == 2 {
        PrDistrict::KitaKanto
    } else if i == 3 {
        PrDistrict::Tokyo
    } else if i == 4 {
        PrDistrict::MinamiKanto
    } else if i == 5 {
        PrDistrict::HokurikuShinetsu
    } else if i == 6 {
        PrDistrict::Tokai
    } else if i == 7 {
        PrDistrict::Kinki
    } else if i == 8 {
        PrDistrict::Chugoku
    } else if i == 9 {
        PrDistrict::Shikoku
    } else {
        PrDistrict::Kyushu
    }
}

} // verus!
