//! Seat allocation for a mixed-member electoral system.
//!
//! Raw vote tallies are turned into legislative seats under two rules at
//! once: single-winner plurality districts (first past the post) and
//! multi-seat proportional blocks apportioned by the D'Hondt
//! highest-averages method. The library computes one complete seat result
//! from one complete, immutable vote snapshot; reading input files and
//! rendering output are left to the surrounding program.

pub mod config;
pub mod dhondt;
pub mod errors;
pub mod fptp;
pub mod monotone;
pub mod order;
pub mod pipeline;
pub mod tally;

pub use config::default_block_seats;
pub use config::BlockSeats;
pub use config::PrDistrict;
pub use config::SeatConfig;
pub use dhondt::apportion_block;
pub use dhondt::PartyVotes;
pub use dhondt::PrBlockResult;
pub use errors::ElectionError;
pub use fptp::resolve_district;
pub use fptp::Candidate;
pub use fptp::FptpDistrictResult;
pub use order::lex_lt;
pub use order::str_lt;
pub use pipeline::FptpVotes;
pub use pipeline::PrVotes;
pub use pipeline::Votes;
pub use tally::FptpSeats;
pub use tally::PrSeats;
pub use tally::Seats;
