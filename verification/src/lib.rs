//! A fantasy-sports contest engine: users assemble rosters of real players,
//! enter paid contests tied to matches, accrue points from recorded player
//! statistics, and claim ranked prize payouts.
//!
//! State lives in owned, arena-style tables (`Vec`-backed, one writer per
//! store). Identities and record ids are plain `u64` counters; timestamps are
//! `u64` values supplied by the caller. Point values are fixed-point integers:
//! per-player scores in tenths of a point, team and entry totals in hundredths.

pub mod catalog;
pub mod contests;
pub mod errors;
pub mod fantasy;
pub mod rewards;
pub mod scoring;
pub mod users;
