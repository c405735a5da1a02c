//! Capture, storage and replay of J1939 frames: the frame codec, the
//! time-ordered journal with its per-PGN indices, and the decisions of the
//! recorder, the player, the dumper and the counter.

use vstd::prelude::*;

pub mod cli;
pub mod codec;
pub mod counter;
pub mod dumper;
pub mod journal;
pub mod player;
pub mod recorder;
pub mod store;

verus! {

/// Lowest parameter group number of the band that J1939/21 reserves for
/// proprietary use.
pub const PROPRIETARY_FIRST: u32 = 65280;

/// Highest parameter group number of the proprietary band.
pub const PROPRIETARY_LAST: u32 = 65535;

/// The parameter group number carried by an arbitration ID: the seventeen
/// bits above the source address.
pub open spec fn pgn_of(id: u32) -> u32 {
    (id >> 8) & 0x1FFFF
}

/// Membership in the proprietary band, both ends included.
pub open spec fn in_proprietary_band(pgn: u32) -> bool {
    65280 <= pgn && pgn <= 65535
}

/// Derives the parameter group number from an arbitration ID.
pub fn pgn_from_dbc(long_id: u32) -> (pgn: u32)
    ensures
        pgn == pgn_of(long_id),
        pgn == (long_id >> 8) & 0x1FFFF,
        pgn as int == (long_id as int / 256) % 131072,
        pgn <= 0x1FFFF,
{
    assert(((long_id >> 8) & 0x1FFFF) == (long_id / 256) % 131072) by (bit_vector);
    (long_id >> 8) & 0x1FFFF
}

/// Tells whether a parameter group number lies in the proprietary band
/// 65280..=65535.
///
/// Some deployed tools test `pgn <= 65535` instead, which also accepts every
/// number below the band; [`is_at_most_proprietary`] offers that test for
/// callers that depend on it.
pub fn is_proprietary_pgn(id: u32) -> (yes: bool)
    ensures
        yes == in_proprietary_band(id),
        yes == (PROPRIETARY_FIRST <= id && id <= PROPRIETARY_LAST),
{
    PROPRIETARY_FIRST <= id && id <= PROPRIETARY_LAST
}

/// The lenient test `pgn <= 65535`: true for the proprietary band and for
/// everything below it.
pub fn is_at_most_proprietary(id: u32) -> (yes: bool)
    ensures
        yes == (id <= 65535),
        in_proprietary_band(id) ==> yes,
{
    id <= PROPRIETARY_LAST
}

} // verus!
