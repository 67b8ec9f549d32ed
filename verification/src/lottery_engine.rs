//! Drawing lottery winners.

use crate::hashing::{read_le_u64, sha256, sha256_digest, u64_from_le};
use crate::types::LotteryEntry;
use vstd::prelude::*;

verus! {

/// The position of the winning entry among `n` entries, for a seed digest.
pub open spec fn winner_index(digest: Seq<u8>, n: nat) -> int {
    ((u64_from_le(digest) as usize) % (n as usize)) as int
}

/// Text of the error returned when there is nothing to draw from.
pub open spec fn no_entries_message() -> Seq<char> {
    "No entries to draw from"@
}

/// Draws lottery winners from a seed digest.
pub struct LotteryEngine;

impl LotteryEngine {
    pub fn new() -> Self {
        LotteryEngine
    }

    /// Picks the winning entry for the given seed digest: the entry at the
    /// position given by the digest's first eight bytes (least significant
    /// first), modulo the number of entries.
    pub fn draw_with_seed(&self, entries: &[LotteryEntry], digest: &[u8]) -> (r: Result<LotteryEntry, String>)
        requires
            digest@.len() >= 8,
        ensures
            r is Err <==> entries@.len() == 0,
            r matches Err(m) ==> m@ == no_entries_message(),
            r matches Ok(e) ==> e == entries@[winner_index(digest@, entries@.len())],
    {
        if entries.len() == 0 {
            return Err(String::from_str("No entries to draw from"));
        }
        let seed = read_le_u64(digest);
        let winner_idx = (seed as usize) % entries.len();
        Ok(entries[winner_idx].clone())
    }

    /// Draws the winner among `entries` from the draw's own random value:
    /// the seed digest is the SHA-256 digest of `randomness`, so anyone who
    /// learns the value can check the draw.
    pub fn draw_winner(&self, entries: &[LotteryEntry], randomness: &[u8]) -> (r: Result<LotteryEntry, String>)
        ensures
            r is Err <==> entries@.len() == 0,
            r matches Err(m) ==> m@ == no_entries_message(),
            r matches Ok(e) ==> e == entries@[winner_index(sha256(randomness@), entries@.len())],
    {
        if entries.len() == 0 {
            return Err(String::from_str("No entries to draw from"));
        }
        let seed = sha256_digest(randomness);
        self.draw_with_seed(entries, seed.as_slice())
    }
}

} // verus!
