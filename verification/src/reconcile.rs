//! Reorg reconciliation: before a fetched range is trusted, the hash stored
//! at the cursor height is compared against the chain's current hash there.
//! On a mismatch the stored trail is walked backward until a height is found
//! whose recorded hash still stands on the chain, or the configured maximum
//! reorg depth is exceeded.

use vstd::prelude::*;
use crate::chain::ChainView;
use crate::store::trail_ascending;
use crate::types::{BlockRef, IngestionCursor};

verus! {

/// The three reconciliation verdicts, driven deterministically by the
/// cursor, the stored trail and the observed chain.
pub enum ReorgOutcome {
    /// The stored cursor hash still stands on the chain.
    NoReorg,
    /// The chain diverged; this is the highest stored block that still
    /// stands, and everything above it must be discarded.
    ReorgTo(BlockRef),
    /// The chain diverged deeper than the configured bound; operator
    /// intervention is required.
    ReorgTooDeep,
}

/// Does trail entry `i` still stand on the observed chain?
pub open spec fn entry_matches(trail: Seq<BlockRef>, i: int, chain: ChainView) -> bool {
    chain.spec_hash_at(trail[i].number as int) == trail[i].hash@
}

/// Is trail entry `i` within the allowed walk-back depth below the cursor?
pub open spec fn entry_in_depth(
    trail: Seq<BlockRef>,
    i: int,
    cursor: IngestionCursor,
    max_depth: u64,
) -> bool {
    cursor.block_number as int - trail[i].number as int <= max_depth as int
}

/// Does the chain still carry the cursor's hash at the cursor's height?
pub open spec fn cursor_stands(cursor: IngestionCursor, chain: ChainView) -> bool {
    chain.spec_hash_at(cursor.block_number as int) == cursor.block_hash@
}

/// Decide whether a reorg occurred and where ingestion can resume.
///
/// The result is fully determined: `NoReorg` exactly when the cursor hash
/// still stands; otherwise `ReorgTo` names the highest trail entry that both
/// lies within the walk-back depth and still stands on the chain, and
/// `ReorgTooDeep` is returned exactly when no such entry exists.
pub fn reconcile(
    cursor: &IngestionCursor,
    trail: &Vec<BlockRef>,
    chain: &ChainView,
    max_depth: u64,
) -> (r: ReorgOutcome)
    requires
        trail_ascending(trail@),
        forall|i: int|
            0 <= i < trail@.len() ==> (#[trigger] trail@[i]).number <= cursor.block_number,
        chain.covers(cursor.block_number as int),
        forall|i: int|
            0 <= i < trail@.len() && entry_in_depth(trail@, i, *cursor, max_depth)
                ==> chain.covers((#[trigger] trail@[i]).number as int),
    ensures
        (r is NoReorg) <==> cursor_stands(*cursor, *chain),
        (r is ReorgTooDeep) <==> (!cursor_stands(*cursor, *chain) && forall|i: int|
            0 <= i < trail@.len() && entry_in_depth(trail@, i, *cursor, max_depth)
                ==> !entry_matches(trail@, i, *chain)),
        (r matches ReorgOutcome::ReorgTo(a) ==> !cursor_stands(*cursor, *chain) && exists|i: int|
            0 <= i < trail@.len() && trail@[i] == a && entry_matches(trail@, i, *chain)
                && entry_in_depth(trail@, i, *cursor, max_depth) && forall|j: int|
                i < j < trail@.len() ==> !entry_matches(trail@, j, *chain)),
{
    let cur_hash = chain.hash_at(cursor.block_number);
    if *cur_hash == cursor.block_hash {
        return ReorgOutcome::NoReorg;
    }
    let n = trail.len();
    let mut i: usize = n;
    while i > 0
        invariant
            i <= n,
            n == trail@.len(),
            !cursor_stands(*cursor, *chain),
            trail_ascending(trail@),
            forall|j: int|
                0 <= j < trail@.len() ==> (#[trigger] trail@[j]).number <= cursor.block_number,
            forall|j: int|
                0 <= j < trail@.len() && entry_in_depth(trail@, j, *cursor, max_depth)
                    ==> chain.covers((#[trigger] trail@[j]).number as int),
            forall|j: int| i <= j < n ==> !entry_matches(trail@, j, *chain),
        decreases i,
    {
        let k = i - 1;
        let entry = &trail[k];
        if cursor.block_number - entry.number > max_depth {
            proof {
                assert forall|j: int|
                    0 <= j < trail@.len() && entry_in_depth(trail@, j, *cursor, max_depth) implies
                    !entry_matches(trail@, j, *chain) by {
                    if j <= k {
                        assert(trail@[j].number <= trail@[k as int].number);
                    }
                }
            }
            return ReorgOutcome::ReorgTooDeep;
        }
        let observed = chain.hash_at(entry.number);
        if *observed == entry.hash {
            proof {
                assert(entry_in_depth(trail@, k as int, *cursor, max_depth));
                assert(entry_matches(trail@, k as int, *chain));
            }
            return ReorgOutcome::ReorgTo(entry.duplicate());
        }
        i = k;
    }
    ReorgOutcome::ReorgTooDeep
}

} // verus!
