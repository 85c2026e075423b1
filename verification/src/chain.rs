//! The chain snapshot an ingestion cycle works from.
//!
//! The RPC boundary is read-only, so one cycle's view of the chain is a plain
//! value: the confirmed head, a contiguous run of block hashes (reaching far
//! enough below the cursor for reorg walk-back), and the logs fetched for the
//! range under ingestion. The surrounding process fills this in from its RPC
//! client; the engine decides everything from the value alone.

use vstd::prelude::*;
use crate::types::RawLogEntry;

verus! {

/// What one polling pass observed of the chain.
pub struct ChainView {
    /// Highest block considered final under the confirmation-depth policy.
    pub confirmed_height: u64,
    /// Height of the first entry of `hashes`.
    pub base_height: u64,
    /// Block hashes for the contiguous range starting at `base_height`.
    pub hashes: Vec<String>,
    /// Logs fetched for the range under ingestion, as the RPC returned them.
    pub logs: Vec<RawLogEntry>,
}

impl ChainView {
    /// Does the snapshot carry a hash for height `h`?
    pub open spec fn covers(self, h: int) -> bool {
        self.base_height as int <= h && h - self.base_height < self.hashes@.len()
    }

    /// The observed chain hash at height `h`.
    pub open spec fn spec_hash_at(self, h: int) -> Seq<char> {
        self.hashes@[h - self.base_height]@
    }

    /// Look up the observed hash at a covered height.
    pub fn hash_at(&self, h: u64) -> (r: &String)
        requires
            self.covers(h as int),
        ensures
            *r == self.hashes@[h as int - self.base_height as int],
            r@ == self.spec_hash_at(h as int),
    {
        let n = self.hashes.len();
        let off = h - self.base_height;
        proof {
            assert(off < n);
        }
        let idx = off as usize;
        &self.hashes[idx]
    }
}

/// Strict `(block_number, log_index)` order on log entries.
pub open spec fn log_key_lt(a: RawLogEntry, b: RawLogEntry) -> bool {
    a.block_number < b.block_number || (a.block_number == b.block_number && a.log_index
        < b.log_index)
}

/// The RPC contract promises logs in ascending `(block_number, log_index)`
/// order with no duplicate position.
pub open spec fn logs_ascending(s: Seq<RawLogEntry>) -> bool {
    forall|i: int, j: int| 0 <= i < j < s.len() ==> log_key_lt(#[trigger] s[i], #[trigger] s[j])
}

/// Order between adjacent entries chains to any pair.
proof fn lemma_lt_chain(s: Seq<RawLogEntry>, i: int, j: int)
    requires
        forall|k: int| 0 <= k < s.len() - 1 ==> log_key_lt(#[trigger] s[k], s[k + 1]),
        0 <= i < j < s.len(),
    ensures
        log_key_lt(s[i], s[j]),
    decreases j - i,
{
    if j > i + 1 {
        lemma_lt_chain(s, i, j - 1);
    }
}

/// Check that fetched logs really are in strict ascending order.
pub fn check_logs_ascending(logs: &Vec<RawLogEntry>) -> (r: bool)
    ensures
        r == logs_ascending(logs@),
{
    let n = logs.len();
    if n == 0 {
        return true;
    }
    let mut i: usize = 0;
    while i < n - 1
        invariant
            n == logs@.len(),
            n >= 1,
            i <= n - 1,
            forall|k: int| 0 <= k < i ==> log_key_lt(#[trigger] logs@[k], logs@[k + 1]),
        decreases n - i,
    {
        let a = &logs[i];
        let b = &logs[i + 1];
        let ok = a.block_number < b.block_number || (a.block_number == b.block_number && a.log_index
            < b.log_index);
        if !ok {
            return false;
        }
        i += 1;
    }
    proof {
        assert forall|p: int, q: int| 0 <= p < q < logs@.len() implies log_key_lt(
            #[trigger] logs@[p],
            #[trigger] logs@[q],
        ) by {
            lemma_lt_chain(logs@, p, q);
        }
    }
    true
}

/// Check that every fetched log lies in the inclusive block range.
pub fn check_logs_in_range(logs: &Vec<RawLogEntry>, lo: u64, hi: u64) -> (r: bool)
    ensures
        r == forall|i: int|
            0 <= i < logs@.len() ==> lo <= (#[trigger] logs@[i]).block_number <= hi,
{
    let n = logs.len();
    let mut i: usize = 0;
    while i < n
        invariant
            n == logs@.len(),
            i <= n,
            forall|k: int| 0 <= k < i ==> lo <= (#[trigger] logs@[k]).block_number <= hi,
        decreases n - i,
    {
        if logs[i].block_number < lo || logs[i].block_number > hi {
            return false;
        }
        i += 1;
    }
    true
}

} // verus!
