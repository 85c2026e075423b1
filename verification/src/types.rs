//! Domain types shared by the decoder, the store model and the engine.

use vstd::prelude::*;

verus! {

/// One user deposit observed on-chain.
///
/// The transaction hash is the dedup key: re-ingesting a log with the same
/// `tx_hash` must leave the store unchanged. Amounts are arbitrary-precision
/// integers carried as decimal strings, so no precision is lost.
pub struct VaultDeposit {
    pub tx_hash: String,
    pub user_address: String,
    pub amount_wei: String,
    pub block_number: u64,
    pub timestamp: u64,
}

/// One index-rebase event.
///
/// No natural external key exists beyond the block, so the pair
/// `(block_number, log_index)` is the dedup key.
pub struct RebaseEvent {
    pub new_index: String,
    pub block_number: u64,
    pub log_index: u64,
    pub timestamp: u64,
}

/// Persisted checkpoint: the last safely-ingested block and its hash.
///
/// The hash is what reorg detection compares against the chain's current
/// hash at the same height.
pub struct IngestionCursor {
    pub block_number: u64,
    pub block_hash: String,
}

/// A block height together with the hash that was observed for it.
pub struct BlockRef {
    pub number: u64,
    pub hash: String,
}

/// A raw log entry as the chain RPC boundary hands it over: the event
/// signature discriminator, positional payload fields, and the placement
/// of the log on chain.
pub struct RawLogEntry {
    pub signature: u64,
    pub tx_hash: String,
    pub block_number: u64,
    pub log_index: u64,
    pub timestamp: u64,
    pub data: Vec<String>,
}

impl VaultDeposit {
    /// Field-for-field copy; the store keeps ownership of its rows.
    pub fn duplicate(&self) -> (r: Self)
        ensures
            r == *self,
    {
        VaultDeposit {
            tx_hash: self.tx_hash.clone(),
            user_address: self.user_address.clone(),
            amount_wei: self.amount_wei.clone(),
            block_number: self.block_number,
            timestamp: self.timestamp,
        }
    }
}

impl RebaseEvent {
    /// Field-for-field copy; the store keeps ownership of its rows.
    pub fn duplicate(&self) -> (r: Self)
        ensures
            r == *self,
    {
        RebaseEvent {
            new_index: self.new_index.clone(),
            block_number: self.block_number,
            log_index: self.log_index,
            timestamp: self.timestamp,
        }
    }
}

impl IngestionCursor {
    /// Field-for-field copy, handed out when the cursor is read.
    pub fn duplicate(&self) -> (r: Self)
        ensures
            r == *self,
    {
        IngestionCursor {
            block_number: self.block_number,
            block_hash: self.block_hash.clone(),
        }
    }
}

impl BlockRef {
    /// Field-for-field copy, used when recording the hash trail.
    pub fn duplicate(&self) -> (r: Self)
        ensures
            r == *self,
    {
        BlockRef { number: self.number, hash: self.hash.clone() }
    }
}

} // verus!
