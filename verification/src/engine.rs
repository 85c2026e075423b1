//! The ingestion engine: one polling cycle as a single decision function.
//!
//! A cycle reads the cursor, judges the fetched snapshot against the chain
//! reader's contract, reconciles reorgs, decodes the range and commits the
//! batch together with the cursor advance — one atomic store transition per
//! cycle. The engine never performs I/O itself: the surrounding process
//! fetches the snapshot, mirrors committed transitions into its database,
//! and schedules the next poll.

use vstd::prelude::*;
use crate::chain::{check_logs_ascending, check_logs_in_range, logs_ascending, ChainView};
use crate::decode::{
    decode_batch, has_malformed, lemma_decoded_blocks_in_range, spec_deposits_of, spec_rebases_of,
};
use crate::reconcile::{
    cursor_stands, entry_in_depth, entry_matches, reconcile, ReorgOutcome,
};
use crate::store::{apply_deposits, apply_rebases, deps_up_to, rebs_up_to, trail_up_to, RecordStore};
use crate::types::{BlockRef, IngestionCursor};

verus! {

/// Tunables of the ingestion loop. The confirmation depth and timeouts are
/// consumed by the process that fetches chain data; the reorg depth and the
/// retry bounds drive decisions made here.
pub struct Config {
    /// Blocks behind head that count as final.
    pub confirmation_depth: u64,
    /// How far reconciliation may walk back before halting.
    pub max_reorg_depth: u64,
    /// Store-commit attempts per cycle before giving up.
    pub max_commit_attempts: u64,
    /// First retry delay.
    pub base_backoff_ms: u64,
    /// Ceiling for the exponential backoff.
    pub max_backoff_ms: u64,
    /// Scheduling interval of the polling loop.
    pub poll_interval_ms: u64,
    /// Bound on any single chain RPC call.
    pub chain_timeout_ms: u64,
}

impl Config {
    /// Sane bounds: a positive backoff below its ceiling, and a ceiling low
    /// enough that doubling can never overflow; at least one commit attempt.
    pub open spec fn wf(self) -> bool {
        &&& 1 <= self.base_backoff_ms
        &&& self.base_backoff_ms <= self.max_backoff_ms
        &&& self.max_backoff_ms <= 0x2000_0000_0000_0000
        &&& 1 <= self.max_commit_attempts
    }

    /// Conservative defaults for a mainnet-like chain.
    pub fn conservative() -> (r: Self)
        ensures
            r.wf(),
            r.confirmation_depth == 12,
            r.max_reorg_depth == 64,
            r.max_commit_attempts == 5,
            r.base_backoff_ms == 500,
            r.max_backoff_ms == 30000,
            r.poll_interval_ms == 10000,
            r.chain_timeout_ms == 30000,
    {
        Config {
            confirmation_depth: 12,
            max_reorg_depth: 64,
            max_commit_attempts: 5,
            base_backoff_ms: 500,
            max_backoff_ms: 30000,
            poll_interval_ms: 10000,
            chain_timeout_ms: 30000,
        }
    }
}

/// Why the engine halted; terminal until an operator resumes it.
#[derive(Clone, Copy, PartialEq, Eq, Structural, Debug)]
pub enum HaltReason {
    /// The chain diverged deeper than the configured walk-back bound.
    ReorgTooDeep,
    /// A recognized log failed field extraction: a decoding bug or an
    /// unexpected contract upgrade; data must not be dropped silently.
    MalformedPayload,
    /// The store kept failing past the retry ceiling.
    StoreUnavailable,
}

/// The engine's state machine. The three middle states are pass-through
/// phases of a running cycle; between cycles the engine is `Idle` or
/// `Halted`.
#[derive(Clone, Copy, PartialEq, Eq, Structural, Debug)]
pub enum EngineStatus {
    Idle,
    Polling,
    Reconciling,
    Persisting,
    Halted(HaltReason),
}

/// What one cycle did.
#[derive(Clone, Copy, PartialEq, Eq, Structural, Debug)]
pub enum CycleOutcome {
    /// The confirmed height has not passed the cursor.
    NoNewBlocks,
    /// The snapshot broke the chain reader's contract (hash coverage or log
    /// ordering); treated as transient, retried on the next tick.
    BadChainData,
    /// The range `from..=to` was decoded and committed.
    Committed { from: u64, to: u64, deposits: u64, rebases: u64 },
    /// A reorg was rolled back; the next poll resumes from the ancestor.
    ReorgRecovered { ancestor: u64 },
    /// A fatal condition; the engine is now halted.
    Halted(HaltReason),
}

/// The first block such that every stored block hash older than the
/// reorg-depth window lies below it.
pub open spec fn window_lo(store: RecordStore, max_depth: u64) -> int {
    if store.cursor_height() - max_depth >= 0 {
        store.cursor_height() - max_depth
    } else {
        0
    }
}

/// What a cycle demands of a snapshot before trusting it: contiguous hash
/// coverage from the reorg window through the confirmed head, and logs that
/// honour the chain reader's contract — strictly ascending positions, all
/// inside the range past the cursor.
pub open spec fn snapshot_ok(store: RecordStore, chain: ChainView, max_depth: u64) -> bool {
    &&& chain.base_height as int <= window_lo(store, max_depth)
    &&& (chain.confirmed_height as int - chain.base_height as int) < chain.hashes@.len()
    &&& logs_ascending(chain.logs@)
    &&& forall|i: int|
        0 <= i < chain.logs@.len() ==> store.cursor_height() < (
        #[trigger] chain.logs@[i]).block_number as int <= chain.confirmed_height as int
}

/// The trail entries recorded for an ingested range: one per block from
/// `lo`, with the hash the snapshot observed there.
pub open spec fn spec_range_trail(chain: ChainView, lo: int, n: nat) -> Seq<BlockRef> {
    Seq::new(
        n,
        |k: int|
            BlockRef {
                number: (lo + k) as u64,
                hash: chain.hashes@[lo + k - chain.base_height],
            },
    )
}

/// The whole indexer: its state machine, the store it drives, and its
/// configuration.
pub struct Engine {
    pub status: EngineStatus,
    pub store: RecordStore,
    pub config: Config,
}

impl Engine {
    pub open spec fn wf(self) -> bool {
        self.store.wf() && self.config.wf()
    }

    /// A fresh engine over an empty store: the first-run state.
    pub fn new(config: Config) -> (r: Self)
        requires
            config.wf(),
        ensures
            r.wf(),
            r.status == EngineStatus::Idle,
            r.config == config,
            r.store.cursor is None,
            r.store.deposits@.len() == 0,
            r.store.rebases@.len() == 0,
            r.store.block_hashes@.len() == 0,
    {
        Engine { status: EngineStatus::Idle, store: RecordStore::new(), config }
    }

    /// Resume after a restart, from a store read back from disk.
    pub fn with_store(store: RecordStore, config: Config) -> (r: Self)
        requires
            store.wf(),
            config.wf(),
        ensures
            r.wf(),
            r.status == EngineStatus::Idle,
            r.store == store,
            r.config == config,
    {
        Engine { status: EngineStatus::Idle, store, config }
    }

    /// The operator surface: the engine's current state, halt reason
    /// included.
    pub fn status(&self) -> (r: EngineStatus)
        ensures
            r == self.status,
    {
        self.status
    }

    /// Operator command: resume a halted engine after remediation.
    pub fn resume(&mut self)
        ensures
            final(self).status == EngineStatus::Idle,
            final(self).store == old(self).store,
            final(self).config == old(self).config,
    {
        self.status = EngineStatus::Idle;
    }

    /// Operator command: reset the cursor to a manually determined safe
    /// block after remediation of a too-deep reorg, discarding every record
    /// and trail entry above it, and put the machine back to work.
    pub fn reset_cursor(&mut self, ancestor: BlockRef)
        requires
            old(self).wf(),
            ancestor.number as int <= old(self).store.cursor_height(),
        ensures
            final(self).wf(),
            final(self).config == old(self).config,
            final(self).status == EngineStatus::Idle,
            final(self).store.deposits@ == deps_up_to(
                old(self).store.deposits@,
                ancestor.number,
            ),
            final(self).store.rebases@ == rebs_up_to(old(self).store.rebases@, ancestor.number),
            final(self).store.block_hashes@ == trail_up_to(
                old(self).store.block_hashes@,
                ancestor.number,
            ),
            final(self).store.cursor == Some(
                IngestionCursor { block_number: ancestor.number, block_hash: ancestor.hash },
            ),
    {
        self.store.rollback_to(ancestor);
        self.status = EngineStatus::Idle;
    }

    /// The driver reports that mirroring a commit kept failing past the
    /// retry ceiling; the engine halts loudly rather than lag silently.
    pub fn halt_store_unavailable(&mut self)
        ensures
            final(self).status == EngineStatus::Halted(HaltReason::StoreUnavailable),
            final(self).store == old(self).store,
            final(self).config == old(self).config,
    {
        self.status = EngineStatus::Halted(HaltReason::StoreUnavailable);
    }

    /// Judge a snapshot against the chain reader's contract.
    fn check_snapshot(&self, chain: &ChainView) -> (r: bool)
        requires
            self.store.cursor matches Some(c) ==> c.block_number < chain.confirmed_height,
        ensures
            r == snapshot_ok(self.store, *chain, self.config.max_reorg_depth),
    {
        let wlo: u64 = match &self.store.cursor {
            None => 0,
            Some(c) => {
                if c.block_number > self.config.max_reorg_depth {
                    c.block_number - self.config.max_reorg_depth
                } else {
                    0
                }
            },
        };
        if chain.base_height > wlo {
            return false;
        }
        let span = chain.confirmed_height - chain.base_height;
        let n = chain.hashes.len();
        if !(span < n as u64) {
            return false;
        }
        let lo: u64 = match &self.store.cursor {
            None => 0,
            Some(c) => c.block_number + 1,
        };
        if !check_logs_in_range(&chain.logs, lo, chain.confirmed_height) {
            return false;
        }
        if !check_logs_ascending(&chain.logs) {
            return false;
        }
        true
    }
}

/// Was the cursor check clean for this snapshot? A first run has nothing to
/// check.
pub open spec fn cursor_clean(store: RecordStore, chain: ChainView) -> bool {
    match store.cursor {
        None => true,
        Some(c) => cursor_stands(c, chain),
    }
}

/// No stored hash inside the walk-back window still stands on the chain.
pub open spec fn no_recovery_point(store: RecordStore, chain: ChainView, max_depth: u64) -> bool {
    match store.cursor {
        None => true,
        Some(c) => forall|i: int|
            0 <= i < store.block_hashes@.len() && entry_in_depth(
                store.block_hashes@,
                i,
                c,
                max_depth,
            ) ==> !entry_matches(store.block_hashes@, i, chain),
    }
}

/// `a` is the recovery point reconciliation selects: the highest stored
/// entry within the walk-back window that still stands on the chain.
pub open spec fn recovery_point(
    store: RecordStore,
    chain: ChainView,
    max_depth: u64,
    a: BlockRef,
) -> bool {
    match store.cursor {
        None => false,
        Some(c) => exists|i: int|
            0 <= i < store.block_hashes@.len() && store.block_hashes@[i] == a && entry_matches(
                store.block_hashes@,
                i,
                chain,
            ) && entry_in_depth(store.block_hashes@, i, c, max_depth) && (forall|j: int|
                i < j < store.block_hashes@.len() ==> !entry_matches(store.block_hashes@, j, chain)),
    }
}

impl Engine {
    /// Run one ingestion cycle against a snapshot of the chain.
    ///
    /// The cycle either does nothing (`NoNewBlocks`, `BadChainData`), rolls
    /// back a reorg, commits the decoded range atomically with the cursor
    /// advance, or halts on a fatal condition — and the outcome says exactly
    /// which store transition happened.
    pub fn run_cycle(&mut self, chain: &ChainView) -> (r: CycleOutcome)
        requires
            old(self).wf(),
            old(self).status == EngineStatus::Idle,
        ensures
            final(self).wf(),
            final(self).config == old(self).config,
            match r {
                CycleOutcome::NoNewBlocks => {
                    &&& final(self).store == old(self).store
                    &&& final(self).status == EngineStatus::Idle
                    &&& old(self).store.cursor matches Some(c) && chain.confirmed_height
                        <= c.block_number
                },
                CycleOutcome::BadChainData => {
                    &&& final(self).store == old(self).store
                    &&& final(self).status == EngineStatus::Idle
                    &&& chain.confirmed_height as int > old(self).store.cursor_height()
                    &&& !snapshot_ok(old(self).store, *chain, old(self).config.max_reorg_depth)
                },
                CycleOutcome::ReorgRecovered { ancestor } => {
                    &&& chain.confirmed_height as int > old(self).store.cursor_height()
                    &&& snapshot_ok(old(self).store, *chain, old(self).config.max_reorg_depth)
                    &&& !cursor_clean(old(self).store, *chain)
                    &&& exists|a: BlockRef|
                        recovery_point(
                            old(self).store,
                            *chain,
                            old(self).config.max_reorg_depth,
                            a,
                        ) && a.number == ancestor && final(self).store.cursor == Some(
                            IngestionCursor { block_number: a.number, block_hash: a.hash },
                        )
                    &&& final(self).store.deposits@ == deps_up_to(
                        old(self).store.deposits@,
                        ancestor,
                    )
                    &&& final(self).store.rebases@ == rebs_up_to(
                        old(self).store.rebases@,
                        ancestor,
                    )
                    &&& final(self).store.block_hashes@ == trail_up_to(
                        old(self).store.block_hashes@,
                        ancestor,
                    )
                    &&& final(self).status == EngineStatus::Idle
                },
                CycleOutcome::Halted(reason) => {
                    &&& final(self).store == old(self).store
                    &&& final(self).status == EngineStatus::Halted(reason)
                    &&& chain.confirmed_height as int > old(self).store.cursor_height()
                    &&& snapshot_ok(old(self).store, *chain, old(self).config.max_reorg_depth)
                    &&& (reason == HaltReason::ReorgTooDeep <==> (!cursor_clean(
                        old(self).store,
                        *chain,
                    ) && no_recovery_point(
                        old(self).store,
                        *chain,
                        old(self).config.max_reorg_depth,
                    )))
                    &&& (reason == HaltReason::MalformedPayload ==> cursor_clean(
                        old(self).store,
                        *chain,
                    ) && has_malformed(chain.logs@))
                    &&& reason != HaltReason::StoreUnavailable
                },
                CycleOutcome::Committed { from, to, deposits, rebases } => {
                    &&& chain.confirmed_height as int > old(self).store.cursor_height()
                    &&& snapshot_ok(old(self).store, *chain, old(self).config.max_reorg_depth)
                    &&& cursor_clean(old(self).store, *chain)
                    &&& !has_malformed(chain.logs@)
                    &&& from as int == old(self).store.cursor_height() + 1
                    &&& to == chain.confirmed_height
                    &&& deposits as int == spec_deposits_of(chain.logs@).len()
                    &&& rebases as int == spec_rebases_of(chain.logs@).len()
                    &&& final(self).store.deposits@ == apply_deposits(
                        old(self).store.deposits@,
                        spec_deposits_of(chain.logs@),
                    )
                    &&& final(self).store.rebases@ == apply_rebases(
                        old(self).store.rebases@,
                        spec_rebases_of(chain.logs@),
                    )
                    &&& final(self).store.block_hashes@ == old(self).store.block_hashes@
                        + spec_range_trail(*chain, from as int, (to - from + 1) as nat)
                    &&& final(self).store.cursor matches Some(c2) && c2.block_number
                        == chain.confirmed_height && c2.block_hash@ == chain.spec_hash_at(
                        chain.confirmed_height as int,
                    )
                    &&& final(self).status == EngineStatus::Idle
                },
            },
    {
        self.status = EngineStatus::Polling;
        let cursor_opt = self.store.read_cursor();
        match &cursor_opt {
            Some(c) => {
                if chain.confirmed_height <= c.block_number {
                    self.status = EngineStatus::Idle;
                    return CycleOutcome::NoNewBlocks;
                }
            },
            None => {},
        }
        if !self.check_snapshot(chain) {
            self.status = EngineStatus::Idle;
            return CycleOutcome::BadChainData;
        }
        let ghost depth = self.config.max_reorg_depth;
        match cursor_opt {
            Some(c) => {
                self.status = EngineStatus::Reconciling;
                proof {
                    assert(chain.covers(c.block_number as int));
                    assert forall|i: int|
                        0 <= i < self.store.block_hashes@.len() && entry_in_depth(
                            self.store.block_hashes@,
                            i,
                            c,
                            depth,
                        ) implies chain.covers(
                        (#[trigger] self.store.block_hashes@[i]).number as int,
                    ) by {
                        assert(self.store.block_hashes@[i].number as int
                            <= self.store.cursor_height());
                    }
                }
                let verdict = reconcile(
                    &c,
                    &self.store.block_hashes,
                    chain,
                    self.config.max_reorg_depth,
                );
                match verdict {
                    ReorgOutcome::NoReorg => {},
                    ReorgOutcome::ReorgTo(a) => {
                        let ghost trail = self.store.block_hashes@;
                        let ghost ga = a;
                        proof {
                            let i = choose|i: int|
                                0 <= i < trail.len() && trail[i] == ga && entry_matches(
                                    trail,
                                    i,
                                    *chain,
                                ) && entry_in_depth(trail, i, c, depth) && (forall|j: int|
                                    i < j < trail.len() ==> !entry_matches(trail, j, *chain));
                            assert(trail[i].number as int <= self.store.cursor_height());
                        }
                        let anum = a.number;
                        self.store.rollback_to(a);
                        self.status = EngineStatus::Idle;
                        proof {
                            assert(recovery_point(old(self).store, *chain, depth, ga));
                        }
                        return CycleOutcome::ReorgRecovered { ancestor: anum };
                    },
                    ReorgOutcome::ReorgTooDeep => {
                        self.status = EngineStatus::Halted(HaltReason::ReorgTooDeep);
                        return CycleOutcome::Halted(HaltReason::ReorgTooDeep);
                    },
                }
            },
            None => {},
        }
        self.status = EngineStatus::Persisting;
        let lo: u64 = match &self.store.cursor {
            None => 0,
            Some(c) => c.block_number + 1,
        };
        let hi = chain.confirmed_height;
        match decode_batch(&chain.logs) {
            Err(_) => {
                self.status = EngineStatus::Halted(HaltReason::MalformedPayload);
                return CycleOutcome::Halted(HaltReason::MalformedPayload);
            },
            Ok(batches) => {
                let (deps, rebs) = batches;
                let n_deps = deps.len() as u64;
                let n_rebs = rebs.len() as u64;
                let n_hashes = chain.hashes.len();
                let span64 = hi - lo;
                proof {
                    assert(span64 < n_hashes);
                }
                let span = span64 as usize;
                let total = span + 1;
                let mut new_hashes: Vec<BlockRef> = Vec::new();
                let mut i: usize = 0;
                while i < total
                    invariant
                        total == span64 + 1,
                        span64 == hi - lo,
                        lo <= hi,
                        chain.base_height <= lo,
                        (hi as int - chain.base_height as int) < chain.hashes@.len(),
                        i <= total,
                        new_hashes@ == spec_range_trail(*chain, lo as int, i as nat),
                    decreases total - i,
                {
                    let h = lo + i as u64;
                    proof {
                        assert(chain.covers(h as int));
                        assert(spec_range_trail(*chain, lo as int, (i + 1) as nat)
                            =~= spec_range_trail(*chain, lo as int, i as nat).push(
                            BlockRef {
                                number: h,
                                hash: chain.hashes@[h as int - chain.base_height as int],
                            },
                        ));
                    }
                    let hs = chain.hash_at(h).clone();
                    new_hashes.push(BlockRef { number: h, hash: hs });
                    i += 1;
                }
                proof {
                    assert(chain.covers(hi as int));
                }
                let ch = chain.hash_at(hi).clone();
                let new_cursor = IngestionCursor { block_number: hi, block_hash: ch };
                proof {
                    assert forall|k: int|
                        0 <= k < chain.logs@.len() implies lo <= (
                    #[trigger] chain.logs@[k]).block_number <= hi by {}
                    lemma_decoded_blocks_in_range(chain.logs@, lo, hi);
                }
                self.store.commit_batch(deps, rebs, new_hashes, new_cursor);
                self.status = EngineStatus::Idle;
                return CycleOutcome::Committed {
                    from: lo,
                    to: hi,
                    deposits: n_deps,
                    rebases: n_rebs,
                };
            },
        }
    }
}

/// The recursive backoff schedule itself: each retry doubles the previous
/// delay, saturating at the configured ceiling.
pub open spec fn spec_backoff(cfg: Config, attempt: nat) -> int
    decreases attempt,
{
    if attempt == 0 {
        cfg.base_backoff_ms as int
    } else {
        let p = spec_backoff(cfg, (attempt - 1) as nat);
        if 2 * p <= cfg.max_backoff_ms as int {
            2 * p
        } else {
            cfg.max_backoff_ms as int
        }
    }
}

/// The delay before retrying a failed store commit, or `None` once the
/// attempt ceiling is reached and the cycle must abort cleanly.
pub fn backoff_delay_ms(cfg: &Config, attempt: u64) -> (r: Option<u64>)
    requires
        cfg.wf(),
    ensures
        (r is Some) <==> attempt < cfg.max_commit_attempts,
        (r matches Some(d) ==> d as int == spec_backoff(*cfg, attempt as nat)),
{
    if attempt >= cfg.max_commit_attempts {
        return None;
    }
    let mut d = cfg.base_backoff_ms;
    let mut k: u64 = 0;
    while k < attempt
        invariant
            cfg.wf(),
            k <= attempt,
            d as int == spec_backoff(*cfg, k as nat),
            d <= cfg.max_backoff_ms,
        decreases attempt - k,
    {
        let doubled = d * 2;
        d = if doubled <= cfg.max_backoff_ms {
            doubled
        } else {
            cfg.max_backoff_ms
        };
        k += 1;
    }
    Some(d)
}

} // verus!
