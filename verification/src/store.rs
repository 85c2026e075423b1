//! The record store model: deposits, rebase events, the ingestion cursor and
//! the trail of recently observed block hashes.
//!
//! This is the persistence façade the engine drives. Every mutation is a
//! single transition of one value, so a batch of rows and the cursor that
//! covers them always commit together: there is no observable state in which
//! records run ahead of the cursor. A process that mirrors the store into a
//! relational database performs each transition inside one transaction.

use vstd::prelude::*;
use crate::types::{BlockRef, IngestionCursor, RebaseEvent, VaultDeposit};

verus! {

/// Is a deposit with this transaction hash already present?
pub open spec fn dep_has_key(s: Seq<VaultDeposit>, key: Seq<char>) -> bool {
    exists|i: int| 0 <= i < s.len() && (#[trigger] s[i]).tx_hash@ == key
}

/// Is a rebase row with this `(block_number, log_index)` pair already present?
pub open spec fn reb_has_key(s: Seq<RebaseEvent>, block_number: u64, log_index: u64) -> bool {
    exists|i: int|
        0 <= i < s.len() && (#[trigger] s[i]).block_number == block_number && s[i].log_index
            == log_index
}

/// Idempotent insertion of one deposit: a row whose key is present already
/// leaves the table unchanged.
pub open spec fn apply_deposit(s: Seq<VaultDeposit>, d: VaultDeposit) -> Seq<VaultDeposit> {
    if dep_has_key(s, d.tx_hash@) {
        s
    } else {
        s.push(d)
    }
}

/// Idempotent insertion of a whole deposit batch, first row first.
pub open spec fn apply_deposits(s: Seq<VaultDeposit>, batch: Seq<VaultDeposit>) -> Seq<
    VaultDeposit,
>
    decreases batch.len(),
{
    if batch.len() == 0 {
        s
    } else {
        apply_deposit(apply_deposits(s, batch.drop_last()), batch.last())
    }
}

/// Idempotent insertion of one rebase row.
pub open spec fn apply_rebase(s: Seq<RebaseEvent>, e: RebaseEvent) -> Seq<RebaseEvent> {
    if reb_has_key(s, e.block_number, e.log_index) {
        s
    } else {
        s.push(e)
    }
}

/// Idempotent insertion of a whole rebase batch, first row first.
pub open spec fn apply_rebases(s: Seq<RebaseEvent>, batch: Seq<RebaseEvent>) -> Seq<RebaseEvent>
    decreases batch.len(),
{
    if batch.len() == 0 {
        s
    } else {
        apply_rebase(apply_rebases(s, batch.drop_last()), batch.last())
    }
}

/// No two deposits share a transaction hash.
pub open spec fn deps_unique(s: Seq<VaultDeposit>) -> bool {
    forall|i: int, j: int|
        0 <= i < j < s.len() ==> (#[trigger] s[i]).tx_hash@ != (#[trigger] s[j]).tx_hash@
}

/// No two rebase rows share a `(block_number, log_index)` pair.
pub open spec fn rebs_unique(s: Seq<RebaseEvent>) -> bool {
    forall|i: int, j: int|
        0 <= i < j < s.len() ==> !((#[trigger] s[i]).block_number == (#[trigger] s[j]).block_number
            && s[i].log_index == s[j].log_index)
}

/// Hash-trail entries stand in strictly ascending height order.
pub open spec fn trail_ascending(s: Seq<BlockRef>) -> bool {
    forall|i: int, j: int|
        0 <= i < j < s.len() ==> (#[trigger] s[i]).number < (#[trigger] s[j]).number
}

/// The durable state of the indexer: both record tables, the hash trail that
/// reorg reconciliation walks, and the ingestion cursor.
pub struct RecordStore {
    pub deposits: Vec<VaultDeposit>,
    pub rebases: Vec<RebaseEvent>,
    pub block_hashes: Vec<BlockRef>,
    pub cursor: Option<IngestionCursor>,
}

impl RecordStore {
    /// The cursor height, with a first-run store sitting below every block.
    pub open spec fn cursor_height(self) -> int {
        match self.cursor {
            Some(c) => c.block_number as int,
            None => -1,
        }
    }

    /// Store invariant: rows are deduplicated, the trail ascends, and the
    /// cursor covers every record and trail entry — nothing durable lies
    /// beyond the checkpoint.
    pub open spec fn wf(self) -> bool {
        &&& deps_unique(self.deposits@)
        &&& rebs_unique(self.rebases@)
        &&& trail_ascending(self.block_hashes@)
        &&& forall|i: int|
            0 <= i < self.deposits@.len() ==> (#[trigger] self.deposits@[i]).block_number as int
                <= self.cursor_height()
        &&& forall|i: int|
            0 <= i < self.rebases@.len() ==> (#[trigger] self.rebases@[i]).block_number as int
                <= self.cursor_height()
        &&& forall|i: int|
            0 <= i < self.block_hashes@.len() ==> (#[trigger] self.block_hashes@[i]).number as int
                <= self.cursor_height()
    }

    /// An empty store: the state before the first ever ingestion cycle.
    pub fn new() -> (r: Self)
        ensures
            r.wf(),
            r.cursor is None,
            r.deposits@.len() == 0,
            r.rebases@.len() == 0,
            r.block_hashes@.len() == 0,
    {
        RecordStore {
            deposits: Vec::new(),
            rebases: Vec::new(),
            block_hashes: Vec::new(),
            cursor: None,
        }
    }

    /// Read the checkpoint; `None` on first run, before any ingestion.
    pub fn read_cursor(&self) -> (r: Option<IngestionCursor>)
        ensures
            r == self.cursor,
    {
        match &self.cursor {
            Some(c) => Some(c.duplicate()),
            None => None,
        }
    }

    /// Is a deposit with this transaction hash present?
    pub fn deposit_key_present(&self, tx_hash: &String) -> (r: bool)
        ensures
            r == dep_has_key(self.deposits@, tx_hash@),
    {
        let n = self.deposits.len();
        let mut i: usize = 0;
        while i < n
            invariant
                n == self.deposits@.len(),
                i <= n,
                forall|j: int| 0 <= j < i ==> (#[trigger] self.deposits@[j]).tx_hash@ != tx_hash@,
            decreases n - i,
        {
            if self.deposits[i].tx_hash == *tx_hash {
                return true;
            }
            i += 1;
        }
        false
    }

    /// Is a rebase row with this `(block_number, log_index)` pair present?
    pub fn rebase_key_present(&self, block_number: u64, log_index: u64) -> (r: bool)
        ensures
            r == reb_has_key(self.rebases@, block_number, log_index),
    {
        let n = self.rebases.len();
        let mut i: usize = 0;
        while i < n
            invariant
                n == self.rebases@.len(),
                i <= n,
                forall|j: int|
                    0 <= j < i ==> !((#[trigger] self.rebases@[j]).block_number == block_number
                        && self.rebases@[j].log_index == log_index),
            decreases n - i,
        {
            if self.rebases[i].block_number == block_number && self.rebases[i].log_index
                == log_index {
                return true;
            }
            i += 1;
        }
        false
    }

    /// Idempotent insert of one deposit, keyed by transaction hash:
    /// re-submission is a no-op, not an error and not a duplicate row.
    pub fn upsert_deposit(&mut self, d: VaultDeposit)
        ensures
            final(self).deposits@ == apply_deposit(old(self).deposits@, d),
            final(self).rebases == old(self).rebases,
            final(self).block_hashes == old(self).block_hashes,
            final(self).cursor == old(self).cursor,
    {
        if !self.deposit_key_present(&d.tx_hash) {
            self.deposits.push(d);
        }
    }

    /// Idempotent insert of one rebase row, keyed by block number and log
    /// index: re-submission is a no-op.
    pub fn upsert_rebase(&mut self, e: RebaseEvent)
        ensures
            final(self).rebases@ == apply_rebase(old(self).rebases@, e),
            final(self).deposits == old(self).deposits,
            final(self).block_hashes == old(self).block_hashes,
            final(self).cursor == old(self).cursor,
    {
        if !self.rebase_key_present(e.block_number, e.log_index) {
            self.rebases.push(e);
        }
    }
}

/// Applying a deposit batch leaves every existing row in place, at its index,
/// and appends only rows drawn from the batch.
pub proof fn lemma_apply_deposits_frame(s: Seq<VaultDeposit>, batch: Seq<VaultDeposit>)
    ensures
        s.len() <= apply_deposits(s, batch).len(),
        forall|i: int| 0 <= i < s.len() ==> apply_deposits(s, batch)[i] == s[i],
        forall|i: int|
            s.len() <= i < apply_deposits(s, batch).len() ==> batch.contains(
                #[trigger] apply_deposits(s, batch)[i],
            ),
    decreases batch.len(),
{
    if batch.len() > 0 {
        let dl = batch.drop_last();
        lemma_apply_deposits_frame(s, dl);
        let t = apply_deposits(s, dl);
        let u = apply_deposits(s, batch);
        assert forall|i: int| s.len() <= i < u.len() implies batch.contains(#[trigger] u[i]) by {
            if i < t.len() {
                assert(dl.contains(t[i]));
                let j = choose|j: int| 0 <= j < dl.len() && dl[j] == t[i];
                assert(batch[j] == u[i]);
            } else {
                assert(batch[batch.len() - 1] == u[i]);
            }
        }
    }
}

/// Applying a rebase batch leaves every existing row in place, at its index,
/// and appends only rows drawn from the batch.
pub proof fn lemma_apply_rebases_frame(s: Seq<RebaseEvent>, batch: Seq<RebaseEvent>)
    ensures
        s.len() <= apply_rebases(s, batch).len(),
        forall|i: int| 0 <= i < s.len() ==> apply_rebases(s, batch)[i] == s[i],
        forall|i: int|
            s.len() <= i < apply_rebases(s, batch).len() ==> batch.contains(
                #[trigger] apply_rebases(s, batch)[i],
            ),
    decreases batch.len(),
{
    if batch.len() > 0 {
        let dl = batch.drop_last();
        lemma_apply_rebases_frame(s, dl);
        let t = apply_rebases(s, dl);
        let u = apply_rebases(s, batch);
        assert forall|i: int| s.len() <= i < u.len() implies batch.contains(#[trigger] u[i]) by {
            if i < t.len() {
                assert(dl.contains(t[i]));
                let j = choose|j: int| 0 <= j < dl.len() && dl[j] == t[i];
                assert(batch[j] == u[i]);
            } else {
                assert(batch[batch.len() - 1] == u[i]);
            }
        }
    }
}

/// Idempotent insertion never creates a duplicate key.
pub proof fn lemma_apply_deposits_unique(s: Seq<VaultDeposit>, batch: Seq<VaultDeposit>)
    requires
        deps_unique(s),
    ensures
        deps_unique(apply_deposits(s, batch)),
    decreases batch.len(),
{
    if batch.len() > 0 {
        lemma_apply_deposits_unique(s, batch.drop_last());
        let t = apply_deposits(s, batch.drop_last());
        let u = apply_deposits(s, batch);
        let x = batch.last();
        if !dep_has_key(t, x.tx_hash@) {
            assert forall|i: int, j: int| 0 <= i < j < u.len() implies (#[trigger] u[i]).tx_hash@
                != (#[trigger] u[j]).tx_hash@ by {
                if j < t.len() {
                    assert(u[i] == t[i] && u[j] == t[j]);
                } else {
                    assert(u[j] == x && u[i] == t[i]);
                }
            }
        }
    }
}

/// Idempotent insertion never creates a duplicate key.
pub proof fn lemma_apply_rebases_unique(s: Seq<RebaseEvent>, batch: Seq<RebaseEvent>)
    requires
        rebs_unique(s),
    ensures
        rebs_unique(apply_rebases(s, batch)),
    decreases batch.len(),
{
    if batch.len() > 0 {
        lemma_apply_rebases_unique(s, batch.drop_last());
        let t = apply_rebases(s, batch.drop_last());
        let u = apply_rebases(s, batch);
        let x = batch.last();
        if !reb_has_key(t, x.block_number, x.log_index) {
            assert forall|i: int, j: int| 0 <= i < j < u.len() implies !((#[trigger] u[i]).block_number
                == (#[trigger] u[j]).block_number && u[i].log_index == u[j].log_index) by {
                if j < t.len() {
                    assert(u[i] == t[i] && u[j] == t[j]);
                } else {
                    assert(u[j] == x && u[i] == t[i]);
                }
            }
        }
    }
}

impl RecordStore {
    /// Commit one ingested range atomically: both row batches, the hashes of
    /// the blocks the range covered, and the cursor advance happen as a
    /// single transition — all or nothing. Rows already present are left
    /// untouched, so replaying a range never duplicates a row.
    pub fn commit_batch(
        &mut self,
        deposits: Vec<VaultDeposit>,
        rebases: Vec<RebaseEvent>,
        new_hashes: Vec<BlockRef>,
        new_cursor: IngestionCursor,
    )
        requires
            old(self).wf(),
            old(self).cursor_height() <= new_cursor.block_number as int,
            forall|i: int|
                0 <= i < deposits@.len() ==> (#[trigger] deposits@[i]).block_number
                    <= new_cursor.block_number,
            forall|i: int|
                0 <= i < rebases@.len() ==> (#[trigger] rebases@[i]).block_number
                    <= new_cursor.block_number,
            forall|i: int|
                0 <= i < new_hashes@.len() ==> old(self).cursor_height() < (
                #[trigger] new_hashes@[i]).number as int <= new_cursor.block_number as int,
            trail_ascending(new_hashes@),
        ensures
            final(self).deposits@ == apply_deposits(old(self).deposits@, deposits@),
            final(self).rebases@ == apply_rebases(old(self).rebases@, rebases@),
            final(self).block_hashes@ == old(self).block_hashes@ + new_hashes@,
            final(self).cursor == Some(new_cursor),
            final(self).wf(),
    {
        let ghost pre = *old(self);
        let nd = deposits.len();
        let mut i: usize = 0;
        while i < nd
            invariant
                nd == deposits@.len(),
                i <= nd,
                self.deposits@ == apply_deposits(pre.deposits@, deposits@.take(i as int)),
                self.rebases == pre.rebases,
                self.block_hashes == pre.block_hashes,
                self.cursor == pre.cursor,
            decreases nd - i,
        {
            proof {
                assert(deposits@.take(i + 1).drop_last() =~= deposits@.take(i as int));
            }
            self.upsert_deposit(deposits[i].duplicate());
            i += 1;
        }
        proof {
            assert(deposits@.take(nd as int) =~= deposits@);
        }
        let nr = rebases.len();
        let mut i: usize = 0;
        while i < nr
            invariant
                nr == rebases@.len(),
                i <= nr,
                self.deposits@ == apply_deposits(pre.deposits@, deposits@),
                self.rebases@ == apply_rebases(pre.rebases@, rebases@.take(i as int)),
                self.block_hashes == pre.block_hashes,
                self.cursor == pre.cursor,
            decreases nr - i,
        {
            proof {
                assert(rebases@.take(i + 1).drop_last() =~= rebases@.take(i as int));
            }
            self.upsert_rebase(rebases[i].duplicate());
            i += 1;
        }
        proof {
            assert(rebases@.take(nr as int) =~= rebases@);
        }
        let nh = new_hashes.len();
        let mut i: usize = 0;
        while i < nh
            invariant
                nh == new_hashes@.len(),
                i <= nh,
                self.deposits@ == apply_deposits(pre.deposits@, deposits@),
                self.rebases@ == apply_rebases(pre.rebases@, rebases@),
                self.block_hashes@ == pre.block_hashes@ + new_hashes@.take(i as int),
                self.cursor == pre.cursor,
            decreases nh - i,
        {
            proof {
                assert((pre.block_hashes@ + new_hashes@.take(i + 1)) =~= (pre.block_hashes@
                    + new_hashes@.take(i as int)).push(new_hashes@[i as int]));
            }
            self.block_hashes.push(new_hashes[i].duplicate());
            i += 1;
        }
        proof {
            assert(new_hashes@.take(nh as int) =~= new_hashes@);
        }
        self.cursor = Some(new_cursor);
        proof {
            lemma_apply_deposits_frame(pre.deposits@, deposits@);
            lemma_apply_deposits_unique(pre.deposits@, deposits@);
            lemma_apply_rebases_frame(pre.rebases@, rebases@);
            lemma_apply_rebases_unique(pre.rebases@, rebases@);
            assert forall|i: int| 0 <= i < self.deposits@.len() implies (
            #[trigger] self.deposits@[i]).block_number as int <= self.cursor_height() by {
                if i < pre.deposits@.len() {
                    assert(self.deposits@[i] == pre.deposits@[i]);
                } else {
                    let j = choose|j: int|
                        0 <= j < deposits@.len() && deposits@[j] == self.deposits@[i];
                }
            }
            assert forall|i: int| 0 <= i < self.rebases@.len() implies (
            #[trigger] self.rebases@[i]).block_number as int <= self.cursor_height() by {
                if i < pre.rebases@.len() {
                    assert(self.rebases@[i] == pre.rebases@[i]);
                } else {
                    let j = choose|j: int| 0 <= j < rebases@.len() && rebases@[j] == self.rebases@[i];
                }
            }
            assert forall|i: int, j: int| 0 <= i < j < self.block_hashes@.len() implies (
            #[trigger] self.block_hashes@[i]).number < (#[trigger] self.block_hashes@[j]).number by {
                let np = pre.block_hashes@.len() as int;
                if j < np {
                    assert(self.block_hashes@[i] == pre.block_hashes@[i]);
                } else if i < np {
                    assert(self.block_hashes@[i] == pre.block_hashes@[i]);
                    assert(self.block_hashes@[j] == new_hashes@[j - np]);
                } else {
                    assert(self.block_hashes@[i] == new_hashes@[i - np]);
                    assert(self.block_hashes@[j] == new_hashes@[j - np]);
                }
            }
            assert forall|i: int| 0 <= i < self.block_hashes@.len() implies (
            #[trigger] self.block_hashes@[i]).number as int <= self.cursor_height() by {
                let np = pre.block_hashes@.len() as int;
                if i < np {
                    assert(self.block_hashes@[i] == pre.block_hashes@[i]);
                } else {
                    assert(self.block_hashes@[i] == new_hashes@[i - np]);
                }
            }
        }
    }
}

/// A filtered sequence is a subsequence: its rows come from the original,
/// and any pairwise relation among the original's rows still holds.
pub proof fn lemma_filter_pairwise<A>(s: Seq<A>, pred: spec_fn(A) -> bool, r: spec_fn(A, A) -> bool)
    requires
        forall|i: int, j: int| 0 <= i < j < s.len() ==> r(#[trigger] s[i], #[trigger] s[j]),
    ensures
        forall|i: int| 0 <= i < s.filter(pred).len() ==> s.contains(#[trigger] s.filter(pred)[i]),
        forall|i: int, j: int|
            0 <= i < j < s.filter(pred).len() ==> r(
                #[trigger] s.filter(pred)[i],
                #[trigger] s.filter(pred)[j],
            ),
    decreases s.len(),
{
    reveal(Seq::filter);
    if s.len() > 0 {
        let d = s.drop_last();
        assert forall|i: int, j: int| 0 <= i < j < d.len() implies r(
            #[trigger] d[i],
            #[trigger] d[j],
        ) by {
            assert(d[i] == s[i] && d[j] == s[j]);
        }
        lemma_filter_pairwise(d, pred, r);
        let fd = d.filter(pred);
        let fs = s.filter(pred);
        assert forall|i: int| 0 <= i < fs.len() implies s.contains(#[trigger] fs[i]) by {
            if i < fd.len() {
                assert(d.contains(fd[i]));
                let k = choose|k: int| 0 <= k < d.len() && d[k] == fd[i];
                assert(s[k] == fs[i]);
            } else {
                assert(s[s.len() - 1] == fs[i]);
            }
        }
        assert forall|i: int, j: int| 0 <= i < j < fs.len() implies r(
            #[trigger] fs[i],
            #[trigger] fs[j],
        ) by {
            if j < fd.len() {
                assert(fs[i] == fd[i] && fs[j] == fd[j]);
            } else {
                assert(fs[j] == s[s.len() - 1]);
                assert(fs[i] == fd[i]);
                assert(d.contains(fd[i]));
                let k = choose|k: int| 0 <= k < d.len() && d[k] == fd[i];
                assert(r(s[k], s[s.len() - 1]));
            }
        }
    }
}

/// The deposits surviving an invalidation at height `n`, in their old order.
pub open spec fn deps_up_to(s: Seq<VaultDeposit>, n: u64) -> Seq<VaultDeposit> {
    s.filter(|d: VaultDeposit| d.block_number <= n)
}

/// The rebase rows surviving an invalidation at height `n`.
pub open spec fn rebs_up_to(s: Seq<RebaseEvent>, n: u64) -> Seq<RebaseEvent> {
    s.filter(|e: RebaseEvent| e.block_number <= n)
}

/// The trail entries surviving an invalidation at height `n`.
pub open spec fn trail_up_to(s: Seq<BlockRef>, n: u64) -> Seq<BlockRef> {
    s.filter(|b: BlockRef| b.number <= n)
}

impl RecordStore {
    /// Delete every record and trail entry whose block number exceeds the
    /// given height. Used during reorg recovery to discard the rows derived
    /// from a discarded chain segment.
    pub fn invalidate_from(&mut self, block_number: u64)
        ensures
            final(self).deposits@ == deps_up_to(old(self).deposits@, block_number),
            final(self).rebases@ == rebs_up_to(old(self).rebases@, block_number),
            final(self).block_hashes@ == trail_up_to(old(self).block_hashes@, block_number),
            final(self).cursor == old(self).cursor,
            old(self).wf() ==> final(self).wf(),
    {
        let ghost pre = *old(self);
        let nd = self.deposits.len();
        let mut kept_deps: Vec<VaultDeposit> = Vec::new();
        let mut i: usize = 0;
        while i < nd
            invariant
                nd == self.deposits@.len(),
                i <= nd,
                kept_deps@ == deps_up_to(self.deposits@.take(i as int), block_number),
            decreases nd - i,
        {
            proof {
                reveal(Seq::filter);
                assert(self.deposits@.take(i + 1).drop_last() =~= self.deposits@.take(i as int));
                assert(self.deposits@.take(i + 1).last() == self.deposits@[i as int]);
            }
            if self.deposits[i].block_number <= block_number {
                kept_deps.push(self.deposits[i].duplicate());
            }
            i += 1;
        }
        proof {
            assert(self.deposits@.take(nd as int) =~= self.deposits@);
        }
        self.deposits = kept_deps;
        let nr = self.rebases.len();
        let mut kept_rebs: Vec<RebaseEvent> = Vec::new();
        let mut i: usize = 0;
        while i < nr
            invariant
                nr == self.rebases@.len(),
                i <= nr,
                kept_rebs@ == rebs_up_to(self.rebases@.take(i as int), block_number),
            decreases nr - i,
        {
            proof {
                reveal(Seq::filter);
                assert(self.rebases@.take(i + 1).drop_last() =~= self.rebases@.take(i as int));
                assert(self.rebases@.take(i + 1).last() == self.rebases@[i as int]);
            }
            if self.rebases[i].block_number <= block_number {
                kept_rebs.push(self.rebases[i].duplicate());
            }
            i += 1;
        }
        proof {
            assert(self.rebases@.take(nr as int) =~= self.rebases@);
        }
        self.rebases = kept_rebs;
        let nh = self.block_hashes.len();
        let mut kept_trail: Vec<BlockRef> = Vec::new();
        let mut i: usize = 0;
        while i < nh
            invariant
                nh == self.block_hashes@.len(),
                i <= nh,
                kept_trail@ == trail_up_to(self.block_hashes@.take(i as int), block_number),
            decreases nh - i,
        {
            proof {
                reveal(Seq::filter);
                assert(self.block_hashes@.take(i + 1).drop_last() =~= self.block_hashes@.take(
                    i as int,
                ));
                assert(self.block_hashes@.take(i + 1).last() == self.block_hashes@[i as int]);
            }
            if self.block_hashes[i].number <= block_number {
                kept_trail.push(self.block_hashes[i].duplicate());
            }
            i += 1;
        }
        proof {
            assert(self.block_hashes@.take(nh as int) =~= self.block_hashes@);
        }
        self.block_hashes = kept_trail;
        proof {
            if pre.wf() {
                reveal(Seq::filter);
                let dp = (|d: VaultDeposit| d.block_number <= block_number);
                lemma_filter_pairwise(
                    pre.deposits@,
                    dp,
                    (|a: VaultDeposit, b: VaultDeposit| a.tx_hash@ != b.tx_hash@),
                );
                assert forall|i: int| 0 <= i < self.deposits@.len() implies (
                #[trigger] self.deposits@[i]).block_number as int <= self.cursor_height() by {
                    assert(pre.deposits@.contains(self.deposits@[i]));
                    let k = choose|k: int|
                        0 <= k < pre.deposits@.len() && pre.deposits@[k] == self.deposits@[i];
                }
                let rp = (|e: RebaseEvent| e.block_number <= block_number);
                lemma_filter_pairwise(
                    pre.rebases@,
                    rp,
                    (|a: RebaseEvent, b: RebaseEvent|
                        !(a.block_number == b.block_number && a.log_index == b.log_index)),
                );
                assert forall|i: int| 0 <= i < self.rebases@.len() implies (
                #[trigger] self.rebases@[i]).block_number as int <= self.cursor_height() by {
                    assert(pre.rebases@.contains(self.rebases@[i]));
                    let k = choose|k: int|
                        0 <= k < pre.rebases@.len() && pre.rebases@[k] == self.rebases@[i];
                }
                let tp = (|b: BlockRef| b.number <= block_number);
                lemma_filter_pairwise(
                    pre.block_hashes@,
                    tp,
                    (|a: BlockRef, b: BlockRef| a.number < b.number),
                );
                assert forall|i: int| 0 <= i < self.block_hashes@.len() implies (
                #[trigger] self.block_hashes@[i]).number as int <= self.cursor_height() by {
                    assert(pre.block_hashes@.contains(self.block_hashes@[i]));
                    let k = choose|k: int|
                        0 <= k < pre.block_hashes@.len() && pre.block_hashes@[k]
                            == self.block_hashes@[i];
                }
            }
        }
    }

    /// The deposit rows lying in an inclusive block range, in table order;
    /// what a mirror persists after a commit, and what reporting reads.
    pub fn deposits_in_range(&self, lo: u64, hi: u64) -> (r: Vec<VaultDeposit>)
        ensures
            r@ == self.deposits@.filter(
                |d: VaultDeposit| lo <= d.block_number && d.block_number <= hi,
            ),
    {
        let n = self.deposits.len();
        let mut out: Vec<VaultDeposit> = Vec::new();
        let mut i: usize = 0;
        while i < n
            invariant
                n == self.deposits@.len(),
                i <= n,
                out@ == self.deposits@.take(i as int).filter(
                    |d: VaultDeposit| lo <= d.block_number && d.block_number <= hi,
                ),
            decreases n - i,
        {
            proof {
                reveal(Seq::filter);
                assert(self.deposits@.take(i + 1).drop_last() =~= self.deposits@.take(i as int));
                assert(self.deposits@.take(i + 1).last() == self.deposits@[i as int]);
            }
            if lo <= self.deposits[i].block_number && self.deposits[i].block_number <= hi {
                out.push(self.deposits[i].duplicate());
            }
            i += 1;
        }
        proof {
            assert(self.deposits@.take(n as int) =~= self.deposits@);
        }
        out
    }

    /// The rebase rows lying in an inclusive block range, in table order.
    pub fn rebases_in_range(&self, lo: u64, hi: u64) -> (r: Vec<RebaseEvent>)
        ensures
            r@ == self.rebases@.filter(
                |e: RebaseEvent| lo <= e.block_number && e.block_number <= hi,
            ),
    {
        let n = self.rebases.len();
        let mut out: Vec<RebaseEvent> = Vec::new();
        let mut i: usize = 0;
        while i < n
            invariant
                n == self.rebases@.len(),
                i <= n,
                out@ == self.rebases@.take(i as int).filter(
                    |e: RebaseEvent| lo <= e.block_number && e.block_number <= hi,
                ),
            decreases n - i,
        {
            proof {
                reveal(Seq::filter);
                assert(self.rebases@.take(i + 1).drop_last() =~= self.rebases@.take(i as int));
                assert(self.rebases@.take(i + 1).last() == self.rebases@[i as int]);
            }
            if lo <= self.rebases[i].block_number && self.rebases[i].block_number <= hi {
                out.push(self.rebases[i].duplicate());
            }
            i += 1;
        }
        proof {
            assert(self.rebases@.take(n as int) =~= self.rebases@);
        }
        out
    }

    /// The trail entries lying in an inclusive block range, in trail order.
    pub fn trail_in_range(&self, lo: u64, hi: u64) -> (r: Vec<BlockRef>)
        ensures
            r@ == self.block_hashes@.filter(|b: BlockRef| lo <= b.number && b.number <= hi),
    {
        let n = self.block_hashes.len();
        let mut out: Vec<BlockRef> = Vec::new();
        let mut i: usize = 0;
        while i < n
            invariant
                n == self.block_hashes@.len(),
                i <= n,
                out@ == self.block_hashes@.take(i as int).filter(
                    |b: BlockRef| lo <= b.number && b.number <= hi,
                ),
            decreases n - i,
        {
            proof {
                reveal(Seq::filter);
                assert(self.block_hashes@.take(i + 1).drop_last() =~= self.block_hashes@.take(
                    i as int,
                ));
                assert(self.block_hashes@.take(i + 1).last() == self.block_hashes@[i as int]);
            }
            if lo <= self.block_hashes[i].number && self.block_hashes[i].number <= hi {
                out.push(self.block_hashes[i].duplicate());
            }
            i += 1;
        }
        proof {
            assert(self.block_hashes@.take(n as int) =~= self.block_hashes@);
        }
        out
    }

    /// Reorg recovery: discard everything above the common ancestor and move
    /// the cursor back to it, as one transition. The cursor is rolled back
    /// only here — never silently.
    pub fn rollback_to(&mut self, ancestor: BlockRef)
        requires
            old(self).wf(),
            ancestor.number as int <= old(self).cursor_height(),
        ensures
            final(self).deposits@ == deps_up_to(old(self).deposits@, ancestor.number),
            final(self).rebases@ == rebs_up_to(old(self).rebases@, ancestor.number),
            final(self).block_hashes@ == trail_up_to(old(self).block_hashes@, ancestor.number),
            final(self).cursor == Some(
                IngestionCursor { block_number: ancestor.number, block_hash: ancestor.hash },
            ),
            final(self).wf(),
    {
        let ghost pre = *old(self);
        let number = ancestor.number;
        self.invalidate_from(number);
        self.cursor = Some(IngestionCursor { block_number: number, block_hash: ancestor.hash });
        proof {
            let dp = (|d: VaultDeposit| d.block_number <= number);
            lemma_filter_pairwise(
                pre.deposits@,
                dp,
                (|a: VaultDeposit, b: VaultDeposit| a.tx_hash@ != b.tx_hash@),
            );
            assert forall|i: int| 0 <= i < self.deposits@.len() implies (
            #[trigger] self.deposits@[i]).block_number as int <= self.cursor_height() by {
                pre.deposits@.lemma_filter_pred(dp, i);
            }
            let rp = (|e: RebaseEvent| e.block_number <= number);
            lemma_filter_pairwise(
                pre.rebases@,
                rp,
                (|a: RebaseEvent, b: RebaseEvent|
                    !(a.block_number == b.block_number && a.log_index == b.log_index)),
            );
            assert forall|i: int| 0 <= i < self.rebases@.len() implies (
            #[trigger] self.rebases@[i]).block_number as int <= self.cursor_height() by {
                pre.rebases@.lemma_filter_pred(rp, i);
            }
            let tp = (|b: BlockRef| b.number <= number);
            lemma_filter_pairwise(
                pre.block_hashes@,
                tp,
                (|a: BlockRef, b: BlockRef| a.number < b.number),
            );
            assert forall|i: int| 0 <= i < self.block_hashes@.len() implies (
            #[trigger] self.block_hashes@[i]).number as int <= self.cursor_height() by {
                pre.block_hashes@.lemma_filter_pred(tp, i);
            }
        }
    }
}

} // verus!
