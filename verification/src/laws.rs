//! The library's global guarantees, stated once over the store model and
//! proved: replay idempotency, cursor–commit atomicity, reorg recovery and
//! commit ordering.

use vstd::prelude::*;
use crate::store::{
    apply_deposit, apply_deposits, apply_rebase, apply_rebases, dep_has_key, deps_up_to,
    lemma_apply_deposits_frame, lemma_apply_rebases_frame, lemma_filter_pairwise, reb_has_key,
    rebs_up_to, RecordStore,
};
use crate::types::{IngestionCursor, RebaseEvent, VaultDeposit};

verus! {

/// After a deposit batch is applied, every key of the batch is present.
pub proof fn lemma_apply_deposits_covers_batch(s: Seq<VaultDeposit>, batch: Seq<VaultDeposit>)
    ensures
        forall|i: int|
            0 <= i < batch.len() ==> dep_has_key(
                apply_deposits(s, batch),
                (#[trigger] batch[i]).tx_hash@,
            ),
    decreases batch.len(),
{
    if batch.len() > 0 {
        let dl = batch.drop_last();
        lemma_apply_deposits_covers_batch(s, dl);
        let t = apply_deposits(s, dl);
        let u = apply_deposits(s, batch);
        assert forall|i: int| 0 <= i < batch.len() implies dep_has_key(
            u,
            (#[trigger] batch[i]).tx_hash@,
        ) by {
            if i < batch.len() - 1 {
                assert(dl[i] == batch[i]);
                assert(dep_has_key(t, batch[i].tx_hash@));
                let k = choose|k: int| 0 <= k < t.len() && (#[trigger] t[k]).tx_hash@ == batch[i].tx_hash@;
                assert(u[k].tx_hash@ == batch[i].tx_hash@);
            } else {
                if dep_has_key(t, batch[i].tx_hash@) {
                    let k = choose|k: int|
                        0 <= k < t.len() && (#[trigger] t[k]).tx_hash@ == batch[i].tx_hash@;
                    assert(u[k].tx_hash@ == batch[i].tx_hash@);
                } else {
                    assert(u[t.len() as int].tx_hash@ == batch[i].tx_hash@);
                }
            }
        }
    }
}

/// After a rebase batch is applied, every key of the batch is present.
pub proof fn lemma_apply_rebases_covers_batch(s: Seq<RebaseEvent>, batch: Seq<RebaseEvent>)
    ensures
        forall|i: int|
            0 <= i < batch.len() ==> reb_has_key(
                apply_rebases(s, batch),
                (#[trigger] batch[i]).block_number,
                batch[i].log_index,
            ),
    decreases batch.len(),
{
    if batch.len() > 0 {
        let dl = batch.drop_last();
        lemma_apply_rebases_covers_batch(s, dl);
        let t = apply_rebases(s, dl);
        let u = apply_rebases(s, batch);
        assert forall|i: int| 0 <= i < batch.len() implies reb_has_key(
            u,
            (#[trigger] batch[i]).block_number,
            batch[i].log_index,
        ) by {
            if i < batch.len() - 1 {
                assert(dl[i] == batch[i]);
                assert(reb_has_key(t, batch[i].block_number, batch[i].log_index));
                let k = choose|k: int|
                    0 <= k < t.len() && (#[trigger] t[k]).block_number == batch[i].block_number
                        && t[k].log_index == batch[i].log_index;
                assert(u[k].block_number == batch[i].block_number && u[k].log_index
                    == batch[i].log_index);
            } else {
                if reb_has_key(t, batch[i].block_number, batch[i].log_index) {
                    let k = choose|k: int|
                        0 <= k < t.len() && (#[trigger] t[k]).block_number == batch[i].block_number
                            && t[k].log_index == batch[i].log_index;
                    assert(u[k].block_number == batch[i].block_number && u[k].log_index
                        == batch[i].log_index);
                } else {
                    assert(u[t.len() as int].block_number == batch[i].block_number && u[t.len() as int].log_index
                        == batch[i].log_index);
                }
            }
        }
    }
}

/// Applying a deposit batch whose keys are all present changes nothing.
pub proof fn lemma_apply_deposits_noop(s: Seq<VaultDeposit>, batch: Seq<VaultDeposit>)
    requires
        forall|i: int| 0 <= i < batch.len() ==> dep_has_key(s, (#[trigger] batch[i]).tx_hash@),
    ensures
        apply_deposits(s, batch) == s,
    decreases batch.len(),
{
    if batch.len() > 0 {
        let dl = batch.drop_last();
        assert forall|i: int| 0 <= i < dl.len() implies dep_has_key(
            s,
            (#[trigger] dl[i]).tx_hash@,
        ) by {
            assert(dl[i] == batch[i]);
        }
        lemma_apply_deposits_noop(s, dl);
        assert(dep_has_key(s, batch[batch.len() - 1].tx_hash@));
        assert(apply_deposit(s, batch.last()) == s);
    }
}

/// Applying a rebase batch whose keys are all present changes nothing.
pub proof fn lemma_apply_rebases_noop(s: Seq<RebaseEvent>, batch: Seq<RebaseEvent>)
    requires
        forall|i: int|
            0 <= i < batch.len() ==> reb_has_key(
                s,
                (#[trigger] batch[i]).block_number,
                batch[i].log_index,
            ),
    ensures
        apply_rebases(s, batch) == s,
    decreases batch.len(),
{
    if batch.len() > 0 {
        let dl = batch.drop_last();
        assert forall|i: int| 0 <= i < dl.len() implies reb_has_key(
            s,
            (#[trigger] dl[i]).block_number,
            dl[i].log_index,
        ) by {
            assert(dl[i] == batch[i]);
        }
        lemma_apply_rebases_noop(s, dl);
        assert(reb_has_key(s, batch[batch.len() - 1].block_number, batch[batch.len() - 1].log_index));
        assert(apply_rebase(s, batch.last()) == s);
    }
}

/// Idempotent replay: ingesting the same deposit batch twice produces the
/// same rows as ingesting it once — no duplicates, whatever the batch.
pub proof fn lemma_deposits_replay_idempotent(s: Seq<VaultDeposit>, batch: Seq<VaultDeposit>)
    ensures
        apply_deposits(apply_deposits(s, batch), batch) == apply_deposits(s, batch),
{
    lemma_apply_deposits_covers_batch(s, batch);
    lemma_apply_deposits_noop(apply_deposits(s, batch), batch);
}

/// Idempotent replay: ingesting the same rebase batch twice produces the
/// same rows as ingesting it once.
pub proof fn lemma_rebases_replay_idempotent(s: Seq<RebaseEvent>, batch: Seq<RebaseEvent>)
    ensures
        apply_rebases(apply_rebases(s, batch), batch) == apply_rebases(s, batch),
{
    lemma_apply_rebases_covers_batch(s, batch);
    lemma_apply_rebases_noop(apply_rebases(s, batch), batch);
}

/// Cursor–commit atomicity: a commit is one transition, so the only
/// observable states are the one before it and the one after it — in which
/// the cursor equals the committed checkpoint, every batch row is present,
/// and no row lies beyond the cursor. There is no state between batch
/// persistence and cursor advance.
pub proof fn lemma_cursor_commit_atomicity(
    pre: RecordStore,
    post: RecordStore,
    deposits: Seq<VaultDeposit>,
    rebases: Seq<RebaseEvent>,
    new_cursor: IngestionCursor,
)
    requires
        pre.wf(),
        pre.cursor_height() <= new_cursor.block_number as int,
        forall|i: int|
            0 <= i < deposits.len() ==> (#[trigger] deposits[i]).block_number
                <= new_cursor.block_number,
        forall|i: int|
            0 <= i < rebases.len() ==> (#[trigger] rebases[i]).block_number
                <= new_cursor.block_number,
        post.deposits@ == apply_deposits(pre.deposits@, deposits),
        post.rebases@ == apply_rebases(pre.rebases@, rebases),
        post.cursor == Some(new_cursor),
    ensures
        post.cursor_height() == new_cursor.block_number as int,
        forall|i: int|
            0 <= i < deposits.len() ==> dep_has_key(
                post.deposits@,
                (#[trigger] deposits[i]).tx_hash@,
            ),
        forall|i: int|
            0 <= i < rebases.len() ==> reb_has_key(
                post.rebases@,
                (#[trigger] rebases[i]).block_number,
                rebases[i].log_index,
            ),
        forall|i: int|
            0 <= i < post.deposits@.len() ==> (#[trigger] post.deposits@[i]).block_number as int
                <= post.cursor_height(),
        forall|i: int|
            0 <= i < post.rebases@.len() ==> (#[trigger] post.rebases@[i]).block_number as int
                <= post.cursor_height(),
{
    lemma_apply_deposits_covers_batch(pre.deposits@, deposits);
    lemma_apply_rebases_covers_batch(pre.rebases@, rebases);
    lemma_apply_deposits_frame(pre.deposits@, deposits);
    lemma_apply_rebases_frame(pre.rebases@, rebases);
    assert forall|i: int| 0 <= i < post.deposits@.len() implies (
    #[trigger] post.deposits@[i]).block_number as int <= post.cursor_height() by {
        if i < pre.deposits@.len() {
            assert(post.deposits@[i] == pre.deposits@[i]);
        } else {
            assert(deposits.contains(post.deposits@[i]));
            let k = choose|k: int| 0 <= k < deposits.len() && deposits[k] == post.deposits@[i];
        }
    }
    assert forall|i: int| 0 <= i < post.rebases@.len() implies (
    #[trigger] post.rebases@[i]).block_number as int <= post.cursor_height() by {
        if i < pre.rebases@.len() {
            assert(post.rebases@[i] == pre.rebases@[i]);
        } else {
            assert(rebases.contains(post.rebases@[i]));
            let k = choose|k: int| 0 <= k < rebases.len() && rebases[k] == post.rebases@[i];
        }
    }
}

/// Ordering: a commit appends. Every row present before keeps its index,
/// and every newly committed deposit carries a strictly greater block number
/// than every row already present — so of two rows with block numbers
/// b1 < b2, the one at b2 is never committed in an earlier cycle.
pub proof fn lemma_deposits_commit_ordering(s: Seq<VaultDeposit>, batch: Seq<VaultDeposit>, h: int)
    requires
        forall|i: int| 0 <= i < s.len() ==> (#[trigger] s[i]).block_number as int <= h,
        forall|i: int| 0 <= i < batch.len() ==> (#[trigger] batch[i]).block_number as int > h,
    ensures
        s.is_prefix_of(apply_deposits(s, batch)),
        forall|i: int, j: int|
            0 <= i < s.len() && s.len() <= j < apply_deposits(s, batch).len() ==> (
            #[trigger] apply_deposits(s, batch)[i]).block_number < (#[trigger] apply_deposits(
                s,
                batch,
            )[j]).block_number,
{
    lemma_apply_deposits_frame(s, batch);
    let u = apply_deposits(s, batch);
    assert(s =~= u.subrange(0, s.len() as int));
    assert forall|i: int, j: int|
        0 <= i < s.len() && s.len() <= j < u.len() implies (#[trigger] u[i]).block_number < (
    #[trigger] u[j]).block_number by {
        assert(u[i] == s[i]);
        assert(batch.contains(u[j]));
        let k = choose|k: int| 0 <= k < batch.len() && batch[k] == u[j];
    }
}

/// Ordering for rebase rows, exactly as for deposits.
pub proof fn lemma_rebases_commit_ordering(s: Seq<RebaseEvent>, batch: Seq<RebaseEvent>, h: int)
    requires
        forall|i: int| 0 <= i < s.len() ==> (#[trigger] s[i]).block_number as int <= h,
        forall|i: int| 0 <= i < batch.len() ==> (#[trigger] batch[i]).block_number as int > h,
    ensures
        s.is_prefix_of(apply_rebases(s, batch)),
        forall|i: int, j: int|
            0 <= i < s.len() && s.len() <= j < apply_rebases(s, batch).len() ==> (
            #[trigger] apply_rebases(s, batch)[i]).block_number < (#[trigger] apply_rebases(
                s,
                batch,
            )[j]).block_number,
{
    lemma_apply_rebases_frame(s, batch);
    let u = apply_rebases(s, batch);
    assert(s =~= u.subrange(0, s.len() as int));
    assert forall|i: int, j: int|
        0 <= i < s.len() && s.len() <= j < u.len() implies (#[trigger] u[i]).block_number < (
    #[trigger] u[j]).block_number by {
        assert(u[i] == s[i]);
        assert(batch.contains(u[j]));
        let k = choose|k: int| 0 <= k < batch.len() && batch[k] == u[j];
    }
}

/// Reorg correctness for deposits: after rolling back to the common ancestor
/// `a` and ingesting the replacement branch, every replacement row is
/// present, and every stored row either survives from at or below the
/// ancestor or belongs to the replacement branch — no row of the discarded
/// branch remains.
pub proof fn lemma_reorg_recovery_deposits(s: Seq<VaultDeposit>, a: u64, branch: Seq<VaultDeposit>)
    requires
        forall|i: int| 0 <= i < branch.len() ==> (#[trigger] branch[i]).block_number > a,
    ensures
        forall|i: int|
            0 <= i < branch.len() ==> dep_has_key(
                apply_deposits(deps_up_to(s, a), branch),
                (#[trigger] branch[i]).tx_hash@,
            ),
        forall|j: int|
            0 <= j < apply_deposits(deps_up_to(s, a), branch).len() ==> ((s.contains(
                #[trigger] apply_deposits(deps_up_to(s, a), branch)[j],
            ) && apply_deposits(deps_up_to(s, a), branch)[j].block_number <= a) || branch.contains(
                apply_deposits(deps_up_to(s, a), branch)[j],
            )),
{
    let kept = deps_up_to(s, a);
    lemma_apply_deposits_covers_batch(kept, branch);
    lemma_apply_deposits_frame(kept, branch);
    lemma_filter_pairwise(
        s,
        (|d: VaultDeposit| d.block_number <= a),
        (|x: VaultDeposit, y: VaultDeposit| true),
    );
    let u = apply_deposits(kept, branch);
    assert forall|j: int| 0 <= j < u.len() implies ((s.contains(#[trigger] u[j])
        && u[j].block_number <= a) || branch.contains(u[j])) by {
        if j < kept.len() {
            assert(u[j] == kept[j]);
            s.lemma_filter_pred((|d: VaultDeposit| d.block_number <= a), j);
        }
    }
}

/// Reorg correctness for rebase rows, exactly as for deposits.
pub proof fn lemma_reorg_recovery_rebases(s: Seq<RebaseEvent>, a: u64, branch: Seq<RebaseEvent>)
    requires
        forall|i: int| 0 <= i < branch.len() ==> (#[trigger] branch[i]).block_number > a,
    ensures
        forall|i: int|
            0 <= i < branch.len() ==> reb_has_key(
                apply_rebases(rebs_up_to(s, a), branch),
                (#[trigger] branch[i]).block_number,
                branch[i].log_index,
            ),
        forall|j: int|
            0 <= j < apply_rebases(rebs_up_to(s, a), branch).len() ==> ((s.contains(
                #[trigger] apply_rebases(rebs_up_to(s, a), branch)[j],
            ) && apply_rebases(rebs_up_to(s, a), branch)[j].block_number <= a) || branch.contains(
                apply_rebases(rebs_up_to(s, a), branch)[j],
            )),
{
    let kept = rebs_up_to(s, a);
    lemma_apply_rebases_covers_batch(kept, branch);
    lemma_apply_rebases_frame(kept, branch);
    lemma_filter_pairwise(
        s,
        (|e: RebaseEvent| e.block_number <= a),
        (|x: RebaseEvent, y: RebaseEvent| true),
    );
    let u = apply_rebases(kept, branch);
    assert forall|j: int| 0 <= j < u.len() implies ((s.contains(#[trigger] u[j])
        && u[j].block_number <= a) || branch.contains(u[j])) by {
        if j < kept.len() {
            assert(u[j] == kept[j]);
            s.lemma_filter_pred((|e: RebaseEvent| e.block_number <= a), j);
        }
    }
}

} // verus!
