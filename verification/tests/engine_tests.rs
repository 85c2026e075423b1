use rebase_indexer::chain::ChainView;
use rebase_indexer::decode::{DEPOSIT_SIGNATURE, REBASE_SIGNATURE};
use rebase_indexer::engine::{
    backoff_delay_ms, Config, CycleOutcome, Engine, EngineStatus, HaltReason,
};
use rebase_indexer::store::RecordStore;
use rebase_indexer::types::{BlockRef, IngestionCursor, RawLogEntry};

fn test_config(max_reorg_depth: u64) -> Config {
    Config {
        confirmation_depth: 2,
        max_reorg_depth,
        max_commit_attempts: 5,
        base_backoff_ms: 500,
        max_backoff_ms: 30000,
        poll_interval_ms: 1000,
        chain_timeout_ms: 30000,
    }
}

fn deposit_log(block: u64, log_index: u64, tx: &str, user: &str, amount: &str) -> RawLogEntry {
    RawLogEntry {
        signature: DEPOSIT_SIGNATURE,
        tx_hash: tx.to_string(),
        block_number: block,
        log_index,
        timestamp: 1000 + block,
        data: vec![user.to_string(), amount.to_string()],
    }
}

fn rebase_log(block: u64, log_index: u64, new_index: &str) -> RawLogEntry {
    RawLogEntry {
        signature: REBASE_SIGNATURE,
        tx_hash: String::new(),
        block_number: block,
        log_index,
        timestamp: 1000 + block,
        data: vec![new_index.to_string()],
    }
}

fn canon_hashes(lo: u64, hi: u64) -> Vec<String> {
    (lo..=hi).map(|h| format!("H{}", h)).collect()
}

fn snapshot(base: u64, confirmed: u64, logs: Vec<RawLogEntry>) -> ChainView {
    ChainView {
        confirmed_height: confirmed,
        base_height: base,
        hashes: canon_hashes(base, confirmed),
        logs,
    }
}

fn store_at(block: u64, trail_from: u64) -> RecordStore {
    RecordStore {
        deposits: Vec::new(),
        rebases: Vec::new(),
        block_hashes: (trail_from..=block)
            .map(|n| BlockRef { number: n, hash: format!("H{}", n) })
            .collect(),
        cursor: Some(IngestionCursor { block_number: block, block_hash: format!("H{}", block) }),
    }
}

#[test]
fn scenario_cursor_100_to_105() {
    // cursor at block 100 (hash H100); confirmed height advances to 105 with
    // one deposit at 103 and one rebase update at 104.
    let mut engine = Engine::with_store(store_at(100, 95), test_config(4));
    let chain = snapshot(
        96,
        105,
        vec![
            deposit_log(103, 0, "0xabc", "0xdepositor", "1000000000000000000"),
            rebase_log(104, 0, "1025000000000000000"),
        ],
    );
    let outcome = engine.run_cycle(&chain);
    assert_eq!(
        outcome,
        CycleOutcome::Committed { from: 101, to: 105, deposits: 1, rebases: 1 },
    );
    assert_eq!(engine.status(), EngineStatus::Idle);
    assert_eq!(engine.store.deposits.len(), 1);
    assert_eq!(engine.store.deposits[0].tx_hash, "0xabc");
    assert_eq!(engine.store.deposits[0].amount_wei, "1000000000000000000");
    assert_eq!(engine.store.deposits[0].block_number, 103);
    assert_eq!(engine.store.rebases.len(), 1);
    assert_eq!(engine.store.rebases[0].new_index, "1025000000000000000");
    assert_eq!(engine.store.rebases[0].block_number, 104);
    let c = engine.store.read_cursor().unwrap();
    assert_eq!(c.block_number, 105);
    assert_eq!(c.block_hash, "H105");
}

#[test]
fn replaying_the_same_range_is_idempotent() {
    // ingesting the same confirmed range twice yields identical row sets
    let mut engine = Engine::with_store(store_at(100, 98), test_config(2));
    let logs = vec![
        deposit_log(101, 0, "0xaa", "0xu", "5"),
        rebase_log(102, 0, "7"),
    ];
    let chain = snapshot(98, 102, logs);
    let first = engine.run_cycle(&chain);
    assert!(matches!(first, CycleOutcome::Committed { .. }));
    let deposits_once: Vec<String> =
        engine.store.deposits.iter().map(|d| d.tx_hash.clone()).collect();
    let rebases_once: Vec<(u64, u64)> =
        engine.store.rebases.iter().map(|e| (e.block_number, e.log_index)).collect();
    // the same snapshot again: the cursor has advanced, nothing is re-ingested
    let second = engine.run_cycle(&chain);
    assert_eq!(second, CycleOutcome::NoNewBlocks);
    let deposits_twice: Vec<String> =
        engine.store.deposits.iter().map(|d| d.tx_hash.clone()).collect();
    let rebases_twice: Vec<(u64, u64)> =
        engine.store.rebases.iter().map(|e| (e.block_number, e.log_index)).collect();
    assert_eq!(deposits_once, deposits_twice);
    assert_eq!(rebases_once, rebases_twice);
}

#[test]
fn first_run_ingests_from_genesis() {
    let mut engine = Engine::new(test_config(8));
    let chain = snapshot(0, 3, vec![deposit_log(2, 0, "0xg", "0xu", "42")]);
    let outcome = engine.run_cycle(&chain);
    assert_eq!(outcome, CycleOutcome::Committed { from: 0, to: 3, deposits: 1, rebases: 0 });
    assert_eq!(engine.store.read_cursor().unwrap().block_number, 3);
    assert_eq!(engine.store.block_hashes.len(), 4);
}

#[test]
fn no_new_blocks_when_confirmed_at_cursor() {
    let mut engine = Engine::with_store(store_at(50, 48), test_config(2));
    let chain = snapshot(48, 50, Vec::new());
    assert_eq!(engine.run_cycle(&chain), CycleOutcome::NoNewBlocks);
    assert_eq!(engine.status(), EngineStatus::Idle);
    assert_eq!(engine.store.read_cursor().unwrap().block_number, 50);
}

#[test]
fn unordered_logs_are_rejected_as_bad_chain_data() {
    let mut engine = Engine::with_store(store_at(10, 8), test_config(2));
    let chain = snapshot(
        8,
        12,
        vec![deposit_log(12, 0, "0xb", "0xu", "2"), deposit_log(11, 0, "0xa", "0xu", "1")],
    );
    assert_eq!(engine.run_cycle(&chain), CycleOutcome::BadChainData);
    assert_eq!(engine.status(), EngineStatus::Idle);
    assert!(engine.store.deposits.is_empty());
}

#[test]
fn missing_hash_coverage_is_bad_chain_data() {
    let mut engine = Engine::with_store(store_at(10, 8), test_config(4));
    // hashes start above the reorg window (10 - 4 = 6), so the snapshot is refused
    let chain = snapshot(9, 12, vec![deposit_log(11, 0, "0xa", "0xu", "1")]);
    assert_eq!(engine.run_cycle(&chain), CycleOutcome::BadChainData);
    assert!(engine.store.deposits.is_empty());
}

#[test]
fn unrecognized_log_is_skipped_and_ingestion_continues() {
    // skip vs halt, first half: an unknown signature never aborts the cycle
    let mut engine = Engine::with_store(store_at(100, 98), test_config(2));
    let mut unknown = deposit_log(101, 0, "0xzz", "0xu", "1");
    unknown.signature = 777;
    let chain = snapshot(
        98,
        103,
        vec![unknown, deposit_log(102, 0, "0xaa", "0xu", "5"), rebase_log(103, 0, "9")],
    );
    let outcome = engine.run_cycle(&chain);
    assert_eq!(outcome, CycleOutcome::Committed { from: 101, to: 103, deposits: 1, rebases: 1 });
    assert_eq!(engine.status(), EngineStatus::Idle);
    assert_eq!(engine.store.deposits.len(), 1);
    assert_eq!(engine.store.deposits[0].tx_hash, "0xaa");
}

#[test]
fn malformed_log_halts_and_leaves_store_unmodified() {
    // skip vs halt, second half: a recognized signature with malformed
    // fields halts the engine; the cycle commits nothing
    let mut engine = Engine::with_store(store_at(100, 98), test_config(2));
    let chain = snapshot(
        98,
        103,
        vec![
            deposit_log(101, 0, "0xok", "0xu", "5"),
            deposit_log(102, 0, "0xbad", "0xu", "five"),
        ],
    );
    let outcome = engine.run_cycle(&chain);
    assert_eq!(outcome, CycleOutcome::Halted(HaltReason::MalformedPayload));
    assert_eq!(engine.status(), EngineStatus::Halted(HaltReason::MalformedPayload));
    assert!(engine.store.deposits.is_empty());
    assert_eq!(engine.store.read_cursor().unwrap().block_number, 100);
    // operator resume puts the machine back to work
    engine.resume();
    assert_eq!(engine.status(), EngineStatus::Idle);
}

#[test]
fn reorg_rolls_back_to_common_ancestor_and_reingests() {
    // chain history 1→2→3 then a reorg to 1→2→3': after reconciliation the
    // store holds nothing from the old block 3 and everything from 3'
    let mut engine = Engine::new(test_config(8));
    let chain_c = snapshot(0, 3, vec![deposit_log(3, 0, "0xc-old", "0xu", "30")]);
    assert!(matches!(engine.run_cycle(&chain_c), CycleOutcome::Committed { .. }));
    assert_eq!(engine.store.deposits.len(), 1);
    // the chain replaced block 3: its hash differs, the cursor hash no longer stands
    let mut hashes = canon_hashes(0, 4);
    hashes[3] = "H3-prime".to_string();
    hashes[4] = "H4-prime".to_string();
    let chain_reorg = ChainView {
        confirmed_height: 4,
        base_height: 0,
        hashes: hashes.clone(),
        logs: vec![deposit_log(4, 0, "0xd", "0xu", "40")],
    };
    let outcome = engine.run_cycle(&chain_reorg);
    assert_eq!(outcome, CycleOutcome::ReorgRecovered { ancestor: 2 });
    assert!(engine.store.deposits.is_empty());
    let c = engine.store.read_cursor().unwrap();
    assert_eq!(c.block_number, 2);
    assert_eq!(c.block_hash, "H2");
    // the next poll re-ingests the replacement branch
    let chain_prime = ChainView {
        confirmed_height: 4,
        base_height: 0,
        hashes,
        logs: vec![
            deposit_log(3, 0, "0xc-new", "0xu", "33"),
            deposit_log(4, 0, "0xd", "0xu", "40"),
        ],
    };
    let outcome = engine.run_cycle(&chain_prime);
    assert_eq!(outcome, CycleOutcome::Committed { from: 3, to: 4, deposits: 2, rebases: 0 });
    let keys: Vec<String> = engine.store.deposits.iter().map(|d| d.tx_hash.clone()).collect();
    assert_eq!(keys, vec!["0xc-new".to_string(), "0xd".to_string()]);
    let c = engine.store.read_cursor().unwrap();
    assert_eq!(c.block_number, 4);
    assert_eq!(c.block_hash, "H4-prime");
}

#[test]
fn reorg_deeper_than_bound_halts() {
    let mut engine = Engine::new(test_config(1));
    let chain_a = snapshot(0, 3, vec![deposit_log(3, 0, "0xa", "0xu", "1")]);
    assert!(matches!(engine.run_cycle(&chain_a), CycleOutcome::Committed { .. }));
    // every hash within the walk-back depth changed
    let mut hashes = canon_hashes(2, 4);
    hashes[0] = "H2-prime".to_string();
    hashes[1] = "H3-prime".to_string();
    hashes[2] = "H4-prime".to_string();
    let chain_b = ChainView { confirmed_height: 4, base_height: 2, hashes, logs: Vec::new() };
    let outcome = engine.run_cycle(&chain_b);
    assert_eq!(outcome, CycleOutcome::Halted(HaltReason::ReorgTooDeep));
    assert_eq!(engine.status(), EngineStatus::Halted(HaltReason::ReorgTooDeep));
    // nothing was deleted: operator intervention is required first
    assert_eq!(engine.store.deposits.len(), 1);
    assert_eq!(engine.store.read_cursor().unwrap().block_number, 3);
}

#[test]
fn operator_reset_recovers_from_deep_reorg() {
    let mut engine = Engine::new(test_config(1));
    let chain_a = snapshot(
        0,
        3,
        vec![deposit_log(2, 0, "0xa", "0xu", "1"), deposit_log(3, 0, "0xb", "0xu", "2")],
    );
    assert!(matches!(engine.run_cycle(&chain_a), CycleOutcome::Committed { .. }));
    let mut hashes = canon_hashes(2, 4);
    hashes[0] = "H2-prime".to_string();
    hashes[1] = "H3-prime".to_string();
    hashes[2] = "H4-prime".to_string();
    let chain_b = ChainView { confirmed_height: 4, base_height: 2, hashes, logs: Vec::new() };
    assert_eq!(engine.run_cycle(&chain_b), CycleOutcome::Halted(HaltReason::ReorgTooDeep));
    // the operator determines a safe ancestor out of band and resets to it
    engine.reset_cursor(BlockRef { number: 1, hash: "H1".to_string() });
    assert_eq!(engine.status(), EngineStatus::Idle);
    let c = engine.store.read_cursor().unwrap();
    assert_eq!(c.block_number, 1);
    assert_eq!(c.block_hash, "H1");
    assert!(engine.store.deposits.is_empty());
}

#[test]
fn records_commit_in_block_order_across_cycles() {
    // ordering: a record at a lower block is committed in an earlier or the
    // same cycle, and stands earlier in the table
    let mut engine = Engine::new(test_config(8));
    let chain1 = snapshot(0, 10, vec![deposit_log(9, 0, "0xfirst", "0xu", "1")]);
    assert!(matches!(engine.run_cycle(&chain1), CycleOutcome::Committed { .. }));
    let chain2 = ChainView {
        confirmed_height: 20,
        base_height: 2,
        hashes: canon_hashes(2, 20),
        logs: vec![deposit_log(15, 0, "0xsecond", "0xu", "2")],
    };
    assert!(matches!(engine.run_cycle(&chain2), CycleOutcome::Committed { .. }));
    assert_eq!(engine.store.deposits.len(), 2);
    assert!(engine.store.deposits[0].block_number < engine.store.deposits[1].block_number);
    assert_eq!(engine.store.deposits[0].tx_hash, "0xfirst");
    assert_eq!(engine.store.deposits[1].tx_hash, "0xsecond");
}

#[test]
fn restart_resumes_from_persisted_cursor() {
    // cursor–commit atomicity across a restart: a new engine built over the
    // persisted store sees exactly the committed checkpoint
    let mut engine = Engine::new(test_config(4));
    let chain = snapshot(0, 5, vec![deposit_log(4, 0, "0xa", "0xu", "1")]);
    assert!(matches!(engine.run_cycle(&chain), CycleOutcome::Committed { .. }));
    let store = engine.store;
    let mut restarted = Engine::with_store(store, test_config(4));
    assert_eq!(restarted.store.read_cursor().unwrap().block_number, 5);
    assert_eq!(restarted.store.deposits.len(), 1);
    // and the highest stored row is covered by the cursor
    let c = restarted.store.read_cursor().unwrap();
    for d in &restarted.store.deposits {
        assert!(d.block_number <= c.block_number);
    }
    assert_eq!(restarted.run_cycle(&chain), CycleOutcome::NoNewBlocks);
}

#[test]
fn store_failure_halts_after_retry_ceiling() {
    let mut engine = Engine::new(test_config(4));
    engine.halt_store_unavailable();
    assert_eq!(engine.status(), EngineStatus::Halted(HaltReason::StoreUnavailable));
    engine.resume();
    assert_eq!(engine.status(), EngineStatus::Idle);
}

#[test]
fn backoff_doubles_and_saturates() {
    let cfg = test_config(4);
    assert_eq!(backoff_delay_ms(&cfg, 0), Some(500));
    assert_eq!(backoff_delay_ms(&cfg, 1), Some(1000));
    assert_eq!(backoff_delay_ms(&cfg, 2), Some(2000));
    assert_eq!(backoff_delay_ms(&cfg, 3), Some(4000));
    assert_eq!(backoff_delay_ms(&cfg, 4), Some(8000));
    assert_eq!(backoff_delay_ms(&cfg, 5), None);
    let mut capped = test_config(4);
    capped.base_backoff_ms = 500;
    capped.max_backoff_ms = 600;
    assert_eq!(backoff_delay_ms(&capped, 1), Some(600));
    assert_eq!(backoff_delay_ms(&capped, 2), Some(600));
}

#[test]
fn conservative_defaults_are_wellformed() {
    let cfg = Config::conservative();
    assert_eq!(cfg.confirmation_depth, 12);
    assert_eq!(cfg.max_reorg_depth, 64);
    assert_eq!(cfg.max_commit_attempts, 5);
    assert_eq!(backoff_delay_ms(&cfg, 0), Some(500));
}
