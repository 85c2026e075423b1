use rebase_indexer::decode::{
    check_decimal_string, decode, decode_batch, DecodeError, DecodedEvent, DEPOSIT_SIGNATURE,
    REBASE_SIGNATURE,
};
use rebase_indexer::types::RawLogEntry;

fn deposit_log(block: u64, log_index: u64, tx: &str, user: &str, amount: &str) -> RawLogEntry {
    RawLogEntry {
        signature: DEPOSIT_SIGNATURE,
        tx_hash: tx.to_string(),
        block_number: block,
        log_index,
        timestamp: 1_700_000_000 + block,
        data: vec![user.to_string(), amount.to_string()],
    }
}

fn rebase_log(block: u64, log_index: u64, new_index: &str) -> RawLogEntry {
    RawLogEntry {
        signature: REBASE_SIGNATURE,
        tx_hash: String::new(),
        block_number: block,
        log_index,
        timestamp: 1_700_000_000 + block,
        data: vec![new_index.to_string()],
    }
}

#[test]
fn decimal_strings_are_recognized() {
    assert!(check_decimal_string("0"));
    assert!(check_decimal_string("1000000000000000000"));
    assert!(!check_decimal_string(""));
    assert!(!check_decimal_string("12a3"));
    assert!(!check_decimal_string("-5"));
    assert!(!check_decimal_string("1.5"));
}

#[test]
fn deposit_log_decodes_to_typed_event() {
    let log = deposit_log(103, 0, "0xabc", "0xdepositor", "1000000000000000000");
    match decode(&log) {
        Ok(DecodedEvent::Deposit(d)) => {
            assert_eq!(d.tx_hash, "0xabc");
            assert_eq!(d.user_address, "0xdepositor");
            assert_eq!(d.amount_wei, "1000000000000000000");
            assert_eq!(d.block_number, 103);
            assert_eq!(d.timestamp, 1_700_000_103);
        },
        other => panic!("expected a deposit, got {:?}", other.err()),
    }
}

#[test]
fn rebase_log_decodes_to_typed_event() {
    let log = rebase_log(104, 1, "1025000000000000000");
    match decode(&log) {
        Ok(DecodedEvent::Rebase(e)) => {
            assert_eq!(e.new_index, "1025000000000000000");
            assert_eq!(e.block_number, 104);
            assert_eq!(e.log_index, 1);
        },
        other => panic!("expected a rebase, got {:?}", other.err()),
    }
}

#[test]
fn unknown_signature_is_skippable_not_fatal() {
    let mut log = deposit_log(10, 0, "0x1", "0xu", "5");
    log.signature = 99;
    match decode(&log) {
        Err(DecodeError::UnknownEventShape) => {},
        other => panic!("expected UnknownEventShape, got {:?}", other.err()),
    }
}

#[test]
fn wrong_arity_is_malformed() {
    let mut log = deposit_log(10, 0, "0x1", "0xu", "5");
    log.data.pop();
    assert_eq!(decode(&log).err(), Some(DecodeError::MalformedPayload));
    let mut reb = rebase_log(11, 0, "7");
    reb.data.push("extra".to_string());
    assert_eq!(decode(&reb).err(), Some(DecodeError::MalformedPayload));
}

#[test]
fn non_decimal_amount_is_malformed() {
    let log = deposit_log(10, 0, "0x1", "0xu", "1e18");
    assert_eq!(decode(&log).err(), Some(DecodeError::MalformedPayload));
    let reb = rebase_log(11, 0, "");
    assert_eq!(decode(&reb).err(), Some(DecodeError::MalformedPayload));
}

#[test]
fn batch_skips_unknown_and_keeps_order() {
    let mut unknown = deposit_log(101, 1, "0x2", "0xu", "5");
    unknown.signature = 42;
    let logs = vec![
        deposit_log(101, 0, "0x1", "0xa", "10"),
        unknown,
        rebase_log(102, 0, "20"),
        deposit_log(102, 1, "0x3", "0xb", "30"),
    ];
    let (deps, rebs) = decode_batch(&logs).expect("no malformed log in the batch");
    assert_eq!(deps.len(), 2);
    assert_eq!(deps[0].tx_hash, "0x1");
    assert_eq!(deps[1].tx_hash, "0x3");
    assert_eq!(rebs.len(), 1);
    assert_eq!(rebs[0].new_index, "20");
}

#[test]
fn batch_aborts_on_malformed() {
    let logs = vec![
        deposit_log(101, 0, "0x1", "0xa", "10"),
        deposit_log(102, 0, "0x2", "0xb", "not-a-number"),
    ];
    assert_eq!(decode_batch(&logs).err(), Some(DecodeError::MalformedPayload));
}
