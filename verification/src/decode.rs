//! Event decoder: classifies raw log entries by their signature and extracts
//! typed domain events.
//!
//! The contract's event set is closed: a log is a deposit, a rebase update,
//! or unrecognized. An unrecognized signature is skippable; a recognized
//! signature whose payload does not parse is fatal to the cycle.

use vstd::prelude::*;
use vstd::string::*;
use crate::types::{RawLogEntry, RebaseEvent, VaultDeposit};

verus! {

/// Signature discriminator carried by deposit logs. The RPC edge maps the
/// contract's 32-byte event topic to this value.
pub const DEPOSIT_SIGNATURE: u64 = 1;

/// Signature discriminator carried by rebase-update logs.
pub const REBASE_SIGNATURE: u64 = 2;

/// A successfully decoded log entry.
pub enum DecodedEvent {
    Deposit(VaultDeposit),
    Rebase(RebaseEvent),
}

/// Why a log entry failed to decode.
///
/// `UnknownEventShape` marks a log that is not one of the two known events;
/// callers skip such logs. `MalformedPayload` marks a log whose signature is
/// recognized but whose fields do not parse; callers must halt on it.
#[derive(Clone, Copy, PartialEq, Eq, Structural, Debug)]
pub enum DecodeError {
    UnknownEventShape,
    MalformedPayload,
}

/// A decimal digit.
pub open spec fn is_dec_digit(c: char) -> bool {
    '0' <= c && c <= '9'
}

/// A non-empty string of decimal digits: the carrier format for
/// arbitrary-precision amounts and index values.
pub open spec fn is_decimal_string(s: Seq<char>) -> bool {
    s.len() > 0 && forall|i: int| 0 <= i < s.len() ==> is_dec_digit(#[trigger] s[i])
}

/// A deposit payload is `[user_address, amount_wei]` with a decimal amount.
pub open spec fn deposit_payload_ok(l: RawLogEntry) -> bool {
    l.data@.len() == 2 && is_decimal_string(l.data@[1]@)
}

/// A rebase payload is `[new_index]` with a decimal index value.
pub open spec fn rebase_payload_ok(l: RawLogEntry) -> bool {
    l.data@.len() == 1 && is_decimal_string(l.data@[0]@)
}

/// The deposit row extracted from a well-formed deposit log.
pub open spec fn spec_deposit_of(l: RawLogEntry) -> VaultDeposit {
    VaultDeposit {
        tx_hash: l.tx_hash,
        user_address: l.data@[0],
        amount_wei: l.data@[1],
        block_number: l.block_number,
        timestamp: l.timestamp,
    }
}

/// The rebase row extracted from a well-formed rebase log.
pub open spec fn spec_rebase_of(l: RawLogEntry) -> RebaseEvent {
    RebaseEvent {
        new_index: l.data@[0],
        block_number: l.block_number,
        log_index: l.log_index,
        timestamp: l.timestamp,
    }
}

/// What `decode` returns for every possible log entry.
pub open spec fn spec_decode(l: RawLogEntry) -> Result<DecodedEvent, DecodeError> {
    if l.signature == DEPOSIT_SIGNATURE {
        if deposit_payload_ok(l) {
            Ok(DecodedEvent::Deposit(spec_deposit_of(l)))
        } else {
            Err(DecodeError::MalformedPayload)
        }
    } else if l.signature == REBASE_SIGNATURE {
        if rebase_payload_ok(l) {
            Ok(DecodedEvent::Rebase(spec_rebase_of(l)))
        } else {
            Err(DecodeError::MalformedPayload)
        }
    } else {
        Err(DecodeError::UnknownEventShape)
    }
}

/// Does `s` consist of decimal digits, with at least one?
pub fn check_decimal_string(s: &str) -> (r: bool)
    ensures
        r == is_decimal_string(s@),
{
    let n = s.unicode_len();
    if n == 0 {
        return false;
    }
    let mut i: usize = 0;
    while i < n
        invariant
            n == s@.len(),
            i <= n,
            forall|j: int| 0 <= j < i ==> is_dec_digit(#[trigger] s@[j]),
        decreases n - i,
    {
        let c = s.get_char(i);
        if !('0' <= c && c <= '9') {
            return false;
        }
        i += 1;
    }
    true
}

/// Classify one raw log entry and extract its typed event.
pub fn decode(l: &RawLogEntry) -> (r: Result<DecodedEvent, DecodeError>)
    ensures
        r == spec_decode(*l),
{
    if l.signature == DEPOSIT_SIGNATURE {
        if l.data.len() != 2 {
            return Err(DecodeError::MalformedPayload);
        }
        let amount: String = l.data[1].clone();
        if !check_decimal_string(amount.as_str()) {
            return Err(DecodeError::MalformedPayload);
        }
        Ok(DecodedEvent::Deposit(VaultDeposit {
            tx_hash: l.tx_hash.clone(),
            user_address: l.data[0].clone(),
            amount_wei: amount,
            block_number: l.block_number,
            timestamp: l.timestamp,
        }))
    } else if l.signature == REBASE_SIGNATURE {
        if l.data.len() != 1 {
            return Err(DecodeError::MalformedPayload);
        }
        let idx: String = l.data[0].clone();
        if !check_decimal_string(idx.as_str()) {
            return Err(DecodeError::MalformedPayload);
        }
        Ok(DecodedEvent::Rebase(RebaseEvent {
            new_index: idx,
            block_number: l.block_number,
            log_index: l.log_index,
            timestamp: l.timestamp,
        }))
    } else {
        Err(DecodeError::UnknownEventShape)
    }
}

/// Is some log in the sequence recognized but malformed? One such log is
/// fatal to the whole cycle.
pub open spec fn has_malformed(logs: Seq<RawLogEntry>) -> bool {
    exists|i: int|
        0 <= i < logs.len() && spec_decode(logs[i]) == Err::<DecodedEvent, DecodeError>(
            DecodeError::MalformedPayload,
        )
}

/// The deposit rows extracted from `logs` in order, skipping everything
/// that is not a deposit log.
pub open spec fn spec_deposits_of(logs: Seq<RawLogEntry>) -> Seq<VaultDeposit>
    decreases logs.len(),
{
    if logs.len() == 0 {
        Seq::<VaultDeposit>::empty()
    } else {
        let rest = spec_deposits_of(logs.drop_last());
        match spec_decode(logs.last()) {
            Ok(DecodedEvent::Deposit(d)) => rest.push(d),
            _ => rest,
        }
    }
}

/// The rebase rows extracted from `logs` in order, skipping everything
/// that is not a rebase log.
pub open spec fn spec_rebases_of(logs: Seq<RawLogEntry>) -> Seq<RebaseEvent>
    decreases logs.len(),
{
    if logs.len() == 0 {
        Seq::<RebaseEvent>::empty()
    } else {
        let rest = spec_rebases_of(logs.drop_last());
        match spec_decode(logs.last()) {
            Ok(DecodedEvent::Rebase(e)) => rest.push(e),
            _ => rest,
        }
    }
}

/// Decode a whole fetched range.
///
/// Unrecognized logs are skipped and never abort the batch; the first
/// malformed log aborts with `MalformedPayload` so the caller can halt.
pub fn decode_batch(logs: &Vec<RawLogEntry>) -> (r: Result<
    (Vec<VaultDeposit>, Vec<RebaseEvent>),
    DecodeError,
>)
    ensures
        r is Ok <==> !has_malformed(logs@),
        (r matches Ok(p) ==> p.0@ == spec_deposits_of(logs@) && p.1@ == spec_rebases_of(logs@)),
        (r matches Err(e) ==> e == DecodeError::MalformedPayload),
{
    let mut deps: Vec<VaultDeposit> = Vec::new();
    let mut rebs: Vec<RebaseEvent> = Vec::new();
    let mut i: usize = 0;
    while i < logs.len()
        invariant
            i <= logs@.len(),
            deps@ == spec_deposits_of(logs@.take(i as int)),
            rebs@ == spec_rebases_of(logs@.take(i as int)),
            !has_malformed(logs@.take(i as int)),
        decreases logs@.len() - i,
    {
        proof {
            assert(logs@.take(i + 1).drop_last() =~= logs@.take(i as int));
            assert(logs@.take(i + 1).last() == logs@[i as int]);
        }
        match decode(&logs[i]) {
            Ok(DecodedEvent::Deposit(d)) => {
                deps.push(d);
            },
            Ok(DecodedEvent::Rebase(e)) => {
                rebs.push(e);
            },
            Err(DecodeError::UnknownEventShape) => {},
            Err(DecodeError::MalformedPayload) => {
                return Err(DecodeError::MalformedPayload);
            },
        }
        i += 1;
    }
    proof {
        assert(logs@.take(logs@.len() as int) =~= logs@);
    }
    Ok((deps, rebs))
}

/// Every decoded row carries the block number of some log it came from, so
/// a bound on the logs' block numbers bounds the rows' too.
pub proof fn lemma_decoded_blocks_in_range(logs: Seq<RawLogEntry>, lo: u64, hi: u64)
    requires
        forall|i: int| 0 <= i < logs.len() ==> lo <= (#[trigger] logs[i]).block_number <= hi,
    ensures
        forall|i: int|
            0 <= i < spec_deposits_of(logs).len() ==> lo <= (#[trigger] spec_deposits_of(logs)[i]).block_number
                <= hi,
        forall|i: int|
            0 <= i < spec_rebases_of(logs).len() ==> lo <= (#[trigger] spec_rebases_of(logs)[i]).block_number
                <= hi,
    decreases logs.len(),
{
    if logs.len() > 0 {
        let rest = logs.drop_last();
        lemma_decoded_blocks_in_range(rest, lo, hi);
        assert(lo <= logs[logs.len() - 1].block_number <= hi);
        let dl = spec_deposits_of(logs);
        let dr = spec_deposits_of(rest);
        assert forall|i: int| 0 <= i < dl.len() implies lo <= (#[trigger] dl[i]).block_number
            <= hi by {
            if i < dr.len() {
                assert(dl[i] == dr[i]);
            } else {
                assert(dl[i] == dl.last());
            }
        }
        let rl = spec_rebases_of(logs);
        let rr = spec_rebases_of(rest);
        assert forall|i: int| 0 <= i < rl.len() implies lo <= (#[trigger] rl[i]).block_number
            <= hi by {
            if i < rr.len() {
                assert(rl[i] == rr[i]);
            } else {
                assert(rl[i] == rl.last());
            }
        }
    }
}

} // verus!
