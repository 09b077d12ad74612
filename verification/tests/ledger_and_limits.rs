use privacy_pay::state::nullifier::{AlreadyUsed, NullifierLedger};
use privacy_pay::state::transaction_limits::{
    TransactionLimitError, TransactionLimits, TransactionRecord, DEFAULT_DAILY_LIMIT,
    SECONDS_PER_DAY,
};
use privacy_pay::zk_verifier::verify_nullifier_unused;

fn note(tag: u8) -> [u8; 32] {
    let mut out = [0x11u8; 32];
    out[5] = tag;
    out
}

fn limits() -> TransactionLimits {
    TransactionLimits {
        user: [3u8; 32],
        daily_cross_border_spent: 0,
        daily_cross_border_limit: DEFAULT_DAILY_LIMIT,
        last_reset_date: 1_700_000_000,
        domestic_tx_count: 0,
        cross_border_tx_count: 0,
        bump: 254,
    }
}

#[test]
fn nullifier_is_consumed_once() {
    let mut ledger = NullifierLedger::new();
    assert_eq!(ledger.len(), 0);
    assert!(!ledger.is_consumed(&note(1)));
    assert_eq!(ledger.try_consume(note(1)), Ok(()));
    assert!(ledger.is_consumed(&note(1)));
    assert_eq!(ledger.try_consume(note(1)), Err(AlreadyUsed));
    assert_eq!(ledger.len(), 1);
    assert_eq!(ledger.try_consume(note(2)), Ok(()));
    assert_eq!(ledger.try_consume(note(1)), Err(AlreadyUsed));
    assert_eq!(ledger.try_consume(note(2)), Err(AlreadyUsed));
    assert_eq!(ledger.len(), 2);
}

#[test]
fn consumption_time_is_the_position_in_the_ledger() {
    let mut ledger = NullifierLedger::new();
    assert_eq!(ledger.consumed_at(&note(1)), None);
    for tag in 0..10u8 {
        ledger.try_consume(note(tag)).unwrap();
    }
    assert_eq!(ledger.consumed_at(&note(0)), Some(0));
    assert_eq!(ledger.consumed_at(&note(7)), Some(7));
    assert_eq!(ledger.consumed_at(&note(10)), None);
    let _ = ledger.try_consume(note(7));
    assert_eq!(ledger.consumed_at(&note(7)), Some(7));
}

#[test]
fn nullifiers_that_differ_in_one_byte_are_distinct() {
    let mut ledger = NullifierLedger::new();
    let a = [0u8; 32];
    let mut b = [0u8; 32];
    b[31] = 1;
    assert_eq!(ledger.try_consume(a), Ok(()));
    assert_eq!(ledger.try_consume(b), Ok(()));
    assert_eq!(ledger.try_consume(a), Err(AlreadyUsed));
}

#[test]
fn verify_nullifier_unused_reads_without_consuming() {
    let mut ledger = NullifierLedger::new();
    assert_eq!(verify_nullifier_unused(&ledger, &note(1)), Ok(()));
    assert_eq!(verify_nullifier_unused(&ledger, &note(1)), Ok(()));
    ledger.try_consume(note(1)).unwrap();
    assert_eq!(verify_nullifier_unused(&ledger, &note(1)), Err(AlreadyUsed));
    assert_eq!(verify_nullifier_unused(&ledger, &note(2)), Ok(()));
}

#[test]
fn should_reset_after_a_full_day() {
    let l = limits();
    let t = l.last_reset_date;
    assert_eq!(SECONDS_PER_DAY, 86_400);
    assert!(!l.should_reset(t));
    assert!(!l.should_reset(t + 86_399));
    assert!(l.should_reset(t + 86_400));
    assert!(l.should_reset(t + 86_401));
    assert!(!l.should_reset(t - 1));
    assert!(!l.should_reset(i64::MIN));
    assert!(l.should_reset(i64::MAX));
}

#[test]
fn should_reset_does_not_overflow_at_the_ends() {
    let mut l = limits();
    l.last_reset_date = i64::MIN;
    assert!(l.should_reset(i64::MAX));
    assert!(l.should_reset(0));
    assert!(l.should_reset(i64::MIN + 86_400));
    assert!(!l.should_reset(i64::MIN + 86_399));
    l.last_reset_date = i64::MAX;
    assert!(!l.should_reset(i64::MAX));
    assert!(!l.should_reset(i64::MIN));
    l.last_reset_date = -10;
    assert!(l.should_reset(86_390));
    assert!(!l.should_reset(86_389));
}

#[test]
fn reset_daily_clears_the_counters() {
    let mut l = limits();
    l.daily_cross_border_spent = 77;
    l.domestic_tx_count = 3;
    l.cross_border_tx_count = 4;
    l.reset_daily(1_800_000_000);
    assert_eq!(l.daily_cross_border_spent, 0);
    assert_eq!(l.domestic_tx_count, 0);
    assert_eq!(l.cross_border_tx_count, 0);
    assert_eq!(l.last_reset_date, 1_800_000_000);
    assert_eq!(l.daily_cross_border_limit, DEFAULT_DAILY_LIMIT);
    assert_eq!(l.user, [3u8; 32]);
    assert_eq!(l.bump, 254);
}

#[test]
fn cross_border_spending_stops_at_the_limit() {
    let mut l = limits();
    assert_eq!(DEFAULT_DAILY_LIMIT, 10_000_000_000);
    assert!(l.can_spend_cross_border(10_000_000_000));
    assert!(!l.can_spend_cross_border(10_000_000_001));
    assert_eq!(l.add_cross_border_spending(4_000_000_000), Ok(()));
    assert_eq!(l.daily_cross_border_spent, 4_000_000_000);
    assert_eq!(l.cross_border_tx_count, 1);
    assert!(l.can_spend_cross_border(6_000_000_000));
    assert!(!l.can_spend_cross_border(6_000_000_001));
    assert_eq!(
        l.add_cross_border_spending(6_000_000_001),
        Err(TransactionLimitError::DailyLimitExceeded)
    );
    assert_eq!(l.daily_cross_border_spent, 4_000_000_000);
    assert_eq!(l.cross_border_tx_count, 1);
    assert_eq!(l.add_cross_border_spending(6_000_000_000), Ok(()));
    assert_eq!(l.daily_cross_border_spent, 10_000_000_000);
    assert_eq!(l.cross_border_tx_count, 2);
    assert!(l.can_spend_cross_border(0));
    assert!(!l.can_spend_cross_border(1));
}

#[test]
fn can_spend_does_not_overflow() {
    let mut l = limits();
    l.daily_cross_border_spent = u64::MAX;
    l.daily_cross_border_limit = u64::MAX;
    assert!(l.can_spend_cross_border(0));
    assert!(!l.can_spend_cross_border(1));
    assert!(!l.can_spend_cross_border(u64::MAX));
    l.daily_cross_border_limit = 5;
    assert!(!l.can_spend_cross_border(0));
}

#[test]
fn domestic_transactions_are_counted() {
    let mut l = limits();
    l.add_domestic_transaction();
    l.add_domestic_transaction();
    assert_eq!(l.domestic_tx_count, 2);
    assert_eq!(l.cross_border_tx_count, 0);
    assert_eq!(l.daily_cross_border_spent, 0);
}

#[test]
fn transaction_record_holds_its_fields() {
    let record = TransactionRecord {
        tx_id: [1u8; 32],
        user: [2u8; 32],
        recipient: [3u8; 32],
        amount: 5,
        is_cross_border: true,
        status: 1,
        timestamp: 1_700_000_000,
        signature: String::from("sig"),
        bump: 9,
    };
    assert_eq!(record.amount, 5);
    assert_eq!(record.status, 1);
    assert_eq!(record.signature, "sig");
    assert!(record.is_cross_border);
}
