use swap_program::ErrorCode;
use swap_program::Ledger;

#[test]
fn empty_ledger_reads_zero() {
    let ledger = Ledger::new();
    assert_eq!(ledger.balance_of(1, 10), 0);
}

#[test]
fn credit_then_read() {
    let mut ledger = Ledger::new();
    assert_eq!(ledger.credit(1, 10, 250), Ok(()));
    assert_eq!(ledger.balance_of(1, 10), 250);
    assert_eq!(ledger.credit(1, 10, 50), Ok(()));
    assert_eq!(ledger.balance_of(1, 10), 300);
    // other keys are untouched
    assert_eq!(ledger.balance_of(1, 11), 0);
    assert_eq!(ledger.balance_of(2, 10), 0);
}

#[test]
fn credit_overflow_changes_nothing() {
    let mut ledger = Ledger::new();
    assert_eq!(ledger.credit(1, 10, u64::MAX), Ok(()));
    assert_eq!(ledger.credit(1, 10, 1), Err(ErrorCode::BalanceOverflow));
    assert_eq!(ledger.balance_of(1, 10), u64::MAX);
}

#[test]
fn debit_spends_and_guards() {
    let mut ledger = Ledger::new();
    assert_eq!(ledger.credit(1, 10, 100), Ok(()));
    assert_eq!(ledger.debit(1, 10, 60), Ok(()));
    assert_eq!(ledger.balance_of(1, 10), 40);
    assert_eq!(ledger.debit(1, 10, 41), Err(ErrorCode::InsufficientFunds));
    assert_eq!(ledger.balance_of(1, 10), 40);
}

#[test]
fn debit_zero_from_missing_account() {
    let mut ledger = Ledger::new();
    assert_eq!(ledger.debit(9, 9, 0), Ok(()));
    assert_eq!(ledger.debit(9, 9, 1), Err(ErrorCode::InsufficientFunds));
}
