use escrow::{EscrowError, Key, Ledger};

fn key(b: u8) -> Key {
    Key::new([b; 32])
}

#[test]
fn transfer_moves_exact_amount() {
    let mut l = Ledger::new();
    l.mint_to(&key(1), &key(9), 50).unwrap();
    assert_eq!(l.transfer_checked(&key(1), &key(2), &key(9), 20), Ok(()));
    assert_eq!(l.get_balance(&key(1), &key(9)), 30);
    assert_eq!(l.get_balance(&key(2), &key(9)), 20);
    assert!(l.account_exists(&key(2), &key(9)));
}

#[test]
fn transfer_errors_leave_ledger_unchanged() {
    let mut l = Ledger::new();
    l.mint_to(&key(1), &key(9), 50).unwrap();
    l.mint_to(&key(2), &key(9), u64::MAX - 10).unwrap();
    assert_eq!(l.transfer_checked(&key(1), &key(2), &key(9), 0), Err(EscrowError::InvalidAmount));
    assert_eq!(l.transfer_checked(&key(1), &key(2), &key(9), 51), Err(EscrowError::InsufficientFunds));
    assert_eq!(l.transfer_checked(&key(3), &key(2), &key(9), 1), Err(EscrowError::InsufficientFunds));
    assert_eq!(l.transfer_checked(&key(1), &key(2), &key(9), 11), Err(EscrowError::Overflow));
    assert_eq!(l.get_balance(&key(1), &key(9)), 50);
    assert_eq!(l.get_balance(&key(2), &key(9)), u64::MAX - 10);
    assert!(!l.account_exists(&key(3), &key(9)));
}

#[test]
fn transfer_to_self_keeps_balance() {
    let mut l = Ledger::new();
    l.mint_to(&key(1), &key(9), 50).unwrap();
    assert_eq!(l.transfer_checked(&key(1), &key(1), &key(9), 50), Ok(()));
    assert_eq!(l.get_balance(&key(1), &key(9)), 50);
}

#[test]
fn mint_to_checks_amount_and_overflow() {
    let mut l = Ledger::new();
    assert_eq!(l.mint_to(&key(1), &key(9), 0), Err(EscrowError::InvalidAmount));
    assert!(!l.account_exists(&key(1), &key(9)));
    l.mint_to(&key(1), &key(9), u64::MAX).unwrap();
    assert_eq!(l.mint_to(&key(1), &key(9), 1), Err(EscrowError::Overflow));
    assert_eq!(l.get_balance(&key(1), &key(9)), u64::MAX);
    assert_eq!(l.get_balance(&key(1), &key(8)), 0);
}

#[test]
fn close_only_empty_accounts() {
    let mut l = Ledger::new();
    l.mint_to(&key(1), &key(9), 5).unwrap();
    l.close_if_empty(&key(1), &key(9));
    assert!(l.account_exists(&key(1), &key(9)));
    l.transfer_checked(&key(1), &key(2), &key(9), 5).unwrap();
    l.close_if_empty(&key(1), &key(9));
    assert!(!l.account_exists(&key(1), &key(9)));
    assert_eq!(l.get_balance(&key(2), &key(9)), 5);
}

#[test]
fn snapshot_is_independent_copy() {
    let mut l = Ledger::new();
    l.mint_to(&key(1), &key(9), 5).unwrap();
    let s = l.snapshot();
    l.mint_to(&key(1), &key(9), 5).unwrap();
    assert_eq!(s.get_balance(&key(1), &key(9)), 5);
    assert_eq!(l.get_balance(&key(1), &key(9)), 10);
}
