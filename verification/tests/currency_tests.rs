use pallets::currency::{Balances, Error};

fn ledger_with(entries: &[(u64, u64)]) -> Balances {
    let mut b = Balances::new();
    for (who, amount) in entries {
        b.make_free_balance_be(*who, *amount);
    }
    b
}

#[test]
fn withdraw_takes_amount_and_reaps_empty_account() {
    let mut b = ledger_with(&[(1, 50)]);
    assert_eq!(b.withdraw(1, 20), Ok(20));
    assert_eq!(b.free_balance(1), 30);
    assert!(b.account_exists(1));
    assert_eq!(b.withdraw(1, 30), Ok(30));
    assert_eq!(b.free_balance(1), 0);
    assert!(!b.account_exists(1));
}

#[test]
fn withdraw_more_than_free_fails_without_change() {
    let mut b = ledger_with(&[(1, 50)]);
    assert_eq!(b.withdraw(1, 51), Err(Error::InsufficientBalance));
    assert_eq!(b.free_balance(1), 50);
    assert_eq!(b.withdraw(2, 1), Err(Error::InsufficientBalance));
    assert_eq!(b.withdraw(2, 0), Ok(0));
}

#[test]
fn resolve_creating_creates_account_and_drops_overflow() {
    let mut b = ledger_with(&[(1, u64::MAX - 1)]);
    b.resolve_creating(2, 7);
    assert_eq!(b.free_balance(2), 7);
    b.resolve_creating(1, 5);
    assert_eq!(b.free_balance(1), u64::MAX - 1);
    b.resolve_creating(3, 0);
    assert!(!b.account_exists(3));
}

#[test]
fn resolve_into_existing_drops_amount_for_missing_account() {
    let mut b = ledger_with(&[(1, 10)]);
    assert!(b.resolve_into_existing(1, 5));
    assert_eq!(b.free_balance(1), 15);
    assert!(!b.resolve_into_existing(2, 5));
    assert!(!b.account_exists(2));
}

#[test]
fn transfer_moves_value() {
    let mut b = ledger_with(&[(1, 10), (2, 3)]);
    assert_eq!(b.transfer(1, 2, 4), Ok(()));
    assert_eq!(b.free_balance(1), 6);
    assert_eq!(b.free_balance(2), 7);
    assert_eq!(b.transfer(1, 3, 6), Ok(()));
    assert!(!b.account_exists(1));
    assert_eq!(b.free_balance(3), 6);
}

#[test]
fn transfer_errors() {
    let mut b = ledger_with(&[(1, 10), (2, u64::MAX)]);
    assert_eq!(b.transfer(1, 3, 11), Err(Error::InsufficientBalance));
    assert_eq!(b.transfer(1, 2, 1), Err(Error::Overflow));
    assert_eq!(b.free_balance(1), 10);
    assert_eq!(b.free_balance(2), u64::MAX);
    assert_eq!(b.transfer(1, 1, 100), Ok(()));
    assert_eq!(b.transfer(4, 5, 0), Ok(()));
    assert_eq!(b.free_balance(1), 10);
}

#[test]
fn withdraw_then_resolve_restores_balance() {
    let mut b = ledger_with(&[(1, 40), (2, 9)]);
    let imbalance = b.withdraw(1, 40).unwrap();
    b.resolve_creating(1, imbalance);
    assert_eq!(b.free_balance(1), 40);
    assert_eq!(b.free_balance(2), 9);
}

#[test]
fn transfer_conserves_the_two_balances() {
    let mut b = ledger_with(&[(1, 40), (2, 9), (3, 1)]);
    b.transfer(1, 2, 17).unwrap();
    assert_eq!(b.free_balance(1) + b.free_balance(2), 49);
    assert_eq!(b.free_balance(3), 1);
}

#[test]
fn transfer_then_return_restores_balances() {
    let mut b = Balances::new();
    b.make_free_balance_be(1, 100);
    assert_eq!(b.transfer(1, 2, 40), Ok(()));
    assert_eq!(b.free_balance(2), 40);
    assert_eq!(b.withdraw(2, 40), Ok(40));
    assert!(!b.account_exists(2));
    assert!(b.resolve_into_existing(1, 40));
    assert_eq!(b.free_balance(1), 100);
    assert_eq!(b.free_balance(2), 0);
}
