use pallet_exchange::currency::{BalanceStatus, MultiCurrency, MultiReservableCurrency};
use pallet_exchange::ledger::BalanceLedger;

const A: u64 = 10;
const B: u64 = 20;
const X: u128 = 7;
const Y: u128 = 8;

fn ledger() -> BalanceLedger {
    let mut l = BalanceLedger::new();
    l.deposit(X, &A, 100).unwrap();
    l.deposit(Y, &B, 50).unwrap();
    l
}

#[test]
fn empty_ledger_has_nothing() {
    let l = BalanceLedger::new();
    assert_eq!(l.free_balance(X, &A), 0);
    assert_eq!(l.reserved_balance(X, &A), 0);
    assert_eq!(l.total_issuance(X), 0);
}

#[test]
fn deposit_raises_issuance_and_refuses_overflow() {
    let mut l = ledger();
    assert_eq!(l.deposit(X, &B, 5), Ok(()));
    assert_eq!(l.free_balance(X, &B), 5);
    assert_eq!(l.total_issuance(X), 105);
    assert_eq!(l.total_issuance(Y), 50);
    let before = l.clone();
    assert_eq!(l.deposit(X, &B, u128::MAX - 104), Err(()));
    assert_eq!(l, before);
    assert_eq!(l.deposit(X, &B, u128::MAX - 105), Ok(()));
    assert_eq!(l.total_issuance(X), u128::MAX);
}

#[test]
fn transfer_moves_free_balance() {
    let mut l = ledger();
    assert_eq!(l.transfer(X, &A, &B, 30), Ok(()));
    assert_eq!(l.free_balance(X, &A), 70);
    assert_eq!(l.free_balance(X, &B), 30);
    assert_eq!(l.total_issuance(X), 100);
    let before = l.clone();
    assert_eq!(l.transfer(X, &A, &B, 71), Err(()));
    assert_eq!(l, before);
    assert_eq!(l.transfer(X, &A, &A, 70), Ok(()));
    assert_eq!(l.free_balance(X, &A), 70);
    assert_eq!(l.transfer(Y, &A, &B, 0), Ok(()));
    assert_eq!(l.transfer(Y, &A, &B, 1), Err(()));
}

#[test]
fn reserve_and_unreserve() {
    let mut l = ledger();
    assert_eq!(l.reserve(X, &A, 40), Ok(()));
    assert_eq!(l.free_balance(X, &A), 60);
    assert_eq!(l.reserved_balance(X, &A), 40);
    let before = l.clone();
    assert_eq!(l.reserve(X, &A, 61), Err(()));
    assert_eq!(l, before);
    // Unreserving more than is reserved frees the whole reserve.
    l.unreserve(X, &A, 55);
    assert_eq!(l.free_balance(X, &A), 100);
    assert_eq!(l.reserved_balance(X, &A), 0);
    assert_eq!(l.total_issuance(X), 100);
}

#[test]
fn repatriate_reserved_to_free_and_to_reserved() {
    let mut l = ledger();
    assert_eq!(l.reserve(X, &A, 40), Ok(()));
    assert_eq!(l.repatriate_reserved(X, &A, &B, 10, BalanceStatus::Free), Ok(()));
    assert_eq!(l.reserved_balance(X, &A), 30);
    assert_eq!(l.free_balance(X, &B), 10);
    assert_eq!(l.repatriate_reserved(X, &A, &B, 10, BalanceStatus::Reserved), Ok(()));
    assert_eq!(l.reserved_balance(X, &A), 20);
    assert_eq!(l.reserved_balance(X, &B), 10);
    let before = l.clone();
    assert_eq!(l.repatriate_reserved(X, &A, &B, 21, BalanceStatus::Free), Err(()));
    assert_eq!(l, before);
    // Into one's own account.
    assert_eq!(l.repatriate_reserved(X, &A, &A, 5, BalanceStatus::Reserved), Ok(()));
    assert_eq!(l.reserved_balance(X, &A), 20);
    assert_eq!(l.repatriate_reserved(X, &A, &A, 5, BalanceStatus::Free), Ok(()));
    assert_eq!(l.reserved_balance(X, &A), 15);
    assert_eq!(l.free_balance(X, &A), 65);
    assert_eq!(l.total_issuance(X), 100);
}
