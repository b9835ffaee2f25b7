//! Wallet ledger behaviour: creation, credit/debit, idempotency and
//! optimistic concurrency.

use payment_system::wallet::{
    CreateWalletRequest, CreditDebitRequest, WalletError, WalletService,
};

const NOW: i64 = 1_700_000_000;

fn req(user_id: u128, amount: u64, key: &str) -> CreditDebitRequest {
    CreditDebitRequest { user_id, amount, idempotency_key: key.to_string() }
}

#[test]
fn test_create_wallet() {
    let mut service = WalletService::new();
    let user_id: u128 = 7;
    let wallet = service.create_wallet(&CreateWalletRequest { user_id }, NOW).unwrap();
    assert_eq!(wallet.user_id, user_id);
    assert_eq!(wallet.balance, 0);
    assert_eq!(wallet.version, 0);
}

#[test]
fn test_create_wallet_is_idempotent() {
    let mut service = WalletService::new();
    let user_id: u128 = 7;
    service.create_wallet(&CreateWalletRequest { user_id }, NOW).unwrap();
    service.credit(&req(user_id, 500, "seed"), NOW).unwrap();
    // Creating again succeeds and returns the existing wallet, not a
    // fresh one and not an error.
    let again = service.create_wallet(&CreateWalletRequest { user_id }, NOW + 5).unwrap();
    assert_eq!(again.balance, 500);
    assert_eq!(again.version, 1);
}

#[test]
fn test_credit_wallet() {
    let mut service = WalletService::new();
    let user_id: u128 = 11;
    service.create_wallet(&CreateWalletRequest { user_id }, NOW).unwrap();
    let wallet = service.credit(&req(user_id, 10000, "test_key_1"), NOW).unwrap();
    assert_eq!(wallet.balance, 10000);
}

#[test]
fn test_debit_insufficient_balance() {
    let mut service = WalletService::new();
    let user_id: u128 = 13;
    service.create_wallet(&CreateWalletRequest { user_id }, NOW).unwrap();
    let err = service.debit(&req(user_id, 5000, "test_key_2"), NOW).unwrap_err();
    assert!(matches!(err, WalletError::InsufficientBalance));
}

#[test]
fn test_credit_then_replay_same_key() {
    // Create wallet W; credit 100000 with key "k1" -> balance 100000,
    // version 1.  Credit again with "k1" -> DuplicateIdempotencyKey,
    // balance stays 100000.
    let mut service = WalletService::new();
    let user_id: u128 = 17;
    service.create_wallet(&CreateWalletRequest { user_id }, NOW).unwrap();
    let wallet = service.credit(&req(user_id, 100000, "k1"), NOW).unwrap();
    assert_eq!(wallet.balance, 100000);
    assert_eq!(wallet.version, 1);
    let err = service.credit(&req(user_id, 100000, "k1"), NOW + 1).unwrap_err();
    assert!(matches!(err, WalletError::DuplicateIdempotencyKey));
    assert_eq!(service.get_balance(user_id).unwrap(), 100000);
}

#[test]
fn test_debit_replay_same_key() {
    let mut service = WalletService::new();
    let user_id: u128 = 18;
    service.create_wallet(&CreateWalletRequest { user_id }, NOW).unwrap();
    service.credit(&req(user_id, 50000, "fund"), NOW).unwrap();
    let wallet = service.debit(&req(user_id, 20000, "d1"), NOW).unwrap();
    assert_eq!(wallet.balance, 30000);
    let err = service.debit(&req(user_id, 20000, "d1"), NOW + 1).unwrap_err();
    assert!(matches!(err, WalletError::DuplicateIdempotencyKey));
    assert_eq!(service.get_balance(user_id).unwrap(), 30000);
}

#[test]
fn test_insufficient_balance_keeps_balance() {
    // Wallet with balance 10000; debit 50000 -> InsufficientBalance;
    // balance remains 10000.
    let mut service = WalletService::new();
    let user_id: u128 = 19;
    service.create_wallet(&CreateWalletRequest { user_id }, NOW).unwrap();
    service.credit(&req(user_id, 10000, "fund"), NOW).unwrap();
    let err = service.debit(&req(user_id, 50000, "big"), NOW).unwrap_err();
    assert!(matches!(err, WalletError::InsufficientBalance));
    assert_eq!(service.get_balance(user_id).unwrap(), 10000);
}

#[test]
fn test_occ_two_debits_same_version() {
    // Two debits conditioned on the same pre-read version: exactly one
    // wins; the other fails with ConcurrencyConflict and changes
    // nothing.
    let mut service = WalletService::new();
    let user_id: u128 = 23;
    service.create_wallet(&CreateWalletRequest { user_id }, NOW).unwrap();
    service.credit(&req(user_id, 10000, "fund"), NOW).unwrap();
    let version = service.get_wallet(user_id).unwrap().version;

    let first = service.process_at_version(&req(user_id, 1000, "a"), false, version, NOW);
    assert_eq!(first.unwrap().balance, 9000);

    let second = service.process_at_version(&req(user_id, 1000, "b"), false, version, NOW);
    assert!(matches!(second.unwrap_err(), WalletError::ConcurrencyConflict));
    assert_eq!(service.get_balance(user_id).unwrap(), 9000);

    // Re-read and retry: the debit now goes through.
    let version2 = service.get_wallet(user_id).unwrap().version;
    let third = service.process_at_version(&req(user_id, 1000, "b"), false, version2, NOW);
    assert_eq!(third.unwrap().balance, 8000);
}

#[test]
fn test_version_increments_by_one() {
    let mut service = WalletService::new();
    let user_id: u128 = 29;
    service.create_wallet(&CreateWalletRequest { user_id }, NOW).unwrap();
    assert_eq!(service.get_wallet(user_id).unwrap().version, 0);
    service.credit(&req(user_id, 100, "c1"), NOW).unwrap();
    assert_eq!(service.get_wallet(user_id).unwrap().version, 1);
    service.credit(&req(user_id, 100, "c2"), NOW).unwrap();
    assert_eq!(service.get_wallet(user_id).unwrap().version, 2);
    service.debit(&req(user_id, 50, "d1"), NOW).unwrap();
    assert_eq!(service.get_wallet(user_id).unwrap().version, 3);
}

#[test]
fn test_amount_bounds_rejected() {
    let mut service = WalletService::new();
    let user_id: u128 = 31;
    service.create_wallet(&CreateWalletRequest { user_id }, NOW).unwrap();
    let err = service.credit(&req(user_id, 0, "zero"), NOW).unwrap_err();
    assert!(matches!(err, WalletError::ValidationError));
    let err = service.credit(&req(user_id, 500_001, "huge"), NOW).unwrap_err();
    assert!(matches!(err, WalletError::ValidationError));
    // The bounds themselves are accepted.
    service.credit(&req(user_id, 1, "one"), NOW).unwrap();
    service.credit(&req(user_id, 500_000, "max"), NOW).unwrap();
    assert_eq!(service.get_balance(user_id).unwrap(), 500_001);
}

#[test]
fn test_wallet_not_found() {
    let mut service = WalletService::new();
    let err = service.get_balance(99).unwrap_err();
    assert!(matches!(err, WalletError::WalletNotFound(99)));
    let err = service.credit(&req(99, 100, "k"), NOW).unwrap_err();
    assert!(matches!(err, WalletError::WalletNotFound(99)));
}

#[test]
fn test_keys_are_per_user() {
    // The same key used by two different users guards each user's own
    // mutations separately.
    let mut service = WalletService::new();
    service.create_wallet(&CreateWalletRequest { user_id: 1 }, NOW).unwrap();
    service.create_wallet(&CreateWalletRequest { user_id: 2 }, NOW).unwrap();
    service.credit(&req(1, 100, "shared"), NOW).unwrap();
    service.credit(&req(2, 100, "shared"), NOW).unwrap();
    assert_eq!(service.get_balance(1).unwrap(), 100);
    assert_eq!(service.get_balance(2).unwrap(), 100);
    assert!(service.is_idempotent(&"shared".to_string(), 1));
    assert!(!service.is_idempotent(&"other".to_string(), 1));
}

#[test]
fn test_create_and_credit_wallet() {
    let mut service = WalletService::new();
    let user_id: u128 = 37;
    let wallet = service.create_wallet(&CreateWalletRequest { user_id }, NOW).unwrap();
    assert_eq!(wallet.balance, 0);
    let updated = service.credit(&req(user_id, 10000, "credit-key"), NOW).unwrap();
    assert_eq!(updated.balance, 10000);
    assert_eq!(service.get_balance(user_id).unwrap(), 10000);
}

#[test]
fn test_debit_insufficient_funds() {
    let mut service = WalletService::new();
    let user_id: u128 = 38;
    service.create_wallet(&CreateWalletRequest { user_id }, NOW).unwrap();
    let err = service.debit(&req(user_id, 50000, "debit-key"), NOW).unwrap_err();
    assert!(matches!(err, WalletError::InsufficientBalance));
}
