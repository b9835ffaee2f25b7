//! Ledger and payment transaction core for a mobile-money backend.
//!
//! The library owns the wallet balance store with optimistic concurrency
//! control, the payment orchestrator that atomically moves money between
//! two wallets while enforcing per-day spending caps and idempotent
//! retries, and the fraud-risk engine that scores completed payments.

pub mod auth;
pub mod bank;
pub mod contact;
pub mod crypto;
pub mod flags;
pub mod fraud;
pub mod ids;
pub mod kyc;
pub mod payment;
pub mod qr;
pub mod transaction;
pub mod user;
pub mod wallet;

use vstd::prelude::*;

verus! {

/// Smallest amount a single credit, debit or payment may move, in paise.
pub const MIN_PER_TX: u64 = 1;

/// Largest amount a single credit, debit or payment may move, in paise.
pub const MAX_PER_TX: u64 = 500_000;

/// True exactly when `amount` is within the per-transaction bounds.
pub open spec fn valid_amount(amount: u64) -> bool {
    MIN_PER_TX <= amount <= MAX_PER_TX
}

/// Checks the per-transaction amount bounds.
pub fn amount_in_bounds(amount: u64) -> (r: bool)
    ensures
        r == valid_amount(amount),
{
    MIN_PER_TX <= amount && amount <= MAX_PER_TX
}

} // verus!
