//! Presentation rules of the bank-linkage simulator.
//!
//! Account storage and transfer simulation live outside the core; the
//! rules for what a balance inquiry shows are stated here.

use vstd::prelude::*;
use vstd::string::{StrSliceExecFns, StringExecFns};

verus! {

/// A bank balance as shown to the caller: the account number masked to
/// its last four characters.
pub struct BankBalanceResponse {
    pub account_number: String,
    pub balance: i64,
}

/// The outcome of a simulated bank transfer.
pub struct BankTransferResponse {
    pub status: String,
    pub utr: String,
    pub message: String,
}

/// The simulated balance of an account: the sentinel account number
/// reports a low balance (to exercise failure paths), every other a
/// comfortable one.
pub open spec fn simulated_balance(account: Seq<char>) -> i64 {
    if account == "LOW_BALANCE"@ {
        50000
    } else {
        5000000
    }
}

/// Builds the balance answer for a linked account: the account number
/// masked down to its last four characters, and the simulated balance.
/// An account number shorter than four characters has no masked form.
pub fn bank_balance_view(account_number: &str) -> (r: BankBalanceResponse)
    requires
        account_number@.len() >= 4,
    ensures
        r.account_number@ == "XXXXXX"@ + account_number@.subrange(
            account_number@.len() - 4,
            account_number@.len() as int,
        ),
        r.balance == simulated_balance(account_number@),
{
    let n: usize = account_number.unicode_len();
    let last4 = account_number.substring_char(n - 4, n);
    let mut masked = String::from_str("XXXXXX");
    masked.append(last4);
    let is_low = account_number.to_owned().eq(&String::from_str("LOW_BALANCE"));
    let balance: i64 = if is_low {
        50000
    } else {
        5000000
    };
    BankBalanceResponse { account_number: masked, balance }
}

} // verus!
