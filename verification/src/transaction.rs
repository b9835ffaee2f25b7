//! Transaction history: what a caller is shown of the journal.
//!
//! The journal is the orchestrator's; this module defines the shape of
//! a history row and the filtering rule (own transactions only, newest
//! first, optionally sent or received only, with offset and limit).

use vstd::prelude::*;
use crate::payment::{JournalView, PaymentStatus};

verus! {

/// Which side of a payment a listing is restricted to.
#[derive(Clone, Copy, Debug, PartialEq, Eq, Structural)]
pub enum TransactionKind {
    Sent,
    Received,
}

/// One row of a user's transaction history.
pub struct TransactionItem {
    pub tx_id: u128,
    pub amount: u64,
    pub timestamp: i64,
    pub status: PaymentStatus,
    pub counterparty_mobile: Option<String>,
    pub transaction_type: String,
}

/// Specification-level image of a history row.
#[verifier::ext_equal]
pub struct ItemView {
    pub tx_id: u128,
    pub amount: u64,
    pub timestamp: i64,
    pub status: PaymentStatus,
    pub counterparty_mobile: Option<Seq<char>>,
    pub transaction_type: Seq<char>,
}

/// The image of a history row.
pub open spec fn item_view(t: TransactionItem) -> ItemView {
    ItemView {
        tx_id: t.tx_id,
        amount: t.amount,
        timestamp: t.timestamp,
        status: t.status,
        counterparty_mobile: match t.counterparty_mobile {
            Some(m) => Some(m@),
            None => None,
        },
        transaction_type: t.transaction_type@,
    }
}

/// How one journal row is shown to `user_id`: the counterparty's
/// number is always the fixed mask, and the row reads `sent` or
/// `received` from the user's side of it.
pub open spec fn spec_item_of(e: JournalView, user_id: u128) -> ItemView {
    ItemView {
        tx_id: e.tx_id,
        amount: e.amount,
        timestamp: e.created_at,
        status: e.status,
        counterparty_mobile: Some("+91******3210"@),
        transaction_type: if e.from_user_id == user_id {
            "sent"@
        } else {
            "received"@
        },
    }
}

/// True when a journal row belongs in the listing of `user_id` under
/// the optional side restriction.
pub open spec fn matches_filter(
    e: JournalView,
    user_id: u128,
    kind: Option<TransactionKind>,
) -> bool {
    &&& (e.from_user_id == user_id || e.to_user_id == user_id)
    &&& match kind {
        None => true,
        Some(TransactionKind::Sent) => e.from_user_id == user_id,
        Some(TransactionKind::Received) => e.to_user_id == user_id,
    }
}

/// The journal rows of a listing, newest first.
pub open spec fn spec_filtered(
    j: Seq<JournalView>,
    user_id: u128,
    kind: Option<TransactionKind>,
) -> Seq<JournalView>
    decreases j.len(),
{
    if j.len() == 0 {
        Seq::empty()
    } else {
        let rest = spec_filtered(j.drop_last(), user_id, kind);
        if matches_filter(j.last(), user_id, kind) {
            seq![j.last()] + rest
        } else {
            rest
        }
    }
}

/// The images of a row listing.
pub open spec fn items_of(s: Seq<TransactionItem>) -> Seq<ItemView> {
    s.map_values(|t: TransactionItem| item_view(t))
}

/// How a row listing is shown to `user_id`.
pub open spec fn views_of(s: Seq<JournalView>, user_id: u128) -> Seq<ItemView> {
    s.map_values(|e: JournalView| spec_item_of(e, user_id))
}

/// A page of a user's history: the filtered rows, newest first, from
/// `offset` on, at most `limit` of them, each shown as a history row.
pub open spec fn spec_history(
    j: Seq<JournalView>,
    user_id: u128,
    kind: Option<TransactionKind>,
    offset: int,
    limit: int,
) -> Seq<ItemView> {
    let f = spec_filtered(j, user_id, kind);
    let lo = vstd::math::min(offset, f.len() as int);
    let hi = vstd::math::min(offset + limit, f.len() as int);
    views_of(f.subrange(lo, hi), user_id)
}

} // verus!
