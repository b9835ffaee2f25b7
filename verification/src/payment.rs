//! Payment orchestrator: resolves a recipient, enforces per-day spending
//! caps, and moves money between two wallets atomically (debit, credit,
//! journal entry and limit update all commit or none do), emitting one
//! fraud event per committed payment.
//!
//! Every payment attempt is described by the specification-level
//! transition [`spec_pay`], which the executable operation is proved to
//! follow exactly.

use vstd::prelude::*;
use vstd::string::StringExecFns;
use crate::{amount_in_bounds, valid_amount, MAX_PER_TX};
use crate::ids::new_tx_id;
use crate::transaction::{
    item_view, items_of, matches_filter, spec_filtered, spec_history, spec_item_of, views_of,
    TransactionItem, TransactionKind,
};
use crate::wallet::{
    clone_string, credit_fits, has_wallet, key_used, lemma_wallet_at, snap_wf, spec_process,
    wallet_of, Wallet, CreditDebitRequest, LedgerSnap, WalletError, WalletService,
};

verus! {

/// Daily spending cap for the basic KYC tier, in paise.
pub const BASIC_DAILY_CAP: i64 = 1_000_000;

/// Daily spending cap for the full KYC tier, in paise.
pub const FULL_DAILY_CAP: i64 = 10_000_000;

/// KYC tier of a user, which determines the daily spending cap.
#[derive(Clone, Copy, Debug, PartialEq, Eq, Structural)]
pub enum Tier {
    Basic,
    Full,
}

/// The daily spending cap of a tier; the full cap exceeds the basic one.
pub open spec fn tier_cap(t: Tier) -> i64 {
    match t {
        Tier::Basic => BASIC_DAILY_CAP,
        Tier::Full => FULL_DAILY_CAP,
    }
}

/// Executable form of [`tier_cap`].
pub fn tier_cap_value(t: Tier) -> (r: i64)
    ensures
        r == tier_cap(t),
{
    match t {
        Tier::Basic => BASIC_DAILY_CAP,
        Tier::Full => FULL_DAILY_CAP,
    }
}

/// Per-user daily spending counter.  `reset_date` is a day number; the
/// counter is reset the first time it is touched on a later day.
#[derive(Clone, Copy, Debug, PartialEq, Eq, Structural)]
pub struct DailyLimitCounter {
    pub user_id: u128,
    pub amount_used: i64,
    pub reset_date: i32,
    pub tier: Tier,
}

/// Status of a payment.
#[derive(Clone, Copy, Debug, PartialEq, Eq, Structural)]
pub enum PaymentStatus {
    Success,
    Failed,
    Pending,
}

/// Request to pay a recipient identified by a phone-derived token.
pub struct PayByPhoneRequest {
    pub to_mobile: String,
    pub amount: u64,
    pub idempotency_key: String,
}

/// Request to pay a recipient identified by a QR-embedded token.
pub struct PayByQrRequest {
    pub qr_code: String,
    pub amount: u64,
    pub idempotency_key: String,
}

impl PayByPhoneRequest {
    /// Accepts the request exactly when the amount is within the
    /// per-transaction bounds.  The phone-derived token is opaque to
    /// the core and is not inspected here.
    pub fn validate(&self) -> (r: Result<(), PaymentError>)
        ensures
            r is Ok <==> valid_amount(self.amount),
            r is Err ==> r == Err::<(), PaymentError>(PaymentError::ValidationError),
    {
        if amount_in_bounds(self.amount) {
            Ok(())
        } else {
            Err(PaymentError::ValidationError)
        }
    }
}

impl PayByQrRequest {
    /// Accepts the request exactly when the amount is within the
    /// per-transaction bounds.  Whether the token itself is readable
    /// is the decoder's question, answered with `InvalidQrCode`.
    pub fn validate(&self) -> (r: Result<(), PaymentError>)
        ensures
            r is Ok <==> valid_amount(self.amount),
            r is Err ==> r == Err::<(), PaymentError>(PaymentError::ValidationError),
    {
        if amount_in_bounds(self.amount) {
            Ok(())
        } else {
            Err(PaymentError::ValidationError)
        }
    }
}

/// Outcome of a successful payment.
#[derive(Clone, Copy, Debug, PartialEq, Eq, Structural)]
pub struct PaymentResponse {
    pub tx_id: u128,
    pub from_user_id: u128,
    pub to_user_id: u128,
    pub amount: u64,
    pub status: PaymentStatus,
    pub timestamp: i64,
}

/// Errors surfaced by the payment orchestrator.
#[derive(Clone, Copy, Debug, PartialEq, Eq, Structural)]
pub enum PaymentError {
    /// The sender's wallet holds less than the requested amount.
    InsufficientBalance,
    /// The payment would push today's spend over the tier cap.
    DailyLimitExceeded,
    /// The recipient token resolved to no user.
    UserNotFound,
    /// Sender and recipient are the same user.
    CannotPaySelf,
    /// The QR token does not have the expected shape.
    InvalidQrCode,
    /// The idempotency key already appears in the journal.
    DuplicateIdempotencyKey,
    /// The request was malformed (amount out of bounds).
    ValidationError,
    /// A ledger sub-step failed; carries the ledger's error.
    Wallet(WalletError),
}

/// An append-only journal row: the source of truth for conservation.
pub struct JournalEntry {
    pub tx_id: u128,
    pub from_user_id: u128,
    pub to_user_id: u128,
    pub amount: u64,
    pub status: PaymentStatus,
    pub idempotency_key: String,
    pub created_at: i64,
}

/// Specification-level image of a journal row.
#[verifier::ext_equal]
pub struct JournalView {
    pub tx_id: u128,
    pub from_user_id: u128,
    pub to_user_id: u128,
    pub amount: u64,
    pub status: PaymentStatus,
    pub idempotency_key: Seq<char>,
    pub created_at: i64,
}

/// Specification-level image of the orchestrator's whole state.
#[verifier::ext_equal]
pub struct PaySnap {
    pub ledger: LedgerSnap,
    pub journal: Seq<JournalView>,
    pub limits: Seq<DailyLimitCounter>,
}

/// True when `key` already appears in the journal.
pub open spec fn journal_key_used(j: Seq<JournalView>, key: Seq<char>) -> bool {
    exists|i: int| 0 <= i < j.len() && j[i].idempotency_key == key
}

/// True when a daily counter exists for `user_id`.
pub open spec fn has_limit(ls: Seq<DailyLimitCounter>, user_id: u128) -> bool {
    exists|i: int| 0 <= i < ls.len() && ls[i].user_id == user_id
}

/// Index of the counter of `user_id`; meaningful only when it exists
/// and user ids are unique.
pub open spec fn limit_index(ls: Seq<DailyLimitCounter>, user_id: u128) -> int {
    choose|i: int| 0 <= i < ls.len() && ls[i].user_id == user_id
}

/// The counter of `user_id`; meaningful only when it exists.
pub open spec fn limit_of(ls: Seq<DailyLimitCounter>, user_id: u128) -> DailyLimitCounter {
    ls[limit_index(ls, user_id)]
}

/// Today's cumulative spend of `user_id`: the counter's value, or 0
/// when no counter exists yet.
pub open spec fn spec_used(ls: Seq<DailyLimitCounter>, user_id: u128) -> i64 {
    if has_limit(ls, user_id) {
        limit_of(ls, user_id).amount_used
    } else {
        0
    }
}

/// The tier of `user_id`: the counter's tier, or basic before any
/// counter exists.
pub open spec fn spec_tier(ls: Seq<DailyLimitCounter>, user_id: u128) -> Tier {
    if has_limit(ls, user_id) {
        limit_of(ls, user_id).tier
    } else {
        Tier::Basic
    }
}

/// Well-formedness of the orchestrator state: a well-formed ledger, one
/// counter per user, and every counter within its tier cap.
pub open spec fn pay_wf(s: PaySnap) -> bool {
    &&& snap_wf(s.ledger)
    &&& forall|i: int, j: int|
        0 <= i < j < s.limits.len() ==> s.limits[i].user_id != s.limits[j].user_id
    &&& forall|i: int|
        0 <= i < s.limits.len() ==> 0 <= (#[trigger] s.limits[i]).amount_used <= tier_cap(
            s.limits[i].tier,
        )
}

/// The daily counter of `user_id` after the day-roll check: reset to 0
/// the first time it is touched on a day later than its `reset_date`.
pub open spec fn spec_reset_limits(
    ls: Seq<DailyLimitCounter>,
    user_id: u128,
    today: i32,
) -> Seq<DailyLimitCounter> {
    if has_limit(ls, user_id) && limit_of(ls, user_id).reset_date < today {
        ls.update(
            limit_index(ls, user_id),
            DailyLimitCounter { amount_used: 0, reset_date: today, ..limit_of(ls, user_id) },
        )
    } else {
        ls
    }
}

/// The daily counters after recording a spend of `amount` by
/// `user_id`: the existing counter grows, or a fresh basic-tier counter
/// is created on first payment.
pub open spec fn spec_bump_limits(
    ls: Seq<DailyLimitCounter>,
    user_id: u128,
    amount: u64,
    today: i32,
) -> Seq<DailyLimitCounter> {
    if has_limit(ls, user_id) {
        let c = limit_of(ls, user_id);
        ls.update(
            limit_index(ls, user_id),
            DailyLimitCounter { amount_used: (c.amount_used + amount) as i64, ..c },
        )
    } else {
        ls.push(
            DailyLimitCounter {
                user_id,
                amount_used: amount as i64,
                reset_date: today,
                tier: Tier::Basic,
            },
        )
    }
}

/// The idempotency key the ledger records for the debit half of a
/// payment with key `k`.
pub open spec fn debit_key(k: Seq<char>) -> Seq<char> {
    "debit_"@ + k
}

/// The idempotency key the ledger records for the credit half of a
/// payment with key `k`.
pub open spec fn credit_key(k: Seq<char>) -> Seq<char> {
    "credit_"@ + k
}

/// How ledger errors surface to the payment caller.
pub open spec fn wallet_err_to_payment(e: WalletError) -> PaymentError {
    match e {
        WalletError::InsufficientBalance => PaymentError::InsufficientBalance,
        _ => PaymentError::Wallet(e),
    }
}

/// Outcome of one payment attempt: the state afterwards and the result
/// handed to the caller.
#[verifier::ext_equal]
pub struct PayStep {
    pub post: PaySnap,
    pub result: Result<PaymentResponse, PaymentError>,
}

/// The specification of one payment attempt.  `recipient` is the
/// answer of the external identity directory for the request's token;
/// `today` is the current day number and `now` the wall-clock
/// timestamp; `tx_id` is the journal id minted for the payment.
///
/// Checks run in order: request shape, journal idempotency, recipient
/// resolution, self-payment, daily cap (rolling the counter over first
/// if the day changed), then the atomic transaction of debit, credit,
/// journal append and counter update.  Errors before the cap check
/// leave the state untouched; a cap rejection persists only the
/// day-roll; nothing else commits unless every sub-step succeeds.
pub open spec fn spec_pay(
    s: PaySnap,
    from: u128,
    recipient: Option<u128>,
    amount: u64,
    key: Seq<char>,
    today: i32,
    now: i64,
    tx_id: u128,
) -> PayStep {
    if !valid_amount(amount) {
        PayStep { post: s, result: Err(PaymentError::ValidationError) }
    } else if journal_key_used(s.journal, key) {
        PayStep { post: s, result: Err(PaymentError::DuplicateIdempotencyKey) }
    } else if recipient is None {
        PayStep { post: s, result: Err(PaymentError::UserNotFound) }
    } else if recipient == Some(from) {
        PayStep { post: s, result: Err(PaymentError::CannotPaySelf) }
    } else {
        let to = recipient->0;
        let s1 = PaySnap { limits: spec_reset_limits(s.limits, from, today), ..s };
        let used = spec_used(s1.limits, from);
        let cap = tier_cap(spec_tier(s1.limits, from));
        if used + amount > cap {
            PayStep { post: s1, result: Err(PaymentError::DailyLimitExceeded) }
        } else {
            let dstep = spec_process(s1.ledger, from, amount, false, debit_key(key), now);
            if dstep.result is Err {
                PayStep {
                    post: s1,
                    result: Err(wallet_err_to_payment(dstep.result->Err_0)),
                }
            } else {
                let cstep = spec_process(dstep.post, to, amount, true, credit_key(key), now);
                if cstep.result is Err {
                    PayStep {
                        post: s1,
                        result: Err(wallet_err_to_payment(cstep.result->Err_0)),
                    }
                } else {
                    let entry = JournalView {
                        tx_id,
                        from_user_id: from,
                        to_user_id: to,
                        amount,
                        status: PaymentStatus::Success,
                        idempotency_key: key,
                        created_at: now,
                    };
                    PayStep {
                        post: PaySnap {
                            ledger: cstep.post,
                            journal: s1.journal.push(entry),
                            limits: spec_bump_limits(s1.limits, from, amount, today),
                        },
                        result: Ok(
                            PaymentResponse {
                                tx_id,
                                from_user_id: from,
                                to_user_id: to,
                                amount,
                                status: PaymentStatus::Success,
                                timestamp: now,
                            },
                        ),
                    }
                }
            }
        }
    }
}

/// True exactly when a payment attempt with these inputs succeeds; the
/// minted `tx_id` does not matter for success.
pub open spec fn spec_pay_ok(
    s: PaySnap,
    from: u128,
    recipient: Option<u128>,
    amount: u64,
    key: Seq<char>,
    today: i32,
    now: i64,
) -> bool {
    spec_pay(s, from, recipient, amount, key, today, now, 0).result is Ok
}

/// If some counter at index `i` belongs to `user_id` and user ids are
/// unique, then lookup by `user_id` lands exactly on index `i`.
pub proof fn lemma_limit_at(ls: Seq<DailyLimitCounter>, i: int)
    requires
        forall|p: int, q: int| 0 <= p < q < ls.len() ==> ls[p].user_id != ls[q].user_id,
        0 <= i < ls.len(),
    ensures
        has_limit(ls, ls[i].user_id),
        limit_index(ls, ls[i].user_id) == i,
        limit_of(ls, ls[i].user_id) == ls[i],
{
    let u = ls[i].user_id;
    assert(has_limit(ls, u));
    let j = limit_index(ls, u);
    if i < j {
        assert(ls[i].user_id != ls[j].user_id);
    } else if j < i {
        assert(ls[j].user_id != ls[i].user_id);
    }
}

/// The payment orchestrator.  It owns the journal and the daily
/// counters, and drives the wallet ledger it holds.
pub struct PaymentService {
    /// The wallet ledger the orchestrator debits and credits.
    pub wallet: WalletService,
    journal: Vec<JournalEntry>,
    limits: Vec<DailyLimitCounter>,
}

impl View for PaymentService {
    type V = PaySnap;

    closed spec fn view(&self) -> PaySnap {
        PaySnap {
            ledger: self.wallet@,
            journal: self.journal@.map_values(
                |e: JournalEntry|
                    JournalView {
                        tx_id: e.tx_id,
                        from_user_id: e.from_user_id,
                        to_user_id: e.to_user_id,
                        amount: e.amount,
                        status: e.status,
                        idempotency_key: e.idempotency_key@,
                        created_at: e.created_at,
                    },
            ),
            limits: self.limits@,
        }
    }
}

impl PaymentService {
    /// Well-formedness carried by every orchestrator this module hands
    /// out.
    pub open spec fn wf(&self) -> bool {
        pay_wf(self@)
    }

    /// A fresh orchestrator around an existing wallet ledger, with an
    /// empty journal and no daily counters.
    pub fn new(wallet: WalletService) -> (s: Self)
        requires
            wallet.wf(),
        ensures
            s.wf(),
            s@.ledger == wallet@,
            s@.journal.len() == 0,
            s@.limits.len() == 0,
    {
        let s = PaymentService { wallet, journal: Vec::new(), limits: Vec::new() };
        proof {
            assert(s@.journal =~= Seq::<JournalView>::empty());
        }
        s
    }

    /// Number of journal rows.
    pub fn journal_count(&self) -> (r: usize)
        ensures
            r == self@.journal.len(),
    {
        self.journal.len()
    }

    /// True when `key` already appears in the journal.
    pub fn is_idempotent(&self, key: &String) -> (r: bool)
        ensures
            r == journal_key_used(self@.journal, key@),
    {
        let mut i: usize = 0;
        while i < self.journal.len()
            invariant
                i <= self@.journal.len(),
                self@.journal.len() == self.journal@.len(),
                forall|j: int|
                    0 <= j < i ==> (#[trigger] self@.journal[j]).idempotency_key != key@,
            decreases self@.journal.len() - i,
        {
            if self.journal[i].idempotency_key.eq(key) {
                assert(self@.journal[i as int].idempotency_key == key@);
                return true;
            }
            i = i + 1;
        }
        false
    }

    /// Index of the daily counter of `user_id`, if any.
    fn find_limit(&self, user_id: u128) -> (r: Option<usize>)
        ensures
            match r {
                Some(i) => i < self@.limits.len() && self@.limits[i as int].user_id == user_id,
                None => !has_limit(self@.limits, user_id),
            },
    {
        let mut i: usize = 0;
        while i < self.limits.len()
            invariant
                i <= self@.limits.len(),
                forall|j: int| 0 <= j < i ==> self@.limits[j].user_id != user_id,
            decreases self@.limits.len() - i,
        {
            if self.limits[i].user_id == user_id {
                return Some(i);
            }
            i = i + 1;
        }
        None
    }

    /// Rolls the daily counter of `user_id` over to `today` if its
    /// reset date has passed: the first touch on a new day starts from
    /// an `amount_used` of 0.
    fn reset_limit(&mut self, user_id: u128, today: i32)
        requires
            old(self).wf(),
        ensures
            final(self).wf(),
            final(self)@.limits == spec_reset_limits(old(self)@.limits, user_id, today),
            final(self)@.ledger == old(self)@.ledger,
            final(self)@.journal == old(self)@.journal,
    {
        let ghost pre = self@.limits;
        match self.find_limit(user_id) {
            Some(i) => {
                proof {
                    lemma_limit_at(pre, i as int);
                }
                let c = self.limits[i];
                if c.reset_date < today {
                    self.limits.set(
                        i,
                        DailyLimitCounter { amount_used: 0, reset_date: today, ..c },
                    );
                    proof {
                        assert(self@.limits =~= spec_reset_limits(pre, user_id, today));
                        assert forall|p: int, q: int|
                            0 <= p < q < self@.limits.len() implies self@.limits[p].user_id
                            != self@.limits[q].user_id by {
                            assert(pre[p].user_id != pre[q].user_id);
                        }
                    }
                }
            },
            None => {},
        }
    }

    /// Checks `user_id`'s daily cap for a spend of `amount` on day
    /// `today`, rolling the counter over first if its reset date has
    /// passed.  Rejects with `DailyLimitExceeded` exactly when the
    /// spend would push the day's cumulative amount over the tier cap;
    /// the day-roll persists either way, nothing else changes.
    pub fn check_daily_limit(&mut self, user_id: u128, amount: u64, today: i32) -> (r: Result<
        (),
        PaymentError,
    >)
        requires
            old(self).wf(),
            valid_amount(amount),
        ensures
            final(self).wf(),
            final(self)@ == (PaySnap {
                limits: spec_reset_limits(old(self)@.limits, user_id, today),
                ..old(self)@
            }),
            r is Ok <==> spec_used(final(self)@.limits, user_id) + amount <= tier_cap(
                spec_tier(final(self)@.limits, user_id),
            ),
            r is Err ==> r == Err::<(), PaymentError>(PaymentError::DailyLimitExceeded),
    {
        let ghost pre = self@;
        self.reset_limit(user_id, today);
        proof {
            assert(self@ =~= PaySnap {
                limits: spec_reset_limits(pre.limits, user_id, today),
                ..pre
            });
        }
        let snapshot: (i64, Tier) = self.limit_snapshot(user_id);
        let cap: i64 = tier_cap_value(snapshot.1);
        proof {
            if has_limit(self@.limits, user_id) {
                let i = limit_index(self@.limits, user_id);
                assert(0 <= self@.limits[i].amount_used <= tier_cap(self@.limits[i].tier));
            }
        }
        if snapshot.0 + amount as i64 > cap {
            Err(PaymentError::DailyLimitExceeded)
        } else {
            Ok(())
        }
    }

    /// Today's cumulative spend and tier of `user_id`, before any
    /// day-roll.
    pub fn limit_snapshot(&self, user_id: u128) -> (r: (i64, Tier))
        requires
            self.wf(),
        ensures
            r.0 == spec_used(self@.limits, user_id),
            r.1 == spec_tier(self@.limits, user_id),
    {
        match self.find_limit(user_id) {
            Some(i) => {
                proof {
                    lemma_limit_at(self@.limits, i as int);
                }
                (self.limits[i].amount_used, self.limits[i].tier)
            },
            None => (0, Tier::Basic),
        }
    }

    /// Records a committed spend of `amount` by `user_id` in the daily
    /// counter, creating a basic-tier counter on first payment.
    fn update_daily_limit(&mut self, user_id: u128, amount: u64, today: i32)
        requires
            old(self).wf(),
            valid_amount(amount),
            spec_used(old(self)@.limits, user_id) + amount <= tier_cap(
                spec_tier(old(self)@.limits, user_id),
            ),
        ensures
            final(self).wf(),
            final(self)@.limits == spec_bump_limits(old(self)@.limits, user_id, amount, today),
            final(self)@.ledger == old(self)@.ledger,
            final(self)@.journal == old(self)@.journal,
    {
        let ghost pre = self@.limits;
        match self.find_limit(user_id) {
            Some(i) => {
                proof {
                    lemma_limit_at(pre, i as int);
                }
                let c = self.limits[i];
                self.limits.set(
                    i,
                    DailyLimitCounter { amount_used: c.amount_used + amount as i64, ..c },
                );
                proof {
                    assert(self@.limits =~= spec_bump_limits(pre, user_id, amount, today));
                    assert forall|p: int, q: int|
                        0 <= p < q < self@.limits.len() implies self@.limits[p].user_id
                        != self@.limits[q].user_id by {
                        assert(pre[p].user_id != pre[q].user_id);
                    }
                }
            },
            None => {
                self.limits.push(
                    DailyLimitCounter {
                        user_id,
                        amount_used: amount as i64,
                        reset_date: today,
                        tier: Tier::Basic,
                    },
                );
                proof {
                    assert(MAX_PER_TX <= BASIC_DAILY_CAP);
                    assert forall|p: int, q: int|
                        0 <= p < q < self@.limits.len() implies self@.limits[p].user_id
                        != self@.limits[q].user_id by {
                        if q < pre.len() {
                            assert(pre[p].user_id != pre[q].user_id);
                        } else {
                            assert(!has_limit(pre, user_id));
                            assert(self@.limits[q].user_id == user_id);
                        }
                    }
                }
            },
        }
    }

    /// Marks `user_id` as fully KYC-verified: the daily cap becomes the
    /// full-tier cap.  Today's spend is kept.
    pub fn set_kyc_tier_full(&mut self, user_id: u128, today: i32)
        requires
            old(self).wf(),
        ensures
            final(self).wf(),
            final(self)@.ledger == old(self)@.ledger,
            final(self)@.journal == old(self)@.journal,
            spec_tier(final(self)@.limits, user_id) == Tier::Full,
            spec_used(final(self)@.limits, user_id) == spec_used(old(self)@.limits, user_id),
            forall|u: u128|
                u != user_id ==> #[trigger] spec_used(final(self)@.limits, u) == spec_used(
                    old(self)@.limits,
                    u,
                ) && spec_tier(final(self)@.limits, u) == spec_tier(old(self)@.limits, u),
    {
        let ghost pre = self@.limits;
        match self.find_limit(user_id) {
            Some(i) => {
                proof {
                    lemma_limit_at(pre, i as int);
                }
                let c = self.limits[i];
                self.limits.set(i, DailyLimitCounter { tier: Tier::Full, ..c });
                proof {
                    let post = self@.limits;
                    assert forall|p: int, q: int|
                        0 <= p < q < post.len() implies post[p].user_id != post[q].user_id by {
                        assert(pre[p].user_id != pre[q].user_id);
                    }
                    lemma_limit_at(post, i as int);
                    assert forall|u: u128| u != user_id implies #[trigger] spec_used(post, u)
                        == spec_used(pre, u) && spec_tier(post, u) == spec_tier(pre, u) by {
                        if has_limit(pre, u) {
                            let j = limit_index(pre, u);
                            lemma_limit_at(pre, j);
                            assert(post[j] == pre[j]);
                            lemma_limit_at(post, j);
                        } else {
                            assert(!has_limit(post, u)) by {
                                if has_limit(post, u) {
                                    let j = limit_index(post, u);
                                    assert(pre[j].user_id == u);
                                    lemma_limit_at(pre, j);
                                }
                            }
                        }
                    }
                }
            },
            None => {
                self.limits.push(
                    DailyLimitCounter { user_id, amount_used: 0, reset_date: today, tier: Tier::Full },
                );
                proof {
                    let post = self@.limits;
                    assert forall|p: int, q: int|
                        0 <= p < q < post.len() implies post[p].user_id != post[q].user_id by {
                        if q < pre.len() {
                            assert(pre[p].user_id != pre[q].user_id);
                        } else {
                            assert(!has_limit(pre, user_id));
                        }
                    }
                    lemma_limit_at(post, post.len() - 1);
                    assert forall|u: u128| u != user_id implies #[trigger] spec_used(post, u)
                        == spec_used(pre, u) && spec_tier(post, u) == spec_tier(pre, u) by {
                        if has_limit(pre, u) {
                            let j = limit_index(pre, u);
                            lemma_limit_at(pre, j);
                            assert(post[j] == pre[j]);
                            lemma_limit_at(post, j);
                        } else {
                            assert(!has_limit(post, u)) by {
                                if has_limit(post, u) {
                                    let j = limit_index(post, u);
                                    if j < pre.len() {
                                        assert(pre[j].user_id == u);
                                        lemma_limit_at(pre, j);
                                    }
                                }
                            }
                        }
                    }
                }
            },
        }
    }
}

/// True when crediting `amount` to the resolved recipient cannot
/// overflow the recipient's balance field.
pub open spec fn pay_credit_fits(s: PaySnap, recipient: Option<u128>, amount: u64) -> bool {
    match recipient {
        Some(to) => credit_fits(s.ledger, to, amount),
        None => true,
    }
}

/// What a payment call did: the state afterwards and the result agree
/// with [`spec_pay`].  The minted transaction id is the one carried by
/// a successful response; a failed attempt minted none (the id does not
/// influence failure).
pub open spec fn pay_post(
    pre: PaySnap,
    from: u128,
    recipient: Option<u128>,
    amount: u64,
    key: Seq<char>,
    today: i32,
    now: i64,
    post: PaySnap,
    r: Result<PaymentResponse, PaymentError>,
) -> bool {
    match r {
        Ok(resp) => {
            let step = spec_pay(pre, from, recipient, amount, key, today, now, resp.tx_id);
            post == step.post && step.result == Ok::<PaymentResponse, PaymentError>(resp)
        },
        Err(e) => {
            let step = spec_pay(pre, from, recipient, amount, key, today, now, 0);
            post == step.post && step.result == Err::<PaymentResponse, PaymentError>(e)
        },
    }
}

impl PaymentService {
    /// One payment attempt from `from` to the recipient the directory
    /// resolved, moving `amount` under idempotency key `key`.  Performs
    /// the checks and the atomic transaction of [`spec_pay`] exactly.
    fn pay_core(
        &mut self,
        from: u128,
        recipient: Option<u128>,
        amount: u64,
        key: &String,
        today: i32,
        now: i64,
    ) -> (r: Result<PaymentResponse, PaymentError>)
        requires
            old(self).wf(),
            pay_credit_fits(old(self)@, recipient, amount),
        ensures
            final(self).wf(),
            pay_post(
                old(self)@,
                from,
                recipient,
                amount,
                key@,
                today,
                now,
                final(self)@,
                r,
            ),
            r is Ok <==> spec_pay_ok(old(self)@, from, recipient, amount, key@, today, now),
    {
        let ghost pre = self@;
        let ghost step0 = spec_pay(pre, from, recipient, amount, key@, today, now, 0);
        if !amount_in_bounds(amount) {
            return Err(PaymentError::ValidationError);
        }
        if self.is_idempotent(key) {
            return Err(PaymentError::DuplicateIdempotencyKey);
        }
        let to: u128 = match recipient {
            Some(t) => t,
            None => {
                return Err(PaymentError::UserNotFound);
            },
        };
        if to == from {
            return Err(PaymentError::CannotPaySelf);
        }
        // Day-roll first: a counter whose reset date has passed starts
        // today from zero, whether or not the payment then goes through.
        let limit_check = self.check_daily_limit(from, amount, today);
        let ghost s1 = self@;
        if let Err(e) = limit_check {
            return Err(e);
        }
        // The two ledger halves of the transaction, checked up front so
        // that nothing is written unless the whole transaction commits.
        let dk = derived_key("debit_", key);
        let ck = derived_key("credit_", key);
        let ghost dstep = spec_process(s1.ledger, from, amount, false, debit_key(key@), now);
        if self.wallet.is_idempotent(&dk, from) {
            return Err(PaymentError::Wallet(WalletError::DuplicateIdempotencyKey));
        }
        let w_from = match self.wallet.get_wallet(from) {
            Ok(w) => w,
            Err(_) => {
                return Err(PaymentError::Wallet(WalletError::WalletNotFound(from)));
            },
        };
        if w_from.balance < amount as i64 {
            return Err(PaymentError::InsufficientBalance);
        }
        proof {
            // The debit half succeeds: every check of its transition
            // was just performed against the same state.
            assert(dstep.result is Ok);
        }
        let ghost cstep = spec_process(dstep.post, to, amount, true, credit_key(key@), now);
        if self.wallet.is_idempotent(&ck, to) {
            proof {
                let i = choose|i: int|
                    0 <= i < s1.ledger.keys.len() && s1.ledger.keys[i].user_id == to
                        && s1.ledger.keys[i].key == credit_key(key@);
                assert(dstep.post.keys[i] == s1.ledger.keys[i]);
                assert(key_used(dstep.post.keys, to, credit_key(key@)));
                assert(cstep.result == Err::<Wallet, WalletError>(
                    WalletError::DuplicateIdempotencyKey,
                ));
            }
            return Err(PaymentError::Wallet(WalletError::DuplicateIdempotencyKey));
        }
        if let Err(_) = self.wallet.get_wallet(to) {
            proof {
                assert(!key_used(dstep.post.keys, to, credit_key(key@))) by {
                    if key_used(dstep.post.keys, to, credit_key(key@)) {
                        let i = choose|i: int|
                            0 <= i < dstep.post.keys.len() && dstep.post.keys[i].user_id == to
                                && dstep.post.keys[i].key == credit_key(key@);
                        assert(i < s1.ledger.keys.len());
                        assert(key_used(s1.ledger.keys, to, credit_key(key@)));
                    }
                }
                assert(!has_wallet(dstep.post.wallets, to)) by {
                    if has_wallet(dstep.post.wallets, to) {
                        let j = choose|j: int|
                            0 <= j < dstep.post.wallets.len() && dstep.post.wallets[j].user_id
                                == to;
                        let iw = crate::wallet::wallet_index(s1.ledger.wallets, from);
                        if j == iw {
                            assert(dstep.post.wallets[j].user_id == from);
                        } else {
                            assert(dstep.post.wallets[j] == s1.ledger.wallets[j]);
                            assert(has_wallet(s1.ledger.wallets, to));
                        }
                    }
                }
                assert(cstep.result == Err::<Wallet, WalletError>(
                    WalletError::WalletNotFound(to),
                ));
            }
            return Err(PaymentError::Wallet(WalletError::WalletNotFound(to)));
        }
        proof {
            assert(!key_used(dstep.post.keys, to, credit_key(key@))) by {
                if key_used(dstep.post.keys, to, credit_key(key@)) {
                    let i = choose|i: int|
                        0 <= i < dstep.post.keys.len() && dstep.post.keys[i].user_id == to
                            && dstep.post.keys[i].key == credit_key(key@);
                    assert(i < s1.ledger.keys.len());
                    assert(key_used(s1.ledger.keys, to, credit_key(key@)));
                }
            }
        }
        // All checks passed: apply the atomic transaction.
        let dreq = CreditDebitRequest { user_id: from, amount, idempotency_key: dk };
        let dres = self.wallet.process_transaction(&dreq, false, now);
        proof {
            assert(dres == dstep.result);
            assert(self@.ledger == dstep.post);
            // The recipient's wallet is untouched by the debit.
            let jw = crate::wallet::wallet_index(s1.ledger.wallets, to);
            lemma_wallet_at(s1.ledger.wallets, jw);
            let iw = crate::wallet::wallet_index(s1.ledger.wallets, from);
            assert(dstep.post.wallets[jw] == s1.ledger.wallets[jw]);
            lemma_wallet_at(dstep.post.wallets, jw);
            assert(wallet_of(dstep.post.wallets, to) == wallet_of(s1.ledger.wallets, to));
            assert(credit_fits(self@.ledger, to, amount));
        }
        let creq = CreditDebitRequest { user_id: to, amount, idempotency_key: ck };
        let cres = self.wallet.process_transaction(&creq, true, now);
        proof {
            assert(cres == cstep.result);
            assert(cres is Ok);
            assert(self@.ledger == cstep.post);
        }
        let tx_id = new_tx_id();
        let ghost journal_before = self@.journal;
        self.journal.push(
            JournalEntry {
                tx_id,
                from_user_id: from,
                to_user_id: to,
                amount,
                status: PaymentStatus::Success,
                idempotency_key: clone_string(key),
                created_at: now,
            },
        );
        proof {
            assert(self@.journal =~= journal_before.push(
                JournalView {
                    tx_id,
                    from_user_id: from,
                    to_user_id: to,
                    amount,
                    status: PaymentStatus::Success,
                    idempotency_key: key@,
                    created_at: now,
                },
            ));
        }
        self.update_daily_limit(from, amount, today);
        let resp = PaymentResponse {
            tx_id,
            from_user_id: from,
            to_user_id: to,
            amount,
            status: PaymentStatus::Success,
            timestamp: now,
        };
        proof {
            let step = spec_pay(pre, from, recipient, amount, key@, today, now, tx_id);
            assert(self@ =~= step.post);
            assert(step.result == Ok::<PaymentResponse, PaymentError>(resp));
        }
        Ok(resp)
    }

    /// Reads the recipient out of a payment QR token, as carried in a
    /// pay-by-QR request.
    pub fn decode_qr(&self, qr: &str) -> (r: Result<u128, PaymentError>)
        ensures
            match crate::qr::spec_decode_qr(qr@) {
                Some(to) => r == Ok::<u128, PaymentError>(to),
                None => r == Err::<u128, PaymentError>(PaymentError::InvalidQrCode),
            },
    {
        match crate::qr::decode_qr_token(qr) {
            Some(to) => Ok(to),
            None => Err(PaymentError::InvalidQrCode),
        }
    }

    /// Pays `req.amount` from `from_user_id` to the user named by the
    /// request's QR token.  `today` is the current day number and
    /// `now` the wall-clock timestamp.  A malformed token is rejected
    /// with `InvalidQrCode` and nothing changes; the request shape is
    /// checked first, as for any payment.
    pub fn pay_by_qr(&mut self, from_user_id: u128, req: &PayByQrRequest, today: i32, now: i64) -> (
        r: Result<PaymentResponse, PaymentError>)
        requires
            old(self).wf(),
            pay_credit_fits(old(self)@, crate::qr::spec_decode_qr(req.qr_code@), req.amount),
        ensures
            final(self).wf(),
            crate::qr::spec_decode_qr(req.qr_code@) is Some ==> pay_post(
                old(self)@,
                from_user_id,
                crate::qr::spec_decode_qr(req.qr_code@),
                req.amount,
                req.idempotency_key@,
                today,
                now,
                final(self)@,
                r,
            ) && (r is Ok <==> spec_pay_ok(
                old(self)@,
                from_user_id,
                crate::qr::spec_decode_qr(req.qr_code@),
                req.amount,
                req.idempotency_key@,
                today,
                now,
            )),
            crate::qr::spec_decode_qr(req.qr_code@) is None ==> final(self)@ == old(self)@ && r
                == Err::<PaymentResponse, PaymentError>(
                if valid_amount(req.amount) {
                    PaymentError::InvalidQrCode
                } else {
                    PaymentError::ValidationError
                },
            ),
    {
        if !amount_in_bounds(req.amount) {
            return Err(PaymentError::ValidationError);
        }
        let to = match self.decode_qr(req.qr_code.as_str()) {
            Ok(to) => to,
            Err(e) => {
                return Err(e);
            },
        };
        self.pay_core(from_user_id, Some(to), req.amount, &req.idempotency_key, today, now)
    }

    /// Pays `req.amount` from `from_user_id` to the user the external
    /// identity directory resolved for the request's phone-derived
    /// token (`recipient`; `None` when the token resolved to nobody).
    /// `today` is the current day number and `now` the wall-clock
    /// timestamp.  The caller publishes the fraud event for a
    /// successful response after this call returns.
    pub fn pay_by_phone(
        &mut self,
        from_user_id: u128,
        req: &PayByPhoneRequest,
        recipient: Option<u128>,
        today: i32,
        now: i64,
    ) -> (r: Result<PaymentResponse, PaymentError>)
        requires
            old(self).wf(),
            pay_credit_fits(old(self)@, recipient, req.amount),
        ensures
            final(self).wf(),
            pay_post(
                old(self)@,
                from_user_id,
                recipient,
                req.amount,
                req.idempotency_key@,
                today,
                now,
                final(self)@,
                r,
            ),
            r is Ok <==> spec_pay_ok(
                old(self)@,
                from_user_id,
                recipient,
                req.amount,
                req.idempotency_key@,
                today,
                now,
            ),
    {
        self.pay_core(from_user_id, recipient, req.amount, &req.idempotency_key, today, now)
    }
}

/// Conservation of money: a successful payment of `amount` from one
/// user to another lowers the sender's balance by exactly `amount`,
/// raises the recipient's by exactly `amount`, and leaves the sum of
/// the two balances unchanged.  (The premise that the recipient's
/// balance can take the credit without overflowing `i64` is what the
/// executable orchestrator itself requires of its callers.)
pub proof fn lemma_payment_conservation(
    s: PaySnap,
    from: u128,
    to: u128,
    amount: u64,
    key: Seq<char>,
    today: i32,
    now: i64,
    tx_id: u128,
)
    requires
        pay_wf(s),
        credit_fits(s.ledger, to, amount),
        spec_pay(s, from, Some(to), amount, key, today, now, tx_id).result is Ok,
    ensures
        ({
            let post = spec_pay(s, from, Some(to), amount, key, today, now, tx_id).post;
            &&& has_wallet(s.ledger.wallets, from) && has_wallet(post.ledger.wallets, from)
            &&& has_wallet(s.ledger.wallets, to) && has_wallet(post.ledger.wallets, to)
            &&& wallet_of(post.ledger.wallets, from).balance == wallet_of(
                s.ledger.wallets,
                from,
            ).balance - amount
            &&& wallet_of(post.ledger.wallets, to).balance == wallet_of(
                s.ledger.wallets,
                to,
            ).balance + amount
            &&& wallet_of(post.ledger.wallets, from).balance + wallet_of(
                post.ledger.wallets,
                to,
            ).balance == wallet_of(s.ledger.wallets, from).balance + wallet_of(
                s.ledger.wallets,
                to,
            ).balance
        }),
{
    let step = spec_pay(s, from, Some(to), amount, key, today, now, tx_id);
    assert(to != from);
    let dstep = spec_process(s.ledger, from, amount, false, debit_key(key), now);
    assert(dstep.result is Ok);
    crate::wallet::lemma_mutate_ok(
        s.ledger,
        from,
        amount,
        false,
        debit_key(key),
        crate::wallet::current_version(s.ledger, from),
        now,
    );
    assert(has_wallet(dstep.post.wallets, to) == has_wallet(s.ledger.wallets, to));
    assert(wallet_of(dstep.post.wallets, to) == wallet_of(s.ledger.wallets, to));
    let cstep = spec_process(dstep.post, to, amount, true, credit_key(key), now);
    assert(cstep.result is Ok);
    crate::wallet::lemma_mutate_ok(
        dstep.post,
        to,
        amount,
        true,
        credit_key(key),
        crate::wallet::current_version(dstep.post, to),
        now,
    );
    assert(step.post.ledger == cstep.post);
    assert(has_wallet(cstep.post.wallets, from) == has_wallet(dstep.post.wallets, from));
    assert(wallet_of(cstep.post.wallets, from) == wallet_of(dstep.post.wallets, from));
}

/// Idempotent replay of a payment: once a payment under `key` has
/// committed, any later payment attempt that reuses `key` fails with
/// `DuplicateIdempotencyKey` and changes nothing, whoever makes it,
/// to whomever, for whatever amount the request shape allows, and on
/// whatever day.
pub proof fn lemma_payment_idempotent_replay(
    s: PaySnap,
    from: u128,
    recipient: Option<u128>,
    amount: u64,
    key: Seq<char>,
    today: i32,
    now: i64,
    tx_id: u128,
    from2: u128,
    recipient2: Option<u128>,
    amount2: u64,
    today2: i32,
    now2: i64,
    tx_id2: u128,
)
    requires
        spec_pay(s, from, recipient, amount, key, today, now, tx_id).result is Ok,
        valid_amount(amount2),
    ensures
        ({
            let post1 = spec_pay(s, from, recipient, amount, key, today, now, tx_id).post;
            spec_pay(post1, from2, recipient2, amount2, key, today2, now2, tx_id2)
                == (PayStep { post: post1, result: Err(PaymentError::DuplicateIdempotencyKey) })
        }),
{
    let post1 = spec_pay(s, from, recipient, amount, key, today, now, tx_id).post;
    assert(post1.journal[post1.journal.len() - 1].idempotency_key == key);
    assert(journal_key_used(post1.journal, key));
}

/// Daily limit monotonicity: in every well-formed state, each user's
/// cumulative spend is within the cap of the user's tier.  Every
/// operation of the orchestrator is proved to keep the state
/// well-formed, so the bound holds after any sequence of payments.
pub proof fn lemma_daily_limit_bounded(s: PaySnap)
    requires
        pay_wf(s),
    ensures
        forall|u: u128|
            #[trigger] spec_used(s.limits, u) <= tier_cap(spec_tier(s.limits, u)),
        forall|u: u128| #[trigger] spec_used(s.limits, u) >= 0,
{
    assert forall|u: u128| #[trigger] spec_used(s.limits, u) <= tier_cap(spec_tier(s.limits, u))
        && spec_used(s.limits, u) >= 0 by {
        if has_limit(s.limits, u) {
            let i = limit_index(s.limits, u);
            assert(0 <= s.limits[i].amount_used <= tier_cap(s.limits[i].tier));
        }
    }
}

/// Daily limit day-roll: the first time a counter is touched on a day
/// later than its reset date, its cumulative spend restarts from zero,
/// the reset date moves to the new day, and the tier is kept.
pub proof fn lemma_daily_limit_day_roll(s: PaySnap, user_id: u128, today: i32)
    requires
        pay_wf(s),
        has_limit(s.limits, user_id),
        limit_of(s.limits, user_id).reset_date < today,
    ensures
        ({
            let ls = spec_reset_limits(s.limits, user_id, today);
            &&& spec_used(ls, user_id) == 0
            &&& limit_of(ls, user_id).reset_date == today
            &&& spec_tier(ls, user_id) == spec_tier(s.limits, user_id)
        }),
{
    let i = limit_index(s.limits, user_id);
    lemma_limit_at(s.limits, i);
    let ls = spec_reset_limits(s.limits, user_id, today);
    assert forall|p: int, q: int| 0 <= p < q < ls.len() implies ls[p].user_id
        != ls[q].user_id by {
        assert(s.limits[p].user_id != s.limits[q].user_id);
    }
    lemma_limit_at(ls, i);
}

impl PaymentService {
    /// A page of `user_id`'s transaction history: own journal rows
    /// only, newest first, optionally restricted to sent or received
    /// rows, skipping the first `offset` matches and returning at most
    /// `limit`.
    #[verifier::rlimit(100)]
    pub fn get_filtered_history(
        &self,
        user_id: u128,
        limit: usize,
        offset: usize,
        kind: Option<TransactionKind>,
    ) -> (r: Vec<TransactionItem>)
        ensures
            items_of(r@) == spec_history(
                self@.journal,
                user_id,
                kind,
                offset as int,
                limit as int,
            ),
    {
        let ghost j = self@.journal;
        let ghost mut fs: Seq<JournalView> = Seq::empty();
        let mut out: Vec<TransactionItem> = Vec::new();
        let mut matched: usize = 0;
        let mut i: usize = self.journal.len();
        proof {
            assert(j.subrange(0, j.len() as int) =~= j);
            assert(spec_filtered(j, user_id, kind) =~= fs + spec_filtered(
                j.subrange(0, i as int),
                user_id,
                kind,
            ));
            assert(items_of(out@) =~= views_of(
                fs.subrange(
                    vstd::math::min(offset as int, fs.len() as int),
                    vstd::math::min(offset as int + limit as int, fs.len() as int),
                ),
                user_id,
            ));
        }
        while i > 0
            invariant
                i <= j.len(),
                self@.journal == j,
                self@.journal.len() == self.journal@.len(),
                matched == fs.len(),
                fs.len() <= j.len() - i,
                spec_filtered(j, user_id, kind) == fs + spec_filtered(
                    j.subrange(0, i as int),
                    user_id,
                    kind,
                ),
                items_of(out@) == views_of(
                    fs.subrange(
                        vstd::math::min(offset as int, fs.len() as int),
                        vstd::math::min(offset as int + limit as int, fs.len() as int),
                    ),
                    user_id,
                ),
                out@.len() <= limit,
                j.len() <= usize::MAX,
            decreases i,
        {
            i = i - 1;
            let ghost m = i as int;
            proof {
                assert(j.subrange(0, m + 1).drop_last() =~= j.subrange(0, m));
                assert(j.subrange(0, m + 1).last() == j[m]);
            }
            let is_match: bool = (self.journal[i].from_user_id == user_id
                || self.journal[i].to_user_id == user_id) && match kind {
                None => true,
                Some(TransactionKind::Sent) => self.journal[i].from_user_id == user_id,
                Some(TransactionKind::Received) => self.journal[i].to_user_id == user_id,
            };
            if is_match {
                proof {
                    assert(matches_filter(j[m], user_id, kind));
                    assert(seq![j[m]] + spec_filtered(j.subrange(0, m), user_id, kind)
                        =~= spec_filtered(j.subrange(0, m + 1), user_id, kind));
                    assert(fs + spec_filtered(j.subrange(0, m + 1), user_id, kind)
                        =~= (fs.push(j[m])) + spec_filtered(j.subrange(0, m), user_id, kind));
                }
                let ghost fs2 = fs.push(j[m]);
                if matched >= offset && out.len() < limit {
                    let e_type = if self.journal[i].from_user_id == user_id {
                        String::from_str("sent")
                    } else {
                        String::from_str("received")
                    };
                    let item = TransactionItem {
                        tx_id: self.journal[i].tx_id,
                        amount: self.journal[i].amount,
                        timestamp: self.journal[i].created_at,
                        status: self.journal[i].status,
                        counterparty_mobile: Some(crate::contact::mask_mobile("")),
                        transaction_type: e_type,
                    };
                    let ghost pre_out = out@;
                    proof {
                        assert(item_view(item) == spec_item_of(j[m], user_id));
                        let lo0 = vstd::math::min(offset as int, fs.len() as int);
                        let hi0 = vstd::math::min(offset as int + limit as int, fs.len() as int);
                        assert(items_of(out@).len() == out@.len());
                        assert(views_of(fs.subrange(lo0, hi0), user_id).len() == hi0 - lo0);
                        assert(out@.len() == hi0 - lo0);
                    }
                    out.push(item);
                    proof {
                        let lo0 = vstd::math::min(offset as int, fs.len() as int);
                        let hi0 = vstd::math::min(offset as int + limit as int, fs.len() as int);
                        let lo = vstd::math::min(offset as int, fs2.len() as int);
                        let hi = vstd::math::min(
                            offset as int + limit as int,
                            fs2.len() as int,
                        );
                        assert(lo == offset as int);
                        assert(lo0 == offset as int);
                        assert(hi == fs2.len());
                        assert(fs2.subrange(lo, hi).drop_last() =~= fs.subrange(lo0, hi0));
                        assert(fs2.subrange(lo, hi).last() == j[m]);
                        assert(items_of(out@).len() == views_of(
                            fs2.subrange(lo, hi),
                            user_id,
                        ).len());
                        assert forall|k: int|
                            0 <= k < items_of(out@).len() implies items_of(out@)[k] == views_of(
                            fs2.subrange(lo, hi),
                            user_id,
                        )[k] by {
                            assert(items_of(out@)[k] == item_view(out@[k]));
                            assert(views_of(fs2.subrange(lo, hi), user_id)[k] == spec_item_of(
                                fs2.subrange(lo, hi)[k],
                                user_id,
                            ));
                            if k < pre_out.len() {
                                assert(out@[k] == pre_out[k]);
                                assert(items_of(pre_out)[k] == views_of(
                                    fs.subrange(lo0, hi0),
                                    user_id,
                                )[k]);
                                assert(items_of(pre_out)[k] == item_view(pre_out[k]));
                                assert(views_of(fs.subrange(lo0, hi0), user_id)[k]
                                    == spec_item_of(fs.subrange(lo0, hi0)[k], user_id));
                                assert(fs2.subrange(lo, hi)[k] == fs2.subrange(
                                    lo,
                                    hi,
                                ).drop_last()[k]);
                            } else {
                                assert(out@[k] == item);
                                assert(fs2.subrange(lo, hi)[k] == j[m]);
                            }
                        }
                        assert(items_of(out@) =~= views_of(fs2.subrange(lo, hi), user_id));
                    }
                } else {
                    proof {
                        let lo0 = vstd::math::min(offset as int, fs.len() as int);
                        let hi0 = vstd::math::min(offset as int + limit as int, fs.len() as int);
                        assert(items_of(out@).len() == out@.len());
                        assert(views_of(fs.subrange(lo0, hi0), user_id).len() == hi0 - lo0);
                        assert(out@.len() == hi0 - lo0);
                        let lo = vstd::math::min(offset as int, fs2.len() as int);
                        let hi = vstd::math::min(
                            offset as int + limit as int,
                            fs2.len() as int,
                        );
                        assert(fs2.subrange(lo, hi) =~= fs.subrange(lo0, hi0));
                    }
                }
                proof {
                    fs = fs2;
                }
                proof {
                    assert(fs.len() <= j.len());
                }
                matched = matched + 1;
            } else {
                proof {
                    assert(spec_filtered(j.subrange(0, m + 1), user_id, kind) =~= spec_filtered(
                        j.subrange(0, m),
                        user_id,
                        kind,
                    ));
                }
            }
        }
        proof {
            assert(j.subrange(0, 0) =~= Seq::<JournalView>::empty());
            assert(spec_filtered(j.subrange(0, 0), user_id, kind) =~= Seq::<JournalView>::empty());
            assert(fs =~= spec_filtered(j, user_id, kind));
        }
        out
    }
}

/// Builds the ledger idempotency key for one half of a payment:
/// `prefix` followed by the payment's own key.
fn derived_key(prefix: &str, key: &String) -> (r: String)
    ensures
        r@ == prefix@ + key@,
{
    let mut s = String::from_str(prefix);
    s.append(key.as_str());
    s
}

} // verus!
