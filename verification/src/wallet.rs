//! Wallet ledger: per-user balances with idempotent credit/debit and
//! optimistic concurrency control.
//!
//! The ledger owns the wallet rows and the idempotency records.  Every
//! mutation is described by the specification-level transition
//! [`spec_mutate`], which the executable operations are proved to follow
//! exactly.

use vstd::prelude::*;
use crate::{amount_in_bounds, valid_amount};

verus! {

/// A user's wallet row: balance in minor currency units (paise) and a
/// version that increases by exactly one on every successful mutation.
#[derive(Clone, Copy, Debug, PartialEq, Eq, Structural)]
pub struct Wallet {
    pub user_id: u128,
    pub balance: i64,
    pub version: u64,
    pub created_at: i64,
    pub updated_at: i64,
}

/// Request to create a wallet for a user.
#[derive(Clone, Copy, Debug)]
pub struct CreateWalletRequest {
    pub user_id: u128,
}

/// Request to credit or debit a wallet.
pub struct CreditDebitRequest {
    pub user_id: u128,
    pub amount: u64,
    pub idempotency_key: String,
}

impl CreditDebitRequest {
    /// Accepts the request exactly when the amount is within the
    /// per-transaction bounds.  The idempotency key is an opaque
    /// caller-supplied token and is not inspected.
    pub fn validate(&self) -> (r: Result<(), WalletError>)
        ensures
            r is Ok <==> valid_amount(self.amount),
            r is Err ==> r == Err::<(), WalletError>(WalletError::ValidationError),
    {
        if amount_in_bounds(self.amount) {
            Ok(())
        } else {
            Err(WalletError::ValidationError)
        }
    }
}

/// Errors surfaced by the wallet ledger.
#[derive(Clone, Copy, Debug, PartialEq, Eq, Structural)]
pub enum WalletError {
    /// A debit asked for more than the wallet holds.
    InsufficientBalance,
    /// The idempotency key was already used by this user.
    DuplicateIdempotencyKey,
    /// No wallet exists for this user.
    WalletNotFound(u128),
    /// The request was malformed (amount out of bounds).
    ValidationError,
    /// The version-conditioned write lost against a concurrent mutation.
    ConcurrencyConflict,
}

/// A recorded idempotency key, created atomically with the mutation it
/// guards; never updated, never deleted.
pub struct IdempotencyRecord {
    pub user_id: u128,
    pub key: String,
    pub created_at: i64,
}

/// Specification-level image of an idempotency record.
#[verifier::ext_equal]
pub struct IdemView {
    pub user_id: u128,
    pub key: Seq<char>,
    pub created_at: i64,
}

/// Specification-level image of the whole ledger store.
#[verifier::ext_equal]
pub struct LedgerSnap {
    pub wallets: Seq<Wallet>,
    pub keys: Seq<IdemView>,
}

/// True when some wallet in `ws` belongs to `user_id`.
pub open spec fn has_wallet(ws: Seq<Wallet>, user_id: u128) -> bool {
    exists|i: int| 0 <= i < ws.len() && ws[i].user_id == user_id
}

/// Index of the wallet of `user_id`; meaningful only when
/// `has_wallet(ws, user_id)` holds and user ids are unique.
pub open spec fn wallet_index(ws: Seq<Wallet>, user_id: u128) -> int {
    choose|i: int| 0 <= i < ws.len() && ws[i].user_id == user_id
}

/// The wallet of `user_id`; meaningful only when it exists.
pub open spec fn wallet_of(ws: Seq<Wallet>, user_id: u128) -> Wallet {
    ws[wallet_index(ws, user_id)]
}

/// True when `user_id` has already used `key` for a mutating operation.
pub open spec fn key_used(keys: Seq<IdemView>, user_id: u128, key: Seq<char>) -> bool {
    exists|i: int| 0 <= i < keys.len() && keys[i].user_id == user_id && keys[i].key == key
}

/// Well-formedness of a ledger snapshot: one wallet per user, no
/// negative balance, and each version bounded by the number of recorded
/// idempotency keys (each successful mutation records exactly one).
pub open spec fn snap_wf(s: LedgerSnap) -> bool {
    &&& forall|i: int, j: int|
        0 <= i < j < s.wallets.len() ==> s.wallets[i].user_id != s.wallets[j].user_id
    &&& forall|i: int|
        0 <= i < s.wallets.len() ==> (#[trigger] s.wallets[i]).balance >= 0
    &&& forall|i: int|
        0 <= i < s.wallets.len() ==> (#[trigger] s.wallets[i]).version <= s.keys.len()
}

/// Outcome of one ledger mutation: the store afterwards and the result
/// handed to the caller.
#[verifier::ext_equal]
pub struct MutateStep {
    pub post: LedgerSnap,
    pub result: Result<Wallet, WalletError>,
}

/// True when crediting `amount` to the wallet of `user_id` cannot
/// overflow the balance field.
pub open spec fn credit_fits(s: LedgerSnap, user_id: u128, amount: u64) -> bool {
    has_wallet(s.wallets, user_id) ==> wallet_of(s.wallets, user_id).balance + amount
        <= i64::MAX
}

/// The specification of one credit/debit attempt, mirroring the order of
/// checks of the store: amount bounds, idempotency, wallet existence,
/// balance (for a debit), then the version-conditioned write.  `now` is
/// the wall-clock timestamp recorded on the mutated row.
pub open spec fn spec_mutate(
    s: LedgerSnap,
    user_id: u128,
    amount: u64,
    is_credit: bool,
    key: Seq<char>,
    expected_version: u64,
    now: i64,
) -> MutateStep {
    if !valid_amount(amount) {
        MutateStep { post: s, result: Err(WalletError::ValidationError) }
    } else if key_used(s.keys, user_id, key) {
        MutateStep { post: s, result: Err(WalletError::DuplicateIdempotencyKey) }
    } else if !has_wallet(s.wallets, user_id) {
        MutateStep { post: s, result: Err(WalletError::WalletNotFound(user_id)) }
    } else {
        let w = wallet_of(s.wallets, user_id);
        if !is_credit && w.balance < amount {
            MutateStep { post: s, result: Err(WalletError::InsufficientBalance) }
        } else if w.version != expected_version {
            MutateStep { post: s, result: Err(WalletError::ConcurrencyConflict) }
        } else {
            let new_balance = if is_credit {
                w.balance + amount
            } else {
                w.balance - amount
            };
            let w2 = Wallet {
                balance: new_balance as i64,
                version: (w.version + 1) as u64,
                updated_at: now,
                ..w
            };
            let rec = IdemView { user_id, key, created_at: now };
            MutateStep {
                post: LedgerSnap {
                    wallets: s.wallets.update(wallet_index(s.wallets, user_id), w2),
                    keys: s.keys.push(rec),
                },
                result: Ok(w2),
            }
        }
    }
}

/// The version read for a mutation that was not given one explicitly:
/// the wallet's current version, or zero when no wallet exists (the
/// value is then never compared).
pub open spec fn current_version(s: LedgerSnap, user_id: u128) -> u64 {
    if has_wallet(s.wallets, user_id) {
        wallet_of(s.wallets, user_id).version
    } else {
        0
    }
}

/// One credit/debit as the public `credit`/`debit` operations perform
/// it: the version is read and the conditional write applied within the
/// same exclusive access, so the version check never loses.
pub open spec fn spec_process(
    s: LedgerSnap,
    user_id: u128,
    amount: u64,
    is_credit: bool,
    key: Seq<char>,
    now: i64,
) -> MutateStep {
    spec_mutate(s, user_id, amount, is_credit, key, current_version(s, user_id), now)
}

/// If some wallet at index `i` belongs to `user_id` and user ids are
/// unique, then lookup by `user_id` lands exactly on index `i`.
pub proof fn lemma_wallet_at(ws: Seq<Wallet>, i: int)
    requires
        forall|p: int, q: int| 0 <= p < q < ws.len() ==> ws[p].user_id != ws[q].user_id,
        0 <= i < ws.len(),
    ensures
        has_wallet(ws, ws[i].user_id),
        wallet_index(ws, ws[i].user_id) == i,
        wallet_of(ws, ws[i].user_id) == ws[i],
{
    let u = ws[i].user_id;
    assert(has_wallet(ws, u));
    let j = wallet_index(ws, u);
    assert(0 <= j < ws.len() && ws[j].user_id == u);
    if i < j {
        assert(ws[i].user_id != ws[j].user_id);
    } else if j < i {
        assert(ws[j].user_id != ws[i].user_id);
    }
}

/// The wallet ledger: owns the wallet rows and the idempotency records.
/// All state lives in the store; operations take the row-level exclusive
/// access for the whole read-modify-write, as the lock-then-CAS pattern
/// demands.
pub struct WalletService {
    wallets: Vec<Wallet>,
    keys: Vec<IdempotencyRecord>,
}

impl View for WalletService {
    type V = LedgerSnap;

    closed spec fn view(&self) -> LedgerSnap {
        LedgerSnap {
            wallets: self.wallets@,
            keys: self.keys@.map_values(
                |r: IdempotencyRecord|
                    IdemView { user_id: r.user_id, key: r.key@, created_at: r.created_at },
            ),
        }
    }
}

impl WalletService {
    /// Well-formedness carried by every store this module hands out.
    pub open spec fn wf(&self) -> bool {
        snap_wf(self@)
    }

    /// A fresh, empty ledger.
    pub fn new() -> (s: Self)
        ensures
            s.wf(),
            s@.wallets.len() == 0,
            s@.keys.len() == 0,
    {
        let s = WalletService { wallets: Vec::new(), keys: Vec::new() };
        proof {
            assert(s@.keys =~= Seq::<IdemView>::empty());
        }
        s
    }

    /// Index of the wallet row of `user_id`, if any.
    fn find_wallet(&self, user_id: u128) -> (r: Option<usize>)
        ensures
            match r {
                Some(i) => i < self@.wallets.len() && self@.wallets[i as int].user_id
                    == user_id,
                None => !has_wallet(self@.wallets, user_id),
            },
    {
        let mut i: usize = 0;
        while i < self.wallets.len()
            invariant
                i <= self@.wallets.len(),
                forall|j: int| 0 <= j < i ==> self@.wallets[j].user_id != user_id,
            decreases self@.wallets.len() - i,
        {
            if self.wallets[i].user_id == user_id {
                return Some(i);
            }
            i = i + 1;
        }
        None
    }

    /// True when `user_id` has already used `key` for a mutation.
    pub fn is_idempotent(&self, key: &String, user_id: u128) -> (r: bool)
        ensures
            r == key_used(self@.keys, user_id, key@),
    {
        let mut i: usize = 0;
        while i < self.keys.len()
            invariant
                i <= self@.keys.len(),
                self@.keys.len() == self.keys@.len(),
                forall|j: int|
                    0 <= j < i ==> !((#[trigger] self@.keys[j]).user_id == user_id
                        && self@.keys[j].key == key@),
            decreases self@.keys.len() - i,
        {
            if self.keys[i].user_id == user_id && self.keys[i].key.eq(key) {
                assert(self@.keys[i as int].user_id == user_id
                    && self@.keys[i as int].key == key@);
                return true;
            }
            i = i + 1;
        }
        false
    }

    /// Creates the wallet of `user_id` with balance 0 and version 0, or
    /// returns the existing wallet: the call succeeds either way
    /// (insert-or-fetch, never "insert and return nothing on conflict").
    pub fn create_wallet(&mut self, req: &CreateWalletRequest, now: i64) -> (r: Result<
        Wallet,
        WalletError,
    >)
        requires
            old(self).wf(),
        ensures
            final(self).wf(),
            final(self)@.keys == old(self)@.keys,
            r is Ok,
            has_wallet(old(self)@.wallets, req.user_id) ==> final(self)@ == old(self)@ && r
                == Ok::<Wallet, WalletError>(wallet_of(old(self)@.wallets, req.user_id)),
            !has_wallet(old(self)@.wallets, req.user_id) ==> {
                let w = Wallet {
                    user_id: req.user_id,
                    balance: 0,
                    version: 0,
                    created_at: now,
                    updated_at: now,
                };
                final(self)@.wallets == old(self)@.wallets.push(w) && r == Ok::<
                    Wallet,
                    WalletError,
                >(w)
            },
            has_wallet(final(self)@.wallets, req.user_id),
    {
        match self.find_wallet(req.user_id) {
            Some(i) => {
                proof {
                    lemma_wallet_at(self@.wallets, i as int);
                }
                Ok(self.wallets[i])
            },
            None => {
                let w = Wallet {
                    user_id: req.user_id,
                    balance: 0,
                    version: 0,
                    created_at: now,
                    updated_at: now,
                };
                self.wallets.push(w);
                proof {
                    let ws = self@.wallets;
                    assert(ws[ws.len() - 1].user_id == req.user_id);
                    lemma_wallet_at(ws, ws.len() - 1);
                }
                Ok(w)
            },
        }
    }

    /// The current wallet row of `user_id`, or `WalletNotFound`.
    pub fn get_wallet(&self, user_id: u128) -> (r: Result<Wallet, WalletError>)
        requires
            self.wf(),
        ensures
            match r {
                Ok(w) => has_wallet(self@.wallets, user_id) && w == wallet_of(
                    self@.wallets,
                    user_id,
                ),
                Err(e) => !has_wallet(self@.wallets, user_id) && e
                    == WalletError::WalletNotFound(user_id),
            },
    {
        match self.find_wallet(user_id) {
            Some(i) => {
                proof {
                    lemma_wallet_at(self@.wallets, i as int);
                }
                Ok(self.wallets[i])
            },
            None => Err(WalletError::WalletNotFound(user_id)),
        }
    }

    /// The current balance of `user_id`, or `WalletNotFound`.
    pub fn get_balance(&self, user_id: u128) -> (r: Result<i64, WalletError>)
        requires
            self.wf(),
        ensures
            match r {
                Ok(b) => has_wallet(self@.wallets, user_id) && b == wallet_of(
                    self@.wallets,
                    user_id,
                ).balance && b >= 0,
                Err(e) => !has_wallet(self@.wallets, user_id) && e
                    == WalletError::WalletNotFound(user_id),
            },
    {
        match self.get_wallet(user_id) {
            Ok(w) => {
                proof {
                    let i = wallet_index(self@.wallets, user_id);
                    assert(self@.wallets[i].balance >= 0);
                }
                Ok(w.balance)
            },
            Err(e) => Err(e),
        }
    }

    /// One credit/debit attempt against an expected wallet version: the
    /// write is applied only if the version still equals
    /// `expected_version`, otherwise the attempt fails with
    /// `ConcurrencyConflict` and nothing changes.
    pub fn process_at_version(
        &mut self,
        req: &CreditDebitRequest,
        is_credit: bool,
        expected_version: u64,
        now: i64,
    ) -> (r: Result<Wallet, WalletError>)
        requires
            old(self).wf(),
            is_credit ==> credit_fits(old(self)@, req.user_id, req.amount),
        ensures
            final(self).wf(),
            ({
                let step = spec_mutate(
                    old(self)@,
                    req.user_id,
                    req.amount,
                    is_credit,
                    req.idempotency_key@,
                    expected_version,
                    now,
                );
                final(self)@ == step.post && r == step.result
            }),
    {
        let ghost pre = self@;
        let ghost step = spec_mutate(
            pre,
            req.user_id,
            req.amount,
            is_credit,
            req.idempotency_key@,
            expected_version,
            now,
        );
        if !amount_in_bounds(req.amount) {
            return Err(WalletError::ValidationError);
        }
        if self.is_idempotent(&req.idempotency_key, req.user_id) {
            return Err(WalletError::DuplicateIdempotencyKey);
        }
        let i: usize = match self.find_wallet(req.user_id) {
            Some(i) => i,
            None => {
                return Err(WalletError::WalletNotFound(req.user_id));
            },
        };
        proof {
            lemma_wallet_at(pre.wallets, i as int);
        }
        let w = self.wallets[i];
        if !is_credit && w.balance < req.amount as i64 {
            return Err(WalletError::InsufficientBalance);
        }
        if w.version != expected_version {
            return Err(WalletError::ConcurrencyConflict);
        }
        // Record the idempotency key first: the key count then bounds
        // the new version, which rules out version overflow.
        self.keys.push(
            IdempotencyRecord {
                user_id: req.user_id,
                key: clone_string(&req.idempotency_key),
                created_at: now,
            },
        );
        let n: usize = self.keys.len();
        proof {
            assert(self@.keys =~= pre.keys.push(
                IdemView { user_id: req.user_id, key: req.idempotency_key@, created_at: now },
            ));
            assert(w.version <= pre.keys.len());
            assert(n == pre.keys.len() + 1);
        }
        let new_balance = if is_credit {
            w.balance + req.amount as i64
        } else {
            w.balance - req.amount as i64
        };
        let w2 = Wallet { balance: new_balance, version: w.version + 1, updated_at: now, ..w };
        self.wallets.set(i, w2);
        proof {
            assert(self@.wallets =~= pre.wallets.update(i as int, w2));
            assert(self@ =~= step.post);
            assert forall|p: int, q: int|
                0 <= p < q < self@.wallets.len() implies self@.wallets[p].user_id
                != self@.wallets[q].user_id by {
                assert(pre.wallets[p].user_id != pre.wallets[q].user_id);
            }
            assert forall|k: int| 0 <= k < self@.wallets.len() implies (#[trigger] self@
                .wallets[k]).balance >= 0 && self@.wallets[k].version <= self@.keys.len() by {
                if k != i as int {
                    assert(self@.wallets[k] == pre.wallets[k]);
                    assert(pre.wallets[k].balance >= 0);
                    assert(pre.wallets[k].version <= pre.keys.len());
                }
            }
        }
        Ok(w2)
    }

    /// One credit/debit as a single operation: the version is read under
    /// the same exclusive access that applies the write, so the
    /// version-conditioned write never loses here.
    pub fn process_transaction(&mut self, req: &CreditDebitRequest, is_credit: bool, now: i64) -> (r:
        Result<Wallet, WalletError>)
        requires
            old(self).wf(),
            is_credit ==> credit_fits(old(self)@, req.user_id, req.amount),
        ensures
            final(self).wf(),
            ({
                let step = spec_process(
                    old(self)@,
                    req.user_id,
                    req.amount,
                    is_credit,
                    req.idempotency_key@,
                    now,
                );
                final(self)@ == step.post && r == step.result
            }),
            r != Err::<Wallet, WalletError>(WalletError::ConcurrencyConflict),
            r is Ok <==> valid_amount(req.amount) && !key_used(
                old(self)@.keys,
                req.user_id,
                req.idempotency_key@,
            ) && has_wallet(old(self)@.wallets, req.user_id) && (is_credit || wallet_of(
                old(self)@.wallets,
                req.user_id,
            ).balance >= req.amount),
    {
        let expected: u64 = match self.get_wallet(req.user_id) {
            Ok(w) => w.version,
            Err(_) => 0,
        };
        self.process_at_version(req, is_credit, expected, now)
    }

    /// Credits `req.amount` to the wallet of `req.user_id`.
    pub fn credit(&mut self, req: &CreditDebitRequest, now: i64) -> (r: Result<
        Wallet,
        WalletError,
    >)
        requires
            old(self).wf(),
            credit_fits(old(self)@, req.user_id, req.amount),
        ensures
            final(self).wf(),
            ({
                let step = spec_process(
                    old(self)@,
                    req.user_id,
                    req.amount,
                    true,
                    req.idempotency_key@,
                    now,
                );
                final(self)@ == step.post && r == step.result
            }),
            r is Ok <==> valid_amount(req.amount) && !key_used(
                old(self)@.keys,
                req.user_id,
                req.idempotency_key@,
            ) && has_wallet(old(self)@.wallets, req.user_id),
    {
        self.process_transaction(req, true, now)
    }

    /// Debits `req.amount` from the wallet of `req.user_id`.  A debit
    /// that asks for more than the wallet holds fails with
    /// `InsufficientBalance` and changes nothing.
    pub fn debit(&mut self, req: &CreditDebitRequest, now: i64) -> (r: Result<
        Wallet,
        WalletError,
    >)
        requires
            old(self).wf(),
        ensures
            final(self).wf(),
            ({
                let step = spec_process(
                    old(self)@,
                    req.user_id,
                    req.amount,
                    false,
                    req.idempotency_key@,
                    now,
                );
                final(self)@ == step.post && r == step.result
            }),
            r is Ok <==> valid_amount(req.amount) && !key_used(
                old(self)@.keys,
                req.user_id,
                req.idempotency_key@,
            ) && has_wallet(old(self)@.wallets, req.user_id) && wallet_of(
                old(self)@.wallets,
                req.user_id,
            ).balance >= req.amount,
            valid_amount(req.amount) && !key_used(
                old(self)@.keys,
                req.user_id,
                req.idempotency_key@,
            ) && has_wallet(old(self)@.wallets, req.user_id) && wallet_of(
                old(self)@.wallets,
                req.user_id,
            ).balance < req.amount ==> r == Err::<Wallet, WalletError>(
                WalletError::InsufficientBalance,
            ) && final(self)@ == old(self)@,
    {
        self.process_transaction(req, false, now)
    }
}

/// What one successful ledger mutation does: the balance moves by
/// exactly `amount`, the version by exactly one, one idempotency record
/// is added, every other user's wallet is untouched, and the store stays
/// well-formed.
#[verifier::rlimit(60)]
pub proof fn lemma_mutate_ok(
    s: LedgerSnap,
    user_id: u128,
    amount: u64,
    is_credit: bool,
    key: Seq<char>,
    expected_version: u64,
    now: i64,
)
    requires
        snap_wf(s),
        is_credit ==> credit_fits(s, user_id, amount),
        spec_mutate(s, user_id, amount, is_credit, key, expected_version, now).result is Ok,
    ensures
        has_wallet(s.wallets, user_id),
        ({
            let step = spec_mutate(s, user_id, amount, is_credit, key, expected_version, now);
            snap_wf(step.post) && has_wallet(step.post.wallets, user_id)
        }),
        ({
            let pre_w = wallet_of(s.wallets, user_id);
            let step = spec_mutate(s, user_id, amount, is_credit, key, expected_version, now);
            let post_w = wallet_of(step.post.wallets, user_id);
            post_w.balance == if is_credit {
                pre_w.balance + amount
            } else {
                pre_w.balance - amount
            }
        }),
        ({
            let pre_w = wallet_of(s.wallets, user_id);
            let step = spec_mutate(s, user_id, amount, is_credit, key, expected_version, now);
            let post_w = wallet_of(step.post.wallets, user_id);
            post_w.version == (pre_w.version + 1) as u64 && post_w.version != pre_w.version
                && step.result == Ok::<Wallet, WalletError>(post_w)
        }),
        ({
            let step = spec_mutate(s, user_id, amount, is_credit, key, expected_version, now);
            step.post.keys == s.keys.push(IdemView { user_id, key, created_at: now })
                && key_used(step.post.keys, user_id, key)
        }),
        ({
            let step = spec_mutate(s, user_id, amount, is_credit, key, expected_version, now);
            forall|u: u128|
                u != user_id ==> #[trigger] has_wallet(step.post.wallets, u) == has_wallet(
                    s.wallets,
                    u,
                )
        }),
        ({
            let step = spec_mutate(s, user_id, amount, is_credit, key, expected_version, now);
            forall|u: u128|
                u != user_id && has_wallet(s.wallets, u) ==> #[trigger] wallet_of(
                    step.post.wallets,
                    u,
                ) == wallet_of(s.wallets, u)
        }),
{
    let step = spec_mutate(s, user_id, amount, is_credit, key, expected_version, now);
    let i = wallet_index(s.wallets, user_id);
    let w = wallet_of(s.wallets, user_id);
    assert(0 <= i < s.wallets.len() && s.wallets[i].user_id == user_id);
    let new_balance: int = if is_credit {
        w.balance + amount
    } else {
        w.balance - amount
    };
    let w2 = Wallet {
        balance: new_balance as i64,
        version: (w.version + 1) as u64,
        updated_at: now,
        ..w
    };
    let post = step.post;
    assert(post.wallets == s.wallets.update(i, w2));
    assert(s.wallets[i].balance >= 0);
    assert(w2.balance == new_balance);
    assert forall|p: int, q: int|
        0 <= p < q < post.wallets.len() implies post.wallets[p].user_id
        != post.wallets[q].user_id by {
        assert(s.wallets[p].user_id != s.wallets[q].user_id);
    }
    assert forall|k: int| 0 <= k < post.wallets.len() implies (#[trigger] post.wallets[k]).balance
        >= 0 && post.wallets[k].version <= post.keys.len() by {
        if k != i {
            assert(post.wallets[k] == s.wallets[k]);
            assert(s.wallets[k].balance >= 0);
            assert(s.wallets[k].version <= s.keys.len());
        }
    }
    lemma_wallet_at(post.wallets, i);
    let v = w.version;
    assert(((v + 1) as u64) != v) by (bit_vector);
    assert(key_used(post.keys, user_id, key)) by {
        assert(post.keys[post.keys.len() - 1] == IdemView { user_id, key, created_at: now });
    }
    assert forall|u: u128| u != user_id implies #[trigger] has_wallet(post.wallets, u)
        == has_wallet(s.wallets, u) && (has_wallet(s.wallets, u) ==> wallet_of(post.wallets, u)
        == wallet_of(s.wallets, u)) by {
        if has_wallet(s.wallets, u) {
            let j = wallet_index(s.wallets, u);
            assert(0 <= j < s.wallets.len() && s.wallets[j].user_id == u);
            assert(j != i);
            assert(post.wallets[j] == s.wallets[j]);
            lemma_wallet_at(post.wallets, j);
            lemma_wallet_at(s.wallets, j);
        } else {
            if has_wallet(post.wallets, u) {
                let j = choose|j: int|
                    0 <= j < post.wallets.len() && post.wallets[j].user_id == u;
                assert(j != i);
                assert(s.wallets[j].user_id == u);
                assert(has_wallet(s.wallets, u));
            }
        }
    }
    assert(wallet_of(step.post.wallets, user_id) == w2);
    assert forall|u: u128| u != user_id implies #[trigger] has_wallet(
        spec_mutate(s, user_id, amount, is_credit, key, expected_version, now).post.wallets,
        u,
    ) == has_wallet(s.wallets, u) by {
        assert(has_wallet(step.post.wallets, u) == has_wallet(s.wallets, u));
    }
    assert forall|u: u128| u != user_id && has_wallet(s.wallets, u) implies #[trigger] wallet_of(
        spec_mutate(s, user_id, amount, is_credit, key, expected_version, now).post.wallets,
        u,
    ) == wallet_of(s.wallets, u) by {
        assert(has_wallet(step.post.wallets, u) == has_wallet(s.wallets, u));
        assert(wallet_of(step.post.wallets, u) == wallet_of(s.wallets, u));
    }
}

/// No negative balance: a debit that asks for more than the wallet
/// holds fails with `InsufficientBalance` and leaves the store exactly
/// as it was.
pub proof fn lemma_debit_insufficient(
    s: LedgerSnap,
    user_id: u128,
    amount: u64,
    key: Seq<char>,
    expected_version: u64,
    now: i64,
)
    requires
        valid_amount(amount),
        !key_used(s.keys, user_id, key),
        has_wallet(s.wallets, user_id),
        wallet_of(s.wallets, user_id).balance < amount,
    ensures
        spec_mutate(s, user_id, amount, false, key, expected_version, now) == (MutateStep {
            post: s,
            result: Err(WalletError::InsufficientBalance),
        }),
{
}

/// Every wallet of a well-formed store holds a non-negative balance.
pub proof fn lemma_balances_nonnegative(s: LedgerSnap)
    requires
        snap_wf(s),
    ensures
        forall|u: u128|
            #[trigger] has_wallet(s.wallets, u) ==> wallet_of(s.wallets, u).balance >= 0,
{
    assert forall|u: u128| #[trigger] has_wallet(s.wallets, u) implies wallet_of(
        s.wallets,
        u,
    ).balance >= 0 by {
        let i = wallet_index(s.wallets, u);
        assert(0 <= i < s.wallets.len());
        assert(s.wallets[i].balance >= 0);
    }
}

/// Idempotent replay at the ledger: once a mutation under `key`
/// succeeded, any further credit or debit by the same user under the
/// same key fails with `DuplicateIdempotencyKey` and changes nothing,
/// whatever amount, direction, expected version or clock it is retried
/// with.
pub proof fn lemma_ledger_idempotent_replay(
    s: LedgerSnap,
    user_id: u128,
    amount1: u64,
    is_credit1: bool,
    expected1: u64,
    now1: i64,
    amount2: u64,
    is_credit2: bool,
    expected2: u64,
    now2: i64,
    key: Seq<char>,
)
    requires
        spec_mutate(s, user_id, amount1, is_credit1, key, expected1, now1).result is Ok,
        valid_amount(amount2),
    ensures
        ({
            let post1 = spec_mutate(s, user_id, amount1, is_credit1, key, expected1, now1).post;
            spec_mutate(post1, user_id, amount2, is_credit2, key, expected2, now2)
                == (MutateStep { post: post1, result: Err(WalletError::DuplicateIdempotencyKey) })
        }),
{
    let post1 = spec_mutate(s, user_id, amount1, is_credit1, key, expected1, now1).post;
    assert(post1.keys[post1.keys.len() - 1] == IdemView { user_id, key, created_at: now1 });
    assert(key_used(post1.keys, user_id, key));
}

/// Optimistic concurrency: of two debits racing on the same wallet
/// from the same pre-read version, exactly one wins.  The first commit
/// succeeds; the second, still conditioned on the stale version, fails
/// with `ConcurrencyConflict` and changes nothing.
pub proof fn lemma_occ_single_winner(
    s: LedgerSnap,
    user_id: u128,
    amount1: u64,
    key1: Seq<char>,
    amount2: u64,
    key2: Seq<char>,
    version: u64,
    now1: i64,
    now2: i64,
)
    requires
        snap_wf(s),
        valid_amount(amount1),
        valid_amount(amount2),
        key1 != key2,
        !key_used(s.keys, user_id, key1),
        !key_used(s.keys, user_id, key2),
        has_wallet(s.wallets, user_id),
        wallet_of(s.wallets, user_id).version == version,
        wallet_of(s.wallets, user_id).balance >= amount1 + amount2,
    ensures
        spec_mutate(s, user_id, amount1, false, key1, version, now1).result is Ok,
        ({
            let post1 = spec_mutate(s, user_id, amount1, false, key1, version, now1).post;
            spec_mutate(post1, user_id, amount2, false, key2, version, now2) == (MutateStep {
                post: post1,
                result: Err(WalletError::ConcurrencyConflict),
            })
        }),
{
    let step1 = spec_mutate(s, user_id, amount1, false, key1, version, now1);
    assert(step1.result is Ok);
    lemma_mutate_ok(s, user_id, amount1, false, key1, version, now1);
    let post1 = step1.post;
    assert(!key_used(post1.keys, user_id, key2)) by {
        if key_used(post1.keys, user_id, key2) {
            let i = choose|i: int|
                0 <= i < post1.keys.len() && post1.keys[i].user_id == user_id && post1.keys[i].key
                    == key2;
            if i < s.keys.len() {
                assert(key_used(s.keys, user_id, key2));
            } else {
                assert(post1.keys[i].key == key1);
            }
        }
    }
    assert(wallet_of(post1.wallets, user_id).balance >= amount2);
    assert(wallet_of(post1.wallets, user_id).version != version);
}

/// Clones a string, keeping its characters.
pub(crate) fn clone_string(s: &String) -> (r: String)
    ensures
        r@ == s@,
{
    let r = s.clone();
    r
}

} // verus!
