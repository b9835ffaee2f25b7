//! Fraud risk engine: consumes completed-payment events, maintains
//! short-lived per-user velocity counters, computes a weighted risk
//! score, records flags above the threshold (idempotently, one flag per
//! transaction), and decides when an alert is to be delivered.
//!
//! The engine is driven by a consumer loop outside the library: the
//! loop parses each incoming event, gathers the storage-derived signals
//! and hands both to [`FraudRuleEngine::handle_event`], then delivers
//! the alert the call returns, if any.

use vstd::prelude::*;
use vstd::string::StringExecFns;
use crate::payment::PaymentResponse;

verus! {

/// Points added when the sender made more than this many payments
/// within the rolling window.
pub const VELOCITY_LIMIT: u32 = 5;

/// Length of the approximate velocity window, in seconds.
pub const VELOCITY_WINDOW_SECS: i64 = 60;

/// A transaction is flagged only when its score strictly exceeds this.
pub const FLAG_THRESHOLD: i32 = 70;

/// A completed-payment event, as published on the message bus.
pub struct FraudEvent {
    pub tx_id: u128,
    pub from_user_id: u128,
    pub to_user_id: u128,
    pub amount: u64,
    pub device_fingerprint: Option<String>,
    pub ip_address: Option<String>,
    pub timestamp: i64,
}

/// Storage-derived signals for one event, gathered by the caller: the
/// sender's current balance, whether the sender's device fingerprint
/// was seen before, how many payments the sender made to the same
/// receiver in the last five minutes, and the optional anomaly-model
/// bonus (0 to 50 points; absent model contributes nothing).  `None`
/// means the signal could not be obtained; the rule then adds nothing.
#[derive(Clone, Copy, Debug)]
pub struct RiskSignals {
    pub balance: Option<i64>,
    pub device_known: Option<bool>,
    pub receiver_count: Option<i64>,
    pub anomaly_bonus: Option<u32>,
}

/// In-memory per-user velocity counter, reset by the periodic sweep.
#[derive(Clone, Copy, Debug, PartialEq, Eq, Structural)]
pub struct VelocityCounter {
    pub user_id: u128,
    pub count: u32,
    pub last_reset: i64,
}

/// A persisted fraud flag: one per transaction id.
pub struct FraudFlag {
    pub tx_id: u128,
    pub risk_score: i32,
    pub reason: String,
    pub flagged_at: i64,
    pub reviewed: bool,
    pub reviewed_at: Option<i64>,
}

/// Specification-level image of a fraud flag.
#[verifier::ext_equal]
pub struct FlagView {
    pub tx_id: u128,
    pub risk_score: i32,
    pub reason: Seq<char>,
    pub flagged_at: i64,
    pub reviewed: bool,
    pub reviewed_at: Option<i64>,
}

/// An alert to be delivered to the external webhook collaborator.
pub struct FraudAlert {
    pub tx_id: u128,
    pub from_user_id: u128,
    pub to_user_id: u128,
    pub amount: u64,
    pub risk_score: i32,
    pub reasons: Vec<String>,
    pub timestamp: i64,
}

/// Specification-level image of the engine's state.
#[verifier::ext_equal]
pub struct FraudSnap {
    pub counters: Seq<VelocityCounter>,
    pub flags: Seq<FlagView>,
}

/// True when a velocity counter exists for `user_id`.
pub open spec fn has_counter(cs: Seq<VelocityCounter>, user_id: u128) -> bool {
    exists|i: int| 0 <= i < cs.len() && cs[i].user_id == user_id
}

/// Index of the counter of `user_id`; meaningful only when it exists
/// and user ids are unique.
pub open spec fn counter_index(cs: Seq<VelocityCounter>, user_id: u128) -> int {
    choose|i: int| 0 <= i < cs.len() && cs[i].user_id == user_id
}

/// The counter of `user_id`; meaningful only when it exists.
pub open spec fn counter_of(cs: Seq<VelocityCounter>, user_id: u128) -> VelocityCounter {
    cs[counter_index(cs, user_id)]
}

/// The sender's event count after recording one more event: a fresh
/// counter starts at one; an existing one grows by one (saturating, so
/// a counter that can no longer grow stays put — far past the point
/// where the velocity rule already fires).
pub open spec fn velocity_count_after(cs: Seq<VelocityCounter>, user_id: u128) -> u32 {
    if has_counter(cs, user_id) {
        let c = counter_of(cs, user_id);
        if c.count < u32::MAX {
            (c.count + 1) as u32
        } else {
            c.count
        }
    } else {
        1
    }
}

/// The counters after recording one event from `user_id` at `now`.
pub open spec fn spec_record_velocity(
    cs: Seq<VelocityCounter>,
    user_id: u128,
    now: i64,
) -> Seq<VelocityCounter> {
    if has_counter(cs, user_id) {
        let c = counter_of(cs, user_id);
        cs.update(
            counter_index(cs, user_id),
            VelocityCounter { count: velocity_count_after(cs, user_id), ..c },
        )
    } else {
        cs.push(VelocityCounter { user_id, count: 1, last_reset: now })
    }
}

/// The counters after a periodic sweep at `now`: entries whose window
/// began at least [`VELOCITY_WINDOW_SECS`] ago are dropped, the rest
/// keep their order.
pub open spec fn spec_sweep(cs: Seq<VelocityCounter>, now: i64) -> Seq<VelocityCounter>
    decreases cs.len(),
{
    if cs.len() == 0 {
        Seq::empty()
    } else {
        let rest = spec_sweep(cs.drop_last(), now);
        if now - cs.last().last_reset < VELOCITY_WINDOW_SECS {
            rest.push(cs.last())
        } else {
            rest
        }
    }
}

/// True when a flag exists for transaction `tx_id`.
pub open spec fn has_flag(fs: Seq<FlagView>, tx_id: u128) -> bool {
    exists|i: int| 0 <= i < fs.len() && fs[i].tx_id == tx_id
}

/// The flags after an idempotent upsert: a transaction that is already
/// flagged is left alone (a duplicate attempt is a no-op, not an
/// error); otherwise one unreviewed flag is appended.
pub open spec fn spec_upsert_flag(
    fs: Seq<FlagView>,
    tx_id: u128,
    risk_score: i32,
    reason: Seq<char>,
    now: i64,
) -> Seq<FlagView> {
    if has_flag(fs, tx_id) {
        fs
    } else {
        fs.push(
            FlagView {
                tx_id,
                risk_score,
                reason,
                flagged_at: now,
                reviewed: false,
                reviewed_at: None,
            },
        )
    }
}

/// Velocity rule: more than [`VELOCITY_LIMIT`] events from the same
/// sender within the window.
pub open spec fn velocity_points(count_after: u32) -> int {
    if count_after > VELOCITY_LIMIT {
        40
    } else {
        0
    }
}

/// Large-relative-amount rule: the amount strictly exceeds 90% of the
/// sender's current balance.
pub open spec fn relative_amount_points(amount: u64, balance: Option<i64>) -> int {
    match balance {
        Some(b) => if 10 * amount > 9 * b {
            30
        } else {
            0
        },
        None => 0,
    }
}

/// New-device rule: the event carries a device fingerprint and the
/// directory answered that the sender was never seen with it.
pub open spec fn new_device_points(has_fingerprint: bool, device_known: Option<bool>) -> int {
    if has_fingerprint && device_known == Some(false) {
        20
    } else {
        0
    }
}

/// Receiver-concentration rule: more than three payments from the
/// sender to the same receiver within five minutes.
pub open spec fn receiver_points(receiver_count: Option<i64>) -> int {
    match receiver_count {
        Some(c) => if c > 3 {
            20
        } else {
            0
        },
        None => 0,
    }
}

/// Anomaly-model bonus: the configured model contributes up to 50
/// points; an absent model contributes nothing.
pub open spec fn anomaly_points(anomaly_bonus: Option<u32>) -> int {
    match anomaly_bonus {
        Some(b) => if b > 50 {
            50
        } else {
            b as int
        },
        None => 0,
    }
}

/// The risk score of one event: the sum of the independently triggered
/// rule weights.
pub open spec fn spec_risk_score(
    count_after: u32,
    amount: u64,
    balance: Option<i64>,
    has_fingerprint: bool,
    device_known: Option<bool>,
    receiver_count: Option<i64>,
    anomaly_bonus: Option<u32>,
) -> int {
    velocity_points(count_after) + relative_amount_points(amount, balance) + new_device_points(
        has_fingerprint,
        device_known,
    ) + receiver_points(receiver_count) + anomaly_points(anomaly_bonus)
}

/// The reason lines attached to a score, one per triggered rule, in
/// rule order.
pub open spec fn spec_risk_reasons(
    count_after: u32,
    amount: u64,
    balance: Option<i64>,
    has_fingerprint: bool,
    device_known: Option<bool>,
    receiver_count: Option<i64>,
    anomaly_bonus: Option<u32>,
) -> Seq<Seq<char>> {
    let r0 = Seq::<Seq<char>>::empty();
    let r1 = if velocity_points(count_after) > 0 {
        r0.push("High velocity: >5 payments in 1 minute"@)
    } else {
        r0
    };
    let r2 = if relative_amount_points(amount, balance) > 0 {
        r1.push("Amount > 90% of wallet balance"@)
    } else {
        r1
    };
    let r3 = if new_device_points(has_fingerprint, device_known) > 0 {
        r2.push("New device detected"@)
    } else {
        r2
    };
    let r4 = if receiver_points(receiver_count) > 0 {
        r3.push("Multiple payments to same receiver"@)
    } else {
        r3
    };
    if anomaly_points(anomaly_bonus) > 0 {
        r4.push("ML model detected anomaly"@)
    } else {
        r4
    }
}

/// The reason lines joined into one text, separated by "; ".
pub open spec fn spec_join_reasons(rs: Seq<Seq<char>>) -> Seq<char>
    decreases rs.len(),
{
    if rs.len() == 0 {
        Seq::empty()
    } else if rs.len() == 1 {
        rs[0]
    } else {
        spec_join_reasons(rs.drop_last()) + "; "@ + rs.last()
    }
}

/// If some counter at index `i` belongs to `user_id` and user ids are
/// unique, then lookup by `user_id` lands exactly on index `i`.
proof fn lemma_counter_at(cs: Seq<VelocityCounter>, i: int)
    requires
        forall|p: int, q: int| 0 <= p < q < cs.len() ==> cs[p].user_id != cs[q].user_id,
        0 <= i < cs.len(),
    ensures
        has_counter(cs, cs[i].user_id),
        counter_index(cs, cs[i].user_id) == i,
        counter_of(cs, cs[i].user_id) == cs[i],
{
    let u = cs[i].user_id;
    assert(has_counter(cs, u));
    let j = counter_index(cs, u);
    if i < j {
        assert(cs[i].user_id != cs[j].user_id);
    } else if j < i {
        assert(cs[j].user_id != cs[i].user_id);
    }
}

/// The fraud rule engine: owns the in-memory velocity counters and the
/// persisted flags.
pub struct FraudRuleEngine {
    counters: Vec<VelocityCounter>,
    flags: Vec<FraudFlag>,
}

impl View for FraudRuleEngine {
    type V = FraudSnap;

    closed spec fn view(&self) -> FraudSnap {
        FraudSnap {
            counters: self.counters@,
            flags: self.flags@.map_values(
                |f: FraudFlag|
                    FlagView {
                        tx_id: f.tx_id,
                        risk_score: f.risk_score,
                        reason: f.reason@,
                        flagged_at: f.flagged_at,
                        reviewed: f.reviewed,
                        reviewed_at: f.reviewed_at,
                    },
            ),
        }
    }
}

/// Well-formedness of the engine state: one counter per user, one flag
/// per transaction, and no counter window that began before time zero.
pub open spec fn fraud_wf(s: FraudSnap) -> bool {
    &&& forall|i: int, j: int|
        0 <= i < j < s.counters.len() ==> s.counters[i].user_id != s.counters[j].user_id
    &&& forall|i: int|
        0 <= i < s.counters.len() ==> (#[trigger] s.counters[i]).last_reset >= 0
    &&& forall|i: int, j: int|
        0 <= i < j < s.flags.len() ==> s.flags[i].tx_id != s.flags[j].tx_id
}

impl FraudRuleEngine {
    /// Well-formedness carried by every engine this module hands out.
    pub open spec fn wf(&self) -> bool {
        fraud_wf(self@)
    }

    /// A fresh engine with no counters and no flags.
    pub fn new() -> (s: Self)
        ensures
            s.wf(),
            s@.counters.len() == 0,
            s@.flags.len() == 0,
    {
        let s = FraudRuleEngine { counters: Vec::new(), flags: Vec::new() };
        proof {
            assert(s@.flags =~= Seq::<FlagView>::empty());
        }
        s
    }

    /// Index of the velocity counter of `user_id`, if any.
    fn find_counter(&self, user_id: u128) -> (r: Option<usize>)
        ensures
            match r {
                Some(i) => i < self@.counters.len() && self@.counters[i as int].user_id
                    == user_id,
                None => !has_counter(self@.counters, user_id),
            },
    {
        let mut i: usize = 0;
        while i < self.counters.len()
            invariant
                i <= self@.counters.len(),
                forall|j: int| 0 <= j < i ==> self@.counters[j].user_id != user_id,
            decreases self@.counters.len() - i,
        {
            if self.counters[i].user_id == user_id {
                return Some(i);
            }
            i = i + 1;
        }
        None
    }

    /// Records one event from `user_id` and returns the sender's count
    /// within the current window, the new event included.
    fn record_velocity(&mut self, user_id: u128, now: i64) -> (r: u32)
        requires
            old(self).wf(),
            now >= 0,
        ensures
            final(self).wf(),
            r == velocity_count_after(old(self)@.counters, user_id),
            final(self)@.counters == spec_record_velocity(old(self)@.counters, user_id, now),
            final(self)@.flags == old(self)@.flags,
    {
        let ghost pre = self@.counters;
        match self.find_counter(user_id) {
            Some(i) => {
                proof {
                    lemma_counter_at(pre, i as int);
                }
                let c = self.counters[i];
                let n: u32 = if c.count < u32::MAX {
                    c.count + 1
                } else {
                    c.count
                };
                self.counters.set(i, VelocityCounter { count: n, ..c });
                proof {
                    assert(self@.counters =~= spec_record_velocity(pre, user_id, now));
                    assert forall|p: int, q: int|
                        0 <= p < q < self@.counters.len() implies self@.counters[p].user_id
                        != self@.counters[q].user_id by {
                        assert(pre[p].user_id != pre[q].user_id);
                    }
                    assert forall|k: int| 0 <= k < self@.counters.len() implies (
                    #[trigger] self@.counters[k]).last_reset >= 0 by {
                        assert(pre[k].last_reset >= 0);
                    }
                }
                n
            },
            None => {
                self.counters.push(VelocityCounter { user_id, count: 1, last_reset: now });
                proof {
                    assert forall|p: int, q: int|
                        0 <= p < q < self@.counters.len() implies self@.counters[p].user_id
                        != self@.counters[q].user_id by {
                        if q < pre.len() {
                            assert(pre[p].user_id != pre[q].user_id);
                        } else {
                            assert(!has_counter(pre, user_id));
                        }
                    }
                }
                1
            },
        }
    }

    /// Drops every counter whose window began at least one window
    /// length before `now`.  Run periodically; this full reset makes
    /// the velocity window approximate rather than exact.
    pub fn sweep_counters(&mut self, now: i64)
        requires
            old(self).wf(),
            now >= 0,
        ensures
            final(self).wf(),
            final(self)@.counters == spec_sweep(old(self)@.counters, now),
            final(self)@.flags == old(self)@.flags,
    {
        let ghost pre = self@.counters;
        let mut kept: Vec<VelocityCounter> = Vec::new();
        let mut i: usize = 0;
        proof {
            assert(pre.subrange(0, 0) =~= Seq::<VelocityCounter>::empty());
        }
        while i < self.counters.len()
            invariant
                i <= pre.len(),
                self@.counters == pre,
                fraud_wf(self@),
                kept@ == spec_sweep(pre.subrange(0, i as int), now),
                now >= 0,
            decreases pre.len() - i,
        {
            let c = self.counters[i];
            proof {
                assert(pre[i as int].last_reset >= 0);
                assert(pre.subrange(0, i as int + 1).drop_last() =~= pre.subrange(0, i as int));
                assert(pre.subrange(0, i as int + 1).last() == pre[i as int]);
            }
            if now - c.last_reset < VELOCITY_WINDOW_SECS {
                kept.push(c);
            }
            i = i + 1;
        }
        proof {
            assert(pre.subrange(0, pre.len() as int) =~= pre);
        }
        self.counters = kept;
        proof {
            lemma_sweep_wf(pre, now);
        }
    }

    /// Number of recorded flags.
    pub fn flag_count(&self) -> (r: usize)
        ensures
            r == self@.flags.len(),
    {
        self.flags.len()
    }

    /// True when transaction `tx_id` is flagged.
    pub fn is_flagged(&self, tx_id: u128) -> (r: bool)
        ensures
            r == has_flag(self@.flags, tx_id),
    {
        let mut i: usize = 0;
        while i < self.flags.len()
            invariant
                i <= self@.flags.len(),
                self@.flags.len() == self.flags@.len(),
                forall|j: int| 0 <= j < i ==> (#[trigger] self@.flags[j]).tx_id != tx_id,
            decreases self@.flags.len() - i,
        {
            if self.flags[i].tx_id == tx_id {
                assert(self@.flags[i as int].tx_id == tx_id);
                return true;
            }
            i = i + 1;
        }
        false
    }

    /// Records a flag for `tx_id` unless one already exists: a
    /// duplicate attempt is a no-op, not an error.
    pub fn flag_transaction(
        &mut self,
        tx_id: u128,
        risk_score: i32,
        reason: String,
        now: i64,
    ) -> (r: bool)
        requires
            old(self).wf(),
        ensures
            final(self).wf(),
            final(self)@.counters == old(self)@.counters,
            final(self)@.flags == spec_upsert_flag(
                old(self)@.flags,
                tx_id,
                risk_score,
                reason@,
                now,
            ),
            r == !has_flag(old(self)@.flags, tx_id),
            has_flag(final(self)@.flags, tx_id),
    {
        let ghost pre = self@.flags;
        if self.is_flagged(tx_id) {
            return false;
        }
        self.flags.push(
            FraudFlag { tx_id, risk_score, reason, flagged_at: now, reviewed: false, reviewed_at: None },
        );
        proof {
            assert(self@.flags =~= spec_upsert_flag(pre, tx_id, risk_score, reason@, now));
            assert forall|p: int, q: int|
                0 <= p < q < self@.flags.len() implies self@.flags[p].tx_id
                != self@.flags[q].tx_id by {
                if q < pre.len() {
                    assert(pre[p].tx_id != pre[q].tx_id);
                } else {
                    assert(!has_flag(pre, tx_id));
                }
            }
            assert(self@.flags[self@.flags.len() - 1].tx_id == tx_id);
            assert(self@.counters =~= old(self)@.counters);
            assert forall|k: int| 0 <= k < self@.counters.len() implies (#[trigger] self@
                .counters[k]).last_reset >= 0 by {
                assert(old(self)@.counters[k].last_reset >= 0);
            }
        }
        true
    }

    /// Computes the risk score and reason lines of one event from the
    /// caller-gathered signals, recording the event in the sender's
    /// velocity counter.
    pub fn compute_risk_score(
        &mut self,
        event: &FraudEvent,
        signals: &RiskSignals,
        now: i64,
    ) -> (r: (i32, Vec<String>))
        requires
            old(self).wf(),
            now >= 0,
        ensures
            final(self).wf(),
            final(self)@.counters == spec_record_velocity(
                old(self)@.counters,
                event.from_user_id,
                now,
            ),
            final(self)@.flags == old(self)@.flags,
            r.0 == spec_risk_score(
                velocity_count_after(old(self)@.counters, event.from_user_id),
                event.amount,
                signals.balance,
                event.device_fingerprint is Some,
                signals.device_known,
                signals.receiver_count,
                signals.anomaly_bonus,
            ),
            r.1.deep_view() == spec_risk_reasons(
                velocity_count_after(old(self)@.counters, event.from_user_id),
                event.amount,
                signals.balance,
                event.device_fingerprint is Some,
                signals.device_known,
                signals.receiver_count,
                signals.anomaly_bonus,
            ),
    {
        let count_after = self.record_velocity(event.from_user_id, now);
        let mut score: i32 = 0;
        let mut reasons: Vec<String> = Vec::new();
        let ghost r0 = reasons.deep_view();
        proof {
            assert(r0 =~= Seq::<Seq<char>>::empty());
        }
        if count_after > VELOCITY_LIMIT {
            score = score + 40;
            reasons.push(String::from_str("High velocity: >5 payments in 1 minute"));
        }
        let ghost r1 = reasons.deep_view();
        if let Some(b) = signals.balance {
            let fires: bool = if b < 0 {
                true
            } else {
                (event.amount as u128) * 10 > (b as u128) * 9
            };
            if fires {
                score = score + 30;
                reasons.push(String::from_str("Amount > 90% of wallet balance"));
            }
        }
        let ghost r2 = reasons.deep_view();
        if event.device_fingerprint.is_some() {
            if let Some(known) = signals.device_known {
                if !known {
                    score = score + 20;
                    reasons.push(String::from_str("New device detected"));
                }
            }
        }
        let ghost r3 = reasons.deep_view();
        if let Some(c) = signals.receiver_count {
            if c > 3 {
                score = score + 20;
                reasons.push(String::from_str("Multiple payments to same receiver"));
            }
        }
        let ghost r4 = reasons.deep_view();
        if let Some(bonus) = signals.anomaly_bonus {
            if bonus > 0 {
                let capped: i32 = if bonus > 50 {
                    50
                } else {
                    bonus as i32
                };
                score = score + capped;
                reasons.push(String::from_str("ML model detected anomaly"));
            }
        }
        proof {
            let n = velocity_count_after(old(self)@.counters, event.from_user_id);
            assert(r1 =~= if velocity_points(n) > 0 {
                r0.push("High velocity: >5 payments in 1 minute"@)
            } else {
                r0
            });
            assert(r2 =~= if relative_amount_points(event.amount, signals.balance) > 0 {
                r1.push("Amount > 90% of wallet balance"@)
            } else {
                r1
            });
            assert(r3 =~= if new_device_points(
                event.device_fingerprint is Some,
                signals.device_known,
            ) > 0 {
                r2.push("New device detected"@)
            } else {
                r2
            });
            assert(r4 =~= if receiver_points(signals.receiver_count) > 0 {
                r3.push("Multiple payments to same receiver"@)
            } else {
                r3
            });
            assert(reasons.deep_view() =~= if anomaly_points(signals.anomaly_bonus) > 0 {
                r4.push("ML model detected anomaly"@)
            } else {
                r4
            });
        }
        (score, reasons)
    }

    /// Handles one event end to end: scores it, and when the score
    /// strictly exceeds [`FLAG_THRESHOLD`], records the flag (a no-op
    /// if the transaction is already flagged) and returns the alert to
    /// deliver.  A score of exactly the threshold does not flag.
    pub fn handle_event(&mut self, event: &FraudEvent, signals: &RiskSignals, now: i64) -> (r:
        Option<FraudAlert>)
        requires
            old(self).wf(),
            now >= 0,
        ensures
            final(self).wf(),
            final(self)@.counters == spec_record_velocity(
                old(self)@.counters,
                event.from_user_id,
                now,
            ),
            ({
                let score = spec_risk_score(
                    velocity_count_after(old(self)@.counters, event.from_user_id),
                    event.amount,
                    signals.balance,
                    event.device_fingerprint is Some,
                    signals.device_known,
                    signals.receiver_count,
                    signals.anomaly_bonus,
                );
                let reasons = spec_risk_reasons(
                    velocity_count_after(old(self)@.counters, event.from_user_id),
                    event.amount,
                    signals.balance,
                    event.device_fingerprint is Some,
                    signals.device_known,
                    signals.receiver_count,
                    signals.anomaly_bonus,
                );
                &&& (r is Some <==> score > FLAG_THRESHOLD)
                &&& (score > FLAG_THRESHOLD ==> final(self)@.flags == spec_upsert_flag(
                    old(self)@.flags,
                    event.tx_id,
                    score as i32,
                    spec_join_reasons(reasons),
                    now,
                ) && has_flag(final(self)@.flags, event.tx_id))
                &&& (score <= FLAG_THRESHOLD ==> final(self)@.flags == old(self)@.flags)
                &&& (r matches Some(a) ==> a.tx_id == event.tx_id && a.from_user_id
                    == event.from_user_id && a.to_user_id == event.to_user_id && a.amount
                    == event.amount && a.risk_score == score && a.reasons.deep_view() == reasons
                    && a.timestamp == event.timestamp)
            }),
    {
        let scored = self.compute_risk_score(event, signals, now);
        let score = scored.0;
        let reasons = scored.1;
        if score > FLAG_THRESHOLD {
            let reason_text = join_reasons(&reasons);
            self.flag_transaction(event.tx_id, score, reason_text, now);
            Some(
                FraudAlert {
                    tx_id: event.tx_id,
                    from_user_id: event.from_user_id,
                    to_user_id: event.to_user_id,
                    amount: event.amount,
                    risk_score: score,
                    reasons,
                    timestamp: event.timestamp,
                },
            )
        } else {
            None
        }
    }
}

/// A sweep keeps the state well-formed: kept counters keep their order
/// and their fields.
proof fn lemma_sweep_wf(cs: Seq<VelocityCounter>, now: i64)
    requires
        forall|i: int, j: int| 0 <= i < j < cs.len() ==> cs[i].user_id != cs[j].user_id,
        forall|i: int| 0 <= i < cs.len() ==> (#[trigger] cs[i]).last_reset >= 0,
    ensures
        forall|i: int, j: int|
            0 <= i < j < spec_sweep(cs, now).len() ==> spec_sweep(cs, now)[i].user_id
                != spec_sweep(cs, now)[j].user_id,
        forall|i: int|
            0 <= i < spec_sweep(cs, now).len() ==> (#[trigger] spec_sweep(cs, now)[i]).last_reset
                >= 0,
        forall|i: int|
            0 <= i < spec_sweep(cs, now).len() ==> has_counter(
                cs,
                #[trigger] spec_sweep(cs, now)[i].user_id,
            ),
    decreases cs.len(),
{
    if cs.len() > 0 {
        lemma_sweep_wf(cs.drop_last(), now);
        let rest = spec_sweep(cs.drop_last(), now);
        let out = spec_sweep(cs, now);
        assert forall|i: int| 0 <= i < rest.len() implies has_counter(
            cs,
            #[trigger] rest[i].user_id,
        ) by {
            assert(has_counter(cs.drop_last(), rest[i].user_id));
            let j = counter_index(cs.drop_last(), rest[i].user_id);
            assert(cs[j] == cs.drop_last()[j]);
            assert(has_counter(cs, rest[i].user_id));
        }
        assert forall|i: int, j: int| 0 <= i < j < out.len() implies out[i].user_id
            != out[j].user_id by {
            if j == out.len() - 1 && now - cs.last().last_reset < VELOCITY_WINDOW_SECS {
                assert(out[j] == cs.last());
                assert(has_counter(cs.drop_last(), out[i].user_id));
                let p = counter_index(cs.drop_last(), out[i].user_id);
                assert(cs[p].user_id == out[i].user_id);
                assert(cs[p].user_id != cs[cs.len() - 1].user_id);
            }
        }
    }
}

/// Joins the reason lines with "; ", as the persisted flag stores them.
#[verifier::rlimit(60)]
fn join_reasons(reasons: &Vec<String>) -> (r: String)
    ensures
        r@ == spec_join_reasons(reasons.deep_view()),
{
    let mut out = String::new();
    let mut i: usize = 0;
    let ghost rs = reasons.deep_view();
    proof {
        assert(rs.subrange(0, 0) =~= Seq::<Seq<char>>::empty());
    }
    while i < reasons.len()
        invariant
            i <= reasons@.len(),
            rs == reasons.deep_view(),
            rs.len() == reasons@.len(),
            out@ == spec_join_reasons(rs.subrange(0, i as int)),
        decreases reasons@.len() - i,
    {
        if i > 0 {
            out.append("; ");
        }
        out.append(reasons[i].as_str());
        proof {
            assert(rs.subrange(0, i as int + 1).drop_last() =~= rs.subrange(0, i as int));
            assert(rs.subrange(0, i as int + 1).last() == rs[i as int]);
            if i == 0 {
                assert(out@ =~= spec_join_reasons(rs.subrange(0, 1)));
            }
        }
        i = i + 1;
    }
    proof {
        assert(rs.subrange(0, rs.len() as int) =~= rs);
    }
    out
}

/// The fraud event the orchestrator constructs for a committed
/// payment, ready for the caller to publish on the message bus.  The
/// device fingerprint and address come from the request context, which
/// the caller supplies; a publisher without them sends none.
pub fn fraud_event_for(
    resp: &PaymentResponse,
    device_fingerprint: Option<String>,
    ip_address: Option<String>,
) -> (e: FraudEvent)
    ensures
        e.tx_id == resp.tx_id,
        e.from_user_id == resp.from_user_id,
        e.to_user_id == resp.to_user_id,
        e.amount == resp.amount,
        e.device_fingerprint == device_fingerprint,
        e.ip_address == ip_address,
        e.timestamp == resp.timestamp,
{
    FraudEvent {
        tx_id: resp.tx_id,
        from_user_id: resp.from_user_id,
        to_user_id: resp.to_user_id,
        amount: resp.amount,
        device_fingerprint,
        ip_address,
        timestamp: resp.timestamp,
    }
}

} // verus!
