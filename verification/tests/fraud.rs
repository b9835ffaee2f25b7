//! Fraud engine behaviour: rule weights, the strict threshold, flag
//! idempotency and counter sweeping.

use payment_system::fraud::{FraudEvent, FraudRuleEngine, RiskSignals};

const NOW: i64 = 1_700_000_000;

fn event(tx_id: u128, from: u128, amount: u64, device: Option<&str>) -> FraudEvent {
    FraudEvent {
        tx_id,
        from_user_id: from,
        to_user_id: 999,
        amount,
        device_fingerprint: device.map(|d| d.to_string()),
        ip_address: None,
        timestamp: NOW,
    }
}

fn quiet_signals() -> RiskSignals {
    RiskSignals {
        balance: Some(1_000_000),
        device_known: None,
        receiver_count: None,
        anomaly_bonus: None,
    }
}

#[test]
fn test_velocity_alone_not_flagged() {
    // Six events inside the window: the sixth scores 40 (velocity
    // only) and is not flagged.
    let mut engine = FraudRuleEngine::new();
    let sender: u128 = 1;
    for i in 0..5 {
        let alert = engine.handle_event(&event(i, sender, 100, None), &quiet_signals(), NOW);
        assert!(alert.is_none());
    }
    let (score, reasons) = engine.compute_risk_score(
        &event(5, sender, 100, None),
        &quiet_signals(),
        NOW,
    );
    assert_eq!(score, 40);
    assert_eq!(reasons, vec!["High velocity: >5 payments in 1 minute".to_string()]);
    assert_eq!(engine.flag_count(), 0);
}

#[test]
fn test_boundary_seventy_not_flagged() {
    // A seventh event whose amount is 91% of the balance scores
    // 40 + 30 = 70: the boundary is strict, so still not flagged.
    let mut engine = FraudRuleEngine::new();
    let sender: u128 = 2;
    for i in 0..6 {
        engine.handle_event(&event(i, sender, 100, None), &quiet_signals(), NOW);
    }
    let signals = RiskSignals {
        balance: Some(100_000),
        device_known: None,
        receiver_count: None,
        anomaly_bonus: None,
    };
    let alert = engine.handle_event(&event(6, sender, 91_000, None), &signals, NOW);
    assert!(alert.is_none());
    assert_eq!(engine.flag_count(), 0);
}

#[test]
fn test_above_threshold_flagged() {
    // An eighth event adding a new-device match (40 + 30 + 20 = 90) is
    // flagged and an alert is to be delivered.
    let mut engine = FraudRuleEngine::new();
    let sender: u128 = 3;
    for i in 0..7 {
        engine.handle_event(&event(i, sender, 100, None), &quiet_signals(), NOW);
    }
    let signals = RiskSignals {
        balance: Some(100_000),
        device_known: Some(false),
        receiver_count: None,
        anomaly_bonus: None,
    };
    let alert = engine
        .handle_event(&event(7, sender, 91_000, Some("device-x")), &signals, NOW)
        .unwrap();
    assert_eq!(alert.risk_score, 90);
    assert_eq!(alert.tx_id, 7);
    assert_eq!(
        alert.reasons,
        vec![
            "High velocity: >5 payments in 1 minute".to_string(),
            "Amount > 90% of wallet balance".to_string(),
            "New device detected".to_string(),
        ]
    );
    assert_eq!(engine.flag_count(), 1);
    assert!(engine.is_flagged(7));
}

#[test]
fn test_exact_ninety_percent_not_scored() {
    // An amount of exactly 90% of the balance does not trigger the
    // relative-amount rule: the comparison is strict.
    let mut engine = FraudRuleEngine::new();
    let signals = RiskSignals {
        balance: Some(100_000),
        device_known: None,
        receiver_count: None,
        anomaly_bonus: None,
    };
    let (score, _) = engine.compute_risk_score(&event(1, 4, 90_000, None), &signals, NOW);
    assert_eq!(score, 0);
    let (score, _) = engine.compute_risk_score(&event(2, 5, 90_001, None), &signals, NOW);
    assert_eq!(score, 30);
}

#[test]
fn test_receiver_concentration_and_anomaly() {
    let mut engine = FraudRuleEngine::new();
    let signals = RiskSignals {
        balance: Some(1_000_000),
        device_known: None,
        receiver_count: Some(4),
        anomaly_bonus: Some(50),
    };
    let (score, reasons) = engine.compute_risk_score(&event(1, 6, 100, None), &signals, NOW);
    assert_eq!(score, 70);
    assert_eq!(
        reasons,
        vec![
            "Multiple payments to same receiver".to_string(),
            "ML model detected anomaly".to_string(),
        ]
    );
    // Exactly 70 is not flagged; one more point would be.
    let alert = engine.handle_event(&event(2, 7, 100, None), &signals, NOW);
    assert!(alert.is_none());
}

#[test]
fn test_anomaly_bonus_is_capped() {
    let mut engine = FraudRuleEngine::new();
    let signals = RiskSignals {
        balance: Some(1_000_000),
        device_known: None,
        receiver_count: None,
        anomaly_bonus: Some(200),
    };
    let (score, _) = engine.compute_risk_score(&event(1, 8, 100, None), &signals, NOW);
    assert_eq!(score, 50);
}

#[test]
fn test_device_rule_needs_fingerprint() {
    // Without a fingerprint on the event, the new-device rule cannot
    // fire even if the directory would answer "unknown".
    let mut engine = FraudRuleEngine::new();
    let signals = RiskSignals {
        balance: Some(1_000_000),
        device_known: Some(false),
        receiver_count: None,
        anomaly_bonus: None,
    };
    let (score, _) = engine.compute_risk_score(&event(1, 9, 100, None), &signals, NOW);
    assert_eq!(score, 0);
    let (score, _) = engine.compute_risk_score(&event(2, 9, 100, Some("fp")), &signals, NOW);
    assert_eq!(score, 20);
}

#[test]
fn test_flag_upsert_is_idempotent() {
    let mut engine = FraudRuleEngine::new();
    assert!(engine.flag_transaction(7, 90, "first".to_string(), NOW));
    // A duplicate attempt is a no-op, not an error.
    assert!(!engine.flag_transaction(7, 95, "second".to_string(), NOW + 1));
    assert_eq!(engine.flag_count(), 1);
}

#[test]
fn test_sweep_drops_stale_counters() {
    let mut engine = FraudRuleEngine::new();
    let sender: u128 = 11;
    for i in 0..6 {
        engine.handle_event(&event(i, sender, 100, None), &quiet_signals(), NOW);
    }
    // Within the window the velocity rule fires ...
    let (score, _) = engine.compute_risk_score(&event(6, sender, 100, None), &quiet_signals(), NOW);
    assert_eq!(score, 40);
    // ... after a sweep past the window the count restarts.
    engine.sweep_counters(NOW + 60);
    let (score, _) = engine.compute_risk_score(
        &event(7, sender, 100, None),
        &quiet_signals(),
        NOW + 60,
    );
    assert_eq!(score, 0);
}

#[test]
fn test_no_signals_scores_zero() {
    let mut engine = FraudRuleEngine::new();
    let signals = RiskSignals {
        balance: None,
        device_known: None,
        receiver_count: None,
        anomaly_bonus: None,
    };
    let (score, reasons) = engine.compute_risk_score(&event(1, 12, 100, None), &signals, NOW);
    assert_eq!(score, 0);
    assert!(reasons.is_empty());
}
