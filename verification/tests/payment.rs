//! Payment orchestrator behaviour: conservation, daily caps,
//! idempotent replay and journalling.

use payment_system::payment::{
    PayByPhoneRequest, PayByQrRequest, PaymentError, PaymentService, PaymentStatus, Tier,
};
use payment_system::qr::QrService;
use payment_system::transaction::TransactionKind;
use payment_system::wallet::{CreateWalletRequest, CreditDebitRequest, WalletService};

const NOW: i64 = 1_700_000_000;
const TODAY: i32 = 19_700;

fn funded_service(pairs: &[(u128, u64)]) -> PaymentService {
    let mut wallet = WalletService::new();
    for (user, balance) in pairs {
        wallet.create_wallet(&CreateWalletRequest { user_id: *user }, NOW).unwrap();
        if *balance > 0 {
            let mut remaining = *balance;
            let mut n = 0u32;
            while remaining > 0 {
                let step = remaining.min(500_000);
                wallet
                    .credit(
                        &CreditDebitRequest {
                            user_id: *user,
                            amount: step,
                            idempotency_key: format!("seed_{}_{}", user, n),
                        },
                        NOW,
                    )
                    .unwrap();
                remaining -= step;
                n += 1;
            }
        }
    }
    PaymentService::new(wallet)
}

fn phone_req(amount: u64, key: &str) -> PayByPhoneRequest {
    PayByPhoneRequest {
        to_mobile: "resolved-token".to_string(),
        amount,
        idempotency_key: key.to_string(),
    }
}

#[test]
fn test_pay_by_phone_success() {
    let sender: u128 = 1;
    let receiver: u128 = 2;
    let mut service = funded_service(&[(sender, 50000), (receiver, 0)]);

    let resp = service
        .pay_by_phone(sender, &phone_req(10000, "payment_1"), Some(receiver), TODAY, NOW)
        .unwrap();
    assert_eq!(resp.status, PaymentStatus::Success);
    assert_eq!(resp.amount, 10000);
    assert_eq!(resp.from_user_id, sender);
    assert_eq!(resp.to_user_id, receiver);

    assert_eq!(service.wallet.get_balance(sender).unwrap(), 40000);
    assert_eq!(service.wallet.get_balance(receiver).unwrap(), 10000);
}

#[test]
fn test_payment_conservation_and_journal() {
    // Wallet A balance 500000, wallet B balance 0; pay 10000 ->
    // A=490000, B=10000, one journal row, A's daily counter at 10000.
    let a: u128 = 10;
    let b: u128 = 20;
    let mut service = funded_service(&[(a, 500_000), (b, 0)]);

    let resp = service.pay_by_phone(a, &phone_req(10000, "p1"), Some(b), TODAY, NOW).unwrap();
    assert_eq!(resp.status, PaymentStatus::Success);
    assert_eq!(service.wallet.get_balance(a).unwrap(), 490_000);
    assert_eq!(service.wallet.get_balance(b).unwrap(), 10_000);
    assert_eq!(service.journal_count(), 1);
    let (used, tier) = service.limit_snapshot(a);
    assert_eq!(used, 10_000);
    assert_eq!(tier, Tier::Basic);
}

#[test]
fn test_payment_idempotent_replay() {
    let a: u128 = 3;
    let b: u128 = 4;
    let mut service = funded_service(&[(a, 100_000), (b, 0)]);

    service.pay_by_phone(a, &phone_req(5000, "replay_key"), Some(b), TODAY, NOW).unwrap();
    let err = service
        .pay_by_phone(a, &phone_req(5000, "replay_key"), Some(b), TODAY, NOW + 1)
        .unwrap_err();
    assert!(matches!(err, PaymentError::DuplicateIdempotencyKey));
    assert_eq!(service.wallet.get_balance(a).unwrap(), 95_000);
    assert_eq!(service.wallet.get_balance(b).unwrap(), 5_000);
    assert_eq!(service.journal_count(), 1);
}

#[test]
fn test_payment_fails_with_insufficient_balance() {
    let a: u128 = 5;
    let b: u128 = 6;
    let mut service = funded_service(&[(a, 1_000), (b, 0)]);
    let err = service.pay_by_phone(a, &phone_req(2_000, "k"), Some(b), TODAY, NOW).unwrap_err();
    assert!(matches!(err, PaymentError::InsufficientBalance));
    assert_eq!(service.wallet.get_balance(a).unwrap(), 1_000);
    assert_eq!(service.wallet.get_balance(b).unwrap(), 0);
    assert_eq!(service.journal_count(), 0);
}

#[test]
fn test_daily_limit_blocks_payments() {
    // Basic-tier user with 800000 used today (cap 1,000,000); a
    // payment of 300000 is rejected before any balance mutation.
    let a: u128 = 7;
    let b: u128 = 8;
    let mut service = funded_service(&[(a, 2_000_000), (b, 0)]);

    // Spend 800000 in prior payments today.
    for (i, chunk) in [300_000u64, 300_000, 200_000].iter().enumerate() {
        service
            .pay_by_phone(a, &phone_req(*chunk, &format!("prior_{}", i)), Some(b), TODAY, NOW)
            .unwrap();
    }
    let (used, tier) = service.limit_snapshot(a);
    assert_eq!(used, 800_000);
    assert_eq!(tier, Tier::Basic);

    let err = service
        .pay_by_phone(a, &phone_req(300_000, "over"), Some(b), TODAY, NOW)
        .unwrap_err();
    assert!(matches!(err, PaymentError::DailyLimitExceeded));
    let (used, _) = service.limit_snapshot(a);
    assert_eq!(used, 800_000);
    assert_eq!(service.wallet.get_balance(a).unwrap(), 1_200_000);
    assert_eq!(service.wallet.get_balance(b).unwrap(), 800_000);
}

#[test]
fn test_daily_limit_resets_on_new_day() {
    let a: u128 = 9;
    let b: u128 = 14;
    let mut service = funded_service(&[(a, 3_000_000), (b, 0)]);
    service.pay_by_phone(a, &phone_req(500_000, "d1a"), Some(b), TODAY, NOW).unwrap();
    service.pay_by_phone(a, &phone_req(500_000, "d1b"), Some(b), TODAY, NOW).unwrap();
    let err = service
        .pay_by_phone(a, &phone_req(1, "d1c"), Some(b), TODAY, NOW)
        .unwrap_err();
    assert!(matches!(err, PaymentError::DailyLimitExceeded));

    // The first touch on the next day starts from zero.
    service.pay_by_phone(a, &phone_req(400_000, "d2a"), Some(b), TODAY + 1, NOW).unwrap();
    let (used, _) = service.limit_snapshot(a);
    assert_eq!(used, 400_000);
}

#[test]
fn test_full_tier_cap() {
    let a: u128 = 15;
    let b: u128 = 16;
    let mut service = funded_service(&[(a, 3_000_000), (b, 0)]);
    service.set_kyc_tier_full(a, TODAY);
    for i in 0..4 {
        service
            .pay_by_phone(a, &phone_req(500_000, &format!("f{}", i)), Some(b), TODAY, NOW)
            .unwrap();
    }
    let (used, tier) = service.limit_snapshot(a);
    assert_eq!(used, 2_000_000);
    assert_eq!(tier, Tier::Full);
}

#[test]
fn test_cannot_pay_self_and_unresolved() {
    let a: u128 = 21;
    let mut service = funded_service(&[(a, 10_000)]);
    let err = service.pay_by_phone(a, &phone_req(100, "self"), Some(a), TODAY, NOW).unwrap_err();
    assert!(matches!(err, PaymentError::CannotPaySelf));
    let err = service.pay_by_phone(a, &phone_req(100, "ghost"), None, TODAY, NOW).unwrap_err();
    assert!(matches!(err, PaymentError::UserNotFound));
    let err = service.pay_by_phone(a, &phone_req(0, "zero"), Some(a + 1), TODAY, NOW).unwrap_err();
    assert!(matches!(err, PaymentError::ValidationError));
    assert_eq!(service.journal_count(), 0);
}

#[test]
fn test_pay_by_qr_roundtrip() {
    let a: u128 = 0x1234_5678_9abc_def0_1234_5678_9abc_def0;
    let b: u128 = 0xfedc_ba98_7654_3210_fedc_ba98_7654_3210;
    let mut service = funded_service(&[(a, 30_000), (b, 0)]);
    let qr = QrService::new();
    let token = qr.payment_content(b);
    assert_eq!(token, "payment://user/fedcba98-7654-3210-fedc-ba9876543210");

    let resp = service
        .pay_by_qr(
            a,
            &PayByQrRequest { qr_code: token, amount: 7_000, idempotency_key: "qr1".to_string() },
            TODAY,
            NOW,
        )
        .unwrap();
    assert_eq!(resp.to_user_id, b);
    assert_eq!(service.wallet.get_balance(a).unwrap(), 23_000);
    assert_eq!(service.wallet.get_balance(b).unwrap(), 7_000);
}

#[test]
fn test_pay_by_qr_rejects_bad_token() {
    let a: u128 = 33;
    let mut service = funded_service(&[(a, 10_000)]);
    let err = service
        .pay_by_qr(
            a,
            &PayByQrRequest {
                qr_code: "payment://user/not-a-valid-identifier-text!!".to_string(),
                amount: 100,
                idempotency_key: "qbad".to_string(),
            },
            TODAY,
            NOW,
        )
        .unwrap_err();
    assert!(matches!(err, PaymentError::InvalidQrCode));
    assert_eq!(service.journal_count(), 0);
}

#[test]
fn test_filtered_history() {
    let a: u128 = 41;
    let b: u128 = 42;
    let mut service = funded_service(&[(a, 100_000), (b, 100_000)]);
    service.pay_by_phone(a, &phone_req(1_000, "h1"), Some(b), TODAY, NOW).unwrap();
    service.pay_by_phone(b, &phone_req(2_000, "h2"), Some(a), TODAY, NOW + 1).unwrap();
    service.pay_by_phone(a, &phone_req(3_000, "h3"), Some(b), TODAY, NOW + 2).unwrap();

    let all = service.get_filtered_history(a, 10, 0, None);
    assert_eq!(all.len(), 3);
    // Newest first.
    assert_eq!(all[0].amount, 3_000);
    assert_eq!(all[0].transaction_type, "sent");
    assert_eq!(all[1].amount, 2_000);
    assert_eq!(all[1].transaction_type, "received");
    assert_eq!(all[2].amount, 1_000);

    let sent = service.get_filtered_history(a, 10, 0, Some(TransactionKind::Sent));
    assert_eq!(sent.len(), 2);
    assert_eq!(sent[0].amount, 3_000);
    assert_eq!(sent[1].amount, 1_000);

    let paged = service.get_filtered_history(a, 1, 1, None);
    assert_eq!(paged.len(), 1);
    assert_eq!(paged[0].amount, 2_000);
}

#[test]
fn test_request_validation() {
    assert!(phone_req(1, "k").validate().is_ok());
    assert!(phone_req(500_000, "k").validate().is_ok());
    assert!(matches!(
        phone_req(500_001, "k").validate().unwrap_err(),
        PaymentError::ValidationError
    ));
    let qr_req = PayByQrRequest {
        qr_code: "payment://user/x".to_string(),
        amount: 0,
        idempotency_key: "k".to_string(),
    };
    assert!(matches!(qr_req.validate().unwrap_err(), PaymentError::ValidationError));
}

#[test]
fn test_recipient_without_wallet() {
    let a: u128 = 51;
    let mut service = funded_service(&[(a, 10_000)]);
    // The token resolves, but the resolved user has no wallet yet: the
    // transaction rolls back as a ledger failure, nothing committed.
    let err = service.pay_by_phone(a, &phone_req(100, "nw"), Some(52), TODAY, NOW).unwrap_err();
    assert!(matches!(
        err,
        PaymentError::Wallet(payment_system::wallet::WalletError::WalletNotFound(52))
    ));
    assert_eq!(service.wallet.get_balance(a).unwrap(), 10_000);
    assert_eq!(service.journal_count(), 0);
}

#[test]
fn test_derived_key_shares_ledger_namespace() {
    // The ledger records a payment's debit under "debit_" + key.  A
    // direct wallet debit that already used that derived key makes the
    // payment's own debit a duplicate, and the whole payment rolls
    // back.
    let a: u128 = 53;
    let b: u128 = 54;
    let mut service = funded_service(&[(a, 50_000), (b, 0)]);
    service
        .wallet
        .debit(
            &CreditDebitRequest {
                user_id: a,
                amount: 1_000,
                idempotency_key: "debit_pk".to_string(),
            },
            NOW,
        )
        .unwrap();
    let err = service.pay_by_phone(a, &phone_req(2_000, "pk"), Some(b), TODAY, NOW).unwrap_err();
    assert!(matches!(
        err,
        PaymentError::Wallet(payment_system::wallet::WalletError::DuplicateIdempotencyKey)
    ));
    assert_eq!(service.wallet.get_balance(a).unwrap(), 49_000);
    assert_eq!(service.wallet.get_balance(b).unwrap(), 0);
    assert_eq!(service.journal_count(), 0);
}
