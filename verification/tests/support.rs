//! Supporting pieces: identifier text, QR tokens, hashing, masking,
//! validation rules, profiles, KYC and bank views, feature flags.

use payment_system::auth::{AuthError, Claims, RegisterRequest, VerifyOtpRequest};
use payment_system::bank::bank_balance_view;
use payment_system::contact::{mask_contacts, mask_mobile, Contact};
use payment_system::crypto::hash_mobile;
use payment_system::flags::FeatureFlags;
use payment_system::fraud::fraud_event_for;
use payment_system::ids::{parse_uuid_text, uuid_text_of};
use payment_system::kyc::{kyc_decision, KycVerifyRequest};
use payment_system::payment::{PaymentResponse, PaymentStatus};
use payment_system::qr::{decode_qr_token, QrService};
use payment_system::user::{profile_for, UserProfile};
use payment_system::payment::Tier;

#[test]
fn test_uuid_text_roundtrip() {
    let v: u128 = 0x550e8400_e29b_41d4_a716_446655440000;
    let text = uuid_text_of(v);
    assert_eq!(text, "550e8400-e29b-41d4-a716-446655440000");
    assert_eq!(parse_uuid_text(&text), Some(v));
    assert_eq!(parse_uuid_text("550E8400-E29B-41D4-A716-446655440000"), Some(v));
    assert_eq!(uuid_text_of(0), "00000000-0000-0000-0000-000000000000");
    assert_eq!(parse_uuid_text(&uuid_text_of(u128::MAX)), Some(u128::MAX));
}

#[test]
fn test_uuid_text_rejects_malformed() {
    assert_eq!(parse_uuid_text(""), None);
    assert_eq!(parse_uuid_text("550e8400e29b41d4a716446655440000"), None);
    assert_eq!(parse_uuid_text("550e8400-e29b-41d4-a716-44665544000g"), None);
    assert_eq!(parse_uuid_text("550e8400-e29b-41d4-a716_446655440000"), None);
    assert_eq!(parse_uuid_text("550e8400-e29b-41d4-a716-4466554400000"), None);
}

#[test]
fn test_qr_token_roundtrip() {
    let qr = QrService::new();
    let id: u128 = 0xdead_beef_0000_0000_0000_0000_0000_0042;
    let token = qr.payment_content(id);
    assert_eq!(decode_qr_token(&token), Some(id));
    assert_eq!(decode_qr_token("payment://user/"), None);
    assert_eq!(decode_qr_token("payment://shop/00000000-0000-0000-0000-000000000000"), None);
    assert_eq!(decode_qr_token("payment://user/00000000-0000-0000-0000-00000000000"), None);
}

#[test]
fn test_hash_mobile_known_vector() {
    let hashed = hash_mobile("+919876543210", "otp_secret");
    assert_eq!(hashed, "ce4cf01c3a33eb919588aa7543f9fa08d88d605888d261eaf84e9b1e6f03178c");
    assert_eq!(hashed.len(), 64);
    // Different inputs give different tokens.
    assert_ne!(hash_mobile("+919876543211", "otp_secret"), hashed);
    assert_ne!(hash_mobile("+919876543210", "other_secret"), hashed);
}

#[test]
fn test_mask_mobile_fixed() {
    assert_eq!(mask_mobile("whatever"), "+91******3210");
}

#[test]
fn test_mask_contacts_keeps_order() {
    let contacts = vec![
        Contact { user_id: 1, name: "A".to_string(), mobile: "hash-a".to_string() },
        Contact { user_id: 2, name: "B".to_string(), mobile: "hash-b".to_string() },
    ];
    let masked = mask_contacts(&contacts);
    assert_eq!(masked.len(), 2);
    assert_eq!(masked[0].user_id, 1);
    assert_eq!(masked[0].name, "A");
    assert_eq!(masked[0].mobile, "+91******3210");
    assert_eq!(masked[1].user_id, 2);
    assert_eq!(masked[1].mobile, "+91******3210");
}

#[test]
fn test_register_request_validation() {
    let ok = RegisterRequest { mobile: "+919876543210".to_string() };
    assert!(ok.validate().is_ok());
    for bad in ["", "+919876", "9876543210123", "+915876543210", "+91987654321a"] {
        let req = RegisterRequest { mobile: bad.to_string() };
        assert!(matches!(req.validate().unwrap_err(), AuthError::ValidationError));
    }
}

#[test]
fn test_verify_otp_request_validation() {
    let ok = VerifyOtpRequest {
        mobile: "+919876543210".to_string(),
        otp: "123456".to_string(),
        device_fingerprint: None,
    };
    assert!(ok.validate().is_ok());
    let bad_otp = VerifyOtpRequest {
        mobile: "+919876543210".to_string(),
        otp: "12345".to_string(),
        device_fingerprint: None,
    };
    assert!(bad_otp.validate().is_err());
    let letters = VerifyOtpRequest {
        mobile: "+919876543210".to_string(),
        otp: "12345a".to_string(),
        device_fingerprint: None,
    };
    assert!(letters.validate().is_err());
}

#[test]
fn test_claims_expiry() {
    let claims = Claims { sub: "user".to_string(), exp: 1_000, device_fingerprint: None };
    assert!(!claims.is_expired(999));
    assert!(claims.is_expired(1_000));
    assert!(claims.is_expired(1_001));
}

#[test]
fn test_profile_for() {
    let p: UserProfile = profile_for("some-hash", Tier::Basic, 2_500);
    assert_eq!(p.mobile, "+91******3210");
    assert_eq!(p.kyc_tier, "basic");
    assert_eq!(p.daily_limit_used, 2_500);
    assert_eq!(p.daily_limit_max, 1_000_000);
    let p = profile_for("some-hash", Tier::Full, 0);
    assert_eq!(p.kyc_tier, "full");
    assert_eq!(p.daily_limit_max, 10_000_000);
}

#[test]
fn test_kyc_decision() {
    let approve = KycVerifyRequest {
        user_id: 1,
        pan: Some("ABCDE1234F".to_string()),
        aadhaar: None,
        name: "Asha".to_string(),
        dob: "1990-01-01".to_string(),
    };
    let r = kyc_decision(&approve);
    assert_eq!(r.status, "approved");
    assert_eq!(r.kyc_tier, "full");
    assert_eq!(r.message, "KYC verified successfully");

    let reject = KycVerifyRequest {
        user_id: 2,
        pan: Some("REJECT_ME".to_string()),
        aadhaar: None,
        name: "Test".to_string(),
        dob: "1990-01-01".to_string(),
    };
    let r = kyc_decision(&reject);
    assert_eq!(r.status, "rejected");
    assert_eq!(r.kyc_tier, "basic");
}

#[test]
fn test_bank_balance_view() {
    let r = bank_balance_view("1234567890");
    assert_eq!(r.account_number, "XXXXXX7890");
    assert_eq!(r.balance, 5_000_000);
    let low = bank_balance_view("LOW_BALANCE");
    assert_eq!(low.account_number, "XXXXXXANCE");
    assert_eq!(low.balance, 50_000);
}

#[test]
fn test_feature_flags() {
    let mut flags = FeatureFlags::new();
    let name = "new_payment_flow".to_string();
    assert!(!flags.is_enabled(&name));
    flags.enable(&name);
    assert!(flags.is_enabled(&name));
    assert!(!flags.is_enabled(&"enhanced_fraud_detection".to_string()));
    flags.disable(&name);
    assert!(!flags.is_enabled(&name));
    // An unknown feature is off, and can be switched on.
    let other = "brand_new".to_string();
    assert!(!flags.is_enabled(&other));
    flags.enable(&other);
    assert!(flags.is_enabled(&other));
}

#[test]
fn test_fraud_event_from_response() {
    let resp = PaymentResponse {
        tx_id: 42,
        from_user_id: 1,
        to_user_id: 2,
        amount: 500,
        status: PaymentStatus::Success,
        timestamp: 1_700_000_000,
    };
    let event = fraud_event_for(&resp, Some("fp".to_string()), None);
    assert_eq!(event.tx_id, 42);
    assert_eq!(event.from_user_id, 1);
    assert_eq!(event.to_user_id, 2);
    assert_eq!(event.amount, 500);
    assert_eq!(event.device_fingerprint.as_deref(), Some("fp"));
    assert_eq!(event.ip_address, None);
    assert_eq!(event.timestamp, 1_700_000_000);
}
