//! Decision rule of the KYC verification simulator.
//!
//! The simulator's storage writes live outside the core; the decision
//! that a submission is approved or rejected is stated here.

use vstd::prelude::*;
use vstd::string::StringExecFns;

verus! {

/// A KYC submission.
pub struct KycVerifyRequest {
    pub user_id: u128,
    pub pan: Option<String>,
    pub aadhaar: Option<String>,
    pub name: String,
    pub dob: String,
}

/// The stored outcome of a verification.
pub struct KycVerification {
    pub user_id: u128,
    pub status: String,
    pub reason: Option<String>,
}

/// The answer handed back to the submitter.
pub struct KycVerifyResponse {
    pub status: String,
    pub kyc_tier: String,
    pub message: String,
}

/// True when the submission carries the sentinel PAN that forces a
/// rejection (used to exercise the rejected path).
pub open spec fn kyc_rejects(pan: Option<String>) -> bool {
    match pan {
        Some(p) => p@ == "REJECT_ME"@,
        None => false,
    }
}

/// The simulator's decision: the sentinel PAN is rejected and stays on
/// the basic tier; everything else is approved onto the full tier.
pub fn kyc_decision(req: &KycVerifyRequest) -> (r: KycVerifyResponse)
    ensures
        kyc_rejects(req.pan) ==> r.status@ == "rejected"@ && r.kyc_tier@ == "basic"@
            && r.message@ == "KYC rejected for testing"@,
        !kyc_rejects(req.pan) ==> r.status@ == "approved"@ && r.kyc_tier@ == "full"@
            && r.message@ == "KYC verified successfully"@,
{
    let rejected: bool = match &req.pan {
        Some(p) => p.eq(&String::from_str("REJECT_ME")),
        None => false,
    };
    if rejected {
        KycVerifyResponse {
            status: String::from_str("rejected"),
            kyc_tier: String::from_str("basic"),
            message: String::from_str("KYC rejected for testing"),
        }
    } else {
        KycVerifyResponse {
            status: String::from_str("approved"),
            kyc_tier: String::from_str("full"),
            message: String::from_str("KYC verified successfully"),
        }
    }
}

} // verus!
