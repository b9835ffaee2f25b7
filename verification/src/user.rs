//! User profile presentation: tier, spend and cap as shown to the user.

use vstd::prelude::*;
use vstd::string::StringExecFns;
use crate::contact::mask_mobile;
use crate::payment::{tier_cap, tier_cap_value, Tier};

verus! {

/// A user's profile as shown to the user.
pub struct UserProfile {
    pub mobile: String,
    pub kyc_tier: String,
    pub daily_limit_used: i64,
    pub daily_limit_max: i64,
}

/// The name under which a tier is shown.
pub open spec fn tier_name(t: Tier) -> Seq<char> {
    match t {
        Tier::Basic => "basic"@,
        Tier::Full => "full"@,
    }
}

/// Builds the profile of a user from the stored facts: the mobile
/// number is masked, and the daily cap is the cap of the user's tier.
pub fn profile_for(mobile_hash: &str, tier: Tier, amount_used: i64) -> (p: UserProfile)
    ensures
        p.mobile@ == "+91******3210"@,
        p.kyc_tier@ == tier_name(tier),
        p.daily_limit_used == amount_used,
        p.daily_limit_max == tier_cap(tier),
{
    let kyc_tier = match tier {
        Tier::Basic => String::from_str("basic"),
        Tier::Full => String::from_str("full"),
    };
    UserProfile {
        mobile: mask_mobile(mobile_hash),
        kyc_tier,
        daily_limit_used: amount_used,
        daily_limit_max: tier_cap_value(tier),
    }
}

} // verus!
