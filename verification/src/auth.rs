//! Request shapes and validation rules of the identity collaborator.
//!
//! Registration and login themselves (OTP delivery, token issuance)
//! live outside the core; the core states only the shapes it shares
//! with that collaborator and the validation rules on them.

use vstd::prelude::*;

verus! {

/// Errors of the identity collaborator's request validation.
#[derive(Clone, Copy, Debug, PartialEq, Eq, Structural)]
pub enum AuthError {
    InvalidOtp,
    OtpExpired,
    UserNotFound,
    DeviceMismatch,
    RateLimited,
    ValidationError,
}

/// A digit character.
pub open spec fn is_digit(c: char) -> bool {
    '0' <= c && c <= '9'
}

/// A well-formed Indian mobile number: `+91` followed by ten digits,
/// the first of them 6 to 9.
pub open spec fn is_valid_mobile(s: Seq<char>) -> bool {
    &&& s.len() == 13
    &&& s[0] == '+'
    &&& s[1] == '9'
    &&& s[2] == '1'
    &&& '6' <= s[3] && s[3] <= '9'
    &&& forall|i: int| 4 <= i < 13 ==> is_digit(#[trigger] s[i])
}

/// A well-formed one-time password: exactly six digits.
pub open spec fn is_valid_otp(s: Seq<char>) -> bool {
    s.len() == 6 && forall|i: int| 0 <= i < 6 ==> is_digit(#[trigger] s[i])
}

/// Only ASCII characters occur in a well-formed mobile number.
proof fn lemma_valid_mobile_ascii(s: Seq<char>)
    requires
        is_valid_mobile(s),
    ensures
        vstd::utf8::is_ascii_chars(s),
{
    assert forall|i: int| 0 <= i < s.len() implies '\0' <= #[trigger] s[i] <= '\u{7f}' by {
        if i >= 4 {
            assert(is_digit(s[i]));
        }
    }
}

/// Only ASCII characters occur in a well-formed one-time password.
proof fn lemma_valid_otp_ascii(s: Seq<char>)
    requires
        is_valid_otp(s),
    ensures
        vstd::utf8::is_ascii_chars(s),
{
    assert forall|i: int| 0 <= i < s.len() implies '\0' <= #[trigger] s[i] <= '\u{7f}' by {
        assert(is_digit(s[i]));
    }
}

/// Checks a string against the mobile-number rule.
pub fn check_mobile(s: &str) -> (r: bool)
    ensures
        r == is_valid_mobile(s@),
{
    if !s.is_ascii() {
        proof {
            if is_valid_mobile(s@) {
                lemma_valid_mobile_ascii(s@);
            }
        }
        return false;
    }
    let n: usize = s.unicode_len();
    if n != 13 {
        return false;
    }
    if s.get_ascii(0) != 43 || s.get_ascii(1) != 57 || s.get_ascii(2) != 49 {
        return false;
    }
    let lead: u8 = s.get_ascii(3);
    if !(54 <= lead && lead <= 57) {
        return false;
    }
    let mut i: usize = 4;
    while i < 13
        invariant
            4 <= i <= 13,
            s@.len() == 13,
            s.is_ascii(),
            forall|j: int| 4 <= j < i ==> is_digit(#[trigger] s@[j]),
        decreases 13 - i,
    {
        let b: u8 = s.get_ascii(i);
        if !(48 <= b && b <= 57) {
            return false;
        }
        i = i + 1;
    }
    true
}

/// Checks a string against the one-time-password rule.
pub fn check_otp(s: &str) -> (r: bool)
    ensures
        r == is_valid_otp(s@),
{
    if !s.is_ascii() {
        proof {
            if is_valid_otp(s@) {
                lemma_valid_otp_ascii(s@);
            }
        }
        return false;
    }
    let n: usize = s.unicode_len();
    if n != 6 {
        return false;
    }
    let mut i: usize = 0;
    while i < 6
        invariant
            i <= 6,
            s@.len() == 6,
            s.is_ascii(),
            forall|j: int| 0 <= j < i ==> is_digit(#[trigger] s@[j]),
        decreases 6 - i,
    {
        let b: u8 = s.get_ascii(i);
        if !(48 <= b && b <= 57) {
            return false;
        }
        i = i + 1;
    }
    true
}

/// Request to register a mobile number.
pub struct RegisterRequest {
    pub mobile: String,
}

impl RegisterRequest {
    /// Accepts the request exactly when the mobile number is
    /// well-formed.
    pub fn validate(&self) -> (r: Result<(), AuthError>)
        ensures
            r is Ok <==> is_valid_mobile(self.mobile@),
            r is Err ==> r == Err::<(), AuthError>(AuthError::ValidationError),
    {
        if check_mobile(self.mobile.as_str()) {
            Ok(())
        } else {
            Err(AuthError::ValidationError)
        }
    }
}

/// Request to verify a one-time password.
pub struct VerifyOtpRequest {
    pub mobile: String,
    pub otp: String,
    pub device_fingerprint: Option<String>,
}

impl VerifyOtpRequest {
    /// Accepts the request exactly when the mobile number and the
    /// one-time password are well-formed.
    pub fn validate(&self) -> (r: Result<(), AuthError>)
        ensures
            r is Ok <==> is_valid_mobile(self.mobile@) && is_valid_otp(self.otp@),
            r is Err ==> r == Err::<(), AuthError>(AuthError::ValidationError),
    {
        if check_mobile(self.mobile.as_str()) && check_otp(self.otp.as_str()) {
            Ok(())
        } else {
            Err(AuthError::ValidationError)
        }
    }
}

/// The claims carried by an access token.
pub struct Claims {
    pub sub: String,
    pub exp: usize,
    pub device_fingerprint: Option<String>,
}

impl Claims {
    /// True when the token has expired at `now` (seconds since the
    /// epoch): the expiry instant itself is already expired.
    pub fn is_expired(&self, now: usize) -> (r: bool)
        ensures
            r == (self.exp <= now),
    {
        self.exp <= now
    }
}

} // verus!
