//! Keyed hashing of mobile numbers.
//!
//! The core never stores or validates a raw phone number: callers
//! derive a one-way token from it with [`hash_mobile`] and the token is
//! what travels through the system.

use vstd::prelude::*;
use hmac::{Hmac, KeyInit, Mac};
use sha2::Sha256;

verus! {

/// The HMAC-SHA-256 digest of `message` under `key`, printed as
/// lower-case hexadecimal text.  A function of the two strings alone.
pub uninterp spec fn hmac_sha256_hex(message: Seq<char>, key: Seq<char>) -> Seq<char>;

/// Relies on `hmac`'s `Hmac::<Sha256>` (HMAC accepts keys of any
/// length, so construction cannot fail) and on `hex::encode` (two
/// lower-case digits per byte of the 32-byte digest): the phone-derived
/// token of a mobile number.
#[verifier::external_body]
pub fn hash_mobile(mobile: &str, secret: &str) -> (r: String)
    ensures
        r@ == hmac_sha256_hex(mobile@, secret@),
        r@.len() == 64,
{
    let mut mac = <Hmac<Sha256> as KeyInit>::new_from_slice(secret.as_bytes())
        .expect("HMAC accepts keys of any length");
    mac.update(mobile.as_bytes());
    hex::encode(mac.finalize().into_bytes())
}

} // verus!
