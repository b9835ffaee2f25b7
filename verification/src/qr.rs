//! Payment QR tokens.
//!
//! A user's payment QR code carries the token
//! `payment://user/<identifier>`.  This module defines the token
//! grammar, builds tokens, and reads the identifier back.  Rendering a
//! token as a PNG or SVG image is the business of the image
//! collaborator outside the library.

use vstd::prelude::*;
use vstd::string::{StrSliceExecFns, StringExecFns};
use crate::ids::{is_uuid_text, parse_uuid_text, uuid_text_of, uuid_text_value};

verus! {

/// Number of characters of the token's fixed prefix,
/// `payment://user/`.
pub const QR_PREFIX_LEN: usize = 15;

/// Total number of characters of a well-formed token.
pub const QR_TOKEN_LEN: usize = 51;

/// A well-formed payment QR token: the fixed prefix followed by the
/// canonical 36-character identifier text.
pub open spec fn is_qr_token(s: Seq<char>) -> bool {
    &&& s.len() == QR_TOKEN_LEN
    &&& s.subrange(0, QR_PREFIX_LEN as int) == "payment://user/"@
    &&& is_uuid_text(s.subrange(QR_PREFIX_LEN as int, QR_TOKEN_LEN as int))
}

/// The identifier a QR token carries: the value of its identifier
/// text, or nothing when the token is not well-formed.
pub open spec fn spec_decode_qr(s: Seq<char>) -> Option<u128> {
    if is_qr_token(s) {
        Some((uuid_text_value(s.subrange(QR_PREFIX_LEN as int, QR_TOKEN_LEN as int)) as u128))
    } else {
        None
    }
}

/// Reads the user identifier out of a payment QR token.
pub fn decode_qr_token(s: &str) -> (r: Option<u128>)
    ensures
        r == spec_decode_qr(s@),
{
    let n: usize = s.unicode_len();
    if n != QR_TOKEN_LEN {
        return None;
    }
    let prefix_owned = s.substring_char(0, QR_PREFIX_LEN).to_owned();
    let expected = String::from_str("payment://user/");
    if !expected.eq(&prefix_owned) {
        proof {
            assert(s@.subrange(0, QR_PREFIX_LEN as int) != "payment://user/"@);
        }
        return None;
    }
    let payload = s.substring_char(QR_PREFIX_LEN, QR_TOKEN_LEN);
    match parse_uuid_text(payload) {
        Some(v) => {
            proof {
                assert(is_qr_token(s@));
                assert(uuid_text_value(s@.subrange(QR_PREFIX_LEN as int, QR_TOKEN_LEN as int))
                    == v);
            }
            Some(v)
        },
        None => {
            proof {
                assert(!is_qr_token(s@));
            }
            None
        },
    }
}

/// Issues payment QR tokens for users.
pub struct QrService;

impl QrService {
    /// A token issuer.
    pub fn new() -> (s: Self) {
        QrService
    }

    /// The token to embed in the payment QR code of `user_id`.  The
    /// token is well-formed and decodes back to exactly `user_id`.
    pub fn payment_content(&self, user_id: u128) -> (r: String)
        ensures
            is_qr_token(r@),
            spec_decode_qr(r@) == Some(user_id),
    {
        let mut out = String::from_str("payment://user/");
        let text = uuid_text_of(user_id);
        out.append(text.as_str());
        proof {
            reveal_strlit("payment://user/");
            assert(out@.len() == QR_TOKEN_LEN);
            assert(out@.subrange(0, QR_PREFIX_LEN as int) =~= "payment://user/"@);
            assert(out@.subrange(QR_PREFIX_LEN as int, QR_TOKEN_LEN as int) =~= text@);
        }
        out
    }
}

} // verus!
