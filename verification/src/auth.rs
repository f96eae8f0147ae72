//! Credentials and session identifiers: the two places the library leans
//! on an outside computation.

use vstd::prelude::*;
use vstd::string::{StringExecFns, StringSliceAdditionalSpecFns};
use vstd::utf8::encode_utf8;

verus! {

/// What the standard padded base64 alphabet makes of a byte sequence; a
/// function of the bytes alone.
pub uninterp spec fn base64_of(s: Seq<u8>) -> Seq<char>;

/// Relies on base64::encode: arbitrary octets encoded with the standard
/// padded alphabet, four characters for every started group of three
/// bytes, a function of the input alone.
#[verifier::external_body]
fn base64_encode(b: &[u8]) -> (r: String)
    requires
        b@.len() <= usize::MAX / 4,
    ensures
        r@ == base64_of(b@),
        r@.len() == 4 * ((b@.len() + 2) / 3),
{
    base64::encode(b)
}

/// The value of a Basic authorization header for the given credentials:
/// the word `Basic`, a space, and the base64 encoding of the UTF-8 bytes
/// of `username:password`.
pub fn basic_auth_value(username: &str, password: &str) -> (r: String)
    requires
        encode_utf8(username@ + ":"@ + password@).len() <= usize::MAX / 4,
    ensures
        r@ == "Basic "@ + base64_of(encode_utf8(username@ + ":"@ + password@)),
{
    let mut creds = String::from_str(username);
    creds.append(":");
    creds.append(password);
    let encoded = base64_encode(creds.as_str().as_bytes());
    let mut r = String::from_str("Basic ");
    r.append(encoded.as_str());
    r
}

/// Relies on uuid::Uuid::new_v4 and its display form: a freshly drawn
/// random identifier, written as thirty-six characters. Nothing relates
/// two calls: every call may give another value.
#[verifier::external_body]
pub(crate) fn session_id() -> (r: String)
    ensures
        r@.len() == 36,
{
    format!("{}", uuid::Uuid::new_v4())
}

} // verus!
