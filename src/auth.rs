//! Credentials: password hashes, base64 and UTF-8 decoding of basic-auth
//! headers.
use vstd::prelude::*;
use vstd::utf8::{decode_utf8, valid_utf8};
use base64::Engine;

verus! {

/// Whether `password` matches the bcrypt `hash`; a malformed hash matches
/// nothing.
pub uninterp spec fn bcrypt_verifies(password: Seq<char>, hash: Seq<char>) -> bool;

/// The bytes that standard base64 (with padding) decodes `s` to, if it is
/// well formed.
pub uninterp spec fn base64_decoded(s: Seq<char>) -> Option<Seq<u8>>;

/// Relies on `bcrypt::verify`: hashes `password` with the cost and salt
/// stored in `hash` and compares; its error (a malformed hash) counts as a
/// mismatch.
#[verifier::external_body]
pub fn verify_password(password: &str, hash: &str) -> (r: bool)
    ensures
        r == bcrypt_verifies(password@, hash@),
{
    bcrypt::verify(password, hash).unwrap_or(false)
}

/// Relies on `base64::engine::general_purpose::STANDARD.decode`: the
/// decoded bytes, or nothing when `s` is not valid padded base64.
#[verifier::external_body]
pub(crate) fn base64_decode(s: &str) -> (r: Option<Vec<u8>>)
    ensures
        r is Some <==> base64_decoded(s@) is Some,
        r matches Some(b) ==> base64_decoded(s@) == Some(b@),
{
    base64::engine::general_purpose::STANDARD.decode(s).ok()
}

/// Relies on `String::from_utf8`: succeeds exactly on valid UTF-8, and the
/// string holds the decoded characters.
#[verifier::external_body]
pub(crate) fn utf8_string(b: Vec<u8>) -> (r: Option<String>)
    ensures
        r is Some <==> valid_utf8(b@),
        r matches Some(s) ==> s@ == decode_utf8(b@),
{
    String::from_utf8(b).ok()
}

} // verus!
