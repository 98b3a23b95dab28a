//! The two outside primitives the scheme rests on: PBKDF2-HMAC-SHA256 and
//! standard base64. Each call is wrapped once; its result is named, since
//! both are functions of their arguments alone.

use vstd::prelude::*;

use crate::split::contains_dollar;
use base64::Engine;
use base64::prelude::BASE64_STANDARD;
use pbkdf2::pbkdf2_hmac_array;
use sha2::Sha256;

verus! {

/// The 32-byte key that PBKDF2-HMAC-SHA256 derives from a password and a
/// salt (each taken as its UTF-8 bytes) with the given iteration count.
pub uninterp spec fn pbkdf2_sha256_key(password: Seq<char>, salt: Seq<char>, iterations: u32) -> Seq<
    u8,
>;

/// The standard, padded base64 text for a byte sequence.
pub uninterp spec fn base64_std(bytes: Seq<u8>) -> Seq<char>;

/// Relies on pbkdf2::pbkdf2_hmac_array with sha2::Sha256: it returns exactly
/// the 32 bytes asked for, and the key is a function of the password bytes,
/// the salt bytes and the iteration count alone.
#[verifier::external_body]
pub(crate) fn derive_key(password: &str, salt: &str, iterations: u32) -> (r: Vec<u8>)
    ensures
        r@ == pbkdf2_sha256_key(password@, salt@, iterations),
        r@.len() == 32,
{
    pbkdf2_hmac_array::<Sha256, 32>(password.as_bytes(), salt.as_bytes(), iterations).to_vec()
}

/// Relies on base64::Engine::encode with the BASE64_STANDARD engine: the
/// output is a function of the input bytes alone, four characters for every
/// three input bytes (padded with `=`), all drawn from the RFC 4648 standard
/// alphabet (`A`-`Z`, `a`-`z`, `0`-`9`, `+`, `/`) or `=` - so never `$`.
#[verifier::external_body]
pub(crate) fn base64_encode(bytes: &Vec<u8>) -> (r: String)
    ensures
        r@ == base64_std(bytes@),
        r@.len() == 4 * ((bytes@.len() + 2) / 3),
        !contains_dollar(r@),
{
    BASE64_STANDARD.encode(bytes.as_slice())
}

} // verus!
