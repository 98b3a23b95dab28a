//! Django-compatible password hashing and verification.
//!
//! A password is stretched with PBKDF2-HMAC-SHA256 and stored as a
//! `$`-separated text record: the algorithm tag, the decimal iteration
//! count, the salt, and the base64-encoded derived key. Verification
//! re-derives the record from the offered password and the stored
//! parameters and compares the two records for exact equality.

use vstd::prelude::*;

pub mod crypto;
pub mod decimal;
pub mod laws;
pub mod split;

verus! {

/// Why an operation failed.
#[derive(Debug)]
pub enum Error {
    /// The record does not have four `$`-separated fields, or its iteration
    /// field is not a `u32` numeral.
    InvalidEncodedPassword(String),
    /// The record's algorithm field is not `pbkdf2_sha256`.
    UnsupportedAlgorithm(String),
    /// The salt contains the `$` delimiter.
    InvalidSalt(String),
}

/// An iteration count of zero asks for the scheme's default.
pub open spec fn resolve_iterations(iterations: u32) -> u32 {
    if iterations == 0 {
        180000u32
    } else {
        iterations
    }
}

/// The algorithm tag that opens every record this library writes.
pub open spec fn algorithm_tag() -> Seq<char> {
    "pbkdf2_sha256"@
}

/// The record for a password, salt and (already resolved) iteration count:
/// four `$`-separated fields.
pub open spec fn encoded_string(password: Seq<char>, salt: Seq<char>, iterations: u32) -> Seq<
    char,
> {
    algorithm_tag() + seq!['$'] + decimal::dec_rep(iterations as nat) + seq!['$'] + salt
        + seq!['$'] + crypto::base64_std(crypto::pbkdf2_sha256_key(password, salt, iterations))
}

/// Everything a successful `django_encode_password` says of its output: the
/// record is the canonical one, and its digest field is 44 characters of
/// base64 text, free of the `$` delimiter.
pub open spec fn encode_ok(
    password: Seq<char>,
    salt: Seq<char>,
    iterations: u32,
    encoded: Seq<char>,
) -> bool {
    let resolved = resolve_iterations(iterations);
    let digest = crypto::base64_std(crypto::pbkdf2_sha256_key(password, salt, resolved));
    &&& encoded == encoded_string(password, salt, resolved)
    &&& !split::contains_dollar(digest)
    &&& digest.len() == 44
}

/// Everything `django_auth` says of its result for a given password and
/// stored record: which fields the record splits into decides the outcome.
pub open spec fn auth_post(password: Seq<char>, encoded: Seq<char>, r: Result<bool, Error>) -> bool {
    let parts = split::split_dollar(encoded);
    match r {
        Ok(b) => {
            &&& parts.len() >= 4
            &&& parts[0] == algorithm_tag()
            &&& decimal::is_u32_numeral(parts[1])
            &&& b == (encoded == encoded_string(
                password,
                parts[2],
                resolve_iterations(decimal::u32_numeral_value(parts[1]) as u32),
            ))
        },
        Err(e) => match e {
            Error::InvalidEncodedPassword(_) => parts.len() < 4 || (parts[0] == algorithm_tag()
                && !decimal::is_u32_numeral(parts[1])),
            Error::UnsupportedAlgorithm(a) => parts.len() >= 4 && parts[0] != algorithm_tag()
                && a@ == parts[0],
            Error::InvalidSalt(_) => false,
        },
    }
}

/// Encodes `password` for storage: PBKDF2-HMAC-SHA256 under `salt` with the
/// given iteration count (zero asks for the default, 180000), written as
/// `pbkdf2_sha256$<iterations>$<salt>$<digest>`. Fails if and only if the
/// salt contains the `$` delimiter.
pub fn django_encode_password(password: &str, salt: &str, iterations: u32) -> (r: Result<
    String,
    Error,
>)
    ensures
        match r {
            Ok(s) => !split::contains_dollar(salt@) && encode_ok(password@, salt@, iterations, s@),
            Err(e) => split::contains_dollar(salt@) && e matches Error::InvalidSalt(_),
        },
{
    if split::has_dollar(salt) {
        return Err(Error::InvalidSalt("salt contains dollar sign ($)".to_owned()));
    }
    let resolved: u32 = if iterations == 0 {
        180000
    } else {
        iterations
    };
    let key = crypto::derive_key(password, salt, resolved);
    let digest = crypto::base64_encode(&key);
    let mut out = String::new();
    out.append("pbkdf2_sha256");
    out.append("$");
    decimal::push_decimal(resolved, &mut out);
    out.append("$");
    out.append(salt);
    out.append("$");
    out.append(digest.as_str());
    proof {
        reveal_strlit("$");
        assert("$"@ =~= seq!['$']);
        assert(out@ =~= encoded_string(password@, salt@, resolved));
    }
    Ok(out)
}

/// Verifies `password` against a stored record: re-derives the record from
/// the stored algorithm, iteration count and salt, and compares the whole
/// strings. Returns `Ok(true)` on a match and `Ok(false)` on a mismatch;
/// a record with fewer than four fields or a non-numeric iteration field is
/// `InvalidEncodedPassword`, and an algorithm other than `pbkdf2_sha256` is
/// `UnsupportedAlgorithm`.
pub fn django_auth(password: &str, encoded_password: &str) -> (r: Result<bool, Error>)
    ensures
        auth_post(password@, encoded_password@, r),
{
    let parts = split::split_fields(encoded_password);
    if parts.len() < 4 {
        return Err(
            Error::InvalidEncodedPassword(
                "encoded password should have 4 components separated by '$'".to_owned(),
            ),
        );
    }
    let ghost spec_parts = split::split_dollar(encoded_password@);
    proof {
        assert(spec_parts[0] == parts@[0]@);
        assert(spec_parts[1] == parts@[1]@);
        assert(spec_parts[2] == parts@[2]@);
    }
    let algorithm: &String = &parts[0];
    let tag = "pbkdf2_sha256".to_owned();
    if !(*algorithm == tag) {
        return Err(Error::UnsupportedAlgorithm(algorithm.clone()));
    }
    let iterations: u32 = match decimal::parse_u32(parts[1].as_str()) {
        Some(n) => n,
        None => {
            return Err(
                Error::InvalidEncodedPassword("invalid iterations in encoded password".to_owned()),
            );
        },
    };
    let expected = match django_encode_password(password, parts[2].as_str(), iterations) {
        Ok(s) => s,
        Err(e) => {
            // The salt field came out of a split on `$`, so it cannot
            // contain the delimiter and encoding cannot fail.
            proof {
                assert(false);
            }
            return Err(e);
        },
    };
    let given = encoded_password.to_owned();
    Ok(expected == given)
}

} // verus!
