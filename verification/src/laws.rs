//! Properties that hold of the library as a whole, stated and proved once.
//!
//! Each lemma speaks about a record through the encoder's contract
//! (`encode_ok`) and about a verification result through the verifier's
//! contract (`auth_post`): it takes the record and the result as parameters,
//! assumes only what the contracts guarantee of them, and pins the result
//! down.

use vstd::prelude::*;

use crate::crypto::{base64_std, pbkdf2_sha256_key};
use crate::decimal::{
    dec_rep, is_digit, is_u32_numeral, lemma_dec_rep_digits, lemma_digit_not_special,
    numeral_digits, u32_numeral_value,
};
use crate::split::{
    contains_dollar, lemma_split_at_dollar, lemma_split_four, lemma_split_no_dollar,
    lemma_split_record, split_dollar,
};
use crate::{algorithm_tag, auth_post, encode_ok, encoded_string, resolve_iterations, Error};

verus! {

/// The algorithm tag contains no delimiter.
proof fn lemma_tag_no_dollar()
    ensures
        !contains_dollar(algorithm_tag()),
{
    reveal_strlit("pbkdf2_sha256");
    let t = algorithm_tag();
    assert(t.len() == 13);
    if contains_dollar(t) {
        let i = choose|i: int| 0 <= i < t.len() && #[trigger] t[i] == '$';
        assert(i == 0 || i == 1 || i == 2 || i == 3 || i == 4 || i == 5 || i == 6 || i == 7 || i
            == 8 || i == 9 || i == 10 || i == 11 || i == 12);
        assert(false);
    }
}

/// The decimal representation of a `u32` is a numeral that reads back as the
/// same number, and contains no delimiter.
proof fn lemma_dec_rep_numeral(n: u32)
    ensures
        is_u32_numeral(dec_rep(n as nat)),
        u32_numeral_value(dec_rep(n as nat)) == n,
        !contains_dollar(dec_rep(n as nat)),
{
    lemma_dec_rep_digits(n as nat);
    let d = dec_rep(n as nat);
    assert(is_digit(d[0]));
    lemma_digit_not_special(d[0]);
    assert(numeral_digits(d) == d);
    if contains_dollar(d) {
        let i = choose|i: int| 0 <= i < d.len() && #[trigger] d[i] == '$';
        assert(is_digit(d[i]));
        lemma_digit_not_special(d[i]);
    }
}

/// A canonical record splits into exactly its four fields.
proof fn lemma_encoded_split(
    password: Seq<char>,
    salt: Seq<char>,
    resolved: u32,
    encoded: Seq<char>,
)
    requires
        !contains_dollar(salt),
        encoded == encoded_string(password, salt, resolved),
        !contains_dollar(base64_std(pbkdf2_sha256_key(password, salt, resolved))),
    ensures
        split_dollar(encoded) == seq![
            algorithm_tag(),
            dec_rep(resolved as nat),
            salt,
            base64_std(pbkdf2_sha256_key(password, salt, resolved)),
        ],
{
    lemma_tag_no_dollar();
    lemma_dec_rep_numeral(resolved);
    let digest = base64_std(pbkdf2_sha256_key(password, salt, resolved));
    lemma_split_four(algorithm_tag(), dec_rep(resolved as nat), salt, digest);
}

/// Round trip: a record written by `django_encode_password` authenticates
/// with the same password. `encoded` is a record the encoder returned for
/// `password`, `salt` and a positive iteration count, and `r` is a result
/// the verifier may return for that record and the same password: then `r`
/// is `Ok(true)`.
pub proof fn lemma_round_trip(
    password: Seq<char>,
    salt: Seq<char>,
    iterations: u32,
    encoded: Seq<char>,
    r: Result<bool, Error>,
)
    requires
        !contains_dollar(salt),
        iterations > 0,
        encode_ok(password, salt, iterations, encoded),
        auth_post(password, encoded, r),
    ensures
        r == Result::<bool, Error>::Ok(true),
{
    let resolved = resolve_iterations(iterations);
    assert(resolved == iterations);
    lemma_encoded_split(password, salt, resolved, encoded);
    lemma_dec_rep_numeral(resolved);
    let parts = split_dollar(encoded);
    assert(parts[0] == algorithm_tag());
    assert(parts[1] == dec_rep(resolved as nat));
    assert(parts[2] == salt);
    match r {
        Ok(b) => {
            assert(u32_numeral_value(parts[1]) as u32 == resolved);
            assert(b == (encoded == encoded_string(password, salt, resolved)));
        },
        Err(e) => {
            assert(false);
        },
    }
}

/// Zero asks for the default: the record written for iteration count 0 is
/// the record for 180000, and its iteration field reads back as 180000.
pub proof fn lemma_default_iterations(password: Seq<char>, salt: Seq<char>, encoded: Seq<char>)
    requires
        !contains_dollar(salt),
        encode_ok(password, salt, 0, encoded),
    ensures
        encode_ok(password, salt, 180000, encoded),
        split_dollar(encoded).len() == 4,
        split_dollar(encoded)[1] == dec_rep(180000 as nat),
        u32_numeral_value(split_dollar(encoded)[1]) == 180000,
{
    assert(resolve_iterations(0) == 180000u32);
    lemma_encoded_split(password, salt, 180000u32, encoded);
    lemma_dec_rep_numeral(180000u32);
}

/// A password whose derived digest text differs does not authenticate: the
/// verifier answers `Ok(false)`, never an error. (Pairs of passwords that
/// PBKDF2 maps, under this salt and count, to the same digest text are
/// excluded: for such a pair verification succeeds by re-derivation.)
pub proof fn lemma_wrong_password(
    password: Seq<char>,
    other: Seq<char>,
    salt: Seq<char>,
    iterations: u32,
    encoded: Seq<char>,
    r: Result<bool, Error>,
)
    requires
        !contains_dollar(salt),
        iterations > 0,
        encode_ok(password, salt, iterations, encoded),
        base64_std(pbkdf2_sha256_key(other, salt, iterations)) != base64_std(
            pbkdf2_sha256_key(password, salt, iterations),
        ),
        auth_post(other, encoded, r),
    ensures
        r == Result::<bool, Error>::Ok(false),
{
    let resolved = resolve_iterations(iterations);
    assert(resolved == iterations);
    lemma_encoded_split(password, salt, resolved, encoded);
    lemma_dec_rep_numeral(resolved);
    let parts = split_dollar(encoded);
    assert(parts[0] == algorithm_tag());
    assert(parts[1] == dec_rep(resolved as nat));
    assert(parts[2] == salt);
    let prefix = algorithm_tag() + seq!['$'] + dec_rep(resolved as nat) + seq!['$'] + salt
        + seq!['$'];
    let mine = base64_std(pbkdf2_sha256_key(password, salt, resolved));
    let theirs = base64_std(pbkdf2_sha256_key(other, salt, resolved));
    match r {
        Ok(b) => {
            assert(u32_numeral_value(parts[1]) as u32 == resolved);
            assert(b == (encoded == encoded_string(other, salt, resolved)));
            if encoded == encoded_string(other, salt, resolved) {
                assert(encoded == prefix + mine);
                assert(encoded_string(other, salt, resolved) == prefix + theirs);
                assert(mine =~= (prefix + mine).skip(prefix.len() as int));
                assert(theirs =~= (prefix + theirs).skip(prefix.len() as int));
                assert(false);
            }
        },
        Err(e) => {
            assert(false);
        },
    }
}

/// Changing the last character of a valid record makes authentication answer
/// `Ok(false)`, never an error: whether the new character is an ordinary one
/// or a further `$`, the stored parameters still parse, and the re-derived
/// record no longer matches.
pub proof fn lemma_tampered_digest(
    password: Seq<char>,
    salt: Seq<char>,
    iterations: u32,
    encoded: Seq<char>,
    c: char,
    r: Result<bool, Error>,
)
    requires
        !contains_dollar(salt),
        iterations > 0,
        encode_ok(password, salt, iterations, encoded),
        c != encoded.last(),
        auth_post(password, encoded.update(encoded.len() - 1, c), r),
    ensures
        r == Result::<bool, Error>::Ok(false),
{
    let resolved = resolve_iterations(iterations);
    assert(resolved == iterations);
    lemma_tag_no_dollar();
    lemma_dec_rep_numeral(resolved);
    let digest = base64_std(pbkdf2_sha256_key(password, salt, resolved));
    let prefix = algorithm_tag() + seq!['$'] + dec_rep(resolved as nat) + seq!['$'] + salt
        + seq!['$'];
    assert(encoded == prefix + digest);
    assert(encoded.len() == prefix.len() + 44);
    let tampered = encoded.update(encoded.len() - 1, c);
    let digest2 = digest.update(43, c);
    assert(tampered =~= prefix + digest2);
    assert(tampered =~= algorithm_tag() + seq!['$'] + dec_rep(resolved as nat) + seq!['$'] + salt
        + seq!['$'] + digest2);
    lemma_split_record(algorithm_tag(), dec_rep(resolved as nat), salt, digest2);
    let parts = split_dollar(tampered);
    assert(parts == seq![algorithm_tag(), dec_rep(resolved as nat), salt] + split_dollar(digest2));
    if c == '$' {
        let head = digest.take(43);
        assert(!contains_dollar(head)) by {
            if contains_dollar(head) {
                let i = choose|i: int| 0 <= i < head.len() && #[trigger] head[i] == '$';
                assert(digest[i] == '$');
            }
        }
        assert(digest2 =~= head + seq!['$'] + Seq::<char>::empty());
        lemma_split_at_dollar(head, Seq::empty(), Seq::empty());
        lemma_split_no_dollar(head, Seq::empty());
        assert(Seq::<char>::empty() + head =~= head);
        assert(split_dollar(Seq::<char>::empty()) =~= seq![Seq::<char>::empty()]);
        assert(split_dollar(digest2) =~= seq![head, Seq::<char>::empty()]);
        assert(parts.len() == 5);
    } else {
        assert(!contains_dollar(digest2)) by {
            if contains_dollar(digest2) {
                let i = choose|i: int| 0 <= i < digest2.len() && #[trigger] digest2[i] == '$';
                assert(i == 43 || digest[i] == '$');
            }
        }
        lemma_split_no_dollar(digest2, Seq::empty());
        assert(Seq::<char>::empty() + digest2 =~= digest2);
        assert(parts.len() == 4);
    }
    assert(parts[0] == algorithm_tag());
    assert(parts[1] == dec_rep(resolved as nat));
    assert(parts[2] == salt);
    match r {
        Ok(b) => {
            assert(u32_numeral_value(parts[1]) as u32 == resolved);
            assert(b == (tampered == encoded_string(password, salt, resolved)));
            assert(tampered[encoded.len() - 1] == c);
            assert(encoded[encoded.len() - 1] == encoded.last());
            assert(tampered != encoded);
            assert(b == false);
        },
        Err(e) => {
            assert(false);
        },
    }
}

} // verus!
