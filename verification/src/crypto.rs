//! Calls into the cryptographic crates, each behind a contract.
//!
//! Results that no short statement can pin down are given names:
//! `bcrypt_matches`, `totp_accepts` and `sig_valid` stand for what the
//! respective checks return, as functions of their arguments alone.

use vstd::prelude::*;

verus! {

/// Whether `bcrypt::verify(password, hash)` returns `Ok(true)`:
/// a function of the password and the hash string alone.
pub uninterp spec fn bcrypt_matches(password: Seq<char>, hash: Seq<char>) -> bool;

/// Whether a six-digit, 30-second-step, one-step-skew TOTP code derived
/// from `secret` is accepted at `time`: a function of the three alone.
pub uninterp spec fn totp_accepts(secret: Seq<char>, code: Seq<char>, time: u64) -> bool;

/// Whether `signature` is a valid ES256 signature of `message` under the
/// public key read from `public_pem`: a function of the three alone;
/// false whenever the key or the signature cannot be parsed.
pub uninterp spec fn sig_valid(public_pem: Seq<u8>, message: Seq<char>, signature: Seq<char>) -> bool;

/// Relies on `bcrypt::hash` with cost 10: the returned salted hash
/// verifies against the password it was computed from. The call fails
/// only when the operating system's randomness source does, which
/// nothing here can recover from; that fault aborts, as it does in the
/// rest of the system.
#[verifier::external_body]
pub(crate) fn bcrypt_hash(password: &str) -> (r: String)
    ensures
        bcrypt_matches(password@, r@),
{
    bcrypt::hash(password, 10).expect("the randomness source failed")
}

/// Relies on `bcrypt::verify`: deterministic in the password and the
/// hash string; a malformed hash counts as a mismatch.
#[verifier::external_body]
pub(crate) fn bcrypt_check(password: &str, hash: &str) -> (r: bool)
    ensures
        r == bcrypt_matches(password@, hash@),
{
    bcrypt::verify(password, hash).unwrap_or(false)
}

/// Relies on `totp_rs::Secret::generate_secret`: 20 random bytes,
/// written out as 40 hexadecimal characters.
#[verifier::external_body]
pub(crate) fn totp_generate_secret() -> (r: String)
    ensures
        r@.len() == 40,
{
    totp_rs::Secret::generate_secret().to_string()
}

/// Relies on `totp_rs::TOTP::check` with SHA-1, 6 digits, skew 1 and a
/// 30-second step, fed the secret string's bytes: deterministic in the
/// secret, the code and the time; an unusable secret accepts nothing.
/// The bounds on `time` keep the crate's step arithmetic inside `u64`,
/// where it would otherwise panic.
#[verifier::external_body]
pub(crate) fn totp_check(secret: &str, code: &str, time: u64) -> (r: bool)
    requires
        30 <= time <= u64::MAX - 30,
    ensures
        r == totp_accepts(secret@, code@, time),
{
    match totp_rs::TOTP::new(totp_rs::Algorithm::SHA1, 6, 1, 30, secret.as_bytes().to_vec()) {
        Ok(t) => t.check(code, time),
        Err(_) => false,
    }
}

/// Relies on `chrono::Utc::now`: the clock's reading in milliseconds
/// since the epoch. Nothing is promised of it.
#[verifier::external_body]
pub(crate) fn now_millis() -> (r: i64) {
    chrono::Utc::now().timestamp_millis()
}

/// Relies on `uuid::Uuid::new_v4`: the hyphenated form of a version-4
/// identifier is 36 characters.
#[verifier::external_body]
pub(crate) fn fresh_uuid() -> (r: String)
    ensures
        r@.len() == 36,
{
    uuid::Uuid::new_v4().to_string()
}

/// Relies on `jsonwebtoken::crypto::sign` with ES256: the signature
/// comes back base64url-encoded (letters, digits, `-` and `_`), so it
/// never contains a dot. Fails when the key material cannot be read.
#[verifier::external_body]
pub(crate) fn es256_sign(private_pem: &Vec<u8>, message: &str) -> (r: Option<String>)
    ensures
        r matches Some(sig) ==> forall|i: int| 0 <= i < sig@.len() ==> sig@[i] != '.',
{
    let key = match jsonwebtoken::EncodingKey::from_ec_pem(private_pem) {
        Ok(k) => k,
        Err(_) => return None,
    };
    match jsonwebtoken::crypto::sign(message.as_bytes(), &key, jsonwebtoken::Algorithm::ES256) {
        Ok(sig) => Some(sig),
        Err(_) => None,
    }
}

/// Relies on `jsonwebtoken::crypto::verify` with ES256: deterministic
/// in the public key bytes, the message and the signature; an unreadable
/// key or signature verifies as false.
#[verifier::external_body]
pub(crate) fn es256_verify(public_pem: &Vec<u8>, message: &str, signature: &str) -> (r: bool)
    ensures
        r == sig_valid(public_pem@, message@, signature@),
{
    let key = match jsonwebtoken::DecodingKey::from_ec_pem(public_pem) {
        Ok(k) => k,
        Err(_) => return false,
    };
    jsonwebtoken::crypto::verify(signature, message.as_bytes(), &key, jsonwebtoken::Algorithm::ES256)
        .unwrap_or(false)
}

} // verus!
