//! Credential derivation: a storable record derived from a plaintext secret.
//!
//! A record holds a fresh random salt, the iteration count, and the key that
//! a standard iterated salted derivation (PBKDF2 with HMAC-SHA256) makes of
//! the secret and the salt. The plaintext secret is never stored or returned;
//! a later authentication attempt re-derives with the stored salt and count
//! and compares in constant time.

use vstd::prelude::*;

verus! {

use vstd::utf8::encode_utf8;

/// The key that PBKDF2 with HMAC-SHA256 derives, at the digest's output
/// size, from a secret, a salt and an iteration count; a function of those
/// three alone.
pub uninterp spec fn pbkdf2_sha256(secret: Seq<u8>, salt: Seq<u8>, iterations: u32) -> Seq<u8>;

/// Output size of the chosen digest, and so of every derived key.
pub const DERIVED_KEY_LEN: usize = 32;

/// Longest secret, in characters, the derivation accepts. Its UTF-8 form is
/// at most four bytes per character, which keeps the secret within the input
/// limit of the underlying digest.
pub const MAX_SECRET_LEN: u64 = 0x400_0000_0000_0000;

/// Longest salt, in bytes, the derivation accepts; within the input limit of
/// the underlying digest.
pub const MAX_SALT_LEN: u64 = 0x1000_0000_0000_0000;

/// A character sequence encodes to at most four UTF-8 bytes per character.
proof fn lemma_encode_utf8_len(chars: Seq<char>)
    ensures
        encode_utf8(chars).len() <= 4 * chars.len(),
    decreases chars.len(),
{
    if chars.len() > 0 {
        lemma_encode_utf8_len(chars.drop_first());
    }
}

/// Relies on ring's `pbkdf2::derive` with `PBKDF2_HMAC_SHA256`: it fills the
/// output, here of the digest's size, with a function of the secret, the
/// salt and the iteration count alone. It accepts every secret and salt the
/// digest's input limit admits; the length bounds stay well inside it.
#[verifier::external_body]
fn pbkdf2_derive(secret: &[u8], salt: &[u8], iterations: u32) -> (r: Vec<u8>)
    requires
        iterations >= 1,
        secret@.len() <= 4 * MAX_SECRET_LEN,
        salt@.len() <= MAX_SALT_LEN,
    ensures
        r@ == pbkdf2_sha256(secret@, salt@, iterations),
        r@.len() == DERIVED_KEY_LEN,
{
    let mut out = [0u8; DERIVED_KEY_LEN];
    ring::pbkdf2::derive(
        ring::pbkdf2::PBKDF2_HMAC_SHA256,
        core::num::NonZeroU32::new(iterations).unwrap(),
        salt,
        secret,
        &mut out,
    );
    out.to_vec()
}

/// Relies on ring's `pbkdf2::verify` with `PBKDF2_HMAC_SHA256`: it succeeds
/// exactly when the previously derived value, here of the digest's size,
/// equals the key derived anew, comparing in constant time.
#[verifier::external_body]
fn pbkdf2_check(secret: &[u8], salt: &[u8], iterations: u32, expected: &[u8]) -> (r: bool)
    requires
        iterations >= 1,
        secret@.len() <= 4 * MAX_SECRET_LEN,
        salt@.len() <= MAX_SALT_LEN,
        expected@.len() == DERIVED_KEY_LEN,
    ensures
        r == (expected@ == pbkdf2_sha256(secret@, salt@, iterations)),
{
    ring::pbkdf2::verify(
        ring::pbkdf2::PBKDF2_HMAC_SHA256,
        core::num::NonZeroU32::new(iterations).unwrap(),
        salt,
        secret,
        expected,
    ).is_ok()
}

/// Relies on ring's `SystemRandom` and `SecureRandom::fill`: on success the
/// buffer holds `len` bytes from the system's cryptographically secure
/// random source; on failure nothing is returned.
#[verifier::external_body]
fn random_bytes(len: usize) -> (r: Option<Vec<u8>>)
    ensures
        r matches Some(v) ==> v@.len() == len,
{
    let mut buf = vec![0u8; len];
    let rng = ring::rand::SystemRandom::new();
    match ring::rand::SecureRandom::fill(&rng, &mut buf) {
        Ok(()) => Some(buf),
        Err(_) => None,
    }
}

/// Failures of credential derivation. Each aborts the one account-creation
/// operation; there is no fallback to a weaker source.
#[derive(Clone, Copy, Debug, PartialEq, Eq, Structural)]
pub enum DerivationError {
    /// The secure random source failed, so no fresh salt could be drawn.
    EntropyFailure,
}

/// What is persisted for an account in place of its secret: the salt, the
/// iteration count, and the derived key. Immutable once created.
pub struct CredentialRecord {
    pub iterations: u32,
    pub salt: Vec<u8>,
    pub derived_key: Vec<u8>,
}

impl CredentialRecord {
    /// Well-formedness: a costly iteration count of at least one, a non-empty
    /// salt, and a derived key of the digest's output size.
    pub open spec fn wf(&self) -> bool {
        &&& self.iterations >= 1
        &&& self.salt@.len() >= 1
        &&& self.salt@.len() <= MAX_SALT_LEN
        &&& self.derived_key@.len() == DERIVED_KEY_LEN
    }

    /// The record's key is what the derivation makes of this secret with the
    /// record's own salt and iteration count.
    pub open spec fn derived_from(&self, secret: Seq<char>) -> bool {
        self.derived_key@ == pbkdf2_sha256(encode_utf8(secret), self.salt@, self.iterations)
    }
}

/// Derives the record for a given salt: deterministic, so re-derivation with
/// the stored salt and count reproduces the key exactly.
pub fn derive_with_salt(secret: &str, salt: Vec<u8>, iterations: u32) -> (rec: CredentialRecord)
    requires
        iterations >= 1,
        secret@.len() <= MAX_SECRET_LEN,
        salt@.len() >= 1,
        salt@.len() <= MAX_SALT_LEN,
    ensures
        rec.wf(),
        rec.iterations == iterations,
        rec.salt == salt,
        rec.derived_from(secret@),
{
    proof {
        lemma_encode_utf8_len(secret@);
    }
    let derived_key = pbkdf2_derive(secret.as_bytes(), salt.as_slice(), iterations);
    CredentialRecord { iterations, salt, derived_key }
}

/// Derives a credential record with a fresh random salt of `salt_len` bytes.
/// Fails only when the secure random source does, and then creates nothing.
pub fn derive(secret: &str, iterations: u32, salt_len: usize) -> (r: Result<
    CredentialRecord,
    DerivationError,
>)
    requires
        iterations >= 1,
        secret@.len() <= MAX_SECRET_LEN,
        salt_len >= 1,
        salt_len <= MAX_SALT_LEN,
    ensures
        r matches Ok(rec) ==> rec.wf() && rec.iterations == iterations && rec.salt@.len()
            == salt_len && rec.derived_from(secret@),
        r matches Err(e) ==> e == DerivationError::EntropyFailure,
{
    match random_bytes(salt_len) {
        None => Err(DerivationError::EntropyFailure),
        Some(salt) => Ok(derive_with_salt(secret, salt, iterations)),
    }
}

/// Checks a later authentication attempt: re-derives with the record's salt
/// and iteration count and compares in constant time. True exactly when the
/// attempted secret derives the stored key.
pub fn verify_credential(secret: &str, rec: &CredentialRecord) -> (r: bool)
    requires
        rec.wf(),
        secret@.len() <= MAX_SECRET_LEN,
    ensures
        r == rec.derived_from(secret@),
{
    proof {
        lemma_encode_utf8_len(secret@);
    }
    pbkdf2_check(secret.as_bytes(), rec.salt.as_slice(), rec.iterations, rec.derived_key.as_slice())
}

/// Derivation determinism: identical secret, salt and iteration count give
/// the identical derived key; records agreeing on salt and count and derived
/// from the same secret hold the same key.
pub proof fn lemma_derivation_deterministic(
    r1: CredentialRecord,
    r2: CredentialRecord,
    secret: Seq<char>,
)
    requires
        r1.derived_from(secret),
        r2.derived_from(secret),
        r1.salt@ == r2.salt@,
        r1.iterations == r2.iterations,
    ensures
        r1.derived_key@ == r2.derived_key@,
{
}

} // verus!
