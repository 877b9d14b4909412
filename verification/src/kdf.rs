//! Master-key derivation: a memory-hard password hash turns a password and a
//! per-vault salt into a fixed-length symmetric key.

use vstd::prelude::*;

use crate::errors::VaultError;
use crate::models::SALT_LEN;
use crate::secure::SecureBuffer;

verus! {

/// The derived key's length in bytes: a 256-bit cipher key.
pub const KEY_LEN: usize = 32;

/// The longest password, in bytes, the hash backend accepts.
pub const MAX_PASSWORD_LEN: usize = 0xFFFF_FFFF;

/// The 32-byte Argon2id digest of the given password and salt.  Stated only
/// through the contract of the trusted call below; the same inputs always
/// name the same key.
pub uninterp spec fn argon2_key(password: Seq<u8>, salt: Seq<u8>) -> Seq<u8>;

/// Relies on `argon2::Argon2::hash_password_into` (crate `argon2`): Argon2id
/// with the default parameters is a deterministic function of password and
/// salt, and with a password of at most 2^32 - 1 bytes, a salt of 8 bytes or
/// more and a 32-byte output buffer it succeeds.
#[verifier::external_body]
fn argon2_hash(password: &[u8], salt: &[u8]) -> (r: Vec<u8>)
    requires
        password@.len() <= MAX_PASSWORD_LEN,
        8 <= salt@.len() <= 0xFFFF_FFFF,
    ensures
        r@ == argon2_key(password@, salt@),
        r@.len() == KEY_LEN,
{
    let mut out = [0u8; 32];
    argon2::Argon2::default()
        .hash_password_into(password, salt, &mut out)
        .expect("these parameters are within the backend's documented bounds");
    out.to_vec()
}

/// Derives the master key from a password and a salt.
///
/// Succeeds exactly when the salt has the fixed vault width and the password
/// is within the backend's length bound; any other input is rejected with
/// `KeyDerivationError`, never silently degraded.
pub fn derive(password: &[u8], salt: &[u8]) -> (r: Result<SecureBuffer, VaultError>)
    ensures
        match r {
            Ok(k) => password@.len() <= MAX_PASSWORD_LEN && salt@.len() == SALT_LEN && k@
                == argon2_key(password@, salt@) && k@.len() == KEY_LEN,
            Err(e) => e == VaultError::KeyDerivationError && (password@.len() > MAX_PASSWORD_LEN
                || salt@.len() != SALT_LEN),
        },
{
    if salt.len() != SALT_LEN {
        return Err(VaultError::KeyDerivationError);
    }
    if password.len() > MAX_PASSWORD_LEN {
        return Err(VaultError::KeyDerivationError);
    }
    let key = argon2_hash(password, salt);
    Ok(SecureBuffer::from_bytes(key))
}

/// Key derivation is deterministic: two keys derived from the same password
/// and the same salt are bit-identical.
pub proof fn lemma_derive_deterministic(
    k1: Seq<u8>,
    k2: Seq<u8>,
    password: Seq<u8>,
    salt: Seq<u8>,
)
    requires
        k1 == argon2_key(password, salt),
        k2 == argon2_key(password, salt),
    ensures
        k1 == k2,
{
}

} // verus!
