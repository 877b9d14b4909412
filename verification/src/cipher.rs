//! Authenticated encryption: seals and opens a byte payload under a
//! symmetric key.  A sealed payload is nonce ‖ ciphertext ‖ tag, one opaque
//! blob; any single-bit corruption makes opening fail, never silently
//! corrupt.

use vstd::prelude::*;

use crate::errors::VaultError;
use crate::kdf::KEY_LEN;
use crate::secure::{zero_bytes, SecureBuffer};

use aes_gcm::aead::{Aead, KeyInit};

verus! {

/// The nonce width in bytes: 96 bits, fresh for every seal.
pub const NONCE_LEN: usize = 12;

/// The authentication tag width in bytes.
pub const TAG_LEN: usize = 16;

/// The longest payload, in bytes, the cipher accepts: 2^36.
pub const MAX_PLAINTEXT_LEN: u64 = 0x10_0000_0000;

/// The AES-256-GCM ciphertext-with-tag of the given key, nonce and
/// plaintext: a deterministic function of the three.  Stated only through
/// the contracts of the trusted calls below.
pub uninterp spec fn gcm_cipher(key: Seq<u8>, nonce: Seq<u8>, plaintext: Seq<u8>) -> Seq<u8>;

/// What AES-256-GCM decryption of the given key, nonce and
/// ciphertext-with-tag yields: the plaintext, or nothing when the tag does
/// not verify.  A deterministic function of the three.
pub uninterp spec fn gcm_plain(key: Seq<u8>, nonce: Seq<u8>, ciphertext: Seq<u8>) -> Option<
    Seq<u8>,
>;

/// Relies on `aes_gcm::Aes256Gcm` (`KeyInit::new_from_slice` and
/// `Aead::encrypt`): with a 32-byte key, a 12-byte nonce and a plaintext of
/// at most 2^36 bytes, encryption succeeds and returns ciphertext ‖ tag, a
/// deterministic function of key, nonce and plaintext that decryption with
/// the same key and nonce inverts.
#[verifier::external_body]
fn aes_gcm_encrypt(key: &[u8], nonce: &[u8], plaintext: &[u8]) -> (r: Vec<u8>)
    requires
        key@.len() == KEY_LEN,
        nonce@.len() == NONCE_LEN,
        plaintext@.len() <= MAX_PLAINTEXT_LEN,
    ensures
        r@ == gcm_cipher(key@, nonce@, plaintext@),
        r@.len() == plaintext@.len() + TAG_LEN,
        gcm_plain(key@, nonce@, r@) == Some(plaintext@),
{
    let cipher = aes_gcm::Aes256Gcm::new_from_slice(key).expect("the key is 32 bytes");
    cipher
        .encrypt(aes_gcm::Nonce::from_slice(nonce), plaintext)
        .expect("the plaintext is within the cipher's length bound")
}

/// Relies on `aes_gcm::Aes256Gcm` (`KeyInit::new_from_slice` and
/// `Aead::decrypt`): with a 32-byte key and a 12-byte nonce, decryption of
/// ciphertext ‖ tag is a deterministic function of key, nonce and input; it
/// returns the plaintext exactly when the tag verifies, and fails otherwise
/// (in particular on any input shorter than the tag).
#[verifier::external_body]
fn aes_gcm_decrypt(key: &[u8], nonce: &[u8], ciphertext: &[u8]) -> (r: Option<Vec<u8>>)
    requires
        key@.len() == KEY_LEN,
        nonce@.len() == NONCE_LEN,
    ensures
        match r {
            Some(pt) => gcm_plain(key@, nonce@, ciphertext@) == Some(pt@),
            None => gcm_plain(key@, nonce@, ciphertext@) is None,
        },
{
    let cipher = aes_gcm::Aes256Gcm::new_from_slice(key).expect("the key is 32 bytes");
    match cipher.decrypt(aes_gcm::Nonce::from_slice(nonce), ciphertext) {
        Ok(pt) => Some(pt),
        Err(_) => None,
    }
}

/// A sealed payload: the nonce, then ciphertext ‖ tag.
pub open spec fn spec_seal(key: Seq<u8>, nonce: Seq<u8>, plaintext: Seq<u8>) -> Seq<u8> {
    nonce + gcm_cipher(key, nonce, plaintext)
}

/// What opening a sealed payload yields: the nonce prefix is split off and
/// the rest is decrypted under it; nothing comes back when the payload is
/// too short to hold a nonce or the tag does not verify.
pub open spec fn spec_open(key: Seq<u8>, blob: Seq<u8>) -> Option<Seq<u8>> {
    if blob.len() < NONCE_LEN {
        None
    } else {
        gcm_plain(key, blob.subrange(0, NONCE_LEN as int), blob.subrange(
            NONCE_LEN as int,
            blob.len() as int,
        ))
    }
}

/// Seals a payload under a key and a caller-supplied fresh nonce, returning
/// nonce ‖ ciphertext ‖ tag as one blob.  The key buffer is zeroed before
/// the call returns, on success and failure alike.
pub fn seal(plaintext: &[u8], key: &mut SecureBuffer, nonce: &[u8]) -> (r: Result<
    Vec<u8>,
    VaultError,
>)
    requires
        old(key)@.len() == KEY_LEN,
    ensures
        final(key)@ == zero_bytes(KEY_LEN as nat),
        match r {
            Ok(blob) => nonce@.len() == NONCE_LEN && plaintext@.len() <= MAX_PLAINTEXT_LEN && blob@
                == spec_seal(old(key)@, nonce@, plaintext@) && blob@.len() == NONCE_LEN
                + plaintext@.len() + TAG_LEN && spec_open(old(key)@, blob@) == Some(plaintext@),
            Err(e) => e == VaultError::SealError && (nonce@.len() != NONCE_LEN || plaintext@.len()
                > MAX_PLAINTEXT_LEN),
        },
{
    if nonce.len() != NONCE_LEN {
        key.wipe();
        return Err(VaultError::SealError);
    }
    if plaintext.len() as u64 > MAX_PLAINTEXT_LEN {
        key.wipe();
        return Err(VaultError::SealError);
    }
    let ct = aes_gcm_encrypt(key.as_slice(), nonce, plaintext);
    key.wipe();
    let mut blob: Vec<u8> = Vec::new();
    crate::byteops::append_bytes(&mut blob, nonce);
    crate::byteops::append_bytes(&mut blob, ct.as_slice());
    proof {
        assert(blob@ =~= nonce@ + ct@);
        assert(blob@.subrange(0, NONCE_LEN as int) =~= nonce@);
        assert(blob@.subrange(NONCE_LEN as int, blob@.len() as int) =~= ct@);
    }
    Ok(blob)
}

/// Opens a sealed payload: splits the nonce prefix, decrypts, verifies the
/// tag.  Fails with `AuthError` on any tampering or wrong key — a payload
/// too short to hold a nonce is reported the same way, so the error carries
/// no oracle.  The key buffer is zeroed before the call returns, on success
/// and failure alike.
pub fn open(blob: &[u8], key: &mut SecureBuffer) -> (r: Result<Vec<u8>, VaultError>)
    requires
        old(key)@.len() == KEY_LEN,
    ensures
        final(key)@ == zero_bytes(KEY_LEN as nat),
        match r {
            Ok(pt) => spec_open(old(key)@, blob@) == Some(pt@),
            Err(e) => e == VaultError::AuthError && spec_open(old(key)@, blob@) is None,
        },
{
    if blob.len() < NONCE_LEN {
        key.wipe();
        return Err(VaultError::AuthError);
    }
    let nonce = vstd::slice::slice_subrange(blob, 0, NONCE_LEN);
    let ct = vstd::slice::slice_subrange(blob, NONCE_LEN, blob.len());
    let r = aes_gcm_decrypt(key.as_slice(), nonce, ct);
    key.wipe();
    match r {
        Some(pt) => Ok(pt),
        None => Err(VaultError::AuthError),
    }
}

} // verus!
