//! The vault engine: two operations, `seal_vault` and `open_vault`, that
//! turn a vault into container bytes and back.  Saving serializes the vault
//! to its canonical byte form, derives the master key from the password and
//! the vault's stored salt, seals the payload under a fresh nonce, and
//! frames salt and sealed payload as one container; opening runs the same
//! pipeline in reverse.  The caller persists the container bytes; no file
//! handling happens here.

use vstd::prelude::*;

use vstd::string::StringSliceAdditionalSpecFns;

use crate::cipher;
use crate::cipher::{spec_open, spec_seal, MAX_PLAINTEXT_LEN, NONCE_LEN};
use crate::container::{decode_container, encode_container, spec_encode_container};
use crate::errors::VaultError;
use crate::kdf::{argon2_key, MAX_PASSWORD_LEN};
use crate::models::{Vault, VaultView, SALT_LEN};
use crate::random::os_random_bytes;
use crate::wire::{
    decode_payload, encode_payload, entries_ok, lemma_payload_round_trip, spec_dec_payload,
    spec_enc_payload,
};

verus! {

/// What opening a container under a password yields.  A deterministic
/// function of the password bytes and the container bytes: the exec
/// `open_vault` returns exactly this.
pub open spec fn spec_open_vault(password: Seq<u8>, bytes: Seq<u8>) -> Result<
    VaultView,
    VaultError,
> {
    if bytes.len() < SALT_LEN {
        Err(VaultError::FormatError)
    } else {
        let salt = bytes.subrange(0, SALT_LEN as int);
        let sealed = bytes.subrange(SALT_LEN as int, bytes.len() as int);
        if password.len() > MAX_PASSWORD_LEN {
            Err(VaultError::KeyDerivationError)
        } else {
            match spec_open(argon2_key(password, salt), sealed) {
                None => Err(VaultError::AuthError),
                Some(pt) => match spec_dec_payload(pt) {
                    None => Err(VaultError::DeserializationError),
                    Some(es) => Ok(VaultView { e: es, s: salt }),
                },
            }
        }
    }
}

/// The container that sealing a vault under a password and a given nonce
/// produces: the vault's salt, then the canonical payload sealed under the
/// key derived from password and salt.
pub open spec fn spec_seal_vault(password: Seq<u8>, v: VaultView, nonce: Seq<u8>) -> Seq<u8> {
    spec_encode_container(v.s, spec_seal(argon2_key(password, v.s), nonce, spec_enc_payload(v.e)))
}

/// Seals a vault under a password with a caller-supplied fresh nonce.
///
/// Succeeds exactly when the nonce has the cipher's width, the password is
/// within the hash backend's bound and the serialized vault is within the
/// cipher's length bound; the master key lives only inside this call and
/// is zeroed before it returns.  The container's first bytes are the
/// vault's stored salt, unchanged, and opening the container with the same
/// password gives the vault back.
pub fn seal_vault_with_nonce(vault: &Vault, password: &str, nonce: &[u8]) -> (r: Result<
    Vec<u8>,
    VaultError,
>)
    requires
        vault@.wf(),
    ensures
        match r {
            Ok(c) => nonce@.len() == NONCE_LEN && password.spec_bytes().len() <= MAX_PASSWORD_LEN
                && spec_enc_payload(vault@.e).len() <= MAX_PLAINTEXT_LEN && c@
                == spec_seal_vault(password.spec_bytes(), vault@, nonce@) && c@.len() >= SALT_LEN
                && c@.subrange(0, SALT_LEN as int) == vault@.s && spec_open_vault(
                password.spec_bytes(),
                c@,
            ) == Ok::<VaultView, VaultError>(vault@),
            Err(e) => if password.spec_bytes().len() > MAX_PASSWORD_LEN {
                e == VaultError::KeyDerivationError
            } else {
                e == VaultError::SealError && (nonce@.len() != NONCE_LEN || spec_enc_payload(
                    vault@.e,
                ).len() > MAX_PLAINTEXT_LEN)
            },
        },
{
    let payload = encode_payload(&vault.e);
    let mut key = match crate::kdf::derive(password.as_bytes(), vault.s.as_slice()) {
        Ok(k) => k,
        Err(e) => {
            return Err(e);
        },
    };
    let sealed = match cipher::seal(payload.as_slice(), &mut key, nonce) {
        Ok(b) => b,
        Err(e) => {
            return Err(e);
        },
    };
    let c = encode_container(vault.s.as_slice(), sealed.as_slice());
    proof {
        let pw = password.spec_bytes();
        let k = argon2_key(pw, vault@.s);
        assert(c@.subrange(0, SALT_LEN as int) =~= vault@.s);
        assert(c@.subrange(SALT_LEN as int, c@.len() as int) =~= sealed@);
        lemma_payload_round_trip(vault@.e);
        assert(spec_open_vault(pw, c@) == Ok::<VaultView, VaultError>(
            VaultView { e: vault@.e, s: vault@.s },
        ));
        assert(VaultView { e: vault@.e, s: vault@.s } == vault@);
    }
    Ok(c)
}

/// Seals a vault under a password with a fresh random nonce.
///
/// A fresh nonce is drawn from the operating system for every call — nonce
/// reuse under one key would break confidentiality — so two containers
/// sealed from the same vault and password differ, yet both open.  The
/// result is pinned down only up to the nonce: whatever was drawn, opening
/// the container with the same password gives the vault back.
pub fn seal_vault(vault: &Vault, password: &str) -> (r: Result<Vec<u8>, VaultError>)
    requires
        vault@.wf(),
    ensures
        match r {
            Ok(c) => password.spec_bytes().len() <= MAX_PASSWORD_LEN && spec_enc_payload(
                vault@.e,
            ).len() <= MAX_PLAINTEXT_LEN && c@.len() >= SALT_LEN && c@.subrange(0, SALT_LEN as int)
                == vault@.s && (exists|nonce: Seq<u8>|
                c@ == spec_seal_vault(password.spec_bytes(), vault@, nonce)) && spec_open_vault(
                password.spec_bytes(),
                c@,
            ) == Ok::<VaultView, VaultError>(vault@),
            Err(e) => (e == VaultError::KeyDerivationError && password.spec_bytes().len()
                > MAX_PASSWORD_LEN) || e == VaultError::SealError,
        },
{
    let nonce = match os_random_bytes(NONCE_LEN) {
        Some(n) => n,
        None => {
            return Err(VaultError::SealError);
        },
    };
    let r = seal_vault_with_nonce(vault, password, nonce.as_slice());
    proof {
        if r is Ok {
            let c = r->Ok_0;
            assert(c@ == spec_seal_vault(password.spec_bytes(), vault@, nonce@));
        }
    }
    r
}

/// Opens a container under a password: splits off the salt, derives the
/// key, opens the sealed payload, deserializes the plaintext.
///
/// Returns exactly what `spec_open_vault` says: `FormatError` when the
/// container cannot even hold a salt, `KeyDerivationError` when the hash
/// backend rejects the password, `AuthError` on any tag mismatch — wrong
/// password and tampered data are indistinguishable by design — and
/// `DeserializationError` when correctly decrypted bytes are not a valid
/// vault.  The master key lives only inside this call and is zeroed before
/// it returns.
pub fn open_vault(bytes: &[u8], password: &str) -> (r: Result<Vault, VaultError>)
    ensures
        match r {
            Ok(v) => spec_open_vault(password.spec_bytes(), bytes@) == Ok::<
                VaultView,
                VaultError,
            >(v@) && v@.wf(),
            Err(e) => spec_open_vault(password.spec_bytes(), bytes@) == Err::<
                VaultView,
                VaultError,
            >(e),
        },
{
    let (salt, sealed) = match decode_container(bytes) {
        Ok(p) => p,
        Err(e) => {
            return Err(e);
        },
    };
    let mut key = match crate::kdf::derive(password.as_bytes(), salt.as_slice()) {
        Ok(k) => k,
        Err(e) => {
            return Err(e);
        },
    };
    let plaintext = match cipher::open(sealed.as_slice(), &mut key) {
        Ok(p) => p,
        Err(e) => {
            return Err(e);
        },
    };
    match decode_payload(plaintext.as_slice()) {
        Some(entries) => {
            let v = Vault { e: entries, s: salt };
            Ok(v)
        },
        None => Err(VaultError::DeserializationError),
    }
}

/// Round trip: a container that sealing may produce opens, under the same
/// password, to exactly the vault it was sealed from.  The hypotheses are
/// what `seal_vault` ensures of every container it returns: the container
/// carries the vault's salt, and its sealed part opens under the derived
/// key to the vault's canonical payload.
pub proof fn lemma_seal_open_round_trip(password: Seq<u8>, v: VaultView, c: Seq<u8>)
    requires
        v.wf(),
        password.len() <= MAX_PASSWORD_LEN,
        entries_ok(v.e),
        c.len() >= SALT_LEN,
        c.subrange(0, SALT_LEN as int) == v.s,
        spec_open(argon2_key(password, v.s), c.subrange(SALT_LEN as int, c.len() as int)) == Some(
            spec_enc_payload(v.e),
        ),
    ensures
        spec_open_vault(password, c) == Ok::<VaultView, VaultError>(v),
{
    lemma_payload_round_trip(v.e);
    assert(VaultView { e: v.e, s: v.s } == v);
}

} // verus!
