//! The engine's error taxonomy.  All failures are returned, never panicked.

use vstd::prelude::*;

verus! {

/// Why a vault operation failed.
///
/// `AuthError` deliberately does not say whether the password was wrong or
/// the data was tampered with: the two causes are indistinguishable by
/// design, and callers must surface them identically.
#[derive(Clone, Copy, PartialEq, Eq, Structural, Debug)]
pub enum VaultError {
    /// The container is malformed: shorter than the framing requires.
    FormatError,
    /// Authentication failed: wrong password or corrupted data.
    AuthError,
    /// The password hash backend rejected its parameters.
    KeyDerivationError,
    /// The decrypted bytes are not a valid vault.
    DeserializationError,
    /// The payload could not be sealed: it exceeds the cipher's length
    /// limit, the supplied nonce has the wrong width, or operating-system
    /// randomness was unavailable.
    SealError,
}

/// The description of each failure.
pub open spec fn spec_describe(e: VaultError) -> Seq<char> {
    match e {
        VaultError::FormatError => "invalid vault format"@,
        VaultError::AuthError => "wrong password or corrupted data"@,
        VaultError::KeyDerivationError => "key derivation failed"@,
        VaultError::DeserializationError => "vault data is corrupt"@,
        VaultError::SealError => "sealing the vault failed"@,
    }
}

impl VaultError {
    /// A short description, for callers that print errors.
    pub fn describe(&self) -> (r: &'static str)
        ensures
            r@ == spec_describe(*self),
    {
        match self {
            VaultError::FormatError => "invalid vault format",
            VaultError::AuthError => "wrong password or corrupted data",
            VaultError::KeyDerivationError => "key derivation failed",
            VaultError::DeserializationError => "vault data is corrupt",
            VaultError::SealError => "sealing the vault failed",
        }
    }
}

} // verus!
