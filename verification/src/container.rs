//! The on-disk container framing: a fixed-width salt followed immediately by
//! the sealed payload, with no separators and no length prefix — the salt
//! width is a constant and the sealed payload consumes the rest of the
//! buffer.

use vstd::prelude::*;

use crate::byteops::append_bytes;
use crate::errors::VaultError;
use crate::models::SALT_LEN;

verus! {

/// The container layout: salt bytes, then the sealed payload.
pub open spec fn spec_encode_container(salt: Seq<u8>, sealed: Seq<u8>) -> Seq<u8> {
    salt + sealed
}

/// What decoding a container yields: the salt and the sealed payload, or a
/// format error when the input is shorter than the salt width.
pub open spec fn spec_decode_container(bytes: Seq<u8>) -> Result<(Seq<u8>, Seq<u8>), VaultError> {
    if bytes.len() < SALT_LEN {
        Err(VaultError::FormatError)
    } else {
        Ok((bytes.subrange(0, SALT_LEN as int), bytes.subrange(SALT_LEN as int, bytes.len() as int)))
    }
}

/// Frames a salt and a sealed payload as one container.
pub fn encode_container(salt: &[u8], sealed: &[u8]) -> (r: Vec<u8>)
    requires
        salt@.len() == SALT_LEN,
    ensures
        r@ == spec_encode_container(salt@, sealed@),
{
    let mut r: Vec<u8> = Vec::new();
    append_bytes(&mut r, salt);
    append_bytes(&mut r, sealed);
    proof {
        assert(r@ =~= salt@ + sealed@);
    }
    r
}

/// Splits a container into its salt and its sealed payload.
pub fn decode_container(bytes: &[u8]) -> (r: Result<(Vec<u8>, Vec<u8>), VaultError>)
    ensures
        match r {
            Ok((salt, sealed)) => spec_decode_container(bytes@) == Ok::<_, VaultError>(
                (salt@, sealed@),
            ) && salt@.len() == SALT_LEN,
            Err(e) => spec_decode_container(bytes@) == Err::<(Seq<u8>, Seq<u8>), _>(e),
        },
{
    if bytes.len() < SALT_LEN {
        return Err(VaultError::FormatError);
    }
    let salt = vstd::slice::slice_to_vec(vstd::slice::slice_subrange(bytes, 0, SALT_LEN));
    let sealed = vstd::slice::slice_to_vec(
        vstd::slice::slice_subrange(bytes, SALT_LEN, bytes.len()),
    );
    Ok((salt, sealed))
}

/// Decoding is the exact inverse of encoding: framing a salt of the fixed
/// width with any payload and decoding the result gives both back unchanged.
pub proof fn lemma_container_round_trip(salt: Seq<u8>, sealed: Seq<u8>)
    requires
        salt.len() == SALT_LEN,
    ensures
        spec_decode_container(spec_encode_container(salt, sealed)) == Ok::<_, VaultError>(
            (salt, sealed),
        ),
{
    let enc = spec_encode_container(salt, sealed);
    assert(enc.subrange(0, SALT_LEN as int) =~= salt);
    assert(enc.subrange(SALT_LEN as int, enc.len() as int) =~= sealed);
}

} // verus!
