//! A byte buffer for key material and other secrets, with deterministic
//! zeroing.
//!
//! The buffer's contents are overwritten with zeros by [`SecureBuffer::wipe`];
//! the cipher operations guarantee in their contracts that the key buffer
//! they were handed is zeroed when they return, on success and failure alike.

use vstd::prelude::*;

verus! {

/// A sequence of `n` zero bytes.
pub open spec fn zero_bytes(n: nat) -> Seq<u8> {
    Seq::new(n, |i: int| 0u8)
}

/// Owns a sensitive byte buffer.
pub struct SecureBuffer {
    data: Vec<u8>,
}

impl View for SecureBuffer {
    type V = Seq<u8>;

    closed spec fn view(&self) -> Seq<u8> {
        self.data@
    }
}

impl SecureBuffer {
    /// Takes ownership of sensitive bytes.
    pub fn from_bytes(data: Vec<u8>) -> (r: Self)
        ensures
            r@ == data@,
    {
        SecureBuffer { data }
    }

    /// How many bytes the buffer holds.
    pub fn len(&self) -> (r: usize)
        ensures
            r == self@.len(),
    {
        self.data.len()
    }

    /// Read access to the buffer.
    pub fn as_slice(&self) -> (r: &[u8])
        ensures
            r@ == self@,
    {
        self.data.as_slice()
    }

    /// Overwrites every byte with zero.  The length is kept, so the secret's
    /// size is the only thing that survives a wipe.
    pub fn wipe(&mut self)
        ensures
            final(self)@ == zero_bytes(old(self)@.len()),
    {
        let mut i: usize = 0;
        let n = self.data.len();
        while i < n
            invariant
                i <= n,
                n == self.data@.len(),
                forall|j: int| 0 <= j < i ==> self.data@[j] == 0u8,
            decreases n - i,
        {
            self.data.set(i, 0u8);
            i = i + 1;
        }
        proof {
            assert(self.data@ =~= zero_bytes(old(self)@.len()));
        }
    }
}

} // verus!
