//! High-entropy random tokens, used to give in-flight temporary files
//! collision-resistant names.

use crate::b64;
use crate::b64::{ascii_chars, b64_encode};
use vstd::prelude::*;

verus! {

/// Number of bytes in a token.
pub const TOKEN_BYTES: usize = 32;

/// A high-entropy value, large enough to resist birthday collisions.
///
/// It shares the digest's size and text encoding so it can serve as a
/// filename, but it is a random token, not a hash of any content.
pub struct UniqueValue([u8; TOKEN_BYTES]);

impl View for UniqueValue {
    type V = Seq<u8>;

    closed spec fn view(&self) -> Seq<u8> {
        self.0@
    }
}

impl UniqueValue {
    /// Wrap raw bytes drawn from a secure random source.
    pub fn wrap_bytes(bytes: [u8; TOKEN_BYTES]) -> (t: UniqueValue)
        ensures
            t@ == bytes@,
    {
        UniqueValue(bytes)
    }

    /// Accept a buffer only if the random source filled it completely: a
    /// short read of `n` bytes is rejected as `Err(n)`, never padded.
    pub fn from_read(bytes: [u8; TOKEN_BYTES], n: usize) -> (r: Result<UniqueValue, usize>)
        ensures
            match r {
                Ok(t) => n == TOKEN_BYTES && t@ == bytes@,
                Err(m) => n != TOKEN_BYTES && m == n,
            },
    {
        if n == TOKEN_BYTES {
            Ok(UniqueValue(bytes))
        } else {
            Err(n)
        }
    }

    /// The token's canonical text encoding: 43 characters of the
    /// URL-safe alphabet, usable directly as part of a filename.
    pub fn encoded(&self) -> (r: String)
        ensures
            r@ == ascii_chars(b64_encode(self@)),
            r@.len() == 43,
    {
        proof {
            b64::lemma_encode_len(self@);
        }
        b64::encode(self.0.as_slice())
    }
}

} // verus!
