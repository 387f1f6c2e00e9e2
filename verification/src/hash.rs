//! The digest value, its text codec, and the incremental BLAKE2b hasher.

use crate::b64;
use crate::b64::{ascii_chars, b64_decode, b64_encode, b64_valid, is_b64_byte};
use vstd::prelude::*;
use vstd::slice::slice_subrange;
use vstd::string::StringSliceAdditionalSpecFns;

verus! {

/// Number of bytes in a digest.
pub const HASH_BYTES: usize = 32;

/// Number of characters in a digest's canonical text encoding.
pub const HASH_ENCODED_LEN: usize = (HASH_BYTES * 4 + 2) / 3;

/// A content digest: an immutable 32-byte value compared byte-wise.
#[derive(Clone, Copy, Debug)]
pub struct Hash([u8; HASH_BYTES]);

/// Why a text failed to decode as a digest: a length other than the
/// canonical 43 characters, or the first byte outside the alphabet
/// together with its position.
#[derive(Clone, Copy, Debug, PartialEq, Eq, Structural)]
pub enum HashDecodeError {
    InvalidLength(usize),
    InvalidBase64Byte(u8, usize),
}

impl View for Hash {
    type V = Seq<u8>;

    closed spec fn view(&self) -> Seq<u8> {
        self.0@
    }
}

impl vstd::std_specs::cmp::PartialEqSpecImpl for Hash {
    open spec fn obeys_eq_spec() -> bool {
        true
    }

    open spec fn eq_spec(&self, other: &Hash) -> bool {
        self@ == other@
    }
}

impl PartialEq for Hash {
    fn eq(&self, other: &Hash) -> (r: bool) {
        let mut i: usize = 0;
        while i < HASH_BYTES
            invariant
                i <= 32,
                forall|j: int| 0 <= j < i ==> self.0@[j] == other.0@[j],
            decreases 32 - i,
        {
            if self.0[i] != other.0[i] {
                return false;
            }
            i += 1;
        }
        proof {
            assert(self.0@ =~= other.0@);
        }
        true
    }
}

impl Hash {
    /// Wrap raw bytes already known to be a digest.
    pub fn wrap_bytes(bytes: [u8; HASH_BYTES]) -> (h: Hash)
        ensures
            h@ == bytes@,
    {
        Hash(bytes)
    }

    /// The digest's raw bytes.
    pub fn peek_bytes(&self) -> (r: &[u8; HASH_BYTES])
        ensures
            r@ == self@,
    {
        &self.0
    }

    /// Decode a digest from its canonical 43-character text encoding.
    ///
    /// Succeeds exactly on a 43-byte text whose bytes all lie in the
    /// alphabet; otherwise reports the wrong length, or the first byte
    /// outside the alphabet with its position.
    pub fn decode(s: &str) -> (r: Result<Hash, HashDecodeError>)
        ensures
            match r {
                Ok(h) => {
                    &&& s.spec_bytes().len() == 43
                    &&& b64_valid(s.spec_bytes())
                    &&& h@ == b64_decode(s.spec_bytes())
                },
                Err(HashDecodeError::InvalidLength(n)) => n == s.spec_bytes().len() && n != 43,
                Err(HashDecodeError::InvalidBase64Byte(b, i)) => {
                    &&& s.spec_bytes().len() == 43
                    &&& 0 <= i < 43
                    &&& s.spec_bytes()[i as int] == b
                    &&& !is_b64_byte(b)
                    &&& forall|j: int| 0 <= j < i ==> is_b64_byte(s.spec_bytes()[j])
                },
            },
    {
        let bytes = s.as_bytes();
        let len = bytes.len();
        if len != HASH_ENCODED_LEN {
            return Err(HashDecodeError::InvalidLength(len));
        }
        match b64::decode_bytes(bytes) {
            Ok(v) => {
                proof {
                    b64::lemma_decode_len(s.spec_bytes());
                }
                let mut buf = [0u8; HASH_BYTES];
                let mut i: usize = 0;
                while i < HASH_BYTES
                    invariant
                        v@.len() == 32,
                        i <= 32,
                        forall|j: int| 0 <= j < i ==> buf@[j] == v@[j],
                    decreases 32 - i,
                {
                    buf[i] = v[i];
                    i += 1;
                }
                proof {
                    assert(buf@ =~= v@);
                }
                Ok(Hash(buf))
            },
            Err(b64::B64DecodeError::InvalidByte(b, i)) => {
                Err(HashDecodeError::InvalidBase64Byte(b, i))
            },
            Err(b64::B64DecodeError::InvalidLength(_)) => {
                // a 43-byte text never has length 1 mod 4
                proof {
                    assert(false);
                }
                Err(HashDecodeError::InvalidLength(len))
            },
        }
    }

    /// The digest's canonical text encoding: 43 characters of the
    /// URL-safe alphabet, safe as a filename or a URL path segment.
    pub fn encoded(&self) -> (r: String)
        ensures
            r@ == ascii_chars(b64_encode(self@)),
            r@.len() == 43,
    {
        proof {
            b64::lemma_encode_len(self@);
        }
        b64::encode(self.0.as_slice())
    }
}

/// A digest always holds exactly 32 bytes.
pub proof fn lemma_hash_len(h: Hash)
    ensures
        h@.len() == 32,
{
}

/// What the BLAKE2b hash function with 32-byte output returns on an input.
pub uninterp spec fn blake2b256_of(input: Seq<u8>) -> Seq<u8>;

/// An incremental hasher: absorbs bytes across any number of `update`
/// calls and finalizes into the digest of their concatenation.
///
/// Its view is the sequence of bytes absorbed so far.
pub struct Hasher {
    state: blake2_rfc::blake2b::Blake2b,
    fed: Ghost<Seq<u8>>,
}

#[verifier::external_type_specification]
#[verifier::external_body]
pub struct ExBlake2b(blake2_rfc::blake2b::Blake2b);

/// Relies on `blake2_rfc::blake2b::Blake2b::new`: a fresh BLAKE2b context
/// with 32-byte output.  The context itself is opaque; that it has
/// absorbed nothing is what `Hasher::new` records in its view.
#[verifier::external_body]
fn blake2b_new() -> blake2_rfc::blake2b::Blake2b {
    blake2_rfc::blake2b::Blake2b::new(32)
}

impl View for Hasher {
    type V = Seq<u8>;

    closed spec fn view(&self) -> Seq<u8> {
        self.fed@
    }
}

impl Hasher {
    /// A fresh hasher that has absorbed nothing.
    pub fn new() -> (r: Hasher)
        ensures
            r@ == Seq::<u8>::empty(),
    {
        Hasher { state: blake2b_new(), fed: Ghost(Seq::empty()) }
    }

    /// Relies on `blake2_rfc::blake2b::Blake2b::update`: absorbs `data`
    /// after everything absorbed before, as if fed in one longer call.
    /// The length bound keeps the context's 64-bit byte counter, whose
    /// overflow aborts, out of reach.
    #[verifier::external_body]
    pub fn update(&mut self, data: &[u8])
        requires
            old(self)@.len() + data@.len() <= u64::MAX,
        ensures
            final(self)@ == old(self)@ + data@,
    {
        self.state.update(data);
    }

    /// Absorb only the first `n` bytes of `data`: what a spool feeds the
    /// hasher when a short write persisted only that prefix.
    pub fn update_prefix(&mut self, data: &[u8], n: usize)
        requires
            n <= data@.len(),
            old(self)@.len() + n <= u64::MAX,
        ensures
            final(self)@ == old(self)@ + data@.take(n as int),
    {
        let part = slice_subrange(data, 0, n);
        self.update(part);
        proof {
            assert(data@.subrange(0, n as int) =~= data@.take(n as int));
        }
    }

    /// Relies on `Blake2b::finalize` and `Blake2bResult::as_bytes`: the
    /// 32-byte BLAKE2b digest of everything absorbed.
    #[verifier::external_body]
    pub fn finalize(self) -> (r: Hash)
        ensures
            r@ == blake2b256_of(self@),
    {
        let out = self.state.finalize();
        let mut bytes = [0u8; 32];
        bytes.copy_from_slice(out.as_bytes());
        Hash(bytes)
    }
}

/// The bytes a hasher holds after one `update` call per chunk, starting
/// from an already absorbed prefix.
pub open spec fn fed_after(start: Seq<u8>, chunks: Seq<Seq<u8>>) -> Seq<u8>
    decreases chunks.len(),
{
    if chunks.len() == 0 {
        start
    } else {
        fed_after(start + chunks.first(), chunks.drop_first())
    }
}

proof fn lemma_fed_after(start: Seq<u8>, chunks: Seq<Seq<u8>>)
    ensures
        fed_after(start, chunks) == start + chunks.flatten(),
    decreases chunks.len(),
{
    if chunks.len() == 0 {
        assert(chunks.flatten() =~= Seq::<u8>::empty());
        assert(start + chunks.flatten() =~= start);
    } else {
        lemma_fed_after(start + chunks.first(), chunks.drop_first());
        assert((start + chunks.first()) + chunks.drop_first().flatten() =~= start + (chunks.first()
            + chunks.drop_first().flatten()));
    }
}

/// Streaming equivalence: a hasher fed chunks one `update` call at a time
/// has absorbed exactly their concatenation, so it finalizes to the same
/// digest as a hasher fed all the bytes in a single call.
pub proof fn lemma_streaming_equivalence(chunks: Seq<Seq<u8>>)
    ensures
        fed_after(Seq::<u8>::empty(), chunks) == chunks.flatten(),
        blake2b256_of(fed_after(Seq::<u8>::empty(), chunks)) == blake2b256_of(chunks.flatten()),
{
    lemma_fed_after(Seq::<u8>::empty(), chunks);
    assert(Seq::<u8>::empty() + chunks.flatten() =~= chunks.flatten());
}

} // verus!
