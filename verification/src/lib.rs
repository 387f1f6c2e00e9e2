//! A content-addressed blob store: bytes in, a fixed-size digest out, and
//! the digest's canonical text is the filename the bytes live under.

pub mod b64;
pub mod hash;
pub mod hashstore;
pub mod unival;

pub use hash::{HashDecodeError, Hasher, HASH_BYTES};
pub use hashstore::{HashStore, OpenOutcome};
pub use unival::UniqueValue;

use vstd::prelude::*;

verus! {

/// The canonical encoding of the digest of zero bytes: the marker for
/// empty content.
pub const EMPTY_HASH: &'static str = "DldRwCblQ7Loqy6wYJnaodHl30d3j3eH-qtFzfEv46g";

} // verus!
