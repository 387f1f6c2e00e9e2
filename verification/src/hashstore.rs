//! The store: a directory whose committed files are blobs named by the
//! canonical text encoding of their own digest.

use crate::b64;
use crate::b64::{ascii_chars, b64_decode, b64_encode, b64_valid};
use crate::hash::{blake2b256_of, fed_after, lemma_streaming_equivalence};
use crate::unival::UniqueValue;
use vstd::prelude::*;
use vstd::string::StringExecFns;

verus! {

/// What a caller's attempt to open a blob's file reported: the file
/// opened, no file exists under that name, or the filesystem failed in
/// some other way (carrying the caller's error value).
pub enum OpenOutcome<E> {
    Opened,
    Missing,
    Failed(E),
}

/// The filename a blob is committed under: the canonical text encoding
/// of its digest.
pub open spec fn blob_name(digest: Seq<u8>) -> Seq<char> {
    ascii_chars(b64_encode(digest))
}

/// A content-addressed store rooted at one directory.
///
/// Its view is the directory path.  The store's content set is the set
/// of files directly inside the directory whose name is a valid digest
/// encoding; files under the reserved `in.` prefix are in-flight inserts
/// and never part of it.
pub struct HashStore {
    dir: String,
}

impl View for HashStore {
    type V = Seq<char>;

    closed spec fn view(&self) -> Seq<char> {
        self.dir@
    }
}

impl HashStore {
    /// A handle over a directory the caller has already created or
    /// opened on disk.
    pub fn at_dir(dir: String) -> (s: HashStore)
        ensures
            s@ == dir@,
    {
        HashStore { dir }
    }

    /// The directory this store is rooted at.
    pub fn dir(&self) -> (r: &String)
        ensures
            r@ == self@,
    {
        &self.dir
    }

    /// The path a blob with digest `hash` lives under: the directory, a
    /// slash, and the digest's 43-character encoding.
    pub fn blob_path(&self, hash: &crate::hash::Hash) -> (r: String)
        ensures
            r@ == self@ + "/"@ + blob_name(hash@),
    {
        let mut p = self.dir.clone();
        p.append("/");
        let enc = hash.encoded();
        p.append(enc.as_str());
        p
    }

    /// The path of the temporary file an in-flight insert writes to: the
    /// directory, a slash, and the reserved `in.` prefix followed by the
    /// token's encoding.  Never a valid blob name, so a reader can never
    /// observe it as content.
    pub fn temp_path(&self, token: &UniqueValue) -> (r: String)
        ensures
            r@ == self@ + "/"@ + "in."@ + ascii_chars(b64_encode(token@)),
    {
        let mut p = self.dir.clone();
        p.append("/");
        p.append("in.");
        let enc = token.encoded();
        p.append(enc.as_str());
        p
    }

    /// Membership of a digest in the content set, decided from what
    /// opening its blob path reported: an open file means present, an
    /// absent file means not present, and any other failure propagates
    /// to the caller unchanged.
    pub fn has_hash<E>(&self, probe: OpenOutcome<E>) -> (r: Result<bool, E>)
        ensures
            match probe {
                OpenOutcome::Opened => r == Ok::<bool, E>(true),
                OpenOutcome::Missing => r == Ok::<bool, E>(false),
                OpenOutcome::Failed(e) => r == Err::<bool, E>(e),
            },
    {
        match probe {
            OpenOutcome::Opened => Ok(true),
            OpenOutcome::Missing => Ok(false),
            OpenOutcome::Failed(e) => Err(e),
        }
    }
}

/// Content addressing: the filename a blob is committed under is 43
/// characters long and decodes back to exactly the digest of the blob's
/// bytes — content is never retrievable under a digest it does not
/// hash to.
pub proof fn lemma_blob_name_faithful(h: crate::hash::Hash)
    ensures
        blob_name(h@).len() == 43,
        b64_valid(b64_encode(h@)),
        b64_decode(b64_encode(h@)) == h@,
{
    crate::hash::lemma_hash_len(h);
    b64::lemma_encode_len(h@);
    b64::lemma_decode_encode(h@);
}

/// Distinct digests never collide: their blob filenames differ, so one
/// committed blob can never hide another.
pub proof fn lemma_blob_names_distinct(h1: crate::hash::Hash, h2: crate::hash::Hash)
    requires
        h1@ != h2@,
    ensures
        blob_name(h1@) != blob_name(h2@),
{
    if blob_name(h1@) == blob_name(h2@) {
        let e1 = b64_encode(h1@);
        let e2 = b64_encode(h2@);
        assert(ascii_chars(e1).len() == e1.len());
        assert forall|i: int| 0 <= i < e1.len() implies e1[i] == e2[i] by {
            assert(ascii_chars(e1)[i] == e1[i] as char);
            assert(ascii_chars(e2)[i] == e2[i] as char);
            assert((e1[i] as char) as u8 == e1[i]);
            assert((e2[i] as char) as u8 == e2[i]);
        }
        assert(e1 =~= e2);
        b64::lemma_encode_injective(h1@, h2@);
    }
}

/// Idempotence of insertion: two inserters fed the same content, even
/// split into different chunks, finalize to the same digest and commit
/// under the same filename, so the content set gains a single entry.
pub proof fn lemma_same_content_same_name(chunks1: Seq<Seq<u8>>, chunks2: Seq<Seq<u8>>)
    requires
        chunks1.flatten() == chunks2.flatten(),
    ensures
        blake2b256_of(fed_after(Seq::<u8>::empty(), chunks1)) == blake2b256_of(
            fed_after(Seq::<u8>::empty(), chunks2),
        ),
        blob_name(blake2b256_of(fed_after(Seq::<u8>::empty(), chunks1))) == blob_name(
            blake2b256_of(fed_after(Seq::<u8>::empty(), chunks2)),
        ),
{
    lemma_streaming_equivalence(chunks1);
    lemma_streaming_equivalence(chunks2);
}

} // verus!
