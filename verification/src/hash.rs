//! Content digests.
//!
//! A file is identified on the wire by the BLAKE3 digest of its bytes,
//! written as lowercase hexadecimal. The digest is computed incrementally,
//! so that a file can be fed chunk by chunk as it is read.

use vstd::prelude::*;

verus! {

#[verifier::external_type_specification]
#[verifier::external_body]
pub struct ExHasher(blake3::Hasher);

/// The bytes that have been fed to a `blake3::Hasher` since it was made.
pub uninterp spec fn hasher_input(h: blake3::Hasher) -> Seq<u8>;

/// The BLAKE3 digest of `input`, in hexadecimal.
pub uninterp spec fn digest_hex(input: Seq<u8>) -> Seq<char>;

/// Whether `c` is one of the digits `0` to `9` or `a` to `f`.
pub open spec fn is_lower_hex(c: char) -> bool {
    ('0' <= c && c <= '9') || ('a' <= c && c <= 'f')
}

/// `blake3::Hasher::new`: a hasher for the regular hash function, which
/// has been fed nothing yet.
#[verifier::external_body]
fn hasher_new() -> (h: blake3::Hasher)
    ensures
        hasher_input(h) == Seq::<u8>::empty(),
{
    blake3::Hasher::new()
}

/// `blake3::Hasher::update`: feeds `data` to the hasher, after what it was
/// fed before.
#[verifier::external_body]
fn hasher_update(h: &mut blake3::Hasher, data: &[u8])
    ensures
        hasher_input(*final(h)) == hasher_input(*old(h)) + data@,
{
    h.update(data);
}

/// `blake3::Hasher::finalize` and `blake3::Hash::to_hex`: the digest of all
/// that the hasher was fed, as 64 lowercase hexadecimal digits. The hasher
/// is left as it was.
#[verifier::external_body]
fn hasher_finalize_hex(h: &blake3::Hasher) -> (hex: String)
    ensures
        hex@ == digest_hex(hasher_input(*h)),
        hex@.len() == 64,
        forall|i: int| 0 <= i < hex@.len() ==> is_lower_hex(#[trigger] hex@[i]),
{
    h.finalize().to_hex().to_string()
}

/// The bytes of `chunks`, one chunk after the other.
pub open spec fn joined(chunks: Seq<Seq<u8>>) -> Seq<u8>
    decreases chunks.len(),
{
    if chunks.len() == 0 {
        seq![]
    } else {
        joined(chunks.drop_last()) + chunks.last()
    }
}

/// The contents of a vector of chunks.
pub open spec fn chunk_views(chunks: Seq<Vec<u8>>) -> Seq<Seq<u8>> {
    Seq::new(chunks.len(), |i: int| chunks[i]@)
}

/// Computes the digest of a stream of bytes that arrives in pieces.
pub struct ContentHasher {
    inner: blake3::Hasher,
}

impl ContentHasher {
    /// All the bytes fed so far, in the order they came.
    pub closed spec fn fed(&self) -> Seq<u8> {
        hasher_input(self.inner)
    }

    /// A hasher that has been fed nothing.
    pub fn new() -> (res: Self)
        ensures
            res.fed() == Seq::<u8>::empty(),
    {
        ContentHasher { inner: hasher_new() }
    }

    /// Feeds the next piece of the stream.
    pub fn update(&mut self, chunk: &[u8])
        ensures
            final(self).fed() == old(self).fed() + chunk@,
    {
        hasher_update(&mut self.inner, chunk);
    }

    /// The digest of the bytes fed so far: 64 lowercase hexadecimal
    /// digits. More may be fed afterwards.
    pub fn finish(&self) -> (hex: String)
        ensures
            hex@ == digest_hex(self.fed()),
            hex@.len() == 64,
            forall|i: int| 0 <= i < hex@.len() ==> is_lower_hex(#[trigger] hex@[i]),
    {
        hasher_finalize_hex(&self.inner)
    }
}

/// The digest of `data`.
pub fn hash_bytes(data: &[u8]) -> (hex: String)
    ensures
        hex@ == digest_hex(data@),
        hex@.len() == 64,
{
    let mut hasher = ContentHasher::new();
    hasher.update(data);
    assert(Seq::<u8>::empty() + data@ =~= data@);
    hasher.finish()
}

/// The digest of a content that is held as a sequence of chunks.
pub fn hash_chunks(chunks: &Vec<Vec<u8>>) -> (hex: String)
    ensures
        hex@ == digest_hex(joined(chunk_views(chunks@))),
        hex@.len() == 64,
{
    let ghost all = chunk_views(chunks@);
    let mut hasher = ContentHasher::new();
    let mut i: usize = 0;
    assert(all.take(0) =~= Seq::<Seq<u8>>::empty());
    while i < chunks.len()
        invariant
            i <= chunks.len(),
            all == chunk_views(chunks@),
            hasher.fed() == joined(all.take(i as int)),
        decreases chunks.len() - i,
    {
        hasher.update(chunks[i].as_slice());
        assert(all.take(i + 1).drop_last() =~= all.take(i as int));
        i += 1;
    }
    assert(all.take(i as int) =~= all);
    hasher.finish()
}

/// How a content is cut into chunks does not matter to its bytes: joining
/// two sequences of chunks joins their bytes.
pub proof fn lemma_joined_concat(a: Seq<Seq<u8>>, b: Seq<Seq<u8>>)
    ensures
        joined(a + b) == joined(a) + joined(b),
    decreases b.len(),
{
    if b.len() == 0 {
        assert(a + b =~= a);
        assert(joined(a) + joined(b) =~= joined(a));
    } else {
        assert((a + b).drop_last() =~= a + b.drop_last());
        lemma_joined_concat(a, b.drop_last());
        assert(joined(a + b) =~= joined(a) + (joined(b.drop_last()) + b.last()));
    }
}

/// Hashing is repeatable and blind to chunking: two contents with the same
/// bytes have the same digest, however each was cut into chunks.
pub proof fn lemma_same_bytes_same_digest(a: Seq<Seq<u8>>, b: Seq<Seq<u8>>)
    requires
        joined(a) == joined(b),
    ensures
        digest_hex(joined(a)) == digest_hex(joined(b)),
{
}

} // verus!
