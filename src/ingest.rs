//! Content hashes of documents: SHA-256 over the bytes, fed chunk by chunk
//! in the order they arrive, written as lowercase hexadecimal.
use sha2::Digest;
use vstd::prelude::*;

verus! {

/// The SHA-256 digest of `data`.
pub uninterp spec fn sha256_of(data: Seq<u8>) -> Seq<u8>;

/// The lowercase hexadecimal digits, by value.
pub open spec fn hex_digits() -> Seq<char> {
    seq!['0', '1', '2', '3', '4', '5', '6', '7', '8', '9', 'a', 'b', 'c', 'd', 'e', 'f']
}

/// `b` in lowercase hexadecimal: two digits per byte, the high half first.
pub open spec fn hex_lower(b: Seq<u8>) -> Seq<char> {
    Seq::new(
        2 * b.len(),
        |i: int|
            if i % 2 == 0 {
                hex_digits()[(b[i / 2] / 16) as int]
            } else {
                hex_digits()[(b[i / 2] % 16) as int]
            },
    )
}

/// The content hash of a document with bytes `data`.
pub open spec fn content_hash(data: Seq<u8>) -> Seq<char> {
    hex_lower(sha256_of(data))
}

/// Relies on `hex::encode`: two lowercase digits per byte, the high half
/// first, in the order of the bytes.
#[verifier::external_body]
pub(crate) fn to_hex(b: &[u8]) -> (r: String)
    ensures
        r@ == hex_lower(b@),
{
    hex::encode(b)
}

/// A running SHA-256 over a byte stream. It keeps the digest state only, not
/// the bytes.
#[verifier::external_body]
pub struct HashIngester {
    hasher: sha2::Sha256,
}

/// Every byte that `h` has been fed, in order.
pub uninterp spec fn ingested(h: HashIngester) -> Seq<u8>;

impl HashIngester {
    /// Relies on `sha2::Sha256::new`: a hasher that has been fed nothing.
    #[verifier::external_body]
    fn start() -> (r: HashIngester)
        ensures
            ingested(r) == Seq::<u8>::empty(),
    {
        HashIngester { hasher: sha2::Sha256::new() }
    }

    /// Relies on `sha2::Digest::update`: the chunk follows the bytes fed so far.
    #[verifier::external_body]
    fn absorb(&mut self, chunk: &[u8])
        ensures
            ingested(*final(self)) == ingested(*old(self)) + chunk@,
    {
        self.hasher.update(chunk);
    }

    /// A hash over an empty stream.
    pub fn new() -> (r: HashIngester)
        ensures
            ingested(r) == Seq::<u8>::empty(),
    {
        HashIngester::start()
    }

    /// Feeds the next chunk of the stream.
    pub fn update(&mut self, chunk: &[u8])
        ensures
            ingested(*final(self)) == ingested(*old(self)) + chunk@,
    {
        self.absorb(chunk);
    }

    /// Relies on `sha2::Digest::finalize`: the SHA-256 digest of every byte
    /// fed, 32 bytes long.
    #[verifier::external_body]
    fn digest(self) -> (r: Vec<u8>)
        ensures
            r@ == sha256_of(ingested(self)),
            r@.len() == 32,
    {
        self.hasher.finalize().to_vec()
    }

    /// The content hash of everything fed so far.
    pub fn finish(self) -> (r: String)
        ensures
            r@ == content_hash(ingested(self)),
    {
        let d = self.digest();
        to_hex(d.as_slice())
    }
}

/// The concatenation of `chunks`, in order.
pub open spec fn joined(chunks: Seq<Vec<u8>>) -> Seq<u8> {
    chunks.map_values(|c: Vec<u8>| c@).flatten()
}

/// The content hash of a stream that arrives as `chunks`, fed in order.
pub fn hash_chunks(chunks: &Vec<Vec<u8>>) -> (r: String)
    ensures
        r@ == content_hash(joined(chunks@)),
{
    let mut h = HashIngester::new();
    let mut i: usize = 0;
    while i < chunks.len()
        invariant
            i <= chunks@.len(),
            ingested(h) == joined(chunks@.subrange(0, i as int)),
        decreases chunks@.len() - i,
    {
        proof {
            let pre = chunks@.subrange(0, i as int).map_values(|c: Vec<u8>| c@);
            assert(chunks@.subrange(0, i as int + 1).map_values(|c: Vec<u8>| c@) =~= pre.push(
                chunks@[i as int]@,
            ));
            pre.lemma_flatten_push(chunks@[i as int]@);
        }
        h.update(chunks[i].as_slice());
        i = i + 1;
    }
    assert(chunks@.subrange(0, chunks@.len() as int) =~= chunks@);
    h.finish()
}

} // verus!
