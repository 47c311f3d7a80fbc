use vstd::prelude::*;
use crate::types::H256;

verus! {

/// The SHA-256 digest of a byte sequence, named but not defined: the value is
/// fixed by the sha2 crate and depends on the input bytes alone.
pub uninterp spec fn sha256_of(bytes: Seq<u8>) -> Seq<u8>;

/// The BLAKE2b-256 digest of a byte sequence, named but not defined: the value
/// is fixed by the blake2b_simd crate and depends on the input bytes alone.
pub uninterp spec fn blake2b256_of(bytes: Seq<u8>) -> Seq<u8>;

/// Relies on sha2::Sha256 (via the Digest trait): a pure 32-byte SHA-256
/// digest of the input bytes.
#[verifier::external_body]
pub(crate) fn sha256_digest(bytes: &Vec<u8>) -> (r: H256)
    ensures
        r@ == sha256_of(bytes@),
        r@.len() == 32,
{
    let digest = <sha2::Sha256 as sha2::Digest>::digest(bytes.as_slice());
    let mut out = [0u8; 32];
    out.copy_from_slice(&digest);
    H256(out)
}

/// Relies on blake2b_simd::Params::hash with hash_length(32): a pure 32-byte
/// BLAKE2b digest of the input bytes.
#[verifier::external_body]
pub(crate) fn blake2b_256_digest(bytes: &Vec<u8>) -> (r: H256)
    ensures
        r@ == blake2b256_of(bytes@),
        r@.len() == 32,
{
    let hash = blake2b_simd::Params::new().hash_length(32).hash(bytes.as_slice());
    let mut out = [0u8; 32];
    out.copy_from_slice(hash.as_bytes());
    H256(out)
}

/// Incremental SHA-256 hasher over 32-byte words and single bytes, as the
/// sparse-Merkle layer consumes it: bytes are buffered and digested on
/// `finish`.
pub struct ShaHasher {
    buf: Vec<u8>,
}

impl ShaHasher {
    pub fn new() -> (r: Self)
        ensures
            r.bytes() == Seq::<u8>::empty(),
    {
        ShaHasher { buf: Vec::new() }
    }

    /// The bytes written so far, in order.
    pub closed spec fn bytes(self) -> Seq<u8> {
        self.buf@
    }

    pub fn write_h256(&mut self, h: &H256)
        ensures
            final(self).bytes() == old(self).bytes() + h@,
    {
        let mut i: usize = 0;
        while i < 32
            invariant
                i <= 32,
                self.buf@ == old(self).buf@ + h.0@.take(i as int),
            decreases 32 - i,
        {
            self.buf.push(h.0[i]);
            proof {
                assert(self.buf@ =~= old(self).buf@ + h.0@.take(i + 1 as int));
            }
            i = i + 1;
        }
        proof {
            assert(h.0@.take(32) =~= h@);
        }
    }

    pub fn write_byte(&mut self, b: u8)
        ensures
            final(self).bytes() == old(self).bytes().push(b),
    {
        self.buf.push(b);
    }

    pub fn finish(self) -> (r: H256)
        ensures
            r@ == sha256_of(self.bytes()),
    {
        sha256_digest(&self.buf)
    }
}

} // verus!
