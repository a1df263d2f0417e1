//! The digests by which a file's contents are known again.

use vstd::prelude::*;
#[allow(unused_imports)]
use crate::utils::bytes::le_value;
use crate::utils::bytes::u128_from_le;

verus! {

/// The incremental hasher of the `blake3` crate, seen from outside.
#[verifier::external_type_specification]
#[verifier::external_body]
pub struct ExHasher(blake3::Hasher);

/// The bytes that a hasher has been fed.
pub uninterp spec fn hasher_input(h: blake3::Hasher) -> Seq<u8>;

/// The first sixteen bytes of the BLAKE3 output for an input.
pub uninterp spec fn blake3_digest(input: Seq<u8>) -> Seq<u8>;

/// `Hasher::new`: a hasher that has been fed nothing.
#[verifier::external_body]
pub(crate) fn hasher_new() -> (h: blake3::Hasher)
    ensures
        hasher_input(h) == Seq::<u8>::empty(),
{
    blake3::Hasher::new()
}

/// `Hasher::update`: the bytes are fed behind those before.
#[verifier::external_body]
pub(crate) fn hasher_update(h: &mut blake3::Hasher, data: &[u8])
    ensures
        hasher_input(*final(h)) == hasher_input(*old(h)) + data@,
{
    h.update(data);
}

/// `Hasher::finalize_xof` and the first sixteen bytes of its output, which depend
/// on the bytes fed and on nothing else.
#[verifier::external_body]
pub(crate) fn hasher_digest(h: &blake3::Hasher) -> (r: [u8; 16])
    ensures
        r@ == blake3_digest(hasher_input(*h)),
{
    let mut output = [0u8; 16];
    h.finalize_xof().fill(&mut output);
    output
}

/// The digest of a byte string.
pub fn digest_of(data: &[u8]) -> (r: [u8; 16])
    ensures
        r@ == blake3_digest(data@),
{
    let mut h = hasher_new();
    hasher_update(&mut h, data);
    assert(Seq::<u8>::empty() + data@ =~= data@);
    hasher_digest(&h)
}

/// The number by which the contents of a whole file are known again.
pub open spec fn content_hash(data: Seq<u8>) -> nat {
    le_value(blake3_digest(data))
}

/// Takes the contents of a file in, piece by piece.
pub struct FileHasher {
    hasher: blake3::Hasher,
}

impl View for FileHasher {
    type V = Seq<u8>;

    /// The bytes that were taken in.
    closed spec fn view(&self) -> Seq<u8> {
        hasher_input(self.hasher)
    }
}

impl FileHasher {
    /// No bytes yet.
    pub fn new() -> (r: Self)
        ensures
            r@ == Seq::<u8>::empty(),
    {
        FileHasher { hasher: hasher_new() }
    }

    /// Takes bytes in.
    pub fn update(&mut self, data: &[u8])
        ensures
            final(self)@ == old(self)@ + data@,
    {
        hasher_update(&mut self.hasher, data);
    }

    /// The number by which what was taken in is known again.
    pub fn finish(&self) -> (r: u128)
        ensures
            r as nat == content_hash(self@),
    {
        u128_from_le(&hasher_digest(&self.hasher))
    }
}

} // verus!
