//! Digests of a run of bytes that comes in pieces.

use vstd::prelude::*;
use vstd::slice::slice_subrange;
use crate::download::supervisor::HASH_CHUNK_SIZE;
#[allow(unused_imports)]
use crate::utils::hashing::{blake3_digest, hasher_input};
use crate::utils::hashing::{hasher_digest, hasher_new, hasher_update};

verus! {

/// How many chunks with a digest so many bytes make.
pub open spec fn chunks_in(len: nat) -> nat {
    ((len + (HASH_CHUNK_SIZE - 1)) / (HASH_CHUNK_SIZE as int)) as nat
}

/// The chunk at place `i` of a run of bytes. The last one may be shorter.
pub open spec fn chunk_at(data: Seq<u8>, i: int) -> Seq<u8> {
    let from = i * HASH_CHUNK_SIZE;
    let to = if from + HASH_CHUNK_SIZE < data.len() {
        from + HASH_CHUNK_SIZE
    } else {
        data.len() as int
    };
    data.subrange(from, to)
}

/// Whether digests are those of the chunks of a run of bytes.
pub open spec fn are_chunk_digests(digests: Seq<[u8; 16]>, data: Seq<u8>) -> bool {
    &&& digests.len() == chunks_in(data.len())
    &&& forall|i: int|
        0 <= i < digests.len() ==> (#[trigger] digests[i])@ == blake3_digest(chunk_at(data, i))
}

/// Takes bytes in, and has the digest of every chunk that is complete.
pub struct ChunkHasher {
    hasher: blake3::Hasher,
    hashed: usize,
    hashes: Vec<[u8; 16]>,
    taken: Ghost<Seq<u8>>,
}

impl View for ChunkHasher {
    type V = Seq<u8>;

    /// The bytes that were taken in.
    closed spec fn view(&self) -> Seq<u8> {
        self.taken@
    }
}

impl ChunkHasher {
    /// Every complete chunk has its digest, and the hasher holds the rest.
    pub closed spec fn wf(&self) -> bool {
        let done = self.hashes@.len() * HASH_CHUNK_SIZE;
        &&& self.hashed < HASH_CHUNK_SIZE
        &&& self.taken@.len() == done + self.hashed
        &&& hasher_input(self.hasher) == self.taken@.subrange(done, self.taken@.len() as int)
        &&& forall|i: int|
            0 <= i < self.hashes@.len() ==> (#[trigger] self.hashes@[i])@ == blake3_digest(
                self.taken@.subrange(i * HASH_CHUNK_SIZE, (i + 1) * HASH_CHUNK_SIZE),
            )
    }

    /// No bytes yet.
    pub fn new() -> (r: Self)
        ensures
            r.wf(),
            r@ == Seq::<u8>::empty(),
    {
        let r = ChunkHasher {
            hasher: hasher_new(),
            hashed: 0,
            hashes: Vec::new(),
            taken: Ghost(Seq::empty()),
        };
        assert(r.taken@.subrange(0, 0) =~= Seq::<u8>::empty());
        r
    }

    /// Takes bytes in, up to the end of a chunk.
    fn take(&mut self, data: &[u8])
        requires
            old(self).wf(),
            old(self).hashed + data@.len() <= HASH_CHUNK_SIZE,
        ensures
            final(self).wf(),
            final(self)@ == old(self)@ + data@,
    {
        let ghost before = self.taken@;
        let ghost all = before + data@;
        let ghost count = self.hashes@.len() as int;
        hasher_update(&mut self.hasher, data);
        self.hashed = self.hashed + data.len();
        self.taken = Ghost(all);
        proof {
            let done = count * HASH_CHUNK_SIZE;
            assert(before.subrange(done, before.len() as int) + data@ =~= all.subrange(
                done,
                all.len() as int,
            ));
            assert forall|i: int| 0 <= i < count implies (#[trigger] self.hashes@[i])@
                == blake3_digest(
                all.subrange(i * HASH_CHUNK_SIZE, (i + 1) * HASH_CHUNK_SIZE),
            ) by {
                assert(all.subrange(i * HASH_CHUNK_SIZE, (i + 1) * HASH_CHUNK_SIZE)
                    =~= before.subrange(i * HASH_CHUNK_SIZE, (i + 1) * HASH_CHUNK_SIZE));
            }
        }
        if self.hashed == HASH_CHUNK_SIZE {
            let digest = hasher_digest(&self.hasher);
            self.hashes.push(digest);
            self.hasher = hasher_new();
            self.hashed = 0;
            proof {
                assert(all.subrange(all.len() as int, all.len() as int) =~= Seq::<u8>::empty());
                assert((count + 1) * HASH_CHUNK_SIZE == all.len());
            }
        }
    }

    /// Takes bytes in.
    pub fn update(&mut self, data: &[u8])
        requires
            old(self).wf(),
        ensures
            final(self).wf(),
            final(self)@ == old(self)@ + data@,
    {
        let n: usize = data.len();
        let mut at: usize = 0;
        assert(self@ + data@.take(0) =~= self@);
        while at < n
            invariant
                n == data@.len(),
                at <= n,
                self.wf(),
                self@ == old(self)@ + data@.take(at as int),
            decreases n - at,
        {
            let needed: usize = HASH_CHUNK_SIZE - self.hashed;
            let left: usize = n - at;
            let len: usize = if left < needed {
                left
            } else {
                needed
            };
            let piece = slice_subrange(data, at, at + len);
            self.take(piece);
            assert(data@.take(at as int) + data@.subrange(at as int, at + len) =~= data@.take(
                at + len,
            ));
            assert(old(self)@ + data@.take(at as int) + piece@ =~= old(self)@ + data@.take(
                at + len,
            ));
            at = at + len;
        }
        assert(data@.take(n as int) =~= data@);
    }

    /// The digests of all chunks, the last one included.
    pub fn finish(self) -> (r: Vec<[u8; 16]>)
        requires
            self.wf(),
        ensures
            are_chunk_digests(r@, self@),
    {
        let ghost data = self.taken@;
        let ghost count = self.hashes@.len() as int;
        let last = hasher_digest(&self.hasher);
        let mut r = self.hashes;
        proof {
            assert(HASH_CHUNK_SIZE == 1048576);
            assert forall|i: int| 0 <= i < count implies (#[trigger] r@[i])@ == blake3_digest(
                chunk_at(data, i),
            ) by {
                assert(chunk_at(data, i) =~= data.subrange(
                    i * HASH_CHUNK_SIZE,
                    (i + 1) * HASH_CHUNK_SIZE,
                ));
            }
        }
        if self.hashed > 0 {
            assert(chunk_at(data, count) =~= data.subrange(
                count * HASH_CHUNK_SIZE,
                data.len() as int,
            ));
            r.push(last);
        }
        r
    }
}

/// The digests of a run of bytes do not depend on the pieces in which it came.
pub proof fn law_digests_depend_on_the_bytes_alone(
    a: Seq<[u8; 16]>,
    b: Seq<[u8; 16]>,
    data: Seq<u8>,
)
    requires
        are_chunk_digests(a, data),
        are_chunk_digests(b, data),
    ensures
        a.len() == b.len(),
        forall|i: int| 0 <= i < a.len() ==> (#[trigger] a[i])@ == b[i]@,
{
    assert forall|i: int| 0 <= i < a.len() implies (#[trigger] a[i])@ == b[i]@ by {
        assert(b[i]@ == blake3_digest(chunk_at(data, i)));
    }
}

} // verus!
