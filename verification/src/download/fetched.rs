//! What becomes of a file when something of it was learned, fetched or found broken.

use std::ops::Range;

use vstd::prelude::*;
use crate::download::file_name::NameModel;
#[allow(unused_imports)]
use crate::download::file_name::{candidate, chosen_name};
use crate::download::items::{FileDownload, FileSize};
#[allow(unused_imports)]
use crate::download::items::{hashes_of, FileModel};
#[allow(unused_imports)]
use crate::download::ranges::{law_ranges_cover_what_is_missing, ranges_from, RangeModel};
#[allow(unused_imports)]
use crate::download::storing::chunk_count;
use crate::download::supervisor::{BLOCKS_PER_HASH, BLOCK_SIZE, HASH_CHUNK_SIZE};
use crate::utils::file_utils::TargetOs;
#[allow(unused_imports)]
use crate::utils::paths::{spec_join, spec_parent};

verus! {

/// How many blocks a file has.
pub open spec fn block_count(size: u64) -> nat {
    ((size + (BLOCK_SIZE - 1)) / (BLOCK_SIZE as int)) as nat
}

/// A sequence cut to a length, or filled up to it.
pub open spec fn resized<T>(s: Seq<T>, n: nat, fill: T) -> Seq<T> {
    Seq::new(
        n,
        |i: int|
            if i < s.len() {
                s[i]
            } else {
                fill
            },
    )
}

/// A file with the name that the server gave it.
pub open spec fn named(target: TargetOs, f: FileModel, file_name: Seq<char>) -> FileModel {
    let name = NameModel { server_name: candidate(target, Some(file_name)), ..f.name };
    FileModel {
        name,
        path: match spec_parent(f.path) {
            Some(folder) => spec_join(folder, chosen_name(name)),
            None => f.path,
        },
        ..f
    }
}

/// A file with room for the blocks and the digests of so many bytes.
pub open spec fn roomed(f: FileModel, size: u64) -> FileModel {
    FileModel {
        blocks: resized(f.blocks, block_count(size), false),
        chunk_hashes: resized(f.chunk_hashes, chunk_count(size), None),
        ..f
    }
}

/// A file with what a server said of it.
pub open spec fn described(
    target: TargetOs,
    f: FileModel,
    size: FileSize,
    file_name: Seq<char>,
) -> FileModel {
    let known = named(target, FileModel { size: Some(size), ..f }, file_name);
    match size {
        FileSize::Known(n) => roomed(known, n),
        FileSize::Unknown => known,
    }
}

/// A file that was fetched from beginning to end.
pub open spec fn streamed(f: FileModel, bytes: u64) -> FileModel {
    FileModel {
        size: Some(FileSize::Known(bytes)),
        blocks: resized(f.blocks, block_count(bytes), true),
        ..f
    }
}

/// The first chunk with a digest of its own in a range of blocks.
pub open spec fn first_chunk(start: nat) -> nat {
    ((start + (BLOCKS_PER_HASH - 1)) / (BLOCKS_PER_HASH as int)) as nat
}

/// A file of which a range was fetched.
pub open spec fn ranged(f: FileModel, start: nat, end: nat, hashes: Seq<[u8; 16]>) -> FileModel {
    let first = first_chunk(start);
    FileModel {
        blocks: Seq::new(f.blocks.len(), |i: int| start <= i < end || f.blocks[i]),
        chunk_hashes: Seq::new(
            f.chunk_hashes.len(),
            |i: int|
                if first <= i < first + hashes.len() {
                    Some(hashes[i - first]@)
                } else {
                    f.chunk_hashes[i]
                },
        ),
        ..f
    }
}

/// Whether a block lies in one of some chunks.
pub open spec fn lies_in(chunks: Seq<usize>, block: int) -> bool {
    exists|j: int|
        0 <= j < chunks.len() && (#[trigger] chunks[j]) * BLOCKS_PER_HASH <= block < chunks[j]
            * BLOCKS_PER_HASH + BLOCKS_PER_HASH
}

/// A file of which some chunks were found broken: their blocks are missing.
pub open spec fn broken(f: FileModel, chunks: Seq<usize>) -> FileModel {
    FileModel {
        blocks: Seq::new(f.blocks.len(), |i: int| f.blocks[i] && !lies_in(chunks, i)),
        ..f
    }
}

/// Whether a file of so many bytes can be kept track of.
pub open spec fn trackable(size: u64) -> bool {
    &&& block_count(size) <= usize::MAX / 8
    &&& block_count(size) * BLOCK_SIZE <= u64::MAX
}

fn ceil_div(n: u64, d: u64) -> (r: u64)
    requires
        d > 0,
    ensures
        r == (n + (d - 1)) / (d as int),
{
    let q: u64 = n / d;
    let m: u64 = n % d;
    proof {
        vstd::arithmetic::div_mod::lemma_fundamental_div_mod(n as int, d as int);
        if m == 0 {
            vstd::arithmetic::div_mod::lemma_fundamental_div_mod_converse(
                n + (d - 1),
                d as int,
                q as int,
                d - 1,
            );
        } else {
            assert(d * (q + 1) == d * q + d) by (nonlinear_arith);
            vstd::arithmetic::div_mod::lemma_fundamental_div_mod_converse(
                n + (d - 1),
                d as int,
                q + 1,
                m - 1,
            );
            assert(q < u64::MAX) by (nonlinear_arith)
                requires
                    n == d * q + m,
                    m > 0,
                    d > 0,
                    n <= u64::MAX,
            ;
        }
    }
    if m == 0 {
        q
    } else {
        q + 1
    }
}

impl FileDownload {
    /// Makes room for the blocks and the digests of so many bytes.
    fn make_room(&mut self, size: u64)
        requires
            trackable(size),
        ensures
            final(self)@ == roomed(old(self)@, size),
            final(self).id == old(self).id,
    {
        let blocks: usize = ceil_div(size, BLOCK_SIZE as u64) as usize;
        self.blocks.resize(blocks, false);
        let chunks: usize = ceil_div(size, HASH_CHUNK_SIZE as u64) as usize;
        let ghost start = self.chunk_hashes@;
        if self.chunk_hashes.len() > chunks {
            self.chunk_hashes.truncate(chunks);
        }
        while self.chunk_hashes.len() < chunks
            invariant
                self.chunk_hashes@.len() <= chunks,
                self.chunk_hashes@ =~= resized(start, self.chunk_hashes@.len(), None),
                self@ == (FileModel {
                    chunk_hashes: hashes_of(self.chunk_hashes@),
                    blocks: resized(old(self)@.blocks, block_count(size), false),
                    ..old(self)@
                }),
                self.id == old(self).id,
                self.chunk_hashes@.len() >= start.len() || self.chunk_hashes@.len() == chunks,
            decreases chunks - self.chunk_hashes@.len(),
        {
            self.chunk_hashes.push(None);
        }
        assert(self@ =~= roomed(old(self)@, size)) by {
            assert(self@.chunk_hashes =~= resized(
                old(self)@.chunk_hashes,
                chunk_count(size),
                None,
            ));
        }
    }

    /// Takes in what a server said of the file.
    pub fn describe(&mut self, size: FileSize, file_name: String, target: TargetOs)
        requires
            size matches FileSize::Known(n) ==> trackable(n),
        ensures
            final(self)@ == described(target, old(self)@, size, file_name@),
            final(self).id == old(self).id,
    {
        self.size = Some(size);
        let ghost sized = self@;
        assert(sized == (FileModel { size: Some(size), ..old(self)@ }));
        self.set_file_name(file_name, target);
        if let FileSize::Known(n) = size {
            self.make_room(n);
        }
    }

    /// The file was fetched from beginning to end.
    pub fn stream_fetched(&mut self, bytes: u64)
        requires
            trackable(bytes),
        ensures
            final(self)@ == streamed(old(self)@, bytes),
            final(self).id == old(self).id,
    {
        self.size = Some(FileSize::Known(bytes));
        let blocks: usize = ceil_div(bytes, BLOCK_SIZE as u64) as usize;
        self.blocks.resize(blocks, true);
        assert(self@ =~= streamed(old(self)@, bytes));
    }

    /// A range of the file was fetched, and its chunks have these digests.
    pub fn range_fetched(&mut self, range: &Range<usize>, hashes: &Vec<[u8; 16]>)
        requires
            range.start <= range.end <= old(self)@.blocks.len(),
            first_chunk(range.start as nat) + hashes@.len() <= old(self)@.chunk_hashes.len(),
        ensures
            final(self)@ == ranged(
                old(self)@,
                range.start as nat,
                range.end as nat,
                hashes@,
            ),
            final(self).id == old(self).id,
    {
        let ghost start = self@;
        let mut i: usize = range.start;
        while i < range.end
            invariant
                range.start <= i <= range.end <= start.blocks.len(),
                self@ == (FileModel {
                    blocks: Seq::new(
                        start.blocks.len(),
                        |k: int| range.start <= k < i || start.blocks[k],
                    ),
                    ..start
                }),
                self.id == old(self).id,
            decreases range.end - i,
        {
            self.blocks.set(i, true);
            i += 1;
            assert(self@.blocks =~= Seq::new(
                start.blocks.len(),
                |k: int| range.start <= k < i || start.blocks[k],
            ));
        }
        let first: usize = if range.start % BLOCKS_PER_HASH == 0 {
            range.start / BLOCKS_PER_HASH
        } else {
            range.start / BLOCKS_PER_HASH + 1
        };
        assert(first as nat == first_chunk(range.start as nat));
        let ghost blocks = self@.blocks;
        let chunks: usize = self.chunk_hashes.len();
        let mut j: usize = 0;
        while j < hashes.len()
            invariant
                j <= hashes@.len(),
                first + hashes@.len() <= start.chunk_hashes.len(),
                self@ == (FileModel {
                    blocks,
                    chunk_hashes: Seq::new(
                        start.chunk_hashes.len(),
                        |k: int|
                            if first <= k < first + j {
                                Some(hashes@[k - first]@)
                            } else {
                                start.chunk_hashes[k]
                            },
                    ),
                    ..start
                }),
                self.id == old(self).id,
                self.chunk_hashes@.len() == start.chunk_hashes.len(),
                chunks == start.chunk_hashes.len(),
            decreases hashes@.len() - j,
        {
            let ghost before = self@.chunk_hashes;
            self.chunk_hashes.set(first + j, Some(hashes[j]));
            assert(self@.chunk_hashes =~= before.update(first + j, Some(hashes@[j as int]@)));
            j += 1;
            assert(self@.chunk_hashes =~= Seq::new(
                start.chunk_hashes.len(),
                |k: int|
                    if first <= k < first + j {
                        Some(hashes@[k - first]@)
                    } else {
                        start.chunk_hashes[k]
                    },
            ));
        }
        assert(self@ =~= ranged(start, range.start as nat, range.end as nat, hashes@));
    }

    /// Some chunks of the file were found broken.
    pub fn chunks_broken(&mut self, chunks: &Vec<usize>)
        ensures
            final(self)@ == broken(old(self)@, chunks@),
            final(self).id == old(self).id,
    {
        let ghost start = self@;
        let count: usize = self.blocks.len();
        let mut j: usize = 0;
        assert(self@.blocks =~= broken(start, chunks@.take(0)).blocks);
        while j < chunks.len()
            invariant
                j <= chunks@.len(),
                count == start.blocks.len(),
                self@ == broken(start, chunks@.take(j as int)),
                self.id == old(self).id,
            decreases chunks@.len() - j,
        {
            let ghost before = self@;
            let from: usize = match chunks[j].checked_mul(BLOCKS_PER_HASH) {
                Some(from) => from,
                None => usize::MAX,
            };
            let to: usize = if from < count && BLOCKS_PER_HASH < count - from {
                from + BLOCKS_PER_HASH
            } else {
                count
            };
            let mut i: usize = from;
            while i < to
                invariant
                    from <= i,
                    to <= count,
                    count == start.blocks.len(),
                    from < to ==> i <= to,
                    before.blocks.len() == count,
                    self@ == (FileModel {
                        blocks: Seq::new(
                            count as nat,
                            |k: int| before.blocks[k] && !(from <= k < i),
                        ),
                        ..before
                    }),
                    self.id == old(self).id,
                decreases to - i,
            {
                self.blocks.set(i, false);
                i += 1;
                assert(self@.blocks =~= Seq::new(
                    count as nat,
                    |k: int| before.blocks[k] && !(from <= k < i),
                ));
            }
            proof {
                let done = chunks@.take(j as int);
                let next = chunks@.take(j + 1);
                assert(BLOCKS_PER_HASH == 64);
                assert forall|k: int| 0 <= k < count implies #[trigger] self@.blocks[k] == (
                start.blocks[k] && !lies_in(next, k)) by {
                    if lies_in(done, k) {
                        let w = choose|w: int|
                            0 <= w < done.len() && (#[trigger] done[w]) * BLOCKS_PER_HASH <= k
                                < done[w] * BLOCKS_PER_HASH + BLOCKS_PER_HASH;
                        assert(next[w] == done[w]);
                    }
                    if lies_in(next, k) && !lies_in(done, k) {
                        let w = choose|w: int|
                            0 <= w < next.len() && (#[trigger] next[w]) * BLOCKS_PER_HASH <= k
                                < next[w] * BLOCKS_PER_HASH + BLOCKS_PER_HASH;
                        if w < done.len() {
                            assert(done[w] == next[w]);
                        }
                    }
                    assert(next[j as int] == chunks@[j as int]);
                }
                assert(self@.blocks =~= broken(start, next).blocks);
            }
            j += 1;
        }
        assert(chunks@.take(j as int) =~= chunks@);
    }
}

/// A file of which some ranges were fetched, one after the other.
pub open spec fn ranged_each(
    f: FileModel,
    ranges: Seq<RangeModel>,
    hashes: Seq<Seq<[u8; 16]>>,
) -> FileModel
    decreases ranges.len(),
{
    if ranges.len() == 0 {
        f
    } else {
        ranged(
            ranged_each(f, ranges.drop_last(), hashes),
            ranges.last().start,
            ranges.last().end,
            hashes[ranges.len() - 1],
        )
    }
}

proof fn lemma_ranged_each(
    f: FileModel,
    ranges: Seq<RangeModel>,
    hashes: Seq<Seq<[u8; 16]>>,
    block: int,
    i: int,
)
    requires
        0 <= block < f.blocks.len(),
        0 <= i <= ranges.len(),
        i < ranges.len() ==> ranges[i].start <= block < ranges[i].end,
        i == ranges.len() ==> f.blocks[block],
    ensures
        ranged_each(f, ranges, hashes).blocks.len() == f.blocks.len(),
        ranged_each(f, ranges, hashes).blocks[block],
    decreases ranges.len(),
{
    if ranges.len() > 0 {
        let before = ranges.drop_last();
        if i == ranges.len() {
            lemma_ranged_each(f, before, hashes, block, before.len() as int);
        } else if i < before.len() {
            assert(before[i] == ranges[i]);
            lemma_ranged_each(f, before, hashes, block, i);
        } else {
            lemma_ranged_len(f, before, hashes);
        }
    }
}

proof fn lemma_ranged_len(f: FileModel, ranges: Seq<RangeModel>, hashes: Seq<Seq<[u8; 16]>>)
    ensures
        ranged_each(f, ranges, hashes).blocks.len() == f.blocks.len(),
    decreases ranges.len(),
{
    if ranges.len() > 0 {
        lemma_ranged_len(f, ranges.drop_last(), hashes);
    }
}

/// Once every range that a file needs was fetched, the file is all there.
pub proof fn law_fetching_all_ranges_completes_a_file(
    f: FileModel,
    file_size: nat,
    hashes: Seq<Seq<[u8; 16]>>,
)
    ensures
        ({
            let done = ranged_each(f, ranges_from(f.blocks, file_size, 0), hashes);
            done.blocks.len() == f.blocks.len() && forall|b: int|
                0 <= b < done.blocks.len() ==> #[trigger] done.blocks[b]
        }),
{
    let ranges = ranges_from(f.blocks, file_size, 0);
    let done = ranged_each(f, ranges, hashes);
    lemma_ranged_len(f, ranges, hashes);
    law_ranges_cover_what_is_missing(f.blocks, file_size);
    assert forall|b: int| 0 <= b < done.blocks.len() implies #[trigger] done.blocks[b] by {
        if f.blocks[b] {
            lemma_ranged_each(f, ranges, hashes, b, ranges.len() as int);
        } else {
            let i = choose|i: int|
                0 <= i < ranges.len() && (#[trigger] ranges[i]).start <= b < ranges[i].end;
            lemma_ranged_each(f, ranges, hashes, b, i);
        }
    }
}

/// Blocks that a broken chunk holds are missing, and no others are lost.
pub proof fn law_broken_chunks_are_missing(f: FileModel, chunks: Seq<usize>, block: int)
    requires
        0 <= block < f.blocks.len(),
    ensures
        broken(f, chunks).blocks[block] <==> f.blocks[block] && !lies_in(chunks, block),
        broken(f, chunks).chunk_hashes == f.chunk_hashes,
{
}

} // verus!
