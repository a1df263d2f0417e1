//! Which ranges of blocks a file still needs.

use std::ops::Range;

use vstd::prelude::*;
use crate::download::items::FileDownload;
#[allow(unused_imports)]
use crate::download::items::span_len;
use crate::download::supervisor::{
    DownloadSupervisor, BLOCKS_PER_HASH, BLOCK_SIZE, TARGET_RANGE_SIZE,
};

verus! {

/// A range of blocks to be fetched.
pub struct RangeInfo {
    pub range: Range<usize>,
    /// How many bytes of the file lie in it.
    pub expected_bytes: u64,
    /// How many of these are counted as on disk already.
    pub previously_downloaded: u64,
}

/// A range of blocks to be fetched, in mathematical values.
pub struct RangeModel {
    pub start: nat,
    pub end: nat,
    pub expected_bytes: nat,
    pub previously_downloaded: nat,
}

impl View for RangeInfo {
    type V = RangeModel;

    open spec fn view(&self) -> RangeModel {
        RangeModel {
            start: self.range.start as nat,
            end: self.range.end as nat,
            expected_bytes: self.expected_bytes as nat,
            previously_downloaded: self.previously_downloaded as nat,
        }
    }
}

impl RangeInfo {
    /// A range with what is known of it.
    pub fn new(range: Range<usize>, expected_bytes: u64, previously_downloaded: u64) -> (r: Self)
        ensures
            r@ == (RangeModel {
                start: range.start as nat,
                end: range.end as nat,
                expected_bytes: expected_bytes as nat,
                previously_downloaded: previously_downloaded as nat,
            }),
    {
        RangeInfo { range, expected_bytes, previously_downloaded }
    }
}

/// The first block from `from` on that is missing.
pub open spec fn first_missing(blocks: Seq<bool>, from: int) -> Option<int>
    decreases blocks.len() - from,
{
    if from >= blocks.len() {
        None
    } else if !blocks[from] {
        Some(from)
    } else {
        first_missing(blocks, from + 1)
    }
}

/// The first block from `from` up to `to` that is there, or `to` if there is none.
pub open spec fn first_present(blocks: Seq<bool>, from: int, to: int) -> int
    decreases to - from,
{
    if from >= to {
        to
    } else if blocks[from] {
        from
    } else {
        first_present(blocks, from + 1, to)
    }
}

/// The beginning of the chunk with a digest that a block lies in.
#[verifier::opaque]
pub open spec fn chunk_start(block: int) -> int {
    block / (BLOCKS_PER_HASH as int) * BLOCKS_PER_HASH
}

/// Where a range ends that begins at `start`: at the last chunk before a block that
/// is there, and after one chunk at least; with no such block, where it is as long as
/// a range should be; and never past the last block.
pub open spec fn range_end(blocks: Seq<bool>, start: int) -> int {
    let far = if start + TARGET_RANGE_SIZE < blocks.len() {
        start + TARGET_RANGE_SIZE
    } else {
        blocks.len() as int
    };
    let aligned = chunk_start(first_present(blocks, start, far));
    let end = if aligned > start {
        aligned
    } else {
        start + BLOCKS_PER_HASH
    };
    if end < blocks.len() {
        end
    } else {
        blocks.len() as int
    }
}

/// How many bytes a block of a file counts for: the last one for what is left of
/// the file.
pub open spec fn block_bytes(count: nat, file_size: nat, block: int) -> nat {
    if block == count - 1 {
        if file_size > block * BLOCK_SIZE {
            (file_size - block * BLOCK_SIZE) as nat
        } else {
            0
        }
    } else {
        BLOCK_SIZE as nat
    }
}

/// How many bytes the blocks from `start` up to `end` count for that are there.
pub open spec fn present_bytes(blocks: Seq<bool>, file_size: nat, start: int, end: int) -> nat
    decreases end - start,
{
    if end <= start {
        0
    } else {
        present_bytes(blocks, file_size, start, end - 1) + if blocks[end - 1] {
            block_bytes(blocks.len(), file_size, end - 1)
        } else {
            0
        }
    }
}

/// The ranges that a file needs from the block `cursor` on.
pub open spec fn ranges_from(blocks: Seq<bool>, file_size: nat, cursor: int) -> Seq<RangeModel>
    decreases blocks.len() - cursor,
{
    match first_missing(blocks, cursor) {
        None => Seq::empty(),
        Some(missing) => {
            let start = chunk_start(missing);
            let end = range_end(blocks, start);
            if end <= cursor {
                Seq::empty()
            } else {
                seq![
                    RangeModel {
                        start: start as nat,
                        end: end as nat,
                        expected_bytes: span_len(
                            BLOCK_SIZE as nat,
                            start as nat,
                            end as nat,
                            file_size,
                        ),
                        previously_downloaded: present_bytes(blocks, file_size, start, end),
                    },
                ] + ranges_from(blocks, file_size, end)
            }
        },
    }
}

/// The first missing block is missing, and all before it are there.
pub proof fn lemma_first_missing(blocks: Seq<bool>, from: int)
    requires
        0 <= from <= blocks.len(),
    ensures
        match first_missing(blocks, from) {
            Some(i) => from <= i < blocks.len() && !blocks[i] && forall|j: int|
                from <= j < i ==> blocks[j],
            None => forall|j: int| from <= j < blocks.len() ==> blocks[j],
        },
    decreases blocks.len() - from,
{
    if from < blocks.len() && blocks[from] {
        lemma_first_missing(blocks, from + 1);
    }
}

/// The first block that is there is there, and all before it are missing.
pub proof fn lemma_first_present(blocks: Seq<bool>, from: int, to: int)
    requires
        0 <= from <= to <= blocks.len(),
    ensures
        from <= first_present(blocks, from, to) <= to,
        forall|j: int| from <= j < first_present(blocks, from, to) ==> !blocks[j],
        first_present(blocks, from, to) < to ==> blocks[first_present(blocks, from, to)],
    decreases to - from,
{
    if from < to && !blocks[from] {
        lemma_first_present(blocks, from + 1, to);
    }
}

/// A chunk begins at a multiple of its length, at the block or before it.
pub proof fn lemma_chunk_start(block: int)
    requires
        0 <= block,
    ensures
        0 <= chunk_start(block) <= block < chunk_start(block) + BLOCKS_PER_HASH,
        chunk_start(block) % (BLOCKS_PER_HASH as int) == 0,
        block % (BLOCKS_PER_HASH as int) == 0 ==> chunk_start(block) == block,
{
    reveal(chunk_start);
    assert(BLOCKS_PER_HASH == 64);
    assert(chunk_start(block) == block / 64 * 64);
}

/// A block lies in the chunk that begins less than its length before it.
proof fn lemma_chunk_start_is(block: int, start: int)
    requires
        0 <= start <= block < start + BLOCKS_PER_HASH,
        start % (BLOCKS_PER_HASH as int) == 0,
    ensures
        chunk_start(block) == start,
{
    reveal(chunk_start);
    assert(BLOCKS_PER_HASH == 64);
    assert(chunk_start(block) == block / 64 * 64);
}

/// No chunk begins between the beginning of a block's chunk and the block.
proof fn lemma_chunk_start_last(block: int, start: int)
    requires
        0 <= start <= block,
        start % (BLOCKS_PER_HASH as int) == 0,
    ensures
        start <= chunk_start(block),
{
    reveal(chunk_start);
    assert(BLOCKS_PER_HASH == 64);
    assert(chunk_start(block) == block / 64 * 64);
}

/// Chunks begin a multiple of their length apart.
proof fn lemma_next_chunk(start: int)
    requires
        start % (BLOCKS_PER_HASH as int) == 0,
    ensures
        (start + BLOCKS_PER_HASH) % (BLOCKS_PER_HASH as int) == 0,
        (start + TARGET_RANGE_SIZE) % (BLOCKS_PER_HASH as int) == 0,
{
    assert(BLOCKS_PER_HASH == 64 && TARGET_RANGE_SIZE == 320);
}

/// A range begins where a chunk does, holds the missing block, and reaches no further
/// than a range should.
proof fn lemma_one_range(blocks: Seq<bool>, missing: int)
    requires
        0 <= missing < blocks.len(),
        !blocks[missing],
    ensures
        ({
            let start = chunk_start(missing);
            let end = range_end(blocks, start);
            &&& 0 <= start <= missing < end <= blocks.len()
            &&& start % (BLOCKS_PER_HASH as int) == 0
            &&& end % (BLOCKS_PER_HASH as int) == 0 || end == blocks.len()
            &&& end - start <= TARGET_RANGE_SIZE
            &&& end <= start + BLOCKS_PER_HASH || forall|j: int| start <= j < end ==> !blocks[j]
        }),
{
    let start = chunk_start(missing);
    let far = if start + TARGET_RANGE_SIZE < blocks.len() {
        start + TARGET_RANGE_SIZE
    } else {
        blocks.len() as int
    };
    lemma_chunk_start(missing);
    lemma_first_present(blocks, start, far);
    lemma_chunk_start(first_present(blocks, start, far));
    lemma_next_chunk(start);
}

/// Facts about the ranges from a cursor on.
proof fn lemma_ranges(blocks: Seq<bool>, file_size: nat, cursor: int)
    requires
        0 <= cursor <= blocks.len(),
        cursor % (BLOCKS_PER_HASH as int) == 0 || cursor == blocks.len(),
    ensures
        ({
            let ranges = ranges_from(blocks, file_size, cursor);
            &&& forall|i: int|
                0 <= i < ranges.len() ==> {
                    let r = #[trigger] ranges[i];
                    &&& cursor <= r.start < r.end <= blocks.len()
                    &&& r.start as int % (BLOCKS_PER_HASH as int) == 0
                    &&& r.end as int % (BLOCKS_PER_HASH as int) == 0 || r.end == blocks.len()
                    &&& r.end - r.start <= TARGET_RANGE_SIZE
                    &&& exists|j: int| r.start <= j < r.end && !#[trigger] blocks[j]
                    &&& r.end <= r.start + BLOCKS_PER_HASH || forall|j: int|
                        r.start <= j < r.end ==> !blocks[j]
                }
            &&& forall|i: int, j: int|
                0 <= i < j < ranges.len() ==> (#[trigger] ranges[i]).end <= (
                #[trigger] ranges[j]).start
            &&& forall|b: int|
                cursor <= b < blocks.len() && !#[trigger] blocks[b] ==> exists|i: int|
                    0 <= i < ranges.len() && (#[trigger] ranges[i]).start <= b < ranges[i].end
        }),
    decreases blocks.len() - cursor,
{
    lemma_first_missing(blocks, cursor);
    if first_missing(blocks, cursor).is_some() {
        let missing = first_missing(blocks, cursor)->0;
        lemma_one_range(blocks, missing);
        lemma_chunk_start_last(missing, cursor);
        let start = chunk_start(missing);
        let end = range_end(blocks, start);
        lemma_ranges(blocks, file_size, end);
        let rest = ranges_from(blocks, file_size, end);
        let ranges = ranges_from(blocks, file_size, cursor);
        assert(forall|i: int| 1 <= i < ranges.len() ==> #[trigger] ranges[i] == rest[i - 1]);
        assert forall|b: int|
            cursor <= b < blocks.len() && !#[trigger] blocks[b] implies exists|i: int|
            0 <= i < ranges.len() && (#[trigger] ranges[i]).start <= b < ranges[i].end by {
            if b < end {
                assert(ranges[0].start <= b < ranges[0].end);
            } else {
                let i = choose|i: int|
                    0 <= i < rest.len() && (#[trigger] rest[i]).start <= b < rest[i].end;
                assert(ranges[i + 1] == rest[i]);
            }
        }
        assert(!blocks[missing]);
    }
}

/// Every missing block lies in a range, and the ranges lie one behind the other.
pub proof fn law_ranges_cover_what_is_missing(blocks: Seq<bool>, file_size: nat)
    ensures
        ({
            let ranges = ranges_from(blocks, file_size, 0);
            &&& forall|b: int|
                0 <= b < blocks.len() && !#[trigger] blocks[b] ==> exists|i: int|
                    0 <= i < ranges.len() && (#[trigger] ranges[i]).start <= b < ranges[i].end
            &&& forall|i: int, j: int|
                0 <= i < j < ranges.len() ==> (#[trigger] ranges[i]).end <= (
                #[trigger] ranges[j]).start
        }),
{
    lemma_ranges(blocks, file_size, 0);
}

/// A range begins where a chunk with a digest does and ends where one does, or with
/// the file; it is not empty, and not longer than a range should be.
pub proof fn law_ranges_keep_to_chunks(blocks: Seq<bool>, file_size: nat, i: int)
    requires
        0 <= i < ranges_from(blocks, file_size, 0).len(),
    ensures
        ({
            let r = ranges_from(blocks, file_size, 0)[i];
            &&& r.start < r.end <= blocks.len()
            &&& r.end - r.start <= TARGET_RANGE_SIZE
            &&& r.start as int % (BLOCKS_PER_HASH as int) == 0
            &&& r.end as int % (BLOCKS_PER_HASH as int) == 0 || r.end == blocks.len()
        }),
{
    lemma_ranges(blocks, file_size, 0);
}

/// No chunk is fetched again whose blocks are all there.
pub proof fn law_ranges_spare_complete_chunks(
    blocks: Seq<bool>,
    file_size: nat,
    i: int,
    block: int,
)
    requires
        0 <= i < ranges_from(blocks, file_size, 0).len(),
        ranges_from(blocks, file_size, 0)[i].start <= block < ranges_from(
            blocks,
            file_size,
            0,
        )[i].end,
    ensures
        exists|j: int|
            chunk_start(block) <= j < chunk_start(block) + BLOCKS_PER_HASH && j < blocks.len()
                && !#[trigger] blocks[j],
{
    lemma_ranges(blocks, file_size, 0);
    let r = ranges_from(blocks, file_size, 0)[i];
    if r.end <= r.start + BLOCKS_PER_HASH {
        let j = choose|j: int| r.start <= j < r.end && !#[trigger] blocks[j];
        lemma_chunk_start_is(block, r.start as int);
        assert(!blocks[j]);
    } else {
        lemma_chunk_start(block);
        assert(!blocks[block]);
    }
}

/// A file that is all there needs nothing.
pub proof fn law_complete_file_needs_no_range(blocks: Seq<bool>, file_size: nat)
    requires
        forall|i: int| 0 <= i < blocks.len() ==> #[trigger] blocks[i],
    ensures
        ranges_from(blocks, file_size, 0).len() == 0,
{
    lemma_first_missing(blocks, 0);
}

impl DownloadSupervisor {
    /// How many bytes of a file of `file_size` bytes lie in the blocks of
    /// `chunk_size` bytes of a range.
    pub fn calculate_range_expected_len(
        chunk_size: usize,
        range: &Range<usize>,
        file_size: u64,
    ) -> (n: u64)
        requires
            range.start * chunk_size <= u64::MAX,
            range.end * chunk_size <= u64::MAX,
        ensures
            n as nat == span_len(
                chunk_size as nat,
                range.start as nat,
                range.end as nat,
                file_size as nat,
            ),
    {
        let start_byte: u64 = range.start as u64 * chunk_size as u64;
        let theoretical_end: u64 = range.end as u64 * chunk_size as u64;
        let actual_end: u64 = if theoretical_end < file_size {
            theoretical_end
        } else {
            file_size
        };
        actual_end.saturating_sub(start_byte)
    }

    /// How many bytes of a range are counted as on disk already.
    fn present_in(file: &FileDownload, start: usize, end: usize, file_size: u64) -> (n: u64)
        requires
            start <= end <= file@.blocks.len(),
            file@.blocks.len() * BLOCK_SIZE <= u64::MAX,
            end - start <= TARGET_RANGE_SIZE,
        ensures
            n as nat == present_bytes(file@.blocks, file_size as nat, start as int, end as int),
    {
        let count: usize = file.blocks.len();
        let mut n: u64 = 0;
        let mut i: usize = start;
        while i < end
            invariant
                start <= i <= end <= count,
                count == file@.blocks.len(),
                count * BLOCK_SIZE <= u64::MAX,
                n as nat == present_bytes(file@.blocks, file_size as nat, start as int, i as int),
                i < count ==> n <= (i - start) * BLOCK_SIZE,
            decreases end - i,
        {
            if let Some(true) = file.blocks.get(i) {
                if i == count - 1 {
                    assert(i * 16384 <= count * 16384 <= u64::MAX) by {
                        assert(BLOCK_SIZE == 16384);
                    }
                    let block_start_byte: u64 = i as u64 * BLOCK_SIZE as u64;
                    n += file_size.saturating_sub(block_start_byte);
                } else {
                    n += BLOCK_SIZE as u64;
                }
            }
            i += 1;
        }
        n
    }

    /// The range that begins at the chunk of the missing block `missing`.
    fn range_at(file: &FileDownload, missing: usize, file_size: u64) -> (r: RangeInfo)
        requires
            missing < file@.blocks.len(),
            !file@.blocks[missing as int],
            file@.blocks.len() * BLOCK_SIZE <= u64::MAX,
        ensures
            r@.start == chunk_start(missing as int),
            r@.end == range_end(file@.blocks, r@.start as int),
            missing < r@.end <= file@.blocks.len(),
            r@.expected_bytes == span_len(BLOCK_SIZE as nat, r@.start, r@.end, file_size as nat),
            r@.previously_downloaded == present_bytes(
                file@.blocks,
                file_size as nat,
                r@.start as int,
                r@.end as int,
            ),
    {
        let count: usize = file.blocks.len();
        let start: usize = missing / BLOCKS_PER_HASH * BLOCKS_PER_HASH;
        let far: usize = if TARGET_RANGE_SIZE < count - start {
            start + TARGET_RANGE_SIZE
        } else {
            count
        };
        let unaligned: usize = match file.blocks.first_one_between(start, far) {
            Some(d) => start + d,
            None => far,
        };
        proof {
            lemma_one_range(file@.blocks, missing as int);
            reveal(chunk_start);
            assert(start == chunk_start(missing as int));
            lemma_first_present(file@.blocks, start as int, far as int);
            let p = first_present(file@.blocks, start as int, far as int);
            if p < unaligned {
                assert(!file@.blocks[p]);
            } else if unaligned < p {
                assert(file@.blocks[unaligned as int]);
            }
        }
        let aligned: usize = unaligned / BLOCKS_PER_HASH * BLOCKS_PER_HASH;
        let end: usize = if aligned > start {
            aligned
        } else if BLOCKS_PER_HASH < count - start {
            start + BLOCKS_PER_HASH
        } else {
            count
        };
        let before: u64 = Self::present_in(file, start, end, file_size);
        let range = start..end;
        let expected: u64 = Self::calculate_range_expected_len(BLOCK_SIZE, &range, file_size);
        RangeInfo::new(range, expected, before)
    }

    /// The ranges of blocks that a file of `file_size` bytes still needs, in order.
    pub fn get_ranges(file: &FileDownload, file_size: u64) -> (r: Vec<RangeInfo>)
        requires
            file@.blocks.len() * BLOCK_SIZE <= u64::MAX,
        ensures
            r@.map_values(|i: RangeInfo| i@) == ranges_from(file@.blocks, file_size as nat, 0),
    {
        let ghost all = ranges_from(file@.blocks, file_size as nat, 0);
        let mut ranges: Vec<RangeInfo> = Vec::new();
        let mut cursor: usize = 0;
        let count: usize = file.blocks.len();
        assert(ranges@.map_values(|i: RangeInfo| i@) + all =~= all);
        loop
            invariant_except_break
                cursor <= count,
                count == file@.blocks.len(),
                file@.blocks.len() * BLOCK_SIZE <= u64::MAX,
                ranges@.map_values(|i: RangeInfo| i@) + ranges_from(
                    file@.blocks,
                    file_size as nat,
                    cursor as int,
                ) == all,
            ensures
                ranges@.map_values(|i: RangeInfo| i@) == all,
            decreases file@.blocks.len() - cursor,
        {
            let missing: usize = match file.blocks.first_zero_from(cursor) {
                Some(distance) => cursor + distance,
                None => {
                    proof {
                        lemma_first_missing(file@.blocks, cursor as int);
                        assert(ranges@.map_values(|i: RangeInfo| i@) =~= all);
                    }
                    break;
                },
            };
            proof {
                lemma_first_missing(file@.blocks, cursor as int);
                let m = first_missing(file@.blocks, cursor as int);
                if m.is_none() || missing < m->0 {
                    assert(file@.blocks[missing as int]);
                } else if m->0 < missing {
                    assert(file@.blocks[m->0]);
                }
            }
            let info = Self::range_at(file, missing, file_size);
            let ghost before = ranges@;
            let ghost next = info@;
            cursor = info.range.end;
            ranges.push(info);
            proof {
                let rest = ranges_from(file@.blocks, file_size as nat, cursor as int);
                assert(ranges@.map_values(|i: RangeInfo| i@) =~= before.map_values(
                    |i: RangeInfo| i@,
                ).push(next));
                assert(before.map_values(|i: RangeInfo| i@) + (seq![next] + rest)
                    =~= before.map_values(|i: RangeInfo| i@).push(next) + rest);
            }
        }
        ranges
    }
}

} // verus!
