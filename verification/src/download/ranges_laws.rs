//! What the ranges of a file come to in bytes, and how long they are.

use vstd::prelude::*;
#[allow(unused_imports)]
use crate::download::items::{downloaded_bytes, lemma_ones_bounds, span_len, FileModel, FileSize};
#[allow(unused_imports)]
use crate::download::ranges::{
    chunk_start, first_missing, first_present, lemma_first_missing, present_bytes, range_end,
    ranges_from,
};
#[allow(unused_imports)]
use crate::utils::blocks::ones;

verus! {

/// Whether so many units are what so many bytes take: none is missing and none is
/// left over.
pub open spec fn just_holds(count: nat, unit: nat, bytes: nat) -> bool {
    (count - 1) * unit < bytes <= count * unit
}

/// How many bytes of a file lie in one of its blocks.
pub open spec fn held_in(size: nat, block: int) -> int {
    if (block + 1) * 16384 <= size {
        16384
    } else if block * 16384 <= size {
        size - block * 16384
    } else {
        0
    }
}

/// How many bytes lie in those of the first `n` blocks that are there.
pub open spec fn bytes_there(blocks: Seq<bool>, size: nat, n: nat) -> int
    decreases n,
{
    if n == 0 {
        0
    } else {
        bytes_there(blocks, size, (n - 1) as nat) + if blocks[n - 1] {
            held_in(size, n - 1)
        } else {
            0
        }
    }
}

proof fn lemma_present(blocks: Seq<bool>, size: nat, start: nat, end: nat)
    requires
        start <= end <= blocks.len(),
        just_holds(blocks.len(), 16384, size),
    ensures
        present_bytes(blocks, size, start as int, end as int) == bytes_there(blocks, size, end)
            - bytes_there(blocks, size, start),
    decreases end - start,
{
    if start < end {
        lemma_present(blocks, size, start, (end - 1) as nat);
    }
}

proof fn lemma_spans(blocks: Seq<bool>, size: nat, cursor: int, i: int)
    requires
        0 <= cursor <= blocks.len(),
        0 <= i < ranges_from(blocks, size, cursor).len(),
    ensures
        ({
            let r = ranges_from(blocks, size, cursor)[i];
            &&& r.start < r.end <= blocks.len()
            &&& r.expected_bytes == span_len(16384, r.start, r.end, size)
            &&& r.previously_downloaded == present_bytes(
                blocks,
                size,
                r.start as int,
                r.end as int,
            )
            &&& r.end - r.start < 320 && r.end + 64 <= blocks.len() ==> exists|p: int|
                r.start <= p < r.end + 64 && p < blocks.len() && #[trigger] blocks[p]
        }),
    decreases blocks.len() - cursor,
{
    lemma_first_missing(blocks, cursor);
    let missing = first_missing(blocks, cursor)->0;
    let start = chunk_start(missing);
    let end = range_end(blocks, start);
    lemma_long(blocks, missing);
    if i > 0 {
        lemma_spans(blocks, size, end, i - 1);
    }
}

proof fn lemma_found(blocks: Seq<bool>, from: int, to: int)
    requires
        0 <= from <= to <= blocks.len(),
    ensures
        from <= first_present(blocks, from, to) <= to,
        first_present(blocks, from, to) < to ==> blocks[first_present(blocks, from, to)],
    decreases to - from,
{
    if from < to {
        lemma_found(blocks, from + 1, to);
    }
}

proof fn lemma_long(blocks: Seq<bool>, missing: int)
    requires
        0 <= missing < blocks.len(),
    ensures
        ({
            let start = chunk_start(missing);
            let end = range_end(blocks, start);
            &&& 0 <= start < end <= blocks.len()
            &&& end - start < 320 && end + 64 <= blocks.len() ==> exists|p: int|
                start <= p < end + 64 && p < blocks.len() && #[trigger] blocks[p]
        }),
{
    reveal(chunk_start);
    let start = chunk_start(missing);
    let end = range_end(blocks, start);
    let far = if start + 320 < blocks.len() {
        start + 320
    } else {
        blocks.len() as int
    };
    lemma_found(blocks, start, far);
    let p = first_present(blocks, start, far);
    if end - start < 320 && end + 64 <= blocks.len() {
        assert(p < far) by {
            if p == start + 320 {
                assert(chunk_start(p) == p);
            }
        }
        assert(blocks[p]);
    }
}

/// A range says how many bytes of the file lie in it, and how many of these are there
/// already: what each of its blocks that is there holds, the last block of the file
/// for no more than what is left of the file.
pub proof fn law_ranges_count_their_bytes(blocks: Seq<bool>, size: nat, i: int)
    requires
        just_holds(blocks.len(), 16384, size),
        0 <= i < ranges_from(blocks, size, 0).len(),
    ensures
        ({
            let r = ranges_from(blocks, size, 0)[i];
            &&& r.end < blocks.len() ==> r.start * 16384 + r.expected_bytes == r.end * 16384
            &&& r.end == blocks.len() ==> r.start * 16384 + r.expected_bytes == size
            &&& r.previously_downloaded == bytes_there(blocks, size, r.end) - bytes_there(
                blocks,
                size,
                r.start,
            )
        }),
{
    lemma_spans(blocks, size, 0, i);
    let r = ranges_from(blocks, size, 0)[i];
    lemma_present(blocks, size, r.start, r.end);
}

/// A range is as long as it can be: where another whole chunk follows it in the file,
/// and it ends sooner than the longest range would, a block that is there stands in
/// the way.
pub proof fn law_ranges_are_long(blocks: Seq<bool>, size: nat, i: int)
    requires
        0 <= i < ranges_from(blocks, size, 0).len(),
        ranges_from(blocks, size, 0)[i].end + 64 <= blocks.len(),
        ranges_from(blocks, size, 0)[i].end - ranges_from(blocks, size, 0)[i].start < 320,
    ensures
        exists|p: int|
            ranges_from(blocks, size, 0)[i].start <= p < ranges_from(blocks, size, 0)[i].end + 64
                && p < blocks.len() && #[trigger] blocks[p],
{
    lemma_spans(blocks, size, 0, i);
}

proof fn lemma_ones_there(blocks: Seq<bool>, size: nat, n: nat)
    requires
        n <= blocks.len(),
        just_holds(blocks.len(), 16384, size),
    ensures
        bytes_there(blocks, size, n) == ones(blocks.take(n as int)) * 16384 - if n == blocks.len()
            && n > 0 && blocks[n - 1] {
            n * 16384 - size
        } else {
            0
        },
    decreases n,
{
    if n > 0 {
        lemma_ones_there(blocks, size, (n - 1) as nat);
        assert(blocks.take(n as int).drop_last() =~= blocks.take(n - 1));
        assert(blocks.take(n as int).last() == blocks[n - 1]);
    }
}

/// What counts as on disk of a file is what its blocks that are there hold.
pub proof fn law_bytes_are_counted_block_by_block(f: FileModel, size: u64)
    requires
        f.size == Some(FileSize::Known(size)),
        !(f.status is Completed),
        just_holds(f.blocks.len(), 16384, size as nat),
    ensures
        downloaded_bytes(f, 16384) == bytes_there(f.blocks, size as nat, f.blocks.len()),
{
    lemma_ones_there(f.blocks, size as nat, f.blocks.len());
    lemma_ones_bounds(f.blocks);
    assert(f.blocks.take(f.blocks.len() as int) =~= f.blocks);
}

proof fn lemma_bytes_bounds(blocks: Seq<bool>, size: nat, n: nat)
    requires
        n <= blocks.len(),
        just_holds(blocks.len(), 16384, size),
    ensures
        0 <= bytes_there(blocks, size, n),
        (forall|b: int| 0 <= b < n ==> !#[trigger] blocks[b]) ==> bytes_there(blocks, size, n) == 0,
        (forall|b: int| 0 <= b < n ==> #[trigger] blocks[b]) ==> bytes_there(blocks, size, n)
            == if n * 16384 < size {
            (n * 16384) as int
        } else {
            size as int
        },
    decreases n,
{
    if n > 0 {
        lemma_bytes_bounds(blocks, size, (n - 1) as nat);
    }
}

/// All of a complete file counts as on disk, whatever is noted of its blocks, and nothing of
/// one whose size is not known.
pub proof fn law_complete_files_count_as_a_whole(f: FileModel)
    ensures
        f.status is Completed && f.blocks.len() > 0 ==> (f.size matches Some(FileSize::Known(size))
            ==> downloaded_bytes(f, 16384) == size),
        !(f.size matches Some(FileSize::Known(_))) ==> downloaded_bytes(f, 16384) == 0,
{
}

/// Nothing counts as on disk of a file of which no block is there, and all of it where
/// every block is.
pub proof fn law_all_or_nothing_counts(f: FileModel, size: u64)
    requires
        f.size == Some(FileSize::Known(size)),
        just_holds(f.blocks.len(), 16384, size as nat),
    ensures
        (forall|b: int| 0 <= b < f.blocks.len() ==> !#[trigger] f.blocks[b]) && !(f.status is
            Completed) ==> downloaded_bytes(f, 16384) == 0,
        (forall|b: int| 0 <= b < f.blocks.len() ==> #[trigger] f.blocks[b]) ==> downloaded_bytes(
            f,
            16384,
        ) == size,
{
    lemma_bytes_bounds(f.blocks, size as nat, f.blocks.len());
    if !(f.status is Completed) {
        law_bytes_are_counted_block_by_block(f, size);
    }
}

/// The bytes in some blocks and in those that follow them are those in all of these blocks;
/// all blocks of a file hold all its bytes, and those behind its end none.
pub proof fn law_spans_add_up(block_size: nat, a: nat, b: nat, c: nat, size: nat)
    requires
        a <= b <= c,
    ensures
        span_len(block_size, a, b, size) + span_len(block_size, b, c, size) == span_len(
            block_size,
            a,
            c,
            size,
        ),
        size <= c * block_size ==> span_len(block_size, 0, c, size) == size,
        size <= a * block_size ==> span_len(block_size, a, b, size) == 0,
        c * block_size <= size ==> span_len(block_size, a, c, size) == (c - a) * block_size,
{
    assert(a * block_size <= b * block_size <= c * block_size) by (nonlinear_arith)
        requires
            a <= b <= c,
    ;
    assert((c - a) * block_size == c * block_size - a * block_size) by (nonlinear_arith);
    assert(0 * block_size == 0) by (nonlinear_arith);
}

} // verus!
