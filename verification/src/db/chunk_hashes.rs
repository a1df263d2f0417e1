//! Reading the digests of chunks back, and telling which rows are of no use.

use std::collections::HashMap;

use vstd::prelude::*;
use crate::db::rows::ChunkHashRow;
#[allow(unused_imports)]
use crate::download::items::hashes_of;

verus! {

broadcast use vstd::std_specs::hash::group_hash_axioms;

/// The digests of a file with one more: the chunks up to it are left open, and what
/// is no digest leaves its own chunk as it was.
pub open spec fn with_hash(
    hashes: Seq<Option<Seq<u8>>>,
    index: nat,
    hash: Option<Seq<u8>>,
) -> Seq<Option<Seq<u8>>> {
    let long = if hashes.len() <= index {
        Seq::new(
            index + 1,
            |i: int|
                if i < hashes.len() {
                    hashes[i]
                } else {
                    None
                },
        )
    } else {
        hashes
    };
    match hash {
        Some(h) => if h.len() == 16 {
            long.update(index as int, Some(h))
        } else {
            long
        },
        None => long,
    }
}

/// The digest that a row holds.
pub open spec fn row_hash(row: ChunkHashRow) -> Option<Seq<u8>> {
    match row.hash {
        Some(bytes) => Some(bytes@),
        None => None,
    }
}

/// The digests that are known of a file.
pub open spec fn known_hashes(
    files: Map<usize, Seq<Option<Seq<u8>>>>,
    file: usize,
) -> Seq<Option<Seq<u8>>> {
    if files.contains_key(file) {
        files[file]
    } else {
        Seq::empty()
    }
}

/// The digests with those of one more row. A row with a negative place says no more
/// than that the file has digests.
pub open spec fn with_row(
    files: Map<usize, Seq<Option<Seq<u8>>>>,
    row: ChunkHashRow,
) -> Map<usize, Seq<Option<Seq<u8>>>> {
    let file = row.file_id as usize;
    let before = known_hashes(files, file);
    files.insert(
        file,
        if row.chunk_index < 0 {
            before
        } else {
            with_hash(before, row.chunk_index as nat, row_hash(row))
        },
    )
}

/// The digests that rows stand for, by file.
pub open spec fn hashes_in(rows: Seq<ChunkHashRow>) -> Map<usize, Seq<Option<Seq<u8>>>>
    decreases rows.len(),
{
    if rows.len() == 0 {
        Map::empty()
    } else {
        with_row(hashes_in(rows.drop_last()), rows.last())
    }
}

/// The places of the rows that should not be there, in order: file and chunk.
pub open spec fn useless_rows(rows: Seq<ChunkHashRow>) -> Seq<(i64, i64)>
    decreases rows.len(),
{
    if rows.len() == 0 {
        Seq::empty()
    } else if rows.last().chunk_index < 0 {
        useless_rows(rows.drop_last()).push((rows.last().file_id, rows.last().chunk_index))
    } else {
        useless_rows(rows.drop_last())
    }
}

/// The digests in a map, in mathematical values.
pub open spec fn hash_map_view(m: Map<usize, Vec<Option<[u8; 16]>>>) -> Map<
    usize,
    Seq<Option<Seq<u8>>>,
> {
    Map::new(|k: usize| m.contains_key(k), |k: usize| hashes_of(m[k]@))
}

/// Whether the place of a row can be counted to.
pub open spec fn row_fits(row: ChunkHashRow) -> bool {
    row.chunk_index < usize::MAX
}

fn array_of(bytes: &Vec<u8>) -> (r: [u8; 16])
    requires
        bytes@.len() == 16,
    ensures
        r@ == bytes@,
{
    let mut r = [0u8; 16];
    let mut i: usize = 0;
    while i < 16
        invariant
            i <= 16,
            bytes@.len() == 16,
            forall|k: int| 0 <= k < i ==> r@[k] == bytes@[k],
        decreases 16 - i,
    {
        r[i] = bytes[i];
        i += 1;
    }
    assert(r@ =~= bytes@);
    r
}

/// Puts a digest in its place.
pub fn put_hash(hashes: &mut Vec<Option<[u8; 16]>>, index: usize, hash: &Option<Vec<u8>>)
    requires
        index < usize::MAX,
    ensures
        hashes_of(final(hashes)@) == with_hash(
            hashes_of(old(hashes)@),
            index as nat,
            match hash {
                Some(bytes) => Some(bytes@),
                None => None,
            },
        ),
{
    let ghost before = hashes_of(hashes@);
    let ghost start = hashes@;
    while hashes.len() <= index
        invariant
            index < usize::MAX,
            start.len() <= hashes@.len(),
            hashes@.len() <= index + 1 || hashes@.len() == start.len(),
            forall|i: int|
                0 <= i < hashes@.len() ==> #[trigger] hashes@[i] == if i < start.len() {
                    start[i]
                } else {
                    None
                },
        decreases index + 1 - hashes@.len(),
    {
        hashes.push(None);
    }
    let ghost long = hashes_of(hashes@);
    assert(long =~= with_hash(before, index as nat, None));
    if let Some(bytes) = hash {
        if bytes.len() == 16 {
            let array = array_of(bytes);
            hashes[index] = Some(array);
            assert(hashes_of(hashes@) =~= long.update(index as int, Some(bytes@)));
        }
    }
}

fn put_row(files: &mut HashMap<usize, Vec<Option<[u8; 16]>>>, row: &ChunkHashRow)
    requires
        row_fits(*row),
    ensures
        hash_map_view(final(files)@) == with_row(hash_map_view(old(files)@), *row),
{
    let ghost before = files@;
    let file: usize = #[verifier::truncate]
    (row.file_id as usize);
    let mut hashes: Vec<Option<[u8; 16]>> = match files.remove(&file) {
        Some(hashes) => hashes,
        None => Vec::new(),
    };
    proof {
        assert(hashes_of(Seq::<Option<[u8; 16]>>::empty()) =~= Seq::<Option<Seq<u8>>>::empty());
        assert(hashes_of(hashes@) == known_hashes(hash_map_view(before), file));
    }
    if row.chunk_index >= 0 {
        put_hash(&mut hashes, row.chunk_index as usize, &row.hash);
    }
    files.insert(file, hashes);
    assert(hash_map_view(files@) =~= with_row(hash_map_view(before), *row));
}

/// The digests that the rows of a download stand for, by file, and the rows that
/// should be deleted.
pub fn load_download_chunk_hashes(rows: Vec<ChunkHashRow>) -> (r: (
    HashMap<usize, Vec<Option<[u8; 16]>>>,
    Vec<(i64, i64)>,
))
    requires
        forall|i: int| 0 <= i < rows@.len() ==> row_fits(#[trigger] rows@[i]),
    ensures
        hash_map_view(r.0@) == hashes_in(rows@),
        r.1@ == useless_rows(rows@),
{
    let mut files: HashMap<usize, Vec<Option<[u8; 16]>>> = HashMap::new();
    let mut useless: Vec<(i64, i64)> = Vec::new();
    let mut i: usize = 0;
    assert(hash_map_view(files@) =~= hashes_in(rows@.take(0)));
    while i < rows.len()
        invariant
            i <= rows@.len(),
            forall|k: int| 0 <= k < rows@.len() ==> row_fits(#[trigger] rows@[k]),
            hash_map_view(files@) == hashes_in(rows@.take(i as int)),
            useless@ == useless_rows(rows@.take(i as int)),
        decreases rows@.len() - i,
    {
        let row = &rows[i];
        assert(rows@.take(i + 1).drop_last() =~= rows@.take(i as int));
        assert(rows@.take(i + 1).last() == rows@[i as int]);
        assert(row_fits(rows@[i as int]));
        put_row(&mut files, row);
        if row.chunk_index < 0 {
            useless.push((row.file_id, row.chunk_index));
        }
        i += 1;
    }
    assert(rows@.take(i as int) =~= rows@);
    (files, useless)
}

/// The digests of several downloads with those of one more row.
pub open spec fn with_download_row(
    all: Map<usize, Map<usize, Seq<Option<Seq<u8>>>>>,
    row: ChunkHashRow,
) -> Map<usize, Map<usize, Seq<Option<Seq<u8>>>>> {
    let download = row.download_id as usize;
    let files = if all.contains_key(download) {
        all[download]
    } else {
        Map::empty()
    };
    all.insert(download, with_row(files, row))
}

/// The digests that rows stand for, by download and file.
pub open spec fn all_hashes_in(rows: Seq<ChunkHashRow>) -> Map<
    usize,
    Map<usize, Seq<Option<Seq<u8>>>>,
>
    decreases rows.len(),
{
    if rows.len() == 0 {
        Map::empty()
    } else {
        with_download_row(all_hashes_in(rows.drop_last()), rows.last())
    }
}

/// The digests in a map of maps, in mathematical values.
pub open spec fn all_hashes_view(
    m: Map<usize, HashMap<usize, Vec<Option<[u8; 16]>>>>,
) -> Map<usize, Map<usize, Seq<Option<Seq<u8>>>>> {
    Map::new(|k: usize| m.contains_key(k), |k: usize| hash_map_view(m[k]@))
}

/// The first place that is negative.
pub open spec fn first_bad_index(rows: Seq<ChunkHashRow>) -> Option<i64>
    decreases rows.len(),
{
    if rows.len() == 0 {
        None
    } else if rows[0].chunk_index < 0 {
        Some(rows[0].chunk_index)
    } else {
        first_bad_index(rows.drop_first())
    }
}

/// The digests of all downloads, by download and file. One negative place spoils
/// everything, and is told.
pub fn load_chunk_hashes(rows: &Vec<ChunkHashRow>) -> (r: Result<
    HashMap<usize, HashMap<usize, Vec<Option<[u8; 16]>>>>,
    i64,
>)
    requires
        forall|i: int| 0 <= i < rows@.len() ==> row_fits(#[trigger] rows@[i]),
    ensures
        match r {
            Ok(all) => first_bad_index(rows@).is_none() && all_hashes_view(all@)
                == all_hashes_in(rows@),
            Err(index) => first_bad_index(rows@) == Some(index),
        },
{
    let mut all: HashMap<usize, HashMap<usize, Vec<Option<[u8; 16]>>>> = HashMap::new();
    let mut i: usize = 0;
    assert(all_hashes_view(all@) =~= all_hashes_in(rows@.take(0)));
    assert(rows@.skip(0) =~= rows@);
    while i < rows.len()
        invariant
            i <= rows@.len(),
            forall|k: int| 0 <= k < rows@.len() ==> row_fits(#[trigger] rows@[k]),
            first_bad_index(rows@) == first_bad_index(rows@.skip(i as int)),
            all_hashes_view(all@) == all_hashes_in(rows@.take(i as int)),
        decreases rows@.len() - i,
    {
        let row = &rows[i];
        proof {
            assert(rows@.take(i + 1).drop_last() =~= rows@.take(i as int));
            assert(rows@.take(i + 1).last() == rows@[i as int]);
            assert(rows@.skip(i as int).drop_first() =~= rows@.skip(i + 1));
            assert(rows@.skip(i as int)[0] == rows@[i as int]);
            assert(row_fits(rows@[i as int]));
        }
        if row.chunk_index < 0 {
            return Err(row.chunk_index);
        }
        let ghost before = all@;
        let download: usize = #[verifier::truncate]
        (row.download_id as usize);
        let mut files: HashMap<usize, Vec<Option<[u8; 16]>>> = match all.remove(&download) {
            Some(files) => files,
            None => HashMap::new(),
        };
        let ghost known = hash_map_view(files@);
        proof {
            if !before.contains_key(download) {
                assert(known =~= Map::empty());
            }
        }
        put_row(&mut files, row);
        all.insert(download, files);
        assert(all_hashes_view(all@) =~= with_download_row(all_hashes_view(before), *row));
        i += 1;
    }
    assert(rows@.take(i as int) =~= rows@);
    Ok(all)
}

} // verus!
